use vstd::prelude::*;

verus! {

broadcast use vstd::string::group_string_axioms;

/// Where the database and the settings files live. With a `portable.txt`
/// file beside the program everything stays in the working directory;
/// otherwise it goes to the `Pexand` folder of the user's application data
/// (the working directory when that location is unknown).
pub struct Database;

/// The path components of a file kept at the usual place.
pub open spec fn location_parts(portable: bool, appdata: Option<Seq<char>>, file: Seq<char>) -> Seq<
    Seq<char>,
> {
    if portable {
        seq![file]
    } else {
        seq![
            match appdata {
                Some(a) => a,
                None => seq!['.'],
            },
            seq!['P', 'e', 'x', 'a', 'n', 'd'],
            file,
        ]
    }
}

/// The name of the database file.
pub open spec fn database_file() -> Seq<char> {
    seq!['p', 'e', 'x', 'a', 'n', 'd', '.', 'd', 'b']
}

/// The texts of a list of strings.
pub open spec fn part_views(v: Seq<String>) -> Seq<Seq<char>> {
    v.map_values(|s: String| s@)
}

impl Database {
    /// The components of the path of a file, to be joined in order:
    /// `portable` tells whether `portable.txt` exists, and `appdata` is the
    /// `APPDATA` variable when it is set.
    pub fn location_of(portable: bool, appdata: Option<String>, file: &str) -> (p: Vec<String>)
        ensures
            part_views(p@) == location_parts(
                portable,
                match appdata {
                    Some(a) => Some(a@),
                    None => None,
                },
                file@,
            ),
    {
        let ghost a_view = match &appdata {
            Some(a) => Some(a@),
            None => None,
        };
        let ghost expected = location_parts(portable, a_view, file@);
        let mut p: Vec<String> = Vec::new();
        if !portable {
            let base = match appdata {
                Some(a) => a,
                None => {
                    proof {
                        reveal_strlit(".");
                        assert("."@ =~= seq!['.']);
                    }
                    String::from_str(".")
                },
            };
            p.push(base);
            proof {
                reveal_strlit("Pexand");
                assert("Pexand"@ =~= seq!['P', 'e', 'x', 'a', 'n', 'd']);
            }
            p.push(String::from_str("Pexand"));
            p.push(String::from_str(file));
            proof {
                assert(part_views(p@)[0] == expected[0]);
                assert(part_views(p@)[1] == expected[1]);
                assert(part_views(p@)[2] == expected[2]);
            }
        } else {
            p.push(String::from_str(file));
            proof {
                assert(part_views(p@)[0] == expected[0]);
            }
        }
        proof {
            assert(part_views(p@) =~= expected);
        }
        p
    }

    /// The components of the database path: `pexand.db`, alone in portable
    /// mode and otherwise under the `Pexand` folder of the application data.
    pub fn database_path_parts(portable: bool, appdata: Option<String>) -> (p: Vec<String>)
        ensures
            part_views(p@) == location_parts(
                portable,
                match appdata {
                    Some(a) => Some(a@),
                    None => None,
                },
                database_file(),
            ),
    {
        proof {
            reveal_strlit("pexand.db");
            assert("pexand.db"@ =~= database_file());
        }
        Self::location_of(portable, appdata, "pexand.db")
    }
}

} // verus!
