use vstd::prelude::*;

use crate::text::{chars_of, push_char, string_from_chars};

pub use super::recursion::{contains_recursion, detect_recursion_chain};
use super::recursion::string_views;

verus! {

broadcast use vstd::string::group_string_axioms;

// ---------------------------------------------------------------------------
// Date formatting (chrono)
// ---------------------------------------------------------------------------

/// Whether chrono accepts `fmt` as a strftime format string, that is, whether
/// `chrono::format::StrftimeItems::new(fmt).parse()` succeeds.
pub uninterp spec fn strftime_valid(fmt: Seq<char>) -> bool;

/// Calls `chrono::format::StrftimeItems::new(fmt).parse()` and tells whether
/// it succeeded; the result is exactly `strftime_valid(fmt)`.
#[verifier::external_body]
fn strftime_is_valid(fmt: &str) -> (b: bool)
    ensures
        b == strftime_valid(fmt@),
{
    chrono::format::StrftimeItems::new(fmt).parse().is_ok()
}

/// The text chrono writes, with strftime format `fmt`, for the instant
/// `secs` seconds and `nanos` nanoseconds after the Unix epoch, seen at a
/// UTC offset of `offset` seconds: `DateTime::from_timestamp(secs, nanos)`
/// in `FixedOffset::east_opt(offset)`, formatted and turned into a string.
pub uninterp spec fn strftime_text(fmt: Seq<char>, secs: i64, nanos: u32, offset: i32) -> Seq<char>;

/// Whether chrono can build the instant `secs` seconds and `nanos`
/// nanoseconds after the Unix epoch: `DateTime::from_timestamp` gives one.
pub uninterp spec fn timestamp_representable(secs: i64, nanos: u32) -> bool;

/// Reads the clock: calls `chrono::Local::now()` and returns its UTC
/// timestamp, its sub-second nanoseconds and its UTC offset in seconds.
///
/// The reading depends on the clock and the time zone, so its value is not
/// stated. chrono builds it with `DateTime::from_timestamp` (which gave an
/// instant, or `now` would have panicked) and with a `FixedOffset`, whose
/// constructors keep the offset within a day.
#[verifier::external_body]
fn local_now() -> (r: (i64, u32, i32))
    ensures
        timestamp_representable(r.0, r.1),
        -86_400 < r.2 < 86_400,
{
    let now = chrono::Local::now();
    (now.timestamp(), now.timestamp_subsec_nanos(), now.offset().local_minus_utc())
}

/// Formats an instant: calls `DateTime::from_timestamp(secs, nanos)`, moves
/// it to `FixedOffset::east_opt(offset)` with `with_timezone`, and formats it
/// with `format(fmt).to_string()`; the text is `strftime_text`.
///
/// The instant and the offset must be ones chrono can build, and the format
/// one chrono accepts (else `to_string` panics).
#[verifier::external_body]
fn format_instant(fmt: &str, secs: i64, nanos: u32, offset: i32) -> (s: String)
    requires
        strftime_valid(fmt@),
        timestamp_representable(secs, nanos),
        -86_400 < offset < 86_400,
    ensures
        s@ == strftime_text(fmt@, secs, nanos, offset),
{
    chrono::DateTime::from_timestamp(secs, nanos).unwrap().with_timezone(
        &chrono::FixedOffset::east_opt(offset).unwrap(),
    ).format(fmt).to_string()
}

// ---------------------------------------------------------------------------
// The template language
// ---------------------------------------------------------------------------

/// The position, at or after `k`, of the first `}}` in `s`.
pub open spec fn find_close(s: Seq<char>, k: int) -> Option<int>
    decreases s.len() - k,
{
    if k < 0 || k + 1 >= s.len() {
        None
    } else if s[k] == '}' && s[k + 1] == '}' {
        Some(k)
    } else {
        find_close(s, k + 1)
    }
}

/// The position, at or after `k`, of the first `:` in `s`.
pub open spec fn find_colon(s: Seq<char>, k: int) -> Option<int>
    decreases s.len() - k,
{
    if k < 0 || k >= s.len() {
        None
    } else if s[k] == ':' {
        Some(k)
    } else {
        find_colon(s, k + 1)
    }
}

/// A piece at the front of a template.
pub enum Piece {
    /// A character copied as it is.
    Literal(char),
    /// `{{name}}`: a variable with its name (or `name:format`).
    Variable(Seq<char>),
    /// `{{` never closed: the rest of the template after the braces.
    Unclosed(Seq<char>),
}

/// The piece at the front of a non-empty template, and how many characters
/// it takes.
pub open spec fn first_piece(t: Seq<char>) -> (Piece, int) {
    if t.len() >= 2 && t[0] == '{' && t[1] == '{' {
        match find_close(t.skip(2), 0) {
            Some(k) => (Piece::Variable(t.subrange(2, 2 + k)), k + 4),
            None => (Piece::Unclosed(t.skip(2)), t.len() as int),
        }
    } else {
        (Piece::Literal(t[0]), 1)
    }
}

/// What a variable name asks for.
pub enum VarKind {
    /// The current date in the given strftime format.
    Date(Seq<char>),
    /// The clipboard's text.
    Clipboard,
    /// The cursor placeholder, which expands to nothing.
    Cursor,
    /// A name that is not understood.
    Unknown,
}

pub open spec fn word_date() -> Seq<char> {
    seq!['d', 'a', 't', 'e']
}

pub open spec fn word_clipboard() -> Seq<char> {
    seq!['c', 'l', 'i', 'p', 'b', 'o', 'a', 'r', 'd']
}

pub open spec fn word_cursor() -> Seq<char> {
    seq!['c', 'u', 'r', 's', 'o', 'r']
}

/// The date format used by a bare `{{date}}`: `%Y-%m-%d`.
pub open spec fn default_date_format() -> Seq<char> {
    seq!['%', 'Y', '-', '%', 'm', '-', '%', 'd']
}

/// The meaning of a variable: `date:FORMAT` is a date in that format (the
/// name ends at the first colon); otherwise `date`, `clipboard` and `cursor`
/// are known.
pub open spec fn var_kind(v: Seq<char>) -> VarKind {
    match find_colon(v, 0) {
        Some(c) => if v.take(c) == word_date() {
            VarKind::Date(v.skip(c + 1))
        } else {
            VarKind::Unknown
        },
        None => if v == word_date() {
            VarKind::Date(default_date_format())
        } else if v == word_clipboard() {
            VarKind::Clipboard
        } else if v == word_cursor() {
            VarKind::Cursor
        } else {
            VarKind::Unknown
        },
    }
}

/// `{{v}}`: a variable written back as it stood.
pub open spec fn braced(v: Seq<char>) -> Seq<char> {
    seq!['{', '{'] + v + seq!['}', '}']
}

/// The text a variable expands to, given the date text produced for it and
/// the clipboard's text (`None` when it could not be read).
pub open spec fn var_output(v: Seq<char>, date: Seq<char>, clipboard: Option<Seq<char>>) -> Seq<
    char,
> {
    match var_kind(v) {
        VarKind::Date(_) => date,
        VarKind::Clipboard => match clipboard {
            Some(c) => c,
            None => braced(v),
        },
        VarKind::Cursor => Seq::empty(),
        VarKind::Unknown => braced(v),
    }
}

/// Whether a piece is a date variable.
pub open spec fn is_date_piece(p: Piece) -> bool {
    p matches Piece::Variable(v) && var_kind(v) is Date
}

/// The expansion of template `t`, where the date variables, in order, give
/// the texts of `dates`.
pub open spec fn render(t: Seq<char>, dates: Seq<Seq<char>>, clipboard: Option<Seq<char>>) -> Seq<
    char,
>
    decreases t.len(),
{
    if t.len() == 0 {
        Seq::empty()
    } else {
        let (p, n) = first_piece(t);
        if n <= 0 || n > t.len() {
            Seq::empty()
        } else {
            let rest = render(
                t.skip(n),
                if is_date_piece(p) {
                    dates.drop_first()
                } else {
                    dates
                },
                clipboard,
            );
            match p {
                Piece::Literal(c) => seq![c] + rest,
                Piece::Variable(v) => var_output(v, dates[0], clipboard) + rest,
                Piece::Unclosed(r) => seq!['{', '{'] + r + rest,
            }
        }
    }
}

/// Every date variable of `t` has a format that chrono accepts.
pub open spec fn date_formats_valid(t: Seq<char>) -> bool
    decreases t.len(),
{
    if t.len() == 0 {
        true
    } else {
        let (p, n) = first_piece(t);
        if n <= 0 || n > t.len() {
            true
        } else {
            (match p {
                Piece::Variable(v) => match var_kind(v) {
                    VarKind::Date(f) => strftime_valid(f),
                    _ => true,
                },
                _ => true,
            }) && date_formats_valid(t.skip(n))
        }
    }
}

/// The clipboard text, as the template language sees it.
pub open spec fn clipboard_view(c: &Option<String>) -> Option<Seq<char>> {
    match c {
        Some(s) => Some(s@),
        None => None,
    }
}

// ---------------------------------------------------------------------------
// Scanning templates
// ---------------------------------------------------------------------------

/// A piece found in a template, by position.
enum Token {
    Literal(char),
    /// The name lies in `chars[from..to]`.
    Variable(usize, usize),
    /// The unclosed rest starts at this position.
    Unclosed(usize),
}

spec fn token_is(tok: Token, chars: Seq<char>, p: Piece) -> bool {
    match (tok, p) {
        (Token::Literal(c), Piece::Literal(d)) => c == d,
        (Token::Variable(a, b), Piece::Variable(v)) => a <= b <= chars.len() && chars.subrange(
            a as int,
            b as int,
        ) == v,
        (Token::Unclosed(a), Piece::Unclosed(r)) => a <= chars.len() && chars.skip(a as int) == r,
        _ => false,
    }
}

/// The piece that starts at position `i`, and the position after it.
fn next_token(chars: &Vec<char>, i: usize) -> (r: (Token, usize))
    requires
        i < chars.len(),
    ensures
        i < r.1 <= chars.len(),
        first_piece(chars@.skip(i as int)).1 == r.1 - i,
        token_is(r.0, chars@, first_piece(chars@.skip(i as int)).0),
{
    let n = chars.len();
    let ghost t = chars@.skip(i as int);
    if i + 1 < n && chars[i] == '{' && chars[i + 1] == '{' {
        let ghost rest = t.skip(2);
        proof {
            assert(rest =~= chars@.skip(i + 2));
        }
        let mut j = i + 2;
        while j < n - 1
            invariant
                i + 2 <= j <= n == chars@.len(),
                i + 1 < n,
                chars@[i as int] == '{' && chars@[i + 1] == '{',
                t == chars@.skip(i as int),
                rest == t.skip(2),
                rest == chars@.skip(i + 2),
                find_close(rest, 0) == find_close(rest, j - (i + 2)),
            decreases n - j,
        {
            if chars[j] == '}' && chars[j + 1] == '}' {
                proof {
                    let k = j - (i + 2);
                    assert(rest[k] == chars@[j as int]);
                    assert(rest[k + 1] == chars@[j + 1]);
                    assert(find_close(rest, k) == Some(k));
                    assert(t.subrange(2, 2 + k) =~= chars@.subrange(i + 2, j as int));
                }
                return (Token::Variable(i + 2, j), j + 2);
            }
            proof {
                let k = j - (i + 2);
                assert(rest[k] == chars@[j as int]);
                assert(rest[k + 1] == chars@[j + 1]);
            }
            j = j + 1;
        }
        proof {
            assert(t.skip(2) =~= chars@.skip(i + 2));
        }
        (Token::Unclosed(i + 2), n)
    } else {
        (Token::Literal(chars[i]), i + 1)
    }
}

/// What a variable name asks for, in executable form.
enum Kind {
    Date(String),
    Clipboard,
    Cursor,
    Unknown,
}

spec fn kind_is(k: Kind, v: VarKind) -> bool {
    match (k, v) {
        (Kind::Date(s), VarKind::Date(f)) => s@ == f,
        (Kind::Clipboard, VarKind::Clipboard) => true,
        (Kind::Cursor, VarKind::Cursor) => true,
        (Kind::Unknown, VarKind::Unknown) => true,
        _ => false,
    }
}

/// Whether `v[from..to]` spells `w`.
fn range_equals(v: &Vec<char>, from: usize, to: usize, w: &Vec<char>) -> (b: bool)
    requires
        from <= to <= v.len(),
    ensures
        b == (v@.subrange(from as int, to as int) == w@),
{
    if to - from != w.len() {
        return false;
    }
    let mut k: usize = 0;
    while k < w.len()
        invariant
            from <= to <= v.len(),
            to - from == w.len(),
            0 <= k <= w.len(),
            forall|m: int| 0 <= m < k ==> v@[from + m] == w@[m],
        decreases w.len() - k,
    {
        if v[from + k] != w[k] {
            proof {
                assert(v@.subrange(from as int, to as int)[k as int] != w@[k as int]);
            }
            return false;
        }
        k = k + 1;
    }
    proof {
        assert(v@.subrange(from as int, to as int) =~= w@);
    }
    true
}

/// Classifies a variable name.
fn classify(v: &Vec<char>) -> (k: Kind)
    ensures
        kind_is(k, var_kind(v@)),
{
    let date = vec!['d', 'a', 't', 'e'];
    proof {
        assert(date@ =~= word_date());
    }
    let n = v.len();
    let mut c: usize = 0;
    while c < n
        invariant
            0 <= c <= n == v@.len(),
            date@ == word_date(),
            find_colon(v@, 0) == find_colon(v@, c as int),
        decreases n - c,
    {
        if v[c] == ':' {
            if range_equals(v, 0, c, &date) {
                proof {
                    assert(v@.subrange(0, c as int) =~= v@.take(c as int));
                    assert(v@.subrange(c + 1, n as int) =~= v@.skip(c + 1));
                }
                return Kind::Date(string_from_chars(v, c + 1, n));
            } else {
                proof {
                    assert(v@.subrange(0, c as int) =~= v@.take(c as int));
                }
                return Kind::Unknown;
            }
        }
        c = c + 1;
    }
    let clipboard = vec!['c', 'l', 'i', 'p', 'b', 'o', 'a', 'r', 'd'];
    let cursor = vec!['c', 'u', 'r', 's', 'o', 'r'];
    proof {
        assert(v@.subrange(0, n as int) =~= v@);
        assert(clipboard@ =~= word_clipboard());
        assert(cursor@ =~= word_cursor());
    }
    if range_equals(v, 0, n, &date) {
        proof {
            reveal_strlit("%Y-%m-%d");
            assert("%Y-%m-%d"@ =~= default_date_format());
        }
        Kind::Date(String::from_str("%Y-%m-%d"))
    } else if range_equals(v, 0, n, &clipboard) {
        Kind::Clipboard
    } else if range_equals(v, 0, n, &cursor) {
        Kind::Cursor
    } else {
        Kind::Unknown
    }
}

/// The characters `v[from..to]` as a vector.
fn copy_range(v: &Vec<char>, from: usize, to: usize) -> (r: Vec<char>)
    requires
        from <= to <= v.len(),
    ensures
        r@ == v@.subrange(from as int, to as int),
{
    let mut r: Vec<char> = Vec::new();
    let mut k = from;
    while k < to
        invariant
            from <= k <= to <= v.len(),
            r@ == v@.subrange(from as int, k as int),
        decreases to - k,
    {
        r.push(v[k]);
        k = k + 1;
        proof {
            assert(r@ =~= v@.subrange(from as int, k as int));
        }
    }
    r
}

/// Appends `{{name}}` to `out`.
fn push_braced(out: &mut String, name: &Vec<char>)
    ensures
        final(out)@ == old(out)@ + braced(name@),
{
    push_char(out, '{');
    push_char(out, '{');
    let s = string_from_chars(name, 0, name.len());
    out.append(s.as_str());
    push_char(out, '}');
    push_char(out, '}');
    proof {
        assert(name@.subrange(0, name@.len() as int) =~= name@);
        assert(final(out)@ =~= old(out)@ + braced(name@));
    }
}

/// The formats of the date variables of `t`, in order.
pub open spec fn date_formats_of(t: Seq<char>) -> Seq<Seq<char>>
    decreases t.len(),
{
    if t.len() == 0 {
        Seq::empty()
    } else {
        let (p, n) = first_piece(t);
        if n <= 0 || n > t.len() {
            Seq::empty()
        } else {
            let rest = date_formats_of(t.skip(n));
            match p {
                Piece::Variable(v) => match var_kind(v) {
                    VarKind::Date(f) => seq![f] + rest,
                    _ => rest,
                },
                _ => rest,
            }
        }
    }
}

/// When every date format of `t` is valid, each one listed is.
proof fn lemma_listed_formats_valid(t: Seq<char>)
    requires
        date_formats_valid(t),
    ensures
        forall|i: int| 0 <= i < date_formats_of(t).len() ==> strftime_valid(#[trigger] date_formats_of(t)[i]),
    decreases t.len(),
{
    if t.len() > 0 {
        let (p, n) = first_piece(t);
        if n > 0 && n <= t.len() {
            lemma_listed_formats_valid(t.skip(n));
            let rest = date_formats_of(t.skip(n));
            match p {
                Piece::Variable(v) => match var_kind(v) {
                    VarKind::Date(f) => {
                        assert forall|i: int| 0 <= i < date_formats_of(t).len() implies strftime_valid(
                            #[trigger] date_formats_of(t)[i],
                        ) by {
                            if i > 0 {
                                assert(date_formats_of(t)[i] == rest[i - 1]);
                            }
                        }
                    },
                    _ => {},
                },
                _ => {},
            }
        }
    }
}

/// The formats of the date variables of `text`, in order: the ones a
/// parse hands to the clock.
pub fn date_formats(text: &str) -> (r: Vec<String>)
    ensures
        string_views(r@) == date_formats_of(text@),
{
    let chars = chars_of(text);
    let n = chars.len();
    let mut r: Vec<String> = Vec::new();
    let mut i: usize = 0;
    proof {
        assert(chars@.skip(0) =~= chars@);
        assert(string_views(r@) + date_formats_of(chars@.skip(0)) =~= date_formats_of(chars@));
    }
    while i < n
        invariant
            0 <= i <= n == chars@.len(),
            chars@ == text@,
            date_formats_of(chars@) == string_views(r@) + date_formats_of(chars@.skip(i as int)),
        decreases n - i,
    {
        let ghost t = chars@.skip(i as int);
        let ghost old_r = string_views(r@);
        let (tok, next) = next_token(&chars, i);
        proof {
            assert(t.skip(first_piece(t).1) =~= chars@.skip(next as int));
        }
        match tok {
            Token::Variable(a, b) => {
                let name = copy_range(&chars, a, b);
                match classify(&name) {
                    Kind::Date(f) => {
                        r.push(f);
                        proof {
                            assert(string_views(r@) =~= old_r.push(r@.last()@));
                            assert(old_r.push(r@.last()@) + date_formats_of(chars@.skip(next as int)) =~= old_r
                                + (seq![r@.last()@] + date_formats_of(chars@.skip(next as int))));
                        }
                    },
                    _ => {},
                }
            },
            _ => {},
        }
        i = next;
    }
    proof {
        assert(chars@.skip(n as int) =~= Seq::<char>::empty());
        assert(string_views(r@) + Seq::<Seq<char>>::empty() =~= string_views(r@));
    }
    r
}

/// Expands the variables of a template, taking the text of its `k`-th date
/// variable from `dates[k]`.
pub fn expand_with_dates(text: &str, dates: &Vec<String>, clipboard: &Option<String>) -> (r: String)
    requires
        dates@.len() == date_formats_of(text@).len(),
    ensures
        r@ == render(text@, string_views(dates@), clipboard_view(clipboard)),
{
    let chars = chars_of(text);
    let n = chars.len();
    let ghost cv = clipboard_view(clipboard);
    let ghost dv = string_views(dates@);
    let mut result = String::new();
    let mut i: usize = 0;
    let mut k: usize = 0;
    let total = dates.len();
    let ghost mut produced: Seq<Seq<char>> = Seq::empty();
    proof {
        assert(chars@.skip(0) =~= chars@);
        assert forall|d: Seq<Seq<char>>|
            #[trigger] render(chars@, produced + d, cv) == result@ + render(chars@.skip(0), d, cv) by {
            assert(produced + d =~= d);
            assert(result@ + render(chars@.skip(0), d, cv) =~= render(chars@.skip(0), d, cv));
        }
    }
    while i < n
        invariant
            0 <= i <= n == chars@.len(),
            chars@ == text@,
            cv == clipboard_view(clipboard),
            dv == string_views(dates@),
            k <= dates@.len(),
            total == dates@.len(),
            produced == dv.take(k as int),
            k + date_formats_of(chars@.skip(i as int)).len() == dates@.len(),
            forall|d: Seq<Seq<char>>|
                #[trigger] render(chars@, produced + d, cv) == result@ + render(
                    chars@.skip(i as int),
                    d,
                    cv,
                ),
        decreases n - i,
    {
        let ghost t = chars@.skip(i as int);
        let ghost old_result = result@;
        let ghost old_produced = produced;
        let (tok, next) = next_token(&chars, i);
        let ghost p = first_piece(t).0;
        let ghost m = first_piece(t).1;
        proof {
            assert(t.skip(m) =~= chars@.skip(next as int));
        }
        match tok {
            Token::Literal(c) => {
                push_char(&mut result, c);
                proof {
                    assert forall|d: Seq<Seq<char>>|
                        #[trigger] render(chars@, produced + d, cv) == result@ + render(
                            chars@.skip(next as int),
                            d,
                            cv,
                        ) by {
                        assert(render(chars@, old_produced + d, cv) == old_result + render(t, d, cv));
                        assert(render(t, d, cv) == seq![c] + render(t.skip(m), d, cv));
                        assert(result@ + render(chars@.skip(next as int), d, cv) =~= old_result
                            + (seq![c] + render(t.skip(m), d, cv)));
                    }
                }
            },
            Token::Variable(a, b) => {
                let name = copy_range(&chars, a, b);
                let kind = classify(&name);
                match kind {
                    Kind::Date(_) => {
                        proof {
                            assert(t.skip(m) =~= chars@.skip(next as int));
                            assert(date_formats_of(t).len() == date_formats_of(t.skip(m)).len() + 1);
                        }
                        let v = dates[k].clone();
                        result.append(v.as_str());
                        k = k + 1;
                        proof {
                            assert(dv[k - 1] == v@);
                            assert(dv.take(k as int) =~= produced.push(v@));
                            produced = produced.push(v@);
                            assert forall|d: Seq<Seq<char>>|
                                #[trigger] render(chars@, produced + d, cv) == result@ + render(
                                    chars@.skip(next as int),
                                    d,
                                    cv,
                                ) by {
                                let d2 = seq![v@] + d;
                                assert(produced + d =~= old_produced + d2);
                                assert(render(chars@, old_produced + d2, cv) == old_result + render(
                                    t,
                                    d2,
                                    cv,
                                ));
                                assert(d2.drop_first() =~= d);
                                assert(render(t, d2, cv) == v@ + render(t.skip(m), d, cv));
                                assert(result@ + render(chars@.skip(next as int), d, cv) =~= old_result
                                    + (v@ + render(t.skip(m), d, cv)));
                            }
                        }
                    },
                    _ => {
                        match kind {
                            Kind::Clipboard => match clipboard {
                                Some(c) => {
                                    result.append(c.as_str());
                                },
                                None => {
                                    push_braced(&mut result, &name);
                                },
                            },
                            Kind::Cursor => {},
                            _ => {
                                push_braced(&mut result, &name);
                            },
                        }
                        proof {
                            let out = var_output(name@, Seq::empty(), cv);
                            assert(result@ == old_result + out);
                            assert forall|d: Seq<Seq<char>>|
                                #[trigger] render(chars@, produced + d, cv) == result@ + render(
                                    chars@.skip(next as int),
                                    d,
                                    cv,
                                ) by {
                                assert(render(chars@, old_produced + d, cv) == old_result + render(
                                    t,
                                    d,
                                    cv,
                                ));
                                assert(render(t, d, cv) == out + render(t.skip(m), d, cv));
                                assert(result@ + render(chars@.skip(next as int), d, cv) =~= old_result
                                    + (out + render(t.skip(m), d, cv)));
                            }
                        }
                    },
                }
            },
            Token::Unclosed(a) => {
                push_char(&mut result, '{');
                push_char(&mut result, '{');
                let rest = string_from_chars(&chars, a, n);
                result.append(rest.as_str());
                proof {
                    assert(chars@.subrange(a as int, n as int) =~= chars@.skip(a as int));
                    assert(chars@.skip(next as int) =~= Seq::<char>::empty());
                    assert forall|d: Seq<Seq<char>>|
                        #[trigger] render(chars@, produced + d, cv) == result@ + render(
                            chars@.skip(next as int),
                            d,
                            cv,
                        ) by {
                        assert(render(chars@, old_produced + d, cv) == old_result + render(t, d, cv));
                        assert(render(t, d, cv) == seq!['{', '{'] + chars@.skip(a as int) + render(
                            t.skip(m),
                            d,
                            cv,
                        ));
                        assert(result@ + render(chars@.skip(next as int), d, cv) =~= old_result + (
                        seq!['{', '{'] + chars@.skip(a as int) + render(t.skip(m), d, cv)));
                    }
                }
            },
        }
        i = next;
    }
    proof {
        assert(chars@.skip(n as int) =~= Seq::<char>::empty());
        assert(dv.take(k as int) =~= dv);
        assert(produced + Seq::<Seq<char>>::empty() =~= produced);
        assert(render(chars@, produced + Seq::<Seq<char>>::empty(), cv) == result@ + render(
            chars@.skip(n as int),
            Seq::<Seq<char>>::empty(),
            cv,
        ));
        assert(result@ + Seq::<char>::empty() =~= result@);
    }
    result
}

/// Whether chrono accepts every date format used in the template.
fn formats_are_valid(text: &str) -> (b: bool)
    ensures
        b == date_formats_valid(text@),
{
    let chars = chars_of(text);
    let n = chars.len();
    let mut i: usize = 0;
    proof {
        assert(chars@.skip(0) =~= chars@);
    }
    while i < n
        invariant
            0 <= i <= n == chars@.len(),
            chars@ == text@,
            date_formats_valid(chars@) == date_formats_valid(chars@.skip(i as int)),
        decreases n - i,
    {
        let ghost t = chars@.skip(i as int);
        let (tok, next) = next_token(&chars, i);
        proof {
            assert(t.skip(first_piece(t).1) =~= chars@.skip(next as int));
        }
        match tok {
            Token::Variable(a, b) => {
                let name = copy_range(&chars, a, b);
                match classify(&name) {
                    Kind::Date(f) => {
                        if !strftime_is_valid(f.as_str()) {
                            return false;
                        }
                    },
                    _ => {},
                }
            },
            _ => {},
        }
        i = next;
    }
    true
}

/// `dates` are the texts chrono writes with `formats`, in order, each for
/// the instant and offset of `instants` at the same place.
pub open spec fn formatted_at(
    formats: Seq<Seq<char>>,
    dates: Seq<Seq<char>>,
    instants: Seq<(i64, u32, i32)>,
) -> bool {
    &&& dates.len() == formats.len()
    &&& instants.len() == dates.len()
    &&& forall|k: int|
        0 <= k < dates.len() ==> #[trigger] dates[k] == strftime_text(
            formats[k],
            instants[k].0,
            instants[k].1,
            instants[k].2,
        )
}

/// `s` is the expansion of `text`, each date variable taking the text chrono
/// writes with that variable's format for some instant and offset.
pub open spec fn is_dated_expansion(text: Seq<char>, clipboard: Option<Seq<char>>, s: Seq<char>) -> bool {
    exists|dates: Seq<Seq<char>>, instants: Seq<(i64, u32, i32)>|
        #[trigger] formatted_at(date_formats_of(text), dates, instants) && s == render(
            text,
            dates,
            clipboard,
        )
}

/// The message `parse` gives when called too deeply.
pub open spec fn depth_exceeded_message() -> Seq<char> {
    "Maximum recursion depth exceeded"@
}

/// Expands dynamic variables (`{{date}}`, `{{date:FORMAT}}`,
/// `{{clipboard}}`, `{{cursor}}`) in snippet bodies.
pub struct VariableParser {
    recursion_depth: usize,
    max_depth: usize,
}

impl VariableParser {
    /// The current nesting of `parse` calls.
    pub closed spec fn depth(&self) -> nat {
        self.recursion_depth as nat
    }

    /// The nesting at which `parse` refuses to run.
    pub closed spec fn max_depth(&self) -> nat {
        self.max_depth as nat
    }

    /// Creates a parser with nesting limit 5.
    pub fn new() -> (p: Self)
        ensures
            p.depth() == 0,
            p.max_depth() == 5,
    {
        VariableParser { recursion_depth: 0, max_depth: 5 }
    }

    /// Expands every variable of `text`. `clipboard` is the clipboard's text,
    /// or `None` when it cannot be read; then `{{clipboard}}` stays as it is,
    /// as do unknown variables. For each date variable in turn, as
    /// `date_formats` lists them, the clock is read and chrono formats that
    /// instant with the variable's format; `expand_with_dates` puts the texts
    /// in their places. Every date format must be one chrono accepts.
    pub fn parse(&mut self, text: &str, clipboard: &Option<String>) -> (r: Result<String, String>)
        requires
            old(self).depth() < old(self).max_depth() ==> date_formats_valid(text@),
        ensures
            final(self).depth() == old(self).depth(),
            final(self).max_depth() == old(self).max_depth(),
            old(self).depth() >= old(self).max_depth() ==> (r matches Err(e) && e@
                == depth_exceeded_message()),
            old(self).depth() < old(self).max_depth() ==> (r matches Ok(s) && is_dated_expansion(
                text@,
                clipboard_view(clipboard),
                s@,
            )),
    {
        if self.recursion_depth >= self.max_depth {
            return Err(String::from_str("Maximum recursion depth exceeded"));
        }
        self.recursion_depth = self.recursion_depth + 1;
        let formats = date_formats(text);
        proof {
            lemma_listed_formats_valid(text@);
        }
        let mut dates: Vec<String> = Vec::new();
        let ghost mut instants: Seq<(i64, u32, i32)> = Seq::empty();
        for j in 0..formats.len()
            invariant
                string_views(formats@) == date_formats_of(text@),
                forall|q: int| 0 <= q < date_formats_of(text@).len() ==> strftime_valid(#[trigger] date_formats_of(text@)[q]),
                dates@.len() == j,
                instants.len() == j,
                forall|k: int|
                    0 <= k < j ==> #[trigger] string_views(dates@)[k] == strftime_text(
                        date_formats_of(text@)[k],
                        instants[k].0,
                        instants[k].1,
                        instants[k].2,
                    ),
        {
            proof {
                assert(string_views(formats@)[j as int] == formats@[j as int]@);
            }
            let (secs, nanos, offset) = local_now();
            let ghost old_dates = dates@;
            dates.push(format_instant(formats[j].as_str(), secs, nanos, offset));
            proof {
                instants = instants.push((secs, nanos, offset));
                assert forall|k: int| 0 <= k < j + 1 implies #[trigger] string_views(dates@)[k]
                    == strftime_text(
                    date_formats_of(text@)[k],
                    instants[k].0,
                    instants[k].1,
                    instants[k].2,
                ) by {
                    assert(string_views(dates@)[k] == dates@[k]@);
                    if k < j {
                        assert(dates@[k] == old_dates[k]);
                        assert(string_views(old_dates)[k] == old_dates[k]@);
                    }
                }
            }
        }
        let result = expand_with_dates(text, &dates, clipboard);
        proof {
            assert(formatted_at(date_formats_of(text@), string_views(dates@), instants));
        }
        self.recursion_depth = self.recursion_depth - 1;
        Ok(result)
    }

    /// Like `parse`, but first checks the date formats: `None` when chrono
    /// rejects one of them, and otherwise the result of `parse`.
    pub fn try_parse(&mut self, text: &str, clipboard: &Option<String>) -> (r: Option<
        Result<String, String>,
    >)
        ensures
            final(self).depth() == old(self).depth(),
            final(self).max_depth() == old(self).max_depth(),
            r is None <==> (old(self).depth() < old(self).max_depth() && !date_formats_valid(text@)),
            old(self).depth() >= old(self).max_depth() ==> (r matches Some(Err(e)) && e@
                == depth_exceeded_message()),
            old(self).depth() < old(self).max_depth() && date_formats_valid(text@) ==> (r matches Some(
                Ok(s),
            ) && is_dated_expansion(text@, clipboard_view(clipboard), s@)),
    {
        if self.recursion_depth < self.max_depth && !formats_are_valid(text) {
            return None;
        }
        Some(self.parse(text, clipboard))
    }
}

impl Default for VariableParser {
    fn default() -> (p: Self)
        ensures
            p.depth() == 0,
            p.max_depth() == 5,
    {
        VariableParser::new()
    }
}

// ---------------------------------------------------------------------------
// Laws
// ---------------------------------------------------------------------------

/// No piece of `t` expands to anything but its own text: every variable in
/// it is unknown, or asks for the clipboard when none can be read.
pub open spec fn keeps_itself(t: Seq<char>, clipboard: Option<Seq<char>>) -> bool
    decreases t.len(),
{
    if t.len() == 0 {
        true
    } else {
        let (p, n) = first_piece(t);
        if n <= 0 || n > t.len() {
            true
        } else {
            (match p {
                Piece::Variable(v) => match var_kind(v) {
                    VarKind::Unknown => true,
                    VarKind::Clipboard => clipboard is None,
                    _ => false,
                },
                _ => true,
            }) && keeps_itself(t.skip(n), clipboard)
        }
    }
}

/// Where `find_close` stops, `}}` stands.
proof fn lemma_find_close(s: Seq<char>, j: int)
    ensures
        find_close(s, j) matches Some(k) ==> j <= k && k + 1 < s.len() && s[k] == '}' && s[k + 1]
            == '}',
    decreases s.len() - j,
{
    if !(j < 0 || j + 1 >= s.len()) && !(s[j] == '}' && s[j + 1] == '}') {
        lemma_find_close(s, j + 1);
    }
}

/// A template in which nothing asks for a date, the cursor or a readable
/// clipboard expands to itself, whatever the dates: plain text, unknown
/// variables and unclosed braces are all kept as written.
pub proof fn render_keeps_plain_text(t: Seq<char>, dates: Seq<Seq<char>>, clipboard: Option<Seq<char>>)
    requires
        keeps_itself(t, clipboard),
    ensures
        render(t, dates, clipboard) == t,
    decreases t.len(),
{
    if t.len() > 0 {
        let (p, n) = first_piece(t);
        if t.len() >= 2 && t[0] == '{' && t[1] == '{' {
            lemma_find_close(t.skip(2), 0);
        }
        let rest_dates = if is_date_piece(p) {
            dates.drop_first()
        } else {
            dates
        };
        render_keeps_plain_text(t.skip(n), rest_dates, clipboard);
        match p {
            Piece::Literal(c) => {
                assert(t =~= seq![c] + t.skip(1));
            },
            Piece::Variable(v) => {
                assert(t =~= braced(v) + t.skip(n));
            },
            Piece::Unclosed(r) => {
                assert(t =~= seq!['{', '{'] + r + t.skip(n));
            },
        }
    }
}

/// Whatever `parse` returns for a template in which nothing expands is the
/// template itself.
pub proof fn parse_keeps_plain_text(t: Seq<char>, clipboard: Option<Seq<char>>, result: Seq<char>)
    requires
        keeps_itself(t, clipboard),
        exists|dates: Seq<Seq<char>>| result == render(t, dates, clipboard),
    ensures
        result == t,
{
    let dates = choose|dates: Seq<Seq<char>>| result == render(t, dates, clipboard);
    render_keeps_plain_text(t, dates, clipboard);
}

/// Some variable of `t` asks for the clipboard.
pub open spec fn asks_clipboard(t: Seq<char>) -> bool
    decreases t.len(),
{
    if t.len() == 0 {
        false
    } else {
        let (p, n) = first_piece(t);
        if n <= 0 || n > t.len() {
            false
        } else {
            (p matches Piece::Variable(v) && var_kind(v) is Clipboard) || asks_clipboard(t.skip(n))
        }
    }
}

/// Whether some variable of `text` asks for the clipboard, so that the
/// clipboard must be read before the text is expanded.
pub fn uses_clipboard(text: &str) -> (b: bool)
    ensures
        b == asks_clipboard(text@),
{
    let chars = chars_of(text);
    let n = chars.len();
    let mut i: usize = 0;
    proof {
        assert(chars@.skip(0) =~= chars@);
    }
    while i < n
        invariant
            0 <= i <= n == chars@.len(),
            chars@ == text@,
            asks_clipboard(chars@) == asks_clipboard(chars@.skip(i as int)),
        decreases n - i,
    {
        let ghost t = chars@.skip(i as int);
        let (tok, next) = next_token(&chars, i);
        proof {
            assert(t.skip(first_piece(t).1) =~= chars@.skip(next as int));
        }
        match tok {
            Token::Variable(a, b) => {
                let name = copy_range(&chars, a, b);
                match classify(&name) {
                    Kind::Clipboard => {
                        return true;
                    },
                    _ => {},
                }
            },
            _ => {},
        }
        i = next;
    }
    proof {
        assert(chars@.skip(n as int) =~= Seq::<char>::empty());
    }
    false
}

/// A template with no clipboard variable expands the same whatever the
/// clipboard holds, so it need not be read.
pub proof fn render_ignores_unused_clipboard(
    t: Seq<char>,
    dates: Seq<Seq<char>>,
    c1: Option<Seq<char>>,
    c2: Option<Seq<char>>,
)
    requires
        !asks_clipboard(t),
    ensures
        render(t, dates, c1) == render(t, dates, c2),
    decreases t.len(),
{
    if t.len() > 0 {
        let (p, n) = first_piece(t);
        if t.len() >= 2 && t[0] == '{' && t[1] == '{' {
            lemma_find_close(t.skip(2), 0);
        }
        if n > 0 && n <= t.len() {
            let rest_dates = if is_date_piece(p) {
                dates.drop_first()
            } else {
                dates
            };
            render_ignores_unused_clipboard(t.skip(n), rest_dates, c1, c2);
        }
    }
}

/// `find_colon` stops at the first colon from `k` on.
proof fn lemma_first_colon(s: Seq<char>, k: int, e: int)
    requires
        0 <= k <= e < s.len(),
        forall|j: int| k <= j < e ==> s[j] != ':',
        s[e] == ':',
    ensures
        find_colon(s, k) == Some(e),
    decreases e - k,
{
    if k < e {
        lemma_first_colon(s, k + 1, e);
    }
}

/// `find_close` stops at the first `}}` from `k` on, when no `}` comes
/// before it.
proof fn lemma_first_close(s: Seq<char>, k: int, e: int)
    requires
        0 <= k <= e,
        e + 1 < s.len(),
        forall|j: int| k <= j < e ==> s[j] != '}',
        s[e] == '}' && s[e + 1] == '}',
    ensures
        find_close(s, k) == Some(e),
    decreases e - k,
{
    if k < e {
        lemma_first_close(s, k + 1, e);
    }
}

/// A variable written `date:` followed by a format is a date variable with
/// that format, whatever the format holds, colons included: the name ends
/// at the first colon.
pub proof fn date_name_then_format(f: Seq<char>)
    ensures
        var_kind(word_date() + seq![':'] + f) == VarKind::Date(f),
{
    let v = word_date() + seq![':'] + f;
    assert(v[0] == 'd' && v[1] == 'a' && v[2] == 't' && v[3] == 'e' && v[4] == ':');
    lemma_first_colon(v, 0, 4);
    assert(v.take(4) =~= word_date());
    assert(v.skip(5) =~= f);
}

/// A variable whose name, before its first colon, is not `date` is not
/// understood, whatever follows the colon.
pub proof fn other_name_then_colon_is_unknown(name: Seq<char>, rest: Seq<char>)
    requires
        name != word_date(),
        forall|j: int| 0 <= j < name.len() ==> name[j] != ':',
    ensures
        var_kind(name + seq![':'] + rest) == VarKind::Unknown,
{
    let v = name + seq![':'] + rest;
    lemma_first_colon(v, 0, name.len() as int);
    assert(v.take(name.len() as int) =~= name);
}

/// The template `{{date:F}}`, for a format `F` without a closing brace,
/// holds one date variable, whose format is `F`; it expands to the text
/// given for that date.
pub proof fn dated_template_uses_its_format(f: Seq<char>, d: Seq<char>, clipboard: Option<Seq<char>>)
    requires
        forall|j: int| 0 <= j < f.len() ==> f[j] != '}',
    ensures
        date_formats_of(seq!['{', '{'] + word_date() + seq![':'] + f + seq!['}', '}']) == seq![f],
        render(seq!['{', '{'] + word_date() + seq![':'] + f + seq!['}', '}'], seq![d], clipboard) == d,
{
    let v = word_date() + seq![':'] + f;
    let t = seq!['{', '{'] + v + seq!['}', '}'];
    assert(t =~= seq!['{', '{'] + word_date() + seq![':'] + f + seq!['}', '}']);
    let inner = t.skip(2);
    assert(inner =~= v + seq!['}', '}']);
    assert forall|j: int| 0 <= j < v.len() implies inner[j] != '}' by {
        if j >= 5 {
            assert(inner[j] == f[j - 5]);
        }
    }
    lemma_first_close(inner, 0, v.len() as int);
    assert(t.subrange(2, 2 + v.len() as int) =~= v);
    date_name_then_format(f);
    assert(t.skip(v.len() as int + 4) =~= Seq::<char>::empty());
    assert(first_piece(t) == (Piece::Variable(v), v.len() as int + 4));
    assert(date_formats_of(t.skip(v.len() as int + 4)) == Seq::<Seq<char>>::empty());
    assert(date_formats_of(t) == seq![f] + date_formats_of(t.skip(v.len() as int + 4)));
    assert(is_date_piece(Piece::Variable(v)));
    assert(render(t.skip(v.len() as int + 4), seq![d].drop_first(), clipboard) == Seq::<char>::empty());
    assert(render(t, seq![d], clipboard) == var_output(v, d, clipboard) + render(
        t.skip(v.len() as int + 4),
        seq![d].drop_first(),
        clipboard,
    ));
    assert(seq![f] + Seq::<Seq<char>>::empty() =~= seq![f]);
    assert(seq![d].drop_first() =~= Seq::<Seq<char>>::empty());
    assert(d + Seq::<char>::empty() =~= d);
}

/// `{{name}}` with a name that holds no closing brace is one variable piece
/// and nothing more.
proof fn lemma_single_variable(name: Seq<char>)
    requires
        forall|j: int| 0 <= j < name.len() ==> name[j] != '}',
    ensures
        first_piece(seq!['{', '{'] + name + seq!['}', '}']) == (Piece::Variable(name), name.len() as int + 4),
        (seq!['{', '{'] + name + seq!['}', '}']).skip(name.len() as int + 4) == Seq::<char>::empty(),
{
    let t = seq!['{', '{'] + name + seq!['}', '}'];
    let inner = t.skip(2);
    assert(inner =~= name + seq!['}', '}']);
    assert forall|j: int| 0 <= j < name.len() implies inner[j] != '}' by {
        assert(inner[j] == name[j]);
    }
    lemma_first_close(inner, 0, name.len() as int);
    assert(t.subrange(2, 2 + name.len() as int) =~= name);
    assert(t.skip(name.len() as int + 4) =~= Seq::<char>::empty());
}

/// The variables without a format: `{{date}}` is today's date in the ISO
/// format `%Y-%m-%d`, `{{clipboard}}` is the clipboard's text (kept as
/// written when the clipboard cannot be read) and `{{cursor}}` is nothing.
pub proof fn plain_variables_expand(d: Seq<char>, c: Seq<char>, clipboard: Option<Seq<char>>)
    ensures
        date_formats_of(seq!['{', '{', 'd', 'a', 't', 'e', '}', '}']) == seq![
            seq!['%', 'Y', '-', '%', 'm', '-', '%', 'd'],
        ],
        render(seq!['{', '{', 'd', 'a', 't', 'e', '}', '}'], seq![d], clipboard) == d,
        render(
            seq!['{', '{', 'c', 'l', 'i', 'p', 'b', 'o', 'a', 'r', 'd', '}', '}'],
            Seq::empty(),
            Some(c),
        ) == c,
        render(
            seq!['{', '{', 'c', 'l', 'i', 'p', 'b', 'o', 'a', 'r', 'd', '}', '}'],
            Seq::empty(),
            None,
        ) == seq!['{', '{', 'c', 'l', 'i', 'p', 'b', 'o', 'a', 'r', 'd', '}', '}'],
        render(seq!['{', '{', 'c', 'u', 'r', 's', 'o', 'r', '}', '}'], Seq::empty(), clipboard)
            == Seq::<char>::empty(),
{
    let date = seq!['d', 'a', 't', 'e'];
    let clip = seq!['c', 'l', 'i', 'p', 'b', 'o', 'a', 'r', 'd'];
    let cur = seq!['c', 'u', 'r', 's', 'o', 'r'];
    lemma_single_variable(date);
    lemma_single_variable(clip);
    lemma_single_variable(cur);
    let td = seq!['{', '{'] + date + seq!['}', '}'];
    let tc = seq!['{', '{'] + clip + seq!['}', '}'];
    let tu = seq!['{', '{'] + cur + seq!['}', '}'];
    assert(td =~= seq!['{', '{', 'd', 'a', 't', 'e', '}', '}']);
    assert(tc =~= seq!['{', '{', 'c', 'l', 'i', 'p', 'b', 'o', 'a', 'r', 'd', '}', '}']);
    assert(tu =~= seq!['{', '{', 'c', 'u', 'r', 's', 'o', 'r', '}', '}']);
    assert(find_colon(date, 0) is None) by {
        reveal_with_fuel(find_colon, 5);
    }
    assert(find_colon(clip, 0) is None) by {
        reveal_with_fuel(find_colon, 10);
    }
    assert(find_colon(cur, 0) is None) by {
        reveal_with_fuel(find_colon, 7);
    }
    assert(date =~= word_date());
    assert(clip =~= word_clipboard());
    assert(cur =~= word_cursor());
    assert(clip != word_date()) by {
        assert(clip.len() != word_date().len());
    }
    assert(cur != word_date()) by {
        assert(cur.len() != word_date().len());
    }
    assert(cur != word_clipboard()) by {
        assert(cur.len() != word_clipboard().len());
    }
    assert(var_kind(date) == VarKind::Date(default_date_format()));
    assert(var_kind(clip) == VarKind::Clipboard);
    assert(var_kind(cur) == VarKind::Cursor);
    assert(date_formats_of(td.skip(8)) == Seq::<Seq<char>>::empty());
    assert(date_formats_of(td) == seq![default_date_format()] + date_formats_of(td.skip(8)));
    assert(seq![default_date_format()] + Seq::<Seq<char>>::empty() =~= seq![
        seq!['%', 'Y', '-', '%', 'm', '-', '%', 'd'],
    ]);
    assert(seq![d].drop_first() =~= Seq::<Seq<char>>::empty());
    assert(render(td.skip(8), seq![d].drop_first(), clipboard) == Seq::<char>::empty());
    assert(render(td, seq![d], clipboard) == d + render(td.skip(8), seq![d].drop_first(), clipboard));
    assert(d + Seq::<char>::empty() =~= d);
    assert(render(tc.skip(13), Seq::empty(), Some(c)) == Seq::<char>::empty());
    assert(render(tc, Seq::empty(), Some(c)) == c + render(tc.skip(13), Seq::empty(), Some(c)));
    assert(c + Seq::<char>::empty() =~= c);
    assert(render(tc.skip(13), Seq::empty(), None) == Seq::<char>::empty());
    assert(render(tc, Seq::empty(), None) == braced(clip) + render(tc.skip(13), Seq::empty(), None));
    assert(braced(clip) + Seq::<char>::empty() =~= tc);
    assert(render(tu.skip(10), Seq::empty(), clipboard) == Seq::<char>::empty());
    assert(render(tu, Seq::empty(), clipboard) == Seq::<char>::empty() + render(
        tu.skip(10),
        Seq::empty(),
        clipboard,
    ));
    assert(Seq::<char>::empty() + Seq::<char>::empty() =~= Seq::<char>::empty());
}

} // verus!
