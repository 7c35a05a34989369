use vstd::prelude::*;

use crate::db::Snippet;
use crate::text::{chars_of, lemma_utf8_len_bounds, push_char, string_from_chars};

verus! {

broadcast use vstd::string::group_string_axioms;

/// How many bytes of a first line the list shows whole.
pub const PREVIEW_BYTES: usize = 60;

/// How many characters of a long first line the list shows.
pub const PREVIEW_CHARS: usize = 60;

/// The text a row of the list shows for a snippet: the trigger, followed by
/// " - " and the label when there is one.
pub open spec fn display_text(s: Snippet) -> Seq<char> {
    match s.label {
        Some(l) => s.trigger@ + seq![' ', '-', ' '] + l@,
        None => s.trigger@,
    }
}

/// The text a row of the list shows for a snippet.
pub fn trigger_display(s: &Snippet) -> (r: String)
    ensures
        r@ == display_text(*s),
{
    let mut r = s.trigger.clone();
    match &s.label {
        Some(l) => {
            push_char(&mut r, ' ');
            push_char(&mut r, '-');
            push_char(&mut r, ' ');
            let v = chars_of(l.as_str());
            let mut i: usize = 0;
            while i < v.len()
                invariant
                    v@ == l@,
                    i <= v.len(),
                    r@ == s.trigger@ + seq![' ', '-', ' '] + v@.take(i as int),
                decreases v.len() - i,
            {
                push_char(&mut r, v[i]);
                i = i + 1;
                assert(v@.take(i as int) =~= v@.take(i as int - 1).push(v@[i as int - 1]));
            }
            assert(v@.take(i as int) =~= l@);
        },
        None => {},
    }
    r
}

/// `e` is where the first line of `s` ends: the first line feed, or the end
/// of `s` when it has none.
pub open spec fn is_first_line_end(s: Seq<char>, e: int) -> bool {
    &&& 0 <= e <= s.len()
    &&& forall|k: int| 0 <= k < e ==> s[k] != '\n'
    &&& e < s.len() ==> s[e] == '\n'
}

/// The first line of `s`, which ends at `e`, without its line ending.
pub open spec fn first_line(s: Seq<char>, e: int) -> Seq<char> {
    if e < s.len() && e > 0 && s[e - 1] == '\r' {
        s.take(e - 1)
    } else {
        s.take(e)
    }
}

pub open spec fn ellipsis() -> Seq<char> {
    seq!['.', '.', '.']
}

/// The preview of a body whose first line ends at `e`: a first line longer
/// than the byte limit is cut to its first characters and marked as cut; a
/// first line followed by more lines is marked too.
pub open spec fn preview_text(s: Seq<char>, e: int) -> Seq<char> {
    let line = first_line(s, e);
    if vstd::utf8::encode_utf8(line).len() > PREVIEW_BYTES {
        line.take(if line.len() < PREVIEW_CHARS { line.len() as int } else { PREVIEW_CHARS as int })
            + ellipsis()
    } else if e + 1 < s.len() {
        line + ellipsis()
    } else {
        line
    }
}

fn push_ellipsis(r: &mut String)
    ensures
        final(r)@ == old(r)@ + ellipsis(),
{
    push_char(r, '.');
    push_char(r, '.');
    push_char(r, '.');
    assert(final(r)@ =~= old(r)@ + ellipsis());
}

/// The one-line preview of a snippet body that a row of the list shows.
pub fn body_preview(body: &str) -> (r: String)
    ensures
        exists|e: int| is_first_line_end(body@, e) && r@ == preview_text(body@, e),
{
    let v = chars_of(body);
    let mut e: usize = 0;
    while e < v.len() && v[e] != '\n'
        invariant
            v@ == body@,
            e <= v.len(),
            forall|k: int| 0 <= k < e ==> v@[k] != '\n',
        decreases v.len() - e,
    {
        e = e + 1;
    }
    assert(is_first_line_end(body@, e as int));
    let end = if e < v.len() && e > 0 && v[e - 1] == '\r' {
        e - 1
    } else {
        e
    };
    let line = string_from_chars(&v, 0, end);
    assert(line@ == first_line(body@, e as int)) by {
        assert(v@.subrange(0, end as int) =~= v@.take(end as int));
    }
    proof {
        lemma_utf8_len_bounds(line@);
    }
    let long = if end > PREVIEW_BYTES {
        true
    } else {
        line.as_str().len() > PREVIEW_BYTES
    };
    if long {
        let n = if end < PREVIEW_CHARS {
            end
        } else {
            PREVIEW_CHARS
        };
        let mut r = string_from_chars(&v, 0, n);
        assert(r@ =~= line@.take(n as int));
        push_ellipsis(&mut r);
        r
    } else if v.len() > 0 && e < v.len() - 1 {
        let mut r = line;
        push_ellipsis(&mut r);
        r
    } else {
        line
    }
}

} // verus!
