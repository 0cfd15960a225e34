//! Derivation of the ordered key sequence from the reference document.

use vstd::prelude::*;
use crate::repair::{repair, repair_line};
use crate::text::{chars_of, string_of};

verus! {

/// The part of `s` before its first colon (all of `s` when it has none), with
/// every space character removed.
pub open spec fn bare_key(s: Seq<char>) -> Seq<char>
    decreases s.len(),
{
    if s.len() == 0 || s[0] == ':' {
        Seq::empty()
    } else if s[0] == ' ' {
        bare_key(s.drop_first())
    } else {
        seq![s[0]] + bare_key(s.drop_first())
    }
}

/// The key that a reference line contributes: the bare key of its repaired form.
pub open spec fn reference_key_of(line: Seq<char>) -> Seq<char> {
    bare_key(repair(line))
}

/// The views of a list of lines.
pub open spec fn lines_view(lines: Seq<String>) -> Seq<Seq<char>> {
    lines.map_values(|l: String| l@)
}

/// The key sequence of a reference document: one key per line, in order.
pub open spec fn key_sequence(lines: Seq<Seq<char>>) -> Seq<Seq<char>> {
    lines.map_values(|l: Seq<char>| reference_key_of(l))
}

fn bare_key_chars(v: &Vec<char>) -> (r: Vec<char>)
    ensures
        r@ == bare_key(v@),
{
    let n = v.len();
    let mut out: Vec<char> = Vec::new();
    let mut i: usize = 0;
    assert(v@.subrange(0, n as int) =~= v@);
    while i < n && v[i] != ':'
        invariant
            n == v@.len(),
            i <= n,
            bare_key(v@) == out@ + bare_key(v@.subrange(i as int, n as int)),
        decreases n - i,
    {
        let ghost rest = v@.subrange(i as int, n as int);
        assert(rest.drop_first() =~= v@.subrange(i + 1, n as int));
        if v[i] != ' ' {
            let ghost before = out@;
            out.push(v[i]);
            assert(before + (seq![rest[0]] + bare_key(rest.drop_first())) =~= out@ + bare_key(
                rest.drop_first(),
            ));
        }
        i = i + 1;
    }
    assert(out@ + Seq::<char>::empty() =~= out@);
    out
}

/// The key of one reference line: the line is repaired, cut at its first colon,
/// and stripped of every space.
pub fn reference_key(line: &str) -> (r: String)
    ensures
        r@ == reference_key_of(line@),
{
    let repaired = repair_line(line);
    let chars = chars_of(repaired.as_str());
    let key = bare_key_chars(&chars);
    string_of(&key)
}

/// The key sequence of a reference document: exactly one key for each line,
/// empty keys included, in the order of the lines.
pub fn extract_keys(reference_lines: &Vec<String>) -> (r: Vec<String>)
    ensures
        r@.len() == reference_lines@.len(),
        lines_view(r@) == key_sequence(lines_view(reference_lines@)),
{
    let n = reference_lines.len();
    let mut keys: Vec<String> = Vec::new();
    let mut i: usize = 0;
    while i < n
        invariant
            n == reference_lines@.len(),
            i <= n,
            keys@.len() == i,
            forall|k: int| 0 <= k < i ==> #[trigger] keys@[k]@ == reference_key_of(reference_lines@[k]@),
        decreases n - i,
    {
        let key = reference_key(reference_lines[i].as_str());
        keys.push(key);
        i = i + 1;
    }
    assert(lines_view(keys@) =~= key_sequence(lines_view(reference_lines@)));
    keys
}

} // verus!
