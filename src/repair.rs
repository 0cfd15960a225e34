//! Repair of the two known artifacts of machine translation in a single line:
//! a `key: value` separator that lost its colon, and trailing punctuation
//! emitted before the closing quote instead of after it.

use vstd::prelude::*;
use crate::text::{
    chars_of, ends_are_solid, is_white_space, lemma_trim_of_solid, lemma_trim_solid, string_of, trim,
    trim_chars,
};

verus! {

/// Whether the repair heuristics run at all; when off a line passes through
/// untouched, for review by hand.
pub const HANDLE_ERRORS: bool = true;

/// `s` holds the separator `": "` somewhere.
pub open spec fn has_separator(s: Seq<char>) -> bool {
    exists|i: int| 0 <= i && i + 1 < s.len() && #[trigger] s[i] == ':' && s[i + 1] == ' '
}

/// `s` is a structural marker line: exactly `{` or exactly `}`.
pub open spec fn is_marker(s: Seq<char>) -> bool {
    s == seq!['{'] || s == seq!['}']
}

/// `s` with its first space replaced by `": "`; `s` itself when it holds no space.
pub open spec fn replace_first_space(s: Seq<char>) -> Seq<char>
    decreases s.len(),
{
    if s.len() == 0 {
        s
    } else if s[0] == ' ' {
        seq![':', ' '] + s.drop_first()
    } else {
        seq![s[0]] + replace_first_space(s.drop_first())
    }
}

/// The separator repair: a line without `": "` that is not a structural marker
/// gets `": "` in place of its first space.
pub open spec fn fix_separator(s: Seq<char>) -> Seq<char> {
    if has_separator(s) || is_marker(s) {
        s
    } else {
        replace_first_space(s)
    }
}

/// The punctuation marks that a translator may put before a closing quote.
pub open spec fn is_listed_punctuation(c: char) -> bool {
    c == '!' || c == '?' || c == ',' || c == '.' || c == '¿' || c == ';' || c == ':' || c == '·'
        || c == '¡'
}

/// The third character from the end is a quote and the second from the end a
/// listed punctuation mark.
pub open spec fn quote_before_punctuation(s: Seq<char>) -> bool {
    s.len() > 2 && s[s.len() - 3] == '"' && is_listed_punctuation(s[s.len() - 2])
}

/// The transposition repair: a quote followed by listed punctuation just before
/// the last character trade places.
pub open spec fn transpose_punctuation(s: Seq<char>) -> Seq<char> {
    if quote_before_punctuation(s) {
        s.update(s.len() - 3, s[s.len() - 2]).update(s.len() - 2, '"')
    } else {
        s
    }
}

/// The whole repair of one line: trim, then the separator repair, then the
/// transposition repair.
pub open spec fn repair(s: Seq<char>) -> Seq<char> {
    transpose_punctuation(fix_separator(trim(s)))
}

fn contains_separator(v: &Vec<char>) -> (r: bool)
    ensures
        r == has_separator(v@),
{
    let n = v.len();
    let mut i: usize = 0;
    while i < n && i + 1 < n
        invariant
            n == v@.len(),
            i <= n,
            forall|k: int| 0 <= k < i && k + 1 < n ==> !(#[trigger] v@[k] == ':' && v@[k + 1] == ' '),
        decreases n - i,
    {
        if v[i] == ':' && v[i + 1] == ' ' {
            return true;
        }
        i = i + 1;
    }
    false
}

pub(crate) fn is_marker_chars(v: &Vec<char>) -> (r: bool)
    ensures
        r == is_marker(v@),
{
    if v.len() == 1 && (v[0] == '{' || v[0] == '}') {
        assert(v@ =~= seq![v@[0]]);
        true
    } else {
        false
    }
}

fn replace_first_space_chars(v: &Vec<char>) -> (r: Vec<char>)
    ensures
        r@ == replace_first_space(v@),
{
    let n = v.len();
    let mut out: Vec<char> = Vec::new();
    let mut found = false;
    let mut i: usize = 0;
    assert(v@.subrange(0, n as int) =~= v@);
    while i < n
        invariant
            n == v@.len(),
            i <= n,
            replace_first_space(v@) == out@ + (if found {
                v@.subrange(i as int, n as int)
            } else {
                replace_first_space(v@.subrange(i as int, n as int))
            }),
        decreases n - i,
    {
        let ghost rest = v@.subrange(i as int, n as int);
        assert(rest.drop_first() =~= v@.subrange(i + 1, n as int));
        if !found && v[i] == ' ' {
            out.push(':');
            out.push(' ');
            found = true;
            assert(out@ + v@.subrange(i + 1, n as int) =~= out@.drop_last().drop_last() + (seq![':', ' '] + rest.drop_first()));
        } else {
            let ghost before = out@;
            out.push(v[i]);
            if found {
                assert(before + rest =~= out@ + v@.subrange(i + 1, n as int));
            } else {
                assert(before + replace_first_space(rest) =~= out@ + replace_first_space(v@.subrange(i + 1, n as int)));
            }
        }
        i = i + 1;
    }
    assert(v@.subrange(n as int, n as int) =~= Seq::<char>::empty());
    assert(out@ + Seq::<char>::empty() =~= out@);
    out
}

fn fix_separator_chars(v: Vec<char>) -> (r: Vec<char>)
    ensures
        r@ == fix_separator(v@),
{
    if contains_separator(&v) || is_marker_chars(&v) {
        v
    } else {
        replace_first_space_chars(&v)
    }
}

fn is_listed_punctuation_char(c: char) -> (r: bool)
    ensures
        r == is_listed_punctuation(c),
{
    c == '!' || c == '?' || c == ',' || c == '.' || c == '¿' || c == ';' || c == ':' || c == '·'
        || c == '¡'
}

fn transpose_punctuation_chars(v: Vec<char>) -> (r: Vec<char>)
    ensures
        r@ == transpose_punctuation(v@),
{
    let mut v = v;
    let n = v.len();
    if n > 2 {
        let third = v[n - 3];
        let second = v[n - 2];
        if third == '"' && is_listed_punctuation_char(second) {
            v.set(n - 3, second);
            v.set(n - 2, third);
        }
    }
    v
}

/// Repairs one line when `handle_errors` is set, and hands it back unchanged
/// otherwise. Never fails: every line, empty or not, has a repaired form.
pub fn clean_google_translate_errors(file_line: &str, handle_errors: bool) -> (r: String)
    ensures
        r@ == if handle_errors {
            repair(file_line@)
        } else {
            file_line@
        },
{
    let chars = chars_of(file_line);
    if !handle_errors {
        return string_of(&chars);
    }
    let trimmed = trim_chars(&chars);
    let separated = fix_separator_chars(trimmed);
    let transposed = transpose_punctuation_chars(separated);
    string_of(&transposed)
}

/// Repairs one line under the library's setting of [`HANDLE_ERRORS`].
pub fn repair_line(line: &str) -> (r: String)
    ensures
        r@ == repair(line@),
{
    clean_google_translate_errors(line, HANDLE_ERRORS)
}

proof fn lemma_replace_without_space(s: Seq<char>)
    requires
        !s.contains(' '),
    ensures
        replace_first_space(s) == s,
    decreases s.len(),
{
    if s.len() > 0 {
        assert(!s.drop_first().contains(' ')) by {
            if s.drop_first().contains(' ') {
                let k = choose|k: int| 0 <= k < s.drop_first().len() && s.drop_first()[k] == ' ';
                assert(s[k + 1] == ' ');
            }
        }
        lemma_replace_without_space(s.drop_first());
        assert(seq![s[0]] + s.drop_first() =~= s);
    }
}

proof fn lemma_replace_with_space(s: Seq<char>)
    requires
        s.contains(' '),
    ensures
        has_separator(replace_first_space(s)),
        replace_first_space(s).len() == s.len() + 1,
        s[0] != ' ' ==> replace_first_space(s)[0] == s[0],
        s.last() != ' ' ==> replace_first_space(s).last() == s.last(),
    decreases s.len(),
{
    let r = replace_first_space(s);
    if s[0] == ' ' {
        assert(r[0] == ':' && r[1] == ' ');
    } else {
        let rest = s.drop_first();
        let k = choose|k: int| 0 <= k < s.len() && s[k] == ' ';
        assert(rest[k - 1] == ' ');
        lemma_replace_with_space(rest);
        let rr = replace_first_space(rest);
        let i = choose|i: int| 0 <= i && i + 1 < rr.len() && #[trigger] rr[i] == ':' && rr[i + 1] == ' ';
        assert(r[i + 1] == ':' && r[i + 2] == ' ');
        if s.last() != ' ' {
            assert(rest.last() == s.last());
        }
    }
}

/// What the separator repair makes of a trimmed line: either the line itself,
/// or a line that holds `": "` and keeps its ends.
proof fn lemma_fix_separator_of_trimmed(t: Seq<char>)
    requires
        ends_are_solid(t),
    ensures
        ends_are_solid(fix_separator(t)),
        has_separator(fix_separator(t)) || is_marker(fix_separator(t)) || (fix_separator(t) == t
            && !t.contains(' ')),
{
    if !has_separator(t) && !is_marker(t) {
        if t.contains(' ') {
            lemma_replace_with_space(t);
        } else {
            lemma_replace_without_space(t);
        }
    }
}

proof fn lemma_punctuation_not_white(c: char)
    requires
        is_listed_punctuation(c),
    ensures
        !is_white_space(c),
        c != ' ',
        c != '"',
{
}

/// The transposition keeps solid ends, the separator, the absence of spaces and
/// structural markers, and leaves nothing for a second transposition to do.
proof fn lemma_transpose_keeps(f: Seq<char>)
    requires
        ends_are_solid(f),
    ensures
        ends_are_solid(transpose_punctuation(f)),
        has_separator(f) ==> has_separator(transpose_punctuation(f)),
        !f.contains(' ') ==> !transpose_punctuation(f).contains(' '),
        is_marker(f) ==> transpose_punctuation(f) == f,
        transpose_punctuation(transpose_punctuation(f)) == transpose_punctuation(f),
{
    let r = transpose_punctuation(f);
    if quote_before_punctuation(f) {
        let n = f.len();
        lemma_punctuation_not_white(f[n - 2]);
        assert(r[n - 1] == f[n - 1]);
        if has_separator(f) {
            let i = choose|i: int| 0 <= i && i + 1 < f.len() && #[trigger] f[i] == ':' && f[i + 1] == ' ';
            assert(r[i] == ':' && r[i + 1] == ' ');
        }
        if r.contains(' ') {
            let k = choose|k: int| 0 <= k < r.len() && r[k] == ' ';
            assert(f[k] == ' ');
        }
        if is_marker(f) {
            assert(f.len() == 1);
        }
        assert(!quote_before_punctuation(r));
    }
}

/// A line of at most two characters is never transposed: its repair is the
/// trimmed line after the separator step, and that step finds nothing to do.
pub proof fn lemma_short_line_not_transposed(l: Seq<char>)
    requires
        l.len() <= 2,
    ensures
        repair(l) == fix_separator(trim(l)),
        repair(l) == trim(l),
{
    let t = trim(l);
    lemma_trim_solid(l);
    assert(!t.contains(' ')) by {
        if t.contains(' ') {
            let k = choose|k: int| 0 <= k < t.len() && t[k] == ' ';
            assert(k == 0 || k == t.len() - 1);
        }
    }
    lemma_replace_without_space(t);
}

/// Repairing a line twice gives what repairing it once gives.
pub proof fn lemma_repair_idempotent(l: Seq<char>)
    ensures
        repair(repair(l)) == repair(l),
{
    let t = trim(l);
    lemma_trim_solid(l);
    lemma_fix_separator_of_trimmed(t);
    let f = fix_separator(t);
    lemma_transpose_keeps(f);
    let r = transpose_punctuation(f);
    lemma_trim_of_solid(r);
    if !has_separator(r) && !is_marker(r) {
        lemma_replace_without_space(r);
    }
}

/// On a line that holds `": "` the repair is idempotent, and where the
/// separator survives trimming the separator step leaves the line as it is.
pub proof fn lemma_separator_line(l: Seq<char>)
    requires
        has_separator(l),
    ensures
        repair(repair(l)) == repair(l),
        has_separator(trim(l)) ==> fix_separator(trim(l)) == trim(l),
{
    lemma_repair_idempotent(l);
}

} // verus!
