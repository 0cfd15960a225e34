//! Realignment of a translated document against the reference key sequence:
//! each translated line keeps only its value, which is re-keyed by position.

use vstd::prelude::*;
use crate::keys::lines_view;
use crate::repair::{is_marker, is_marker_chars};
use crate::text::{chars_of, string_of};

verus! {

/// What follows the first colon of `s`; empty when `s` has no colon.
pub open spec fn value_fragment_of(s: Seq<char>) -> Seq<char>
    decreases s.len(),
{
    if s.len() == 0 {
        Seq::empty()
    } else if s[0] == ':' {
        s.drop_first()
    } else {
        value_fragment_of(s.drop_first())
    }
}

/// One left-to-right pass over `s` that turns each pair of adjacent spaces into
/// a single space; the pass does not look again at what it produced.
pub open spec fn collapse_double_spaces(s: Seq<char>) -> Seq<char>
    decreases s.len(),
{
    if s.len() >= 2 && s[0] == ' ' && s[1] == ' ' {
        seq![' '] + collapse_double_spaces(s.skip(2))
    } else if s.len() > 0 {
        seq![s[0]] + collapse_double_spaces(s.drop_first())
    } else {
        s
    }
}

/// A key is followed by `": "` unless it is empty or a structural marker.
pub open spec fn takes_separator(key: Seq<char>) -> bool {
    key.len() > 0 && !is_marker(key)
}

/// The output line for a key and a value fragment, newline included.
pub open spec fn recombined_line(key: Seq<char>, fragment: Seq<char>) -> Seq<char> {
    let joined = if takes_separator(key) {
        key + seq![':', ' '] + fragment
    } else {
        key + fragment
    };
    collapse_double_spaces(joined).push('\n')
}

/// The output for the first `n` positions of translated lines `t` and keys `k`.
pub open spec fn realigned_prefix(t: Seq<Seq<char>>, k: Seq<Seq<char>>, n: nat) -> Seq<char>
    decreases n,
{
    if n == 0 {
        Seq::empty()
    } else {
        realigned_prefix(t, k, (n - 1) as nat) + recombined_line(
            k[n - 1],
            value_fragment_of(t[n - 1]),
        )
    }
}

/// The number of positions that both documents reach.
pub open spec fn paired_len(t: Seq<Seq<char>>, k: Seq<Seq<char>>) -> nat {
    if t.len() <= k.len() {
        t.len()
    } else {
        k.len()
    }
}

/// The whole realigned text: one recombined line for each position that both
/// the translated lines and the keys reach, in order.
pub open spec fn realigned(t: Seq<Seq<char>>, k: Seq<Seq<char>>) -> Seq<char> {
    realigned_prefix(t, k, paired_len(t, k))
}

fn value_fragment_chars(v: &Vec<char>) -> (r: Vec<char>)
    ensures
        r@ == value_fragment_of(v@),
{
    let n = v.len();
    let mut i: usize = 0;
    assert(v@.subrange(0, n as int) =~= v@);
    while i < n && v[i] != ':'
        invariant
            n == v@.len(),
            i <= n,
            value_fragment_of(v@) == value_fragment_of(v@.subrange(i as int, n as int)),
        decreases n - i,
    {
        assert(v@.subrange(i as int, n as int).drop_first() =~= v@.subrange(i + 1, n as int));
        i = i + 1;
    }
    let mut out: Vec<char> = Vec::new();
    if i < n {
        let mut k: usize = i + 1;
        while k < n
            invariant
                n == v@.len(),
                i < k <= n,
                out@ == v@.subrange(i + 1, k as int),
            decreases n - k,
        {
            out.push(v[k]);
            assert(v@.subrange(i + 1, k + 1) =~= v@.subrange(i + 1, k as int).push(v@[k as int]));
            k = k + 1;
        }
        assert(v@.subrange(i as int, n as int).drop_first() =~= v@.subrange(i + 1, n as int));
    }
    out
}

/// The value fragment of a translated line: everything after its first colon,
/// as it stands; empty when the line has no colon.
pub fn value_fragment(line: &str) -> (r: String)
    ensures
        r@ == value_fragment_of(line@),
{
    let chars = chars_of(line);
    let fragment = value_fragment_chars(&chars);
    string_of(&fragment)
}

fn collapse_chars(v: &Vec<char>) -> (r: Vec<char>)
    ensures
        r@ == collapse_double_spaces(v@),
{
    let n = v.len();
    let mut out: Vec<char> = Vec::new();
    let mut i: usize = 0;
    assert(v@.subrange(0, n as int) =~= v@);
    while i < n
        invariant
            n == v@.len(),
            i <= n,
            collapse_double_spaces(v@) == out@ + collapse_double_spaces(
                v@.subrange(i as int, n as int),
            ),
        decreases n - i,
    {
        let ghost rest = v@.subrange(i as int, n as int);
        let ghost before = out@;
        if i + 1 < n && v[i] == ' ' && v[i + 1] == ' ' {
            out.push(' ');
            assert(rest.skip(2) =~= v@.subrange(i + 2, n as int));
            assert(before + (seq![' '] + collapse_double_spaces(rest.skip(2))) =~= out@
                + collapse_double_spaces(v@.subrange(i + 2, n as int)));
            i = i + 2;
        } else {
            out.push(v[i]);
            assert(rest.drop_first() =~= v@.subrange(i + 1, n as int));
            assert(before + (seq![rest[0]] + collapse_double_spaces(rest.drop_first())) =~= out@
                + collapse_double_spaces(v@.subrange(i + 1, n as int)));
            i = i + 1;
        }
    }
    assert(out@ + Seq::<char>::empty() =~= out@);
    out
}

/// The output line for `key` and a value fragment: the key, `": "` unless the
/// key is empty or a structural marker, the fragment, one pass of double-space
/// collapsing, and a newline.
pub fn recombine_line(key: &str, fragment: &str) -> (r: String)
    ensures
        r@ == recombined_line(key@, fragment@),
{
    let key_chars = chars_of(key);
    let fragment_chars = chars_of(fragment);
    let mut joined: Vec<char> = Vec::new();
    let n = key_chars.len();
    let mut i: usize = 0;
    while i < n
        invariant
            n == key_chars@.len(),
            i <= n,
            joined@ == key_chars@.take(i as int),
        decreases n - i,
    {
        joined.push(key_chars[i]);
        assert(key_chars@.take(i + 1) =~= key_chars@.take(i as int).push(key_chars@[i as int]));
        i = i + 1;
    }
    assert(key_chars@.take(n as int) =~= key_chars@);
    let ghost head = joined@;
    if n > 0 && !is_marker_chars(&key_chars) {
        joined.push(':');
        joined.push(' ');
        assert(joined@ =~= key@ + seq![':', ' ']);
    }
    let ghost with_separator = joined@;
    let m = fragment_chars.len();
    let mut j: usize = 0;
    while j < m
        invariant
            m == fragment_chars@.len(),
            j <= m,
            joined@ == with_separator + fragment_chars@.take(j as int),
        decreases m - j,
    {
        joined.push(fragment_chars[j]);
        assert(fragment_chars@.take(j + 1) =~= fragment_chars@.take(j as int).push(
            fragment_chars@[j as int],
        ));
        j = j + 1;
    }
    assert(fragment_chars@.take(m as int) =~= fragment_chars@);
    let mut line = collapse_chars(&joined);
    line.push('\n');
    string_of(&line)
}

/// Re-keys a translated document: for each position that both the translated
/// lines and the keys reach, the key is joined with the value fragment of the
/// translated line. Translated lines past the end of the keys are dropped.
pub fn realign(translated_lines: &Vec<String>, keys: &Vec<String>) -> (r: String)
    ensures
        r@ == realigned(lines_view(translated_lines@), lines_view(keys@)),
{
    let ghost t = lines_view(translated_lines@);
    let ghost k = lines_view(keys@);
    let count = if translated_lines.len() <= keys.len() {
        translated_lines.len()
    } else {
        keys.len()
    };
    let mut out = String::new();
    let mut i: usize = 0;
    while i < count
        invariant
            t == lines_view(translated_lines@),
            k == lines_view(keys@),
            count == paired_len(t, k),
            i <= count,
            out@ == realigned_prefix(t, k, i as nat),
        decreases count - i,
    {
        let fragment = value_fragment(translated_lines[i].as_str());
        let line = recombine_line(keys[i].as_str(), fragment.as_str());
        out.append(line.as_str());
        i = i + 1;
    }
    out
}

/// The number of newline characters in `s`.
pub open spec fn newline_count(s: Seq<char>) -> nat
    decreases s.len(),
{
    if s.len() == 0 {
        0
    } else {
        newline_count(s.drop_last()) + if s.last() == '\n' {
            1nat
        } else {
            0nat
        }
    }
}

/// No element of `lines` holds a newline.
pub open spec fn no_newlines(lines: Seq<Seq<char>>) -> bool {
    forall|i: int| 0 <= i < lines.len() ==> !(#[trigger] lines[i]).contains('\n')
}

proof fn lemma_newline_count_concat(a: Seq<char>, b: Seq<char>)
    ensures
        newline_count(a + b) == newline_count(a) + newline_count(b),
    decreases b.len(),
{
    if b.len() > 0 {
        lemma_newline_count_concat(a, b.drop_last());
        assert((a + b).drop_last() =~= a + b.drop_last());
    } else {
        assert(a + b =~= a);
    }
}

proof fn lemma_newline_count_none(s: Seq<char>)
    requires
        !s.contains('\n'),
    ensures
        newline_count(s) == 0,
    decreases s.len(),
{
    if s.len() > 0 {
        assert(s.last() == s[s.len() - 1]);
        assert(!s.drop_last().contains('\n')) by {
            if s.drop_last().contains('\n') {
                let k = choose|k: int| 0 <= k < s.drop_last().len() && s.drop_last()[k] == '\n';
                assert(s[k] == '\n');
            }
        }
        lemma_newline_count_none(s.drop_last());
    }
}

proof fn lemma_fragment_no_newline(s: Seq<char>)
    requires
        !s.contains('\n'),
    ensures
        !value_fragment_of(s).contains('\n'),
    decreases s.len(),
{
    if s.len() > 0 {
        assert(!s.drop_first().contains('\n')) by {
            if s.drop_first().contains('\n') {
                let k = choose|k: int| 0 <= k < s.drop_first().len() && s.drop_first()[k] == '\n';
                assert(s[k + 1] == '\n');
            }
        }
        if s[0] != ':' {
            lemma_fragment_no_newline(s.drop_first());
        }
    }
}

proof fn lemma_collapse_no_newline(s: Seq<char>)
    requires
        !s.contains('\n'),
    ensures
        !collapse_double_spaces(s).contains('\n'),
    decreases s.len(),
{
    let c = collapse_double_spaces(s);
    if s.len() >= 2 && s[0] == ' ' && s[1] == ' ' {
        assert(!s.skip(2).contains('\n')) by {
            if s.skip(2).contains('\n') {
                let k = choose|k: int| 0 <= k < s.skip(2).len() && s.skip(2)[k] == '\n';
                assert(s[k + 2] == '\n');
            }
        }
        lemma_collapse_no_newline(s.skip(2));
        assert(!c.contains('\n')) by {
            if c.contains('\n') {
                let k = choose|k: int| 0 <= k < c.len() && c[k] == '\n';
                assert(k > 0 ==> collapse_double_spaces(s.skip(2))[k - 1] == '\n');
            }
        }
    } else if s.len() > 0 {
        assert(!s.drop_first().contains('\n')) by {
            if s.drop_first().contains('\n') {
                let k = choose|k: int| 0 <= k < s.drop_first().len() && s.drop_first()[k] == '\n';
                assert(s[k + 1] == '\n');
            }
        }
        lemma_collapse_no_newline(s.drop_first());
        assert(!c.contains('\n')) by {
            if c.contains('\n') {
                let k = choose|k: int| 0 <= k < c.len() && c[k] == '\n';
                assert(k > 0 ==> collapse_double_spaces(s.drop_first())[k - 1] == '\n');
            }
        }
    }
}

proof fn lemma_recombined_one_newline(key: Seq<char>, fragment: Seq<char>)
    requires
        !key.contains('\n'),
        !fragment.contains('\n'),
    ensures
        newline_count(recombined_line(key, fragment)) == 1,
{
    let joined = if takes_separator(key) {
        key + seq![':', ' '] + fragment
    } else {
        key + fragment
    };
    assert(!joined.contains('\n')) by {
        if joined.contains('\n') {
            let k = choose|k: int| 0 <= k < joined.len() && joined[k] == '\n';
            if k < key.len() {
                assert(key[k] == '\n');
            } else if takes_separator(key) && k < key.len() + 2 {
                assert(joined[k] == ':' || joined[k] == ' ');
            } else if takes_separator(key) {
                assert(fragment[k - key.len() - 2] == '\n');
            } else {
                assert(fragment[k - key.len()] == '\n');
            }
        }
    }
    lemma_collapse_no_newline(joined);
    let c = collapse_double_spaces(joined);
    lemma_newline_count_none(c);
    assert(c.push('\n').drop_last() =~= c);
}

proof fn lemma_realigned_prefix_lines(t: Seq<Seq<char>>, k: Seq<Seq<char>>, n: nat)
    requires
        no_newlines(t),
        no_newlines(k),
        n <= t.len(),
        n <= k.len(),
    ensures
        newline_count(realigned_prefix(t, k, n)) == n,
    decreases n,
{
    if n > 0 {
        lemma_realigned_prefix_lines(t, k, (n - 1) as nat);
        assert(!t[n - 1].contains('\n'));
        assert(!k[n - 1].contains('\n'));
        lemma_fragment_no_newline(t[n - 1]);
        lemma_recombined_one_newline(k[n - 1], value_fragment_of(t[n - 1]));
        lemma_newline_count_concat(
            realigned_prefix(t, k, (n - 1) as nat),
            recombined_line(k[n - 1], value_fragment_of(t[n - 1])),
        );
    }
}

/// When neither the translated lines nor the keys hold a newline, the realigned
/// text has exactly one line for each position that both reach, and so never
/// more lines than the shorter of the two.
pub proof fn lemma_realigned_line_count(t: Seq<Seq<char>>, k: Seq<Seq<char>>)
    requires
        no_newlines(t),
        no_newlines(k),
    ensures
        newline_count(realigned(t, k)) == paired_len(t, k),
        newline_count(realigned(t, k)) <= t.len(),
        newline_count(realigned(t, k)) <= k.len(),
{
    lemma_realigned_prefix_lines(t, k, paired_len(t, k));
}

/// A structural marker key is followed directly by its value fragment, never by
/// `": "`.
pub proof fn lemma_marker_key_unseparated(key: Seq<char>, fragment: Seq<char>)
    requires
        is_marker(key),
    ensures
        recombined_line(key, fragment) == key + collapse_double_spaces(fragment) + seq!['\n'],
{
    let joined = key + fragment;
    assert(joined[0] == key[0]);
    assert(joined.drop_first() =~= fragment);
    assert(collapse_double_spaces(joined) == seq![key[0]] + collapse_double_spaces(fragment));
    assert(seq![key[0]] =~= key);
    assert((key + collapse_double_spaces(fragment)).push('\n') =~= key + collapse_double_spaces(
        fragment,
    ) + seq!['\n']);
}

} // verus!
