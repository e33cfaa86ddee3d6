//! Plain-text formatting: fixed-width padding, string reversal, digit
//! grouping from either end, and a two-column table renderer.

use vstd::prelude::*;

verus! {

/// Relies on std's String::push: appends the one character at the end.
#[verifier::external_body]
fn push_char(s: &mut String, c: char)
    ensures
        final(s)@ == old(s)@ + seq![c],
{
    s.push(c);
}

/// `n` copies of the character `c`.
pub open spec fn spec_repeat(c: char, n: nat) -> Seq<char> {
    Seq::new(n, |i: int| c)
}

/// A string of fewer than `k` characters is brought to `k` characters with
/// copies of `pad_char`, on the left if `left` holds and on the right
/// otherwise; a string of `k` or more characters is left alone.
pub open spec fn spec_pad(s: Seq<char>, k: nat, left: bool, pad_char: char) -> Seq<char> {
    if s.len() >= k {
        s
    } else if left {
        spec_repeat(pad_char, (k - s.len()) as nat) + s
    } else {
        s + spec_repeat(pad_char, (k - s.len()) as nat)
    }
}

pub fn pad(x: &str, k: usize, left: bool, pad_char: char) -> (r: String)
    ensures
        r@ == spec_pad(x@, k as nat, left, pad_char),
        r@.len() == if x@.len() >= k { x@.len() } else { k as nat },
{
    let n = x.unicode_len();
    if n >= k {
        return String::from_str(x);
    }
    let mut fill = String::new();
    let mut i: usize = 0;
    while i < k - n
        invariant
            x@.len() == n < k,
            i <= k - n,
            fill@ == spec_repeat(pad_char, i as nat),
        decreases k - n - i,
    {
        push_char(&mut fill, pad_char);
        i = i + 1;
        proof {
            assert(fill@ =~= spec_repeat(pad_char, i as nat));
        }
    }
    if left {
        let mut r = fill;
        r.append(x);
        r
    } else {
        let mut r = String::from_str(x);
        r.append(fill.as_str());
        r
    }
}

pub fn reverse_str(x: &str) -> (r: String)
    ensures
        r@ == x@.reverse(),
{
    let n = x.unicode_len();
    let mut out = String::new();
    let mut i: usize = 0;
    while i < n
        invariant
            x@.len() == n,
            i <= n,
            out@ == x@.reverse().subrange(0, i as int),
        decreases n - i,
    {
        let c = x.get_char(n - 1 - i);
        push_char(&mut out, c);
        i = i + 1;
        proof {
            assert(out@ =~= x@.reverse().subrange(0, i as int));
        }
    }
    proof {
        assert(x@.reverse().subrange(0, n as int) =~= x@.reverse());
    }
    out
}

/// Length of the leftmost group when `len` characters are split into groups
/// of `p` counted from the right end: the remainder of `len` by `p`, or a
/// full `p` when `p` divides `len`.
pub open spec fn first_group_len(len: nat, p: nat) -> nat {
    if len % p == 0 {
        p
    } else {
        len % p
    }
}

/// Groups of `p` characters counted from the right end, joined by `sep`;
/// the leftmost group may be shorter. A string of at most `p` characters
/// is left alone, as is any string when `p` is zero.
pub open spec fn spec_separate(s: Seq<char>, p: nat, sep: char) -> Seq<char>
    decreases s.len(),
{
    if p == 0 || s.len() <= p {
        s
    } else {
        let g = first_group_len(s.len(), p);
        s.take(g as int) + seq![sep] + spec_separate(s.skip(g as int), p, sep)
    }
}

/// Groups of `p` characters counted from the left end, joined by `sep`;
/// the rightmost group may be shorter.
pub open spec fn spec_separate_from_left(s: Seq<char>, p: nat, sep: char) -> Seq<char>
    decreases s.len(),
{
    if p == 0 || s.len() <= p {
        s
    } else {
        s.take(p as int) + seq![sep] + spec_separate_from_left(s.skip(p as int), p, sep)
    }
}

pub fn separate(x: &str, places: u8, sep: char) -> (r: String)
    requires
        places >= 1,
    ensures
        r@ == spec_separate(x@, places as nat, sep),
{
    let p = places as usize;
    let n = x.unicode_len();
    let mut out = String::new();
    let mut pos: usize = 0;
    proof {
        assert(x@.skip(0) =~= x@);
    }
    while n - pos > p
        invariant
            p == places as nat,
            places >= 1,
            x@.len() == n,
            pos <= n,
            out@ + spec_separate(x@.skip(pos as int), places as nat, sep) == spec_separate(
                x@,
                places as nat,
                sep,
            ),
        decreases n - pos,
    {
        let rem = (n - pos) % p;
        let g = if rem == 0 {
            p
        } else {
            rem
        };
        let piece = x.substring_char(pos, pos + g);
        out.append(piece);
        push_char(&mut out, sep);
        proof {
            let suf = x@.skip(pos as int);
            assert(suf.len() == n - pos);
            assert(g == first_group_len(suf.len(), places as nat));
            assert(suf.take(g as int) =~= x@.subrange(pos as int, (pos + g) as int));
            assert(suf.skip(g as int) =~= x@.skip((pos + g) as int));
        }
        pos = pos + g;
    }
    let piece = x.substring_char(pos, n);
    out.append(piece);
    proof {
        assert(x@.subrange(pos as int, n as int) =~= x@.skip(pos as int));
    }
    out
}

pub fn separate_from_left(x: &str, places: u8, sep: char) -> (r: String)
    requires
        places >= 1,
    ensures
        r@ == spec_separate_from_left(x@, places as nat, sep),
{
    let p = places as usize;
    let n = x.unicode_len();
    let mut out = String::new();
    let mut pos: usize = 0;
    proof {
        assert(x@.skip(0) =~= x@);
    }
    while n - pos > p
        invariant
            p == places as nat,
            places >= 1,
            x@.len() == n,
            pos <= n,
            out@ + spec_separate_from_left(x@.skip(pos as int), places as nat, sep)
                == spec_separate_from_left(x@, places as nat, sep),
        decreases n - pos,
    {
        let piece = x.substring_char(pos, pos + p);
        out.append(piece);
        push_char(&mut out, sep);
        proof {
            let suf = x@.skip(pos as int);
            assert(suf.len() == n - pos);
            assert(suf.take(p as int) =~= x@.subrange(pos as int, (pos + p) as int));
            assert(suf.skip(p as int) =~= x@.skip((pos + p) as int));
        }
        pos = pos + p;
    }
    let piece = x.substring_char(pos, n);
    out.append(piece);
    proof {
        assert(x@.subrange(pos as int, n as int) =~= x@.skip(pos as int));
    }
    out
}

/// Holds of the characters that stripping a separator keeps.
pub open spec fn spec_keeps(sep: char) -> spec_fn(char) -> bool {
    |c: char| c != sep
}

/// The characters of `s` other than the separator, in order.
pub open spec fn spec_strip(s: Seq<char>, sep: char) -> Seq<char> {
    s.filter(spec_keeps(sep))
}

/// Grouping from the right inserts separators and nothing else: stripping
/// the separator from the grouped string leaves what stripping it from the
/// original leaves.
pub proof fn lemma_separate_strips(s: Seq<char>, p: nat, sep: char)
    ensures
        spec_strip(spec_separate(s, p, sep), sep) == spec_strip(s, sep),
    decreases s.len(),
{
    if p == 0 || s.len() <= p {
    } else {
        let g = first_group_len(s.len(), p);
        lemma_separate_strips(s.skip(g as int), p, sep);
        lemma_strip_splits(s.take(g as int) + seq![sep], spec_separate(s.skip(g as int), p, sep), sep);
        lemma_strip_splits(s.take(g as int), seq![sep], sep);
        lemma_strip_singleton_sep(sep);
        lemma_strip_splits(s.take(g as int), s.skip(g as int), sep);
        assert(s.take(g as int) + s.skip(g as int) =~= s);
        assert(spec_strip(s.take(g as int), sep) + Seq::<char>::empty() =~= spec_strip(
            s.take(g as int),
            sep,
        ));
    }
}

/// A lone separator strips to nothing.
proof fn lemma_strip_singleton_sep(sep: char)
    ensures
        spec_strip(seq![sep], sep) == Seq::<char>::empty(),
{
    reveal_with_fuel(Seq::filter, 2);
    assert(seq![sep].drop_last() =~= Seq::<char>::empty());
    assert(spec_strip(seq![sep], sep) =~= Seq::<char>::empty());
}

/// Grouping from the left inserts separators and nothing else, likewise.
pub proof fn lemma_separate_from_left_strips(s: Seq<char>, p: nat, sep: char)
    ensures
        spec_strip(spec_separate_from_left(s, p, sep), sep) == spec_strip(s, sep),
    decreases s.len(),
{
    if p == 0 || s.len() <= p {
    } else {
        lemma_separate_from_left_strips(s.skip(p as int), p, sep);
        lemma_strip_splits(s.take(p as int) + seq![sep], spec_separate_from_left(s.skip(p as int), p, sep), sep);
        lemma_strip_splits(s.take(p as int), seq![sep], sep);
        lemma_strip_singleton_sep(sep);
        lemma_strip_splits(s.take(p as int), s.skip(p as int), sep);
        assert(s.take(p as int) + s.skip(p as int) =~= s);
        assert(spec_strip(s.take(p as int), sep) + Seq::<char>::empty() =~= spec_strip(
            s.take(p as int),
            sep,
        ));
    }
}

proof fn lemma_strip_splits(a: Seq<char>, b: Seq<char>, sep: char)
    ensures
        spec_strip(a + b, sep) == spec_strip(a, sep) + spec_strip(b, sep),
{
    Seq::<char>::filter_distributes_over_add(a, b, spec_keeps(sep));
}

/// A string free of the separator strips to itself.
pub proof fn lemma_strip_absent(s: Seq<char>, sep: char)
    requires
        forall|i: int| 0 <= i < s.len() ==> s[i] != sep,
    ensures
        spec_strip(s, sep) == s,
    decreases s.len(),
{
    reveal_with_fuel(Seq::filter, 1);
    if s.len() == 0 {
        assert(spec_strip(s, sep) =~= s);
    } else {
        lemma_strip_absent(s.drop_last(), sep);
        assert(s[s.len() - 1] != sep);
        assert(spec_keeps(sep)(s.last()));
        assert(spec_strip(s, sep) == spec_strip(s.drop_last(), sep).push(s.last()));
        assert(s.drop_last().push(s.last()) =~= s);
    }
}

/// Grouping a string from the left and regrouping the result from the right
/// need not give the grouped string back, but stripping the separator from
/// the double-grouped string recovers the original, for any string free of
/// the separator.
pub proof fn lemma_grouping_round_trip(s: Seq<char>, p: nat, q: nat, sep: char)
    requires
        forall|i: int| 0 <= i < s.len() ==> s[i] != sep,
    ensures
        spec_strip(spec_separate(spec_separate_from_left(s, p, sep), q, sep), sep) == s,
{
    lemma_separate_strips(spec_separate_from_left(s, p, sep), q, sep);
    lemma_separate_from_left_strips(s, p, sep);
    lemma_strip_absent(s, sep);
}

/// The greatest label length over the rows.
pub open spec fn spec_max_label(rs: Seq<(Seq<char>, Seq<char>)>) -> nat
    decreases rs.len(),
{
    if rs.len() == 0 {
        0
    } else {
        let m = spec_max_label(rs.drop_last());
        if rs.last().0.len() > m {
            rs.last().0.len()
        } else {
            m
        }
    }
}

/// The greatest value length over the rows.
pub open spec fn spec_max_value(rs: Seq<(Seq<char>, Seq<char>)>) -> nat
    decreases rs.len(),
{
    if rs.len() == 0 {
        0
    } else {
        let m = spec_max_value(rs.drop_last());
        if rs.last().1.len() > m {
            rs.last().1.len()
        } else {
            m
        }
    }
}

/// One rendered line: the label padded on the right to the label column's
/// width, a space, the value padded on the left to the value column's
/// width, and a newline.
pub open spec fn spec_table_row(label: Seq<char>, value: Seq<char>, wl: nat, wv: nat) -> Seq<
    char,
> {
    spec_pad(label, wl, false, ' ') + seq![' '] + spec_pad(value, wv, true, ' ') + seq!['\n']
}

pub open spec fn spec_table_rows(rs: Seq<(Seq<char>, Seq<char>)>, wl: nat, wv: nat) -> Seq<char>
    decreases rs.len(),
{
    if rs.len() == 0 {
        Seq::empty()
    } else {
        spec_table_rows(rs.drop_last(), wl, wv) + spec_table_row(rs.last().0, rs.last().1, wl, wv)
    }
}

/// The rows rendered in order, labels right-padded and values left-padded
/// to the widest of their columns.
pub open spec fn spec_table(rs: Seq<(Seq<char>, Seq<char>)>) -> Seq<char> {
    spec_table_rows(rs, spec_max_label(rs), spec_max_value(rs))
}

pub fn make_table(rows: &[(&str, &str)]) -> (r: String)
    ensures
        r@ == spec_table(rows@.map_values(|p: (&str, &str)| (p.0@, p.1@))),
{
    let ghost rs = rows@.map_values(|p: (&str, &str)| (p.0@, p.1@));
    let mut max_label: usize = 0;
    let mut max_value: usize = 0;
    let mut i: usize = 0;
    while i < rows.len()
        invariant
            rs == rows@.map_values(|p: (&str, &str)| (p.0@, p.1@)),
            i <= rows@.len(),
            max_label == spec_max_label(rs.take(i as int)),
            max_value == spec_max_value(rs.take(i as int)),
        decreases rows@.len() - i,
    {
        let row = vstd::slice::slice_index_get(rows, i);
        let l0 = row.0.unicode_len();
        if l0 > max_label {
            max_label = l0;
        }
        let l1 = row.1.unicode_len();
        if l1 > max_value {
            max_value = l1;
        }
        proof {
            assert(rs.take(i + 1 as int).drop_last() =~= rs.take(i as int));
            assert(rs.take(i + 1 as int).last() == rs[i as int]);
        }
        i = i + 1;
    }
    proof {
        assert(rs.take(rows@.len() as int) =~= rs);
    }
    let mut out = String::new();
    let mut j: usize = 0;
    while j < rows.len()
        invariant
            rs == rows@.map_values(|p: (&str, &str)| (p.0@, p.1@)),
            j <= rows@.len(),
            max_label == spec_max_label(rs),
            max_value == spec_max_value(rs),
            out@ == spec_table_rows(rs.take(j as int), max_label as nat, max_value as nat),
        decreases rows@.len() - j,
    {
        let row = vstd::slice::slice_index_get(rows, j);
        let pl = pad(row.0, max_label, false, ' ');
        out.append(pl.as_str());
        push_char(&mut out, ' ');
        let pv = pad(row.1, max_value, true, ' ');
        out.append(pv.as_str());
        push_char(&mut out, '\n');
        proof {
            assert(rs.take(j + 1 as int).drop_last() =~= rs.take(j as int));
            assert(rs.take(j + 1 as int).last() == rs[j as int]);
            assert(out@ =~= spec_table_rows(rs.take(j + 1 as int), max_label as nat, max_value as nat));
        }
        j = j + 1;
    }
    proof {
        assert(rs.take(rows@.len() as int) =~= rs);
    }
    out
}

} // verus!
