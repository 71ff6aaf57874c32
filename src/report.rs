use vstd::prelude::*;

use crate::format::{human_text, push_human, string_of};
use crate::tree::SizeEntry;

verus! {

/// Places `e` after every leading entry at least as large: into a list sorted
/// from largest to smallest, this is where a stable sort puts a later entry.
pub open spec fn insert_desc(s: Seq<SizeEntry>, e: SizeEntry) -> Seq<SizeEntry>
    decreases s.len(),
{
    if s.len() == 0 {
        seq![e]
    } else if s[0].size >= e.size {
        seq![s[0]] + insert_desc(s.drop_first(), e)
    } else {
        seq![e] + s
    }
}

/// The entries from largest to smallest size; entries of equal size keep their
/// order from the input.
pub open spec fn sort_by_size(s: Seq<SizeEntry>) -> Seq<SizeEntry>
    decreases s.len(),
{
    if s.len() == 0 {
        Seq::empty()
    } else {
        insert_desc(sort_by_size(s.drop_last()), s.last())
    }
}

/// No entry is smaller than one after it.
pub open spec fn sorted_desc(s: Seq<SizeEntry>) -> bool {
    forall|a: int, b: int| 0 <= a < b < s.len() ==> s[a].size >= s[b].size
}

/// The entries of size `k`, in order.
pub open spec fn of_size(s: Seq<SizeEntry>, k: u64) -> Seq<SizeEntry> {
    s.filter(|e: SizeEntry| e.size == k)
}

proof fn lemma_insert_at(s: Seq<SizeEntry>, e: SizeEntry, p: int)
    requires
        0 <= p <= s.len(),
        forall|j: int| 0 <= j < p ==> s[j].size >= e.size,
        p < s.len() ==> s[p].size < e.size,
    ensures
        insert_desc(s, e) == s.insert(p, e),
    decreases p,
{
    if s.len() == 0 {
        assert(s.insert(p, e) =~= seq![e]);
    } else if p == 0 {
        assert(s.insert(p, e) =~= seq![e] + s);
    } else {
        lemma_insert_at(s.drop_first(), e, p - 1);
        assert(s.insert(p, e) =~= seq![s[0]] + s.drop_first().insert(p - 1, e));
    }
}

proof fn lemma_insert_bound(s: Seq<SizeEntry>, e: SizeEntry, m: u64)
    requires
        forall|j: int| 0 <= j < s.len() ==> s[j].size <= m,
        e.size <= m,
    ensures
        forall|j: int| 0 <= j < insert_desc(s, e).len() ==> insert_desc(s, e)[j].size <= m,
        insert_desc(s, e).len() == s.len() + 1,
    decreases s.len(),
{
    if s.len() > 0 && s[0].size >= e.size {
        lemma_insert_bound(s.drop_first(), e, m);
    }
}

proof fn lemma_insert_sorted(s: Seq<SizeEntry>, e: SizeEntry)
    requires
        sorted_desc(s),
    ensures
        sorted_desc(insert_desc(s, e)),
    decreases s.len(),
{
    if s.len() > 0 && s[0].size >= e.size {
        let t = s.drop_first();
        lemma_insert_sorted(t, e);
        lemma_insert_bound(t, e, s[0].size);
        let r = insert_desc(s, e);
        assert forall|a: int, b: int| 0 <= a < b < r.len() implies r[a].size >= r[b].size by {
            if a > 0 {
                assert(r[a] == insert_desc(t, e)[a - 1]);
                assert(r[b] == insert_desc(t, e)[b - 1]);
            } else {
                assert(r[b] == insert_desc(t, e)[b - 1]);
            }
        }
    }
}

proof fn lemma_insert_stable(s: Seq<SizeEntry>, e: SizeEntry, k: u64)
    requires
        sorted_desc(s),
    ensures
        of_size(insert_desc(s, e), k) == if e.size == k {
            of_size(s, k).push(e)
        } else {
            of_size(s, k)
        },
    decreases s.len(),
{
    broadcast use vstd::seq_lib::group_filter_ensures;

    let pred = |x: SizeEntry| x.size == k;
    if s.len() == 0 {
        reveal_with_fuel(Seq::filter, 2);
        assert(of_size(s, k) =~= Seq::empty());
        assert(seq![e].drop_last() =~= Seq::<SizeEntry>::empty());
    } else if s[0].size >= e.size {
        let t = s.drop_first();
        lemma_insert_stable(t, e, k);
        Seq::filter_distributes_over_add(seq![s[0]], insert_desc(t, e), pred);
        Seq::filter_distributes_over_add(seq![s[0]], t, pred);
        assert(s =~= seq![s[0]] + t);
        if e.size == k {
            assert(of_size(seq![s[0]], k) + of_size(t, k).push(e) =~= (of_size(seq![s[0]], k) + of_size(t, k)).push(e));
        }
    } else {
        Seq::filter_distributes_over_add(seq![e], s, pred);
        Seq::filter_distributes_over_add(s, seq![e], pred);
        reveal_with_fuel(Seq::filter, 2);
        assert(seq![e].drop_last() =~= Seq::<SizeEntry>::empty());
        if e.size == k {
            assert forall|j: int| 0 <= j < s.len() implies !pred(s[j]) by {
                assert(s[0].size >= s[j].size);
            }
            s.lemma_all_neg_filter_empty(pred);
            assert(of_size(seq![e], k) =~= seq![e]);
            assert(of_size(s, k) =~= Seq::empty());
            assert(of_size(s, k).push(e) =~= seq![e]);
        } else {
            assert(of_size(seq![e], k) =~= Seq::empty());
        }
    }
}

/// A stable sort from largest to smallest: the result is ordered by size, and
/// for every size the entries of that size appear exactly as in the input, in
/// the input's order.
pub proof fn lemma_sort_stable(s: Seq<SizeEntry>)
    ensures
        sorted_desc(sort_by_size(s)),
        forall|k: u64| #[trigger] of_size(sort_by_size(s), k) == of_size(s, k),
    decreases s.len(),
{
    broadcast use vstd::seq_lib::group_filter_ensures;

    if s.len() == 0 {
        assert forall|k: u64| #[trigger] of_size(sort_by_size(s), k) == of_size(s, k) by {
            assert(sort_by_size(s) =~= s);
        }
    } else {
        let t = s.drop_last();
        lemma_sort_stable(t);
        lemma_insert_sorted(sort_by_size(t), s.last());
        assert(s =~= t.push(s.last()));
        assert forall|k: u64| #[trigger] of_size(sort_by_size(s), k) == of_size(s, k) by {
            lemma_insert_stable(sort_by_size(t), s.last(), k);
            t.lemma_filter_push(s.last(), |x: SizeEntry| x.size == k);
        }
    }
}

/// Sorts report entries from largest to smallest; entries of equal size keep
/// their relative order.
pub fn sort_entries(entries: Vec<SizeEntry>) -> (r: Vec<SizeEntry>)
    ensures
        r@ == sort_by_size(entries@),
{
    let ghost orig = entries@;
    let mut input = entries;
    let mut out: Vec<SizeEntry> = Vec::new();
    let ghost mut taken: int = 0;
    proof {
        assert(orig.take(0) =~= Seq::<SizeEntry>::empty());
        assert(orig.skip(0) =~= orig);
    }
    while input.len() > 0
        invariant
            0 <= taken <= orig.len(),
            input@ == orig.skip(taken),
            out@ == sort_by_size(orig.take(taken)),
        decreases input@.len(),
    {
        let e = input.remove(0);
        let mut p: usize = 0;
        while p < out.len() && out[p].size >= e.size
            invariant
                p <= out@.len(),
                forall|j: int| 0 <= j < p ==> out@[j].size >= e.size,
            decreases out@.len() - p,
        {
            p = p + 1;
        }
        proof {
            lemma_insert_at(out@, e, p as int);
            assert(orig.take(taken + 1).drop_last() =~= orig.take(taken));
            assert(orig.take(taken + 1).last() == e);
        }
        out.insert(p, e);
        proof {
            taken = taken + 1;
            assert(input@ =~= orig.skip(taken));
        }
    }
    proof {
        assert(orig.take(taken) =~= orig);
    }
    out
}

/// `s` right-aligned in a field of `w` characters.
pub open spec fn pad_left(s: Seq<char>, w: nat) -> Seq<char> {
    if s.len() >= w {
        s
    } else {
        Seq::new((w - s.len()) as nat, |j: int| ' ') + s
    }
}

/// The kind column of a report line.
pub open spec fn kind_tag(is_dir: bool) -> Seq<char> {
    if is_dir {
        seq!['D', 'I', 'R', ' ']
    } else {
        seq!['F', 'I', 'L', 'E']
    }
}

/// A report line: the readable size right-aligned in ten columns, the kind tag
/// and the identifier, separated by two spaces.
pub open spec fn line_text(e: SizeEntry) -> Seq<char> {
    pad_left(human_text(e.size as nat), 10) + seq![' ', ' '] + kind_tag(e.is_dir) + seq![' ', ' ']
        + e.path@
}

fn push_str_chars(out: &mut Vec<char>, s: &str)
    ensures
        final(out)@ == old(out)@ + s@,
{
    let n = s.unicode_len();
    let mut i: usize = 0;
    let ghost start = out@;
    while i < n
        invariant
            n == s@.len(),
            i <= n,
            out@ == start + s@.take(i as int),
        decreases n - i,
    {
        out.push(s.get_char(i));
        proof {
            assert(s@.take(i + 1) =~= s@.take(i as int).push(s@[i as int]));
        }
        i = i + 1;
    }
    proof {
        assert(s@.take(n as int) =~= s@);
    }
}

fn push_spaces(out: &mut Vec<char>, count: usize)
    ensures
        final(out)@ == old(out)@ + Seq::new(count as nat, |j: int| ' '),
{
    let ghost start = out@;
    let mut i: usize = 0;
    while i < count
        invariant
            i <= count,
            out@ == start + Seq::new(i as nat, |j: int| ' '),
        decreases count - i,
    {
        out.push(' ');
        i = i + 1;
        proof {
            assert(out@ =~= start + Seq::new(i as nat, |j: int| ' '));
        }
    }
}

fn push_padded(out: &mut Vec<char>, s: &Vec<char>, w: usize)
    ensures
        final(out)@ == old(out)@ + pad_left(s@, w as nat),
{
    let ghost start = out@;
    let ghost p = pad_left(s@, w as nat);
    let pad: usize = if s.len() < w {
        w - s.len()
    } else {
        0
    };
    push_spaces(out, pad);
    let mut k: usize = 0;
    while k < s.len()
        invariant
            k <= s@.len(),
            p == pad_left(s@, w as nat),
            pad + s@.len() == p.len(),
            out@ == start + p.take(pad + k),
        decreases s@.len() - k,
    {
        proof {
            assert(p[pad + k] == s@[k as int]);
            assert(p.take(pad + k + 1) =~= p.take(pad + k).push(s@[k as int]));
        }
        out.push(s[k]);
        k = k + 1;
    }
    proof {
        assert(p.take(pad + k) =~= p);
    }
}

/// Renders one report line.
pub fn render_line(e: &SizeEntry) -> (r: String)
    ensures
        r@ == line_text(*e),
{
    let mut size: Vec<char> = Vec::new();
    push_human(&mut size, e.size);
    assert(size@ =~= human_text(e.size as nat));
    let mut out: Vec<char> = Vec::new();
    push_padded(&mut out, &size, 10);
    out.push(' ');
    out.push(' ');
    if e.is_dir {
        out.push('D');
        out.push('I');
        out.push('R');
        out.push(' ');
    } else {
        out.push('F');
        out.push('I');
        out.push('L');
        out.push('E');
    }
    out.push(' ');
    out.push(' ');
    push_str_chars(&mut out, e.path.as_str());
    assert(out@ =~= line_text(*e));
    string_of(&out)
}

/// The lines of a report: the entries sorted from largest to smallest, ties in
/// input order, each rendered as one line.
pub fn sort_and_render(entries: Vec<SizeEntry>) -> (r: Vec<String>)
    ensures
        r@.len() == entries@.len(),
        forall|j: int| 0 <= j < r@.len() ==> #[trigger] r@[j]@ == line_text(sort_by_size(entries@)[j]),
{
    let sorted = sort_entries(entries);
    proof {
        lemma_sort_len(entries@);
    }
    let mut lines: Vec<String> = Vec::new();
    let mut j: usize = 0;
    while j < sorted.len()
        invariant
            j <= sorted@.len(),
            sorted@ == sort_by_size(entries@),
            lines@.len() == j,
            forall|t: int| 0 <= t < j ==> #[trigger] lines@[t]@ == line_text(sorted@[t]),
        decreases sorted@.len() - j,
    {
        lines.push(render_line(&sorted[j]));
        j = j + 1;
    }
    lines
}

proof fn lemma_sort_len(s: Seq<SizeEntry>)
    ensures
        sort_by_size(s).len() == s.len(),
    decreases s.len(),
{
    if s.len() > 0 {
        lemma_sort_len(s.drop_last());
        lemma_insert_len(sort_by_size(s.drop_last()), s.last());
    }
}

proof fn lemma_insert_len(s: Seq<SizeEntry>, e: SizeEntry)
    ensures
        insert_desc(s, e).len() == s.len() + 1,
    decreases s.len(),
{
    if s.len() > 0 && s[0].size >= e.size {
        lemma_insert_len(s.drop_first(), e);
    }
}

/// `n / d` rounded to the nearest integer, halves away from zero.
pub open spec fn div_round_half_up(n: nat, d: nat) -> nat
    recommends
        d > 0,
{
    (2 * n + d) / (2 * d)
}

/// The number of full cells in a bar of `width` cells for the proportion
/// `part / whole`: the proportion of the width rounded to the nearest cell, at
/// most the width, and none where `whole` is zero.
pub open spec fn bar_cells(part: nat, whole: nat, width: nat) -> nat {
    if whole == 0 {
        0
    } else {
        let f = div_round_half_up(part * width, whole);
        if f > width {
            width
        } else {
            f
        }
    }
}

/// A bar of `width` cells: the full cells, then blanks.  The filled width is
/// rounded to whole cells before it is drawn, so no partial cell is left over.
pub open spec fn bar_text(part: nat, whole: nat, width: nat) -> Seq<char> {
    Seq::new(bar_cells(part, whole, width), |j: int| '\u{2588}') + Seq::new(
        (width - bar_cells(part, whole, width)) as nat,
        |j: int| ' ',
    )
}

/// A bar of `width` cells showing the proportion `part / whole`.
pub fn create_bar(part: u64, whole: u64, width: usize) -> (r: String)
    ensures
        r@ == bar_text(part as nat, whole as nat, width as nat),
{
    let full: usize = if whole == 0 {
        0
    } else {
        assert((part as nat) * (width as nat) <= 0xffff_ffff_ffff_ffff * 0xffff_ffff_ffff_ffff)
            by (nonlinear_arith)
            requires
                part as nat <= 0xffff_ffff_ffff_ffff,
                width as nat <= 0xffff_ffff_ffff_ffff,
        ;
        let pw: u128 = (part as u128) * (width as u128);
        let d: u128 = whole as u128;
        assert(pw / d <= pw) by (nonlinear_arith)
            requires
                d > 0,
        ;
        let f: u128 = if 2 * (pw % d) >= d {
            pw / d + 1
        } else {
            pw / d
        };
        assert(f == div_round_half_up((part as nat) * (width as nat), whole as nat)) by (nonlinear_arith)
            requires
                pw == (part as nat) * (width as nat),
                d == whole as nat,
                d > 0,
                2 * (pw % d) >= d ==> f == pw / d + 1,
                2 * (pw % d) < d ==> f == pw / d,
        ;
        if f > width as u128 {
            width
        } else {
            f as usize
        }
    };
    let mut out: Vec<char> = Vec::new();
    let mut i: usize = 0;
    while i < full
        invariant
            i <= full,
            out@ == Seq::new(i as nat, |j: int| '\u{2588}'),
        decreases full - i,
    {
        out.push('\u{2588}');
        i = i + 1;
        proof {
            assert(out@ =~= Seq::new(i as nat, |j: int| '\u{2588}'));
        }
    }
    push_spaces(&mut out, width - full);
    assert(out@ =~= bar_text(part as nat, whole as nat, width as nat));
    string_of(&out)
}

} // verus!
