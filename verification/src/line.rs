//! The line reducer: slides one 4-cell line toward index 0 and merges
//! adjacent equal tiles pairwise, at most once per resulting tile.

use vstd::prelude::*;

verus! {

/// A tile value: `0` is an empty cell; a positive `n` displays as `2^n`.
pub type Square = u16;

/// The non-zero values of a line, in their original order: the slide
/// (gravity) step, with every empty slot removed.
pub open spec fn compact(s: Seq<u16>) -> Seq<u16>
    decreases s.len(),
{
    if s.len() == 0 {
        Seq::empty()
    } else if s[0] == 0 {
        compact(s.skip(1))
    } else {
        seq![s[0]] + compact(s.skip(1))
    }
}

/// One greedy left-to-right merge pass over a compacted line: two equal
/// leading values become one value raised by one, and a tile produced by
/// a merge never merges again within the same pass.
pub open spec fn merge_pass(s: Seq<u16>) -> Seq<u16>
    decreases s.len(),
{
    if s.len() == 0 {
        Seq::empty()
    } else if s.len() >= 2 && s[0] == s[1] {
        seq![(s[0] + 1) as u16] + merge_pass(s.skip(2))
    } else {
        seq![s[0]] + merge_pass(s.skip(1))
    }
}

/// How many merges the greedy pass performs on a compacted line.
pub open spec fn merges(s: Seq<u16>) -> nat
    decreases s.len(),
{
    if s.len() == 0 {
        0
    } else if s.len() >= 2 && s[0] == s[1] {
        1 + merges(s.skip(2))
    } else {
        merges(s.skip(1))
    }
}

/// Pad a line of at most 4 values with trailing zeros up to length 4.
pub open spec fn pad4(s: Seq<u16>) -> Seq<u16> {
    Seq::new(4, |j: int| if j < s.len() { s[j] } else { 0u16 })
}

/// What shifting one line toward index 0 produces: slide, merge, pad.
pub open spec fn reduce(line: Seq<u16>) -> Seq<u16> {
    pad4(merge_pass(compact(line)))
}

/// `2^n`, the displayed value of a tile holding the exponent `n`.
pub open spec fn pow2(n: nat) -> nat
    decreases n,
{
    if n == 0 {
        1
    } else {
        2 * pow2((n - 1) as nat)
    }
}

/// The displayed value a cell contributes to a board's total: nothing
/// for an empty cell, `2^x` for a tile of value `x`.
pub open spec fn cell_weight(x: u16) -> nat {
    if x == 0 {
        0
    } else {
        pow2(x as nat)
    }
}

/// The weight used to total displayed values.
pub open spec fn weight_fn() -> spec_fn(u16) -> nat {
    |x: u16| cell_weight(x)
}

/// The weight used to count non-empty cells.
pub open spec fn count_fn() -> spec_fn(u16) -> nat {
    |x: u16| if x == 0 { 0nat } else { 1nat }
}

/// The sum of `f` over the cells of `s` from index `k` on.
pub open spec fn wsum(s: Seq<u16>, k: int, f: spec_fn(u16) -> nat) -> nat
    decreases s.len() - k,
{
    if k < 0 || k >= s.len() {
        0
    } else {
        f(s[k]) + wsum(s, k + 1, f)
    }
}

/// The total displayed value of the tiles on a line or board.
pub open spec fn line_sum(s: Seq<u16>) -> nat {
    wsum(s, 0, weight_fn())
}

/// How many cells of a line or board are non-empty.
pub open spec fn nonzero_count(s: Seq<u16>) -> nat {
    wsum(s, 0, count_fn())
}

/// Dropping the head shifts every summation index down by one.
proof fn lemma_wsum_skip1(s: Seq<u16>, k: int, f: spec_fn(u16) -> nat)
    requires
        s.len() >= 1,
        0 <= k,
    ensures
        wsum(s.skip(1), k, f) == wsum(s, k + 1, f),
    decreases s.len() - k,
{
    if k < s.skip(1).len() {
        lemma_wsum_skip1(s, k + 1, f);
    }
}

/// A weighted sum splits into its head weight and the sum of the tail.
proof fn lemma_wsum_head(s: Seq<u16>, f: spec_fn(u16) -> nat)
    requires
        s.len() >= 1,
    ensures
        wsum(s, 0, f) == f(s[0]) + wsum(s.skip(1), 0, f),
{
    lemma_wsum_skip1(s, 0, f);
}

/// A weighted sum over a prepended element adds that element's weight.
proof fn lemma_wsum_cons(x: u16, t: Seq<u16>, f: spec_fn(u16) -> nat)
    ensures
        wsum(seq![x] + t, 0, f) == f(x) + wsum(t, 0, f),
{
    let s = seq![x] + t;
    assert(s.skip(1) =~= t);
    lemma_wsum_head(s, f);
}

/// Sums agree between a sequence and a shorter one it extends with
/// weightless cells.
proof fn lemma_wsum_agree(a: Seq<u16>, b: Seq<u16>, k: int, f: spec_fn(u16) -> nat)
    requires
        b.len() <= a.len(),
        0 <= k,
        forall|j: int| k <= j < b.len() ==> f(a[j]) == f(b[j]),
        forall|j: int| b.len() <= j < a.len() ==> f(a[j]) == 0,
    ensures
        wsum(a, k, f) == wsum(b, k, f),
    decreases a.len() - k,
{
    if k < a.len() {
        lemma_wsum_agree(a, b, k + 1, f);
    }
}

/// Removing the empty cells does not change a weighted sum that gives
/// empty cells no weight.
proof fn lemma_wsum_compact(s: Seq<u16>, f: spec_fn(u16) -> nat)
    requires
        f(0) == 0,
    ensures
        wsum(compact(s), 0, f) == wsum(s, 0, f),
    decreases s.len(),
{
    if s.len() > 0 {
        lemma_wsum_head(s, f);
        lemma_wsum_compact(s.skip(1), f);
        if s[0] != 0 {
            lemma_wsum_cons(s[0], compact(s.skip(1)), f);
        }
    }
}

/// The compacted line is never longer than the line itself.
pub proof fn lemma_compact_len(s: Seq<u16>)
    ensures
        compact(s).len() <= s.len(),
    decreases s.len(),
{
    if s.len() > 0 {
        lemma_compact_len(s.skip(1));
    }
}

/// Every compacted cell is a non-zero cell of the line, so it inherits
/// the line's bound.
pub proof fn lemma_compact_elems(s: Seq<u16>)
    requires
        forall|j: int| 0 <= j < s.len() ==> s[j] < u16::MAX,
    ensures
        forall|j: int| 0 <= j < compact(s).len() ==> compact(s)[j] != 0 && compact(s)[j] < u16::MAX,
    decreases s.len(),
{
    if s.len() > 0 {
        lemma_compact_elems(s.skip(1));
        if s[0] != 0 {
            assert forall|j: int| 0 <= j < compact(s).len() implies compact(s)[j] != 0
                && compact(s)[j] < u16::MAX by {
                if j > 0 {
                    assert(compact(s)[j] == compact(s.skip(1))[j - 1]);
                }
            }
        }
    }
}

/// A line of tiles with nothing to slide compacts to itself.
proof fn lemma_compact_id(s: Seq<u16>)
    requires
        forall|j: int| 0 <= j < s.len() ==> s[j] != 0,
    ensures
        compact(s) == s,
    decreases s.len(),
{
    if s.len() > 0 {
        lemma_compact_id(s.skip(1));
        assert(compact(s) =~= s);
    }
}

/// The merge pass shortens a line by exactly its number of merges.
proof fn lemma_merge_len(s: Seq<u16>)
    ensures
        merge_pass(s).len() + merges(s) == s.len(),
    decreases s.len(),
{
    if s.len() >= 2 && s[0] == s[1] {
        lemma_merge_len(s.skip(2));
    } else if s.len() >= 1 {
        lemma_merge_len(s.skip(1));
    }
}

/// Merging tiles that are non-empty and below the tile bound yields
/// only non-empty tiles.
proof fn lemma_merge_elems(s: Seq<u16>)
    requires
        forall|j: int| 0 <= j < s.len() ==> s[j] != 0 && s[j] < u16::MAX,
    ensures
        forall|j: int| 0 <= j < merge_pass(s).len() ==> merge_pass(s)[j] != 0,
    decreases s.len(),
{
    if s.len() >= 2 && s[0] == s[1] {
        lemma_merge_elems(s.skip(2));
        assert forall|j: int| 0 <= j < merge_pass(s).len() implies merge_pass(s)[j] != 0 by {
            if j > 0 {
                assert(merge_pass(s)[j] == merge_pass(s.skip(2))[j - 1]);
            }
        }
    } else if s.len() >= 1 {
        lemma_merge_elems(s.skip(1));
        assert forall|j: int| 0 <= j < merge_pass(s).len() implies merge_pass(s)[j] != 0 by {
            if j > 0 {
                assert(merge_pass(s)[j] == merge_pass(s.skip(1))[j - 1]);
            }
        }
    }
}

/// A pass that finds no merge returns the line unchanged.
pub proof fn lemma_no_merges_id(s: Seq<u16>)
    requires
        merges(s) == 0,
    ensures
        merge_pass(s) == s,
    decreases s.len(),
{
    if s.len() >= 2 && s[0] == s[1] {
        assert(merges(s) >= 1);
    } else if s.len() >= 1 {
        lemma_no_merges_id(s.skip(1));
        assert(merge_pass(s) =~= s);
    } else {
        assert(merge_pass(s) =~= s);
    }
}

/// A line with no equal adjacent pair admits no merge.
proof fn lemma_distinct_no_merges(s: Seq<u16>)
    requires
        forall|j: int| 0 <= j < s.len() - 1 ==> s[j] != #[trigger] s[j + 1],
    ensures
        merges(s) == 0,
    decreases s.len(),
{
    if s.len() >= 2 && s[0] == s[1] {
        assert(s[0] != s[0int + 1]);
    } else if s.len() >= 1 {
        assert forall|j: int| 0 <= j < s.skip(1).len() - 1 implies s.skip(1)[j]
            != #[trigger] s.skip(1)[j + 1] by {
            assert(s[j + 1] != s[j + 1 + 1]);
        }
        lemma_distinct_no_merges(s.skip(1));
    }
}

/// Counting non-empty cells of an all-tile line counts every cell.
proof fn lemma_count_full(s: Seq<u16>)
    requires
        forall|j: int| 0 <= j < s.len() ==> s[j] != 0,
    ensures
        wsum(s, 0, count_fn()) == s.len(),
    decreases s.len(),
{
    if s.len() > 0 {
        lemma_wsum_head(s, count_fn());
        lemma_count_full(s.skip(1));
    }
}

/// The merge pass conserves the total displayed value: the two merged
/// tiles' displayed values add up to the displayed value of the tile
/// they become.
proof fn lemma_merge_sum(s: Seq<u16>)
    requires
        forall|j: int| 0 <= j < s.len() ==> s[j] != 0 && s[j] < u16::MAX,
    ensures
        wsum(merge_pass(s), 0, weight_fn()) == wsum(s, 0, weight_fn()),
    decreases s.len(),
{
    let f = weight_fn();
    if s.len() >= 2 && s[0] == s[1] {
        lemma_merge_sum(s.skip(2));
        lemma_wsum_head(s, f);
        lemma_wsum_head(s.skip(1), f);
        assert(s.skip(1).skip(1) =~= s.skip(2));
        lemma_wsum_cons((s[0] + 1) as u16, merge_pass(s.skip(2)), f);
        assert(f((s[0] + 1) as u16) == pow2((s[0] + 1) as nat));
        assert(pow2((s[0] + 1) as nat) == 2 * pow2(s[0] as nat));
    } else if s.len() >= 1 {
        lemma_merge_sum(s.skip(1));
        lemma_wsum_head(s, f);
        lemma_wsum_cons(s[0], merge_pass(s.skip(1)), f);
    }
}

/// A full line with no equal adjacent pair passes through `reduce`
/// unchanged: nothing slides and nothing merges.
pub proof fn lemma_reduce_fixed(line: Seq<u16>)
    requires
        line.len() == 4,
        forall|j: int| 0 <= j < 4 ==> line[j] != 0,
        forall|j: int| 0 <= j < 3 ==> line[j] != #[trigger] line[j + 1],
    ensures
        reduce(line) == line,
{
    lemma_compact_id(line);
    lemma_distinct_no_merges(line);
    lemma_no_merges_id(line);
    assert(reduce(line) =~= line);
}

/// `reduce` never makes tiles: the count of tiles on the output is the
/// count on the input, less exactly one per merge of the greedy pass.
pub proof fn lemma_reduce_count(line: Seq<u16>)
    requires
        line.len() == 4,
        forall|j: int| 0 <= j < 4 ==> line[j] < u16::MAX,
    ensures
        nonzero_count(reduce(line)) + merges(compact(line)) == nonzero_count(line),
        nonzero_count(reduce(line)) <= nonzero_count(line),
{
    let f = count_fn();
    let c = compact(line);
    let m = merge_pass(c);
    assert(f(0) == 0);
    lemma_wsum_compact(line, f);
    lemma_compact_elems(line);
    lemma_compact_len(line);
    lemma_count_full(c);
    lemma_merge_elems(c);
    lemma_count_full(m);
    lemma_merge_len(c);
    lemma_wsum_agree(pad4(m), m, 0, f);
}

/// `reduce` conserves the total displayed value of a line: the two
/// tiles of a merge add up to the tile they become.
pub proof fn lemma_reduce_sum(line: Seq<u16>)
    requires
        line.len() == 4,
        forall|j: int| 0 <= j < 4 ==> line[j] < u16::MAX,
    ensures
        line_sum(reduce(line)) == line_sum(line),
{
    let f = weight_fn();
    let c = compact(line);
    let m = merge_pass(c);
    assert(f(0) == 0);
    lemma_wsum_compact(line, f);
    lemma_compact_elems(line);
    lemma_compact_len(line);
    lemma_merge_sum(c);
    lemma_merge_len(c);
    lemma_wsum_agree(pad4(m), m, 0, f);
}

/// Three equal tiles merge once only: the greedy pass never merges a
/// tile it has just produced.
pub proof fn lemma_reduce_three_equal(a: u16)
    requires
        0 < a < u16::MAX,
    ensures
        reduce(seq![a, a, a, 0u16]) == seq![(a + 1) as u16, a, 0u16, 0u16],
{
    let s = seq![a, a, a, 0u16];
    let c = seq![a, a, a];
    reveal_with_fuel(compact, 5);
    reveal_with_fuel(merge_pass, 5);
    assert(s.skip(1) =~= seq![a, a, 0u16]);
    assert(seq![a, a, 0u16].skip(1) =~= seq![a, 0u16]);
    assert(seq![a, 0u16].skip(1) =~= seq![0u16]);
    assert(seq![0u16].skip(1) =~= Seq::<u16>::empty());
    assert(compact(seq![0u16]) =~= Seq::<u16>::empty());
    assert(compact(seq![a, 0u16]) =~= seq![a]);
    assert(compact(seq![a, a, 0u16]) =~= seq![a, a]);
    assert(compact(s) =~= c);
    assert(c.skip(2) =~= seq![a]);
    assert(seq![a].skip(1) =~= Seq::<u16>::empty());
    assert(merge_pass(seq![a]) =~= seq![a]);
    assert(merge_pass(c) =~= seq![(a + 1) as u16, a]);
    assert(reduce(s) =~= seq![(a + 1) as u16, a, 0u16, 0u16]);
}

/// Four equal tiles merge as two independent pairs.
pub proof fn lemma_reduce_four_equal(a: u16)
    requires
        0 < a < u16::MAX,
    ensures
        reduce(seq![a, a, a, a]) == seq![(a + 1) as u16, (a + 1) as u16, 0u16, 0u16],
{
    let s = seq![a, a, a, a];
    lemma_compact_id(s);
    reveal_with_fuel(merge_pass, 5);
    assert(s.skip(2) =~= seq![a, a]);
    assert(seq![a, a].skip(2) =~= Seq::<u16>::empty());
    assert(merge_pass(seq![a, a]) =~= seq![(a + 1) as u16]);
    assert(merge_pass(s) =~= seq![(a + 1) as u16, (a + 1) as u16]);
    assert(reduce(s) =~= seq![(a + 1) as u16, (a + 1) as u16, 0u16, 0u16]);
}

/// Shift a single game line toward index 0.
pub fn shift_line(line: [Square; 4]) -> (res: [Square; 4])
    requires
        forall|j: int| 0 <= j < 4 ==> line[j] < u16::MAX,
    ensures
        res@ == reduce(line@),
{
    proof {
        assert(line@.skip(0) =~= line@);
    }
    let mut acc: Vec<u16> = Vec::new();
    let mut idx: usize = 0;
    while idx < 4
        invariant
            idx <= 4,
            forall|j: int| 0 <= j < 4 ==> line[j] < u16::MAX,
            acc@ + compact(line@.skip(idx as int)) == compact(line@),
            forall|j: int| 0 <= j < acc@.len() ==> acc@[j] != 0 && acc@[j] < u16::MAX,
            acc@.len() <= idx,
        decreases 4 - idx,
    {
        proof {
            assert(line@.skip(idx as int).skip(1) =~= line@.skip(idx as int + 1));
            assert(line@.skip(idx as int)[0] == line@[idx as int]);
        }
        if line[idx] != 0 {
            acc.push(line[idx]);
        }
        idx += 1;
        proof {
            assert(acc@ + compact(line@.skip(idx as int)) =~= compact(line@));
        }
    }
    proof {
        assert(line@.skip(4) =~= Seq::<u16>::empty());
        assert(acc@ =~= compact(line@));
        assert(acc@.skip(0) =~= acc@);
    }

    let mut out: Vec<u16> = Vec::new();
    let mut i: usize = 0;
    while i < acc.len()
        invariant
            i <= acc.len(),
            acc@ == compact(line@),
            acc@.len() <= 4,
            forall|j: int| 0 <= j < acc@.len() ==> acc@[j] != 0 && acc@[j] < u16::MAX,
            out@ + merge_pass(acc@.skip(i as int)) == merge_pass(acc@),
            out@.len() <= i,
        decreases acc.len() - i,
    {
        proof {
            assert(acc@.skip(i as int)[0] == acc@[i as int]);
        }
        if i + 1 < acc.len() && acc[i] == acc[i + 1] {
            proof {
                assert(acc@.skip(i as int)[1] == acc@[i as int + 1]);
                assert(acc@.skip(i as int).skip(2) =~= acc@.skip(i as int + 2));
            }
            out.push(acc[i] + 1);
            i += 2;
        } else {
            proof {
                assert(acc@.skip(i as int).skip(1) =~= acc@.skip(i as int + 1));
            }
            out.push(acc[i]);
            i += 1;
        }
        proof {
            assert(out@ + merge_pass(acc@.skip(i as int)) =~= merge_pass(acc@));
        }
    }
    proof {
        assert(acc@.skip(acc@.len() as int) =~= Seq::<u16>::empty());
        assert(out@ =~= merge_pass(compact(line@)));
    }

    let mut res = [0u16; 4];
    let mut j: usize = 0;
    while j < out.len()
        invariant
            out@ == merge_pass(compact(line@)),
            j <= out@.len(),
            out@.len() <= 4,
            forall|k: int| 0 <= k < j ==> res@[k] == out@[k],
            forall|k: int| j <= k < 4 ==> res@[k] == 0,
        decreases out.len() - j,
    {
        res[j] = out[j];
        j += 1;
    }
    proof {
        assert(res@ =~= reduce(line@));
    }
    res
}

} // verus!
