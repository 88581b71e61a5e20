//! One row of four cells: what sliding and merging it toward its low end
//! gives, and what its tiles are worth.
use vstd::arithmetic::power2::{lemma2_to64, lemma_pow2_unfold, pow2};
use vstd::bits::lemma_u64_shl_is_mul;
use vstd::prelude::*;
use vstd::seq_lib::{group_to_multiset_ensures, lemma_multiset_commutative};

verus! {

/// The four cells of a 16-bit row, lowest nibble first.
pub open spec fn row_cells(row: u64) -> Seq<u64> {
    seq![row & 0xF, (row >> 4u64) & 0xF, (row >> 8u64) & 0xF, (row >> 12u64) & 0xF]
}

/// Packs four cells back into a row, lowest nibble first.
pub open spec fn encode_cells(s: Seq<u64>) -> u64 {
    s[0] | (s[1] << 4u64) | (s[2] << 8u64) | (s[3] << 12u64)
}

/// The nonzero cells of `s`, in order.
pub open spec fn tiles(s: Seq<u64>) -> Seq<u64>
    decreases s.len(),
{
    if s.len() == 0 {
        s
    } else if s[0] == 0 {
        tiles(s.drop_first())
    } else {
        seq![s[0]] + tiles(s.drop_first())
    }
}

/// The exponent a merge of two tiles of exponent `a` produces: one more,
/// held at 15 so that it stays within a nibble.
pub open spec fn bump(a: u64) -> u64 {
    if a >= 15 {
        15
    } else {
        (a + 1) as u64
    }
}

/// Merges a run of tiles from the front: two equal neighbours become one
/// tile, and a tile made by a merge does not merge again.
pub open spec fn merged(s: Seq<u64>) -> Seq<u64>
    decreases s.len(),
{
    if s.len() < 2 {
        s
    } else if s[0] == s[1] {
        seq![bump(s[0])] + merged(s.subrange(2, s.len() as int))
    } else {
        seq![s[0]] + merged(s.drop_first())
    }
}

/// `s` followed by empty cells, four cells in all.
pub open spec fn pad4(s: Seq<u64>) -> Seq<u64> {
    Seq::new(4, |k: int| if k < s.len() { s[k] } else { 0u64 })
}

/// The cells of `row` after sliding its tiles toward the low end and merging.
pub open spec fn slid_cells(row: u64) -> Seq<u64> {
    pad4(merged(tiles(row_cells(row))))
}

/// The row after sliding its tiles toward the low end and merging.
pub open spec fn slide_row(row: u64) -> u64 {
    encode_cells(slid_cells(row))
}

/// A row with its four nibbles in reverse order.
pub open spec fn reverse_row(row: u64) -> u64 {
    ((row >> 12u64) & 0x000F) | ((row >> 4u64) & 0x00F0) | ((row << 4u64) & 0x0F00) | ((row << 12u64)
        & 0xF000)
}

/// The row after sliding its tiles toward the high end and merging.
pub open spec fn slide_row_high(row: u64) -> u64 {
    reverse_row(slide_row(reverse_row(row)))
}

/// Points for a tile of exponent `l`: the merges that built it, counted
/// as `(l - 1) * 2^(l + 1)`.
pub open spec fn cell_score(l: u64) -> nat {
    if l > 1 {
        ((l - 1) as nat) * pow2((l + 1) as nat)
    } else {
        0
    }
}

/// The points of the tiles in a row.
pub open spec fn row_score(row: u64) -> nat {
    let c = row_cells(row);
    cell_score(c[0]) + cell_score(c[1]) + cell_score(c[2]) + cell_score(c[3])
}

proof fn lemma_tiles_skip_zeros(s: Seq<u64>, i: int, j: int)
    requires
        0 <= i <= j <= s.len(),
        forall|k: int| i <= k < j ==> s[k] == 0,
    ensures
        tiles(s.subrange(i, s.len() as int)) == tiles(s.subrange(j, s.len() as int)),
    decreases j - i,
{
    if i < j {
        let t = s.subrange(i, s.len() as int);
        assert(t.drop_first() =~= s.subrange(i + 1, s.len() as int));
        lemma_tiles_skip_zeros(s, i + 1, j);
    }
}

proof fn lemma_tiles_skip_tile(s: Seq<u64>, i: int)
    requires
        0 <= i < s.len(),
        s[i] != 0,
    ensures
        tiles(s.subrange(i, s.len() as int)) == seq![s[i]] + tiles(s.subrange(i + 1, s.len() as int)),
{
    let t = s.subrange(i, s.len() as int);
    assert(t.drop_first() =~= s.subrange(i + 1, s.len() as int));
}

proof fn lemma_merged_short(s: Seq<u64>)
    requires
        s.len() < 2,
    ensures
        merged(s) == s,
{
}

pub(crate) proof fn lemma_tiles_bounded(s: Seq<u64>)
    requires
        forall|k: int| 0 <= k < s.len() ==> s[k] <= 15,
    ensures
        forall|k: int| 0 <= k < tiles(s).len() ==> tiles(s)[k] <= 15,
        tiles(s).len() <= s.len(),
    decreases s.len(),
{
    if s.len() > 0 {
        lemma_tiles_bounded(s.drop_first());
    }
}

pub(crate) proof fn lemma_merged_bounded(s: Seq<u64>)
    requires
        forall|k: int| 0 <= k < s.len() ==> s[k] <= 15,
    ensures
        forall|k: int| 0 <= k < merged(s).len() ==> merged(s)[k] <= 15,
        merged(s).len() <= s.len(),
    decreases s.len(),
{
    if s.len() >= 2 {
        if s[0] == s[1] {
            lemma_merged_bounded(s.subrange(2, s.len() as int));
        } else {
            lemma_merged_bounded(s.drop_first());
        }
    }
}

/// Every cell of a row holds at most 15.
pub proof fn lemma_row_cells_bounded(row: u64)
    ensures
        forall|k: int| 0 <= k < 4 ==> row_cells(row)[k] <= 15,
{
    assert(row & 0xF <= 15 && (row >> 4u64) & 0xF <= 15 && (row >> 8u64) & 0xF <= 15 && (row
        >> 12u64) & 0xF <= 15) by (bit_vector);
}

/// A slid row, either way, is again a 16-bit row.
pub proof fn lemma_slide_row_bounded(row: u64)
    ensures
        slide_row(row) < 0x10000,
        slide_row_high(row) < 0x10000,
        forall|k: int| 0 <= k < 4 ==> slid_cells(row)[k] <= 15,
{
    lemma_row_cells_bounded(row);
    lemma_tiles_bounded(row_cells(row));
    lemma_merged_bounded(tiles(row_cells(row)));
    let c = slid_cells(row);
    let (l0, l1, l2, l3) = (c[0], c[1], c[2], c[3]);
    assert(l0 <= 15 && l1 <= 15 && l2 <= 15 && l3 <= 15 ==> (l0 | (l1 << 4u64) | (l2 << 8u64) | (
    l3 << 12u64)) < 0x10000) by (bit_vector);
    let x = slide_row(reverse_row(row));
    assert(reverse_row(x) < 0x10000) by (bit_vector);
}

/// Reversing a 16-bit row twice gives it back.
pub proof fn lemma_reverse_row_involution(row: u64)
    requires
        row < 0x10000,
    ensures
        reverse_row(reverse_row(row)) == row,
        reverse_row(row) < 0x10000,
{
    assert(row < 0x10000 ==> reverse_row(reverse_row(row)) == row && reverse_row(row) < 0x10000)
        by (bit_vector);
}

/// A row's points stay below `4 * 14 * 2^16`.
pub proof fn lemma_row_score_bounded(row: u64)
    ensures
        row_score(row) <= 4 * 14 * 0x10000,
{
    lemma_row_cells_bounded(row);
    let c = row_cells(row);
    lemma_cell_score_value(c[0]);
    lemma_cell_score_value(c[1]);
    lemma_cell_score_value(c[2]);
    lemma_cell_score_value(c[3]);
}

/// Each tile of the merged run `s` is a tile of `s`, or one more (held at
/// 15) than two equal neighbours of `s`.
pub proof fn lemma_merged_source(s: Seq<u64>, k: int)
    requires
        0 <= k < merged(s).len(),
    ensures
        exists|i: int|
            0 <= i < s.len() && (merged(s)[k] == #[trigger] s[i] || (i + 1 < s.len() && s[i] == s[i
                + 1] && merged(s)[k] == bump(s[i]))),
    decreases s.len(),
{
    if s.len() < 2 {
        assert(merged(s)[k] == s[k]);
    } else if s[0] == s[1] {
        let t = s.subrange(2, s.len() as int);
        if k == 0 {
            assert(merged(s)[0] == bump(s[0]));
            assert(s[0] == s[0int + 1]);
        } else {
            lemma_merged_source(t, k - 1);
            let i = choose|i: int|
                0 <= i < t.len() && (merged(t)[k - 1] == #[trigger] t[i] || (i + 1 < t.len() && t[i]
                    == t[i + 1] && merged(t)[k - 1] == bump(t[i])));
            assert(s[i + 2] == t[i]);
            assert(i + 1 < t.len() ==> s[i + 3] == t[i + 1]);
        }
    } else {
        let t = s.drop_first();
        if k == 0 {
            assert(merged(s)[0] == s[0]);
        } else {
            lemma_merged_source(t, k - 1);
            let i = choose|i: int|
                0 <= i < t.len() && (merged(t)[k - 1] == #[trigger] t[i] || (i + 1 < t.len() && t[i]
                    == t[i + 1] && merged(t)[k - 1] == bump(t[i])));
            assert(s[i + 1] == t[i]);
            assert(i + 1 < t.len() ==> s[i + 2] == t[i + 1]);
        }
    }
}

/// Each tile of `tiles(s)` stands in `s`.
pub proof fn lemma_tiles_source(s: Seq<u64>, i: int)
    requires
        0 <= i < tiles(s).len(),
    ensures
        exists|j: int| 0 <= j < s.len() && #[trigger] s[j] == tiles(s)[i],
    decreases s.len(),
{
    let t = s.drop_first();
    if s[0] == 0 {
        lemma_tiles_source(t, i);
        let j = choose|j: int| 0 <= j < t.len() && #[trigger] t[j] == tiles(t)[i];
        assert(s[j + 1] == t[j]);
    } else if i == 0 {
        assert(s[0] == tiles(s)[0]);
    } else {
        lemma_tiles_source(t, i - 1);
        let j = choose|j: int| 0 <= j < t.len() && #[trigger] t[j] == tiles(t)[i - 1];
        assert(s[j + 1] == t[j]);
    }
}

/// Two tiles of `tiles(s)`, in order, stand in `s` in the same order.
pub proof fn lemma_tiles_source_pair(s: Seq<u64>, i1: int, i2: int)
    requires
        0 <= i1 < i2 < tiles(s).len(),
    ensures
        exists|j1: int, j2: int|
            0 <= j1 < j2 < s.len() && #[trigger] s[j1] == tiles(s)[i1] && #[trigger] s[j2] == tiles(
                s,
            )[i2],
    decreases s.len(),
{
    let t = s.drop_first();
    if s[0] == 0 {
        lemma_tiles_source_pair(t, i1, i2);
        let (j1, j2) = choose|j1: int, j2: int|
            0 <= j1 < j2 < t.len() && #[trigger] t[j1] == tiles(t)[i1] && #[trigger] t[j2] == tiles(
                t,
            )[i2];
        assert(s[j1 + 1] == t[j1] && s[j2 + 1] == t[j2]);
    } else if i1 == 0 {
        lemma_tiles_source(t, i2 - 1);
        let j = choose|j: int| 0 <= j < t.len() && #[trigger] t[j] == tiles(t)[i2 - 1];
        assert(s[0] == tiles(s)[0]);
        assert(s[j + 1] == t[j]);
    } else {
        lemma_tiles_source_pair(t, i1 - 1, i2 - 1);
        let (j1, j2) = choose|j1: int, j2: int|
            0 <= j1 < j2 < t.len() && #[trigger] t[j1] == tiles(t)[i1 - 1] && #[trigger] t[j2]
                == tiles(t)[i2 - 1];
        assert(s[j1 + 1] == t[j1] && s[j2 + 1] == t[j2]);
    }
}

/// A tile of a slid row is a tile of the row, or one more (held at 15)
/// than two equal tiles of the row.
pub proof fn lemma_slid_source(x: u64, k: int)
    requires
        0 <= k < 4,
        slid_cells(x)[k] != 0,
    ensures
        (exists|j: int| 0 <= j < 4 && #[trigger] row_cells(x)[j] == slid_cells(x)[k]) || (exists|
            j1: int,
            j2: int,
        |
            0 <= j1 < j2 < 4 && #[trigger] row_cells(x)[j1] == #[trigger] row_cells(x)[j2] && bump(
                row_cells(x)[j1],
            ) == slid_cells(x)[k]),
{
    let c = row_cells(x);
    let t = tiles(c);
    let m = merged(t);
    lemma_row_cells_bounded(x);
    lemma_tiles_bounded(c);
    assert(k < m.len());
    lemma_merged_source(t, k);
    let i = choose|i: int|
        0 <= i < t.len() && (m[k] == #[trigger] t[i] || (i + 1 < t.len() && t[i] == t[i + 1] && m[k]
            == bump(t[i])));
    if m[k] == t[i] {
        lemma_tiles_source(c, i);
    } else {
        lemma_tiles_source_pair(c, i, i + 1);
    }
}

/// The points of the cells of `s`.
pub open spec fn seq_score(s: Seq<u64>) -> nat
    decreases s.len(),
{
    if s.len() == 0 {
        0
    } else {
        cell_score(s[0]) + seq_score(s.drop_first())
    }
}

/// Whether merging the run `s` puts together two tiles that are already at
/// 15, which makes one tile of 15 out of two.
pub open spec fn merges_at_cap(s: Seq<u64>) -> bool
    decreases s.len(),
{
    if s.len() < 2 {
        false
    } else if s[0] == s[1] {
        s[0] >= 15 || merges_at_cap(s.subrange(2, s.len() as int))
    } else {
        merges_at_cap(s.drop_first())
    }
}

pub(crate) proof fn lemma_tiles_score(s: Seq<u64>)
    ensures
        seq_score(tiles(s)) == seq_score(s),
    decreases s.len(),
{
    if s.len() > 0 {
        lemma_tiles_score(s.drop_first());
        if s[0] != 0 {
            assert((seq![s[0]] + tiles(s.drop_first())).drop_first() =~= tiles(s.drop_first()));
        }
    }
}

/// A merge of two tiles below 15 is worth at least the two tiles.
proof fn lemma_bump_score(a: u64)
    requires
        a < 15,
    ensures
        cell_score(bump(a)) >= 2 * cell_score(a),
{
    if a > 1 {
        lemma_pow2_unfold((a + 2) as nat);
        let p = pow2((a + 1) as nat);
        assert(a * (2 * p) >= 2 * ((a - 1) as nat * p)) by (nonlinear_arith)
            requires
                a > 1,
        ;
    }
}

proof fn lemma_merged_score(s: Seq<u64>)
    requires
        !merges_at_cap(s),
    ensures
        seq_score(merged(s)) >= seq_score(s),
    decreases s.len(),
{
    if s.len() >= 2 {
        if s[0] == s[1] {
            let t = s.subrange(2, s.len() as int);
            lemma_merged_score(t);
            lemma_bump_score(s[0]);
            assert(s.drop_first().drop_first() =~= t);
            assert(seq_score(s) == cell_score(s[0]) + seq_score(s.drop_first()));
            assert(seq_score(s.drop_first()) == cell_score(s[1]) + seq_score(t));
            let m = seq![bump(s[0])] + merged(t);
            assert(m.drop_first() =~= merged(t));
            assert(seq_score(m) == cell_score(bump(s[0])) + seq_score(merged(t)));
        } else {
            lemma_merged_score(s.drop_first());
            let m = seq![s[0]] + merged(s.drop_first());
            assert(m.drop_first() =~= merged(s.drop_first()));
            assert(seq_score(m) == cell_score(s[0]) + seq_score(merged(s.drop_first())));
        }
    }
}

pub proof fn lemma_pad_score(m: Seq<u64>)
    requires
        m.len() <= 4,
    ensures
        seq_score(pad4(m)) == seq_score(m),
    decreases 4 - m.len(),
{
    let p = pad4(m);
    if m.len() < 4 {
        let m2 = m.push(0);
        assert(pad4(m2) =~= p);
        lemma_pad_score(m2);
        lemma_push_zero_score(m);
    } else {
        assert(p =~= m);
    }
}

proof fn lemma_push_zero_score(m: Seq<u64>)
    ensures
        seq_score(m.push(0)) == seq_score(m),
    decreases m.len(),
{
    if m.len() > 0 {
        lemma_push_zero_score(m.drop_first());
        assert(m.push(0).drop_first() =~= m.drop_first().push(0));
    } else {
        assert(m.push(0).drop_first() =~= m);
    }
}

/// A row's points are the points of its four cells.
pub proof fn lemma_row_score_cells(x: u64)
    ensures
        row_score(x) == seq_score(row_cells(x)),
{
    let c = row_cells(x);
    assert(c.drop_first().drop_first().drop_first().drop_first().len() == 0);
    reveal_with_fuel(seq_score, 5);
}

/// Sliding a row toward its low end, with no merge of two tiles at 15,
/// does not lower its points.
pub proof fn lemma_slid_score(x: u64)
    requires
        !merges_at_cap(tiles(row_cells(x))),
    ensures
        seq_score(slid_cells(x)) >= row_score(x),
{
    let c = row_cells(x);
    lemma_row_cells_bounded(x);
    lemma_tiles_bounded(c);
    lemma_merged_bounded(tiles(c));
    lemma_row_score_cells(x);
    lemma_tiles_score(c);
    lemma_merged_score(tiles(c));
    lemma_pad_score(merged(tiles(c)));
}

proof fn lemma_tiles_full(s: Seq<u64>)
    requires
        forall|k: int| 0 <= k < s.len() ==> s[k] <= 15,
        tiles(s).len() == s.len(),
    ensures
        tiles(s) == s,
    decreases s.len(),
{
    if s.len() > 0 {
        lemma_tiles_bounded(s.drop_first());
        lemma_tiles_full(s.drop_first());
        assert(tiles(s) =~= s);
    }
}

proof fn lemma_merged_full(s: Seq<u64>)
    requires
        forall|k: int| 0 <= k < s.len() ==> s[k] <= 15,
        merged(s).len() == s.len(),
    ensures
        merged(s) == s,
    decreases s.len(),
{
    if s.len() >= 2 {
        if s[0] == s[1] {
            lemma_merged_bounded(s.subrange(2, s.len() as int));
        } else {
            lemma_merged_bounded(s.drop_first());
            lemma_merged_full(s.drop_first());
            assert(merged(s) =~= s);
        }
    }
}

/// A 16-bit row that sliding changes ends, after the slide, in an empty
/// cell.
pub proof fn lemma_changed_slide_frees_a_cell(x: u64)
    requires
        x < 0x10000,
        slide_row(x) != x,
    ensures
        slid_cells(x)[3] == 0,
{
    let c = row_cells(x);
    lemma_row_cells_bounded(x);
    lemma_tiles_bounded(c);
    lemma_merged_bounded(tiles(c));
    let m = merged(tiles(c));
    if m.len() == 4 {
        lemma_tiles_full(c);
        lemma_merged_full(c);
        assert(pad4(c) =~= c);
        assert(x < 0x10000 ==> (x & 0xF) | (((x >> 4u64) & 0xF) << 4u64) | (((x >> 8u64) & 0xF)
            << 8u64) | (((x >> 12u64) & 0xF) << 12u64) == x) by (bit_vector);
    }
}

/// The exponents of the pairs of equal tiles that merging the run `s`
/// puts together, in order.
pub open spec fn merge_pairs(s: Seq<u64>) -> Seq<u64>
    decreases s.len(),
{
    if s.len() < 2 {
        Seq::empty()
    } else if s[0] == s[1] {
        seq![s[0]] + merge_pairs(s.subrange(2, s.len() as int))
    } else {
        merge_pairs(s.drop_first())
    }
}

/// The tiles of the run `s` that merging leaves as they are, in order.
pub open spec fn merge_kept(s: Seq<u64>) -> Seq<u64>
    decreases s.len(),
{
    if s.len() < 2 {
        s
    } else if s[0] == s[1] {
        merge_kept(s.subrange(2, s.len() as int))
    } else {
        seq![s[0]] + merge_kept(s.drop_first())
    }
}

/// The tiles that the merged pairs become.
pub open spec fn bumped(ps: Seq<u64>) -> Seq<u64> {
    ps.map_values(|p: u64| bump(p))
}

/// The sum of `2^v` over the cells `v` of `s`: the value of the tiles.
pub open spec fn seq_mass(s: Seq<u64>) -> nat
    decreases s.len(),
{
    if s.len() == 0 {
        0
    } else {
        pow2(s[0] as nat) + seq_mass(s.drop_first())
    }
}

/// The points that the merged pairs add: `2^(p + 2)` for a pair of `p`.
pub open spec fn pairs_gain(ps: Seq<u64>) -> nat
    decreases ps.len(),
{
    if ps.len() == 0 {
        0
    } else {
        pow2((ps[0] + 2) as nat) + pairs_gain(ps.drop_first())
    }
}

proof fn lemma_cons_multiset(x: u64, t: Seq<u64>)
    ensures
        (seq![x] + t).to_multiset() =~= t.to_multiset().insert(x),
{
    broadcast use group_to_multiset_ensures;
    broadcast use vstd::multiset::group_multiset_axioms;

    lemma_multiset_commutative(seq![x], t);
    assert(seq![x] =~= Seq::<u64>::empty().push(x));
    assert(Seq::<u64>::empty().to_multiset() =~= vstd::multiset::Multiset::empty()) by {
        assert(Seq::<u64>::empty().to_multiset().len() == 0);
    }
}

/// Merging a run keeps some of its tiles and turns each merged pair into
/// one tile one higher (held at 15); it loses one tile per pair.
pub proof fn lemma_merge_parts(s: Seq<u64>)
    ensures
        s.to_multiset() =~= merge_kept(s).to_multiset().add(merge_pairs(s).to_multiset()).add(
            merge_pairs(s).to_multiset(),
        ),
        merged(s).to_multiset() =~= merge_kept(s).to_multiset().add(
            bumped(merge_pairs(s)).to_multiset(),
        ),
        merged(s).len() + merge_pairs(s).len() == s.len(),
    decreases s.len(),
{
    broadcast use group_to_multiset_ensures;
    broadcast use vstd::multiset::group_multiset_axioms;

    if s.len() < 2 {
        assert(merge_pairs(s).to_multiset() =~= vstd::multiset::Multiset::empty()) by {
            assert(merge_pairs(s).to_multiset().len() == 0);
        }
        assert(bumped(merge_pairs(s)) =~= Seq::<u64>::empty());
        assert(bumped(merge_pairs(s)).to_multiset() =~= vstd::multiset::Multiset::empty()) by {
            assert(bumped(merge_pairs(s)).to_multiset().len() == 0);
        }
    } else if s[0] == s[1] {
        let a = s[0];
        let t = s.subrange(2, s.len() as int);
        lemma_merge_parts(t);
        assert(s =~= seq![a] + (seq![a] + t));
        lemma_cons_multiset(a, t);
        lemma_cons_multiset(a, seq![a] + t);
        lemma_cons_multiset(a, merge_pairs(t));
        assert(bumped(merge_pairs(s)) =~= seq![bump(a)] + bumped(merge_pairs(t)));
        lemma_cons_multiset(bump(a), bumped(merge_pairs(t)));
        lemma_cons_multiset(bump(a), merged(t));
    } else {
        let a = s[0];
        let t = s.drop_first();
        lemma_merge_parts(t);
        assert(s =~= seq![a] + t);
        lemma_cons_multiset(a, t);
        lemma_cons_multiset(a, merge_kept(t));
        lemma_cons_multiset(a, merged(t));
    }
}

/// Below 15, merging a run keeps the value of its tiles.
pub proof fn lemma_merge_keeps_mass(s: Seq<u64>)
    requires
        forall|k: int| 0 <= k < s.len() ==> s[k] < 15,
    ensures
        seq_mass(merged(s)) == seq_mass(s),
    decreases s.len(),
{
    if s.len() >= 2 {
        let m = merged(s);
        if s[0] == s[1] {
            let t = s.subrange(2, s.len() as int);
            lemma_merge_keeps_mass(t);
            lemma_pow2_unfold((s[0] + 1) as nat);
            assert(s.drop_first().drop_first() =~= t);
            assert(m.drop_first() =~= merged(t));
            assert(bump(s[0]) == s[0] + 1);
            assert(seq_mass(s) == pow2(s[0] as nat) + seq_mass(s.drop_first()));
            assert(seq_mass(s.drop_first()) == pow2(s[1] as nat) + seq_mass(t));
            assert(seq_mass(m) == pow2(bump(s[0]) as nat) + seq_mass(merged(t)));
        } else {
            lemma_merge_keeps_mass(s.drop_first());
            assert(m.drop_first() =~= merged(s.drop_first()));
            assert(seq_mass(m) == pow2(s[0] as nat) + seq_mass(merged(s.drop_first())));
        }
    }
}

/// A merge of two tiles of `a`, for `1 <= a < 15`, is worth the two tiles
/// and `2^(a + 2)` more.
proof fn lemma_bump_gain(a: u64)
    requires
        1 <= a < 15,
    ensures
        cell_score(bump(a)) == 2 * cell_score(a) + pow2((a + 2) as nat),
{
    lemma2_to64();
    assert(bump(a) == a + 1);
    lemma_pow2_unfold((a + 2) as nat);
    let p = pow2((a + 1) as nat);
    assert(cell_score(bump(a)) == a * pow2((a + 2) as nat));
    if a > 1 {
        assert(cell_score(a) == (a - 1) as nat * p);
        assert(a * (2 * p) == 2 * ((a - 1) as nat * p) + 2 * p) by (nonlinear_arith)
            requires
                a > 1,
        ;
        assert(pow2((a + 2) as nat) == 2 * p);
    } else {
        assert(cell_score(a) == 0);
        assert(a * pow2((a + 2) as nat) == pow2((a + 2) as nat)) by (nonlinear_arith)
            requires
                a == 1,
        ;
    }
}

/// Merging a run of tiles from 1 to 14 adds to its points exactly what
/// its merged pairs gain.
pub proof fn lemma_merge_gain(s: Seq<u64>)
    requires
        forall|k: int| 0 <= k < s.len() ==> 1 <= #[trigger] s[k] < 15,
    ensures
        seq_score(merged(s)) == seq_score(s) + pairs_gain(merge_pairs(s)),
        merge_pairs(s).len() == 0 <==> pairs_gain(merge_pairs(s)) == 0,
    decreases s.len(),
{
    if s.len() < 2 {
        assert(merge_pairs(s).len() == 0);
    } else if s[0] == s[1] {
        let t = s.subrange(2, s.len() as int);
        lemma_merge_gain(t);
        lemma_bump_gain(s[0]);
        vstd::arithmetic::power2::lemma_pow2_pos((s[0] + 2) as nat);
        assert(s.drop_first().drop_first() =~= t);
        assert(seq_score(s) == cell_score(s[0]) + seq_score(s.drop_first()));
        assert(seq_score(s.drop_first()) == cell_score(s[1]) + seq_score(t));
        let m = seq![bump(s[0])] + merged(t);
        assert(m.drop_first() =~= merged(t));
        let ps = seq![s[0]] + merge_pairs(t);
        assert(ps.drop_first() =~= merge_pairs(t));
    } else {
        let t = s.drop_first();
        lemma_merge_gain(t);
        let m = seq![s[0]] + merged(t);
        assert(m.drop_first() =~= merged(t));
    }
}

/// The tiles of a run are nonzero, and so are the tiles merging makes.
pub proof fn lemma_tiles_nonzero(s: Seq<u64>)
    ensures
        forall|k: int| 0 <= k < tiles(s).len() ==> #[trigger] tiles(s)[k] != 0,
        forall|k: int| 0 <= k < merged(tiles(s)).len() ==> #[trigger] merged(tiles(s))[k] != 0,
{
    lemma_tiles_nonzero_run(s);
    lemma_merged_nonzero(tiles(s));
}

proof fn lemma_tiles_nonzero_run(s: Seq<u64>)
    ensures
        forall|k: int| 0 <= k < tiles(s).len() ==> #[trigger] tiles(s)[k] != 0,
    decreases s.len(),
{
    if s.len() > 0 {
        let t = s.drop_first();
        lemma_tiles_nonzero_run(t);
        if s[0] != 0 {
            assert forall|k: int| 0 <= k < tiles(s).len() implies #[trigger] tiles(s)[k] != 0 by {
                if k > 0 {
                    assert(tiles(s)[k] == tiles(t)[k - 1]);
                }
            }
        }
    }
}

proof fn lemma_merged_nonzero(s: Seq<u64>)
    requires
        forall|k: int| 0 <= k < s.len() ==> #[trigger] s[k] != 0,
    ensures
        forall|k: int| 0 <= k < merged(s).len() ==> #[trigger] merged(s)[k] != 0,
    decreases s.len(),
{
    if s.len() >= 2 {
        let t = if s[0] == s[1] {
            s.subrange(2, s.len() as int)
        } else {
            s.drop_first()
        };
        assert forall|k: int| 0 <= k < t.len() implies #[trigger] t[k] != 0 by {
            if s[0] == s[1] {
                assert(t[k] == s[k + 2]);
            } else {
                assert(t[k] == s[k + 1]);
            }
        }
        lemma_merged_nonzero(t);
        assert forall|k: int| 0 <= k < merged(s).len() implies #[trigger] merged(s)[k] != 0 by {
            if k > 0 {
                assert(merged(s)[k] == merged(t)[k - 1]);
            }
        }
    }
}

/// The tiles of a padded run of tiles are the run.
pub proof fn lemma_tiles_of_pad(m: Seq<u64>)
    requires
        m.len() <= 4,
        forall|k: int| 0 <= k < m.len() ==> #[trigger] m[k] != 0,
    ensures
        tiles(pad4(m)) == m,
{
    let p = pad4(m);
    lemma_tiles_of_pad_from(m, 0);
    assert(p.subrange(0, 4) =~= p);
    assert(m.subrange(0, m.len() as int) =~= m);
}

proof fn lemma_tiles_of_pad_from(m: Seq<u64>, i: int)
    requires
        m.len() <= 4,
        0 <= i <= m.len(),
        forall|k: int| 0 <= k < m.len() ==> #[trigger] m[k] != 0,
    ensures
        tiles(pad4(m).subrange(i, 4)) == m.subrange(i, m.len() as int),
    decreases m.len() - i,
{
    let p = pad4(m);
    if i == m.len() {
        lemma_tiles_skip_zeros(p, i, 4);
        assert(p.subrange(4, 4).len() == 0);
        assert(m.subrange(i, m.len() as int).len() == 0);
    } else {
        lemma_tiles_of_pad_from(m, i + 1);
        lemma_tiles_skip_tile(p, i);
        assert(m.subrange(i, m.len() as int) =~= seq![m[i]] + m.subrange(i + 1, m.len() as int));
    }
}

/// A bound on the cells of `s` holds of its tiles.
pub proof fn lemma_tiles_below(s: Seq<u64>, bound: u64)
    requires
        forall|k: int| 0 <= k < s.len() ==> #[trigger] s[k] < bound,
    ensures
        forall|k: int| 0 <= k < tiles(s).len() ==> #[trigger] tiles(s)[k] < bound,
    decreases s.len(),
{
    if s.len() > 0 {
        let t = s.drop_first();
        assert forall|k: int| 0 <= k < t.len() implies #[trigger] t[k] < bound by {
            assert(t[k] == s[k + 1]);
        }
        lemma_tiles_below(t, bound);
        if s[0] != 0 {
            assert forall|k: int| 0 <= k < tiles(s).len() implies #[trigger] tiles(s)[k] < bound by {
                if k > 0 {
                    assert(tiles(s)[k] == tiles(t)[k - 1]);
                }
            }
        }
    }
}

proof fn lemma_cell_score_value(l: u64)
    requires
        l <= 15,
    ensures
        l > 1 ==> (l - 1) * (2u64 << l) == cell_score(l),
        cell_score(l) <= 14 * 0x10000,
{
    lemma2_to64();
    if l > 1 {
        lemma_u64_shl_is_mul(2, l);
        vstd::arithmetic::power2::lemma_pow2_strictly_increases((l + 1) as nat, 17);
        assert(((l - 1) as nat) * pow2((l + 1) as nat) <= 14 * 0x10000) by (nonlinear_arith)
            requires
                1 < l <= 15,
                pow2((l + 1) as nat) <= 0x10000,
        ;
    }
}

/// Slides and merges the four cells of `row` toward the low end, and
/// returns the result packed as a row.
pub fn slide_low(row: u64) -> (r: u64)
    requires
        row < 0x10000,
    ensures
        r == slide_row(row),
        r < 0x10000,
{
    let mut line: Vec<u64> = vec![row & 0xF, (row >> 4) & 0xF, (row >> 8) & 0xF, (row >> 12) & 0xF];
    let ghost start = line@;
    assert(start =~= row_cells(row));
    proof {
        assert(row & 0xF <= 15 && (row >> 4u64) & 0xF <= 15 && (row >> 8u64) & 0xF <= 15 && (row
            >> 12u64) & 0xF <= 15) by (bit_vector);
        assert(start.subrange(0, 4) =~= start);
    }
    let mut i: usize = 0;
    while i < 3
        invariant_except_break
            i <= 3,
        invariant
            line@.len() == 4,
            forall|k: int| 0 <= k < 4 ==> line@[k] <= 15,
            forall|k: int| 0 <= k < i ==> line@[k] != 0,
            pad4(merged(tiles(start))) == pad4(
                line@.subrange(0, i as int) + merged(tiles(line@.subrange(i as int, 4))),
            ),
        ensures
            line@.len() == 4,
            i <= 3,
            pad4(merged(tiles(start))) == pad4(
                line@.subrange(0, i as int) + merged(tiles(line@.subrange(i as int, 4))),
            ),
            i < 3 ==> line@ == pad4(merged(tiles(start))),
        decreases 2 * (3 - i) + if line@[i as int] == 0 { 1int } else { 0 },
    {
        let mut j: usize = i + 1;
        while j < 4 && line[j] == 0
            invariant
                i < j <= 4,
                line@.len() == 4,
                forall|k: int| i < k < j ==> line@[k] == 0,
            decreases 4 - j,
        {
            j += 1;
        }
        let ghost cur = line@;
        if j == 4 {
            proof {
                lemma_tiles_skip_zeros(cur, i as int + 1, 4);
                assert(cur.subrange(4, 4).len() == 0);
                if cur[i as int] == 0 {
                    lemma_tiles_skip_zeros(cur, i as int, 4);
                    assert(cur.subrange(0, i as int) + merged(tiles(cur.subrange(i as int, 4)))
                        =~= cur.subrange(0, i as int));
                } else {
                    lemma_tiles_skip_tile(cur, i as int);
                    assert(cur.subrange(0, i as int) + merged(tiles(cur.subrange(i as int, 4)))
                        =~= cur.subrange(0, i as int + 1));
                }
                assert(pad4(cur.subrange(0, i as int) + merged(tiles(cur.subrange(i as int, 4))))
                    =~= cur);
            }
            break;
        }
        let a = line[i];
        let b = line[j];
        proof {
            lemma_tiles_skip_zeros(cur, i as int + 1, j as int);
            lemma_tiles_skip_tile(cur, j as int);
        }
        if a == 0 {
            line.set(i, b);
            line.set(j, 0);
            proof {
                let nxt = line@;
                lemma_tiles_skip_zeros(cur, i as int, j as int);
                lemma_tiles_skip_tile(nxt, i as int);
                lemma_tiles_skip_zeros(nxt, i as int + 1, j as int + 1);
                assert(nxt.subrange(j as int + 1, 4) =~= cur.subrange(j as int + 1, 4));
                assert(nxt.subrange(0, i as int) =~= cur.subrange(0, i as int));
            }
        } else {
            proof {
                lemma_tiles_skip_tile(cur, i as int);
            }
            if a == b {
                let m: u64 = if a != 0xF { a + 1 } else { a };
                line.set(i, m);
                line.set(j, 0);
                proof {
                    let nxt = line@;
                    let rest = tiles(cur.subrange(j as int + 1, 4));
                    let both = seq![a] + (seq![b] + rest);
                    assert(both.subrange(2, both.len() as int) =~= rest);
                    lemma_tiles_skip_zeros(nxt, i as int + 1, j as int + 1);
                    assert(nxt.subrange(j as int + 1, 4) =~= cur.subrange(j as int + 1, 4));
                    assert(nxt.subrange(0, i as int + 1) =~= cur.subrange(0, i as int) + seq![m]);
                    assert(cur.subrange(0, i as int) + (seq![m] + merged(rest)) =~= cur.subrange(
                        0,
                        i as int,
                    ) + seq![m] + merged(rest));
                }
            } else {
                proof {
                    let rest = tiles(cur.subrange(j as int + 1, 4));
                    let both = seq![a] + (seq![b] + rest);
                    assert(both.drop_first() =~= seq![b] + rest);
                    assert(cur.subrange(0, i as int + 1) =~= cur.subrange(0, i as int) + seq![a]);
                    assert(cur.subrange(0, i as int) + (seq![a] + merged(seq![b] + rest))
                        =~= cur.subrange(0, i as int) + seq![a] + merged(seq![b] + rest));
                }
            }
            i += 1;
        }
    }
    proof {
        if i == 3 {
            let cur = line@;
            let last = cur.subrange(3, 4);
            assert(tiles(last.drop_first()) =~= Seq::<u64>::empty());
            if last[0] == 0 {
                assert(tiles(last) =~= Seq::<u64>::empty());
            } else {
                assert(tiles(last) =~= last);
            }
            lemma_merged_short(tiles(last));
            assert(pad4(cur.subrange(0, 3) + tiles(last)) =~= cur);
        }
    }
    let result = line[0] | (line[1] << 4) | (line[2] << 8) | (line[3] << 12);
    proof {
        let (l0, l1, l2, l3) = (line@[0], line@[1], line@[2], line@[3]);
        assert(l0 <= 15 && l1 <= 15 && l2 <= 15 && l3 <= 15 ==> (l0 | (l1 << 4u64) | (l2 << 8u64)
            | (l3 << 12u64)) < 0x10000) by (bit_vector);
    }
    result
}

/// The points of the tiles in `row`.
pub fn score_of_row(row: u64) -> (r: u64)
    requires
        row < 0x10000,
    ensures
        r == row_score(row),
        r <= 4 * 14 * 0x10000,
{
    let cells: [u64; 4] = [row & 0xF, (row >> 4) & 0xF, (row >> 8) & 0xF, (row >> 12) & 0xF];
    proof {
        assert(row & 0xF <= 15 && (row >> 4u64) & 0xF <= 15 && (row >> 8u64) & 0xF <= 15 && (row
            >> 12u64) & 0xF <= 15) by (bit_vector);
        assert(cells@ =~= row_cells(row));
    }
    let mut s: u64 = 0;
    let mut k: usize = 0;
    while k < 4
        invariant
            k <= 4,
            cells@ == row_cells(row),
            forall|n: int| 0 <= n < 4 ==> cells@[n] <= 15,
            s == if k == 0 {
                0
            } else if k == 1 {
                cell_score(cells@[0])
            } else if k == 2 {
                cell_score(cells@[0]) + cell_score(cells@[1])
            } else if k == 3 {
                cell_score(cells@[0]) + cell_score(cells@[1]) + cell_score(cells@[2])
            } else {
                row_score(row)
            },
            s <= k * 14 * 0x10000,
        decreases 4 - k,
    {
        let l = cells[k];
        proof {
            lemma_cell_score_value(l);
        }
        if l > 1 {
            s += (l - 1) * (2 << l);
        }
        k += 1;
    }
    s
}

} // verus!
