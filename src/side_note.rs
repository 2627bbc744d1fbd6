//! The per-proof side note: how many times each row of each bitwise truth table was used.
//! Bitwise components add to it in their main-trace phase; the multiplicity component
//! reads it.
use crate::bitwise::{nib, nibbles_wf, BitwiseRow, AND_LOOKUP_IDX, OR_LOOKUP_IDX, XOR_LOOKUP_IDX};
use vstd::prelude::*;

verus! {

/// Rows of a truth table: one for each pair of nibbles.
pub const TABLE_SIZE: usize = 256;

/// The table row of nibble `p` of a row: `b`'s nibble times sixteen plus `c`'s.
pub open spec fn pair_index(row: BitwiseRow, p: int) -> int {
    nib(row.b_val, row.b_val_high, p) * 16 + nib(row.c_val, row.c_val_high, p)
}

/// How many of the first `upto` nibbles of a real row use table row `x`.
pub open spec fn row_count(row: BitwiseRow, x: int, upto: int) -> int
    decreases upto,
{
    if upto <= 0 {
        0
    } else {
        row_count(row, x, upto - 1) + if !row.common.is_local_pad && pair_index(row, upto - 1)
            == x {
            1int
        } else {
            0
        }
    }
}

/// How many times the real rows of a trace use table row `x`.
pub open spec fn tally(rows: Seq<BitwiseRow>, x: int) -> int
    decreases rows.len(),
{
    if rows.len() == 0 {
        0
    } else {
        tally(rows.drop_last(), x) + row_count(rows.last(), x, 8)
    }
}

pub proof fn lemma_row_count_bound(row: BitwiseRow, x: int, upto: int)
    requires
        0 <= upto,
    ensures
        0 <= row_count(row, x, upto) <= upto,
    decreases upto,
{
    if upto > 0 {
        lemma_row_count_bound(row, x, upto - 1);
    }
}

pub proof fn lemma_tally_bound(rows: Seq<BitwiseRow>, x: int)
    ensures
        0 <= tally(rows, x) <= 8 * rows.len(),
    decreases rows.len(),
{
    if rows.len() > 0 {
        lemma_tally_bound(rows.drop_last(), x);
        lemma_row_count_bound(rows.last(), x, 8);
    }
}

/// Usage counts of one truth table, indexed by table row.
pub struct BitwiseAccumulator {
    pub accum: Vec<u64>,
}

impl BitwiseAccumulator {
    pub open spec fn wf(&self) -> bool {
        self.accum@.len() == TABLE_SIZE
    }

    /// Every count zero.
    pub fn new() -> (r: BitwiseAccumulator)
        ensures
            r.wf(),
            forall|x: int| 0 <= x < TABLE_SIZE ==> #[trigger] r.accum@[x] == 0,
    {
        let mut accum: Vec<u64> = Vec::new();
        let mut i: usize = 0;
        while i < TABLE_SIZE
            invariant
                0 <= i <= TABLE_SIZE,
                accum@.len() == i,
                forall|x: int| 0 <= x < i ==> #[trigger] accum@[x] == 0,
            decreases TABLE_SIZE - i,
        {
            accum.push(0);
            i = i + 1;
        }
        BitwiseAccumulator { accum }
    }

    /// Counts the nibble pairs of the real rows of a trace.
    pub fn from_rows(rows: &Vec<BitwiseRow>) -> (r: BitwiseAccumulator)
        requires
            rows@.len() <= 0x1_0000_0000,
            forall|i: int| 0 <= i < rows@.len() ==> nibbles_wf(#[trigger] rows@[i]),
        ensures
            r.wf(),
            forall|x: int| 0 <= x < TABLE_SIZE ==> #[trigger] r.accum@[x] == tally(rows@, x),
    {
        let mut acc = BitwiseAccumulator::new();
        let mut i: usize = 0;
        while i < rows.len()
            invariant
                rows@.len() <= 0x1_0000_0000,
                forall|i: int| 0 <= i < rows@.len() ==> nibbles_wf(#[trigger] rows@[i]),
                0 <= i <= rows@.len(),
                acc.wf(),
                forall|x: int|
                    0 <= x < TABLE_SIZE ==> #[trigger] acc.accum@[x] == tally(
                        rows@.take(i as int),
                        x,
                    ),
            decreases rows@.len() - i,
        {
            let row = rows[i];
            assert(nibbles_wf(rows@[i as int]));
            proof {
                assert(rows@.take(i + 1).drop_last() =~= rows@.take(i as int));
                assert forall|x: int| 0 <= x < TABLE_SIZE implies tally(rows@.take(i as int), x)
                    <= 8 * i by {
                    lemma_tally_bound(rows@.take(i as int), x);
                }
            }
            if !row.common.is_local_pad {
                let mut k: usize = 0;
                while k < 4
                    invariant
                        nibbles_wf(row),
                        !row.common.is_local_pad,
                        row == rows@[i as int],
                        i < rows@.len(),
                        rows@.len() <= 0x1_0000_0000,
                        0 <= k <= 4,
                        acc.wf(),
                        forall|x: int|
                            0 <= x < TABLE_SIZE ==> #[trigger] acc.accum@[x] == tally(
                                rows@.take(i as int),
                                x,
                            ) + row_count(row, x, 2 * k as int),
                        forall|x: int|
                            0 <= x < TABLE_SIZE ==> tally(rows@.take(i as int), x) <= 8 * i,
                    decreases 4 - k,
                {
                    let kk: Ghost<int> = Ghost(k as int);
                    assert(row.a_val_high[k as int] == row.a_val[k as int] / 16);
                    let b_lo: u8 = row.b_val[k] - 16 * row.b_val_high[k];
                    let c_lo: u8 = row.c_val[k] - 16 * row.c_val_high[k];
                    let lo: usize = b_lo as usize * 16 + c_lo as usize;
                    let hi: usize = row.b_val_high[k] as usize * 16 + row.c_val_high[k] as usize;
                    proof {
                        assert((2 * kk@) / 2 == kk@ && (2 * kk@) % 2 == 0);
                        assert((2 * kk@ + 1) / 2 == kk@ && (2 * kk@ + 1) % 2 == 1);
                        assert(lo == pair_index(row, 2 * kk@));
                        assert(hi == pair_index(row, 2 * kk@ + 1));
                        lemma_row_count_bound(row, lo as int, 2 * kk@);
                        lemma_row_count_bound(row, hi as int, 2 * kk@ + 1);
                    }
                    let ghost acc0 = acc.accum@;
                    let v: u64 = acc.accum[lo];
                    acc.accum.set(lo, v + 1);
                    proof {
                        lemma_row_count_bound(row, hi as int, 2 * kk@ + 1);
                        lemma_row_count_bound(row, lo as int, 2 * kk@ + 1);
                    }
                    let w: u64 = acc.accum[hi];
                    acc.accum.set(hi, w + 1);
                    proof {
                        assert forall|x: int| 0 <= x < TABLE_SIZE implies #[trigger] acc.accum@[x]
                            == tally(rows@.take(i as int), x) + row_count(row, x, 2 * kk@ + 2) by {
                            assert(row_count(row, x, 2 * kk@ + 2) == row_count(row, x, 2 * kk@ + 1)
                                + if pair_index(row, 2 * kk@ + 1) == x {
                                1int
                            } else {
                                0
                            });
                            assert(row_count(row, x, 2 * kk@ + 1) == row_count(row, x, 2 * kk@)
                                + if pair_index(row, 2 * kk@) == x {
                                1int
                            } else {
                                0
                            });
                            assert(acc0[x] == tally(rows@.take(i as int), x) + row_count(
                                row,
                                x,
                                2 * kk@,
                            ));
                        }
                    }
                    k = k + 1;
                }
            } else {
                proof {
                    assert forall|x: int| 0 <= x < TABLE_SIZE implies row_count(row, x, 8) == 0 by {
                        lemma_row_count_pad(row, x, 8);
                    }
                }
            }
            i = i + 1;
        }
        assert(rows@.take(rows@.len() as int) =~= rows@);
        acc
    }

    /// Adds another table's counts to this one's.
    pub fn merge(&mut self, other: &BitwiseAccumulator)
        requires
            old(self).wf(),
            other.wf(),
            forall|x: int|
                0 <= x < TABLE_SIZE ==> old(self).accum@[x] + other.accum@[x] <= u64::MAX,
        ensures
            final(self).wf(),
            forall|x: int|
                0 <= x < TABLE_SIZE ==> #[trigger] final(self).accum@[x] == old(self).accum@[x]
                    + other.accum@[x],
    {
        let mut i: usize = 0;
        while i < TABLE_SIZE
            invariant
                self.wf(),
                other.wf(),
                0 <= i <= TABLE_SIZE,
                forall|x: int|
                    0 <= x < i ==> #[trigger] self.accum@[x] == old(self).accum@[x]
                        + other.accum@[x],
                forall|x: int| i <= x < TABLE_SIZE ==> #[trigger] self.accum@[x] == old(self).accum@[x],
                forall|x: int|
                    0 <= x < TABLE_SIZE ==> old(self).accum@[x] + other.accum@[x] <= u64::MAX,
            decreases TABLE_SIZE - i,
        {
            let v: u64 = self.accum[i] + other.accum[i];
            self.accum.set(i, v);
            i = i + 1;
        }
    }
}

pub proof fn lemma_row_count_pad(row: BitwiseRow, x: int, upto: int)
    requires
        row.common.is_local_pad,
    ensures
        row_count(row, x, upto) == 0,
    decreases upto,
{
    if upto > 0 {
        lemma_row_count_pad(row, x, upto - 1);
    }
}

/// The usage counts of the three truth tables for one proof.
pub struct SideNote {
    pub bitwise_accum_and: BitwiseAccumulator,
    pub bitwise_accum_or: BitwiseAccumulator,
    pub bitwise_accum_xor: BitwiseAccumulator,
}

impl SideNote {
    pub open spec fn wf(&self) -> bool {
        self.bitwise_accum_and.wf() && self.bitwise_accum_or.wf() && self.bitwise_accum_xor.wf()
    }

    /// The counts of truth table `idx`.
    pub open spec fn counts(&self, idx: u32) -> Seq<u64> {
        if idx == AND_LOOKUP_IDX {
            self.bitwise_accum_and.accum@
        } else if idx == OR_LOOKUP_IDX {
            self.bitwise_accum_or.accum@
        } else {
            self.bitwise_accum_xor.accum@
        }
    }

    /// A side note with every count zero.
    pub fn new() -> (r: SideNote)
        ensures
            r.wf(),
            forall|idx: u32, x: int| 0 <= x < TABLE_SIZE ==> #[trigger] r.counts(idx)[x] == 0,
    {
        SideNote {
            bitwise_accum_and: BitwiseAccumulator::new(),
            bitwise_accum_or: BitwiseAccumulator::new(),
            bitwise_accum_xor: BitwiseAccumulator::new(),
        }
    }

    /// Adds a component's counts to the table `idx`, leaving the other tables as they were.
    pub fn merge(&mut self, idx: u32, local: &BitwiseAccumulator)
        requires
            old(self).wf(),
            local.wf(),
            idx == AND_LOOKUP_IDX || idx == OR_LOOKUP_IDX || idx == XOR_LOOKUP_IDX,
            forall|x: int|
                0 <= x < TABLE_SIZE ==> old(self).counts(idx)[x] + local.accum@[x] <= u64::MAX,
        ensures
            final(self).wf(),
            forall|x: int|
                0 <= x < TABLE_SIZE ==> #[trigger] final(self).counts(idx)[x] == old(self).counts(
                    idx,
                )[x] + local.accum@[x],
            forall|j: u32|
                j != idx && (j == AND_LOOKUP_IDX || j == OR_LOOKUP_IDX || j == XOR_LOOKUP_IDX)
                    ==> #[trigger] final(self).counts(j) == old(self).counts(j),
    {
        if idx == AND_LOOKUP_IDX {
            self.bitwise_accum_and.merge(local);
        } else if idx == OR_LOOKUP_IDX {
            self.bitwise_accum_or.merge(local);
        } else {
            self.bitwise_accum_xor.merge(local);
        }
    }
}

/// Padding rows after the first `n` rows add nothing to the tally.
pub proof fn lemma_tally_pad_suffix(rows: Seq<BitwiseRow>, x: int, n: nat)
    requires
        n <= rows.len(),
        forall|i: int| n <= i < rows.len() ==> (#[trigger] rows[i]).common.is_local_pad,
    ensures
        tally(rows, x) == tally(rows.take(n as int), x),
    decreases rows.len(),
{
    if rows.len() > n {
        let d = rows.drop_last();
        assert forall|i: int| n <= i < d.len() implies (#[trigger] d[i]).common.is_local_pad by {
            assert(d[i] == rows[i]);
        }
        lemma_tally_pad_suffix(d, x, n);
        lemma_row_count_pad(rows.last(), x, 8);
        assert(d.take(n as int) =~= rows.take(n as int));
    } else {
        assert(rows.take(n as int) =~= rows);
    }
}

} // verus!
