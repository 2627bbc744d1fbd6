//! The bitwise multiplicity component: it consumes each row of each truth table as many
//! times as the side note says it was used, which balances the bitwise lookups exactly
//! when every looked-up nibble is the operation's true result.
use crate::bitwise::{
    bitwise_entries, bitwise_op, bitwise_row_entries, nib, nib_key, nibble_entries, nibbles_wf,
    BitwiseRow, AND_LOOKUP_IDX, OR_LOOKUP_IDX, XOR_LOOKUP_IDX,
};
use crate::execution::{execution_entries, ExecutionPolicy};
use crate::logup::{balanced, entry_views, lemma_net_append, net, EntryView, LookupEntry, Relation};
use crate::side_note::{pair_index, row_count, tally, BitwiseAccumulator, SideNote, TABLE_SIZE};
use crate::word::Word;
use vstd::prelude::*;

verus! {

pub struct BitwiseMultiplicity;

/// Row `x` of truth table `idx`: `(idx, x / 16, x % 16, op(x / 16, x % 16))`.
pub open spec fn table_key(idx: u32, x: int) -> Seq<u32> {
    seq![idx, (x / 16) as u32, (x % 16) as u32, bitwise_op(idx, (x / 16) as u8, (x % 16) as u8) as u32]
}

/// Each row of table `idx` consumed `counts[x]` times.
pub open spec fn table_entries(idx: u32, counts: Seq<u64>) -> Seq<EntryView> {
    Seq::new(
        TABLE_SIZE as nat,
        |x: int| (Relation::BitwiseInstr, -(counts[x] as int), table_key(idx, x)),
    )
}

pub open spec fn multiplicity_entries(side_note: SideNote) -> Seq<EntryView> {
    table_entries(AND_LOOKUP_IDX, side_note.counts(AND_LOOKUP_IDX)) + table_entries(
        OR_LOOKUP_IDX,
        side_note.counts(OR_LOOKUP_IDX),
    ) + table_entries(XOR_LOOKUP_IDX, side_note.counts(XOR_LOOKUP_IDX))
}

/// The key is a row of table `idx`.
pub open spec fn is_table_key(idx: u32, key: Seq<u32>) -> bool {
    &&& key.len() == 4
    &&& key[0] == idx
    &&& key[1] < 16
    &&& key[2] < 16
    &&& key[3] == bitwise_op(idx, key[1] as u8, key[2] as u8) as u32
}

pub open spec fn key_index(key: Seq<u32>) -> int {
    key[1] * 16 + key[2]
}

impl BitwiseMultiplicity {
    fn table_lookups(idx: u32, acc: &BitwiseAccumulator) -> (r: Vec<LookupEntry>)
        requires
            acc.wf(),
            forall|x: int| 0 <= x < TABLE_SIZE ==> #[trigger] acc.accum@[x] <= i64::MAX,
        ensures
            entry_views(r@) == table_entries(idx, acc.accum@),
    {
        let mut r: Vec<LookupEntry> = Vec::new();
        let mut x: usize = 0;
        while x < TABLE_SIZE
            invariant
                acc.wf(),
                forall|x: int| 0 <= x < TABLE_SIZE ==> #[trigger] acc.accum@[x] <= i64::MAX,
                0 <= x <= TABLE_SIZE,
                entry_views(r@) == table_entries(idx, acc.accum@).take(x as int),
            decreases TABLE_SIZE - x,
        {
            let b: u8 = (x / 16) as u8;
            let c: u8 = (x % 16) as u8;
            let a: u8 = crate::bitwise::apply_bitwise(idx, b, c);
            let key: Vec<u32> = vec![idx, b as u32, c as u32, a as u32];
            let ghost kv = key@;
            let ghost before = entry_views(r@);
            let count: u64 = acc.accum[x];
            r.push(
                LookupEntry {
                    relation: Relation::BitwiseInstr,
                    multiplicity: -(count as i64),
                    key,
                },
            );
            proof {
                assert(kv =~= table_key(idx, x as int));
                assert(acc.accum@[x as int] == count);
                assert(entry_views(r@) =~= before.push(
                    (Relation::BitwiseInstr, -(count as int), kv),
                ));
                assert(entry_views(r@) =~= table_entries(idx, acc.accum@).take(x + 1));
            }
            x = x + 1;
        }
        assert(table_entries(idx, acc.accum@).take(TABLE_SIZE as int) =~= table_entries(
            idx,
            acc.accum@,
        ));
        r
    }

    /// Consumes every row of the three truth tables, each as often as it was used.
    pub fn generate_interaction_trace(&self, side_note: &SideNote) -> (r: Vec<LookupEntry>)
        requires
            side_note.wf(),
            forall|idx: u32, x: int|
                0 <= x < TABLE_SIZE ==> #[trigger] side_note.counts(idx)[x] <= i64::MAX,
        ensures
            entry_views(r@) == multiplicity_entries(*side_note),
    {
        assert forall|x: int| 0 <= x < TABLE_SIZE implies #[trigger] side_note.bitwise_accum_and.accum@[x] <= i64::MAX by {
            assert(side_note.counts(AND_LOOKUP_IDX)[x] <= i64::MAX);
        }
        assert forall|x: int| 0 <= x < TABLE_SIZE implies #[trigger] side_note.bitwise_accum_or.accum@[x] <= i64::MAX by {
            assert(side_note.counts(OR_LOOKUP_IDX)[x] <= i64::MAX);
        }
        assert forall|x: int| 0 <= x < TABLE_SIZE implies #[trigger] side_note.bitwise_accum_xor.accum@[x] <= i64::MAX by {
            assert(side_note.counts(XOR_LOOKUP_IDX)[x] <= i64::MAX);
        }
        let mut r = Self::table_lookups(AND_LOOKUP_IDX, &side_note.bitwise_accum_and);
        let ghost r1 = entry_views(r@);
        let mut r2 = Self::table_lookups(OR_LOOKUP_IDX, &side_note.bitwise_accum_or);
        let ghost r2v = entry_views(r2@);
        let mut r3 = Self::table_lookups(XOR_LOOKUP_IDX, &side_note.bitwise_accum_xor);
        let ghost r3v = entry_views(r3@);
        r.append(&mut r2);
        r.append(&mut r3);
        assert(entry_views(r@) =~= r1 + r2v + r3v);
        r
    }
}

/// A row of a truth table is named by exactly one index below the table's size.
pub proof fn lemma_table_key_iff(idx: u32, x: int, key: Seq<u32>)
    requires
        0 <= x < TABLE_SIZE,
    ensures
        table_key(idx, x) == key <==> is_table_key(idx, key) && key_index(key) == x,
{
    if table_key(idx, x) == key {
        assert(key[1] == x / 16 && key[2] == x % 16);
    }
    if is_table_key(idx, key) && key_index(key) == x {
        vstd::arithmetic::div_mod::lemma_fundamental_div_mod_converse(
            x,
            16,
            key[1] as int,
            key[2] as int,
        );
        assert(table_key(idx, x) =~= key);
    }
}

/// The net count of a key over the first `m` rows of a table.
pub proof fn lemma_table_net(idx: u32, counts: Seq<u64>, key: Seq<u32>, m: int)
    requires
        counts.len() == TABLE_SIZE,
        0 <= m <= TABLE_SIZE,
    ensures
        net(table_entries(idx, counts).take(m), Relation::BitwiseInstr, key) == if is_table_key(
            idx,
            key,
        ) && key_index(key) < m {
            -(counts[key_index(key)] as int)
        } else {
            0
        },
    decreases m,
{
    if m > 0 {
        let t = table_entries(idx, counts);
        assert(t.take(m).drop_last() =~= t.take(m - 1));
        lemma_table_net(idx, counts, key, m - 1);
        lemma_table_key_iff(idx, m - 1, key);
        if is_table_key(idx, key) {
            assert(key_index(key) < 256);
        }
    } else {
        assert(table_entries(idx, counts).take(0) =~= Seq::<EntryView>::empty());
    }
}

/// The net count of a key over a whole table.
pub proof fn lemma_table_net_full(idx: u32, counts: Seq<u64>, key: Seq<u32>)
    requires
        counts.len() == TABLE_SIZE,
    ensures
        net(table_entries(idx, counts), Relation::BitwiseInstr, key) == if is_table_key(
            idx,
            key,
        ) {
            -(counts[key_index(key)] as int)
        } else {
            0
        },
{
    lemma_table_net(idx, counts, key, TABLE_SIZE as int);
    assert(table_entries(idx, counts).take(TABLE_SIZE as int) =~= table_entries(idx, counts));
}

/// The operations act on the two nibbles of a byte separately.
pub proof fn lemma_nibble_op(idx: u32, x: u8, y: u8)
    ensures
        bitwise_op(idx, x, y) % 16 == bitwise_op(idx, x % 16, y % 16),
        bitwise_op(idx, x, y) / 16 == bitwise_op(idx, x / 16, y / 16),
{
    assert((x & y) % 16 == (x % 16) & (y % 16)) by (bit_vector);
    assert((x & y) / 16 == (x / 16) & (y / 16)) by (bit_vector);
    assert((x | y) % 16 == (x % 16) | (y % 16)) by (bit_vector);
    assert((x | y) / 16 == (x / 16) | (y / 16)) by (bit_vector);
    assert((x ^ y) % 16 == (x % 16) ^ (y % 16)) by (bit_vector);
    assert((x ^ y) / 16 == (x / 16) ^ (y / 16)) by (bit_vector);
}

/// A row whose high-nibble columns are right and, if real, whose result bytes are the
/// operation's.
pub open spec fn nibble_valid(row: BitwiseRow, idx: u32) -> bool {
    &&& nibbles_wf(row)
    &&& !row.common.is_local_pad ==> forall|k: int|
        0 <= k < 4 ==> #[trigger] row.a_val[k] == bitwise_op(idx, row.b_val[k], row.c_val[k])
}

/// Nibble `p` of a well-formed row reads as byte `p / 2`'s low or high nibble.
proof fn lemma_nib(w: Word, high: [u8; 4], p: int)
    requires
        0 <= p < 8,
        high[p / 2] == w[p / 2] / 16,
    ensures
        nib(w, high, p) == if p % 2 == 0 {
            w[p / 2] % 16
        } else {
            w[p / 2] / 16
        },
        nib(w, high, p) < 16,
{
}

/// The key of nibble `p` of a valid real row is the table row of its nibble pair.
proof fn lemma_nib_key_table(row: BitwiseRow, idx: u32, p: int)
    requires
        nibble_valid(row, idx),
        !row.common.is_local_pad,
        0 <= p < 8,
    ensures
        0 <= pair_index(row, p) < TABLE_SIZE,
        nib_key(row, idx, p) == table_key(idx, pair_index(row, p)),
{
    let k = p / 2;
    assert(row.a_val_high[k] == row.a_val[k] / 16);
    lemma_nib(row.a_val, row.a_val_high, p);
    lemma_nib(row.b_val, row.b_val_high, p);
    lemma_nib(row.c_val, row.c_val_high, p);
    lemma_nibble_op(idx, row.b_val[k], row.c_val[k]);
    assert(row.a_val[k] == bitwise_op(idx, row.b_val[k], row.c_val[k]));
    let pi = pair_index(row, p);
    let nb = nib(row.b_val, row.b_val_high, p);
    let nc = nib(row.c_val, row.c_val_high, p);
    vstd::arithmetic::div_mod::lemma_fundamental_div_mod_converse(pi, 16, nb as int, nc as int);
    assert(nib_key(row, idx, p) =~= table_key(idx, pi));
}

/// The net count of a key over the first `m` nibble lookups of a valid row.
proof fn lemma_nibble_net(row: BitwiseRow, idx: u32, key: Seq<u32>, m: int)
    requires
        nibble_valid(row, idx),
        0 <= m <= 8,
    ensures
        net(nibble_entries(row, idx).take(m), Relation::BitwiseInstr, key) == if is_table_key(
            idx,
            key,
        ) {
            row_count(row, key_index(key), m)
        } else {
            0
        },
    decreases m,
{
    let t = nibble_entries(row, idx);
    if m > 0 {
        assert(t.take(m).drop_last() =~= t.take(m - 1));
        lemma_nibble_net(row, idx, key, m - 1);
        if !row.common.is_local_pad {
            lemma_nib_key_table(row, idx, m - 1);
            lemma_table_key_iff(idx, pair_index(row, m - 1), key);
        }
    } else {
        assert(t.take(0) =~= Seq::<EntryView>::empty());
    }
}

/// A list with no entry of a relation nets zero on it.
pub proof fn lemma_net_absent(s: Seq<EntryView>, rel: Relation, key: Seq<u32>)
    requires
        forall|i: int| 0 <= i < s.len() ==> (#[trigger] s[i]).0 != rel,
    ensures
        net(s, rel, key) == 0,
    decreases s.len(),
{
    if s.len() > 0 {
        let d = s.drop_last();
        assert forall|i: int| 0 <= i < d.len() implies (#[trigger] d[i]).0 != rel by {
            assert(d[i] == s[i]);
        }
        lemma_net_absent(d, rel, key);
    }
}

/// The net count of a key over a valid row's entries.
pub proof fn lemma_row_net(row: BitwiseRow, policy: ExecutionPolicy, idx: u32, key: Seq<u32>)
    requires
        nibble_valid(row, idx),
    ensures
        net(bitwise_row_entries(row, policy, idx), Relation::BitwiseInstr, key) == if is_table_key(
            idx,
            key,
        ) {
            row_count(row, key_index(key), 8)
        } else {
            0
        },
{
    let n = nibble_entries(row, idx);
    let e = execution_entries(row.common, policy, row.a_val, row.b_val, row.c_val);
    lemma_nibble_net(row, idx, key, 8);
    assert(n.take(8) =~= n);
    lemma_net_absent(e, Relation::BitwiseInstr, key);
    lemma_net_append(n, e, Relation::BitwiseInstr, key);
}

/// The net count of a key over the entries of a trace of valid rows.
pub proof fn lemma_bitwise_net(rows: Seq<BitwiseRow>, policy: ExecutionPolicy, idx: u32, key: Seq<
    u32,
>)
    requires
        forall|i: int| 0 <= i < rows.len() ==> nibble_valid(#[trigger] rows[i], idx),
    ensures
        net(bitwise_entries(rows, policy, idx), Relation::BitwiseInstr, key) == if is_table_key(
            idx,
            key,
        ) {
            tally(rows, key_index(key))
        } else {
            0
        },
    decreases rows.len(),
{
    if rows.len() > 0 {
        let d = rows.drop_last();
        assert forall|i: int| 0 <= i < d.len() implies nibble_valid(#[trigger] d[i], idx) by {
            assert(d[i] == rows[i]);
        }
        lemma_bitwise_net(d, policy, idx, key);
        assert(nibble_valid(rows[rows.len() - 1], idx));
        lemma_row_net(rows.last(), policy, idx, key);
        lemma_net_append(
            bitwise_entries(d, policy, idx),
            bitwise_row_entries(rows.last(), policy, idx),
            Relation::BitwiseInstr,
            key,
        );
    }
}

/// When two components share truth table `idx` and the table consumes each row as often as
/// the two traces used it, the bitwise lookups balance.
pub proof fn lemma_bitwise_zero_sum(
    rows1: Seq<BitwiseRow>,
    policy1: ExecutionPolicy,
    rows2: Seq<BitwiseRow>,
    policy2: ExecutionPolicy,
    idx: u32,
    counts: Seq<u64>,
)
    requires
        forall|i: int| 0 <= i < rows1.len() ==> nibble_valid(#[trigger] rows1[i], idx),
        forall|i: int| 0 <= i < rows2.len() ==> nibble_valid(#[trigger] rows2[i], idx),
        counts.len() == TABLE_SIZE,
        forall|x: int|
            0 <= x < TABLE_SIZE ==> #[trigger] counts[x] == tally(rows1, x) + tally(rows2, x),
    ensures
        balanced(
            bitwise_entries(rows1, policy1, idx) + bitwise_entries(rows2, policy2, idx)
                + table_entries(idx, counts),
            Relation::BitwiseInstr,
        ),
{
    let e1 = bitwise_entries(rows1, policy1, idx);
    let e2 = bitwise_entries(rows2, policy2, idx);
    let t = table_entries(idx, counts);
    assert forall|key: Seq<u32>| #[trigger] net(e1 + e2 + t, Relation::BitwiseInstr, key) == 0 by {
        lemma_bitwise_net(rows1, policy1, idx, key);
        lemma_bitwise_net(rows2, policy2, idx, key);
        lemma_table_net_full(idx, counts, key);
        lemma_net_append(e1, e2, Relation::BitwiseInstr, key);
        lemma_net_append(e1 + e2, t, Relation::BitwiseInstr, key);
        if is_table_key(idx, key) {
            assert(0 <= key_index(key) < TABLE_SIZE);
            assert(counts[key_index(key)] == tally(rows1, key_index(key)) + tally(
                rows2,
                key_index(key),
            ));
        }
    }
}

proof fn lemma_nibble_net_lower(row: BitwiseRow, idx: u32, key: Seq<u32>, m: int, p: int)
    requires
        0 <= m <= 8,
    ensures
        net(nibble_entries(row, idx).take(m), Relation::BitwiseInstr, key) >= 0,
        0 <= p < m && !row.common.is_local_pad && nib_key(row, idx, p) == key ==> net(
            nibble_entries(row, idx).take(m),
            Relation::BitwiseInstr,
            key,
        ) >= 1,
    decreases m,
{
    let t = nibble_entries(row, idx);
    if m > 0 {
        assert(t.take(m).drop_last() =~= t.take(m - 1));
        lemma_nibble_net_lower(row, idx, key, m - 1, p);
    } else {
        assert(t.take(0) =~= Seq::<EntryView>::empty());
    }
}

proof fn lemma_bitwise_net_lower(
    rows: Seq<BitwiseRow>,
    policy: ExecutionPolicy,
    idx: u32,
    key: Seq<u32>,
    i: int,
    p: int,
)
    ensures
        net(bitwise_entries(rows, policy, idx), Relation::BitwiseInstr, key) >= 0,
        0 <= i < rows.len() && 0 <= p < 8 && !rows[i].common.is_local_pad && nib_key(
            rows[i],
            idx,
            p,
        ) == key ==> net(bitwise_entries(rows, policy, idx), Relation::BitwiseInstr, key) >= 1,
    decreases rows.len(),
{
    if rows.len() > 0 {
        let d = rows.drop_last();
        let last = rows.last();
        lemma_bitwise_net_lower(d, policy, idx, key, i, p);
        if 0 <= i < d.len() {
            assert(d[i] == rows[i]);
        }
        let n = nibble_entries(last, idx);
        let e = execution_entries(last.common, policy, last.a_val, last.b_val, last.c_val);
        lemma_nibble_net_lower(last, idx, key, 8, p);
        assert(n.take(8) =~= n);
        lemma_net_absent(e, Relation::BitwiseInstr, key);
        lemma_net_append(n, e, Relation::BitwiseInstr, key);
        lemma_net_append(
            bitwise_entries(d, policy, idx),
            bitwise_row_entries(last, policy, idx),
            Relation::BitwiseInstr,
            key,
        );
    }
}

/// A real row whose result byte `k` is not the operation's result looks up a nibble triple
/// that no truth table row provides, so the bitwise lookups cannot balance, whatever the
/// table's counts.
pub proof fn lemma_bitwise_corruption_detected(
    rows: Seq<BitwiseRow>,
    policy: ExecutionPolicy,
    idx: u32,
    counts: Seq<u64>,
    i: int,
    k: int,
)
    requires
        forall|j: int| 0 <= j < rows.len() ==> nibbles_wf(#[trigger] rows[j]),
        counts.len() == TABLE_SIZE,
        0 <= i < rows.len(),
        !rows[i].common.is_local_pad,
        0 <= k < 4,
        rows[i].a_val[k] != bitwise_op(idx, rows[i].b_val[k], rows[i].c_val[k]),
    ensures
        !balanced(
            bitwise_entries(rows, policy, idx) + table_entries(idx, counts),
            Relation::BitwiseInstr,
        ),
{
    let row = rows[i];
    assert(nibbles_wf(row));
    assert(row.a_val_high[k] == row.a_val[k] / 16);
    let (a, b, c) = (row.a_val[k], row.b_val[k], row.c_val[k]);
    lemma_nibble_op(idx, b, c);
    let o = bitwise_op(idx, b, c);
    assert(a == 16 * (a / 16) + a % 16);
    assert(o == 16 * (o / 16) + o % 16);
    let p: int = if a % 16 != bitwise_op(idx, b % 16, c % 16) {
        2 * k
    } else {
        2 * k + 1
    };
    assert(p / 2 == k);
    lemma_nib(row.a_val, row.a_val_high, p);
    lemma_nib(row.b_val, row.b_val_high, p);
    lemma_nib(row.c_val, row.c_val_high, p);
    let key = nib_key(row, idx, p);
    assert(!is_table_key(idx, key)) by {
        if p % 2 == 0 {
            assert(key[1] as u8 == b % 16 && key[2] as u8 == c % 16);
        } else {
            assert(key[1] as u8 == b / 16 && key[2] as u8 == c / 16);
        }
    }
    let e = bitwise_entries(rows, policy, idx);
    let t = table_entries(idx, counts);
    lemma_table_net_full(idx, counts, key);
    lemma_bitwise_net_lower(rows, policy, idx, key, i, p);
    lemma_net_append(e, t, Relation::BitwiseInstr, key);
    assert(net(e + t, Relation::BitwiseInstr, key) != 0);
}

} // verus!
