//! The lookup argument: relation entries emitted per row, their net multiplicity per key,
//! and the claimed sum as a fraction over the field under random challenges.
use crate::field::{fe, modulus, BaseField};
use vstd::prelude::*;

verus! {

/// The channels through which components agree on shared facts.
#[derive(Clone, Copy, Debug, PartialEq, Eq, Structural)]
pub enum Relation {
    /// (clock, pc) of each executed step: provided by execution rows, consumed by the CPU.
    ProgramExecution,
    /// (pc, instruction word): consumed by execution rows, provided by the program table.
    InstToProgMemory,
    /// (clock, register index, value, is-write): provided by execution rows.
    InstToRegisterMemory,
    /// (clock, address, values, access flags, write flag): provided by memory instructions.
    InstToRam,
    /// (operation, b nibble, c nibble, result nibble): provided by bitwise rows, consumed by
    /// the multiplicity table.
    BitwiseInstr,
}

/// One fraction `multiplicity / (key under the relation's challenges)`.
#[derive(Debug)]
pub struct LookupEntry {
    pub relation: Relation,
    pub multiplicity: i64,
    pub key: Vec<u32>,
}

/// An entry as a value: relation, multiplicity and key.
pub type EntryView = (Relation, int, Seq<u32>);

impl View for LookupEntry {
    type V = EntryView;

    open spec fn view(&self) -> EntryView {
        (self.relation, self.multiplicity as int, self.key@)
    }
}

pub open spec fn entry_views(s: Seq<LookupEntry>) -> Seq<EntryView> {
    s.map_values(|e: LookupEntry| e@)
}

/// Sum of the multiplicities of the entries of `rel` with key `key`.
pub open spec fn net(entries: Seq<EntryView>, rel: Relation, key: Seq<u32>) -> int
    decreases entries.len(),
{
    if entries.len() == 0 {
        0
    } else {
        let e = entries.last();
        net(entries.drop_last(), rel, key) + if e.0 == rel && e.2 == key {
            e.1
        } else {
            0
        }
    }
}

/// Every key of `rel` is provided exactly as often as it is consumed.
pub open spec fn balanced(entries: Seq<EntryView>, rel: Relation) -> bool {
    forall|key: Seq<u32>| #[trigger] net(entries, rel, key) == 0
}

/// The net multiplicity of a concatenation is the sum of the parts'.
pub proof fn lemma_net_append(a: Seq<EntryView>, b: Seq<EntryView>, rel: Relation, key: Seq<u32>)
    ensures
        net(a + b, rel, key) == net(a, rel, key) + net(b, rel, key),
    decreases b.len(),
{
    if b.len() == 0 {
        assert(a + b =~= a);
    } else {
        assert((a + b).drop_last() =~= a + b.drop_last());
        lemma_net_append(a, b.drop_last(), rel, key);
    }
}

/// Collects the entries of one component's interaction phase.
pub struct LogupTraceBuilder {
    pub entries: Vec<LookupEntry>,
}

impl LogupTraceBuilder {
    pub fn new() -> (r: LogupTraceBuilder)
        ensures
            r.entries@.len() == 0,
    {
        LogupTraceBuilder { entries: Vec::new() }
    }

    /// Appends one entry with the given numerator and key.
    pub fn add_to_relation_with(&mut self, relation: Relation, multiplicity: i64, key: Vec<u32>)
        ensures
            entry_views(final(self).entries@) == entry_views(old(self).entries@).push(
                (relation, multiplicity as int, key@),
            ),
    {
        self.entries.push(LookupEntry { relation, multiplicity, key });
        assert(entry_views(self.entries@) =~= entry_views(old(self).entries@).push(
            (relation, multiplicity as int, key@),
        ));
    }

    /// Appends a batch of entries.
    pub fn extend(&mut self, more: Vec<LookupEntry>)
        ensures
            entry_views(final(self).entries@) == entry_views(old(self).entries@) + entry_views(
                more@,
            ),
    {
        let ghost added = more@;
        let mut more = more;
        self.entries.append(&mut more);
        assert(entry_views(self.entries@) =~= entry_views(old(self).entries@) + entry_views(
            added,
        ));
    }

    pub fn finalize(self) -> (r: Vec<LookupEntry>)
        ensures
            r@ == self.entries@,
    {
        self.entries
    }
}

/// The random challenges of one proof: a key `k` of a relation is sent to
/// `sum_i k[i] * alpha^i - z`.
#[derive(Clone, Copy, Debug)]
pub struct LookupElements {
    pub z: BaseField,
    pub alpha: BaseField,
}

impl LookupElements {
    pub open spec fn wf(&self) -> bool {
        self.z.wf() && self.alpha.wf()
    }

    /// The key's denominator, as an integer before reduction.
    pub open spec fn spec_combine(&self, key: Seq<u32>) -> int
        decreases key.len(),
    {
        if key.len() == 0 {
            -(self.z.v as int)
        } else {
            fe(self.spec_combine(key.drop_last()) + key.last() as int * spec_pow(
                self.alpha.v as int,
                (key.len() - 1) as nat,
            ))
        }
    }

    /// Sends a key to its denominator.
    pub fn combine(&self, key: &Vec<u32>) -> (r: BaseField)
        requires
            self.wf(),
        ensures
            r.wf(),
            r.val() == fe(self.spec_combine(key@)),
    {
        let mut acc: BaseField = self.z.neg();
        let mut power: BaseField = BaseField::one();
        let mut i: usize = 0;
        proof {
            crate::field::lemma_fe_ops(-(self.z.v as int), 0);
            assert(key@.take(0) =~= Seq::<u32>::empty());
        }
        while i < key.len()
            invariant
                self.wf(),
                0 <= i <= key@.len(),
                acc.wf(),
                power.wf(),
                acc.val() == fe(self.spec_combine(key@.take(i as int))),
                power.val() == fe(spec_pow(self.alpha.v as int, i as nat)),
            decreases key@.len() - i,
        {
            let k: BaseField = BaseField::from_u32(key[i]);
            let term: BaseField = k.mul(power);
            let next: BaseField = acc.add(term);
            proof {
                let prev = self.spec_combine(key@.take(i as int));
                let p = spec_pow(self.alpha.v as int, i as nat);
                assert(key@.take(i + 1).drop_last() =~= key@.take(i as int));
                crate::field::lemma_fe_ops(key[i as int] as int, p);
                crate::field::lemma_fe_ops(prev, key[i as int] as int * p);
                crate::field::lemma_fe_ops(prev + key[i as int] as int * p, 0);
                crate::field::lemma_fe_ops(p, self.alpha.v as int);
                assert(spec_pow(self.alpha.v as int, (i + 1) as nat) == p * self.alpha.v);
                vstd::arithmetic::div_mod::lemma_small_mod(
                    self.alpha.v as nat, modulus() as nat);
            }
            let next_power: BaseField = power.mul(self.alpha);
            acc = next;
            power = next_power;
            i = i + 1;
        }
        proof {
            assert(key@.take(key@.len() as int) =~= key@);
        }
        acc
    }
}

pub open spec fn spec_pow(x: int, n: nat) -> int
    decreases n,
{
    if n == 0 {
        1
    } else {
        spec_pow(x, (n - 1) as nat) * x
    }
}

/// A sum of fractions held as one fraction `numerator / denominator`.
#[derive(Clone, Copy, Debug, PartialEq, Eq, Structural)]
pub struct Fraction {
    pub numerator: BaseField,
    pub denominator: BaseField,
}

/// The claimed sum of a list of entries, accumulated entry by entry:
/// `n / d + m / e = (n * e + m * d) / (d * e)`.
pub open spec fn spec_claimed_sum(entries: Seq<EntryView>, elems: LookupElements) -> (int, int)
    decreases entries.len(),
{
    if entries.len() == 0 {
        (0, 1)
    } else {
        let (n, d) = spec_claimed_sum(entries.drop_last(), elems);
        let e = fe(elems.spec_combine(entries.last().2));
        let m = fe(entries.last().1);
        (fe(n * e + m * d), fe(d * e))
    }
}

/// Sums the fractions of the entries under the given challenges: the component's
/// contribution to the proof-wide zero-sum check.
pub fn claimed_sum(entries: &Vec<LookupEntry>, elems: &LookupElements) -> (r: Fraction)
    requires
        elems.wf(),
    ensures
        r.numerator.wf(),
        r.denominator.wf(),
        (r.numerator.val(), r.denominator.val()) == spec_claimed_sum(entry_views(entries@), *elems),
{
    let mut n: BaseField = BaseField::zero();
    let mut d: BaseField = BaseField::one();
    let mut i: usize = 0;
    proof {
        assert(entry_views(entries@.take(0)) =~= Seq::<EntryView>::empty());
    }
    while i < entries.len()
        invariant
            elems.wf(),
            0 <= i <= entries@.len(),
            n.wf(),
            d.wf(),
            (n.val(), d.val()) == spec_claimed_sum(entry_views(entries@.take(i as int)), *elems),
        decreases entries@.len() - i,
    {
        let e: BaseField = elems.combine(&entries[i].key);
        let m: BaseField = BaseField::from_i64(entries[i].multiplicity);
        let ne: BaseField = n.mul(e);
        let md: BaseField = m.mul(d);
        let new_n: BaseField = ne.add(md);
        let new_d: BaseField = d.mul(e);
        proof {
            assert(entry_views(entries@.take(i + 1)).drop_last() =~= entry_views(
                entries@.take(i as int),
            ));
            assert(entry_views(entries@.take(i + 1)).last() == entries@[i as int]@);
            let ei = fe(elems.spec_combine(entries[i as int].key@));
            crate::field::lemma_fe_ops(elems.spec_combine(entries[i as int].key@), 0);
            crate::field::lemma_fe_ops(n.val() * ei, m.val() * d.val());
        }
        n = new_n;
        d = new_d;
        i = i + 1;
    }
    proof {
        assert(entries@.take(entries@.len() as int) =~= entries@);
    }
    Fraction { numerator: n, denominator: d }
}

} // verus!
