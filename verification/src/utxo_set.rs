//! The set of unspent outputs of a wallet: no outpoint twice, and all of it
//! together worth no more than the money supply.

use crate::primitives::{
    distinct_outpoints, has_outpoint, lemma_total_remove, total_value, OutPoint, Utxo, MAX_MONEY,
};
use vstd::prelude::*;

verus! {

/// Why an output was not taken into a set.
#[derive(Clone, Copy, PartialEq, Eq, Structural, Debug)]
pub enum UtxoError {
    /// The set holds an output with this outpoint already.
    DuplicateOutpoint,
    /// With this output the set would be worth more than `MAX_MONEY`.
    ValueOutOfRange,
}

/// The sequence without the outputs that have the given outpoint.
pub open spec fn without(s: Seq<Utxo>, outpoint: OutPoint) -> Seq<Utxo>
    decreases s.len(),
{
    if s.len() == 0 {
        s
    } else if s.last().outpoint == outpoint {
        without(s.drop_last(), outpoint)
    } else {
        without(s.drop_last(), outpoint).push(s.last())
    }
}

/// The sequence with the pending mark of every output set to `pending`
/// where `marked` holds the output's outpoint, and left as it is elsewhere.
pub open spec fn with_pending(s: Seq<Utxo>, marked: Seq<OutPoint>, pending: bool) -> Seq<Utxo> {
    s.map_values(
        |u: Utxo|
            if marked.contains(u.outpoint) {
                Utxo { pending_spend: pending, ..u }
            } else {
                u
            },
    )
}

/// The sequence with the confirmation height of the output at `outpoint`
/// replaced.
pub open spec fn with_height(s: Seq<Utxo>, outpoint: OutPoint, height: Option<u32>) -> Seq<Utxo> {
    s.map_values(
        |u: Utxo|
            if u.outpoint == outpoint {
                Utxo { height: height, ..u }
            } else {
                u
            },
    )
}

/// The sum of the values of the confirmed outputs.
pub open spec fn confirmed_value(s: Seq<Utxo>) -> nat
    decreases s.len(),
{
    if s.len() == 0 {
        0
    } else {
        confirmed_value(s.drop_last()) + if s.last().height is Some {
            s.last().value as nat
        } else {
            0
        }
    }
}

/// The sum of the values of the unconfirmed outputs.
pub open spec fn unconfirmed_value(s: Seq<Utxo>) -> nat
    decreases s.len(),
{
    if s.len() == 0 {
        0
    } else {
        unconfirmed_value(s.drop_last()) + if s.last().height is None {
            s.last().value as nat
        } else {
            0
        }
    }
}

/// Every output is either confirmed or not: the two sums make up the total.
pub proof fn lemma_confirmed_split(s: Seq<Utxo>)
    ensures
        confirmed_value(s) + unconfirmed_value(s) == total_value(s),
    decreases s.len(),
{
    if s.len() > 0 {
        lemma_confirmed_split(s.drop_last());
    }
}

/// Where no output has the outpoint, nothing is taken out.
pub proof fn lemma_without_absent(s: Seq<Utxo>, outpoint: OutPoint)
    requires
        !has_outpoint(s, outpoint),
    ensures
        without(s, outpoint) == s,
    decreases s.len(),
{
    if s.len() > 0 {
        assert(s[s.len() - 1].outpoint != outpoint);
        assert forall|i: int| 0 <= i < s.drop_last().len() implies (#[trigger] s.drop_last()[i]).outpoint
            != outpoint by {
            assert(s[i].outpoint != outpoint);
        }
        lemma_without_absent(s.drop_last(), outpoint);
        assert(s.drop_last().push(s.last()) =~= s);
    }
}

/// Where outpoints are distinct, taking out an outpoint removes the one
/// output that has it.
pub proof fn lemma_without_present(s: Seq<Utxo>, i: int)
    requires
        0 <= i < s.len(),
        distinct_outpoints(s),
    ensures
        without(s, s[i].outpoint) == s.remove(i),
    decreases s.len(),
{
    let outpoint = s[i].outpoint;
    let init = s.drop_last();
    if i == s.len() - 1 {
        assert forall|j: int| 0 <= j < init.len() implies (#[trigger] init[j]).outpoint
            != outpoint by {
            assert(s[j].outpoint != s[i].outpoint);
        }
        lemma_without_absent(init, outpoint);
        assert(s.remove(i) =~= init);
    } else {
        assert(s[s.len() - 1].outpoint != s[i].outpoint);
        assert forall|a: int, b: int|
            0 <= a < init.len() && 0 <= b < init.len() && a != b implies (#[trigger] init[a]).outpoint
            != (#[trigger] init[b]).outpoint by {
            assert(s[a].outpoint != s[b].outpoint);
        }
        lemma_without_present(init, i);
        assert(init.remove(i).push(s.last()) =~= s.remove(i));
    }
}

/// Taking outputs out leaves the rest distinct and worth no more, and the
/// outpoint is gone.
pub proof fn lemma_without_keeps(s: Seq<Utxo>, outpoint: OutPoint)
    ensures
        !has_outpoint(without(s, outpoint), outpoint),
        total_value(without(s, outpoint)) <= total_value(s),
        without(s, outpoint).len() <= s.len(),
        distinct_outpoints(s) ==> distinct_outpoints(without(s, outpoint)),
        forall|k: int|
            0 <= k < without(s, outpoint).len() ==> s.contains(#[trigger] without(s, outpoint)[k]),
    decreases s.len(),
{
    if s.len() > 0 {
        let init = s.drop_last();
        lemma_without_keeps(init, outpoint);
        let w = without(s, outpoint);
        let wi = without(init, outpoint);
        if s.last().outpoint != outpoint {
            assert(w.drop_last() =~= wi);
        }
        assert forall|k: int| 0 <= k < w.len() implies s.contains(#[trigger] w[k]) by {
            if k < wi.len() {
                assert(init.contains(wi[k]));
                let j = choose|j: int| 0 <= j < init.len() && init[j] == wi[k];
                assert(s[j] == wi[k]);
            } else {
                assert(w[k] == s[s.len() - 1]);
            }
        }
        if distinct_outpoints(s) {
            assert forall|a: int, b: int|
                0 <= a < init.len() && 0 <= b < init.len() && a != b implies (
            #[trigger] init[a]).outpoint != (#[trigger] init[b]).outpoint by {
                assert(s[a].outpoint != s[b].outpoint);
            }
            assert forall|a: int, b: int|
                0 <= a < w.len() && 0 <= b < w.len() && a != b implies (#[trigger] w[a]).outpoint
                != (#[trigger] w[b]).outpoint by {
                if a < wi.len() && b < wi.len() {
                    assert(wi[a].outpoint != wi[b].outpoint);
                } else {
                    let (x, y) = if a < wi.len() {
                        (a, b)
                    } else {
                        (b, a)
                    };
                    assert(init.contains(wi[x]));
                    let j = choose|j: int| 0 <= j < init.len() && init[j] == wi[x];
                    assert(s[j].outpoint != s[s.len() - 1].outpoint);
                }
            }
        }
    }
}

/// The outputs of a wallet. Its view is the sequence of the outputs in the
/// order in which they came.
pub struct UtxoSet {
    items: Vec<Utxo>,
    total: u64,
}

impl View for UtxoSet {
    type V = Seq<Utxo>;

    closed spec fn view(&self) -> Seq<Utxo> {
        self.items@
    }
}

impl UtxoSet {
    /// The sum that the set keeps of its values is the true one.
    pub closed spec fn sum_kept(&self) -> bool {
        self.total as nat == total_value(self.items@)
    }

    /// What every set holds to: no outpoint twice, and a total no larger
    /// than the money supply.
    pub open spec fn wf(&self) -> bool {
        &&& distinct_outpoints(self@)
        &&& total_value(self@) <= MAX_MONEY
        &&& self.sum_kept()
    }

    /// The empty set.
    pub fn new() -> (r: UtxoSet)
        ensures
            r.wf(),
            r@ == Seq::<Utxo>::empty(),
    {
        UtxoSet { items: Vec::new(), total: 0 }
    }

    /// The number of outputs in the set.
    pub fn len(&self) -> (r: usize)
        ensures
            r == self@.len(),
    {
        self.items.len()
    }

    /// A copy of the set.
    pub fn duplicate(&self) -> (r: UtxoSet)
        ensures
            r@ == self@,
            self.wf() ==> r.wf(),
    {
        let mut items: Vec<Utxo> = Vec::new();
        let mut i: usize = 0;
        while i < self.items.len()
            invariant
                i <= self.items@.len(),
                items@ == self.items@.subrange(0, i as int),
            decreases self.items@.len() - i,
        {
            items.push(self.items[i]);
            i += 1;
        }
        assert(self.items@.subrange(0, self.items@.len() as int) =~= self.items@);
        UtxoSet { items, total: self.total }
    }

    /// The outputs, in the order of the view.
    pub fn items(&self) -> (r: &Vec<Utxo>)
        ensures
            r@ == self@,
    {
        &self.items
    }

    /// The output at a position, if the set is that long.
    pub fn get(&self, i: usize) -> (r: Option<Utxo>)
        ensures
            r == if i < self@.len() {
                Some(self@[i as int])
            } else {
                None
            },
    {
        if i < self.items.len() {
            Some(self.items[i])
        } else {
            None
        }
    }

    /// The value of all outputs of the set together.
    pub fn total(&self) -> (r: u64)
        requires
            self.wf(),
        ensures
            r == total_value(self@),
    {
        self.total
    }

    /// The position of the output with the given outpoint.
    pub fn position(&self, outpoint: OutPoint) -> (r: Option<usize>)
        ensures
            match r {
                Some(i) => i < self@.len() && self@[i as int].outpoint == outpoint,
                None => !has_outpoint(self@, outpoint),
            },
    {
        let mut i: usize = 0;
        while i < self.items.len()
            invariant
                i <= self.items@.len(),
                forall|j: int| 0 <= j < i ==> (#[trigger] self.items@[j]).outpoint != outpoint,
            decreases self.items@.len() - i,
        {
            if self.items[i].outpoint == outpoint {
                return Some(i);
            }
            i += 1;
        }
        None
    }

    /// Whether the set holds an output with the given outpoint.
    pub fn contains(&self, outpoint: OutPoint) -> (r: bool)
        ensures
            r == has_outpoint(self@, outpoint),
    {
        self.position(outpoint).is_some()
    }

    /// Takes an output into the set, at its end. An outpoint that the set
    /// holds already is refused, and so is a value that would lift the
    /// total over `MAX_MONEY`; the set is then left as it was.
    pub fn insert(&mut self, utxo: Utxo) -> (r: Result<(), UtxoError>)
        requires
            old(self).wf(),
        ensures
            final(self).wf(),
            match r {
                Ok(()) => {
                    &&& !has_outpoint(old(self)@, utxo.outpoint)
                    &&& total_value(old(self)@) + utxo.value <= MAX_MONEY
                    &&& final(self)@ == old(self)@.push(utxo)
                },
                Err(UtxoError::DuplicateOutpoint) => {
                    &&& has_outpoint(old(self)@, utxo.outpoint)
                    &&& final(self)@ == old(self)@
                },
                Err(UtxoError::ValueOutOfRange) => {
                    &&& !has_outpoint(old(self)@, utxo.outpoint)
                    &&& total_value(old(self)@) + utxo.value > MAX_MONEY
                    &&& final(self)@ == old(self)@
                },
            },
    {
        if self.position(utxo.outpoint).is_some() {
            return Err(UtxoError::DuplicateOutpoint);
        }
        if utxo.value > MAX_MONEY - self.total {
            return Err(UtxoError::ValueOutOfRange);
        }
        let ghost before = self.items@;
        self.items.push(utxo);
        self.total = self.total + utxo.value;
        proof {
            assert(self.items@.drop_last() =~= before);
            assert forall|a: int, b: int|
                0 <= a < self.items@.len() && 0 <= b < self.items@.len() && a != b implies (
            #[trigger] self.items@[a]).outpoint != (#[trigger] self.items@[b]).outpoint by {
                if a < before.len() && b < before.len() {
                    assert(before[a].outpoint != before[b].outpoint);
                } else if a < before.len() {
                    assert(before[a].outpoint != utxo.outpoint);
                } else {
                    assert(before[b].outpoint != utxo.outpoint);
                }
            }
        }
        Ok(())
    }

    /// Takes the output with the given outpoint out of the set and hands it
    /// back.
    pub fn remove(&mut self, outpoint: OutPoint) -> (r: Option<Utxo>)
        requires
            old(self).wf(),
        ensures
            final(self).wf(),
            final(self)@ == without(old(self)@, outpoint),
            match r {
                Some(u) => u.outpoint == outpoint && old(self)@.contains(u),
                None => !has_outpoint(old(self)@, outpoint),
            },
    {
        match self.position(outpoint) {
            None => {
                proof {
                    lemma_without_absent(self.items@, outpoint);
                }
                None
            },
            Some(i) => {
                let ghost before = self.items@;
                proof {
                    lemma_without_present(before, i as int);
                    lemma_without_keeps(before, outpoint);
                    lemma_total_remove(before, i as int);
                }
                let u = self.items.remove(i);
                self.total = self.total - u.value;
                assert(before[i as int] == u);
                Some(u)
            },
        }
    }

    /// Sets or clears the pending mark of the outputs whose outpoints are
    /// given. Outpoints that the set does not hold are passed over.
    pub fn set_pending(&mut self, marked: &Vec<OutPoint>, pending: bool)
        requires
            old(self).wf(),
        ensures
            final(self).wf(),
            final(self)@ == with_pending(old(self)@, marked@, pending),
    {
        let ghost before = self.items@;
        let mut k: usize = 0;
        while k < marked.len()
            invariant
                k <= marked@.len(),
                self.items@.len() == before.len(),
                self.total == old(self).total,
                forall|j: int|
                    0 <= j < before.len() ==> #[trigger] self.items@[j] == if marked@.subrange(
                        0,
                        k as int,
                    ).contains(before[j].outpoint) {
                        Utxo { pending_spend: pending, ..before[j] }
                    } else {
                        before[j]
                    },
            decreases marked@.len() - k,
        {
            let target = marked[k];
            let ghost seen = marked@.subrange(0, k as int);
            let ghost seen_next = marked@.subrange(0, k as int + 1);
            assert(seen_next =~= seen.push(target));
            assert forall|o: OutPoint| seen_next.contains(o) <==> (seen.contains(o) || o
                == target) by {
                if seen.contains(o) {
                    let w = choose|w: int| 0 <= w < seen.len() && seen[w] == o;
                    assert(seen_next[w] == o);
                }
                if o == target {
                    assert(seen_next[k as int] == o);
                }
            }
            let mut i: usize = 0;
            while i < self.items.len()
                invariant
                    i <= self.items@.len(),
                    self.items@.len() == before.len(),
                    self.total == old(self).total,
                    forall|o: OutPoint|
                        seen_next.contains(o) <==> (seen.contains(o) || o == target),
                    forall|j: int|
                        0 <= j < i ==> #[trigger] self.items@[j] == if seen_next.contains(
                            before[j].outpoint,
                        ) {
                            Utxo { pending_spend: pending, ..before[j] }
                        } else {
                            before[j]
                        },
                    forall|j: int|
                        i <= j < before.len() ==> #[trigger] self.items@[j] == if seen.contains(
                            before[j].outpoint,
                        ) {
                            Utxo { pending_spend: pending, ..before[j] }
                        } else {
                            before[j]
                        },
                decreases self.items@.len() - i,
            {
                let u = self.items[i];
                if u.outpoint == target {
                    self.items.set(i, Utxo { pending_spend: pending, ..u });
                }
                i += 1;
            }
            k += 1;
        }
        proof {
            assert(marked@.subrange(0, marked@.len() as int) =~= marked@);
            let after = with_pending(before, marked@, pending);
            assert(self.items@ =~= after);
            lemma_same_values(before, after);
        }
    }

    /// Replaces the confirmation height of the output at `outpoint`, if the
    /// set holds it.
    pub fn set_height(&mut self, outpoint: OutPoint, height: Option<u32>)
        requires
            old(self).wf(),
        ensures
            final(self).wf(),
            final(self)@ == with_height(old(self)@, outpoint, height),
    {
        let ghost before = self.items@;
        match self.position(outpoint) {
            None => {},
            Some(i) => {
                let u = self.items[i];
                self.items.set(i, Utxo { height: height, ..u });
            },
        }
        proof {
            let after = with_height(before, outpoint, height);
            assert forall|j: int| 0 <= j < before.len() implies self.items@[j] == after[j] by {
                if before[j].outpoint == outpoint {
                    // Outpoints are distinct, so j is the position that was found.
                    assert(forall|i: int|
                        0 <= i < before.len() && i != j ==> (#[trigger] before[i]).outpoint
                            != before[j].outpoint);
                }
            }
            assert(self.items@ =~= after);
            lemma_same_values(before, after);
        }
    }

    /// The value of the confirmed outputs.
    pub fn confirmed_total(&self) -> (r: u64)
        requires
            self.wf(),
        ensures
            r == confirmed_value(self@),
    {
        let mut sum: u64 = 0;
        let mut i: usize = 0;
        while i < self.items.len()
            invariant
                i <= self.items@.len(),
                sum == confirmed_value(self.items@.subrange(0, i as int)),
                sum <= total_value(self.items@.subrange(0, i as int)),
                total_value(self.items@) <= MAX_MONEY,
            decreases self.items@.len() - i,
        {
            proof {
                let next = self.items@.subrange(0, i as int + 1);
                assert(next.drop_last() =~= self.items@.subrange(0, i as int));
                lemma_total_prefix(self.items@, i as int + 1);
            }
            if self.items[i].height.is_some() {
                sum = sum + self.items[i].value;
            }
            i += 1;
        }
        assert(self.items@.subrange(0, self.items@.len() as int) =~= self.items@);
        sum
    }
}

/// A prefix of a sequence is worth no more than the sequence.
pub proof fn lemma_total_prefix(s: Seq<Utxo>, n: int)
    requires
        0 <= n <= s.len(),
    ensures
        total_value(s.subrange(0, n)) <= total_value(s),
    decreases s.len() - n,
{
    if n < s.len() {
        lemma_total_prefix(s, n + 1);
        assert(s.subrange(0, n + 1).drop_last() =~= s.subrange(0, n));
    } else {
        assert(s.subrange(0, n) =~= s);
    }
}

/// Two sequences of outputs that agree, place by place, in outpoint and
/// value are both distinct or both not, and are worth the same.
pub proof fn lemma_same_values(a: Seq<Utxo>, b: Seq<Utxo>)
    requires
        a.len() == b.len(),
        forall|i: int|
            0 <= i < a.len() ==> (#[trigger] a[i]).outpoint == b[i].outpoint && a[i].value
                == b[i].value,
    ensures
        total_value(a) == total_value(b),
        distinct_outpoints(a) ==> distinct_outpoints(b),
    decreases a.len(),
{
    if a.len() > 0 {
        assert(a[a.len() - 1].value == b[a.len() - 1].value);
        assert forall|i: int| 0 <= i < a.drop_last().len() implies (#[trigger] a.drop_last()[i]).outpoint
            == b.drop_last()[i].outpoint && a.drop_last()[i].value == b.drop_last()[i].value by {
            assert(a[i].outpoint == b[i].outpoint);
        }
        lemma_same_values(a.drop_last(), b.drop_last());
    }
    if distinct_outpoints(a) {
        assert forall|i: int, j: int|
            0 <= i < b.len() && 0 <= j < b.len() && i != j implies (#[trigger] b[i]).outpoint != (
        #[trigger] b[j]).outpoint by {
            assert(a[i].outpoint == b[i].outpoint);
            assert(a[j].outpoint == b[j].outpoint);
        }
    }
}

} // verus!
