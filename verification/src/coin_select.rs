//! Coin selection: which outputs a payment spends.
//!
//! The selector takes the largest spendable output, again and again, until
//! one of those left covers what is still missing; of the outputs that do, it
//! takes the smallest, so that as little as possible is left over. Among
//! outputs of one value the one whose outpoint comes first is taken.

use crate::fee::FeeRate;
use crate::primitives::{
    distinct_outpoints, has_outpoint, lemma_total_remove, total_value, Utxo, MAX_MONEY,
};
use crate::utxo_set::UtxoSet;
use vstd::prelude::*;

verus! {

/// The outputs chosen for a payment.
pub struct Selection {
    /// The chosen outputs, in the order in which they were chosen.
    pub inputs: Vec<Utxo>,
    /// The fee of a transaction with that many inputs.
    pub fee: u64,
    /// The value of the chosen outputs together.
    pub total: u64,
    /// The amount that was to be covered.
    pub target: u64,
}

/// The spendable outputs of the wallet do not cover a payment.
#[derive(Clone, Copy, PartialEq, Eq, Structural, Debug)]
pub struct InsufficientFunds {
    /// The amount of the payment and the fee of spending every spendable
    /// output (of spending one, where there is none).
    pub needed: u128,
    /// The value of the spendable outputs together.
    pub available: u64,
}

/// `a` is taken before `b` where the larger output goes first.
pub open spec fn prefers_large(a: Utxo, b: Utxo) -> bool {
    a.value > b.value || (a.value == b.value && a.outpoint.spec_precedes(b.outpoint))
}

/// `a` is taken before `b` where the smaller output goes first.
pub open spec fn prefers_small(a: Utxo, b: Utxo) -> bool {
    a.value < b.value || (a.value == b.value && a.outpoint.spec_precedes(b.outpoint))
}

/// `u` can still be chosen: it is a spendable output of `s` that is not
/// among the outputs picked so far.
pub open spec fn is_candidate(s: Seq<Utxo>, picked: Seq<Utxo>, u: Utxo) -> bool {
    s.contains(u) && u.spec_is_spendable() && !has_outpoint(picked, u.outpoint)
}

/// With `u` on top of the outputs picked so far, the payment and the fee of
/// a transaction with that many inputs are covered.
pub open spec fn covers(picked: Seq<Utxo>, u: Utxo, target: u64, rate: FeeRate) -> bool {
    total_value(picked) + u.value >= target + rate.spec_fee(picked.len() + 1)
}

/// `u` is the candidate that the largest-first order takes next.
pub open spec fn is_largest_candidate(s: Seq<Utxo>, picked: Seq<Utxo>, u: Utxo) -> bool {
    &&& is_candidate(s, picked, u)
    &&& forall|v: Utxo| #[trigger]
        is_candidate(s, picked, v) ==> v.outpoint == u.outpoint || prefers_large(u, v)
}

/// No candidate covers the payment on top of the outputs picked so far.
pub open spec fn none_covers(s: Seq<Utxo>, picked: Seq<Utxo>, target: u64, rate: FeeRate) -> bool {
    forall|v: Utxo| #[trigger] is_candidate(s, picked, v) ==> !covers(picked, v, target, rate)
}

/// Every output of `g` was, when it was picked, the largest candidate, and
/// no candidate covered the payment then.
pub open spec fn greedy_prefix(s: Seq<Utxo>, target: u64, rate: FeeRate, g: Seq<Utxo>) -> bool {
    forall|k: int|
        #![trigger g[k]]
        0 <= k < g.len() ==> is_largest_candidate(s, g.subrange(0, k), g[k]) && none_covers(
            s,
            g.subrange(0, k),
            target,
            rate,
        )
}

/// `sel` is what the selector picks from `s`: largest first as long as no
/// candidate covers the payment, and then the smallest candidate that does.
pub open spec fn is_selection(s: Seq<Utxo>, target: u64, rate: FeeRate, sel: Seq<Utxo>) -> bool {
    &&& sel.len() >= 1
    &&& greedy_prefix(s, target, rate, sel.drop_last())
    &&& is_candidate(s, sel.drop_last(), sel.last())
    &&& covers(sel.drop_last(), sel.last(), target, rate)
    &&& forall|v: Utxo|
        #![trigger is_candidate(s, sel.drop_last(), v)]
        is_candidate(s, sel.drop_last(), v) && covers(sel.drop_last(), v, target, rate)
            ==> v.outpoint == sel.last().outpoint || prefers_small(sel.last(), v)
}

/// `sub` holds spendable outputs of `s`, none of them twice.
pub open spec fn is_spendable_subset(s: Seq<Utxo>, sub: Seq<Utxo>) -> bool {
    &&& distinct_outpoints(sub)
    &&& forall|k: int|
        0 <= k < sub.len() ==> s.contains(#[trigger] sub[k]) && sub[k].spec_is_spendable()
}

/// Some spendable outputs of `s` cover the payment and the fee of spending
/// them.
pub open spec fn can_cover(s: Seq<Utxo>, target: u64, rate: FeeRate) -> bool {
    exists|sub: Seq<Utxo>| #[trigger]
        is_spendable_subset(s, sub) && sub.len() >= 1 && total_value(sub) >= target
            + rate.spec_fee(sub.len())
}

/// The spendable outputs of `s`, in the order of `s`.
pub open spec fn spendable_part(s: Seq<Utxo>) -> Seq<Utxo>
    decreases s.len(),
{
    if s.len() == 0 {
        s
    } else if s.last().spec_is_spendable() {
        spendable_part(s.drop_last()).push(s.last())
    } else {
        spendable_part(s.drop_last())
    }
}

/// What is reported as needed where the spendable outputs do not cover a
/// payment.
pub open spec fn needed_for(s: Seq<Utxo>, target: u64, rate: FeeRate) -> nat {
    let n = spendable_part(s).len();
    target as nat + rate.spec_fee(
        if n == 0 {
            1
        } else {
            n
        },
    )
}

/// The number of marks that are set.
pub open spec fn count_set(marks: Seq<bool>) -> nat
    decreases marks.len(),
{
    if marks.len() == 0 {
        0
    } else {
        count_set(marks.drop_last()) + if marks.last() {
            1nat
        } else {
            0nat
        }
    }
}

proof fn lemma_count_set_bound(marks: Seq<bool>)
    ensures
        count_set(marks) <= marks.len(),
    decreases marks.len(),
{
    if marks.len() > 0 {
        lemma_count_set_bound(marks.drop_last());
    }
}

proof fn lemma_count_set_update(marks: Seq<bool>, i: int)
    requires
        0 <= i < marks.len(),
        !marks[i],
    ensures
        count_set(marks.update(i, true)) == count_set(marks) + 1,
        count_set(marks) < marks.len(),
    decreases marks.len(),
{
    if i == marks.len() - 1 {
        assert(marks.update(i, true).drop_last() =~= marks.drop_last());
        lemma_count_set_bound(marks.drop_last());
    } else {
        lemma_count_set_update(marks.drop_last(), i);
        assert(marks.update(i, true).drop_last() =~= marks.drop_last().update(i, true));
    }
}

/// In a sequence without repeated outpoints, an outpoint names one output.
pub proof fn lemma_outpoint_names_one(s: Seq<Utxo>, a: Utxo, b: Utxo)
    requires
        distinct_outpoints(s),
        s.contains(a),
        s.contains(b),
        a.outpoint == b.outpoint,
    ensures
        a == b,
{
    let i = choose|i: int| 0 <= i < s.len() && s[i] == a;
    let j = choose|j: int| 0 <= j < s.len() && s[j] == b;
    if i != j {
        assert(s[i].outpoint != s[j].outpoint);
    }
}

proof fn lemma_has_outpoint_push(g: Seq<Utxo>, x: Utxo)
    ensures
        forall|o|
            #![trigger has_outpoint(g.push(x), o)]
            has_outpoint(g.push(x), o) <==> (has_outpoint(g, o) || o == x.outpoint),
{
    let gx = g.push(x);
    assert forall|o| #![trigger has_outpoint(gx, o)] has_outpoint(gx, o) <==> (has_outpoint(g, o)
        || o == x.outpoint) by {
        if has_outpoint(g, o) {
            let i = choose|i: int| 0 <= i < g.len() && (#[trigger] g[i]).outpoint == o;
            assert(gx[i].outpoint == o);
        }
        if o == x.outpoint {
            assert(gx[g.len() as int].outpoint == o);
        }
        if has_outpoint(gx, o) {
            let i = choose|i: int| 0 <= i < gx.len() && (#[trigger] gx[i]).outpoint == o;
            if i < g.len() {
                assert(g[i].outpoint == o);
            }
        }
    }
}

/// The first output and the rest make up the total.
proof fn lemma_total_first(s: Seq<Utxo>)
    requires
        s.len() > 0,
    ensures
        total_value(s) == s[0].value + total_value(s.subrange(1, s.len() as int)),
    decreases s.len(),
{
    let rest = s.subrange(1, s.len() as int);
    if s.len() == 1 {
        assert(s.drop_last() =~= Seq::<Utxo>::empty());
        assert(rest =~= Seq::<Utxo>::empty());
    } else {
        lemma_total_first(s.drop_last());
        assert(s.drop_last().subrange(1, s.len() - 1) =~= rest.drop_last());
        assert(rest.last() == s.last());
    }
}

/// The spendable part of a sequence holds spendable outputs of it, keeps
/// them distinct, and is worth no more than the sequence.
pub proof fn lemma_spendable_part(s: Seq<Utxo>)
    requires
        distinct_outpoints(s),
    ensures
        is_spendable_subset(s, spendable_part(s)),
        total_value(spendable_part(s)) <= total_value(s),
        spendable_part(s).len() <= s.len(),
    decreases s.len(),
{
    if s.len() > 0 {
        let init = s.drop_last();
        assert forall|a: int, b: int|
            0 <= a < init.len() && 0 <= b < init.len() && a != b implies (#[trigger] init[a]).outpoint
            != (#[trigger] init[b]).outpoint by {
            assert(s[a].outpoint != s[b].outpoint);
        }
        lemma_spendable_part(init);
        let sp = spendable_part(s);
        let spi = spendable_part(init);
        if s.last().spec_is_spendable() {
            assert(sp.drop_last() =~= spi);
        }
        assert forall|k: int| 0 <= k < sp.len() implies s.contains(#[trigger] sp[k])
            && sp[k].spec_is_spendable() by {
            if k < spi.len() {
                assert(init.contains(spi[k]));
                let j = choose|j: int| 0 <= j < init.len() && init[j] == spi[k];
                assert(s[j] == spi[k]);
            } else {
                assert(s[s.len() - 1] == sp[k]);
            }
        }
        assert forall|a: int, b: int|
            0 <= a < sp.len() && 0 <= b < sp.len() && a != b implies (#[trigger] sp[a]).outpoint
            != (#[trigger] sp[b]).outpoint by {
            if a < spi.len() && b < spi.len() {
                assert(spi[a].outpoint != spi[b].outpoint);
            } else {
                let x = if a < spi.len() {
                    a
                } else {
                    b
                };
                assert(init.contains(spi[x]));
                let j = choose|j: int| 0 <= j < init.len() && init[j] == spi[x];
                assert(s[j].outpoint != s[s.len() - 1].outpoint);
            }
        }
    }
}

/// Taking one output out of a set of spendable outputs leaves such a set.
proof fn lemma_subset_remove(s: Seq<Utxo>, sub: Seq<Utxo>, p: int)
    requires
        is_spendable_subset(s, sub),
        0 <= p < sub.len(),
    ensures
        is_spendable_subset(s, sub.remove(p)),
        !has_outpoint(sub.remove(p), sub[p].outpoint),
        forall|o| #[trigger] has_outpoint(sub.remove(p), o) ==> has_outpoint(sub, o),
{
    let r = sub.remove(p);
    assert forall|k: int| 0 <= k < r.len() implies s.contains(#[trigger] r[k])
        && r[k].spec_is_spendable() && r[k].outpoint != sub[p].outpoint by {
        if k < p {
            assert(r[k] == sub[k]);
            assert(sub[k].outpoint != sub[p].outpoint);
        } else {
            assert(r[k] == sub[k + 1]);
            assert(sub[k + 1].outpoint != sub[p].outpoint);
        }
    }
    assert forall|a: int, b: int|
        0 <= a < r.len() && 0 <= b < r.len() && a != b implies (#[trigger] r[a]).outpoint != (
    #[trigger] r[b]).outpoint by {
        let a2 = if a < p {
            a
        } else {
            a + 1
        };
        let b2 = if b < p {
            b
        } else {
            b + 1
        };
        assert(sub[a2].outpoint != sub[b2].outpoint);
    }
    assert forall|o| #[trigger] has_outpoint(r, o) implies has_outpoint(sub, o) by {
        let k = choose|k: int| 0 <= k < r.len() && (#[trigger] r[k]).outpoint == o;
        let k2 = if k < p {
            k
        } else {
            k + 1
        };
        assert(sub[k2].outpoint == o);
    }
}

/// No set of spendable outputs of `s` is larger, or worth more, than the
/// spendable part of `s`.
pub proof fn lemma_subset_bounded(s: Seq<Utxo>, sub: Seq<Utxo>)
    requires
        distinct_outpoints(s),
        is_spendable_subset(s, sub),
    ensures
        sub.len() <= spendable_part(s).len(),
        total_value(sub) <= total_value(spendable_part(s)),
    decreases s.len(),
{
    if s.len() == 0 {
        if sub.len() > 0 {
            assert(s.contains(sub[0]));
        }
    } else {
        let init = s.drop_last();
        let last = s.last();
        assert forall|a: int, b: int|
            0 <= a < init.len() && 0 <= b < init.len() && a != b implies (#[trigger] init[a]).outpoint
            != (#[trigger] init[b]).outpoint by {
            assert(s[a].outpoint != s[b].outpoint);
        }
        assert(s.contains(last)) by {
            assert(s[s.len() - 1] == last);
        }
        if last.spec_is_spendable() {
            assert(spendable_part(s).drop_last() =~= spendable_part(init));
        }
        let rest = if has_outpoint(sub, last.outpoint) {
            let p = choose|p: int| 0 <= p < sub.len() && (#[trigger] sub[p]).outpoint
                == last.outpoint;
            lemma_outpoint_names_one(s, sub[p], last);
            lemma_subset_remove(s, sub, p);
            lemma_total_remove(sub, p);
            sub.remove(p)
        } else {
            sub
        };
        assert forall|k: int| 0 <= k < rest.len() implies init.contains(#[trigger] rest[k]) by {
            assert(s.contains(rest[k]));
            let j = choose|j: int| 0 <= j < s.len() && s[j] == rest[k];
            assert(rest[k].outpoint != last.outpoint);
            assert(init[j] == rest[k]);
        }
        lemma_subset_bounded(init, rest);
    }
}

/// Where the largest-first order has taken every candidate without ever
/// covering the payment, any set of spendable outputs that holds none of the
/// first `t` picks is no larger than the picks that follow, and worth no
/// more than as many of them.
proof fn lemma_greedy_dominates(
    s: Seq<Utxo>,
    target: u64,
    rate: FeeRate,
    g: Seq<Utxo>,
    t: int,
    sub: Seq<Utxo>,
)
    requires
        distinct_outpoints(s),
        greedy_prefix(s, target, rate, g),
        forall|v: Utxo| !is_candidate(s, g, v),
        0 <= t <= g.len(),
        is_spendable_subset(s, sub),
        forall|k: int|
            0 <= k < sub.len() ==> !has_outpoint(g.subrange(0, t), (#[trigger] sub[k]).outpoint),
    ensures
        t + sub.len() <= g.len(),
        total_value(sub) <= total_value(g.subrange(t, t + sub.len())),
    decreases sub.len(),
{
    if sub.len() == 0 {
        assert(g.subrange(t, t) =~= Seq::<Utxo>::empty());
    } else {
        let x = sub.last();
        let before = g.subrange(0, t);
        assert(is_candidate(s, before, x)) by {
            assert(sub[sub.len() - 1] == x);
        }
        if t == g.len() {
            assert(before =~= g);
            assert(false);
        }
        let top = g[t];
        assert(is_largest_candidate(s, before, top));
        let upto = g.subrange(0, t + 1);
        assert(upto =~= before.push(top));
        lemma_has_outpoint_push(before, top);
        let rest = if has_outpoint(sub, top.outpoint) {
            let p = choose|p: int| 0 <= p < sub.len() && (#[trigger] sub[p]).outpoint
                == top.outpoint;
            lemma_outpoint_names_one(s, sub[p], top);
            lemma_subset_remove(s, sub, p);
            lemma_total_remove(sub, p);
            sub.remove(p)
        } else {
            assert(x.outpoint != top.outpoint);
            assert(prefers_large(top, x));
            assert forall|k: int| 0 <= k < sub.drop_last().len() implies (
            #[trigger] sub.drop_last()[k]).outpoint != top.outpoint by {
                assert(sub[k].outpoint != top.outpoint);
            }
            lemma_subset_remove(s, sub, sub.len() - 1);
            assert(sub.remove(sub.len() - 1) =~= sub.drop_last());
            sub.drop_last()
        };
        assert forall|k: int| 0 <= k < rest.len() implies !has_outpoint(
            upto,
            (#[trigger] rest[k]).outpoint,
        ) by {
            assert(has_outpoint(rest, rest[k].outpoint));
            assert(has_outpoint(sub, rest[k].outpoint));
            let j = choose|j: int| 0 <= j < sub.len() && (#[trigger] sub[j]).outpoint
                == rest[k].outpoint;
            assert(!has_outpoint(before, sub[j].outpoint));
        }
        lemma_greedy_dominates(s, target, rate, g, t + 1, rest);
        let range = g.subrange(t, t + sub.len());
        lemma_total_first(range);
        assert(range.subrange(1, range.len() as int) =~= g.subrange(t + 1, t + 1 + rest.len()));
    }
}

/// Where the largest-first order has taken every candidate without ever
/// covering the payment, no set of spendable outputs covers it, and the
/// picks are all that is spendable.
proof fn lemma_exhausted(s: Seq<Utxo>, target: u64, rate: FeeRate, g: Seq<Utxo>)
    requires
        distinct_outpoints(s),
        greedy_prefix(s, target, rate, g),
        is_spendable_subset(s, g),
        forall|v: Utxo| !is_candidate(s, g, v),
    ensures
        !can_cover(s, target, rate),
        g.len() == spendable_part(s).len(),
        total_value(g) == total_value(spendable_part(s)),
{
    assert forall|sub: Seq<Utxo>| #[trigger]
        is_spendable_subset(s, sub) && sub.len() >= 1 implies total_value(sub) < target
        + rate.spec_fee(sub.len()) by {
        assert(g.subrange(0, 0) =~= Seq::<Utxo>::empty());
        lemma_greedy_dominates(s, target, rate, g, 0, sub);
        let k = sub.len() - 1;
        let head = g.subrange(0, k);
        assert(is_largest_candidate(s, head, g[k]) && none_covers(s, head, target, rate));
        assert(!covers(head, g[k], target, rate));
        assert(g.subrange(0, k + 1).drop_last() =~= head);
    }
    let sp = spendable_part(s);
    lemma_spendable_part(s);
    lemma_subset_bounded(s, g);
    assert(g.subrange(0, 0) =~= Seq::<Utxo>::empty());
    lemma_greedy_dominates(s, target, rate, g, 0, sp);
    assert(g.subrange(0, g.len() as int) =~= g);
}

/// Where the spendable outputs together cover the payment and the fee of
/// spending every one of them, the payment can be covered: the selector
/// succeeds.
pub proof fn lemma_all_cover(s: Seq<Utxo>, target: u64, rate: FeeRate)
    requires
        distinct_outpoints(s),
        spendable_part(s).len() >= 1,
        total_value(spendable_part(s)) >= target + rate.spec_fee(spendable_part(s).len()),
    ensures
        can_cover(s, target, rate),
{
    lemma_spendable_part(s);
    assert(is_spendable_subset(s, spendable_part(s)));
}

/// Where the spendable outputs together do not even cover the payment and
/// the fee of a transaction with one input, the payment cannot be covered:
/// the selector fails.
pub proof fn lemma_too_little_fails(s: Seq<Utxo>, target: u64, rate: FeeRate)
    requires
        distinct_outpoints(s),
        total_value(spendable_part(s)) < target + rate.spec_fee(1),
    ensures
        !can_cover(s, target, rate),
{
    assert forall|sub: Seq<Utxo>| #[trigger]
        is_spendable_subset(s, sub) && sub.len() >= 1 implies total_value(sub) < target
        + rate.spec_fee(sub.len()) by {
        lemma_subset_bounded(s, sub);
        crate::fee::lemma_fee_monotonic(rate, 1, sub.len());
    }
}

/// What the selector picks covers the payment and the fee of spending it,
/// and is made of spendable outputs of the wallet, none of them twice.
pub proof fn lemma_selection_covers(s: Seq<Utxo>, target: u64, rate: FeeRate, sel: Seq<Utxo>)
    requires
        is_selection(s, target, rate, sel),
    ensures
        total_value(sel) >= target + rate.spec_fee(sel.len()),
        forall|k: int| 0 <= k < sel.len() ==> s.contains(#[trigger] sel[k]) && sel[k].spec_is_spendable(),
{
    let head = sel.drop_last();
    assert(total_value(sel) == total_value(head) + sel.last().value);
    assert forall|k: int| 0 <= k < sel.len() implies s.contains(#[trigger] sel[k])
        && sel[k].spec_is_spendable() by {
        if k < head.len() {
            assert(head[k] == sel[k]);
            assert(is_largest_candidate(s, head.subrange(0, k), head[k]));
        }
    }
}

/// The selector's choice is determined: two selections from the same
/// outputs, for the same payment at the same fee rate, agree up to any
/// position that both have.
proof fn lemma_selection_agrees(
    s: Seq<Utxo>,
    target: u64,
    rate: FeeRate,
    a: Seq<Utxo>,
    b: Seq<Utxo>,
    n: int,
)
    requires
        distinct_outpoints(s),
        is_selection(s, target, rate, a),
        is_selection(s, target, rate, b),
        0 <= n <= a.len(),
        n <= b.len(),
    ensures
        a.subrange(0, n) == b.subrange(0, n),
        n == a.len() || n == b.len() ==> a.len() == b.len(),
    decreases n,
{
    if n == 0 {
        assert(a.subrange(0, 0) =~= b.subrange(0, 0));
    } else {
        lemma_selection_agrees(s, target, rate, a, b, n - 1);
        let k = n - 1;
        let head = a.subrange(0, k);
        assert(head == b.subrange(0, k));
        let a_last = k == a.len() - 1;
        let b_last = k == b.len() - 1;
        assert(a.drop_last().subrange(0, k) =~= head) by {
            if !a_last {
                assert(a.drop_last()[k] == a[k]);
            }
        }
        assert(b.drop_last().subrange(0, k) =~= head) by {
            if !b_last {
                assert(b.drop_last()[k] == b[k]);
            }
        }
        if a_last {
            assert(a.drop_last() =~= head);
        } else {
            assert(a.drop_last()[k] == a[k]);
            assert(is_largest_candidate(s, head, a[k]) && none_covers(s, head, target, rate));
        }
        if b_last {
            assert(b.drop_last() =~= head);
        } else {
            assert(b.drop_last()[k] == b[k]);
            assert(is_largest_candidate(s, head, b[k]) && none_covers(s, head, target, rate));
        }
        assert(is_candidate(s, head, a[k]));
        assert(is_candidate(s, head, b[k]));
        assert(a_last == b_last);
        crate::primitives::lemma_outpoint_order(a[k].outpoint, b[k].outpoint, a[k].outpoint);
        assert(a[k].outpoint == b[k].outpoint);
        lemma_outpoint_names_one(s, a[k], b[k]);
        assert(a.subrange(0, n) =~= head.push(a[k]));
        assert(b.subrange(0, n) =~= head.push(b[k]));
    }
}

/// There is one selection at most: what the selector picks is a function
/// of the outputs, the payment and the fee rate.
pub proof fn lemma_selection_unique(
    s: Seq<Utxo>,
    target: u64,
    rate: FeeRate,
    a: Seq<Utxo>,
    b: Seq<Utxo>,
)
    requires
        distinct_outpoints(s),
        is_selection(s, target, rate, a),
        is_selection(s, target, rate, b),
    ensures
        a == b,
{
    let n = if a.len() <= b.len() {
        a.len() as int
    } else {
        b.len() as int
    };
    lemma_selection_agrees(s, target, rate, a, b, n);
    assert(a.subrange(0, a.len() as int) =~= a);
    assert(b.subrange(0, b.len() as int) =~= b);
}

/// The selection from the outputs `s`, where there is one.
pub open spec fn spec_selection(s: Seq<Utxo>, target: u64, rate: FeeRate) -> Seq<Utxo> {
    choose|sel: Seq<Utxo>| is_selection(s, target, rate, sel)
}

/// The largest candidate among the outputs that are not marked.
fn find_largest(items: &Vec<Utxo>, taken: &Vec<bool>) -> (r: Option<usize>)
    requires
        taken@.len() == items@.len(),
        distinct_outpoints(items@),
    ensures
        match r {
            Some(i) => {
                &&& i < items@.len()
                &&& !taken@[i as int]
                &&& items@[i as int].spec_is_spendable()
                &&& forall|j: int|
                    0 <= j < items@.len() && j != i && !taken@[j]
                        && (#[trigger] items@[j]).spec_is_spendable() ==> prefers_large(
                        items@[i as int],
                        items@[j],
                    )
            },
            None => forall|j: int|
                0 <= j < items@.len() ==> taken@[j] || !(#[trigger] items@[j]).spec_is_spendable(),
        },
{
    let mut best: Option<usize> = None;
    let mut j: usize = 0;
    while j < items.len()
        invariant
            j <= items@.len(),
            taken@.len() == items@.len(),
            distinct_outpoints(items@),
            match best {
                Some(i) => {
                    &&& i < j
                    &&& !taken@[i as int]
                    &&& items@[i as int].spec_is_spendable()
                    &&& forall|k: int|
                        0 <= k < j && k != i && !taken@[k]
                            && (#[trigger] items@[k]).spec_is_spendable() ==> prefers_large(
                            items@[i as int],
                            items@[k],
                        )
                },
                None => forall|k: int|
                    0 <= k < j ==> taken@[k] || !(#[trigger] items@[k]).spec_is_spendable(),
            },
        decreases items@.len() - j,
    {
        let u = items[j];
        if !taken[j] && u.is_spendable() {
            match best {
                None => {
                    best = Some(j);
                },
                Some(i) => {
                    let b = items[i];
                    assert(items@[i as int].outpoint != items@[j as int].outpoint);
                    if u.value > b.value || (u.value == b.value && u.outpoint.precedes(
                        b.outpoint,
                    )) {
                        best = Some(j);
                    }
                },
            }
        }
        j += 1;
    }
    best
}

/// The smallest candidate, among the outputs that are not marked, that
/// together with `acc` reaches `goal`.
fn find_smallest_reaching(items: &Vec<Utxo>, taken: &Vec<bool>, acc: u64, goal: u128) -> (r:
    Option<usize>)
    requires
        taken@.len() == items@.len(),
        distinct_outpoints(items@),
    ensures
        match r {
            Some(i) => {
                &&& i < items@.len()
                &&& !taken@[i as int]
                &&& items@[i as int].spec_is_spendable()
                &&& acc + items@[i as int].value >= goal
                &&& forall|j: int|
                    0 <= j < items@.len() && j != i && !taken@[j]
                        && (#[trigger] items@[j]).spec_is_spendable() && acc + items@[j].value
                        >= goal ==> prefers_small(items@[i as int], items@[j])
            },
            None => forall|j: int|
                0 <= j < items@.len() && !taken@[j] && (#[trigger] items@[j]).spec_is_spendable()
                    ==> acc + items@[j].value < goal,
        },
{
    let mut best: Option<usize> = None;
    let mut j: usize = 0;
    while j < items.len()
        invariant
            j <= items@.len(),
            taken@.len() == items@.len(),
            distinct_outpoints(items@),
            match best {
                Some(i) => {
                    &&& i < j
                    &&& !taken@[i as int]
                    &&& items@[i as int].spec_is_spendable()
                    &&& acc + items@[i as int].value >= goal
                    &&& forall|k: int|
                        0 <= k < j && k != i && !taken@[k]
                            && (#[trigger] items@[k]).spec_is_spendable() && acc + items@[k].value
                            >= goal ==> prefers_small(items@[i as int], items@[k])
                },
                None => forall|k: int|
                    0 <= k < j && !taken@[k] && (#[trigger] items@[k]).spec_is_spendable() ==> acc
                        + items@[k].value < goal,
            },
        decreases items@.len() - j,
    {
        let u = items[j];
        if !taken[j] && u.is_spendable() && acc as u128 + u.value as u128 >= goal {
            match best {
                None => {
                    best = Some(j);
                },
                Some(i) => {
                    let b = items[i];
                    assert(items@[i as int].outpoint != items@[j as int].outpoint);
                    if u.value < b.value || (u.value == b.value && u.outpoint.precedes(
                        b.outpoint,
                    )) {
                        best = Some(j);
                    }
                },
            }
        }
        j += 1;
    }
    best
}

/// The marks tell which outputs of `s` are among the picked ones.
spec fn marks_match(s: Seq<Utxo>, taken: Seq<bool>, picked: Seq<Utxo>) -> bool {
    &&& taken.len() == s.len()
    &&& forall|j: int|
        0 <= j < s.len() ==> (#[trigger] taken[j] <==> has_outpoint(picked, s[j].outpoint))
}

/// A candidate stands at a position that is not marked.
proof fn lemma_candidate_position(s: Seq<Utxo>, taken: Seq<bool>, picked: Seq<Utxo>, v: Utxo) -> (j:
    int)
    requires
        marks_match(s, taken, picked),
        is_candidate(s, picked, v),
    ensures
        0 <= j < s.len(),
        s[j] == v,
        !taken[j],
{
    let j = choose|j: int| 0 <= j < s.len() && s[j] == v;
    assert(taken[j] <==> has_outpoint(picked, s[j].outpoint));
    j
}

/// Picking the output at a position that is not marked, and marking it,
/// keeps the marks right and the picked outputs a set of spendable outputs.
proof fn lemma_pick(s: Seq<Utxo>, taken: Seq<bool>, picked: Seq<Utxo>, i: int)
    requires
        distinct_outpoints(s),
        marks_match(s, taken, picked),
        is_spendable_subset(s, picked),
        0 <= i < s.len(),
        !taken[i],
        s[i].spec_is_spendable(),
    ensures
        is_candidate(s, picked, s[i]),
        marks_match(s, taken.update(i, true), picked.push(s[i])),
        is_spendable_subset(s, picked.push(s[i])),
        total_value(picked.push(s[i])) == total_value(picked) + s[i].value,
{
    let u = s[i];
    let next = picked.push(u);
    lemma_has_outpoint_push(picked, u);
    assert(taken[i] <==> has_outpoint(picked, s[i].outpoint));
    assert forall|j: int| 0 <= j < s.len() implies (#[trigger] taken.update(i, true)[j]
        <==> has_outpoint(next, s[j].outpoint)) by {
        assert(taken[j] <==> has_outpoint(picked, s[j].outpoint));
        if j != i {
            assert(s[j].outpoint != s[i].outpoint);
        }
    }
    assert forall|a: int, b: int|
        0 <= a < next.len() && 0 <= b < next.len() && a != b implies (#[trigger] next[a]).outpoint
        != (#[trigger] next[b]).outpoint by {
        if a < picked.len() && b < picked.len() {
            assert(picked[a].outpoint != picked[b].outpoint);
        } else {
            let x = if a < picked.len() {
                a
            } else {
                b
            };
            assert(picked[x].outpoint != u.outpoint);
        }
    }
    assert forall|k: int| 0 <= k < next.len() implies s.contains(#[trigger] next[k])
        && next[k].spec_is_spendable() by {
        if k < picked.len() {
            assert(next[k] == picked[k]);
        }
    }
    assert(next.drop_last() =~= picked);
}

/// One more output, picked as the largest candidate while none covers the
/// payment, extends the largest-first order.
proof fn lemma_greedy_push(s: Seq<Utxo>, target: u64, rate: FeeRate, g: Seq<Utxo>, u: Utxo)
    requires
        greedy_prefix(s, target, rate, g),
        is_largest_candidate(s, g, u),
        none_covers(s, g, target, rate),
    ensures
        greedy_prefix(s, target, rate, g.push(u)),
{
    let next = g.push(u);
    assert forall|k: int| #![trigger next[k]] 0 <= k < next.len() implies is_largest_candidate(
        s,
        next.subrange(0, k),
        next[k],
    ) && none_covers(s, next.subrange(0, k), target, rate) by {
        if k < g.len() {
            assert(next.subrange(0, k) =~= g.subrange(0, k));
            assert(next[k] == g[k]);
        } else {
            assert(next.subrange(0, k) =~= g);
        }
    }
}

/// Chooses the outputs that pay `target` satoshis and the fee of the
/// transaction that spends them.
///
/// Only spendable outputs are chosen: confirmed ones that no signed
/// transaction of the wallet spends already. The selector takes the largest
/// of them, again and again, for as long as none of those left covers what
/// is missing; as soon as some do, it takes the smallest of these and is
/// done. It fails exactly where no set of spendable outputs covers the
/// payment together with the fee of spending that set.
pub fn select(utxos: &UtxoSet, target: u64, fee_rate: FeeRate) -> (r: Result<
    Selection,
    InsufficientFunds,
>)
    requires
        utxos.wf(),
    ensures
        r is Ok <==> can_cover(utxos@, target, fee_rate),
        match r {
            Ok(sel) => {
                &&& is_selection(utxos@, target, fee_rate, sel.inputs@)
                &&& sel.inputs@ == spec_selection(utxos@, target, fee_rate)
                &&& is_spendable_subset(utxos@, sel.inputs@)
                &&& sel.target == target
                &&& sel.fee == fee_rate.spec_fee(sel.inputs@.len())
                &&& sel.total == total_value(sel.inputs@)
                &&& sel.total >= target + sel.fee
                &&& sel.total <= MAX_MONEY
            },
            Err(e) => {
                &&& e.available == total_value(spendable_part(utxos@))
                &&& e.needed == needed_for(utxos@, target, fee_rate)
                &&& spendable_part(utxos@).len() > 0 ==> e.available < e.needed
            },
        },
{
    let items = utxos.items();
    let n = items.len();
    let mut taken: Vec<bool> = Vec::new();
    while taken.len() < n
        invariant
            taken@.len() <= n,
            forall|j: int| 0 <= j < taken@.len() ==> !(#[trigger] taken@[j]),
            count_set(taken@) == 0,
        decreases n - taken@.len(),
    {
        let ghost before = taken@;
        taken.push(false);
        assert(taken@.drop_last() =~= before);
    }
    let mut inputs: Vec<Utxo> = Vec::new();
    let mut acc: u64 = 0;
    proof {
        lemma_spendable_part(items@);
    }
    loop
        invariant
            items@ == utxos@,
            n == items@.len(),
            distinct_outpoints(items@),
            total_value(spendable_part(items@)) <= MAX_MONEY,
            marks_match(items@, taken@, inputs@),
            is_spendable_subset(items@, inputs@),
            greedy_prefix(items@, target, fee_rate, inputs@),
            acc == total_value(inputs@),
            count_set(taken@) == inputs@.len(),
        decreases items@.len() - inputs@.len(),
    {
        proof {
            lemma_count_set_bound(taken@);
        }
        match find_largest(items, &taken) {
            None => {
                proof {
                    assert forall|v: Utxo| !is_candidate(items@, inputs@, v) by {
                        if is_candidate(items@, inputs@, v) {
                            let j = lemma_candidate_position(items@, taken@, inputs@, v);
                            assert(items@[j].spec_is_spendable());
                        }
                    }
                    lemma_exhausted(items@, target, fee_rate, inputs@);
                    if inputs@.len() > 0 {
                        let k = inputs@.len() - 1;
                        let head = inputs@.subrange(0, k);
                        assert(is_largest_candidate(items@, head, inputs@[k]) && none_covers(
                            items@,
                            head,
                            target,
                            fee_rate,
                        ));
                        assert(!covers(head, inputs@[k], target, fee_rate));
                        assert(inputs@.drop_last() =~= head);
                    }
                }
                let k = if inputs.len() == 0 {
                    1
                } else {
                    inputs.len()
                };
                let needed = target as u128 + fee_rate.fee(k);
                return Err(InsufficientFunds { needed, available: acc });
            },
            Some(j) => {
                proof {
                    lemma_count_set_update(taken@, j as int);
                    assert(inputs@.len() < n);
                }
                let fee = fee_rate.fee(inputs.len() + 1);
                let goal = target as u128 + fee;
                match find_smallest_reaching(items, &taken, acc, goal) {
                    Some(i) => {
                        let u = items[i];
                        let ghost head = inputs@;
                        proof {
                            lemma_pick(items@, taken@, head, i as int);
                            lemma_subset_bounded(items@, head.push(u));
                            assert forall|v: Utxo|
                                #![trigger is_candidate(items@, head, v)]
                                is_candidate(items@, head, v) && covers(
                                    head,
                                    v,
                                    target,
                                    fee_rate,
                                ) implies v.outpoint == u.outpoint || prefers_small(u, v) by {
                                let p = lemma_candidate_position(items@, taken@, head, v);
                                assert(items@[p].spec_is_spendable());
                            }
                        }
                        inputs.push(u);
                        proof {
                            assert(inputs@.drop_last() =~= head);
                            assert(is_selection(items@, target, fee_rate, inputs@));
                            lemma_selection_unique(
                                items@,
                                target,
                                fee_rate,
                                inputs@,
                                spec_selection(items@, target, fee_rate),
                            );
                            assert(is_spendable_subset(items@, inputs@) && inputs@.len() >= 1
                                && total_value(inputs@) >= target + fee_rate.spec_fee(
                                inputs@.len(),
                            ));
                        }
                        return Ok(
                            Selection { inputs, fee: fee as u64, total: acc + u.value, target },
                        );
                    },
                    None => {
                        let u = items[j];
                        let ghost head = inputs@;
                        proof {
                            lemma_pick(items@, taken@, head, j as int);
                            lemma_subset_bounded(items@, head.push(u));
                            assert forall|v: Utxo| #[trigger]
                                is_candidate(items@, head, v) implies (v.outpoint == u.outpoint
                                || prefers_large(u, v)) && !covers(head, v, target, fee_rate) by {
                                let p = lemma_candidate_position(items@, taken@, head, v);
                                assert(items@[p].spec_is_spendable());
                            }
                            lemma_greedy_push(items@, target, fee_rate, head, u);
                        }
                        taken.set(j, true);
                        inputs.push(u);
                        acc = acc + u.value;
                    },
                }
            },
        }
    }
}

} // verus!
