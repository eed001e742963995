//! The wallet's view of the chain: which outputs are unspent, how much is
//! confirmed, and how far along its two chains of addresses the wallet has
//! been used.
//!
//! The tracker never talks to a chain source. Whoever does hands it what
//! came back, and the tracker takes it in as a whole or not at all.

use crate::keys::HARDENED;
use crate::primitives::{
    has_outpoint, total_value, Branch, OutPoint, Utxo, MAX_MONEY,
};
use crate::utxo_set::{
    confirmed_value, lemma_confirmed_split, with_height, with_pending, without, UtxoSet,
};
use vstd::prelude::*;

verus! {

/// How many unused addresses beyond the last used one a wallet watches,
/// unless it is told otherwise.
pub const DEFAULT_GAP_LIMIT: u32 = 20;

/// What a chain source says of one output that pays an address of the
/// wallet.
#[derive(Clone, Copy, Debug)]
pub struct ChainOutput {
    pub outpoint: OutPoint,
    pub value: u64,
    /// The chain and the index of the address that the output pays.
    pub branch: Branch,
    pub index: u32,
    pub program: [u8; 20],
    /// The height of the block that holds the output, if one does.
    pub height: Option<u32>,
    /// Whether the output has been spent.
    pub spent: bool,
}

/// What came back from the chain source.
pub enum ChainReply {
    /// The source could not be reached.
    Unreachable,
    /// The outputs that pay the scripts asked about.
    Outputs(Vec<ChainOutput>),
}

/// Why a synchronisation changed nothing.
#[derive(Clone, Copy, PartialEq, Eq, Structural, Debug)]
pub enum SyncError {
    /// The chain source could not be reached. Trying again later is in
    /// order.
    ChainUnavailable,
    /// What the source sent cannot be true of a chain: an address index out
    /// of range, or more money than there is.
    InvalidChainData,
}

/// What a synchronisation did.
#[derive(Clone, Copy, PartialEq, Eq, Structural, Debug)]
pub struct SyncReport {
    /// The number of unspent outputs before and after.
    pub known_before: usize,
    pub known_after: usize,
    /// The confirmed balance after.
    pub balance: u64,
    /// The number of used addresses, after, on either chain.
    pub receive_frontier: u32,
    pub change_frontier: u32,
}

/// What a tracker is.
pub struct TrackerView {
    pub utxos: Seq<Utxo>,
    /// The number of addresses of the receive chain known to be used: one
    /// more than the highest index seen.
    pub receive_frontier: u32,
    /// The same for the change chain.
    pub change_frontier: u32,
    pub gap_limit: u32,
}

/// The unspent output that a report of the chain source describes.
pub open spec fn utxo_of(c: ChainOutput) -> Utxo {
    Utxo {
        outpoint: c.outpoint,
        value: c.value,
        branch: c.branch,
        index: c.index,
        program: c.program,
        height: c.height,
        pending_spend: false,
    }
}

/// The outputs after one report: a spent output leaves, a known one gets
/// the height reported, a new one is added at the end. `None` for a report
/// that cannot be true.
pub open spec fn apply_output(s: Seq<Utxo>, c: ChainOutput) -> Option<Seq<Utxo>> {
    if c.index >= HARDENED {
        None
    } else if c.spent {
        Some(without(s, c.outpoint))
    } else if has_outpoint(s, c.outpoint) {
        Some(with_height(s, c.outpoint, c.height))
    } else if total_value(s) + c.value > MAX_MONEY {
        None
    } else {
        Some(s.push(utxo_of(c)))
    }
}

/// The outputs after a sequence of reports, taken in order.
pub open spec fn apply_outputs(s: Seq<Utxo>, reports: Seq<ChainOutput>) -> Option<Seq<Utxo>>
    decreases reports.len(),
{
    if reports.len() == 0 {
        Some(s)
    } else {
        match apply_outputs(s, reports.drop_last()) {
            Some(t) => apply_output(t, reports.last()),
            None => None,
        }
    }
}

/// The frontier of a chain after a sequence of reports: every report of an
/// address at or beyond the frontier moves the frontier just behind it.
pub open spec fn frontier_after(frontier: u32, branch: Branch, reports: Seq<ChainOutput>) -> u32
    decreases reports.len(),
{
    if reports.len() == 0 {
        frontier
    } else {
        let before = frontier_after(frontier, branch, reports.drop_last());
        let c = reports.last();
        if c.branch == branch && c.index >= before && c.index < HARDENED {
            (c.index + 1) as u32
        } else {
            before
        }
    }
}

/// The tracker after a synchronisation that the chain source answered.
pub open spec fn synced(v: TrackerView, reports: Seq<ChainOutput>) -> Option<TrackerView> {
    match apply_outputs(v.utxos, reports) {
        Some(utxos) => Some(
            TrackerView {
                utxos: utxos,
                receive_frontier: frontier_after(v.receive_frontier, Branch::Receive, reports),
                change_frontier: frontier_after(v.change_frontier, Branch::Change, reports),
                gap_limit: v.gap_limit,
            },
        ),
        None => None,
    }
}

/// The number of addresses of a chain to ask the chain source about: all
/// used ones and the gap behind them.
pub open spec fn spec_window(frontier: u32, gap_limit: u32) -> u32 {
    if frontier + gap_limit > HARDENED {
        HARDENED
    } else {
        (frontier + gap_limit) as u32
    }
}

/// The number of addresses to watch on a chain with the given frontier.
pub fn lookahead(frontier: u32, gap_limit: u32) -> (r: u32)
    ensures
        r == spec_window(frontier, gap_limit),
{
    match frontier.checked_add(gap_limit) {
        Some(w) => if w > HARDENED {
            HARDENED
        } else {
            w
        },
        None => HARDENED,
    }
}

/// A report that cannot be applied makes the whole sequence fail.
proof fn lemma_apply_failure_stays(s: Seq<Utxo>, reports: Seq<ChainOutput>, n: int)
    requires
        0 <= n <= reports.len(),
        apply_outputs(s, reports.subrange(0, n)) is None,
    ensures
        apply_outputs(s, reports) is None,
    decreases reports.len() - n,
{
    if n == reports.len() {
        assert(reports.subrange(0, n) =~= reports);
    } else {
        assert(reports.subrange(0, n + 1).drop_last() =~= reports.subrange(0, n));
        lemma_apply_failure_stays(s, reports, n + 1);
    }
}

/// The frontier never moves back, and stays in the range of indices.
pub proof fn lemma_frontier_advances(frontier: u32, branch: Branch, reports: Seq<ChainOutput>)
    requires
        frontier <= HARDENED,
    ensures
        frontier <= frontier_after(frontier, branch, reports) <= HARDENED,
        forall|i: int|
            0 <= i < reports.len() && (#[trigger] reports[i]).branch == branch && reports[i].index
                < HARDENED ==> reports[i].index < frontier_after(frontier, branch, reports),
    decreases reports.len(),
{
    if reports.len() > 0 {
        lemma_frontier_advances(frontier, branch, reports.drop_last());
        assert forall|i: int|
            0 <= i < reports.len() && (#[trigger] reports[i]).branch == branch && reports[i].index
                < HARDENED implies reports[i].index < frontier_after(frontier, branch, reports) by {
            if i < reports.len() - 1 {
                assert(reports.drop_last()[i] == reports[i]);
            }
        }
    }
}

/// The outputs of a wallet and the frontiers of its two chains.
pub struct UtxoTracker {
    utxos: UtxoSet,
    receive_frontier: u32,
    change_frontier: u32,
    gap_limit: u32,
}

impl View for UtxoTracker {
    type V = TrackerView;

    closed spec fn view(&self) -> TrackerView {
        TrackerView {
            utxos: self.utxos@,
            receive_frontier: self.receive_frontier,
            change_frontier: self.change_frontier,
            gap_limit: self.gap_limit,
        }
    }
}

impl UtxoTracker {
    /// The set of outputs is well formed behind the view.
    pub closed spec fn set_wf(&self) -> bool {
        self.utxos.wf()
    }

    /// What holds of every tracker.
    pub open spec fn wf(&self) -> bool {
        &&& self.set_wf()
        &&& crate::primitives::distinct_outpoints(self@.utxos)
        &&& total_value(self@.utxos) <= MAX_MONEY
        &&& self@.receive_frontier <= HARDENED
        &&& self@.change_frontier <= HARDENED
    }

    /// A tracker that knows of no output and of no used address.
    pub fn new(gap_limit: u32) -> (r: UtxoTracker)
        ensures
            r.wf(),
            r@ == (TrackerView {
                utxos: Seq::<Utxo>::empty(),
                receive_frontier: 0,
                change_frontier: 0,
                gap_limit: gap_limit,
            }),
    {
        UtxoTracker { utxos: UtxoSet::new(), receive_frontier: 0, change_frontier: 0, gap_limit }
    }

    /// A tracker made of its parts, where the frontiers are in the range of
    /// indices.
    pub fn from_parts(
        utxos: UtxoSet,
        receive_frontier: u32,
        change_frontier: u32,
        gap_limit: u32,
    ) -> (r: Option<UtxoTracker>)
        requires
            utxos.wf(),
        ensures
            r is Some <==> receive_frontier <= HARDENED && change_frontier <= HARDENED,
            r matches Some(t) ==> t.wf() && t@ == (TrackerView {
                utxos: utxos@,
                receive_frontier: receive_frontier,
                change_frontier: change_frontier,
                gap_limit: gap_limit,
            }),
    {
        if receive_frontier > HARDENED || change_frontier > HARDENED {
            return None;
        }
        Some(UtxoTracker { utxos, receive_frontier, change_frontier, gap_limit })
    }

    /// How many unused addresses beyond the last used one are watched.
    pub fn gap_limit(&self) -> (r: u32)
        ensures
            r == self@.gap_limit,
    {
        self.gap_limit
    }

    /// The outputs that the tracker holds.
    pub fn utxos(&self) -> (r: &UtxoSet)
        ensures
            r@ == self@.utxos,
            self.wf() ==> r.wf(),
    {
        &self.utxos
    }

    /// The number of addresses of a chain that are known to be used.
    pub fn frontier(&self, branch: Branch) -> (r: u32)
        ensures
            r == match branch {
                Branch::Receive => self@.receive_frontier,
                Branch::Change => self@.change_frontier,
            },
    {
        match branch {
            Branch::Receive => self.receive_frontier,
            Branch::Change => self.change_frontier,
        }
    }

    /// The number of addresses of a chain to ask the chain source about:
    /// the used ones and as many more as the gap limit says.
    pub fn window(&self, branch: Branch) -> (r: u32)
        ensures
            r == spec_window(
                match branch {
                    Branch::Receive => self@.receive_frontier,
                    Branch::Change => self@.change_frontier,
                },
                self@.gap_limit,
            ),
    {
        lookahead(self.frontier(branch), self.gap_limit)
    }

    /// The spendable balance: the sum of the values of the confirmed
    /// outputs.
    pub fn balance(&self) -> (r: u64)
        requires
            self.wf(),
        ensures
            r == confirmed_value(self@.utxos),
    {
        self.utxos.confirmed_total()
    }

    /// The balance with the outputs that are not confirmed yet.
    pub fn balance_with_unconfirmed(&self) -> (r: u64)
        requires
            self.wf(),
        ensures
            r == total_value(self@.utxos),
            r >= confirmed_value(self@.utxos),
    {
        proof {
            lemma_confirmed_split(self.utxos@);
        }
        self.utxos.total()
    }

    /// Marks outputs as spent by a transaction that the wallet has signed.
    /// The selector passes them over from now on.
    pub fn mark_pending(&mut self, outpoints: &Vec<OutPoint>)
        requires
            old(self).wf(),
        ensures
            final(self).wf(),
            final(self)@ == (TrackerView {
                utxos: with_pending(old(self)@.utxos, outpoints@, true),
                ..old(self)@
            }),
    {
        self.utxos.set_pending(outpoints, true);
    }

    /// Takes the mark off outputs again: the transaction that spent them
    /// was given up.
    pub fn release(&mut self, outpoints: &Vec<OutPoint>)
        requires
            old(self).wf(),
        ensures
            final(self).wf(),
            final(self)@ == (TrackerView {
                utxos: with_pending(old(self)@.utxos, outpoints@, false),
                ..old(self)@
            }),
    {
        self.utxos.set_pending(outpoints, false);
    }

    /// Takes in what a chain source answered.
    ///
    /// Outputs that are new are added, outputs that are spent by now are
    /// removed, known outputs get the height reported, and the frontier of
    /// a chain moves behind every address of it that was used. Where the
    /// source could not be reached, or where what it sent cannot be true,
    /// the tracker is left exactly as it was.
    pub fn apply_sync(&mut self, reply: &ChainReply) -> (r: Result<SyncReport, SyncError>)
        requires
            old(self).wf(),
        ensures
            final(self).wf(),
            match *reply {
                ChainReply::Unreachable => r == Err::<SyncReport, SyncError>(
                    SyncError::ChainUnavailable,
                ) && final(self)@ == old(self)@,
                ChainReply::Outputs(reports) => match synced(old(self)@, reports@) {
                    None => r == Err::<SyncReport, SyncError>(SyncError::InvalidChainData)
                        && final(self)@ == old(self)@,
                    Some(after) => {
                        &&& final(self)@ == after
                        &&& r matches Ok(report)
                        &&& report.known_before == old(self)@.utxos.len()
                        &&& report.known_after == after.utxos.len()
                        &&& report.balance == confirmed_value(after.utxos)
                        &&& report.receive_frontier == after.receive_frontier
                        &&& report.change_frontier == after.change_frontier
                    },
                },
            },
    {
        let reports = match reply {
            ChainReply::Unreachable => {
                return Err(SyncError::ChainUnavailable);
            },
            ChainReply::Outputs(reports) => reports,
        };
        let mut next = self.utxos.duplicate();
        let mut receive = self.receive_frontier;
        let mut change = self.change_frontier;
        let mut i: usize = 0;
        while i < reports.len()
            invariant
                *self == *old(self),
                old(self).wf(),
                *reply == ChainReply::Outputs(*reports),
                i <= reports@.len(),
                next.wf(),
                receive <= HARDENED,
                change <= HARDENED,
                apply_outputs(self.utxos@, reports@.subrange(0, i as int)) == Some(next@),
                receive == frontier_after(
                    self.receive_frontier,
                    Branch::Receive,
                    reports@.subrange(0, i as int),
                ),
                change == frontier_after(
                    self.change_frontier,
                    Branch::Change,
                    reports@.subrange(0, i as int),
                ),
            decreases reports@.len() - i,
        {
            let c = reports[i];
            proof {
                assert(reports@.subrange(0, i as int + 1).drop_last() =~= reports@.subrange(
                    0,
                    i as int,
                ));
            }
            if c.index >= HARDENED {
                proof {
                    lemma_apply_failure_stays(self.utxos@, reports@, i as int + 1);
                }
                return Err(SyncError::InvalidChainData);
            }
            if c.spent {
                next.remove(c.outpoint);
            } else if next.contains(c.outpoint) {
                next.set_height(c.outpoint, c.height);
            } else {
                let fresh = Utxo {
                    outpoint: c.outpoint,
                    value: c.value,
                    branch: c.branch,
                    index: c.index,
                    program: c.program,
                    height: c.height,
                    pending_spend: false,
                };
                match next.insert(fresh) {
                    Ok(()) => {},
                    Err(_) => {
                        proof {
                            lemma_apply_failure_stays(self.utxos@, reports@, i as int + 1);
                        }
                        return Err(SyncError::InvalidChainData);
                    },
                }
            }
            match c.branch {
                Branch::Receive => {
                    if c.index >= receive {
                        receive = c.index + 1;
                    }
                },
                Branch::Change => {
                    if c.index >= change {
                        change = c.index + 1;
                    }
                },
            }
            i += 1;
        }
        proof {
            assert(reports@.subrange(0, reports@.len() as int) =~= reports@);
            lemma_frontier_advances(self.receive_frontier, Branch::Receive, reports@);
            lemma_frontier_advances(self.change_frontier, Branch::Change, reports@);
        }
        let known_before = self.utxos.len();
        let known_after = next.len();
        let balance = next.confirmed_total();
        self.utxos = next;
        self.receive_frontier = receive;
        self.change_frontier = change;
        Ok(
            SyncReport {
                known_before,
                known_after,
                balance,
                receive_frontier: receive,
                change_frontier: change,
            },
        )
    }
}

} // verus!
