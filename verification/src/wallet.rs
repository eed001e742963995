//! The wallet as its users see it: it is created from a mnemonic, follows
//! the chain, hands out addresses, tells its balance and sends payments.
//!
//! The wallet itself never reads a file and never opens a connection.
//! Where the chain has to be asked or told something, the wallet says what,
//! and takes in what came of it.

use crate::address::{
    address, destination_script, spec_address, spec_destination_script, spec_witness_program,
    witness_program,
};
use crate::builder::{
    all_unlock, builder_wf, empty_builder, outpoints_of, planned_fee, planned_outputs,
    spec_witnesses, address_step, BroadcastOutcome, BuilderView, FinalTx, TransactionBuilder,
    TxState,
};
use crate::coin_select::{
    can_cover, needed_for, select, spec_selection, spendable_part, is_spendable_subset,
};
use crate::descriptor::{
    branch_descriptor, spec_branch_descriptor, spec_wallet_identity, wallet_identity,
};
use crate::error::{
    from_broadcast, from_derive, from_descriptor, from_funds, from_seed, from_sync, from_tx,
    spec_from_derive, spec_from_descriptor, spec_from_seed, spec_from_tx,
    WalletError,
};
use crate::fee::FeeRate;
use crate::keys::{key_wf, spec_child, ChildNumber, ExtendedKey, ExtendedKeyView};
use crate::outside::spec_mnemonic_entropy;
use crate::primitives::{
    lemma_program_of, program_of, total_value, Branch, Network, OutPoint, Txid, Utxo,
};
use crate::seed::{from_mnemonic, generate, spec_master};
use crate::tracker::{synced, ChainOutput, ChainReply, SyncReport, TrackerView, UtxoTracker};
use crate::tx::{signed_bytes, spec_txid};
use crate::utxo_set::{confirmed_value, with_pending};
use vstd::prelude::*;

verus! {

/// The smallest change that is worth an output of its own, unless a wallet
/// is told otherwise.
pub const DEFAULT_DUST_THRESHOLD: u64 = 546;

/// What a wallet is told when it is made.
#[derive(Clone, Copy, PartialEq, Eq, Structural, Debug)]
pub struct WalletConfig {
    pub fee_rate: FeeRate,
    pub dust_threshold: u64,
    pub gap_limit: u32,
    /// The number of the account whose two chains of addresses the wallet
    /// uses.
    pub account: u32,
}

/// What a wallet is.
pub struct WalletView {
    pub network: Network,
    /// The keys of the two chains of addresses.
    pub receive_key: ExtendedKeyView,
    pub change_key: ExtendedKeyView,
    /// The text of the two descriptors.
    pub receive_descriptor: Seq<char>,
    pub change_descriptor: Seq<char>,
    /// The name that the wallet's state is stored under.
    pub name: Seq<char>,
    pub tracker: TrackerView,
    pub builder: BuilderView,
    pub config: WalletConfig,
    /// The index of the next address to hand out.
    pub next_receive: u32,
}

/// A wallet. It is handed to every operation; there is no wallet behind
/// the scenes.
pub struct Wallet {
    network: Network,
    receive_key: ExtendedKey,
    change_key: ExtendedKey,
    receive_descriptor: String,
    change_descriptor: String,
    name: String,
    tracker: UtxoTracker,
    builder: TransactionBuilder,
    config: WalletConfig,
    next_receive: u32,
}

impl View for Wallet {
    type V = WalletView;

    closed spec fn view(&self) -> WalletView {
        WalletView {
            network: self.network,
            receive_key: self.receive_key@,
            change_key: self.change_key@,
            receive_descriptor: self.receive_descriptor@,
            change_descriptor: self.change_descriptor@,
            name: self.name@,
            tracker: self.tracker@,
            builder: self.builder@,
            config: self.config,
            next_receive: self.next_receive,
        }
    }
}

/// A wallet that was just made, and the phrase that was drawn for it where
/// none was given. The phrase is the only way back to the money: it is to
/// be shown to the owner once and kept nowhere else.
pub struct NewWallet {
    pub wallet: Wallet,
    pub generated_phrase: Option<String>,
}

/// An address to ask the chain source about.
#[derive(Clone, Copy, Debug)]
pub struct Watched {
    pub branch: Branch,
    pub index: u32,
    pub program: [u8; 20],
}

/// Every output whose outpoint is held by a signed transaction carries the
/// pending mark.
pub open spec fn holds_pending(utxos: Seq<Utxo>, held: Seq<OutPoint>) -> bool {
    forall|i: int|
        0 <= i < utxos.len() && held.contains((#[trigger] utxos[i]).outpoint)
            ==> utxos[i].pending_spend
}

/// What holds of every wallet.
pub open spec fn wallet_wf(w: WalletView) -> bool {
    &&& key_wf(w.receive_key)
    &&& key_wf(w.change_key)
    &&& builder_wf(w.builder)
    &&& w.tracker.gap_limit == w.config.gap_limit
    &&& (w.builder.state == TxState::Signed || w.builder.state == TxState::Broadcast)
        ==> holds_pending(w.tracker.utxos, outpoints_of(w.builder.inputs))
}

/// The tracker of a wallet that has not looked at the chain yet.
pub open spec fn fresh_tracker(gap_limit: u32) -> TrackerView {
    TrackerView {
        utxos: Seq::<Utxo>::empty(),
        receive_frontier: 0,
        change_frontier: 0,
        gap_limit: gap_limit,
    }
}

/// The wallet of a master key on a network.
pub open spec fn spec_open(master: ExtendedKeyView, network: Network, config: WalletConfig)
    -> Result<WalletView, WalletError> {
    match spec_branch_descriptor(master, config.account, Branch::Receive) {
        Err(e) => Err(spec_from_descriptor(e)),
        Ok(receive) => match spec_branch_descriptor(master, config.account, Branch::Change) {
            Err(e) => Err(spec_from_descriptor(e)),
            Ok(change) => match spec_wallet_identity(receive.text, change.text, network) {
                None => Err(WalletError::WrongNetwork),
                Some(id) => Ok(
                    WalletView {
                        network: network,
                        receive_key: receive.key,
                        change_key: change.key,
                        receive_descriptor: receive.text,
                        change_descriptor: change.text,
                        name: id.1,
                        tracker: fresh_tracker(config.gap_limit),
                        builder: empty_builder(),
                        config: config,
                        next_receive: 0,
                    },
                ),
            },
        },
    }
}

/// The wallet of a mnemonic phrase and a passphrase on a network.
pub open spec fn spec_create(
    phrase: Seq<char>,
    passphrase: Seq<char>,
    network: Network,
    config: WalletConfig,
) -> Result<WalletView, WalletError> {
    match spec_master(phrase, passphrase, network) {
        Err(e) => Err(spec_from_seed(e)),
        Ok(master) => spec_open(master, network, config),
    }
}

/// The passphrase that is used where none is given.
pub open spec fn passphrase_or_empty(passphrase: Option<&str>) -> Seq<char> {
    match passphrase {
        Some(p) => p@,
        None => Seq::<char>::empty(),
    }
}

/// The witness program of the address at an index of a chain.
pub open spec fn spec_program_at(branch_key: ExtendedKeyView, index: u32) -> Option<Seq<u8>> {
    match spec_child(branch_key, address_step(index)) {
        Ok(key) => spec_witness_program(key.data),
        Err(_) => None,
    }
}

/// The addresses of a chain to watch, from index 0 up to `count`. An index
/// at which the curve gives no key is passed over.
pub open spec fn spec_watch(branch_key: ExtendedKeyView, branch: Branch, count: nat) -> Seq<
    Watched,
>
    decreases count,
{
    if count == 0 {
        Seq::<Watched>::empty()
    } else {
        let before = spec_watch(branch_key, branch, (count - 1) as nat);
        match spec_program_at(branch_key, (count - 1) as u32) {
            Some(program) => before.push(
                Watched { branch: branch, index: (count - 1) as u32, program: program_of(program) },
            ),
            None => before,
        }
    }
}

/// The index of the address that a wallet hands out next: no address that
/// is known to be used is handed out again.
pub open spec fn spec_next_index(w: WalletView) -> u32 {
    if w.next_receive >= w.tracker.receive_frontier {
        w.next_receive
    } else {
        w.tracker.receive_frontier
    }
}

fn same_array(a: &[u8; 20], b: &[u8; 20]) -> (r: bool)
    ensures
        r == (a@ == b@),
{
    let mut i: usize = 0;
    while i < 20
        invariant
            i <= 20,
            forall|j: int| 0 <= j < i ==> a@[j] == b@[j],
        decreases 20 - i,
    {
        if a[i] != b[i] {
            return false;
        }
        i += 1;
    }
    assert(a@ =~= b@);
    true
}

fn program_at(branch_key: &ExtendedKey, index: u32) -> (r: Option<[u8; 20]>)
    requires
        branch_key.wf(),
    ensures
        match r {
            Some(p) => spec_program_at(branch_key@, index) == Some(p@),
            None => spec_program_at(branch_key@, index) is None,
        },
{
    match branch_key.child(ChildNumber { index, hardened: false }) {
        Err(_) => None,
        Ok(key) => witness_program(&key),
    }
}

fn watch_branch(branch_key: &ExtendedKey, branch: Branch, count: u32, out: &mut Vec<Watched>)
    requires
        branch_key.wf(),
    ensures
        final(out)@ == old(out)@ + spec_watch(branch_key@, branch, count as nat),
{
    let ghost start = out@;
    let mut i: u32 = 0;
    assert(out@ =~= start + spec_watch(branch_key@, branch, 0));
    while i < count
        invariant
            i <= count,
            branch_key.wf(),
            out@ == start + spec_watch(branch_key@, branch, i as nat),
        decreases count - i,
    {
        let ghost before = out@;
        match program_at(branch_key, i) {
            None => {},
            Some(program) => {
                proof {
                    lemma_program_of(program);
                }
                out.push(Watched { branch, index: i, program });
            },
        }
        i += 1;
        assert(out@ =~= start + spec_watch(branch_key@, branch, i as nat));
    }
}

impl Wallet {
    /// The parts of the wallet are well formed behind their views.
    pub closed spec fn parts_wf(&self) -> bool {
        self.tracker.wf()
    }

    /// What holds of every wallet.
    pub open spec fn wf(&self) -> bool {
        wallet_wf(self@) && self.parts_wf()
    }

    /// The network that the wallet lives on.
    pub fn network(&self) -> (r: Network)
        ensures
            r == self@.network,
    {
        self.network
    }

    /// The name that the state of the wallet is stored under.
    pub fn name(&self) -> (r: &str)
        ensures
            r@ == self@.name,
    {
        self.name.as_str()
    }

    /// The text of the descriptor of the chain of addresses to be paid on.
    pub fn receive_descriptor(&self) -> (r: &str)
        ensures
            r@ == self@.receive_descriptor,
    {
        self.receive_descriptor.as_str()
    }

    /// The text of the descriptor of the chain of change addresses.
    pub fn change_descriptor(&self) -> (r: &str)
        ensures
            r@ == self@.change_descriptor,
    {
        self.change_descriptor.as_str()
    }

    /// What the wallet was told when it was made.
    pub fn config(&self) -> (r: WalletConfig)
        ensures
            r == self@.config,
    {
        self.config
    }

    /// The outputs and frontiers that the wallet knows of.
    pub fn tracker(&self) -> (r: &UtxoTracker)
        ensures
            r@ == self@.tracker,
            self.wf() ==> r.wf(),
    {
        &self.tracker
    }

    /// The state of the payment that the wallet is building, if any.
    pub fn builder(&self) -> (r: &TransactionBuilder)
        ensures
            r@ == self@.builder,
    {
        &self.builder
    }

    /// Makes the wallet of a master key: derives the keys of the two chains
    /// of the account, builds their descriptors, and computes the name
    /// that the two make on the network.
    pub fn open(master: &ExtendedKey, network: Network, config: WalletConfig) -> (r: Result<
        Wallet,
        WalletError,
    >)
        requires
            master.wf(),
        ensures
            match r {
                Ok(w) => spec_open(master@, network, config) == Ok::<WalletView, WalletError>(w@)
                    && w.wf(),
                Err(e) => spec_open(master@, network, config) == Err::<WalletView, WalletError>(e),
            },
    {
        let receive = match branch_descriptor(master, config.account, Branch::Receive) {
            Err(e) => {
                return Err(from_descriptor(e));
            },
            Ok(d) => d,
        };
        let change = match branch_descriptor(master, config.account, Branch::Change) {
            Err(e) => {
                return Err(from_descriptor(e));
            },
            Ok(d) => d,
        };
        let id = match wallet_identity(&receive, &change, network) {
            Err(_) => {
                return Err(WalletError::WrongNetwork);
            },
            Ok(id) => id,
        };
        let receive_key = receive.key().duplicate();
        let change_key = change.key().duplicate();
        let wallet = Wallet {
            network,
            receive_key,
            change_key,
            receive_descriptor: String::from_str(receive.text()),
            change_descriptor: String::from_str(change.text()),
            name: id.name,
            tracker: UtxoTracker::new(config.gap_limit),
            builder: TransactionBuilder::new(),
            config,
            next_receive: 0,
        };
        Ok(wallet)
    }

    /// The spendable balance: the value of the confirmed outputs.
    pub fn balance(&self) -> (r: u64)
        requires
            self.wf(),
        ensures
            r == confirmed_value(self@.tracker.utxos),
    {
        self.tracker.balance()
    }

    /// The addresses to ask the chain source about: on the receive chain
    /// the addresses that were handed out or are known to be used, on the
    /// change chain those known to be used, and on either as many more as
    /// the gap limit says.
    pub fn watch_list(&self) -> (r: Vec<Watched>)
        requires
            self.wf(),
        ensures
            r@ == spec_watch(
                self@.receive_key,
                Branch::Receive,
                crate::tracker::spec_window(spec_next_index(self@), self@.tracker.gap_limit) as nat,
            ) + spec_watch(
                self@.change_key,
                Branch::Change,
                crate::tracker::spec_window(
                    self@.tracker.change_frontier,
                    self@.tracker.gap_limit,
                ) as nat,
            ),
    {
        let mut out: Vec<Watched> = Vec::new();
        let frontier = self.tracker.frontier(Branch::Receive);
        let reached = if self.next_receive >= frontier {
            self.next_receive
        } else {
            frontier
        };
        watch_branch(
            &self.receive_key,
            Branch::Receive,
            crate::tracker::lookahead(reached, self.tracker.gap_limit()),
            &mut out,
        );
        watch_branch(
            &self.change_key,
            Branch::Change,
            self.tracker.window(Branch::Change),
            &mut out,
        );
        out
    }
}

/// The address of a wallet at an index of its receive chain.
pub open spec fn spec_address_at(w: WalletView, index: u32) -> Result<Seq<char>, WalletError> {
    match spec_child(w.receive_key, address_step(index)) {
        Err(e) => Err(spec_from_derive(e)),
        Ok(key) => match spec_address(key.data, w.network) {
            Some(a) => Ok(a),
            None => Err(WalletError::KeyRejected),
        },
    }
}

/// The key of a chain of addresses of a wallet.
pub open spec fn branch_key(w: WalletView, branch: Branch) -> ExtendedKeyView {
    match branch {
        Branch::Receive => w.receive_key,
        Branch::Change => w.change_key,
    }
}

/// Every report is of an output that pays an address of the wallet: the
/// program is that of the address at the index of the chain.
pub open spec fn reports_are_ours(w: WalletView, reports: Seq<ChainOutput>) -> bool {
    forall|i: int|
        0 <= i < reports.len() ==> spec_program_at(
            branch_key(w, (#[trigger] reports[i]).branch),
            reports[i].index,
        ) == Some(reports[i].program@)
}

/// Whether a wallet holds a signed transaction.
pub open spec fn holds_signed(w: WalletView) -> bool {
    w.builder.state == TxState::Signed || w.builder.state == TxState::Broadcast
}

/// The wallet after it has taken in what the chain source answered: the
/// tracker is synchronised, and the outputs that a signed transaction
/// spends carry their mark, also where they were seen anew.
pub open spec fn spec_synced(w: WalletView, after: TrackerView) -> WalletView {
    WalletView {
        tracker: TrackerView {
            utxos: if holds_signed(w) {
                with_pending(after.utxos, outpoints_of(w.builder.inputs), true)
            } else {
                after.utxos
            },
            ..after
        },
        ..w
    }
}

/// The wallet after it has built and signed a payment, or the reason why
/// it has not.
pub open spec fn spec_prepare(w: WalletView, destination: Seq<char>, amount: u64) -> Result<
    WalletView,
    WalletError,
> {
    let utxos = w.tracker.utxos;
    let rate = w.config.fee_rate;
    if w.builder.state != TxState::Empty {
        Err(WalletError::BuildInProgress)
    } else {
        match spec_destination_script(destination) {
            Err(_) => Err(WalletError::InvalidRecipient),
            Ok(script) => if !can_cover(utxos, amount, rate) {
                Err(
                    WalletError::InsufficientFunds {
                        needed: needed_for(utxos, amount, rate) as u128,
                        available: total_value(spendable_part(utxos)) as u64,
                    },
                )
            } else {
                match spec_program_at(w.change_key, w.tracker.change_frontier) {
                    None => Err(WalletError::KeyRejected),
                    Some(program) => {
                        let inputs = spec_selection(utxos, amount, rate);
                        let fee = rate.spec_fee(inputs.len()) as u64;
                        let total = total_value(inputs) as u64;
                        let outputs = planned_outputs(
                            total,
                            amount,
                            fee,
                            script,
                            program,
                            w.config.dust_threshold,
                        );
                        match spec_witnesses(
                            w.receive_key,
                            w.change_key,
                            inputs,
                            outputs,
                            inputs.len(),
                        ) {
                            Err(e) => Err(spec_from_tx(e)),
                            Ok(witnesses) => Ok(
                                WalletView {
                                    builder: BuilderView {
                                        state: TxState::Signed,
                                        inputs: inputs,
                                        target: amount,
                                        fee: planned_fee(
                                            total,
                                            amount,
                                            fee,
                                            w.config.dust_threshold,
                                        ),
                                        total: total,
                                        outputs: outputs,
                                        witnesses: witnesses,
                                    },
                                    tracker: TrackerView {
                                        utxos: with_pending(utxos, outpoints_of(inputs), true),
                                        ..w.tracker
                                    },
                                    ..w
                                },
                            ),
                        }
                    },
                }
            },
        }
    }
}

/// The wallet after it has taken its tracker from a snapshot, or `None`
/// where the bytes are no snapshot of a tracker with the wallet's gap
/// limit.
pub open spec fn spec_restored(w: WalletView, bytes: Seq<u8>) -> Option<WalletView> {
    match crate::snapshot::decode_tracker(bytes) {
        Some(tracker) => if tracker.gap_limit == w.config.gap_limit {
            Some(spec_synced(w, tracker))
        } else {
            None
        },
        None => None,
    }
}

/// Marking the outputs that a transaction spends makes every one of them
/// that the wallet holds carry the mark.
pub proof fn lemma_marked_holds(utxos: Seq<Utxo>, held: Seq<OutPoint>)
    ensures
        holds_pending(with_pending(utxos, held, true), held),
{
}

/// While a wallet holds a signed transaction, no selection from its outputs
/// spends an outpoint that the transaction spends.
pub proof fn lemma_no_double_spend(w: WalletView, selected: Seq<Utxo>)
    requires
        wallet_wf(w),
        holds_signed(w),
        is_spendable_subset(w.tracker.utxos, selected),
    ensures
        forall|k: int, j: int|
            0 <= k < selected.len() && 0 <= j < w.builder.inputs.len() ==> (
            #[trigger] selected[k]).outpoint != (#[trigger] w.builder.inputs[j]).outpoint,
{
    let held = outpoints_of(w.builder.inputs);
    assert forall|k: int, j: int|
        0 <= k < selected.len() && 0 <= j < w.builder.inputs.len() implies (
    #[trigger] selected[k]).outpoint != (#[trigger] w.builder.inputs[j]).outpoint by {
        if selected[k].outpoint == w.builder.inputs[j].outpoint {
            assert(held[j] == w.builder.inputs[j].outpoint);
            assert(held.contains(selected[k].outpoint));
            assert(w.tracker.utxos.contains(selected[k]));
            let i = choose|i: int|
                0 <= i < w.tracker.utxos.len() && w.tracker.utxos[i] == selected[k];
            assert(w.tracker.utxos[i].pending_spend);
        }
    }
}

/// Once the build is given up, the outputs that it held can be selected
/// again: none of them carries the mark any more.
pub proof fn lemma_release_frees(utxos: Seq<Utxo>, held: Seq<OutPoint>)
    ensures
        forall|i: int|
            0 <= i < utxos.len() && held.contains((#[trigger] utxos[i]).outpoint) ==> !with_pending(
                utxos,
                held,
                false,
            )[i].pending_spend,
{
}

impl WalletConfig {
    /// One satoshi for each virtual byte, the usual dust threshold and gap
    /// limit, and the first account.
    pub open spec fn spec_standard() -> WalletConfig {
        WalletConfig {
            fee_rate: FeeRate { base_fee: 73, fee_per_input: 68 },
            dust_threshold: DEFAULT_DUST_THRESHOLD,
            gap_limit: crate::tracker::DEFAULT_GAP_LIMIT,
            account: 0,
        }
    }

    /// The usual configuration.
    #[verifier::when_used_as_spec(spec_standard)]
    pub fn standard() -> (r: WalletConfig)
        ensures
            r == Self::spec_standard(),
    {
        WalletConfig {
            fee_rate: FeeRate { base_fee: 73, fee_per_input: 68 },
            dust_threshold: DEFAULT_DUST_THRESHOLD,
            gap_limit: crate::tracker::DEFAULT_GAP_LIMIT,
            account: 0,
        }
    }
}

impl Wallet {
    /// Hands out the next address to be paid on. No address is handed out
    /// twice, and none that the chain has seen used.
    pub fn address(&mut self) -> (r: Result<String, WalletError>)
        requires
            old(self).wf(),
        ensures
            final(self).wf(),
            match r {
                Ok(a) => spec_address_at(old(self)@, spec_next_index(old(self)@)) == Ok::<
                    Seq<char>,
                    WalletError,
                >(a@) && final(self)@ == (WalletView {
                    next_receive: (spec_next_index(old(self)@) + 1) as u32,
                    ..old(self)@
                }),
                Err(e) => spec_address_at(old(self)@, spec_next_index(old(self)@)) == Err::<
                    Seq<char>,
                    WalletError,
                >(e) && final(self)@ == old(self)@,
            },
    {
        let frontier = self.tracker.frontier(Branch::Receive);
        let index = if self.next_receive >= frontier {
            self.next_receive
        } else {
            frontier
        };
        let key = match self.receive_key.child(ChildNumber { index, hardened: false }) {
            Err(e) => {
                return Err(from_derive(e));
            },
            Ok(key) => key,
        };
        match address(&key, self.network) {
            None => Err(WalletError::KeyRejected),
            Some(a) => {
                self.next_receive = index + 1;
                Ok(a)
            },
        }
    }

    /// The state of the tracker in bytes, to be put into a store.
    pub fn snapshot(&self) -> (r: Vec<u8>)
        ensures
            r@ == crate::snapshot::tracker_bytes(self@.tracker),
    {
        crate::snapshot::snapshot(&self.tracker)
    }

    /// Takes the state of the tracker from bytes that came out of a store.
    /// Bytes that are no such state leave the wallet as it was.
    pub fn restore(&mut self, bytes: &Vec<u8>) -> (r: Result<(), WalletError>)
        requires
            old(self).wf(),
        ensures
            final(self).wf(),
            match r {
                Ok(()) => spec_restored(old(self)@, bytes@) == Some(final(self)@),
                Err(e) => e == WalletError::InvalidSnapshot && spec_restored(old(self)@, bytes@)
                    is None && final(self)@ == old(self)@,
            },
    {
        let tracker = match crate::snapshot::restore(bytes) {
            None => {
                return Err(WalletError::InvalidSnapshot);
            },
            Some(tracker) => tracker,
        };
        if tracker.gap_limit() != self.config.gap_limit {
            return Err(WalletError::InvalidSnapshot);
        }
        self.tracker = tracker;
        let state = self.builder.state();
        if state == TxState::Signed || state == TxState::Broadcast {
            let held = self.builder.input_outpoints();
            self.tracker.mark_pending(&held);
        }
        Ok(())
    }

    /// The index of the next address to hand out, to be put into a store.
    pub fn next_receive(&self) -> (r: u32)
        ensures
            r == self@.next_receive,
    {
        self.next_receive
    }

    /// Takes the index of the next address to hand out from a store. The
    /// index never goes back.
    pub fn resume_at(&mut self, index: u32)
        requires
            old(self).wf(),
        ensures
            final(self).wf(),
            final(self)@ == (WalletView {
                next_receive: if index > old(self)@.next_receive {
                    index
                } else {
                    old(self)@.next_receive
                },
                ..old(self)@
            }),
    {
        if index > self.next_receive {
            self.next_receive = index;
        }
    }

    /// Takes in what the chain source answered to the watch list.
    ///
    /// Every output reported must pay an address of the wallet. Where one
    /// does not, where the source could not be reached, or where it sent
    /// what cannot be true, the wallet is left as it was.
    pub fn apply_sync(&mut self, reply: &ChainReply) -> (r: Result<SyncReport, WalletError>)
        requires
            old(self).wf(),
        ensures
            final(self).wf(),
            match *reply {
                ChainReply::Unreachable => r matches Err(e) && e == WalletError::ChainUnavailable
                    && final(self)@ == old(self)@,
                ChainReply::Outputs(reports) => if synced(old(self)@.tracker, reports@) is None
                    || !reports_are_ours(old(self)@, reports@) {
                    r matches Err(e) && e == WalletError::InvalidChainData && final(self)@ == old(
                        self,
                    )@
                } else {
                    let after = synced(old(self)@.tracker, reports@).unwrap();
                    &&& final(self)@ == spec_synced(old(self)@, after)
                    &&& r matches Ok(report)
                    &&& report.known_before == old(self)@.tracker.utxos.len()
                    &&& report.known_after == after.utxos.len()
                    &&& report.balance == confirmed_value(after.utxos)
                    &&& report.receive_frontier == after.receive_frontier
                    &&& report.change_frontier == after.change_frontier
                },
            },
    {
        match reply {
            ChainReply::Unreachable => {},
            ChainReply::Outputs(reports) => {
                let mut i: usize = 0;
                while i < reports.len()
                    invariant
                        *self == *old(self),
                        old(self).wf(),
                        *reply == ChainReply::Outputs(*reports),
                        i <= reports@.len(),
                        reports_are_ours(self@, reports@.subrange(0, i as int)),
                    decreases reports@.len() - i,
                {
                    let c = reports[i];
                    let key = match c.branch {
                        Branch::Receive => &self.receive_key,
                        Branch::Change => &self.change_key,
                    };
                    let ours = match program_at(key, c.index) {
                        None => false,
                        Some(program) => same_array(&program, &c.program),
                    };
                    if !ours {
                        proof {
                            assert(reports@[i as int] == c);
                            assert(!reports_are_ours(self@, reports@));
                        }
                        return Err(WalletError::InvalidChainData);
                    }
                    i += 1;
                }
                assert(reports@.subrange(0, reports@.len() as int) =~= reports@);
            },
        }
        let report = match self.tracker.apply_sync(reply) {
            Err(e) => {
                return Err(from_sync(e));
            },
            Ok(report) => report,
        };
        let state = self.builder.state();
        if state == TxState::Signed || state == TxState::Broadcast {
            let held = self.builder.input_outpoints();
            self.tracker.mark_pending(&held);
        }
        Ok(report)
    }

    /// Builds and signs a payment of `amount` satoshis to an address, and
    /// hands back the transaction to send.
    ///
    /// The wallet selects inputs, sets the outputs, with the change paid to
    /// the first unused change address, and signs. On success the inputs
    /// carry the pending mark from now on. On any failure the wallet is as
    /// it was before.
    pub fn prepare_send(&mut self, destination: &str, amount: u64) -> (r: Result<
        FinalTx,
        WalletError,
    >)
        requires
            old(self).wf(),
        ensures
            final(self).wf(),
            match r {
                Ok(tx) => {
                    &&& spec_prepare(old(self)@, destination@, amount) == Ok::<
                        WalletView,
                        WalletError,
                    >(final(self)@)
                    &&& tx.bytes@ == signed_bytes(
                        final(self)@.builder.inputs,
                        final(self)@.builder.outputs,
                        final(self)@.builder.witnesses,
                    )
                    &&& tx.txid == spec_txid(
                        final(self)@.builder.inputs,
                        final(self)@.builder.outputs,
                    )
                    &&& all_unlock(
                        final(self)@.builder.inputs,
                        final(self)@.builder.outputs,
                        final(self)@.builder.witnesses,
                    )
                },
                Err(e) => spec_prepare(old(self)@, destination@, amount) == Err::<
                    WalletView,
                    WalletError,
                >(e) && final(self)@ == old(self)@,
            },
    {
        if self.builder.state() != TxState::Empty {
            return Err(WalletError::BuildInProgress);
        }
        let script = match destination_script(destination) {
            Err(_) => {
                return Err(WalletError::InvalidRecipient);
            },
            Ok(script) => script,
        };
        let selection = match select(self.tracker.utxos(), amount, self.config.fee_rate) {
            Err(e) => {
                return Err(from_funds(e));
            },
            Ok(selection) => selection,
        };
        let program = match program_at(&self.change_key, self.tracker.frontier(Branch::Change)) {
            None => {
                return Err(WalletError::KeyRejected);
            },
            Some(program) => program,
        };
        let ghost before = self@;
        let ghost inputs = selection.inputs@;
        match self.builder.select_inputs(selection) {
            Err(e) => {
                return Err(from_tx(e));
            },
            Ok(()) => {},
        }
        match self.builder.set_outputs(script, program, self.config.dust_threshold) {
            Err(e) => {
                self.builder.abort();
                return Err(from_tx(e));
            },
            Ok(()) => {},
        }
        match self.builder.sign(&self.receive_key, &self.change_key) {
            Err(e) => {
                self.builder.abort();
                return Err(from_tx(e));
            },
            Ok(()) => {},
        }
        let held = self.builder.input_outpoints();
        self.tracker.mark_pending(&held);
        match self.builder.finalize() {
            Err(e) => Err(from_tx(e)),
            Ok(tx) => Ok(tx),
        }
    }

    /// Takes in what the chain source said of the transaction handed to
    /// it. Where it took the transaction, the identifier is handed back.
    /// Where it refused, its reason is handed on and nothing is tried
    /// again: the transaction stays signed and its inputs stay marked,
    /// until the build is given up.
    pub fn complete_send(&mut self, outcome: BroadcastOutcome) -> (r: Result<Txid, WalletError>)
        requires
            old(self).wf(),
        ensures
            final(self).wf(),
            match r {
                Ok(id) => old(self)@.builder.state == TxState::Signed && outcome is Accepted
                    && final(self)@ == (WalletView {
                    builder: BuilderView { state: TxState::Broadcast, ..old(self)@.builder },
                    ..old(self)@
                }) && id == spec_txid(old(self)@.builder.inputs, old(self)@.builder.outputs),
                Err(e) => final(self)@ == old(self)@ && if old(self)@.builder.state
                    != TxState::Signed {
                    e == WalletError::NothingSigned
                } else {
                    outcome matches BroadcastOutcome::Rejected(reason) && e
                        == (WalletError::BroadcastRejected { reason: reason })
                },
            },
    {
        match self.builder.record_broadcast(outcome) {
            Err(e) => Err(from_broadcast(e)),
            Ok(()) => match self.builder.finalize() {
                Ok(tx) => Ok(tx.txid),
                Err(e) => Err(from_tx(e)),
            },
        }
    }

    /// Gives the payment in progress up, in whatever state it is, and
    /// releases the outputs that it held.
    pub fn abort_send(&mut self)
        requires
            old(self).wf(),
        ensures
            final(self).wf(),
            final(self)@ == (WalletView {
                builder: empty_builder(),
                tracker: TrackerView {
                    utxos: with_pending(
                        old(self)@.tracker.utxos,
                        outpoints_of(old(self)@.builder.inputs),
                        false,
                    ),
                    ..old(self)@.tracker
                },
                ..old(self)@
            }),
    {
        let held = self.builder.abort();
        self.tracker.release(&held);
    }
}

/// Makes a wallet: from the mnemonic phrase given, or, where none is
/// given, from fresh entropy of 128 bits, whose phrase is handed back with
/// the wallet.
pub fn create_wallet(
    mnemonic: Option<&str>,
    passphrase: Option<&str>,
    network: Network,
    config: WalletConfig,
) -> (r: Result<NewWallet, WalletError>)
    ensures
        match r {
            Ok(made) => made.wallet.wf() && match mnemonic {
                Some(m) => made.generated_phrase is None && spec_create(
                    m@,
                    passphrase_or_empty(passphrase),
                    network,
                    config,
                ) == Ok::<WalletView, WalletError>(made.wallet@),
                None => made.generated_phrase matches Some(p) && (spec_mnemonic_entropy(p@)
                    matches Some(e) && e.len() == 16) && spec_create(
                    p@,
                    passphrase_or_empty(passphrase),
                    network,
                    config,
                ) == Ok::<WalletView, WalletError>(made.wallet@),
            },
            Err(e) => match mnemonic {
                Some(m) => spec_create(m@, passphrase_or_empty(passphrase), network, config)
                    == Err::<WalletView, WalletError>(e),
                None => e != WalletError::InvalidMnemonic && e != WalletError::InvalidStrength,
            },
        },
{
    let secret = match passphrase {
        Some(p) => p,
        None => "",
    };
    proof {
        reveal_strlit("");
        assert(secret@ =~= passphrase_or_empty(passphrase));
    }
    let generated_phrase: Option<String> = match mnemonic {
        Some(_) => None,
        None => match generate(128, secret) {
            Ok(seed) => Some(String::from_str(seed.phrase())),
            Err(e) => {
                return Err(from_seed(e));
            },
        },
    };
    let master = match mnemonic {
        Some(m) => from_mnemonic(m, secret, network),
        None => match &generated_phrase {
            Some(p) => from_mnemonic(p.as_str(), secret, network),
            None => Err(crate::seed::SeedError::UnusableSeed),
        },
    };
    let master = match master {
        Err(e) => {
            return Err(from_seed(e));
        },
        Ok(master) => master,
    };
    match Wallet::open(&master, network, config) {
        Err(e) => Err(e),
        Ok(wallet) => Ok(NewWallet { wallet, generated_phrase }),
    }
}

/// The passphrase of the wallets that `get_descriptors` makes.
pub open spec fn fixed_passphrase() -> Seq<char> {
    "random password"@
}

/// Draws a fresh mnemonic of twelve words and returns the texts of the
/// receive descriptor and the change descriptor of its wallet on the test
/// network, under a fixed passphrase.
///
/// Which descriptors come back is left to chance. They are the
/// descriptors of the wallet of some valid mnemonic.
pub fn get_descriptors() -> (r: Result<(String, String), WalletError>)
    ensures
        r matches Ok(pair) ==> exists|phrase: Seq<char>|
            spec_mnemonic_entropy(phrase) is Some && (#[trigger] spec_create(
                phrase,
                fixed_passphrase(),
                Network::Testnet,
                WalletConfig::standard(),
            ) matches Ok(w) && w.receive_descriptor == pair.0@ && w.change_descriptor == pair.1@),
        r matches Err(e) ==> e != WalletError::InvalidMnemonic && e
            != WalletError::InvalidStrength,
{
    let config = WalletConfig::standard();
    match create_wallet(None, Some("random password"), Network::Testnet, config) {
        Err(e) => Err(e),
        Ok(made) => {
            let receive = String::from_str(made.wallet.receive_descriptor());
            let change = String::from_str(made.wallet.change_descriptor());
            proof {
                let phrase = made.generated_phrase.unwrap()@;
                assert(spec_create(phrase, fixed_passphrase(), Network::Testnet, config) == Ok::<
                    WalletView,
                    WalletError,
                >(made.wallet@));
            }
            Ok((receive, change))
        },
    }
}

} // verus!
