//! The life of a payment: inputs are selected, outputs are set, every input
//! is signed, and the transaction goes to the network.
//!
//! A builder is in one of five states and moves from each to the next and
//! no other way, but that it can be given up at any time. One builder
//! builds one transaction at a time.

use crate::address::{is_standard_script, spec_is_standard_script};
use crate::coin_select::Selection;
use crate::keys::{
    is_private_data, spec_child, spec_public_key, ChildNumber, ExtendedKey, ExtendedKeyView,
};
use crate::outside::{
    ecdsa_sign, ecdsa_verifies, hash160, spec_ecdsa_sign, spec_ecdsa_verifies, spec_hash160,
};
use crate::primitives::{
    distinct_outpoints, total_value, Branch, OutPoint, Txid, Utxo, MAX_MONEY,
};
use crate::tx::{
    outputs_view, serialize, shared_hashes, sighash, signed_bytes, spec_sighash, spec_txid, txid,
    unlocks, witnesses_view, TxOutput, TxOutputView, Witness, WitnessView, SIGHASH_ALL,
};
use crate::utxo_set::lemma_total_prefix;
use vstd::prelude::*;

verus! {

/// Where a builder stands.
#[derive(Clone, Copy, PartialEq, Eq, Structural, Debug)]
pub enum TxState {
    Empty,
    InputsSelected,
    OutputsSet,
    Signed,
    Broadcast,
}

/// Why a step of a build was refused. The builder is then as it was before
/// the step.
#[derive(Clone, Copy, PartialEq, Eq, Structural, Debug)]
pub enum TxError {
    /// The step does not follow on the state that the builder is in.
    WrongState,
    /// The selection has no input, an outpoint twice, or sums that are not
    /// those of its inputs.
    InvalidSelection,
    /// The script of the recipient is none that a payment can be locked to.
    InvalidRecipient,
    /// The key of an input cannot be derived, or is not the key that the
    /// input is locked to.
    MissingKey,
    /// No signature could be made for an input, or the one made does not
    /// hold.
    SignatureFailed,
}

/// Why a transaction did not go out.
pub enum BroadcastError {
    /// There is no signed transaction to send.
    WrongState,
    /// The network refused the transaction; the reason is the chain
    /// source's own.
    Rejected(String),
}

/// What the chain source said of a transaction handed to it.
pub enum BroadcastOutcome {
    Accepted,
    Rejected(String),
}

/// A transaction ready for the network.
pub struct FinalTx {
    /// The serialized transaction.
    pub bytes: Vec<u8>,
    /// Its identifier.
    pub txid: Txid,
}

/// What a builder holds.
pub struct BuilderView {
    pub state: TxState,
    pub inputs: Seq<Utxo>,
    /// The amount that goes to the recipient.
    pub target: u64,
    /// The fee: what the inputs are worth more than the outputs.
    pub fee: u64,
    /// The value of the inputs together.
    pub total: u64,
    pub outputs: Seq<TxOutputView>,
    pub witnesses: Seq<WitnessView>,
}

/// A selection that a build can start from: it has an input, no outpoint
/// twice, the total of its inputs, and covers the amount and the fee.
pub open spec fn selection_valid(inputs: Seq<Utxo>, target: u64, fee: u64, total: u64) -> bool {
    &&& inputs.len() >= 1
    &&& distinct_outpoints(inputs)
    &&& total_value(inputs) == total
    &&& total <= MAX_MONEY
    &&& total >= target + fee
}

/// The script of a witness-pubkey-hash output.
pub open spec fn program_script(program: Seq<u8>) -> Seq<u8> {
    seq![0u8, 20u8] + program
}

/// What is left of the inputs after the payment and the fee.
pub open spec fn spec_change(total: u64, target: u64, fee: u64) -> int {
    total - target - fee
}

/// Whether what is left becomes an output of its own: it does unless it is
/// nothing, or less than the dust threshold.
pub open spec fn keeps_change(total: u64, target: u64, fee: u64, dust_threshold: u64) -> bool {
    spec_change(total, target, fee) > 0 && spec_change(total, target, fee) >= dust_threshold
}

/// The outputs of the payment: the recipient's, and the change where it is
/// kept.
pub open spec fn planned_outputs(
    total: u64,
    target: u64,
    fee: u64,
    recipient: Seq<u8>,
    change_program: Seq<u8>,
    dust_threshold: u64,
) -> Seq<TxOutputView> {
    let first = TxOutputView { value: target, script: recipient };
    if keeps_change(total, target, fee, dust_threshold) {
        seq![
            first,
            TxOutputView {
                value: spec_change(total, target, fee) as u64,
                script: program_script(change_program),
            },
        ]
    } else {
        seq![first]
    }
}

/// The fee that the payment pays in the end: the fee of the selection, and
/// on top of it the change that is too small to keep.
pub open spec fn planned_fee(total: u64, target: u64, fee: u64, dust_threshold: u64) -> u64 {
    if keeps_change(total, target, fee, dust_threshold) {
        fee
    } else {
        (total - target) as u64
    }
}

/// The step from a branch key to the key of an address.
pub open spec fn address_step(index: u32) -> ChildNumber {
    ChildNumber { index: index, hardened: false }
}

/// The witness of one input.
///
/// The key of the input is the child of its branch's key at the input's
/// index. It must be there with its private half and hash to the input's
/// program, or the key is missing. The signature is the one that the key
/// makes over the digest; it is checked before it is used.
pub open spec fn spec_witness(branch_key: ExtendedKeyView, input: Utxo, digest: Seq<u8>) -> Result<
    WitnessView,
    TxError,
> {
    match spec_child(branch_key, address_step(input.index)) {
        Err(_) => Err(TxError::MissingKey),
        Ok(key) => if !is_private_data(key.data) {
            Err(TxError::MissingKey)
        } else {
            match spec_public_key(key.data) {
                None => Err(TxError::MissingKey),
                Some(public) => if spec_hash160(public) != input.program@ {
                    Err(TxError::MissingKey)
                } else {
                    match spec_ecdsa_sign(key.data.subrange(46, 78), digest) {
                        None => Err(TxError::SignatureFailed),
                        Some(signature) => if !spec_ecdsa_verifies(public, digest, signature) {
                            Err(TxError::SignatureFailed)
                        } else {
                            Ok(
                                WitnessView {
                                    signature: signature.push(SIGHASH_ALL),
                                    public_key: public,
                                },
                            )
                        },
                    }
                },
            }
        },
    }
}

/// The key of the branch that an input was paid on.
pub open spec fn branch_key_of(receive: ExtendedKeyView, change: ExtendedKeyView, input: Utxo)
    -> ExtendedKeyView {
    match input.branch {
        Branch::Receive => receive,
        Branch::Change => change,
    }
}

/// The witnesses of the first `n` inputs; the first input that cannot be
/// signed gives the error.
pub open spec fn spec_witnesses(
    receive: ExtendedKeyView,
    change: ExtendedKeyView,
    inputs: Seq<Utxo>,
    outputs: Seq<TxOutputView>,
    n: nat,
) -> Result<Seq<WitnessView>, TxError>
    decreases n,
{
    if n == 0 {
        Ok(Seq::<WitnessView>::empty())
    } else {
        match spec_witnesses(receive, change, inputs, outputs, (n - 1) as nat) {
            Err(e) => Err(e),
            Ok(before) => match spec_witness(
                branch_key_of(receive, change, inputs[n - 1]),
                inputs[n - 1],
                spec_sighash(inputs, outputs, n - 1),
            ) {
                Err(e) => Err(e),
                Ok(w) => Ok(before.push(w)),
            },
        }
    }
}

/// Every input is unlocked by its witness.
pub open spec fn all_unlock(
    inputs: Seq<Utxo>,
    outputs: Seq<TxOutputView>,
    witnesses: Seq<WitnessView>,
) -> bool {
    &&& witnesses.len() == inputs.len()
    &&& forall|i: int|
        0 <= i < inputs.len() ==> unlocks(
            inputs[i].program@,
            spec_sighash(inputs, outputs, i),
            #[trigger] witnesses[i],
        )
}

/// The value of the outputs together.
pub open spec fn outputs_value(outputs: Seq<TxOutputView>) -> nat
    decreases outputs.len(),
{
    if outputs.len() == 0 {
        0
    } else {
        outputs_value(outputs.drop_last()) + outputs.last().value as nat
    }
}

/// The outputs pay the recipient the amount, to a script that a payment
/// can be locked to, and together with the fee they are worth exactly what
/// the inputs are worth.
pub open spec fn outputs_balance(b: BuilderView) -> bool {
    &&& b.outputs.len() >= 1
    &&& b.outputs[0].value == b.target
    &&& spec_is_standard_script(b.outputs[0].script)
    &&& outputs_value(b.outputs) + b.fee == b.total
}

/// What holds of a builder in each of its states.
pub open spec fn builder_wf(b: BuilderView) -> bool {
    match b.state {
        TxState::Empty => b == empty_builder(),
        TxState::InputsSelected => selection_valid(b.inputs, b.target, b.fee, b.total)
            && b.outputs.len() == 0 && b.witnesses.len() == 0,
        TxState::OutputsSet => selection_valid(b.inputs, b.target, b.fee, b.total)
            && outputs_balance(b) && b.witnesses.len() == 0,
        TxState::Signed | TxState::Broadcast => selection_valid(
            b.inputs,
            b.target,
            b.fee,
            b.total,
        ) && outputs_balance(b) && all_unlock(b.inputs, b.outputs, b.witnesses),
    }
}

/// The planned outputs and the planned fee use up the inputs exactly.
pub proof fn lemma_plan_balances(
    total: u64,
    target: u64,
    fee: u64,
    recipient: Seq<u8>,
    change_program: Seq<u8>,
    dust_threshold: u64,
)
    requires
        total >= target + fee,
    ensures
        outputs_value(
            planned_outputs(total, target, fee, recipient, change_program, dust_threshold),
        ) + planned_fee(total, target, fee, dust_threshold) == total,
        planned_fee(total, target, fee, dust_threshold) >= fee,
{
    let planned = planned_outputs(total, target, fee, recipient, change_program, dust_threshold);
    reveal_with_fuel(outputs_value, 3);
    if planned.len() == 2 {
        assert(planned.drop_last() =~= seq![planned[0]]);
        assert(planned.drop_last().drop_last() =~= Seq::<TxOutputView>::empty());
    } else {
        assert(planned.drop_last() =~= Seq::<TxOutputView>::empty());
    }
}

/// A witness that was made unlocks the input it was made for.
pub proof fn lemma_witness_unlocks(branch_key: ExtendedKeyView, input: Utxo, digest: Seq<u8>)
    ensures
        spec_witness(branch_key, input, digest) matches Ok(w) ==> unlocks(
            input.program@,
            digest,
            w,
        ),
{
    if let Ok(w) = spec_witness(branch_key, input, digest) {
        let key = spec_child(branch_key, address_step(input.index)).unwrap();
        let signature = spec_ecdsa_sign(key.data.subrange(46, 78), digest).unwrap();
        assert(w.signature.drop_last() =~= signature);
    }
}

/// The witnesses that were made are as many as the inputs they were made
/// for, and each unlocks its input.
pub proof fn lemma_witnesses_unlock(
    receive: ExtendedKeyView,
    change: ExtendedKeyView,
    inputs: Seq<Utxo>,
    outputs: Seq<TxOutputView>,
    n: nat,
)
    requires
        n <= inputs.len(),
    ensures
        spec_witnesses(receive, change, inputs, outputs, n) matches Ok(ws) ==> ws.len() == n
            && forall|i: int|
            0 <= i < n ==> unlocks(
                inputs[i].program@,
                spec_sighash(inputs, outputs, i),
                #[trigger] ws[i],
            ),
    decreases n,
{
    if n > 0 {
        lemma_witnesses_unlock(receive, change, inputs, outputs, (n - 1) as nat);
        lemma_witness_unlocks(
            branch_key_of(receive, change, inputs[n - 1]),
            inputs[n - 1],
            spec_sighash(inputs, outputs, n - 1),
        );
    }
}

/// A transaction that was signed is one that the network accepts as far as
/// its inputs go: every input is unlocked by its witness, against the very
/// program that the spent output is locked to.
pub proof fn lemma_signed_unlocks(
    receive: ExtendedKeyView,
    change: ExtendedKeyView,
    inputs: Seq<Utxo>,
    outputs: Seq<TxOutputView>,
)
    ensures
        spec_witnesses(receive, change, inputs, outputs, inputs.len()) matches Ok(ws)
            ==> all_unlock(inputs, outputs, ws),
{
    lemma_witnesses_unlock(receive, change, inputs, outputs, inputs.len());
}

/// Signing is a function of the keys and the transaction: signing again
/// gives the same witnesses, byte for byte.
pub proof fn lemma_signing_repeats(
    receive: ExtendedKeyView,
    change: ExtendedKeyView,
    inputs: Seq<Utxo>,
    outputs: Seq<TxOutputView>,
    first: Result<Seq<WitnessView>, TxError>,
    second: Result<Seq<WitnessView>, TxError>,
)
    requires
        first == spec_witnesses(receive, change, inputs, outputs, inputs.len()),
        second == spec_witnesses(receive, change, inputs, outputs, inputs.len()),
    ensures
        first == second,
{
}

fn same_program(digest: &Vec<u8>, program: &[u8; 20]) -> (r: bool)
    ensures
        r == (digest@ == program@),
{
    if digest.len() != 20 {
        return false;
    }
    let mut i: usize = 0;
    while i < 20
        invariant
            i <= 20,
            digest@.len() == 20,
            forall|j: int| 0 <= j < i ==> digest@[j] == program@[j],
        decreases 20 - i,
    {
        if digest[i] != program[i] {
            return false;
        }
        i += 1;
    }
    assert(digest@ =~= program@);
    true
}

/// Overwrites bytes with zeros.
fn wipe(secret: &mut Vec<u8>)
    ensures
        final(secret)@.len() == old(secret)@.len(),
        forall|i: int| 0 <= i < final(secret)@.len() ==> final(secret)@[i] == 0,
{
    let mut i: usize = 0;
    while i < secret.len()
        invariant
            i <= secret@.len(),
            secret@.len() == old(secret)@.len(),
            forall|j: int| 0 <= j < i ==> secret@[j] == 0,
        decreases secret@.len() - i,
    {
        secret.set(i, 0u8);
        i += 1;
    }
}

/// Makes the witness of one input: derives the key of the input from the
/// key of its branch, checks that it is the key that the input is locked
/// to, signs the digest and checks the signature.
pub fn sign_input(branch_key: &ExtendedKey, input: &Utxo, digest: &Vec<u8>) -> (r: Result<
    Witness,
    TxError,
>)
    requires
        branch_key.wf(),
    ensures
        match r {
            Ok(w) => spec_witness(branch_key@, *input, digest@) == Ok::<WitnessView, TxError>(w@),
            Err(e) => spec_witness(branch_key@, *input, digest@) == Err::<WitnessView, TxError>(
                e,
            ),
        },
{
    let key = match branch_key.child(ChildNumber { index: input.index, hardened: false }) {
        Err(_) => {
            return Err(TxError::MissingKey);
        },
        Ok(key) => key,
    };
    if !key.is_private() {
        return Err(TxError::MissingKey);
    }
    let public = match key.public_key() {
        None => {
            return Err(TxError::MissingKey);
        },
        Some(public) => public,
    };
    let hashed = hash160(&public);
    if !same_program(&hashed, &input.program) {
        return Err(TxError::MissingKey);
    }
    let mut secret = key.secret_bytes();
    let made = ecdsa_sign(&secret, digest);
    wipe(&mut secret);
    key.wipe();
    let mut signature = match made {
        None => {
            return Err(TxError::SignatureFailed);
        },
        Some(signature) => signature,
    };
    if !ecdsa_verifies(&public, digest, &signature) {
        return Err(TxError::SignatureFailed);
    }
    signature.push(SIGHASH_ALL);
    Ok(Witness { signature, public_key: public })
}

/// Builds one transaction at a time.
pub struct TransactionBuilder {
    state: TxState,
    inputs: Vec<Utxo>,
    target: u64,
    fee: u64,
    total: u64,
    outputs: Vec<TxOutput>,
    witnesses: Vec<Witness>,
}

impl View for TransactionBuilder {
    type V = BuilderView;

    closed spec fn view(&self) -> BuilderView {
        BuilderView {
            state: self.state,
            inputs: self.inputs@,
            target: self.target,
            fee: self.fee,
            total: self.total,
            outputs: outputs_view(self.outputs@),
            witnesses: witnesses_view(self.witnesses@),
        }
    }
}

/// A builder with nothing in it.
pub open spec fn empty_builder() -> BuilderView {
    BuilderView {
        state: TxState::Empty,
        inputs: Seq::<Utxo>::empty(),
        target: 0,
        fee: 0,
        total: 0,
        outputs: Seq::<TxOutputView>::empty(),
        witnesses: Seq::<WitnessView>::empty(),
    }
}

/// The outpoints of a sequence of outputs.
pub open spec fn outpoints_of(inputs: Seq<Utxo>) -> Seq<OutPoint> {
    inputs.map_values(|u: Utxo| u.outpoint)
}

/// Whether no outpoint occurs twice among the inputs.
fn all_distinct(inputs: &Vec<Utxo>) -> (r: bool)
    ensures
        r == distinct_outpoints(inputs@),
{
    let mut i: usize = 0;
    while i < inputs.len()
        invariant
            i <= inputs@.len(),
            forall|a: int, b: int|
                0 <= a < i && 0 <= b < inputs@.len() && a != b ==> (#[trigger] inputs@[a]).outpoint
                    != (#[trigger] inputs@[b]).outpoint,
        decreases inputs@.len() - i,
    {
        let mut j: usize = 0;
        while j < inputs.len()
            invariant
                i < inputs@.len(),
                j <= inputs@.len(),
                forall|b: int|
                    0 <= b < j && b != i ==> inputs@[i as int].outpoint != (
                    #[trigger] inputs@[b]).outpoint,
            decreases inputs@.len() - j,
        {
            if j != i && inputs[i].outpoint == inputs[j].outpoint {
                return false;
            }
            j += 1;
        }
        i += 1;
    }
    true
}

/// The value of the inputs together, where it is no more than `MAX_MONEY`.
fn checked_total(inputs: &Vec<Utxo>) -> (r: Option<u64>)
    ensures
        match r {
            Some(t) => t == total_value(inputs@) && t <= MAX_MONEY,
            None => total_value(inputs@) > MAX_MONEY,
        },
{
    let mut sum: u64 = 0;
    let mut i: usize = 0;
    while i < inputs.len()
        invariant
            i <= inputs@.len(),
            sum == total_value(inputs@.subrange(0, i as int)),
            sum <= MAX_MONEY,
        decreases inputs@.len() - i,
    {
        proof {
            assert(inputs@.subrange(0, i as int + 1).drop_last() =~= inputs@.subrange(0, i as int));
            lemma_total_prefix(inputs@, i as int + 1);
        }
        if inputs[i].value > MAX_MONEY - sum {
            return None;
        }
        sum = sum + inputs[i].value;
        i += 1;
    }
    assert(inputs@.subrange(0, inputs@.len() as int) =~= inputs@);
    Some(sum)
}

impl TransactionBuilder {
    /// What holds of every builder.
    pub open spec fn wf(&self) -> bool {
        builder_wf(self@)
    }

    /// A builder in the state `Empty`.
    pub fn new() -> (r: TransactionBuilder)
        ensures
            r.wf(),
            r@ == empty_builder(),
    {
        let r = TransactionBuilder {
            state: TxState::Empty,
            inputs: Vec::new(),
            target: 0,
            fee: 0,
            total: 0,
            outputs: Vec::new(),
            witnesses: Vec::new(),
        };
        assert(r@.outputs =~= Seq::<TxOutputView>::empty());
        assert(r@.witnesses =~= Seq::<WitnessView>::empty());
        r
    }

    /// Where the builder stands.
    pub fn state(&self) -> (r: TxState)
        ensures
            r == self@.state,
    {
        self.state
    }

    /// The inputs of the transaction being built.
    pub fn inputs(&self) -> (r: &Vec<Utxo>)
        ensures
            r@ == self@.inputs,
    {
        &self.inputs
    }

    /// The outputs of the transaction being built.
    pub fn outputs(&self) -> (r: &Vec<TxOutput>)
        ensures
            outputs_view(r@) == self@.outputs,
    {
        &self.outputs
    }

    /// The witnesses of the inputs, once they are signed.
    pub fn witnesses(&self) -> (r: &Vec<Witness>)
        ensures
            witnesses_view(r@) == self@.witnesses,
    {
        &self.witnesses
    }

    /// The fee that the transaction pays.
    pub fn fee(&self) -> (r: u64)
        ensures
            r == self@.fee,
    {
        self.fee
    }

    /// The outpoints that the transaction spends.
    pub fn input_outpoints(&self) -> (r: Vec<OutPoint>)
        ensures
            r@ == outpoints_of(self@.inputs),
    {
        let mut r: Vec<OutPoint> = Vec::new();
        let mut i: usize = 0;
        while i < self.inputs.len()
            invariant
                i <= self.inputs@.len(),
                r@ == outpoints_of(self.inputs@.subrange(0, i as int)),
            decreases self.inputs@.len() - i,
        {
            r.push(self.inputs[i].outpoint);
            i += 1;
            assert(r@ =~= outpoints_of(self.inputs@.subrange(0, i as int)));
        }
        assert(self.inputs@.subrange(0, self.inputs@.len() as int) =~= self.inputs@);
        r
    }

    /// `Empty` to `InputsSelected`: takes the inputs of a selection.
    pub fn select_inputs(&mut self, selection: Selection) -> (r: Result<(), TxError>)
        requires
            old(self).wf(),
        ensures
            final(self).wf(),
            match r {
                Ok(()) => {
                    &&& old(self)@.state == TxState::Empty
                    &&& selection_valid(
                        selection.inputs@,
                        selection.target,
                        selection.fee,
                        selection.total,
                    )
                    &&& final(self)@ == (BuilderView {
                        state: TxState::InputsSelected,
                        inputs: selection.inputs@,
                        target: selection.target,
                        fee: selection.fee,
                        total: selection.total,
                        ..old(self)@
                    })
                },
                Err(e) => {
                    &&& final(self)@ == old(self)@
                    &&& e == if old(self)@.state != TxState::Empty {
                        TxError::WrongState
                    } else {
                        TxError::InvalidSelection
                    }
                    &&& old(self)@.state == TxState::Empty ==> !selection_valid(
                        selection.inputs@,
                        selection.target,
                        selection.fee,
                        selection.total,
                    )
                },
            },
    {
        if self.state != TxState::Empty {
            return Err(TxError::WrongState);
        }
        if selection.inputs.len() == 0 || !all_distinct(&selection.inputs) {
            return Err(TxError::InvalidSelection);
        }
        match checked_total(&selection.inputs) {
            None => {
                return Err(TxError::InvalidSelection);
            },
            Some(total) => {
                if total != selection.total || selection.fee > total || selection.target > total
                    - selection.fee {
                    return Err(TxError::InvalidSelection);
                }
            },
        }
        self.state = TxState::InputsSelected;
        self.inputs = selection.inputs;
        self.target = selection.target;
        self.fee = selection.fee;
        self.total = selection.total;
        Ok(())
    }

    /// `InputsSelected` to `OutputsSet`: adds the output of the recipient
    /// and, where what is left of the inputs is worth keeping, the change
    /// output. Change below the dust threshold goes to the fee.
    pub fn set_outputs(
        &mut self,
        recipient_script: Vec<u8>,
        change_program: [u8; 20],
        dust_threshold: u64,
    ) -> (r: Result<(), TxError>)
        requires
            old(self).wf(),
        ensures
            final(self).wf(),
            match r {
                Ok(()) => {
                    &&& old(self)@.state == TxState::InputsSelected
                    &&& spec_is_standard_script(recipient_script@)
                    &&& final(self)@ == (BuilderView {
                        state: TxState::OutputsSet,
                        outputs: planned_outputs(
                            old(self)@.total,
                            old(self)@.target,
                            old(self)@.fee,
                            recipient_script@,
                            change_program@,
                            dust_threshold,
                        ),
                        fee: planned_fee(
                            old(self)@.total,
                            old(self)@.target,
                            old(self)@.fee,
                            dust_threshold,
                        ),
                        ..old(self)@
                    })
                },
                Err(e) => {
                    &&& final(self)@ == old(self)@
                    &&& e == if old(self)@.state != TxState::InputsSelected {
                        TxError::WrongState
                    } else {
                        TxError::InvalidRecipient
                    }
                    &&& old(self)@.state == TxState::InputsSelected ==> !spec_is_standard_script(
                        recipient_script@,
                    )
                },
            },
    {
        if self.state != TxState::InputsSelected {
            return Err(TxError::WrongState);
        }
        if !is_standard_script(&recipient_script) {
            return Err(TxError::InvalidRecipient);
        }
        let ghost planned = planned_outputs(
            self.total,
            self.target,
            self.fee,
            recipient_script@,
            change_program@,
            dust_threshold,
        );
        proof {
            lemma_plan_balances(
                self.total,
                self.target,
                self.fee,
                recipient_script@,
                change_program@,
                dust_threshold,
            );
        }
        let change = self.total - self.target - self.fee;
        let mut outputs: Vec<TxOutput> = Vec::new();
        outputs.push(TxOutput { value: self.target, script: recipient_script });
        assert(outputs_view(outputs@)[0] == planned[0]);
        if change > 0 && change >= dust_threshold {
            let mut script: Vec<u8> = Vec::new();
            script.push(0u8);
            script.push(20u8);
            crate::encode::push_program(&mut script, &change_program);
            assert(script@ =~= program_script(change_program@));
            outputs.push(TxOutput { value: change, script });
            assert(outputs_view(outputs@)[1] == planned[1]);
        } else {
            self.fee = self.total - self.target;
        }
        assert(outputs_view(outputs@) =~= planned);
        self.outputs = outputs;
        self.state = TxState::OutputsSet;
        Ok(())
    }

    /// `OutputsSet` to `Signed`: signs every input with the key of its
    /// address, derived from the key of its branch.
    ///
    /// Nothing is kept of a signing that fails: the builder stays in
    /// `OutputsSet`. A builder that is signed already stays as it is.
    pub fn sign(&mut self, receive_key: &ExtendedKey, change_key: &ExtendedKey) -> (r: Result<
        (),
        TxError,
    >)
        requires
            old(self).wf(),
            receive_key.wf(),
            change_key.wf(),
        ensures
            final(self).wf(),
            match old(self)@.state {
                TxState::Signed => r is Ok && final(self)@ == old(self)@,
                TxState::OutputsSet => match spec_witnesses(
                    receive_key@,
                    change_key@,
                    old(self)@.inputs,
                    old(self)@.outputs,
                    old(self)@.inputs.len(),
                ) {
                    Ok(ws) => r is Ok && final(self)@ == (BuilderView {
                        state: TxState::Signed,
                        witnesses: ws,
                        ..old(self)@
                    }),
                    Err(e) => r == Err::<(), TxError>(e) && final(self)@ == old(self)@,
                },
                _ => r == Err::<(), TxError>(TxError::WrongState) && final(self)@ == old(self)@,
            },
    {
        if self.state == TxState::Signed {
            return Ok(());
        }
        if self.state != TxState::OutputsSet {
            return Err(TxError::WrongState);
        }
        let shared = shared_hashes(&self.inputs, &self.outputs);
        let mut witnesses: Vec<Witness> = Vec::new();
        let mut i: usize = 0;
        assert(witnesses_view(witnesses@) =~= Seq::<WitnessView>::empty());
        while i < self.inputs.len()
            invariant
                *self == *old(self),
                old(self).wf(),
                self.state == TxState::OutputsSet,
                receive_key.wf(),
                change_key.wf(),
                i <= self.inputs@.len(),
                shared.prevouts@ == crate::outside::spec_sha256d(
                    crate::tx::prevouts_bytes(self.inputs@),
                ),
                shared.sequences@ == crate::outside::spec_sha256d(
                    crate::tx::sequences_bytes(self.inputs@.len()),
                ),
                shared.outputs@ == crate::outside::spec_sha256d(
                    crate::tx::outputs_bytes(outputs_view(self.outputs@)),
                ),
                spec_witnesses(
                    receive_key@,
                    change_key@,
                    self.inputs@,
                    outputs_view(self.outputs@),
                    i as nat,
                ) == Ok::<Seq<WitnessView>, TxError>(witnesses_view(witnesses@)),
            decreases self.inputs@.len() - i,
        {
            let input = self.inputs[i];
            let digest = sighash(&self.inputs, &self.outputs, &shared, i);
            let key = match input.branch {
                Branch::Receive => receive_key,
                Branch::Change => change_key,
            };
            match sign_input(key, &input, &digest) {
                Err(e) => {
                    proof {
                        lemma_sign_error_stays(
                            receive_key@,
                            change_key@,
                            self.inputs@,
                            outputs_view(self.outputs@),
                            i as nat + 1,
                            e,
                        );
                    }
                    return Err(e);
                },
                Ok(w) => {
                    let ghost before = witnesses_view(witnesses@);
                    witnesses.push(w);
                    assert(witnesses_view(witnesses@) =~= before.push(w@));
                },
            }
            i += 1;
        }
        proof {
            lemma_witnesses_unlock(
                receive_key@,
                change_key@,
                self.inputs@,
                outputs_view(self.outputs@),
                self.inputs@.len(),
            );
        }
        self.witnesses = witnesses;
        self.state = TxState::Signed;
        Ok(())
    }

    /// The signed transaction in bytes, with its identifier. Every input
    /// of it is unlocked by its witness.
    pub fn finalize(&self) -> (r: Result<FinalTx, TxError>)
        requires
            self.wf(),
        ensures
            match r {
                Ok(tx) => {
                    &&& self@.state == TxState::Signed || self@.state == TxState::Broadcast
                    &&& tx.bytes@ == signed_bytes(self@.inputs, self@.outputs, self@.witnesses)
                    &&& tx.txid == spec_txid(self@.inputs, self@.outputs)
                    &&& all_unlock(self@.inputs, self@.outputs, self@.witnesses)
                },
                Err(e) => e == TxError::WrongState && self@.state != TxState::Signed
                    && self@.state != TxState::Broadcast,
            },
    {
        if self.state != TxState::Signed && self.state != TxState::Broadcast {
            return Err(TxError::WrongState);
        }
        Ok(
            FinalTx {
                bytes: serialize(&self.inputs, &self.outputs, &self.witnesses),
                txid: txid(&self.inputs, &self.outputs),
            },
        )
    }

    /// `Signed` to `Broadcast`, where the chain source took the
    /// transaction. Where it refused, the builder stays `Signed`, and the
    /// reason is handed on; nothing is tried again.
    pub fn record_broadcast(&mut self, outcome: BroadcastOutcome) -> (r: Result<
        (),
        BroadcastError,
    >)
        requires
            old(self).wf(),
        ensures
            final(self).wf(),
            match r {
                Ok(()) => old(self)@.state == TxState::Signed && outcome is Accepted
                    && final(self)@ == (BuilderView { state: TxState::Broadcast, ..old(self)@ }),
                Err(BroadcastError::WrongState) => old(self)@.state != TxState::Signed
                    && final(self)@ == old(self)@,
                Err(BroadcastError::Rejected(reason)) => old(self)@.state == TxState::Signed
                    && outcome == BroadcastOutcome::Rejected(reason) && final(self)@ == old(
                    self,
                )@,
            },
    {
        if self.state != TxState::Signed {
            return Err(BroadcastError::WrongState);
        }
        match outcome {
            BroadcastOutcome::Accepted => {
                self.state = TxState::Broadcast;
                Ok(())
            },
            BroadcastOutcome::Rejected(reason) => Err(BroadcastError::Rejected(reason)),
        }
    }

    /// Gives the build up, from whatever state, and hands back the
    /// outpoints that it held, so that they can be released.
    pub fn abort(&mut self) -> (r: Vec<OutPoint>)
        ensures
            final(self).wf(),
            final(self)@ == empty_builder(),
            r@ == outpoints_of(old(self)@.inputs),
    {
        let held = self.input_outpoints();
        self.state = TxState::Empty;
        self.inputs = Vec::new();
        self.target = 0;
        self.fee = 0;
        self.total = 0;
        self.outputs = Vec::new();
        self.witnesses = Vec::new();
        assert(self@.outputs =~= Seq::<TxOutputView>::empty());
        assert(self@.witnesses =~= Seq::<WitnessView>::empty());
        held
    }
}

/// An input that cannot be signed makes the signing fail, whatever
/// follows it.
proof fn lemma_sign_error_stays(
    receive: ExtendedKeyView,
    change: ExtendedKeyView,
    inputs: Seq<Utxo>,
    outputs: Seq<TxOutputView>,
    n: nat,
    e: TxError,
)
    requires
        n <= inputs.len(),
        spec_witnesses(receive, change, inputs, outputs, n) == Err::<Seq<WitnessView>, TxError>(e),
    ensures
        spec_witnesses(receive, change, inputs, outputs, inputs.len()) == Err::<
            Seq<WitnessView>,
            TxError,
        >(e),
    decreases inputs.len() - n,
{
    if n < inputs.len() {
        lemma_sign_error_stays(receive, change, inputs, outputs, n + 1, e);
    }
}

} // verus!
