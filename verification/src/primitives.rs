//! Plain values shared by every component of the wallet: networks, outpoints,
//! unspent outputs and amounts.

use vstd::prelude::*;

verus! {

/// The whole supply of the currency in satoshis. No output, and no set of
/// outputs that exist at one time, is worth more.
pub const MAX_MONEY: u64 = 2_100_000_000_000_000;

/// Length of the witness program of a witness-pubkey-hash output.
pub const PROGRAM_LEN: usize = 20;

/// The chain a wallet lives on.
#[derive(Clone, Copy, PartialEq, Eq, Structural, Debug)]
pub enum Network {
    Bitcoin,
    Testnet,
    Signet,
    Regtest,
}

impl Network {
    /// Extended keys are written with one set of version bytes on the main
    /// chain and another on every test chain.
    pub open spec fn spec_is_mainnet(self) -> bool {
        self == Network::Bitcoin
    }

    /// Whether this is the main network.
    #[verifier::when_used_as_spec(spec_is_mainnet)]
    pub fn is_mainnet(self) -> (r: bool)
        ensures
            r == self.spec_is_mainnet(),
    {
        match self {
            Network::Bitcoin => true,
            _ => false,
        }
    }

    /// A number that tells the four networks apart.
    pub open spec fn spec_tag(self) -> u8 {
        match self {
            Network::Bitcoin => 0u8,
            Network::Testnet => 1u8,
            Network::Signet => 2u8,
            Network::Regtest => 3u8,
        }
    }

    /// A number that tells the four networks apart.
    #[verifier::when_used_as_spec(spec_tag)]
    pub fn tag(self) -> (r: u8)
        ensures
            r == self.spec_tag(),
    {
        match self {
            Network::Bitcoin => 0u8,
            Network::Testnet => 1u8,
            Network::Signet => 2u8,
            Network::Regtest => 3u8,
        }
    }

    /// The network with the given tag, if there is one.
    pub fn from_tag(tag: u8) -> (r: Option<Network>)
        ensures
            r is Some <==> tag < 4,
            r matches Some(n) ==> n.spec_tag() == tag,
    {
        if tag == 0 {
            Some(Network::Bitcoin)
        } else if tag == 1 {
            Some(Network::Testnet)
        } else if tag == 2 {
            Some(Network::Signet)
        } else if tag == 3 {
            Some(Network::Regtest)
        } else {
            None
        }
    }
}

/// Two networks with the same tag are the same network.
pub proof fn lemma_tag_injective(a: Network, b: Network)
    ensures
        a.spec_tag() == b.spec_tag() <==> a == b,
{
}

/// A transaction identifier: 256 bits, held as two words, the more
/// significant first, so that identifiers are ordered as integers are.
#[derive(Clone, Copy, PartialEq, Eq, Structural, Debug)]
pub struct Txid {
    pub hi: u128,
    pub lo: u128,
}

/// One output of one transaction.
#[derive(Clone, Copy, PartialEq, Eq, Structural, Debug)]
pub struct OutPoint {
    pub txid: Txid,
    pub vout: u32,
}

impl OutPoint {
    /// The order of outpoints: by transaction identifier, then by output
    /// number. It is strict and total.
    pub open spec fn spec_precedes(self, other: OutPoint) -> bool {
        self.txid.hi < other.txid.hi || (self.txid.hi == other.txid.hi && (self.txid.lo
            < other.txid.lo || (self.txid.lo == other.txid.lo && self.vout < other.vout)))
    }

    /// Whether this outpoint comes before the other.
    #[verifier::when_used_as_spec(spec_precedes)]
    pub fn precedes(self, other: OutPoint) -> (r: bool)
        ensures
            r == self.spec_precedes(other),
    {
        self.txid.hi < other.txid.hi || (self.txid.hi == other.txid.hi && (self.txid.lo
            < other.txid.lo || (self.txid.lo == other.txid.lo && self.vout < other.vout)))
    }
}

/// Of two different outpoints exactly one precedes the other, and the order
/// has no cycles.
pub proof fn lemma_outpoint_order(a: OutPoint, b: OutPoint, c: OutPoint)
    ensures
        !a.spec_precedes(a),
        a != b ==> (a.spec_precedes(b) <==> !b.spec_precedes(a)),
        a.spec_precedes(b) && b.spec_precedes(c) ==> a.spec_precedes(c),
{
}

/// The two chains of addresses of one account.
#[derive(Clone, Copy, PartialEq, Eq, Structural, Debug)]
pub enum Branch {
    /// Addresses handed out to be paid on (the external chain).
    Receive,
    /// Addresses that take the wallet's own change (the internal chain).
    Change,
}

/// An unspent output that pays this wallet.
#[derive(Clone, Copy, Debug)]
pub struct Utxo {
    pub outpoint: OutPoint,
    /// Value in satoshis.
    pub value: u64,
    /// The chain of the address that the output pays.
    pub branch: Branch,
    /// The index of that address on its chain.
    pub index: u32,
    /// The witness program (the hash of the public key) that locks the output.
    pub program: [u8; 20],
    /// The height of the block that confirmed the output, if one has.
    pub height: Option<u32>,
    /// Set while a transaction that this wallet signed spends the output.
    pub pending_spend: bool,
}

impl Utxo {
    /// A block holds the output.
    pub open spec fn spec_is_confirmed(&self) -> bool {
        self.height is Some
    }

    /// Whether a block holds the output.
    #[verifier::when_used_as_spec(spec_is_confirmed)]
    pub fn is_confirmed(&self) -> (r: bool)
        ensures
            r == self.spec_is_confirmed(),
    {
        self.height.is_some()
    }

    /// An output can be spent once it is confirmed, and as long as no signed
    /// transaction of this wallet spends it already.
    pub open spec fn spec_is_spendable(&self) -> bool {
        self.height is Some && !self.pending_spend
    }

    /// Whether the output can be spent now.
    #[verifier::when_used_as_spec(spec_is_spendable)]
    pub fn is_spendable(&self) -> (r: bool)
        ensures
            r == self.spec_is_spendable(),
    {
        self.height.is_some() && !self.pending_spend
    }

    /// The locking script of the output: the version-0 witness program.
    pub open spec fn spec_script(&self) -> Seq<u8> {
        seq![0u8, 20u8] + self.program@
    }

    /// The locking script of the output.
    pub fn script(&self) -> (r: Vec<u8>)
        ensures
            r@ == self.spec_script(),
    {
        let mut r: Vec<u8> = Vec::new();
        r.push(0u8);
        r.push(20u8);
        let mut i: usize = 0;
        while i < 20
            invariant
                i <= 20,
                r@ == seq![0u8, 20u8] + self.program@.subrange(0, i as int),
            decreases 20 - i,
        {
            r.push(self.program[i]);
            i += 1;
        }
        assert(self.program@.subrange(0, 20) =~= self.program@);
        r
    }
}

/// The array that holds the 20 bytes of a witness program.
pub open spec fn program_of(bytes: Seq<u8>) -> [u8; 20] {
    choose|a: [u8; 20]| a@ == bytes
}

/// An array is the array of its bytes.
pub proof fn lemma_program_of(program: [u8; 20])
    ensures
        program_of(program@) == program,
{
    vstd::array::axiom_array_ext_equal(program, program_of(program@));
}

/// The sum of the values of a sequence of outputs.
pub open spec fn total_value(s: Seq<Utxo>) -> nat
    decreases s.len(),
{
    if s.len() == 0 {
        0
    } else {
        total_value(s.drop_last()) + s.last().value as nat
    }
}

/// No outpoint occurs twice in the sequence.
pub open spec fn distinct_outpoints(s: Seq<Utxo>) -> bool {
    forall|i: int, j: int|
        0 <= i < s.len() && 0 <= j < s.len() && i != j ==> (#[trigger] s[i]).outpoint != (
        #[trigger] s[j]).outpoint
}

/// Some output of the sequence has this outpoint.
pub open spec fn has_outpoint(s: Seq<Utxo>, outpoint: OutPoint) -> bool {
    exists|i: int| 0 <= i < s.len() && (#[trigger] s[i]).outpoint == outpoint
}

/// Taking one output out lowers the total by its value.
pub proof fn lemma_total_remove(s: Seq<Utxo>, i: int)
    requires
        0 <= i < s.len(),
    ensures
        total_value(s.remove(i)) + s[i].value == total_value(s),
    decreases s.len(),
{
    if i == s.len() - 1 {
        assert(s.remove(i) =~= s.drop_last());
    } else {
        lemma_total_remove(s.drop_last(), i);
        assert(s.remove(i).drop_last() =~= s.drop_last().remove(i));
        assert(s.remove(i).last() == s.last());
    }
}

} // verus!
