//! Descriptors: a derived key, wrapped in the witness-pubkey-hash template
//! and tagged with where it came from.

use crate::keys::{
    is_mainnet_data, is_private_data, key_wf, spec_derive, spec_fingerprint, ChildNumber,
    DeriveError, ExtendedKey, ExtendedKeyView, HARDENED,
};
use crate::outside::{
    public_key_text, secret_key_text, spec_public_key_text, spec_secret_key_text,
    spec_wallet_name, wallet_name,
};
use crate::primitives::{Branch, Network};
use vstd::prelude::*;

verus! {

/// The purpose number of witness-pubkey-hash wallets.
pub const PURPOSE: u32 = 84;

/// Why a descriptor could not be made.
#[derive(Clone, Copy, PartialEq, Eq, Structural, Debug)]
pub enum DescriptorError {
    /// A step of the path is out of range, or asks of a public key what
    /// only a private key can give.
    InvalidPath,
    /// The tree is too deep for the path, or an index is 2^31 or more.
    DerivationOverflow,
    /// The key cannot be used.
    KeyRejected,
    /// The descriptors are not descriptors of the network.
    WrongNetwork,
}

/// Where a key came from: the fingerprint of the master key and the path
/// from it.
pub struct KeyOrigin {
    pub fingerprint: [u8; 4],
    pub path: Vec<ChildNumber>,
}

/// What a descriptor is.
pub struct DescriptorView {
    /// The key that the descriptor wraps.
    pub key: ExtendedKeyView,
    /// The fingerprint of the master key.
    pub fingerprint: Seq<u8>,
    /// The path from the master key to the wrapped key.
    pub path: Seq<ChildNumber>,
    /// The text of the descriptor.
    pub text: Seq<char>,
}

/// A witness-pubkey-hash descriptor over one extended key.
pub struct Descriptor {
    key: ExtendedKey,
    fingerprint: [u8; 4],
    path: Vec<ChildNumber>,
    text: String,
}

impl View for Descriptor {
    type V = DescriptorView;

    closed spec fn view(&self) -> DescriptorView {
        DescriptorView {
            key: self.key@,
            fingerprint: self.fingerprint@,
            path: self.path@,
            text: self.text@,
        }
    }
}

/// The steps of a path as numbers.
pub open spec fn numbers_of(path: Seq<ChildNumber>) -> Seq<u32> {
    path.map_values(|step: ChildNumber| step.spec_number())
}

/// Every index of the path is below 2^31.
pub open spec fn in_range(path: Seq<ChildNumber>) -> bool {
    forall|i: int| 0 <= i < path.len() ==> (#[trigger] path[i]).index < HARDENED
}

/// The letter that the text of an extended key begins with: `x` on the
/// main network and `t` on the test networks.
pub open spec fn network_letter(mainnet: bool) -> char {
    if mainnet {
        'x'
    } else {
        't'
    }
}

/// The text of a descriptor key shows its network: the origin ends at the
/// first `]`, at position `at`, and the letter behind it is `letter`.
pub open spec fn letter_at(text: Seq<char>, at: int, letter: char) -> bool {
    &&& 0 <= at
    &&& at + 1 < text.len()
    &&& text[at] == ']'
    &&& text[at + 1] == letter
    &&& forall|i: int| 0 <= i < at ==> text[i] != ']'
}

/// The key behind the origin begins with the letter.
pub open spec fn shows_network(text: Seq<char>, letter: char) -> bool {
    exists|at: int| letter_at(text, at, letter)
}

/// The text of the descriptor of a key with an origin: the text of the key
/// inside `wpkh(` and `)`. There is none where the text of the key does
/// not show the network of the key.
pub open spec fn spec_descriptor_text(key: Seq<u8>, fingerprint: Seq<u8>, path: Seq<ChildNumber>)
    -> Option<Seq<char>> {
    let inner = if is_private_data(key) {
        spec_secret_key_text(key, fingerprint, numbers_of(path))
    } else {
        spec_public_key_text(key, fingerprint, numbers_of(path))
    };
    match inner {
        Some(text) => if shows_network(text, network_letter(is_mainnet_data(key))) {
            Some("wpkh("@ + text + ")"@)
        } else {
            None
        },
        None => None,
    }
}

/// Whether the letter behind the first `]` of the text is the given one.
fn check_network_letter(text: &str, letter: char) -> (r: bool)
    ensures
        r == shows_network(text@, letter),
{
    let n = text.unicode_len();
    let mut i: usize = 0;
    while i < n
        invariant
            n == text@.len(),
            i <= n,
            forall|j: int| 0 <= j < i ==> text@[j] != ']',
        decreases n - i,
    {
        if text.get_char(i) == ']' {
            let r = i + 1 < n && text.get_char(i + 1) == letter;
            proof {
                if r {
                    assert(letter_at(text@, i as int, letter));
                } else {
                    assert forall|at: int| !letter_at(text@, at, letter) by {
                        if letter_at(text@, at, letter) {
                            if at < i {
                                assert(text@[at] != ']');
                            } else if at > i {
                                assert(text@[i as int] != ']');
                            }
                        }
                    }
                }
            }
            return r;
        }
        i += 1;
    }
    proof {
        assert forall|at: int| !letter_at(text@, at, letter) by {
            if letter_at(text@, at, letter) {
                assert(text@[at] != ']');
            }
        }
    }
    false
}

/// The descriptor of a key with an origin.
pub open spec fn spec_build(key: ExtendedKeyView, fingerprint: Seq<u8>, path: Seq<ChildNumber>)
    -> Result<DescriptorView, DescriptorError> {
    if !in_range(path) {
        Err(DescriptorError::InvalidPath)
    } else {
        match spec_descriptor_text(key.data, fingerprint, path) {
            Some(text) => Ok(
                DescriptorView { key: key, fingerprint: fingerprint, path: path, text: text },
            ),
            None => Err(DescriptorError::KeyRejected),
        }
    }
}

fn numbers(path: &Vec<ChildNumber>) -> (r: Option<Vec<u32>>)
    ensures
        match r {
            Some(n) => in_range(path@) && n@ == numbers_of(path@),
            None => !in_range(path@),
        },
{
    let mut out: Vec<u32> = Vec::new();
    let mut i: usize = 0;
    while i < path.len()
        invariant
            i <= path@.len(),
            in_range(path@.subrange(0, i as int)),
            out@ == numbers_of(path@.subrange(0, i as int)),
        decreases path@.len() - i,
    {
        match path[i].number() {
            None => {
                assert(path@[i as int].index >= HARDENED);
                return None;
            },
            Some(n) => {
                out.push(n);
            },
        }
        i += 1;
        assert(out@ =~= numbers_of(path@.subrange(0, i as int)));
    }
    assert(path@.subrange(0, path@.len() as int) =~= path@);
    Some(out)
}

impl Descriptor {
    /// The key of a descriptor is a well-formed key.
    pub open spec fn wf(&self) -> bool {
        key_wf(self@.key)
    }

    /// The text of the descriptor, in the form that other wallets read.
    pub fn text(&self) -> (r: &str)
        ensures
            r@ == self@.text,
    {
        self.text.as_str()
    }

    /// The key that the descriptor wraps.
    pub fn key(&self) -> (r: &ExtendedKey)
        ensures
            r@ == self@.key,
    {
        &self.key
    }

    /// The fingerprint of the master key that the wrapped key came from.
    pub fn fingerprint(&self) -> (r: [u8; 4])
        ensures
            r@ == self@.fingerprint,
    {
        self.fingerprint
    }

    /// The path from the master key to the wrapped key.
    pub fn path(&self) -> (r: &Vec<ChildNumber>)
        ensures
            r@ == self@.path,
    {
        &self.path
    }
}

/// Wraps a derived key in the witness-pubkey-hash template and records its
/// origin, so that the descriptor says by itself where its key came from.
pub fn build(derived_key: &ExtendedKey, origin: &KeyOrigin) -> (r: Result<
    Descriptor,
    DescriptorError,
>)
    requires
        derived_key.wf(),
    ensures
        match r {
            Ok(d) => spec_build(derived_key@, origin.fingerprint@, origin.path@) == Ok::<
                DescriptorView,
                DescriptorError,
            >(d@) && d.wf(),
            Err(e) => spec_build(derived_key@, origin.fingerprint@, origin.path@) == Err::<
                DescriptorView,
                DescriptorError,
            >(e),
        },
{
    let steps = match numbers(&origin.path) {
        None => {
            return Err(DescriptorError::InvalidPath);
        },
        Some(n) => n,
    };
    let mut fingerprint: Vec<u8> = Vec::new();
    fingerprint.push(origin.fingerprint[0]);
    fingerprint.push(origin.fingerprint[1]);
    fingerprint.push(origin.fingerprint[2]);
    fingerprint.push(origin.fingerprint[3]);
    assert(fingerprint@ =~= origin.fingerprint@);
    let inner = if derived_key.is_private() {
        secret_key_text(derived_key.data(), &fingerprint, &steps)
    } else {
        public_key_text(derived_key.data(), &fingerprint, &steps)
    };
    let letter = if derived_key.is_mainnet() {
        'x'
    } else {
        't'
    };
    match inner {
        None => Err(DescriptorError::KeyRejected),
        Some(inner) => {
            if !check_network_letter(inner.as_str(), letter) {
                return Err(DescriptorError::KeyRejected);
            }
            let mut text = String::from_str("wpkh(");
            text.append(inner.as_str());
            text.append(")");
            let mut path: Vec<ChildNumber> = Vec::new();
            let mut i: usize = 0;
            while i < origin.path.len()
                invariant
                    i <= origin.path@.len(),
                    path@ == origin.path@.subrange(0, i as int),
                decreases origin.path@.len() - i,
            {
                path.push(origin.path[i]);
                i += 1;
            }
            assert(origin.path@.subrange(0, origin.path@.len() as int) =~= origin.path@);
            Ok(
                Descriptor {
                    key: derived_key.duplicate(),
                    fingerprint: origin.fingerprint,
                    path,
                    text,
                },
            )
        },
    }
}

/// The coin type of a network in a derivation path.
pub open spec fn spec_coin_type(mainnet: bool) -> u32 {
    if mainnet {
        0
    } else {
        1
    }
}

/// The number of a branch in a derivation path.
pub open spec fn spec_branch_number(branch: Branch) -> u32 {
    match branch {
        Branch::Receive => 0,
        Branch::Change => 1,
    }
}

/// The path of a branch of an account: purpose, coin type and account,
/// all three hardened, and the branch.
pub open spec fn spec_branch_path(mainnet: bool, account: u32, branch: Branch) -> Seq<
    ChildNumber,
> {
    seq![
        ChildNumber { index: PURPOSE, hardened: true },
        ChildNumber { index: spec_coin_type(mainnet), hardened: true },
        ChildNumber { index: account, hardened: true },
        ChildNumber { index: spec_branch_number(branch), hardened: false },
    ]
}

/// The path of a branch of an account.
pub fn branch_path(mainnet: bool, account: u32, branch: Branch) -> (r: Vec<ChildNumber>)
    ensures
        r@ == spec_branch_path(mainnet, account, branch),
{
    let coin: u32 = if mainnet {
        0
    } else {
        1
    };
    let number: u32 = match branch {
        Branch::Receive => 0,
        Branch::Change => 1,
    };
    let mut r: Vec<ChildNumber> = Vec::new();
    r.push(ChildNumber { index: PURPOSE, hardened: true });
    r.push(ChildNumber { index: coin, hardened: true });
    r.push(ChildNumber { index: account, hardened: true });
    r.push(ChildNumber { index: number, hardened: false });
    assert(r@ =~= spec_branch_path(mainnet, account, branch));
    r
}

/// Whether a path keeps the rule of hardening: purpose, coin type and
/// account are hardened, and nothing behind them is.
pub open spec fn spec_hardened_to_account(path: Seq<ChildNumber>) -> bool {
    &&& path.len() >= 3
    &&& forall|i: int| 0 <= i < path.len() ==> ((#[trigger] path[i]).hardened <==> i < 3)
}

/// Whether a path keeps the rule of hardening.
pub fn hardened_to_account(path: &Vec<ChildNumber>) -> (r: bool)
    ensures
        r == spec_hardened_to_account(path@),
{
    if path.len() < 3 {
        return false;
    }
    let mut i: usize = 0;
    while i < path.len()
        invariant
            i <= path@.len(),
            path@.len() >= 3,
            forall|j: int| 0 <= j < i ==> ((#[trigger] path@[j]).hardened <==> j < 3),
        decreases path@.len() - i,
    {
        if path[i].hardened != (i < 3) {
            return false;
        }
        i += 1;
    }
    true
}

/// The two paths of an account differ in their last step and nowhere else,
/// and both keep the rule of hardening.
pub proof fn lemma_branch_paths(mainnet: bool, account: u32)
    ensures
        spec_branch_path(mainnet, account, Branch::Receive).drop_last() == spec_branch_path(
            mainnet,
            account,
            Branch::Change,
        ).drop_last(),
        spec_branch_path(mainnet, account, Branch::Receive).last() != spec_branch_path(
            mainnet,
            account,
            Branch::Change,
        ).last(),
        spec_hardened_to_account(spec_branch_path(mainnet, account, Branch::Receive)),
        spec_hardened_to_account(spec_branch_path(mainnet, account, Branch::Change)),
{
    let a = spec_branch_path(mainnet, account, Branch::Receive);
    let b = spec_branch_path(mainnet, account, Branch::Change);
    assert(a.drop_last() =~= b.drop_last());
    assert(a.last().index == 0 && b.last().index == 1);
}

/// The descriptor of one branch of an account of a master key: the key is
/// derived along the branch's path, and its origin is the master key's
/// fingerprint with that path.
pub open spec fn spec_branch_descriptor(master: ExtendedKeyView, account: u32, branch: Branch)
    -> Result<DescriptorView, DescriptorError> {
    let mainnet = is_mainnet_data(master.data);
    let path = spec_branch_path(mainnet, account, branch);
    match spec_derive(master, path) {
        Err(failure) => Err(
            match failure.kind {
                DeriveError::InvalidPath => DescriptorError::InvalidPath,
                DeriveError::DerivationOverflow => DescriptorError::DerivationOverflow,
                DeriveError::KeyRejected => DescriptorError::KeyRejected,
            },
        ),
        Ok(key) => match spec_fingerprint(master.data) {
            None => Err(DescriptorError::KeyRejected),
            Some(fingerprint) => spec_build(key, fingerprint, path),
        },
    }
}

/// The descriptor of one branch of an account of a master key. A master key
/// without its private half has none: the account is behind hardened steps.
pub fn branch_descriptor(master: &ExtendedKey, account: u32, branch: Branch) -> (r: Result<
    Descriptor,
    DescriptorError,
>)
    requires
        master.wf(),
    ensures
        match r {
            Ok(d) => spec_branch_descriptor(master@, account, branch) == Ok::<
                DescriptorView,
                DescriptorError,
            >(d@) && d.wf(),
            Err(e) => spec_branch_descriptor(master@, account, branch) == Err::<
                DescriptorView,
                DescriptorError,
            >(e),
        },
{
    let path = branch_path(master.is_mainnet(), account, branch);
    let key = match master.derive(&path) {
        Err(failure) => {
            return Err(
                match failure.kind {
                    DeriveError::InvalidPath => DescriptorError::InvalidPath,
                    DeriveError::DerivationOverflow => DescriptorError::DerivationOverflow,
                    DeriveError::KeyRejected => DescriptorError::KeyRejected,
                },
            );
        },
        Ok(key) => key,
    };
    let fingerprint = match master.fingerprint() {
        None => {
            return Err(DescriptorError::KeyRejected);
        },
        Some(f) => f,
    };
    let origin = KeyOrigin { fingerprint, path };
    build(&key, &origin)
}

/// A descriptor is a function of the key and its origin: built twice from
/// the same key and the same path, its text is the same, letter for letter.
pub proof fn lemma_descriptor_stable(
    key: ExtendedKeyView,
    fingerprint: Seq<u8>,
    path: Seq<ChildNumber>,
    first: DescriptorView,
    second: DescriptorView,
)
    requires
        spec_build(key, fingerprint, path) == Ok::<DescriptorView, DescriptorError>(first),
        spec_build(key, fingerprint, path) == Ok::<DescriptorView, DescriptorError>(second),
    ensures
        first.text == second.text,
        first == second,
{
}

/// The descriptors of the same branch of the same account of one master key
/// are the same, text and all.
pub proof fn lemma_branch_descriptor_stable(
    master: ExtendedKeyView,
    account: u32,
    branch: Branch,
    first: DescriptorView,
    second: DescriptorView,
)
    requires
        spec_branch_descriptor(master, account, branch) == Ok::<DescriptorView, DescriptorError>(
            first,
        ),
        spec_branch_descriptor(master, account, branch) == Ok::<DescriptorView, DescriptorError>(
            second,
        ),
    ensures
        first.text == second.text,
{
}

/// The identity of a wallet: its network and the name that its two
/// descriptors make. Wallets of different networks have different
/// identities, whatever their descriptors.
pub struct WalletId {
    pub network: Network,
    pub name: String,
}

/// What identifies the wallet of two descriptors on a network.
pub open spec fn spec_wallet_identity(receive: Seq<char>, change: Seq<char>, network: Network)
    -> Option<(Network, Seq<char>)> {
    match spec_wallet_name(receive, change, network.spec_tag()) {
        Some(name) => Some((network, name)),
        None => None,
    }
}

impl WalletId {
    /// The network and the name that make up the identity.
    pub open spec fn spec_pair(&self) -> (Network, Seq<char>) {
        (self.network, self.name@)
    }

    /// Whether two identities are the same.
    pub fn same_as(&self, other: &WalletId) -> (r: bool)
        ensures
            r == (self.spec_pair() == other.spec_pair()),
    {
        self.network == other.network && self.name == other.name
    }
}

/// Computes the identity of the wallet that a receive descriptor and a
/// change descriptor make on a network. It is the name under which the
/// wallet's state is stored.
pub fn wallet_identity(receive: &Descriptor, change: &Descriptor, network: Network) -> (r: Result<
    WalletId,
    DescriptorError,
>)
    ensures
        match r {
            Ok(id) => spec_wallet_identity(receive@.text, change@.text, network) == Some(
                id.spec_pair(),
            ),
            Err(e) => e == DescriptorError::WrongNetwork && spec_wallet_identity(
                receive@.text,
                change@.text,
                network,
            ) is None,
        },
{
    match wallet_name(receive.text(), change.text(), network) {
        None => Err(DescriptorError::WrongNetwork),
        Some(name) => Ok(WalletId { network, name }),
    }
}

/// The identity of a wallet is a function of its descriptors and its
/// network, and two wallets that differ in their network, be it only in
/// that, have different identities.
pub proof fn lemma_identity_separates_networks(
    receive: Seq<char>,
    change: Seq<char>,
    first: Network,
    second: Network,
)
    requires
        first != second,
        spec_wallet_identity(receive, change, first) is Some,
        spec_wallet_identity(receive, change, second) is Some,
    ensures
        spec_wallet_identity(receive, change, first) != spec_wallet_identity(
            receive,
            change,
            second,
        ),
{
}

/// A text shows one network at most.
proof fn lemma_one_letter(text: Seq<char>, a: char, b: char)
    requires
        shows_network(text, a),
        shows_network(text, b),
    ensures
        a == b,
{
    let p = choose|at: int| letter_at(text, at, a);
    let q = choose|at: int| letter_at(text, at, b);
    if p < q {
        assert(text[p] != ']');
    } else if q < p {
        assert(text[q] != ']');
    }
}

/// Descriptors built from a key of the main network and from a key of a
/// test network differ in their text, whatever their origins: the one
/// shows `x` behind its origin and the other `t`.
pub proof fn lemma_descriptors_differ_by_network(
    main_key: ExtendedKeyView,
    main_fingerprint: Seq<u8>,
    main_path: Seq<ChildNumber>,
    test_key: ExtendedKeyView,
    test_fingerprint: Seq<u8>,
    test_path: Seq<ChildNumber>,
)
    requires
        is_mainnet_data(main_key.data),
        !is_mainnet_data(test_key.data),
        spec_build(main_key, main_fingerprint, main_path) is Ok,
        spec_build(test_key, test_fingerprint, test_path) is Ok,
    ensures
        spec_build(main_key, main_fingerprint, main_path).unwrap().text != spec_build(
            test_key,
            test_fingerprint,
            test_path,
        ).unwrap().text,
{
    let a = spec_build(main_key, main_fingerprint, main_path).unwrap().text;
    let b = spec_build(test_key, test_fingerprint, test_path).unwrap().text;
    let inner_a = a.subrange(5, a.len() - 1);
    let inner_b = b.subrange(5, b.len() - 1);
    reveal_strlit("wpkh(");
    reveal_strlit(")");
    assert(shows_network(inner_a, 'x')) by {
        let text = choose|text: Seq<char>| shows_network(text, 'x') && a == "wpkh("@ + text + ")"@;
        assert(inner_a =~= text);
    }
    assert(shows_network(inner_b, 't')) by {
        let text = choose|text: Seq<char>| shows_network(text, 't') && b == "wpkh("@ + text + ")"@;
        assert(inner_b =~= text);
    }
    if a == b {
        lemma_one_letter(inner_a, 'x', 't');
    }
}

} // verus!
