//! Extended keys and their derivation along a path.
//!
//! An extended key is held in its 78-byte serialization: four version
//! bytes, the depth, the parent's fingerprint, the child number, the chain
//! code and the key. Beside it stands the path that led to it from the
//! master key.

use crate::outside::{
    ckd_priv, ckd_pub, hash160, neuter, parse_path, private_version, public_version,
    spec_ckd_priv, spec_ckd_pub, spec_hash160, spec_neuter, spec_parse_path,
};
use vstd::prelude::*;

verus! {

/// The first child number of the hardened range.
pub const HARDENED: u32 = 0x8000_0000;

/// The length of a serialized extended key.
pub const KEY_LEN: usize = 78;

/// One step of a derivation path.
#[derive(Clone, Copy, PartialEq, Eq, Structural, Debug)]
pub struct ChildNumber {
    pub index: u32,
    pub hardened: bool,
}

impl ChildNumber {
    /// The step as one number: the index, with the top bit set where the
    /// step is hardened. It is meant for an index below 2^31.
    pub open spec fn spec_number(self) -> u32 {
        if self.hardened && self.index < HARDENED {
            (self.index + HARDENED) as u32
        } else {
            self.index
        }
    }

    /// The step as one number, or `None` where the index is out of range.
    pub fn number(self) -> (r: Option<u32>)
        ensures
            r == if self.index < HARDENED {
                Some(self.spec_number())
            } else {
                None
            },
    {
        if self.index >= HARDENED {
            None
        } else if self.hardened {
            Some(self.index + HARDENED)
        } else {
            Some(self.index)
        }
    }

    /// The step that a number stands for.
    pub open spec fn spec_from_number(number: u32) -> ChildNumber {
        if number >= HARDENED {
            ChildNumber { index: (number - HARDENED) as u32, hardened: true }
        } else {
            ChildNumber { index: number, hardened: false }
        }
    }

    /// The step that a number stands for: hardened where the top bit is
    /// set.
    pub fn from_number(number: u32) -> (r: ChildNumber)
        ensures
            r == Self::spec_from_number(number),
            r.index < HARDENED,
            r.spec_number() == number,
    {
        if number >= HARDENED {
            ChildNumber { index: number - HARDENED, hardened: true }
        } else {
            ChildNumber { index: number, hardened: false }
        }
    }
}

/// Why a key could not be derived.
#[derive(Clone, Copy, PartialEq, Eq, Structural, Debug)]
pub enum DeriveError {
    /// A hardened step was asked of a key whose private half is not there,
    /// or the text is no derivation path.
    InvalidPath,
    /// The index of a step is 2^31 or more, or the key is 255 levels deep
    /// already.
    DerivationOverflow,
    /// The key cannot be used, or the arithmetic of the curve gives no child
    /// at this number.
    KeyRejected,
}

/// A walk along a path that failed: why, and at which step of the path,
/// counted from 0.
#[derive(Clone, Copy, PartialEq, Eq, Structural, Debug)]
pub struct PathFailure {
    pub kind: DeriveError,
    pub step: usize,
}

/// What an extended key is: its serialization and the path that led to it.
pub struct ExtendedKeyView {
    pub data: Seq<u8>,
    pub path: Seq<ChildNumber>,
}

/// The serialization is that of a private key.
pub open spec fn is_private_data(data: Seq<u8>) -> bool {
    data.subrange(0, 4) == private_version(true) || data.subrange(0, 4) == private_version(false)
}

/// The serialization is that of a public key.
pub open spec fn is_public_data(data: Seq<u8>) -> bool {
    data.subrange(0, 4) == public_version(true) || data.subrange(0, 4) == public_version(false)
}

/// The serialization is that of a key of the main network.
pub open spec fn is_mainnet_data(data: Seq<u8>) -> bool {
    data.subrange(0, 4) == private_version(true) || data.subrange(0, 4) == public_version(true)
}

/// The key is well formed: 78 bytes that begin with one of the four known
/// versions, and as deep as its path is long.
pub open spec fn key_wf(key: ExtendedKeyView) -> bool {
    &&& key.data.len() == KEY_LEN
    &&& is_private_data(key.data) || is_public_data(key.data)
    &&& key.data[4] == key.path.len()
}

/// The child of a key at one step.
///
/// A private key has every child. A public key has the children that are
/// not hardened. No key has a child at an index of 2^31 or more, or below
/// depth 255.
pub open spec fn spec_child(key: ExtendedKeyView, step: ChildNumber) -> Result<
    ExtendedKeyView,
    DeriveError,
> {
    if step.index >= HARDENED || key.data[4] == 255 {
        Err(DeriveError::DerivationOverflow)
    } else if is_private_data(key.data) {
        match spec_ckd_priv(key.data, step.spec_number()) {
            Some(child) => Ok(ExtendedKeyView { data: child, path: key.path.push(step) }),
            None => Err(DeriveError::KeyRejected),
        }
    } else if step.hardened {
        Err(DeriveError::InvalidPath)
    } else {
        match spec_ckd_pub(key.data, step.spec_number()) {
            Some(child) => Ok(ExtendedKeyView { data: child, path: key.path.push(step) }),
            None => Err(DeriveError::KeyRejected),
        }
    }
}

/// The descendant of a key at the end of a path: the path is walked step by
/// step, and the first step that fails gives the error.
pub open spec fn spec_derive(key: ExtendedKeyView, path: Seq<ChildNumber>) -> Result<
    ExtendedKeyView,
    PathFailure,
>
    decreases path.len(),
{
    if path.len() == 0 {
        Ok(key)
    } else {
        match spec_derive(key, path.drop_last()) {
            Ok(parent) => match spec_child(parent, path.last()) {
                Ok(child) => Ok(child),
                Err(kind) => Err(PathFailure { kind: kind, step: (path.len() - 1) as usize }),
            },
            Err(e) => Err(e),
        }
    }
}

/// The serialized public key of an extended key: the last 33 bytes of its
/// public form.
pub open spec fn spec_public_key(data: Seq<u8>) -> Option<Seq<u8>> {
    if is_private_data(data) {
        match spec_neuter(data) {
            Some(public) => Some(public.subrange(45, 78)),
            None => None,
        }
    } else {
        Some(data.subrange(45, 78))
    }
}

/// The fingerprint of an extended key: the first four bytes of the hash of
/// its public key.
pub open spec fn spec_fingerprint(data: Seq<u8>) -> Option<Seq<u8>> {
    match spec_public_key(data) {
        Some(public) => Some(spec_hash160(public).subrange(0, 4)),
        None => None,
    }
}

/// A step that fails makes the whole walk fail, whatever follows it.
pub proof fn lemma_derive_error_stays(
    key: ExtendedKeyView,
    path: Seq<ChildNumber>,
    n: int,
    e: PathFailure,
)
    requires
        0 <= n <= path.len(),
        spec_derive(key, path.subrange(0, n)) == Err::<ExtendedKeyView, PathFailure>(e),
    ensures
        spec_derive(key, path) == Err::<ExtendedKeyView, PathFailure>(e),
    decreases path.len() - n,
{
    if n == path.len() {
        assert(path.subrange(0, n) =~= path);
    } else {
        assert(path.subrange(0, n + 1).drop_last() =~= path.subrange(0, n));
        lemma_derive_error_stays(key, path, n + 1, e);
    }
}

/// Walking a path and then a second one from where the first ended leads
/// to the same key as walking the two on end.
pub proof fn lemma_derive_concat(
    key: ExtendedKeyView,
    first: Seq<ChildNumber>,
    second: Seq<ChildNumber>,
)
    ensures
        spec_derive(key, first) matches Ok(middle) ==> (spec_derive(key, first + second) is Ok
            <==> spec_derive(middle, second) is Ok) && (spec_derive(key, first + second)
            matches Ok(k) ==> spec_derive(middle, second) == Ok::<ExtendedKeyView, PathFailure>(
            k,
        )),
        spec_derive(key, first) is Err ==> spec_derive(key, first + second) == spec_derive(
            key,
            first,
        ),
    decreases second.len(),
{
    if second.len() == 0 {
        assert(first + second =~= first);
    } else {
        lemma_derive_concat(key, first, second.drop_last());
        assert((first + second).drop_last() =~= first + second.drop_last());
        assert((first + second).last() == second.last());
    }
}

/// Derivation is a function: the same key and the same path give the same
/// result, whenever and wherever it is asked for.
pub proof fn lemma_derivation_deterministic(
    key: ExtendedKeyView,
    path: Seq<ChildNumber>,
    first: Result<ExtendedKeyView, PathFailure>,
    second: Result<ExtendedKeyView, PathFailure>,
)
    requires
        first == spec_derive(key, path),
        second == spec_derive(key, path),
    ensures
        first == second,
{
}

/// The path of a derived key is that of the key it came from with the
/// walked path behind it.
pub proof fn lemma_derived_path(key: ExtendedKeyView, path: Seq<ChildNumber>)
    ensures
        spec_derive(key, path) matches Ok(k) ==> k.path == key.path + path,
    decreases path.len(),
{
    if path.len() == 0 {
        assert(key.path + path =~= key.path);
    } else {
        lemma_derived_path(key, path.drop_last());
        if let Ok(parent) = spec_derive(key, path.drop_last()) {
            assert(parent.path.push(path.last()) =~= key.path + path);
        }
    }
}

/// An extended key, private or public.
pub struct ExtendedKey {
    data: Vec<u8>,
    path: Vec<ChildNumber>,
}

impl View for ExtendedKey {
    type V = ExtendedKeyView;

    closed spec fn view(&self) -> ExtendedKeyView {
        ExtendedKeyView { data: self.data@, path: self.path@ }
    }
}

fn copy_bytes(source: &Vec<u8>) -> (r: Vec<u8>)
    ensures
        r@ == source@,
{
    let mut r: Vec<u8> = Vec::new();
    let mut i: usize = 0;
    while i < source.len()
        invariant
            i <= source@.len(),
            r@ == source@.subrange(0, i as int),
        decreases source@.len() - i,
    {
        r.push(source[i]);
        i += 1;
    }
    assert(source@.subrange(0, source@.len() as int) =~= source@);
    r
}

fn copy_steps(source: &Vec<ChildNumber>) -> (r: Vec<ChildNumber>)
    ensures
        r@ == source@,
{
    let mut r: Vec<ChildNumber> = Vec::new();
    let mut i: usize = 0;
    while i < source.len()
        invariant
            i <= source@.len(),
            r@ == source@.subrange(0, i as int),
        decreases source@.len() - i,
    {
        r.push(source[i]);
        i += 1;
    }
    assert(source@.subrange(0, source@.len() as int) =~= source@);
    r
}

/// Whether the serialization begins with the four given bytes.
fn has_version(data: &Vec<u8>, a: u8, b: u8, c: u8, d: u8) -> (r: bool)
    requires
        data@.len() >= 4,
    ensures
        r == (data@.subrange(0, 4) == seq![a, b, c, d]),
{
    let r = data[0] == a && data[1] == b && data[2] == c && data[3] == d;
    proof {
        let head = data@.subrange(0, 4);
        if r {
            assert(head =~= seq![a, b, c, d]);
        } else {
            assert(head[0] == data@[0] && head[1] == data@[1] && head[2] == data@[2] && head[3]
                == data@[3]);
            assert(seq![a, b, c, d][0] == a && seq![a, b, c, d][1] == b && seq![a, b, c, d][2]
                == c && seq![a, b, c, d][3] == d);
        }
    }
    r
}

impl ExtendedKey {
    /// What holds of every key.
    pub open spec fn wf(&self) -> bool {
        key_wf(self@)
    }

    /// A master key from its serialization, if it is well formed and at
    /// depth 0.
    pub fn from_master_data(data: Vec<u8>) -> (r: Option<ExtendedKey>)
        ensures
            r is Some <==> (data@.len() == KEY_LEN && (is_private_data(data@) || is_public_data(
                data@,
            )) && data@[4] == 0),
            r matches Some(k) ==> k.wf() && k@.data == data@ && k@.path
                == Seq::<ChildNumber>::empty(),
    {
        if data.len() != KEY_LEN || data[4] != 0 {
            return None;
        }
        let known = has_version(&data, 0x04, 0x88, 0xAD, 0xE4) || has_version(
            &data,
            0x04,
            0x35,
            0x83,
            0x94,
        ) || has_version(&data, 0x04, 0x88, 0xB2, 0x1E) || has_version(
            &data,
            0x04,
            0x35,
            0x87,
            0xCF,
        );
        if !known {
            return None;
        }
        Some(ExtendedKey { data, path: Vec::new() })
    }

    /// A copy of the key.
    pub fn duplicate(&self) -> (r: ExtendedKey)
        ensures
            r@ == self@,
    {
        ExtendedKey { data: copy_bytes(&self.data), path: copy_steps(&self.path) }
    }

    /// The 78 bytes of the key.
    pub fn data(&self) -> (r: &Vec<u8>)
        ensures
            r@ == self@.data,
    {
        &self.data
    }

    /// The path from the master key to this key.
    pub fn path(&self) -> (r: &Vec<ChildNumber>)
        ensures
            r@ == self@.path,
    {
        &self.path
    }

    /// How many steps the key is away from the master key.
    pub fn depth(&self) -> (r: u8)
        requires
            self.wf(),
        ensures
            r == self@.data[4],
            r == self@.path.len(),
    {
        self.data[4]
    }

    /// Whether the key holds its private half.
    pub fn is_private(&self) -> (r: bool)
        requires
            self.wf(),
        ensures
            r == is_private_data(self@.data),
            !r == is_public_data(self@.data),
    {
        let r = has_version(&self.data, 0x04, 0x88, 0xAD, 0xE4) || has_version(
            &self.data,
            0x04,
            0x35,
            0x83,
            0x94,
        );
        proof {
            lemma_versions_differ();
        }
        r
    }

    /// Whether the key is written for the main network.
    pub fn is_mainnet(&self) -> (r: bool)
        requires
            self.wf(),
        ensures
            r == is_mainnet_data(self@.data),
    {
        has_version(&self.data, 0x04, 0x88, 0xAD, 0xE4) || has_version(
            &self.data,
            0x04,
            0x88,
            0xB2,
            0x1E,
        )
    }

    /// The chain code: the 32 bytes that make the children of this key
    /// differ from those of another key with the same key material.
    pub fn chain_code(&self) -> (r: Vec<u8>)
        requires
            self.wf(),
        ensures
            r@ == self@.data.subrange(13, 45),
    {
        slice_of(&self.data, 13, 45)
    }

    /// The fingerprint of the parent, as the key records it.
    pub fn parent_fingerprint(&self) -> (r: Vec<u8>)
        requires
            self.wf(),
        ensures
            r@ == self@.data.subrange(5, 9),
    {
        slice_of(&self.data, 5, 9)
    }

    /// The public counterpart of the key: of a private key the public key
    /// at the same place, of a public key the key itself.
    pub fn to_public(&self) -> (r: Result<ExtendedKey, DeriveError>)
        requires
            self.wf(),
        ensures
            match r {
                Ok(k) => {
                    &&& k.wf()
                    &&& is_public_data(k@.data)
                    &&& k@.path == self@.path
                    &&& k@.data == if is_private_data(self@.data) {
                        spec_neuter(self@.data).unwrap()
                    } else {
                        self@.data
                    }
                },
                Err(e) => e == DeriveError::KeyRejected && is_private_data(self@.data)
                    && spec_neuter(self@.data) is None,
            },
    {
        if self.is_private() {
            match neuter(&self.data) {
                None => Err(DeriveError::KeyRejected),
                Some(public) => Ok(ExtendedKey { data: public, path: copy_steps(&self.path) }),
            }
        } else {
            Ok(self.duplicate())
        }
    }

    /// The 32 bytes of the private key. They are the secret itself: the
    /// caller keeps them no longer than it signs with them.
    pub fn secret_bytes(&self) -> (r: Vec<u8>)
        requires
            self.wf(),
        ensures
            r@ == self@.data.subrange(46, 78),
    {
        slice_of(&self.data, 46, 78)
    }

    /// Overwrites the key with zeros and drops it.
    pub fn wipe(self) {
        let mut data = self.data;
        let mut i: usize = 0;
        while i < data.len()
            invariant
                i <= data@.len(),
                forall|j: int| 0 <= j < i ==> data@[j] == 0,
            decreases data@.len() - i,
        {
            data.set(i, 0u8);
            i += 1;
        }
    }

    /// The serialized public key: 33 bytes of a well-formed key.
    pub fn public_key(&self) -> (r: Option<Vec<u8>>)
        requires
            self.wf(),
        ensures
            match r {
                Some(p) => spec_public_key(self@.data) == Some(p@) && p@.len() == 33,
                None => spec_public_key(self@.data) is None,
            },
    {
        if self.is_private() {
            match neuter(&self.data) {
                None => None,
                Some(public) => Some(slice_of(&public, 45, 78)),
            }
        } else {
            Some(slice_of(&self.data, 45, 78))
        }
    }

    /// The fingerprint of the key: the first four bytes of the hash of its
    /// public key. It is the tag by which a descriptor names the key it
    /// came from.
    pub fn fingerprint(&self) -> (r: Option<[u8; 4]>)
        requires
            self.wf(),
        ensures
            match r {
                Some(f) => spec_fingerprint(self@.data) == Some(f@),
                None => spec_fingerprint(self@.data) is None,
            },
    {
        match self.public_key() {
            None => None,
            Some(public) => {
                let digest = hash160(&public);
                let f = [digest[0], digest[1], digest[2], digest[3]];
                assert(f@ =~= digest@.subrange(0, 4));
                Some(f)
            },
        }
    }

    /// The child of the key at one step.
    pub fn child(&self, step: ChildNumber) -> (r: Result<ExtendedKey, DeriveError>)
        requires
            self.wf(),
        ensures
            match r {
                Ok(k) => spec_child(self@, step) == Ok::<ExtendedKeyView, DeriveError>(k@)
                    && k.wf(),
                Err(e) => spec_child(self@, step) == Err::<ExtendedKeyView, DeriveError>(e),
            },
    {
        let number = match step.number() {
            None => {
                return Err(DeriveError::DerivationOverflow);
            },
            Some(n) => n,
        };
        if self.data[4] == 255 {
            return Err(DeriveError::DerivationOverflow);
        }
        let private = self.is_private();
        if !private && step.hardened {
            return Err(DeriveError::InvalidPath);
        }
        let derived = if private {
            ckd_priv(&self.data, number)
        } else {
            ckd_pub(&self.data, number)
        };
        match derived {
            None => Err(DeriveError::KeyRejected),
            Some(data) => {
                let mut path = copy_steps(&self.path);
                path.push(step);
                Ok(ExtendedKey { data, path })
            },
        }
    }

    /// The descendant of the key at the end of a path.
    ///
    /// The path is walked step by step. A hardened step needs the private
    /// half of the key walked from; a step that is not hardened is taken
    /// from either half.
    pub fn derive(&self, path: &Vec<ChildNumber>) -> (r: Result<ExtendedKey, PathFailure>)
        requires
            self.wf(),
        ensures
            match r {
                Ok(k) => spec_derive(self@, path@) == Ok::<ExtendedKeyView, PathFailure>(k@)
                    && k.wf(),
                Err(e) => spec_derive(self@, path@) == Err::<ExtendedKeyView, PathFailure>(e)
                    && e.step < path@.len(),
            },
    {
        let mut current = self.duplicate();
        let mut i: usize = 0;
        while i < path.len()
            invariant
                i <= path@.len(),
                current.wf(),
                spec_derive(self@, path@.subrange(0, i as int)) == Ok::<
                    ExtendedKeyView,
                    PathFailure,
                >(current@),
            decreases path@.len() - i,
        {
            proof {
                assert(path@.subrange(0, i as int + 1).drop_last() =~= path@.subrange(0, i as int));
            }
            match current.child(path[i]) {
                Ok(next) => {
                    current = next;
                },
                Err(kind) => {
                    let e = PathFailure { kind, step: i };
                    proof {
                        lemma_derive_error_stays(self@, path@, i as int + 1, e);
                    }
                    return Err(e);
                },
            }
            i += 1;
        }
        assert(path@.subrange(0, path@.len() as int) =~= path@);
        Ok(current)
    }
}

/// Derives the private key at the end of a path from a master key.
///
/// It fails with `InvalidPath` where a hardened step meets a key without
/// its private half, with `DerivationOverflow` where an index is 2^31 or
/// more or the tree is 255 levels deep, and with `KeyRejected` where the
/// curve gives no child; the first step that fails decides, and the failure
/// says which step it was.
pub fn derive_private(master: &ExtendedKey, path: &Vec<ChildNumber>) -> (r: Result<
    ExtendedKey,
    PathFailure,
>)
    requires
        master.wf(),
    ensures
        match r {
            Ok(k) => spec_derive(master@, path@) == Ok::<ExtendedKeyView, PathFailure>(k@)
                && k.wf(),
            Err(e) => spec_derive(master@, path@) == Err::<ExtendedKeyView, PathFailure>(e)
                && e.step < path@.len(),
        },
{
    master.derive(path)
}

/// The steps that a sequence of child numbers stands for.
pub open spec fn steps_of(numbers: Seq<u32>) -> Seq<ChildNumber> {
    numbers.map_values(|n: u32| ChildNumber::spec_from_number(n))
}

/// Reads a derivation path from text such as `m/84'/1'/0'/0/0`.
pub fn parse_derivation_path(text: &str) -> (r: Result<Vec<ChildNumber>, DeriveError>)
    ensures
        match r {
            Ok(p) => spec_parse_path(text@) matches Some(numbers) && p@ == steps_of(numbers),
            Err(e) => e == DeriveError::InvalidPath && spec_parse_path(text@) is None,
        },
{
    match parse_path(text) {
        None => Err(DeriveError::InvalidPath),
        Some(numbers) => {
            let mut steps: Vec<ChildNumber> = Vec::new();
            let mut i: usize = 0;
            while i < numbers.len()
                invariant
                    i <= numbers@.len(),
                    steps@ == steps_of(numbers@.subrange(0, i as int)),
                decreases numbers@.len() - i,
            {
                steps.push(ChildNumber::from_number(numbers[i]));
                i += 1;
                assert(steps@ =~= steps_of(numbers@.subrange(0, i as int)));
            }
            assert(numbers@.subrange(0, numbers@.len() as int) =~= numbers@);
            Ok(steps)
        },
    }
}

/// The four versions are four different things.
pub proof fn lemma_versions_differ()
    ensures
        private_version(true) != private_version(false),
        private_version(true) != public_version(true),
        private_version(true) != public_version(false),
        private_version(false) != public_version(true),
        private_version(false) != public_version(false),
        public_version(true) != public_version(false),
{
    assert(private_version(true)[1] == 0x88u8 && private_version(true)[2] == 0xADu8);
    assert(private_version(false)[1] == 0x35u8 && private_version(false)[2] == 0x83u8);
    assert(public_version(true)[1] == 0x88u8 && public_version(true)[2] == 0xB2u8);
    assert(public_version(false)[1] == 0x35u8 && public_version(false)[2] == 0x87u8);
}

/// The bytes of `data` from `from` up to `to`.
fn slice_of(data: &Vec<u8>, from: usize, to: usize) -> (r: Vec<u8>)
    requires
        from <= to <= data@.len(),
    ensures
        r@ == data@.subrange(from as int, to as int),
{
    let mut r: Vec<u8> = Vec::new();
    let mut i: usize = from;
    while i < to
        invariant
            from <= i <= to,
            to <= data@.len(),
            r@ == data@.subrange(from as int, i as int),
        decreases to - i,
    {
        r.push(data[i]);
        i += 1;
    }
    r
}

} // verus!
