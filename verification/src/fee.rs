//! What a transaction pays to be mined, as a function of how many inputs it
//! spends.

use vstd::prelude::*;

verus! {

/// Virtual size of all of a transaction but its inputs: version, counts and
/// lock time, a recipient output and a change output.
pub const TX_OVERHEAD_VBYTES: u64 = 73;

/// Virtual size of one witness-pubkey-hash input with its witness.
pub const INPUT_VBYTES: u64 = 68;

/// A fee schedule: what a transaction pays for being there at all, and what
/// it pays on top for each input.
#[derive(Clone, Copy, PartialEq, Eq, Structural, Debug)]
pub struct FeeRate {
    pub base_fee: u64,
    pub fee_per_input: u64,
}

impl FeeRate {
    /// The fee, in satoshis, of a transaction with the given number of
    /// inputs.
    pub open spec fn spec_fee(self, inputs: nat) -> nat {
        self.base_fee as nat + self.fee_per_input as nat * inputs
    }

    /// The fee of a transaction with the given number of inputs. No number of
    /// inputs that a machine can hold takes the fee out of `u128`.
    pub fn fee(self, inputs: usize) -> (r: u128)
        ensures
            r == self.spec_fee(inputs as nat),
            r <= 0xffff_ffff_ffff_ffff_0000_0000_0000_0000,
    {
        let per: u128 = self.fee_per_input as u128;
        let n: u128 = inputs as u128;
        assert(per * n <= 0xffff_ffff_ffff_ffff * 0xffff_ffff_ffff_ffff) by (nonlinear_arith)
            requires
                per <= 0xffff_ffff_ffff_ffff,
                n <= 0xffff_ffff_ffff_ffff,
        ;
        self.base_fee as u128 + per * n
    }

    /// The schedule of a wallet that pays `rate` satoshis for each virtual
    /// byte, by the sizes above. `None` where a coefficient does not fit.
    pub fn from_sat_per_vbyte(rate: u64) -> (r: Option<FeeRate>)
        ensures
            match r {
                Some(f) => f.base_fee == rate * TX_OVERHEAD_VBYTES && f.fee_per_input == rate
                    * INPUT_VBYTES,
                None => rate * TX_OVERHEAD_VBYTES > u64::MAX,
            },
    {
        match rate.checked_mul(TX_OVERHEAD_VBYTES) {
            None => None,
            Some(base_fee) => {
                assert(rate * INPUT_VBYTES <= rate * TX_OVERHEAD_VBYTES) by (nonlinear_arith)
                    requires
                        INPUT_VBYTES <= TX_OVERHEAD_VBYTES,
                        rate >= 0,
                ;
                Some(FeeRate { base_fee, fee_per_input: rate * INPUT_VBYTES })
            },
        }
    }
}

/// A transaction with more inputs pays no less.
pub proof fn lemma_fee_monotonic(rate: FeeRate, a: nat, b: nat)
    requires
        a <= b,
    ensures
        rate.spec_fee(a) <= rate.spec_fee(b),
{
    assert(rate.fee_per_input as nat * a <= rate.fee_per_input as nat * b) by (nonlinear_arith)
        requires
            a <= b,
    ;
}

} // verus!
