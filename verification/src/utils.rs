//! Helpers for addresses.

use vstd::prelude::*;
use vstd::string::{StrSliceExecFns, StringSliceAdditionalSpecFns};

verus! {

/// The number of bytes in a canonical address.
pub const CANONICAL_LEN: usize = 20;

/// The least number of bytes in a human address.
pub const HUMAN_MIN_LEN: usize = 3;

/// Why a human address has no canonical form.
#[derive(Clone, Copy, Debug, PartialEq, Eq, Structural)]
pub enum AddressError {
    TooShort,
    TooLong,
}

impl AddressError {
    /// The refusal in words.
    pub fn describe(&self) -> (r: &'static str)
        ensures
            r@ == match self {
                AddressError::TooShort => "Invalid input: human address too short"@,
                AddressError::TooLong => "Invalid input: human address too long"@,
            },
    {
        match self {
            AddressError::TooShort => "Invalid input: human address too short",
            AddressError::TooLong => "Invalid input: human address too long",
        }
    }
}

/// `n` zero bytes.
pub open spec fn zeros(n: nat) -> Seq<u8> {
    Seq::new(n, |i: int| 0u8)
}

/// The canonical form of an address of `bytes`: the bytes themselves,
/// filled up with zero bytes to the canonical length. An address of fewer
/// than three bytes, or of more than the canonical length, has none.
pub open spec fn canonical_of(bytes: Seq<u8>) -> Result<Seq<u8>, AddressError> {
    if bytes.len() < HUMAN_MIN_LEN {
        Err(AddressError::TooShort)
    } else if bytes.len() > CANONICAL_LEN {
        Err(AddressError::TooLong)
    } else {
        Ok(bytes + zeros((CANONICAL_LEN - bytes.len()) as nat))
    }
}

/// The home of the address helpers.
#[derive(Debug)]
pub struct Utils;

impl Utils {
    /// The canonical form of a human address.
    pub fn canonical_address(human: &str) -> (r: Result<Vec<u8>, AddressError>)
        ensures
            match r {
                Ok(out) => canonical_of(human.spec_bytes()) == Ok::<Seq<u8>, AddressError>(out@),
                Err(e) => canonical_of(human.spec_bytes()) == Err::<Seq<u8>, AddressError>(e),
            },
    {
        let n = human.as_bytes().len();
        if n < HUMAN_MIN_LEN {
            return Err(AddressError::TooShort);
        }
        if n > CANONICAL_LEN {
            return Err(AddressError::TooLong);
        }
        let mut out = human.as_bytes_vec();
        let ghost bytes = out@;
        assert(out@ =~= bytes + zeros(0));
        while out.len() < CANONICAL_LEN
            invariant
                bytes.len() <= out@.len() <= CANONICAL_LEN,
                out@ == bytes + zeros((out@.len() - bytes.len()) as nat),
            decreases CANONICAL_LEN - out@.len(),
        {
            let ghost before = out@;
            out.push(0u8);
            assert(out@ =~= bytes + zeros((out@.len() - bytes.len()) as nat));
        }
        Ok(out)
    }
}

} // verus!
