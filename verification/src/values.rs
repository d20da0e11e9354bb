//! The fixed-width values that flow through the protocol: 256-bit unsigned
//! and signed quantities and the 256-bit auth token. Each is held as its 32
//! big-endian bytes, which is also its mathematical model (a `Seq<u8>` of
//! length 32); the signed quantity is in two's complement.

use vstd::prelude::*;

verus! {

/// A 256-bit unsigned quantity (e.g. a block height), big-endian.
#[derive(Clone, Debug, PartialEq, Eq)]
pub struct U256 {
    bytes: Vec<u8>,
}

/// A 256-bit signed quantity (e.g. a tip), two's complement big-endian.
#[derive(Clone, Debug, PartialEq, Eq)]
pub struct I256 {
    bytes: Vec<u8>,
}

/// A 256-bit auth token issued on bid acceptance and presented on bundle
/// submission.
#[derive(Clone, Debug, PartialEq, Eq)]
pub struct AuthToken {
    bytes: Vec<u8>,
}

impl View for U256 {
    type V = Seq<u8>;

    closed spec fn view(&self) -> Seq<u8> {
        self.bytes@
    }
}

impl View for I256 {
    type V = Seq<u8>;

    closed spec fn view(&self) -> Seq<u8> {
        self.bytes@
    }
}

impl View for AuthToken {
    type V = Seq<u8>;

    closed spec fn view(&self) -> Seq<u8> {
        self.bytes@
    }
}

/// A 256-bit value is exactly 32 bytes.
pub open spec fn wf_word(s: Seq<u8>) -> bool {
    s.len() == 32
}

impl U256 {
    pub open spec fn wf(self) -> bool {
        wf_word(self@)
    }

    /// Builds the value from its 32 big-endian bytes.
    pub fn from_be_bytes(bytes: Vec<u8>) -> (r: Self)
        requires
            bytes@.len() == 32,
        ensures
            r@ == bytes@,
            r.wf(),
    {
        U256 { bytes }
    }

    /// The 32 big-endian bytes of the value.
    pub fn to_be_bytes(&self) -> (r: &Vec<u8>)
        ensures
            r@ == self@,
    {
        &self.bytes
    }
}

impl I256 {
    pub open spec fn wf(self) -> bool {
        wf_word(self@)
    }

    /// Builds the value from its 32 two's-complement big-endian bytes.
    pub fn from_be_bytes(bytes: Vec<u8>) -> (r: Self)
        requires
            bytes@.len() == 32,
        ensures
            r@ == bytes@,
            r.wf(),
    {
        I256 { bytes }
    }

    /// The 32 two's-complement big-endian bytes of the value.
    pub fn to_be_bytes(&self) -> (r: &Vec<u8>)
        ensures
            r@ == self@,
    {
        &self.bytes
    }
}

impl AuthToken {
    pub open spec fn wf(self) -> bool {
        wf_word(self@)
    }

    /// Builds a token from its 32 big-endian bytes.
    pub fn from_be_bytes(bytes: Vec<u8>) -> (r: Self)
        requires
            bytes@.len() == 32,
        ensures
            r@ == bytes@,
            r.wf(),
    {
        AuthToken { bytes }
    }

    /// The 32 bytes of the token.
    pub fn to_be_bytes(&self) -> (r: &Vec<u8>)
        ensures
            r@ == self@,
    {
        &self.bytes
    }
}

} // verus!
