//! The outcome types a backend can return: one enum for bid submissions and
//! one for bundle submissions, each with a ghost value model, a
//! well-formedness predicate, and a canonical human-readable rendering
//! (distinct from the wire encoding in `codec`). Also the single-field
//! envelope every successful response is wrapped in.

use vstd::prelude::*;

use crate::decimal::{be_nat, dec_of, int_dec_of, push_dec, push_int_dec};
use crate::encoding::{hex_of, push_hex, push_lit, string_of_chars};
use crate::values::{AuthToken, I256, U256};

verus! {

/// The mathematical model of a bid outcome: 256-bit quantities as their 32
/// bytes, text as its characters.
pub ghost enum BidVal {
    Accept { tip: Seq<u8>, block: Seq<u8> },
    AcceptWithAuth { tip: Seq<u8>, token: Seq<u8>, block: Seq<u8> },
    Decline,
    Incomplete { reason: Seq<char> },
}

/// The mathematical model of a bundle outcome.
pub ghost enum BundleVal {
    Bundled,
    TipTooLow { required: Seq<u8> },
    NewBid { bid: BidVal },
    UnknownToken,
    Rejection { reason: Seq<char> },
}

/// Every quantity and token of a bid outcome is exactly 256 bits.
pub open spec fn wf_bid_val(v: BidVal) -> bool {
    match v {
        BidVal::Accept { tip, block } => tip.len() == 32 && block.len() == 32,
        BidVal::AcceptWithAuth { tip, token, block } => tip.len() == 32 && token.len() == 32
            && block.len() == 32,
        BidVal::Decline => true,
        BidVal::Incomplete { reason } => true,
    }
}

/// Every quantity of a bundle outcome is exactly 256 bits.
pub open spec fn wf_bundle_val(v: BundleVal) -> bool {
    match v {
        BundleVal::Bundled => true,
        BundleVal::TipTooLow { required } => required.len() == 32,
        BundleVal::NewBid { bid } => wf_bid_val(bid),
        BundleVal::UnknownToken => true,
        BundleVal::Rejection { reason } => true,
    }
}

/// The outcome of a bid submission. Every domain-level decision, a rejection
/// included, is one of these variants; backend-internal failure is not.
#[derive(Clone, Debug, PartialEq, Eq)]
pub enum BidResponse {
    /// Accepted at a tip for a block height; no auth token issued.
    Accept { tip: I256, block: U256 },
    /// Accepted, and an auth token is issued for the later bundle call.
    AcceptWithAuth { tip: I256, token: AuthToken, block: U256 },
    /// Rejected, no further detail.
    Decline,
    /// Could not be evaluated; carries a human-readable reason.
    Incomplete(String),
}

/// The outcome of a bundle submission.
#[derive(Clone, Debug, PartialEq, Eq)]
pub enum BundleResponse {
    /// The signed transaction is committed for inclusion.
    Bundled,
    /// Rejected; carries the minimum acceptable tip.
    TipTooLow(I256),
    /// The backend counter-offers a fresh bid outcome instead.
    NewBid(BidResponse),
    /// The presented auth token is not recognized.
    UnknownToken,
    /// Generic rejection with a free-text reason.
    Rejection(String),
}

impl View for BidResponse {
    type V = BidVal;

    open spec fn view(&self) -> BidVal {
        match self {
            BidResponse::Accept { tip, block } => BidVal::Accept { tip: tip@, block: block@ },
            BidResponse::AcceptWithAuth { tip, token, block } => BidVal::AcceptWithAuth {
                tip: tip@,
                token: token@,
                block: block@,
            },
            BidResponse::Decline => BidVal::Decline,
            BidResponse::Incomplete(reason) => BidVal::Incomplete { reason: reason@ },
        }
    }
}

impl View for BundleResponse {
    type V = BundleVal;

    open spec fn view(&self) -> BundleVal {
        match self {
            BundleResponse::Bundled => BundleVal::Bundled,
            BundleResponse::TipTooLow(required) => BundleVal::TipTooLow { required: required@ },
            BundleResponse::NewBid(bid) => BundleVal::NewBid { bid: bid@ },
            BundleResponse::UnknownToken => BundleVal::UnknownToken,
            BundleResponse::Rejection(reason) => BundleVal::Rejection { reason: reason@ },
        }
    }
}

impl BidResponse {
    pub open spec fn wf(self) -> bool {
        wf_bid_val(self@)
    }
}

impl BundleResponse {
    pub open spec fn wf(self) -> bool {
        wf_bundle_val(self@)
    }
}

/// The single-field envelope a successful outcome is wrapped in on the wire.
#[derive(Clone, Debug)]
pub struct ApiResponse<T> {
    response: T,
}

impl<T> ApiResponse<T> {
    /// The wrapped outcome.
    pub closed spec fn spec_response(self) -> T {
        self.response
    }

    /// Wraps an outcome.
    pub fn new(response: T) -> (r: Self)
        ensures
            r.spec_response() == response,
    {
        Self { response }
    }

    /// A borrow of the wrapped outcome.
    pub fn response(&self) -> (r: &T)
        ensures
            *r == self.spec_response(),
    {
        &self.response
    }

    /// Unwraps the outcome.
    pub fn into_inner(self) -> (r: T)
        ensures
            r == self.spec_response(),
    {
        self.response
    }
}

/// The canonical human-readable rendering of a bid outcome: the tip as a
/// signed decimal, the block height as an unsigned decimal, the token in
/// full hex.
pub open spec fn spec_render_bid(v: BidVal) -> Seq<char> {
    match v {
        BidVal::Accept { tip, block } => "Accept "@ + int_dec_of(tip) + " @ height "@ + dec_of(
            be_nat(block),
        ),
        BidVal::AcceptWithAuth { tip, token, block } => "Accept "@ + int_dec_of(tip)
            + " @ height "@ + dec_of(be_nat(block)) + " with 0x"@ + hex_of(token),
        BidVal::Decline => "Decline"@,
        BidVal::Incomplete { reason } => "Incomplete: "@ + reason,
    }
}

/// The canonical human-readable rendering of a bundle outcome; the required
/// tip as a signed decimal.
pub open spec fn spec_render_bundle(v: BundleVal) -> Seq<char> {
    match v {
        BundleVal::Bundled => "Bundled"@,
        BundleVal::TipTooLow { required } => "TipTooLow "@ + int_dec_of(required),
        BundleVal::NewBid { bid } => "New Quote "@ + spec_render_bid(bid),
        BundleVal::UnknownToken => "UnknownToken"@,
        BundleVal::Rejection { reason } => "Rejection: "@ + reason,
    }
}

impl BidResponse {
    /// Renders the outcome for diagnostics, as `spec_render_bid` says.
    pub fn render(&self) -> (r: String)
        ensures
            r@ == spec_render_bid(self@),
    {
        let mut out: Vec<char> = Vec::new();
        push_render_bid(&mut out, self);
        string_of_chars(&out)
    }
}

impl BundleResponse {
    /// Renders the outcome for diagnostics, as `spec_render_bundle` says.
    pub fn render(&self) -> (r: String)
        ensures
            r@ == spec_render_bundle(self@),
    {
        let mut out: Vec<char> = Vec::new();
        match self {
            BundleResponse::Bundled => {
                push_lit(&mut out, "Bundled");
            },
            BundleResponse::TipTooLow(required) => {
                push_lit(&mut out, "TipTooLow ");
                push_int_dec(&mut out, required.to_be_bytes());
            },
            BundleResponse::NewBid(bid) => {
                push_lit(&mut out, "New Quote ");
                push_render_bid(&mut out, bid);
            },
            BundleResponse::UnknownToken => {
                push_lit(&mut out, "UnknownToken");
            },
            BundleResponse::Rejection(reason) => {
                push_lit(&mut out, "Rejection: ");
                push_lit(&mut out, reason.as_str());
            },
        }
        assert(out@ =~= spec_render_bundle(self@));
        string_of_chars(&out)
    }
}

/// Appends the rendering of a bid outcome to the output.
fn push_render_bid(out: &mut Vec<char>, v: &BidResponse)
    ensures
        final(out)@ == old(out)@ + spec_render_bid(v@),
{
    match v {
        BidResponse::Accept { tip, block } => {
            push_lit(out, "Accept ");
            push_int_dec(out, tip.to_be_bytes());
            push_lit(out, " @ height ");
            push_dec(out, block.to_be_bytes());
        },
        BidResponse::AcceptWithAuth { tip, token, block } => {
            push_lit(out, "Accept ");
            push_int_dec(out, tip.to_be_bytes());
            push_lit(out, " @ height ");
            push_dec(out, block.to_be_bytes());
            push_lit(out, " with 0x");
            push_hex(out, token.to_be_bytes());
        },
        BidResponse::Decline => {
            push_lit(out, "Decline");
        },
        BidResponse::Incomplete(reason) => {
            push_lit(out, "Incomplete: ");
            push_lit(out, reason.as_str());
        },
    }
    assert(final(out)@ =~= old(out)@ + spec_render_bid(v@));
}

} // verus!
