//! The canonical JSON wire encoding of bid and bundle outcomes and its
//! decoder. Variants are externally tagged with lowerCamelCase names;
//! 256-bit quantities are quoted `0x`-prefixed strings of exactly 64
//! lowercase hex digits, so no precision is lost; free-text reasons are
//! JSON-escaped. The decoder is specified as an exact function of the input
//! (`spec_decode_bid` / `spec_decode_bundle`), and the round-trip laws below
//! prove that it accepts precisely the canonical encodings.

use vstd::prelude::*;

use crate::encoding::{
    chars_of_str, escape, hex_of, lemma_glue2, lemma_hex_of_len, lemma_sp_hex_encode,
    lemma_sp_hex_sound, lemma_sp_string_encode, lemma_sp_string_sound, parse_hex_fixed, parse_lit,
    parse_string_body, push_escaped, push_hex, push_lit, sp_hex, sp_lit, sp_string,
    string_of_chars,
};
use crate::responses::{
    wf_bid_val, wf_bundle_val, ApiResponse, BidResponse, BidVal, BundleResponse, BundleVal,
};
use crate::values::{AuthToken, I256, U256};

verus! {

pub open spec fn lit_decline() -> Seq<char> {
    "\"decline\""@
}

pub open spec fn lit_accept_tip() -> Seq<char> {
    "{\"accept\":{\"tip\":\"0x"@
}

pub open spec fn lit_acceptwith_tip() -> Seq<char> {
    "{\"acceptWithAuth\":{\"tip\":\"0x"@
}

pub open spec fn lit_token() -> Seq<char> {
    "\",\"token\":\"0x"@
}

pub open spec fn lit_block() -> Seq<char> {
    "\",\"block\":\"0x"@
}

pub open spec fn lit_close_qq() -> Seq<char> {
    "\"}}"@
}

pub open spec fn lit_incomplete() -> Seq<char> {
    "{\"incomplete\":\""@
}

pub open spec fn lit_close_q() -> Seq<char> {
    "\"}"@
}

pub open spec fn lit_bundled() -> Seq<char> {
    "\"bundled\""@
}

pub open spec fn lit_unknown_token() -> Seq<char> {
    "\"unknownToken\""@
}

pub open spec fn lit_tip_too_low() -> Seq<char> {
    "{\"tipTooLow\":\"0x"@
}

pub open spec fn lit_new_bid() -> Seq<char> {
    "{\"newBid\":"@
}

pub open spec fn lit_rejection() -> Seq<char> {
    "{\"rejection\":\""@
}

pub open spec fn lit_envelope() -> Seq<char> {
    "{\"response\":"@
}

pub open spec fn lit_close_brace() -> Seq<char> {
    "}"@
}

/// The canonical wire encoding of a bid outcome.
pub open spec fn spec_encode_bid(v: BidVal) -> Seq<char> {
    match v {
        BidVal::Accept { tip, block } => lit_accept_tip() + hex_of(tip) + lit_block() + hex_of(
            block,
        ) + lit_close_qq(),
        BidVal::AcceptWithAuth { tip, token, block } => lit_acceptwith_tip() + hex_of(tip)
            + lit_token() + hex_of(token) + lit_block() + hex_of(block) + lit_close_qq(),
        BidVal::Decline => lit_decline(),
        BidVal::Incomplete { reason } => lit_incomplete() + escape(reason) + lit_close_q(),
    }
}

/// The canonical wire encoding of a bundle outcome.
pub open spec fn spec_encode_bundle(v: BundleVal) -> Seq<char> {
    match v {
        BundleVal::Bundled => lit_bundled(),
        BundleVal::TipTooLow { required } => lit_tip_too_low() + hex_of(required) + lit_close_q(),
        BundleVal::NewBid { bid } => lit_new_bid() + spec_encode_bid(bid) + lit_close_brace(),
        BundleVal::UnknownToken => lit_unknown_token(),
        BundleVal::Rejection { reason } => lit_rejection() + escape(reason) + lit_close_q(),
    }
}

/// The envelope around a successful outcome.
pub open spec fn spec_envelope(p: Seq<char>) -> Seq<char> {
    lit_envelope() + p + lit_close_brace()
}

pub open spec fn sp_bid_accept(s: Seq<char>, j: int) -> Option<(BidVal, int)> {
    match sp_hex(s, j, 32) {
        Some((tip, j1)) => match sp_lit(s, j1, lit_block()) {
            Some(j2) => match sp_hex(s, j2, 32) {
                Some((block, j3)) => match sp_lit(s, j3, lit_close_qq()) {
                    Some(j4) => Some((BidVal::Accept { tip, block }, j4)),
                    None => None,
                },
                None => None,
            },
            None => None,
        },
        None => None,
    }
}

pub open spec fn sp_bid_acceptwith(s: Seq<char>, j: int) -> Option<(BidVal, int)> {
    match sp_hex(s, j, 32) {
        Some((tip, j1)) => match sp_lit(s, j1, lit_token()) {
            Some(j2) => match sp_hex(s, j2, 32) {
                Some((token, j3)) => match sp_lit(s, j3, lit_block()) {
                    Some(j4) => match sp_hex(s, j4, 32) {
                        Some((block, j5)) => match sp_lit(s, j5, lit_close_qq()) {
                            Some(j6) => Some(
                                (BidVal::AcceptWithAuth { tip, token, block }, j6),
                            ),
                            None => None,
                        },
                        None => None,
                    },
                    None => None,
                },
                None => None,
            },
            None => None,
        },
        None => None,
    }
}

pub open spec fn sp_bid_incomplete(s: Seq<char>, j: int) -> Option<(BidVal, int)> {
    match sp_string(s, j) {
        Some((reason, j1)) => match sp_lit(s, j1 - 1, lit_close_q()) {
            Some(j2) => Some((BidVal::Incomplete { reason }, j2)),
            None => None,
        },
        None => None,
    }
}

/// A bid outcome at position `i`, as a prefix of the input.
pub open spec fn sp_bid(s: Seq<char>, i: int) -> Option<(BidVal, int)> {
    match sp_lit(s, i, lit_decline()) {
        Some(j) => Some((BidVal::Decline, j)),
        None => match sp_lit(s, i, lit_accept_tip()) {
            Some(j) => sp_bid_accept(s, j),
            None => match sp_lit(s, i, lit_acceptwith_tip()) {
                Some(j) => sp_bid_acceptwith(s, j),
                None => match sp_lit(s, i, lit_incomplete()) {
                    Some(j) => sp_bid_incomplete(s, j),
                    None => None,
                },
            },
        },
    }
}

pub open spec fn sp_bundle_tiptoolow(s: Seq<char>, j: int) -> Option<(BundleVal, int)> {
    match sp_hex(s, j, 32) {
        Some((required, j1)) => match sp_lit(s, j1, lit_close_q()) {
            Some(j2) => Some((BundleVal::TipTooLow { required }, j2)),
            None => None,
        },
        None => None,
    }
}

pub open spec fn sp_bundle_newbid(s: Seq<char>, j: int) -> Option<(BundleVal, int)> {
    match sp_bid(s, j) {
        Some((bid, j1)) => match sp_lit(s, j1, lit_close_brace()) {
            Some(j2) => Some((BundleVal::NewBid { bid }, j2)),
            None => None,
        },
        None => None,
    }
}

pub open spec fn sp_bundle_rejection(s: Seq<char>, j: int) -> Option<(BundleVal, int)> {
    match sp_string(s, j) {
        Some((reason, j1)) => match sp_lit(s, j1 - 1, lit_close_q()) {
            Some(j2) => Some((BundleVal::Rejection { reason }, j2)),
            None => None,
        },
        None => None,
    }
}

/// A bundle outcome at position `i`, as a prefix of the input.
pub open spec fn sp_bundle(s: Seq<char>, i: int) -> Option<(BundleVal, int)> {
    match sp_lit(s, i, lit_bundled()) {
        Some(j) => Some((BundleVal::Bundled, j)),
        None => match sp_lit(s, i, lit_unknown_token()) {
            Some(j) => Some((BundleVal::UnknownToken, j)),
            None => match sp_lit(s, i, lit_tip_too_low()) {
                Some(j) => sp_bundle_tiptoolow(s, j),
                None => match sp_lit(s, i, lit_new_bid()) {
                    Some(j) => sp_bundle_newbid(s, j),
                    None => match sp_lit(s, i, lit_rejection()) {
                        Some(j) => sp_bundle_rejection(s, j),
                        None => None,
                    },
                },
            },
        },
    }
}

/// What the bid decoder returns: the value whose canonical encoding is the
/// whole input, if the input is such an encoding.
pub open spec fn spec_decode_bid(s: Seq<char>) -> Option<BidVal> {
    match sp_bid(s, 0) {
        Some((v, j)) => if j == s.len() {
            Some(v)
        } else {
            None
        },
        None => None,
    }
}

/// What the bundle decoder returns.
pub open spec fn spec_decode_bundle(s: Seq<char>) -> Option<BundleVal> {
    match sp_bundle(s, 0) {
        Some((v, j)) => if j == s.len() {
            Some(v)
        } else {
            None
        },
        None => None,
    }
}

/// What the enveloped bid decoder returns.
pub open spec fn spec_decode_bid_envelope(s: Seq<char>) -> Option<BidVal> {
    match sp_lit(s, 0, lit_envelope()) {
        Some(j) => match sp_bid(s, j) {
            Some((v, j1)) => match sp_lit(s, j1, lit_close_brace()) {
                Some(j2) => if j2 == s.len() {
                    Some(v)
                } else {
                    None
                },
                None => None,
            },
            None => None,
        },
        None => None,
    }
}

/// What the enveloped bundle decoder returns.
pub open spec fn spec_decode_bundle_envelope(s: Seq<char>) -> Option<BundleVal> {
    match sp_lit(s, 0, lit_envelope()) {
        Some(j) => match sp_bundle(s, j) {
            Some((v, j1)) => match sp_lit(s, j1, lit_close_brace()) {
                Some(j2) => if j2 == s.len() {
                    Some(v)
                } else {
                    None
                },
                None => None,
            },
            None => None,
        },
        None => None,
    }
}

/// A run of the input that is a concatenation splits into its two parts.
pub proof fn lemma_split2(s: Seq<char>, i: int, a: Seq<char>, b: Seq<char>)
    requires
        0 <= i,
        i + a.len() + b.len() <= s.len(),
        s.subrange(i, i + a.len() + b.len()) == a + b,
    ensures
        s.subrange(i, i + a.len()) == a,
        s.subrange(i + a.len(), i + a.len() + b.len()) == b,
{
    let w = a + b;
    assert(s.subrange(i, i + a.len()) =~= a) by {
        assert forall|k: int| 0 <= k < a.len() implies s.subrange(i, i + a.len())[k] == a[k] by {
            assert(s.subrange(i, i + a.len())[k] == s[i + k]);
            assert(s[i + k] == s.subrange(i, i + w.len())[k]);
            assert(w[k] == a[k]);
        }
    }
    assert(s.subrange(i + a.len(), i + a.len() + b.len()) =~= b) by {
        assert forall|k: int| 0 <= k < b.len() implies s.subrange(
            i + a.len(),
            i + a.len() + b.len(),
        )[k] == b[k] by {
            assert(s.subrange(i + a.len(), i + a.len() + b.len())[k] == s[i + a.len() + k]);
            assert(s[i + a.len() + k] == s.subrange(i, i + w.len())[a.len() + k]);
            assert(w[a.len() + k] == b[k]);
        }
    }
}

/// The bid parser accepts exactly the canonical encoding of a bid outcome
/// where it stands in the input, and yields that outcome.
pub proof fn lemma_sp_bid_encode(s: Seq<char>, i: int, v: BidVal)
    requires
        0 <= i,
        wf_bid_val(v),
        i + spec_encode_bid(v).len() <= s.len(),
        s.subrange(i, i + spec_encode_bid(v).len()) == spec_encode_bid(v),
    ensures
        sp_bid(s, i) == Some((v, i + spec_encode_bid(v).len())),
{
    reveal_strlit("\"decline\"");
    reveal_strlit("{\"accept\":{\"tip\":\"0x");
    reveal_strlit("{\"acceptWithAuth\":{\"tip\":\"0x");
    reveal_strlit("\",\"token\":\"0x");
    reveal_strlit("\",\"block\":\"0x");
    reveal_strlit("\"}}");
    reveal_strlit("{\"incomplete\":\"");
    reveal_strlit("\"}");
    let e = spec_encode_bid(v);
    match v {
        BidVal::Decline => {
            assert(sp_lit(s, i, lit_decline()) == Some(i + lit_decline().len()));
        },
        BidVal::Accept { tip, block } => {
            lemma_hex_of_len(tip);
            lemma_hex_of_len(block);
            let a = lit_accept_tip();
            let h1 = hex_of(tip);
            let b = lit_block();
            let h2 = hex_of(block);
            let c = lit_close_qq();
            lemma_split2(s, i, a + h1 + b + h2, c);
            lemma_split2(s, i, a + h1 + b, h2);
            lemma_split2(s, i, a + h1, b);
            lemma_split2(s, i, a, h1);
            let j0 = i + a.len();
            let j1 = j0 + 64;
            let j2 = j1 + b.len();
            let j3 = j2 + 64;
            assert(sp_lit(s, i, a) == Some(j0));
            lemma_sp_hex_encode(s, j0, tip);
            assert(sp_hex(s, j0, 32) == Some((tip, j1)));
            assert(sp_lit(s, j1, b) == Some(j2));
            lemma_sp_hex_encode(s, j2, block);
            assert(sp_hex(s, j2, 32) == Some((block, j3)));
            assert(sp_lit(s, j3, c) == Some(j3 + c.len()));
            assert(sp_lit(s, i, lit_decline()) is None) by {
                if sp_lit(s, i, lit_decline()) is Some {
                    assert(s.subrange(i, i + lit_decline().len()) == lit_decline());
                    assert(s[i] == lit_decline()[0]);
                    assert(s[i] == a[0]);
                }
            }
        },
        BidVal::AcceptWithAuth { tip, token, block } => {
            lemma_hex_of_len(tip);
            lemma_hex_of_len(token);
            lemma_hex_of_len(block);
            let a = lit_acceptwith_tip();
            let h1 = hex_of(tip);
            let t = lit_token();
            let h2 = hex_of(token);
            let b = lit_block();
            let h3 = hex_of(block);
            let c = lit_close_qq();
            lemma_split2(s, i, a + h1 + t + h2 + b + h3, c);
            lemma_split2(s, i, a + h1 + t + h2 + b, h3);
            lemma_split2(s, i, a + h1 + t + h2, b);
            lemma_split2(s, i, a + h1 + t, h2);
            lemma_split2(s, i, a + h1, t);
            lemma_split2(s, i, a, h1);
            let j0 = i + a.len();
            let j1 = j0 + 64;
            let j2 = j1 + t.len();
            let j3 = j2 + 64;
            let j4 = j3 + b.len();
            let j5 = j4 + 64;
            assert(sp_lit(s, i, a) == Some(j0));
            lemma_sp_hex_encode(s, j0, tip);
            assert(sp_lit(s, j1, t) == Some(j2));
            lemma_sp_hex_encode(s, j2, token);
            assert(sp_lit(s, j3, b) == Some(j4));
            lemma_sp_hex_encode(s, j4, block);
            assert(sp_lit(s, j5, c) == Some(j5 + c.len()));
            assert(sp_lit(s, i, lit_decline()) is None) by {
                if sp_lit(s, i, lit_decline()) is Some {
                    assert(s.subrange(i, i + lit_decline().len()) == lit_decline());
                    assert(s[i] == lit_decline()[0]);
                    assert(s[i] == a[0]);
                }
            }
            assert(sp_lit(s, i, lit_accept_tip()) is None) by {
                if sp_lit(s, i, lit_accept_tip()) is Some {
                    assert(s.subrange(i, i + lit_accept_tip().len()) == lit_accept_tip());
                    assert(s[i + 8] == lit_accept_tip()[8]);
                    assert(s[i + 8] == a[8]);
                }
            }
        },
        BidVal::Incomplete { reason } => {
            let a = lit_incomplete();
            let es = escape(reason);
            let c = lit_close_q();
            lemma_split2(s, i, a + es, c);
            lemma_split2(s, i, a, es);
            let j0 = i + a.len();
            let j1 = j0 + es.len();
            assert(sp_lit(s, i, a) == Some(j0));
            assert(s.subrange(j0, j1 + 1) =~= es + seq!['"']) by {
                assert forall|k: int| 0 <= k < es.len() + 1 implies s.subrange(j0, j1 + 1)[k] == (
                es + seq!['"'])[k] by {
                    assert(s.subrange(j0, j1 + 1)[k] == s[j0 + k]);
                    if k < es.len() {
                        assert(s[j0 + k] == s.subrange(j0, j1)[k]);
                    } else {
                        assert(s[j0 + k] == s.subrange(j1, j1 + c.len())[0]);
                        assert(c[0] == '"');
                    }
                }
            }
            lemma_sp_string_encode(s, j0, reason);
            assert(sp_string(s, j0) == Some((reason, j1 + 1)));
            assert(sp_lit(s, j1, c) == Some(j1 + c.len()));
            assert(sp_lit(s, i, lit_decline()) is None) by {
                if sp_lit(s, i, lit_decline()) is Some {
                    assert(s.subrange(i, i + lit_decline().len()) == lit_decline());
                    assert(s[i] == lit_decline()[0]);
                    assert(s[i] == a[0]);
                }
            }
            assert(sp_lit(s, i, lit_accept_tip()) is None) by {
                if sp_lit(s, i, lit_accept_tip()) is Some {
                    assert(s.subrange(i, i + lit_accept_tip().len()) == lit_accept_tip());
                    assert(s[i + 2] == lit_accept_tip()[2]);
                    assert(s[i + 2] == a[2]);
                }
            }
            assert(sp_lit(s, i, lit_acceptwith_tip()) is None) by {
                if sp_lit(s, i, lit_acceptwith_tip()) is Some {
                    assert(s.subrange(i, i + lit_acceptwith_tip().len()) == lit_acceptwith_tip());
                    assert(s[i + 2] == lit_acceptwith_tip()[2]);
                    assert(s[i + 2] == a[2]);
                }
            }
        },
    }
}

/// The bundle parser accepts exactly the canonical encoding of a bundle
/// outcome where it stands in the input, and yields that outcome.
pub proof fn lemma_sp_bundle_encode(s: Seq<char>, i: int, v: BundleVal)
    requires
        0 <= i,
        wf_bundle_val(v),
        i + spec_encode_bundle(v).len() <= s.len(),
        s.subrange(i, i + spec_encode_bundle(v).len()) == spec_encode_bundle(v),
    ensures
        sp_bundle(s, i) == Some((v, i + spec_encode_bundle(v).len())),
{
    reveal_strlit("\"bundled\"");
    reveal_strlit("\"unknownToken\"");
    reveal_strlit("{\"tipTooLow\":\"0x");
    reveal_strlit("{\"newBid\":");
    reveal_strlit("{\"rejection\":\"");
    reveal_strlit("\"}");
    reveal_strlit("}");
    let e = spec_encode_bundle(v);
    match v {
        BundleVal::Bundled => {
            assert(sp_lit(s, i, lit_bundled()) == Some(i + lit_bundled().len()));
        },
        BundleVal::UnknownToken => {
            assert(sp_lit(s, i, lit_unknown_token()) == Some(i + lit_unknown_token().len()));
            assert(sp_lit(s, i, lit_bundled()) is None) by {
                if sp_lit(s, i, lit_bundled()) is Some {
                    assert(s.subrange(i, i + lit_bundled().len()) == lit_bundled());
                    assert(s[i + 1] == lit_bundled()[1]);
                    assert(s[i + 1] == lit_unknown_token()[1]);
                }
            }
        },
        BundleVal::TipTooLow { required } => {
            lemma_hex_of_len(required);
            let a = lit_tip_too_low();
            let h1 = hex_of(required);
            let c = lit_close_q();
            lemma_split2(s, i, a + h1, c);
            lemma_split2(s, i, a, h1);
            let j0 = i + a.len();
            let j1 = j0 + 64;
            assert(sp_lit(s, i, a) == Some(j0));
            lemma_sp_hex_encode(s, j0, required);
            assert(sp_lit(s, j1, c) == Some(j1 + c.len()));
            assert(sp_lit(s, i, lit_bundled()) is None) by {
                if sp_lit(s, i, lit_bundled()) is Some {
                    assert(s.subrange(i, i + lit_bundled().len()) == lit_bundled());
                    assert(s[i] == lit_bundled()[0]);
                    assert(s[i] == a[0]);
                }
            }
            assert(sp_lit(s, i, lit_unknown_token()) is None) by {
                if sp_lit(s, i, lit_unknown_token()) is Some {
                    assert(s.subrange(i, i + lit_unknown_token().len()) == lit_unknown_token());
                    assert(s[i] == lit_unknown_token()[0]);
                    assert(s[i] == a[0]);
                }
            }
        },
        BundleVal::NewBid { bid } => {
            let a = lit_new_bid();
            let eb = spec_encode_bid(bid);
            let c = lit_close_brace();
            lemma_split2(s, i, a + eb, c);
            lemma_split2(s, i, a, eb);
            let j0 = i + a.len();
            let j1 = j0 + eb.len();
            assert(sp_lit(s, i, a) == Some(j0));
            lemma_sp_bid_encode(s, j0, bid);
            assert(sp_bid(s, j0) == Some((bid, j1)));
            assert(sp_lit(s, j1, c) == Some(j1 + c.len()));
            assert(sp_lit(s, i, lit_bundled()) is None) by {
                if sp_lit(s, i, lit_bundled()) is Some {
                    assert(s.subrange(i, i + lit_bundled().len()) == lit_bundled());
                    assert(s[i] == lit_bundled()[0]);
                    assert(s[i] == a[0]);
                }
            }
            assert(sp_lit(s, i, lit_unknown_token()) is None) by {
                if sp_lit(s, i, lit_unknown_token()) is Some {
                    assert(s.subrange(i, i + lit_unknown_token().len()) == lit_unknown_token());
                    assert(s[i] == lit_unknown_token()[0]);
                    assert(s[i] == a[0]);
                }
            }
            assert(sp_lit(s, i, lit_tip_too_low()) is None) by {
                if sp_lit(s, i, lit_tip_too_low()) is Some {
                    assert(s.subrange(i, i + lit_tip_too_low().len()) == lit_tip_too_low());
                    assert(s[i + 2] == lit_tip_too_low()[2]);
                    assert(s[i + 2] == a[2]);
                }
            }
        },
        BundleVal::Rejection { reason } => {
            let a = lit_rejection();
            let es = escape(reason);
            let c = lit_close_q();
            lemma_split2(s, i, a + es, c);
            lemma_split2(s, i, a, es);
            let j0 = i + a.len();
            let j1 = j0 + es.len();
            assert(sp_lit(s, i, a) == Some(j0));
            assert(s.subrange(j0, j1 + 1) =~= es + seq!['"']) by {
                assert forall|k: int| 0 <= k < es.len() + 1 implies s.subrange(j0, j1 + 1)[k] == (
                es + seq!['"'])[k] by {
                    assert(s.subrange(j0, j1 + 1)[k] == s[j0 + k]);
                    if k < es.len() {
                        assert(s[j0 + k] == s.subrange(j0, j1)[k]);
                    } else {
                        assert(s[j0 + k] == s.subrange(j1, j1 + c.len())[0]);
                        assert(c[0] == '"');
                    }
                }
            }
            lemma_sp_string_encode(s, j0, reason);
            assert(sp_string(s, j0) == Some((reason, j1 + 1)));
            assert(sp_lit(s, j1, c) == Some(j1 + c.len()));
            assert(sp_lit(s, i, lit_bundled()) is None) by {
                if sp_lit(s, i, lit_bundled()) is Some {
                    assert(s.subrange(i, i + lit_bundled().len()) == lit_bundled());
                    assert(s[i] == lit_bundled()[0]);
                    assert(s[i] == a[0]);
                }
            }
            assert(sp_lit(s, i, lit_unknown_token()) is None) by {
                if sp_lit(s, i, lit_unknown_token()) is Some {
                    assert(s.subrange(i, i + lit_unknown_token().len()) == lit_unknown_token());
                    assert(s[i] == lit_unknown_token()[0]);
                    assert(s[i] == a[0]);
                }
            }
            assert(sp_lit(s, i, lit_tip_too_low()) is None) by {
                if sp_lit(s, i, lit_tip_too_low()) is Some {
                    assert(s.subrange(i, i + lit_tip_too_low().len()) == lit_tip_too_low());
                    assert(s[i + 2] == lit_tip_too_low()[2]);
                    assert(s[i + 2] == a[2]);
                }
            }
            assert(sp_lit(s, i, lit_new_bid()) is None) by {
                if sp_lit(s, i, lit_new_bid()) is Some {
                    assert(s.subrange(i, i + lit_new_bid().len()) == lit_new_bid());
                    assert(s[i + 2] == lit_new_bid()[2]);
                    assert(s[i + 2] == a[2]);
                }
            }
        },
    }
}

/// Round trip: decoding the canonical encoding of any well-formed bid
/// outcome yields that outcome back.
pub proof fn lemma_bid_round_trip(v: BidVal)
    requires
        wf_bid_val(v),
    ensures
        spec_decode_bid(spec_encode_bid(v)) == Some(v),
{
    let e = spec_encode_bid(v);
    assert(e.subrange(0, e.len() as int) =~= e);
    lemma_sp_bid_encode(e, 0, v);
}

/// Round trip: decoding the canonical encoding of any well-formed bundle
/// outcome yields that outcome back.
pub proof fn lemma_bundle_round_trip(v: BundleVal)
    requires
        wf_bundle_val(v),
    ensures
        spec_decode_bundle(spec_encode_bundle(v)) == Some(v),
{
    let e = spec_encode_bundle(v);
    assert(e.subrange(0, e.len() as int) =~= e);
    lemma_sp_bundle_encode(e, 0, v);
}

/// Round trip through the envelope for bid outcomes.
pub proof fn lemma_bid_envelope_round_trip(v: BidVal)
    requires
        wf_bid_val(v),
    ensures
        spec_decode_bid_envelope(spec_envelope(spec_encode_bid(v))) == Some(v),
{
    let eb = spec_encode_bid(v);
    let a = lit_envelope();
    let c = lit_close_brace();
    let s = spec_envelope(eb);
    assert(s.subrange(0, s.len() as int) =~= s);
    lemma_split2(s, 0, a + eb, c);
    lemma_split2(s, 0, a, eb);
    assert(sp_lit(s, 0, a) == Some(a.len() as int));
    lemma_sp_bid_encode(s, a.len() as int, v);
    assert(sp_lit(s, a.len() + eb.len() as int, c) == Some(a.len() + eb.len() + c.len() as int));
}

/// Round trip through the envelope for bundle outcomes.
pub proof fn lemma_bundle_envelope_round_trip(v: BundleVal)
    requires
        wf_bundle_val(v),
    ensures
        spec_decode_bundle_envelope(spec_envelope(spec_encode_bundle(v))) == Some(v),
{
    let eb = spec_encode_bundle(v);
    let a = lit_envelope();
    let c = lit_close_brace();
    let s = spec_envelope(eb);
    assert(s.subrange(0, s.len() as int) =~= s);
    lemma_split2(s, 0, a + eb, c);
    lemma_split2(s, 0, a, eb);
    assert(sp_lit(s, 0, a) == Some(a.len() as int));
    lemma_sp_bundle_encode(s, a.len() as int, v);
    assert(sp_lit(s, a.len() + eb.len() as int, c) == Some(a.len() + eb.len() + c.len() as int));
}

/// What the bid parser accepts is the canonical encoding of the outcome it
/// yields: decoding never invents a value whose encoding is not the input.
pub proof fn lemma_sp_bid_sound(s: Seq<char>, i: int, v: BidVal, j: int)
    requires
        sp_bid(s, i) == Some((v, j)),
    ensures
        0 <= i,
        wf_bid_val(v),
        j == i + spec_encode_bid(v).len(),
        j <= s.len(),
        s.subrange(i, j) == spec_encode_bid(v),
{
    reveal_strlit("\"decline\"");
    reveal_strlit("{\"accept\":{\"tip\":\"0x");
    reveal_strlit("{\"acceptWithAuth\":{\"tip\":\"0x");
    reveal_strlit("\",\"token\":\"0x");
    reveal_strlit("\",\"block\":\"0x");
    reveal_strlit("\"}}");
    reveal_strlit("{\"incomplete\":\"");
    reveal_strlit("\"}");
    if sp_lit(s, i, lit_decline()) is Some {
        assert(s.subrange(i, i + lit_decline().len()) == lit_decline());
    } else if sp_lit(s, i, lit_accept_tip()) is Some {
        let a = lit_accept_tip();
        let j0 = i + a.len();
        assert(s.subrange(i, j0) == a);
        match sp_hex(s, j0, 32) {
            Some((tip, j1)) => {
                lemma_sp_hex_sound(s, j0, 32, tip, j1);
                match sp_lit(s, j1, lit_block()) {
                    Some(j2) => {
                        let b = lit_block();
                        assert(s.subrange(j1, j2) == b);
                        match sp_hex(s, j2, 32) {
                            Some((block, j3)) => {
                                lemma_sp_hex_sound(s, j2, 32, block, j3);
                                match sp_lit(s, j3, lit_close_qq()) {
                                    Some(j4) => {
                                        let c = lit_close_qq();
                                        assert(s.subrange(j3, j4) == c);
                                        lemma_glue2(s, i, a, hex_of(tip));
                                        lemma_glue2(s, i, a + hex_of(tip), b);
                                        lemma_glue2(s, i, a + hex_of(tip) + b, hex_of(block));
                                        lemma_glue2(
                                            s,
                                            i,
                                            a + hex_of(tip) + b + hex_of(block),
                                            c,
                                        );
                                    },
                                    None => {},
                                }
                            },
                            None => {},
                        }
                    },
                    None => {},
                }
            },
            None => {},
        }
    } else if sp_lit(s, i, lit_acceptwith_tip()) is Some {
        let a = lit_acceptwith_tip();
        let j0 = i + a.len();
        assert(s.subrange(i, j0) == a);
        match sp_hex(s, j0, 32) {
            Some((tip, j1)) => {
                lemma_sp_hex_sound(s, j0, 32, tip, j1);
                match sp_lit(s, j1, lit_token()) {
                    Some(j2) => {
                        let t = lit_token();
                        assert(s.subrange(j1, j2) == t);
                        match sp_hex(s, j2, 32) {
                            Some((token, j3)) => {
                                lemma_sp_hex_sound(s, j2, 32, token, j3);
                                match sp_lit(s, j3, lit_block()) {
                                    Some(j4) => {
                                        let b = lit_block();
                                        assert(s.subrange(j3, j4) == b);
                                        match sp_hex(s, j4, 32) {
                                            Some((block, j5)) => {
                                                lemma_sp_hex_sound(s, j4, 32, block, j5);
                                                match sp_lit(s, j5, lit_close_qq()) {
                                                    Some(j6) => {
                                                        let c = lit_close_qq();
                                                        assert(s.subrange(j5, j6) == c);
                                                        lemma_glue2(s, i, a, hex_of(tip));
                                                        lemma_glue2(s, i, a + hex_of(tip), t);
                                                        lemma_glue2(
                                                            s,
                                                            i,
                                                            a + hex_of(tip) + t,
                                                            hex_of(token),
                                                        );
                                                        lemma_glue2(
                                                            s,
                                                            i,
                                                            a + hex_of(tip) + t + hex_of(token),
                                                            b,
                                                        );
                                                        lemma_glue2(
                                                            s,
                                                            i,
                                                            a + hex_of(tip) + t + hex_of(token)
                                                                + b,
                                                            hex_of(block),
                                                        );
                                                        lemma_glue2(
                                                            s,
                                                            i,
                                                            a + hex_of(tip) + t + hex_of(token)
                                                                + b + hex_of(block),
                                                            c,
                                                        );
                                                    },
                                                    None => {},
                                                }
                                            },
                                            None => {},
                                        }
                                    },
                                    None => {},
                                }
                            },
                            None => {},
                        }
                    },
                    None => {},
                }
            },
            None => {},
        }
    } else if sp_lit(s, i, lit_incomplete()) is Some {
        let a = lit_incomplete();
        let j0 = i + a.len();
        assert(s.subrange(i, j0) == a);
        match sp_string(s, j0) {
            Some((reason, j1)) => {
                lemma_sp_string_sound(s, j0, reason, j1);
                match sp_lit(s, j1 - 1, lit_close_q()) {
                    Some(j2) => {
                        let c = lit_close_q();
                        assert(s.subrange(j1 - 1, j1 + 1) == c);
                        lemma_split2(s, j0, escape(reason), seq!['"']);
                        lemma_glue2(s, i, a, escape(reason));
                        lemma_glue2(s, i, a + escape(reason), c);
                    },
                    None => {},
                }
            },
            None => {},
        }
    }
}

/// What the bundle parser accepts is the canonical encoding of the outcome
/// it yields.
pub proof fn lemma_sp_bundle_sound(s: Seq<char>, i: int, v: BundleVal, j: int)
    requires
        sp_bundle(s, i) == Some((v, j)),
    ensures
        0 <= i,
        wf_bundle_val(v),
        j == i + spec_encode_bundle(v).len(),
        j <= s.len(),
        s.subrange(i, j) == spec_encode_bundle(v),
{
    reveal_strlit("\"bundled\"");
    reveal_strlit("\"unknownToken\"");
    reveal_strlit("{\"tipTooLow\":\"0x");
    reveal_strlit("{\"newBid\":");
    reveal_strlit("{\"rejection\":\"");
    reveal_strlit("\"}");
    reveal_strlit("}");
    if sp_lit(s, i, lit_bundled()) is Some {
        assert(s.subrange(i, i + lit_bundled().len()) == lit_bundled());
    } else if sp_lit(s, i, lit_unknown_token()) is Some {
        assert(s.subrange(i, i + lit_unknown_token().len()) == lit_unknown_token());
    } else if sp_lit(s, i, lit_tip_too_low()) is Some {
        let a = lit_tip_too_low();
        let j0 = i + a.len();
        assert(s.subrange(i, j0) == a);
        match sp_hex(s, j0, 32) {
            Some((required, j1)) => {
                lemma_sp_hex_sound(s, j0, 32, required, j1);
                match sp_lit(s, j1, lit_close_q()) {
                    Some(j2) => {
                        let c = lit_close_q();
                        assert(s.subrange(j1, j2) == c);
                        lemma_glue2(s, i, a, hex_of(required));
                        lemma_glue2(s, i, a + hex_of(required), c);
                    },
                    None => {},
                }
            },
            None => {},
        }
    } else if sp_lit(s, i, lit_new_bid()) is Some {
        let a = lit_new_bid();
        let j0 = i + a.len();
        assert(s.subrange(i, j0) == a);
        match sp_bid(s, j0) {
            Some((bid, j1)) => {
                lemma_sp_bid_sound(s, j0, bid, j1);
                match sp_lit(s, j1, lit_close_brace()) {
                    Some(j2) => {
                        let c = lit_close_brace();
                        assert(s.subrange(j1, j2) == c);
                        lemma_glue2(s, i, a, spec_encode_bid(bid));
                        lemma_glue2(s, i, a + spec_encode_bid(bid), c);
                    },
                    None => {},
                }
            },
            None => {},
        }
    } else if sp_lit(s, i, lit_rejection()) is Some {
        let a = lit_rejection();
        let j0 = i + a.len();
        assert(s.subrange(i, j0) == a);
        match sp_string(s, j0) {
            Some((reason, j1)) => {
                lemma_sp_string_sound(s, j0, reason, j1);
                match sp_lit(s, j1 - 1, lit_close_q()) {
                    Some(j2) => {
                        let c = lit_close_q();
                        assert(s.subrange(j1 - 1, j1 + 1) == c);
                        lemma_split2(s, j0, escape(reason), seq!['"']);
                        lemma_glue2(s, i, a, escape(reason));
                        lemma_glue2(s, i, a + escape(reason), c);
                    },
                    None => {},
                }
            },
            None => {},
        }
    }
}

/// A successful bid decode only ever returns the one outcome whose canonical
/// encoding is the whole input.
pub proof fn lemma_bid_decode_sound(s: Seq<char>, v: BidVal)
    requires
        spec_decode_bid(s) == Some(v),
    ensures
        wf_bid_val(v),
        s == spec_encode_bid(v),
{
    match sp_bid(s, 0) {
        Some((v2, j)) => {
            lemma_sp_bid_sound(s, 0, v2, j);
            assert(s.subrange(0, s.len() as int) =~= s);
        },
        None => {},
    }
}

/// A successful bundle decode only ever returns the one outcome whose
/// canonical encoding is the whole input.
pub proof fn lemma_bundle_decode_sound(s: Seq<char>, v: BundleVal)
    requires
        spec_decode_bundle(s) == Some(v),
    ensures
        wf_bundle_val(v),
        s == spec_encode_bundle(v),
{
    match sp_bundle(s, 0) {
        Some((v2, j)) => {
            lemma_sp_bundle_sound(s, 0, v2, j);
            assert(s.subrange(0, s.len() as int) =~= s);
        },
        None => {},
    }
}

/// A successful enveloped bid decode only ever returns the one outcome
/// whose enveloped canonical encoding is the whole input.
pub proof fn lemma_bid_envelope_decode_sound(s: Seq<char>, v: BidVal)
    requires
        spec_decode_bid_envelope(s) == Some(v),
    ensures
        wf_bid_val(v),
        s == spec_envelope(spec_encode_bid(v)),
{
    reveal_strlit("{\"response\":");
    reveal_strlit("}");
    let a = lit_envelope();
    match sp_lit(s, 0, a) {
        Some(j) => {
            assert(s.subrange(0, j) == a);
            match sp_bid(s, j) {
                Some((v2, j1)) => {
                    lemma_sp_bid_sound(s, j, v2, j1);
                    match sp_lit(s, j1, lit_close_brace()) {
                        Some(j2) => {
                            let c = lit_close_brace();
                            assert(s.subrange(j1, j2) == c);
                            lemma_glue2(s, 0, a, spec_encode_bid(v2));
                            lemma_glue2(s, 0, a + spec_encode_bid(v2), c);
                            assert(s.subrange(0, s.len() as int) =~= s);
                        },
                        None => {},
                    }
                },
                None => {},
            }
        },
        None => {},
    }
}

/// A successful enveloped bundle decode only ever returns the one outcome
/// whose enveloped canonical encoding is the whole input.
pub proof fn lemma_bundle_envelope_decode_sound(s: Seq<char>, v: BundleVal)
    requires
        spec_decode_bundle_envelope(s) == Some(v),
    ensures
        wf_bundle_val(v),
        s == spec_envelope(spec_encode_bundle(v)),
{
    reveal_strlit("{\"response\":");
    reveal_strlit("}");
    let a = lit_envelope();
    match sp_lit(s, 0, a) {
        Some(j) => {
            assert(s.subrange(0, j) == a);
            match sp_bundle(s, j) {
                Some((v2, j1)) => {
                    lemma_sp_bundle_sound(s, j, v2, j1);
                    match sp_lit(s, j1, lit_close_brace()) {
                        Some(j2) => {
                            let c = lit_close_brace();
                            assert(s.subrange(j1, j2) == c);
                            lemma_glue2(s, 0, a, spec_encode_bundle(v2));
                            lemma_glue2(s, 0, a + spec_encode_bundle(v2), c);
                            assert(s.subrange(0, s.len() as int) =~= s);
                        },
                        None => {},
                    }
                },
                None => {},
            }
        },
        None => {},
    }
}

/// Distinct well-formed bid outcomes have distinct encodings.
pub proof fn lemma_encode_bid_injective(a: BidVal, b: BidVal)
    requires
        wf_bid_val(a),
        wf_bid_val(b),
        spec_encode_bid(a) == spec_encode_bid(b),
    ensures
        a == b,
{
    lemma_bid_round_trip(a);
    lemma_bid_round_trip(b);
}

/// Distinct well-formed bundle outcomes have distinct encodings.
pub proof fn lemma_encode_bundle_injective(a: BundleVal, b: BundleVal)
    requires
        wf_bundle_val(a),
        wf_bundle_val(b),
        spec_encode_bundle(a) == spec_encode_bundle(b),
    ensures
        a == b,
{
    lemma_bundle_round_trip(a);
    lemma_bundle_round_trip(b);
}

/// Appends the canonical encoding of a bid outcome to the output.
fn push_bid(out: &mut Vec<char>, v: &BidResponse)
    ensures
        final(out)@ == old(out)@ + spec_encode_bid(v@),
{
    match v {
        BidResponse::Accept { tip, block } => {
            push_lit(out, "{\"accept\":{\"tip\":\"0x");
            push_hex(out, tip.to_be_bytes());
            push_lit(out, "\",\"block\":\"0x");
            push_hex(out, block.to_be_bytes());
            push_lit(out, "\"}}");
        },
        BidResponse::AcceptWithAuth { tip, token, block } => {
            push_lit(out, "{\"acceptWithAuth\":{\"tip\":\"0x");
            push_hex(out, tip.to_be_bytes());
            push_lit(out, "\",\"token\":\"0x");
            push_hex(out, token.to_be_bytes());
            push_lit(out, "\",\"block\":\"0x");
            push_hex(out, block.to_be_bytes());
            push_lit(out, "\"}}");
        },
        BidResponse::Decline => {
            push_lit(out, "\"decline\"");
        },
        BidResponse::Incomplete(reason) => {
            push_lit(out, "{\"incomplete\":\"");
            push_escaped(out, reason.as_str());
            push_lit(out, "\"}");
        },
    }
    assert(final(out)@ =~= old(out)@ + spec_encode_bid(v@));
}

/// Appends the canonical encoding of a bundle outcome to the output.
fn push_bundle(out: &mut Vec<char>, v: &BundleResponse)
    ensures
        final(out)@ == old(out)@ + spec_encode_bundle(v@),
{
    match v {
        BundleResponse::Bundled => {
            push_lit(out, "\"bundled\"");
        },
        BundleResponse::TipTooLow(required) => {
            push_lit(out, "{\"tipTooLow\":\"0x");
            push_hex(out, required.to_be_bytes());
            push_lit(out, "\"}");
        },
        BundleResponse::NewBid(bid) => {
            push_lit(out, "{\"newBid\":");
            push_bid(out, bid);
            push_lit(out, "}");
        },
        BundleResponse::UnknownToken => {
            push_lit(out, "\"unknownToken\"");
        },
        BundleResponse::Rejection(reason) => {
            push_lit(out, "{\"rejection\":\"");
            push_escaped(out, reason.as_str());
            push_lit(out, "\"}");
        },
    }
    assert(final(out)@ =~= old(out)@ + spec_encode_bundle(v@));
}

/// The canonical wire form of a bid outcome.
pub fn encode_bid_response(v: &BidResponse) -> (r: String)
    ensures
        r@ == spec_encode_bid(v@),
{
    let mut out: Vec<char> = Vec::new();
    push_bid(&mut out, v);
    string_of_chars(&out)
}

/// The canonical wire form of a bundle outcome.
pub fn encode_bundle_response(v: &BundleResponse) -> (r: String)
    ensures
        r@ == spec_encode_bundle(v@),
{
    let mut out: Vec<char> = Vec::new();
    push_bundle(&mut out, v);
    string_of_chars(&out)
}

/// The wire form of an enveloped bid outcome, as the bid endpoint answers.
pub fn encode_bid_envelope(a: &ApiResponse<BidResponse>) -> (r: String)
    ensures
        r@ == spec_envelope(spec_encode_bid(a.spec_response()@)),
{
    let mut out: Vec<char> = Vec::new();
    push_lit(&mut out, "{\"response\":");
    push_bid(&mut out, a.response());
    push_lit(&mut out, "}");
    assert(out@ =~= spec_envelope(spec_encode_bid(a.spec_response()@)));
    string_of_chars(&out)
}

/// The wire form of an enveloped bundle outcome, as the bundle endpoint
/// answers.
pub fn encode_bundle_envelope(a: &ApiResponse<BundleResponse>) -> (r: String)
    ensures
        r@ == spec_envelope(spec_encode_bundle(a.spec_response()@)),
{
    let mut out: Vec<char> = Vec::new();
    push_lit(&mut out, "{\"response\":");
    push_bundle(&mut out, a.response());
    push_lit(&mut out, "}");
    assert(out@ =~= spec_envelope(spec_encode_bundle(a.spec_response()@)));
    string_of_chars(&out)
}

fn parse_bid_accept(s: &Vec<char>, j: usize) -> (r: Option<(BidResponse, usize)>)
    ensures
        (match r {
            Some(p) => sp_bid_accept(s@, j as int) == Some((p.0@, p.1 as int)) && p.0.wf() && p.1
                <= s@.len(),
            None => sp_bid_accept(s@, j as int) is None,
        }),
{
    let (tip, j1) = match parse_hex_fixed(s, j, 32) {
        Some(p) => p,
        None => {
            return None;
        },
    };
    let j2 = match parse_lit(s, j1, "\",\"block\":\"0x") {
        Some(j2) => j2,
        None => {
            return None;
        },
    };
    let (block, j3) = match parse_hex_fixed(s, j2, 32) {
        Some(p) => p,
        None => {
            return None;
        },
    };
    let j4 = match parse_lit(s, j3, "\"}}") {
        Some(j4) => j4,
        None => {
            return None;
        },
    };
    Some(
        (
            BidResponse::Accept {
                tip: I256::from_be_bytes(tip),
                block: U256::from_be_bytes(block),
            },
            j4,
        ),
    )
}

fn parse_bid_acceptwith(s: &Vec<char>, j: usize) -> (r: Option<(BidResponse, usize)>)
    ensures
        (match r {
            Some(p) => sp_bid_acceptwith(s@, j as int) == Some((p.0@, p.1 as int)) && p.0.wf()
                && p.1 <= s@.len(),
            None => sp_bid_acceptwith(s@, j as int) is None,
        }),
{
    let (tip, j1) = match parse_hex_fixed(s, j, 32) {
        Some(p) => p,
        None => {
            return None;
        },
    };
    let j2 = match parse_lit(s, j1, "\",\"token\":\"0x") {
        Some(j2) => j2,
        None => {
            return None;
        },
    };
    let (token, j3) = match parse_hex_fixed(s, j2, 32) {
        Some(p) => p,
        None => {
            return None;
        },
    };
    let j4 = match parse_lit(s, j3, "\",\"block\":\"0x") {
        Some(j4) => j4,
        None => {
            return None;
        },
    };
    let (block, j5) = match parse_hex_fixed(s, j4, 32) {
        Some(p) => p,
        None => {
            return None;
        },
    };
    let j6 = match parse_lit(s, j5, "\"}}") {
        Some(j6) => j6,
        None => {
            return None;
        },
    };
    Some(
        (
            BidResponse::AcceptWithAuth {
                tip: I256::from_be_bytes(tip),
                token: AuthToken::from_be_bytes(token),
                block: U256::from_be_bytes(block),
            },
            j6,
        ),
    )
}

fn parse_bid_incomplete(s: &Vec<char>, j: usize) -> (r: Option<(BidResponse, usize)>)
    ensures
        (match r {
            Some(p) => sp_bid_incomplete(s@, j as int) == Some((p.0@, p.1 as int)) && p.0.wf()
                && p.1 <= s@.len(),
            None => sp_bid_incomplete(s@, j as int) is None,
        }),
{
    let (reason, j1) = match parse_string_body(s, j) {
        Some(p) => p,
        None => {
            return None;
        },
    };
    let j2 = match parse_lit(s, j1 - 1, "\"}") {
        Some(j2) => j2,
        None => {
            return None;
        },
    };
    Some((BidResponse::Incomplete(string_of_chars(&reason)), j2))
}

/// Reads a bid outcome at position `i`, as `sp_bid` says.
fn parse_bid_at(s: &Vec<char>, i: usize) -> (r: Option<(BidResponse, usize)>)
    ensures
        (match r {
            Some(p) => sp_bid(s@, i as int) == Some((p.0@, p.1 as int)) && p.0.wf() && p.1
                <= s@.len(),
            None => sp_bid(s@, i as int) is None,
        }),
{
    match parse_lit(s, i, "\"decline\"") {
        Some(j) => {
            return Some((BidResponse::Decline, j));
        },
        None => {},
    }
    match parse_lit(s, i, "{\"accept\":{\"tip\":\"0x") {
        Some(j) => {
            return parse_bid_accept(s, j);
        },
        None => {},
    }
    match parse_lit(s, i, "{\"acceptWithAuth\":{\"tip\":\"0x") {
        Some(j) => {
            return parse_bid_acceptwith(s, j);
        },
        None => {},
    }
    match parse_lit(s, i, "{\"incomplete\":\"") {
        Some(j) => {
            return parse_bid_incomplete(s, j);
        },
        None => {},
    }
    None
}

fn parse_bundle_tiptoolow(s: &Vec<char>, j: usize) -> (r: Option<(BundleResponse, usize)>)
    ensures
        (match r {
            Some(p) => sp_bundle_tiptoolow(s@, j as int) == Some((p.0@, p.1 as int)) && p.0.wf()
                && p.1 <= s@.len(),
            None => sp_bundle_tiptoolow(s@, j as int) is None,
        }),
{
    let (required, j1) = match parse_hex_fixed(s, j, 32) {
        Some(p) => p,
        None => {
            return None;
        },
    };
    let j2 = match parse_lit(s, j1, "\"}") {
        Some(j2) => j2,
        None => {
            return None;
        },
    };
    Some((BundleResponse::TipTooLow(I256::from_be_bytes(required)), j2))
}

fn parse_bundle_newbid(s: &Vec<char>, j: usize) -> (r: Option<(BundleResponse, usize)>)
    ensures
        (match r {
            Some(p) => sp_bundle_newbid(s@, j as int) == Some((p.0@, p.1 as int)) && p.0.wf()
                && p.1 <= s@.len(),
            None => sp_bundle_newbid(s@, j as int) is None,
        }),
{
    let (bid, j1) = match parse_bid_at(s, j) {
        Some(p) => p,
        None => {
            return None;
        },
    };
    let j2 = match parse_lit(s, j1, "}") {
        Some(j2) => j2,
        None => {
            return None;
        },
    };
    Some((BundleResponse::NewBid(bid), j2))
}

fn parse_bundle_rejection(s: &Vec<char>, j: usize) -> (r: Option<(BundleResponse, usize)>)
    ensures
        (match r {
            Some(p) => sp_bundle_rejection(s@, j as int) == Some((p.0@, p.1 as int)) && p.0.wf()
                && p.1 <= s@.len(),
            None => sp_bundle_rejection(s@, j as int) is None,
        }),
{
    let (reason, j1) = match parse_string_body(s, j) {
        Some(p) => p,
        None => {
            return None;
        },
    };
    let j2 = match parse_lit(s, j1 - 1, "\"}") {
        Some(j2) => j2,
        None => {
            return None;
        },
    };
    Some((BundleResponse::Rejection(string_of_chars(&reason)), j2))
}

/// Reads a bundle outcome at position `i`, as `sp_bundle` says.
fn parse_bundle_at(s: &Vec<char>, i: usize) -> (r: Option<(BundleResponse, usize)>)
    ensures
        (match r {
            Some(p) => sp_bundle(s@, i as int) == Some((p.0@, p.1 as int)) && p.0.wf() && p.1
                <= s@.len(),
            None => sp_bundle(s@, i as int) is None,
        }),
{
    match parse_lit(s, i, "\"bundled\"") {
        Some(j) => {
            return Some((BundleResponse::Bundled, j));
        },
        None => {},
    }
    match parse_lit(s, i, "\"unknownToken\"") {
        Some(j) => {
            return Some((BundleResponse::UnknownToken, j));
        },
        None => {},
    }
    match parse_lit(s, i, "{\"tipTooLow\":\"0x") {
        Some(j) => {
            return parse_bundle_tiptoolow(s, j);
        },
        None => {},
    }
    match parse_lit(s, i, "{\"newBid\":") {
        Some(j) => {
            return parse_bundle_newbid(s, j);
        },
        None => {},
    }
    match parse_lit(s, i, "{\"rejection\":\"") {
        Some(j) => {
            return parse_bundle_rejection(s, j);
        },
        None => {},
    }
    None
}

/// Decodes a bid outcome from its canonical wire form, as `spec_decode_bid`
/// says: it succeeds exactly on canonical encodings and then returns the one
/// outcome that encodes to the input.
pub fn decode_bid_response(s: &str) -> (r: Option<BidResponse>)
    ensures
        (match r {
            Some(v) => spec_decode_bid(s@) == Some(v@) && v.wf(),
            None => spec_decode_bid(s@) is None,
        }),
{
    let cs = chars_of_str(s);
    match parse_bid_at(&cs, 0) {
        Some((v, j)) => if j == cs.len() {
            Some(v)
        } else {
            None
        },
        None => None,
    }
}

/// Decodes a bundle outcome from its canonical wire form, as
/// `spec_decode_bundle` says.
pub fn decode_bundle_response(s: &str) -> (r: Option<BundleResponse>)
    ensures
        (match r {
            Some(v) => spec_decode_bundle(s@) == Some(v@) && v.wf(),
            None => spec_decode_bundle(s@) is None,
        }),
{
    let cs = chars_of_str(s);
    match parse_bundle_at(&cs, 0) {
        Some((v, j)) => if j == cs.len() {
            Some(v)
        } else {
            None
        },
        None => None,
    }
}

/// Decodes an enveloped bid outcome, as `spec_decode_bid_envelope` says.
pub fn decode_bid_envelope(s: &str) -> (r: Option<BidResponse>)
    ensures
        (match r {
            Some(v) => spec_decode_bid_envelope(s@) == Some(v@) && v.wf(),
            None => spec_decode_bid_envelope(s@) is None,
        }),
{
    let cs = chars_of_str(s);
    let j = match parse_lit(&cs, 0, "{\"response\":") {
        Some(j) => j,
        None => {
            return None;
        },
    };
    let (v, j1) = match parse_bid_at(&cs, j) {
        Some(p) => p,
        None => {
            return None;
        },
    };
    let j2 = match parse_lit(&cs, j1, "}") {
        Some(j2) => j2,
        None => {
            return None;
        },
    };
    if j2 == cs.len() {
        Some(v)
    } else {
        None
    }
}

/// Decodes an enveloped bundle outcome, as `spec_decode_bundle_envelope`
/// says.
pub fn decode_bundle_envelope(s: &str) -> (r: Option<BundleResponse>)
    ensures
        (match r {
            Some(v) => spec_decode_bundle_envelope(s@) == Some(v@) && v.wf(),
            None => spec_decode_bundle_envelope(s@) is None,
        }),
{
    let cs = chars_of_str(s);
    let j = match parse_lit(&cs, 0, "{\"response\":") {
        Some(j) => j,
        None => {
            return None;
        },
    };
    let (v, j1) = match parse_bundle_at(&cs, j) {
        Some(p) => p,
        None => {
            return None;
        },
    };
    let j2 = match parse_lit(&cs, j1, "}") {
        Some(j2) => j2,
        None => {
            return None;
        },
    };
    if j2 == cs.len() {
        Some(v)
    } else {
        None
    }
}

} // verus!
