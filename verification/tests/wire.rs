use searcher_api::codec::{
    decode_bid_envelope, decode_bid_response, decode_bundle_envelope, decode_bundle_response,
    encode_bid_envelope, encode_bid_response, encode_bundle_envelope, encode_bundle_response,
};
use searcher_api::responses::{ApiResponse, BidResponse, BundleResponse};
use searcher_api::values::{AuthToken, I256, U256};

fn be_bytes_from_u64(x: u64) -> Vec<u8> {
    let mut v = vec![0u8; 24];
    v.extend_from_slice(&x.to_be_bytes());
    v
}

fn i256_from_i64(x: i64) -> I256 {
    let fill = if x < 0 { 0xffu8 } else { 0u8 };
    let mut v = vec![fill; 24];
    v.extend_from_slice(&x.to_be_bytes());
    I256::from_be_bytes(v)
}

fn u256_from_u64(x: u64) -> U256 {
    U256::from_be_bytes(be_bytes_from_u64(x))
}

fn token_from_pattern(b: u8) -> AuthToken {
    AuthToken::from_be_bytes(vec![b; 32])
}

fn hex64_of_u64(x: u64) -> String {
    format!("{}{:016x}", "0".repeat(48), x)
}

#[test]
fn bid_accept_round_trip() {
    let v = BidResponse::Accept {
        tip: i256_from_i64(-5),
        block: u256_from_u64(1_000_000),
    };
    let s = encode_bid_response(&v);
    assert_eq!(decode_bid_response(&s), Some(v));
}

#[test]
fn bid_accept_exact_wire_form() {
    let v = BidResponse::Accept {
        tip: i256_from_i64(-5),
        block: u256_from_u64(1_000_000),
    };
    let s = encode_bid_response(&v);
    let tip_hex = format!("{}{:016x}", "f".repeat(48), (-5i64) as u64);
    let block_hex = hex64_of_u64(1_000_000);
    let expected = format!(
        "{{\"accept\":{{\"tip\":\"0x{}\",\"block\":\"0x{}\"}}}}",
        tip_hex, block_hex
    );
    assert_eq!(s, expected);
}

#[test]
fn bid_accept_with_auth_round_trip() {
    let v = BidResponse::AcceptWithAuth {
        tip: i256_from_i64(7),
        token: token_from_pattern(0x5a),
        block: u256_from_u64(42),
    };
    let s = encode_bid_response(&v);
    assert_eq!(decode_bid_response(&s), Some(v));
}

#[test]
fn bid_decline_round_trip_and_exact_form() {
    let v = BidResponse::Decline;
    let s = encode_bid_response(&v);
    assert_eq!(s, "\"decline\"");
    assert_eq!(decode_bid_response(&s), Some(v));
}

#[test]
fn bid_incomplete_round_trip() {
    let v = BidResponse::Incomplete(String::from("missing tip field"));
    let s = encode_bid_response(&v);
    assert_eq!(
        s,
        "{\"incomplete\":\"missing tip field\"}"
    );
    assert_eq!(decode_bid_response(&s), Some(v));
}

#[test]
fn bid_incomplete_escaping_round_trip() {
    let v = BidResponse::Incomplete(String::from("a \"quoted\" \\ reason"));
    let s = encode_bid_response(&v);
    assert_eq!(
        s,
        "{\"incomplete\":\"a \\\"quoted\\\" \\\\ reason\"}"
    );
    assert_eq!(decode_bid_response(&s), Some(v));
}

#[test]
fn bundle_bundled_round_trip_and_exact_form() {
    let v = BundleResponse::Bundled;
    let s = encode_bundle_response(&v);
    assert_eq!(s, "\"bundled\"");
    assert_eq!(decode_bundle_response(&s), Some(v));
}

#[test]
fn bundle_tip_too_low_round_trip_and_exact_form() {
    let v = BundleResponse::TipTooLow(i256_from_i64(42));
    let s = encode_bundle_response(&v);
    let expected = format!("{{\"tipTooLow\":\"0x{}2a\"}}", "0".repeat(62));
    assert_eq!(s, expected);
    assert_eq!(decode_bundle_response(&s), Some(v));
}

#[test]
fn bundle_new_bid_round_trip() {
    let v = BundleResponse::NewBid(BidResponse::Decline);
    let s = encode_bundle_response(&v);
    assert_eq!(s, "{\"newBid\":\"decline\"}");
    assert_eq!(decode_bundle_response(&s), Some(v));
}

#[test]
fn bundle_new_bid_nested_accept_round_trip() {
    let v = BundleResponse::NewBid(BidResponse::Accept {
        tip: i256_from_i64(11),
        block: u256_from_u64(9_000_000),
    });
    let s = encode_bundle_response(&v);
    assert_eq!(decode_bundle_response(&s), Some(v));
}

#[test]
fn bundle_unknown_token_round_trip_and_exact_form() {
    let v = BundleResponse::UnknownToken;
    let s = encode_bundle_response(&v);
    assert_eq!(s, "\"unknownToken\"");
    assert_eq!(decode_bundle_response(&s), Some(v));
}

#[test]
fn bundle_rejection_round_trip() {
    let v = BundleResponse::Rejection(String::from("nonce too old"));
    let s = encode_bundle_response(&v);
    assert_eq!(s, "{\"rejection\":\"nonce too old\"}");
    assert_eq!(decode_bundle_response(&s), Some(v));
}

#[test]
fn envelope_round_trip_bid() {
    let v = BidResponse::Decline;
    let s = encode_bid_envelope(&ApiResponse::new(v.clone()));
    assert_eq!(s, "{\"response\":\"decline\"}");
    assert_eq!(decode_bid_envelope(&s), Some(v));
}

#[test]
fn envelope_round_trip_bundle() {
    let v = BundleResponse::TipTooLow(i256_from_i64(-1));
    let s = encode_bundle_envelope(&ApiResponse::new(v.clone()));
    assert_eq!(decode_bundle_envelope(&s), Some(v));
}

#[test]
fn decode_rejects_trailing_garbage() {
    assert_eq!(decode_bid_response("\"decline\"x"), None);
    assert_eq!(decode_bundle_response("\"bundled\" "), None);
}

#[test]
fn decode_rejects_noncanonical_hex_case() {
    let v = BundleResponse::TipTooLow(i256_from_i64(42));
    let s = encode_bundle_response(&v).to_uppercase();
    assert_eq!(decode_bundle_response(&s), None);
}

#[test]
fn decode_rejects_wrong_enum_wire_shape() {
    assert_eq!(decode_bid_response("\"bundled\""), None);
    assert_eq!(decode_bundle_response("\"decline\""), None);
    assert_eq!(decode_bid_response(""), None);
    assert_eq!(decode_bid_response("{\"accept\":{\"tip\":\"0xzz\"}}"), None);
}

#[test]
fn api_response_wraps_and_unwraps() {
    let a = ApiResponse::new(BidResponse::Decline);
    assert_eq!(a.response(), &BidResponse::Decline);
    assert_eq!(a.into_inner(), BidResponse::Decline);
}

#[test]
fn render_bid_outcomes() {
    assert_eq!(BidResponse::Decline.render(), "Decline");
    assert_eq!(
        BidResponse::Incomplete(String::from("no tip")).render(),
        "Incomplete: no tip"
    );
    let v = BidResponse::Accept {
        tip: i256_from_i64(42),
        block: u256_from_u64(7),
    };
    assert_eq!(v.render(), "Accept 42 @ height 7");
    let v = BidResponse::Accept {
        tip: i256_from_i64(-5),
        block: u256_from_u64(1_000_000),
    };
    assert_eq!(v.render(), "Accept -5 @ height 1000000");
    let v = BidResponse::Accept {
        tip: i256_from_i64(0),
        block: u256_from_u64(0),
    };
    assert_eq!(v.render(), "Accept 0 @ height 0");
    let v = BidResponse::AcceptWithAuth {
        tip: i256_from_i64(7),
        token: token_from_pattern(0x5a),
        block: u256_from_u64(42),
    };
    let expected = format!("Accept 7 @ height 42 with 0x{}", "5a".repeat(32));
    assert_eq!(v.render(), expected);
}

#[test]
fn render_bid_outcomes_large_values() {
    // The full 256-bit range renders without truncation: 2^255 - 1 and its
    // negation -2^255.
    let mut max_pos = vec![0xffu8; 32];
    max_pos[0] = 0x7f;
    let expected_pos =
        "57896044618658097711785492504343953926634992332820282019728792003956564819967";
    let v = BidResponse::Accept {
        tip: I256::from_be_bytes(max_pos),
        block: u256_from_u64(1),
    };
    assert_eq!(v.render(), format!("Accept {} @ height 1", expected_pos));

    let mut min_neg = vec![0u8; 32];
    min_neg[0] = 0x80;
    let expected_neg =
        "-57896044618658097711785492504343953926634992332820282019728792003956564819968";
    let v = BidResponse::Accept {
        tip: I256::from_be_bytes(min_neg),
        block: u256_from_u64(1),
    };
    assert_eq!(v.render(), format!("Accept {} @ height 1", expected_neg));
}

#[test]
fn render_bundle_outcomes() {
    assert_eq!(BundleResponse::Bundled.render(), "Bundled");
    assert_eq!(BundleResponse::UnknownToken.render(), "UnknownToken");
    assert_eq!(
        BundleResponse::Rejection(String::from("late")).render(),
        "Rejection: late"
    );
    assert_eq!(
        BundleResponse::NewBid(BidResponse::Decline).render(),
        "New Quote Decline"
    );
    assert_eq!(BundleResponse::TipTooLow(i256_from_i64(42)).render(), "TipTooLow 42");
    assert_eq!(BundleResponse::TipTooLow(i256_from_i64(-1)).render(), "TipTooLow -1");
}

#[test]
fn values_expose_their_bytes() {
    let u = u256_from_u64(0x0102_0304);
    assert_eq!(u.to_be_bytes(), &be_bytes_from_u64(0x0102_0304));
    let t = token_from_pattern(9);
    assert_eq!(t.to_be_bytes(), &vec![9u8; 32]);
}
