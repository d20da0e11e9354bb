use searcher_api::codec::{decode_bid_envelope, decode_bundle_envelope};
use searcher_api::responses::{BidResponse, BundleResponse};
use searcher_api::router::{
    bad_request_response, bid_result_response, bundle_result_response, healthcheck_response,
    not_found_response, parse_auth_token, plan_request, Method, Plan,
};
use searcher_api::values::{AuthToken, I256};

fn i256_from_i64(x: i64) -> I256 {
    let fill = if x < 0 { 0xffu8 } else { 0u8 };
    let mut v = vec![fill; 24];
    v.extend_from_slice(&x.to_be_bytes());
    I256::from_be_bytes(v)
}

#[test]
fn healthcheck_is_answered_without_the_backend() {
    let plan = plan_request(Method::Get, "/healthcheck");
    match plan {
        Plan::Respond(resp) => {
            assert_eq!(resp.status, 200);
            assert_eq!(resp.body, "");
        }
        _ => panic!("healthcheck must not reach the backend"),
    }
}

#[test]
fn bid_route_calls_the_backend() {
    assert_eq!(plan_request(Method::Post, "/bid"), Plan::CallBid);
}

#[test]
fn bundle_route_without_segment_passes_no_token() {
    assert_eq!(plan_request(Method::Post, "/accept"), Plan::CallBundle(None));
}

#[test]
fn bundle_route_with_segment_passes_the_exact_token() {
    let path = format!("/accept/{}", "ab".repeat(32));
    let plan = plan_request(Method::Post, &path);
    let expected = AuthToken::from_be_bytes(vec![0xabu8; 32]);
    assert_eq!(plan, Plan::CallBundle(Some(expected)));
}

#[test]
fn bundle_route_accepts_prefixed_and_uppercase_tokens() {
    let path = format!("/accept/0x{}", "AB".repeat(32));
    let plan = plan_request(Method::Post, &path);
    let expected = AuthToken::from_be_bytes(vec![0xabu8; 32]);
    assert_eq!(plan, Plan::CallBundle(Some(expected)));
}

#[test]
fn malformed_auth_segment_is_a_client_error() {
    let plan = plan_request(Method::Post, "/accept/not-hex");
    match plan {
        Plan::Respond(resp) => {
            assert_eq!(resp.status, 400);
            assert_eq!(resp.body, "invalid auth token");
        }
        _ => panic!("malformed segment must not reach the backend"),
    }
    let short = plan_request(Method::Post, "/accept/abcd");
    assert!(matches!(short, Plan::Respond(r) if r.status == 400));
}

#[test]
fn unmatched_routes_answer_unknown_route() {
    for (method, path) in [
        (Method::Delete, "/bid"),
        (Method::Get, "/nope"),
        (Method::Put, "/accept"),
        (Method::Get, "/bid"),
        (Method::Post, "/healthcheck"),
        (Method::Other, "/accept/"),
        (Method::Post, "/accept/"),
        (Method::Post, "/bidding"),
        (Method::Post, "/accept/ab/cd"),
        (Method::Post, "/accept/not-hex/more"),
    ] {
        let plan = plan_request(method, path);
        match plan {
            Plan::Respond(resp) => {
                assert_eq!(resp.status, 404);
                assert_eq!(resp.body, "unknown route");
            }
            _ => panic!("unmatched route must not reach the backend"),
        }
    }
}

#[test]
fn multi_segment_accept_paths_match_no_route() {
    let path = format!("/accept/{}/extra", "ab".repeat(32));
    let plan = plan_request(Method::Post, &path);
    match plan {
        Plan::Respond(resp) => {
            assert_eq!(resp.status, 404);
            assert_eq!(resp.body, "unknown route");
        }
        _ => panic!("a multi-segment rest matches no route"),
    }
}

#[test]
fn parse_auth_token_accepts_exactly_64_hex_digits() {
    let tok = parse_auth_token(&"0f".repeat(32)).expect("lowercase hex");
    assert_eq!(tok.to_be_bytes(), &vec![0x0fu8; 32]);
    let tok = parse_auth_token(&format!("0x{}", "0F".repeat(32))).expect("prefixed hex");
    assert_eq!(tok.to_be_bytes(), &vec![0x0fu8; 32]);
    assert_eq!(parse_auth_token(""), None);
    assert_eq!(parse_auth_token(&"0f".repeat(31)), None);
    assert_eq!(parse_auth_token(&"0f".repeat(33)), None);
    assert_eq!(parse_auth_token(&"0g".repeat(32)), None);
}

#[test]
fn backend_success_is_a_protocol_success() {
    let resp = bid_result_response(Ok(BidResponse::Decline));
    assert_eq!(resp.status, 200);
    assert_eq!(resp.body, "{\"response\":\"decline\"}");
    assert_eq!(decode_bid_envelope(&resp.body), Some(BidResponse::Decline));

    let resp = bundle_result_response(Ok(BundleResponse::TipTooLow(i256_from_i64(3))));
    assert_eq!(resp.status, 200);
    assert_eq!(
        decode_bundle_envelope(&resp.body),
        Some(BundleResponse::TipTooLow(i256_from_i64(3)))
    );
}

#[test]
fn domain_rejections_still_answer_status_200() {
    for outcome in [
        BundleResponse::Bundled,
        BundleResponse::UnknownToken,
        BundleResponse::Rejection(String::from("no")),
        BundleResponse::NewBid(BidResponse::Decline),
    ] {
        let resp = bundle_result_response(Ok(outcome));
        assert_eq!(resp.status, 200);
    }
}

#[test]
fn backend_failure_is_opaque() {
    let secret = "backend stack trace: auction book overflow at slot 9";
    let resp = bid_result_response(Err(String::from(secret)));
    assert_eq!(resp.status, 500);
    assert_eq!(resp.body, "internal error");
    assert!(!resp.body.contains("auction"));

    let resp = bundle_result_response(Err(String::from(secret)));
    assert_eq!(resp.status, 500);
    assert_eq!(resp.body, "internal error");
}

#[test]
fn fixed_responses_have_their_documented_shapes() {
    let h = healthcheck_response();
    assert_eq!((h.status, h.body.as_str()), (200, ""));
    let n = not_found_response();
    assert_eq!((n.status, n.body.as_str()), (404, "unknown route"));
    let b = bad_request_response();
    assert_eq!((b.status, b.body.as_str()), (400, "bad request"));
}
