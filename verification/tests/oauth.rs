use osu_map_manager::encoding::{base64url_no_pad, url_decode, url_encode};
use osu_map_manager::osu_oauth::{
    access_step, access_step_at, after_refresh, authorize_url, backend_base_url, backend_url,
    callback_response, check_endpoint, code_challenge_s256, exchange_form, expand_prefilled_path,
    friendly_error_text, friendly_token_error, generate_code_verifier, generate_state,
    is_invalid_grant, is_invalid_grant_code, oauth_session_path, parse_callback_request,
    refresh_endpoint, refresh_form, refreshed, refreshed_at, seconds_on_clock, session_from_reply,
    session_from_reply_at, token_endpoint, validated_backend_base_url, AccessStep, BackendUrlError,
    CallbackError, CheckResponse, OauthSession, RefreshError, RefreshReply, TokenError, TokenReply,
    TokenResponse, BACKEND_URL,
};
use osu_map_manager::random_text::alphanumeric_from;
use osu_map_manager::sign_in::{
    listen_step, plan_sign_in, ListenEvent, ListenStep, SignIn, SignInEvent, SignInPhase, SignInStep,
};

#[test]
fn authorize_url_points_at_worker_with_redirect_state_and_pkce() {
    let url = authorize_url("https://example.workers.dev/", "abc 123", "challenge-~_ABC");
    assert_eq!(
        url,
        "https://example.workers.dev/oauth/authorize?redirect_uri=http%3A%2F%2F127.0.0.1%3A3000%2Fcallback&state=abc%20123&code_challenge=challenge-~_ABC&code_challenge_method=S256"
    );
}

#[test]
fn pkce_challenge_matches_rfc7636_vector() {
    // Appendix B of RFC 7636.
    assert_eq!(
        code_challenge_s256("dBjftJeZ4CVP-mB92K27uhbUJU1p1r_wW1gFWFOEjXk"),
        "E9Melhoa2OwvFrEMTJguCHaoeK1t8URWbuGJSstw-cM"
    );
}

#[test]
fn state_and_verifier_are_unpredictable_and_well_formed() {
    let is_alphanumeric = |value: &str| value.bytes().all(|byte| byte.is_ascii_alphanumeric());
    let state_a = generate_state(4711);
    let state_b = generate_state(4711);
    assert_eq!(state_a.len(), 24);
    assert!(is_alphanumeric(&state_a));
    assert_ne!(state_a, state_b);

    let verifier = generate_code_verifier(4711);
    assert_eq!(verifier.len(), 64);
    assert!(is_alphanumeric(&verifier));
    assert_eq!(code_challenge_s256(&verifier).len(), 43);
}

#[test]
fn callback_parses_code_and_validates_state() {
    let line = "GET /callback?code=the-code&state=secret HTTP/1.1\r\n";
    assert_eq!(parse_callback_request(line, "secret").unwrap(), "the-code");
    assert!(parse_callback_request(line, "other").is_err());
    let missing = "GET /callback?state=secret HTTP/1.1\r\n";
    assert!(parse_callback_request(missing, "secret").is_err());
}

#[test]
fn backend_url_requires_http_scheme() {
    assert!(validated_backend_base_url("").is_err());
    assert!(validated_backend_base_url("osu-map-manager.workers.dev").is_err());
    assert!(validated_backend_base_url("ftp://example.com").is_err());
    assert_eq!(
        validated_backend_base_url("https://example.workers.dev/").unwrap(),
        "https://example.workers.dev"
    );
    assert_eq!(
        validated_backend_base_url("http://localhost:8787").unwrap(),
        "http://localhost:8787"
    );
}

#[test]
fn token_errors_are_actionable() {
    let body =
        r#"{"error":"invalid_client","error_description":"Client authentication failed"}"#;
    let message = friendly_token_error(body, "sign-in");
    assert!(message.contains("invalid_client"));
    assert!(message.contains("wrangler secret put OSU_CLIENT_SECRET"));

    let other = friendly_token_error(
        r#"{"error":"invalid_grant","error_description":"nope"}"#,
        "sign-in",
    );
    assert!(other.contains("invalid_grant"));

    let html = friendly_token_error("<html>oops</html>", "sign-in");
    assert!(html.contains("oops"));
}

#[test]
fn only_invalid_grant_is_a_permanent_refresh_failure() {
    assert!(is_invalid_grant(
        r#"{"error":"invalid_grant","error_description":"The refresh token is invalid."}"#
    ));
    // Other OAuth errors (e.g. broken Worker secrets) and non-JSON
    // bodies are transient: the stored session must survive them.
    assert!(!is_invalid_grant(
        r#"{"error":"invalid_client","error_description":"Client authentication failed"}"#
    ));
    assert!(!is_invalid_grant("<html>bad gateway</html>"));
    assert!(!is_invalid_grant(""));
}

#[test]
fn expired_session_needs_refresh() {
    let session = OauthSession {
        access_token: "token".to_owned(),
        refresh_token: "refresh".to_owned(),
        expires_at_unix: 1,
    };
    assert!(session.needs_refresh());
    let fresh = OauthSession {
        access_token: "token".to_owned(),
        refresh_token: "refresh".to_owned(),
        expires_at_unix: u64::MAX,
    };
    assert!(!fresh.needs_refresh());
}

fn session(access: &str, refresh: &str, expires_at_unix: u64) -> OauthSession {
    OauthSession {
        access_token: access.to_owned(),
        refresh_token: refresh.to_owned(),
        expires_at_unix,
    }
}

fn tokens(access: &str, refresh: &str, expires_in: u64) -> TokenResponse {
    TokenResponse {
        access_token: access.to_owned(),
        refresh_token: refresh.to_owned(),
        expires_in,
    }
}

#[test]
fn sessions_are_renewed_two_minutes_early() {
    let good = session("a", "r", 1000);
    assert!(!good.needs_refresh_at(879));
    assert!(good.needs_refresh_at(880));
    assert!(session(" \t", "r", u64::MAX).needs_refresh_at(0));
    assert!(session("", "r", u64::MAX).needs_refresh());
    assert!(session("a", "r", 100).needs_refresh_at(0));
}

#[test]
fn tokens_make_a_session() {
    let made = tokens("a", "r", 86_400).into_session_at(1_000).unwrap();
    assert_eq!(made.access_token, "a");
    assert_eq!(made.refresh_token, "r");
    assert_eq!(made.expires_at_unix, 87_400);
    assert!(!made.needs_refresh_at(1_000));
    // A token counts as valid for a minute at least.
    assert_eq!(tokens("a", "r", 0).into_session_at(5).unwrap().expires_at_unix, 65);

    let no_access = tokens(" ", "r", 9).into_session_at(5).unwrap_err();
    assert!(matches!(no_access, TokenError::NoAccessToken));
    assert_eq!(no_access.message(), "OAuth token response did not contain an access token");
    let no_refresh = tokens("a", "", 9).into_session_at(5).unwrap_err();
    assert!(matches!(no_refresh, TokenError::NoRefreshToken));
    assert_eq!(no_refresh.message(), "OAuth token response did not contain a refresh token");
    let too_far = tokens("a", "r", u64::MAX).checked_session_at(5).unwrap_err();
    assert!(matches!(too_far, TokenError::ExpiryTooFar));
    assert_eq!(too_far.message(), "OAuth token response expires too far in the future");
    assert!(tokens("", "r", u64::MAX).checked_session_at(5).is_err());

    let now = tokens("a", "r", 3600).into_session().unwrap();
    assert!(now.expires_at_unix > 1_700_000_000);
    assert!(!now.needs_refresh());
}

#[test]
fn addresses_of_the_backend() {
    assert_eq!(backend_base_url("  https://x.dev// "), "https://x.dev");
    assert_eq!(backend_url(None), BACKEND_URL);
    assert_eq!(backend_url(Some("  / ")), BACKEND_URL);
    assert_eq!(backend_url(Some(" http://localhost:1/ ")), "http://localhost:1");
    assert_eq!(token_endpoint("https://x.dev/"), "https://x.dev/oauth/token");
    assert_eq!(refresh_endpoint("https://x.dev"), "https://x.dev/oauth/refresh");
    assert_eq!(check_endpoint("https://x.dev"), "https://x.dev/oauth/check");
    let form = exchange_form("c", "v");
    let fields: Vec<(&str, &str)> =
        form.iter().map(|(name, value)| (name.as_str(), value.as_str())).collect();
    assert_eq!(
        fields,
        vec![
            ("code", "c"),
            ("redirect_uri", "http://127.0.0.1:3000/callback"),
            ("code_verifier", "v"),
        ]
    );
    assert_eq!(refresh_form("r"), vec![("refresh_token".to_owned(), "r".to_owned())]);
}

#[test]
fn backend_errors_have_words() {
    let missing = validated_backend_base_url(" / ").unwrap_err();
    assert!(matches!(missing, BackendUrlError::Missing));
    assert_eq!(missing.message(), "backend URL is required for osu! sign-in");
    let odd = validated_backend_base_url("x.dev/").unwrap_err();
    assert_eq!(odd.message(), "backend URL must start with http:// or https:// (got \"x.dev\")");
    let escaped = validated_backend_base_url("a\"\\\n\u{e9}").unwrap_err();
    assert_eq!(
        escaped.message(),
        format!("backend URL must start with http:// or https:// (got {:?})", "a\"\\\n\u{e9}")
    );
    assert!(validated_backend_base_url("HTTPS://X.dev").is_ok());
}

#[test]
fn a_sign_in_is_planned() {
    let verifier = "dBjftJeZ4CVP-mB92K27uhbUJU1p1r_wW1gFWFOEjXk";
    let plan = plan_sign_in("https://x.dev/", "s", verifier).unwrap();
    assert_eq!(plan.check_url, "https://x.dev/oauth/check");
    assert_eq!(plan.token_url, "https://x.dev/oauth/token");
    assert_eq!(
        plan.sign_in_url,
        authorize_url("https://x.dev", "s", "E9Melhoa2OwvFrEMTJguCHaoeK1t8URWbuGJSstw-cM")
    );
    assert!(!plan.sign_in_url.contains(verifier));
    assert!(plan_sign_in("x.dev", "s", verifier).is_err());
}

#[test]
fn percent_encoding_comes_back() {
    assert_eq!(url_encode("a b/ü%+~"), "a%20b%2F%C3%BC%25%2B~");
    for text in ["", "plain", "a b&c=d?e#f", "äöü €", "100%", "+", "\u{0}\u{7f}", "日本語"] {
        assert_eq!(url_decode(&url_encode(text)), text);
    }
    assert_eq!(url_decode("a+b%20c"), "a b c");
    assert_eq!(url_decode("%"), "%");
    assert_eq!(url_decode("%4"), "%4");
    assert_eq!(url_decode("%zz%41"), "%zzA");
    assert_eq!(url_decode("%c3%BC"), "ü");
    assert_eq!(url_decode("%ff"), "\u{fffd}");
}

#[test]
fn base64_for_urls() {
    let cases: [(&[u8], &str); 9] = [
        (b"", ""),
        (b"f", "Zg"),
        (b"fo", "Zm8"),
        (b"foo", "Zm9v"),
        (b"foob", "Zm9vYg"),
        (b"fooba", "Zm9vYmE"),
        (b"foobar", "Zm9vYmFy"),
        (&[0xfb, 0xff, 0xfe], "-__-"),
        (&[0, 0, 0, 0], "AAAAAA"),
    ];
    for (bytes, text) in cases {
        assert_eq!(base64url_no_pad(bytes), text);
        assert_eq!(text.len(), (bytes.len() * 8).div_ceil(6));
    }
}

#[test]
fn random_texts_come_from_fair_bytes() {
    let bytes: Vec<u8> = vec![0, 9, 10, 35, 36, 61, 62, 247, 248, 255, 124];
    assert_eq!(alphanumeric_from(&Some(bytes.clone()), 1, 2, 9), "09azAZ0Z0");
    assert_eq!(alphanumeric_from(&Some(bytes), 1, 2, 3), "09a");
    // Each letter or digit comes from four bytes.
    let all: Vec<u8> = (0..=255).collect();
    let text = alphanumeric_from(&Some(all), 1, 2, 248);
    for c in ('0'..='9').chain('a'..='z').chain('A'..='Z') {
        assert_eq!(text.chars().filter(|&d| d == c).count(), 4);
    }
}

#[test]
fn random_texts_fall_back_to_clock_and_process() {
    let mut fallback: u128 = 12_345;
    let alphabet = b"0123456789abcdefghijklmnopqrstuvwxyzABCDEFGHIJKLMNOPQRSTUVWXYZ";
    let mut expected = String::new();
    for _ in 0..40 {
        fallback = fallback.wrapping_mul(0x9E37_79B9_7F4A_7C15).wrapping_add(77);
        expected.push(alphabet[(fallback % 62) as usize] as char);
    }
    assert_eq!(alphanumeric_from(&None, 12_345, 77, 40), expected);
    let short = alphanumeric_from(&Some(vec![0, 255]), 12_345, 77, 3);
    assert_eq!(short, format!("0{}", &expected[..2]));
}

#[test]
fn callback_requests_of_all_kinds() {
    let parse = |line: &str| parse_callback_request(line, "s");
    assert_eq!(parse("").unwrap_err(), CallbackError::UnexpectedRequest);
    assert_eq!(parse("GET").unwrap_err(), CallbackError::UnexpectedRequest);
    assert_eq!(parse("GET /favicon.ico HTTP/1.1").unwrap_err(), CallbackError::UnexpectedPath);
    assert_eq!(parse("GET /callback HTTP/1.1").unwrap_err(), CallbackError::StateMismatch);
    assert_eq!(parse("GET /callback?state=s&code=%20").unwrap_err(), CallbackError::NoCode);
    assert_eq!(parse("GET /callback?state=x&code=c").unwrap_err(), CallbackError::StateMismatch);
    // The last value counts, and what has no equals sign means nothing.
    assert_eq!(parse("GET /callback?code=a&code=b&x&state=t&state=s").unwrap(), "b");
    assert_eq!(parse("GET /callback?code=a=b&state=s").unwrap(), "a=b");
    assert_eq!(
        CallbackError::StateMismatch.message(),
        "sign-in state mismatch; try again"
    );
    assert_eq!(CallbackError::UnexpectedRequest.message(), "unexpected callback request");
    assert_eq!(CallbackError::UnexpectedPath.message(), "unexpected callback path");
    assert_eq!(CallbackError::NoCode.message(), "osu! did not return an authorization code");
}

#[test]
fn any_code_comes_back_with_its_state() {
    for (code, state) in [("c", "s"), ("a b&state=x", "ü=?#"), ("100% + 1", ""), ("日本", " ")] {
        let line = format!(
            "GET /callback?code={}&state={} HTTP/1.1\r\n",
            url_encode(code),
            url_encode(state)
        );
        assert_eq!(parse_callback_request(&line, state).unwrap(), code);
        assert_eq!(
            parse_callback_request(&line, "another").unwrap_err(),
            CallbackError::StateMismatch
        );
    }
}

#[test]
fn the_browser_gets_an_answer() {
    assert_eq!(
        callback_response(true),
        "HTTP/1.1 200 OK\r\nContent-Type: text/html; charset=utf-8\r\nContent-Length: 60\r\nConnection: close\r\n\r\n<h1>Signed in</h1><p>You can return to osu! Map Manager.</p>"
    );
    let failed = callback_response(false);
    let page = "<h1>Sign-in failed</h1><p>Return to osu! Map Manager and try again.</p>";
    assert!(failed.starts_with("HTTP/1.1 400 Bad Request\r\n"));
    assert!(failed.contains(&format!("Content-Length: {}\r\n", page.len())));
    assert!(failed.ends_with(page));
}

#[test]
fn refusals_in_words() {
    assert_eq!(
        friendly_token_error(r#"{"error":"invalid_grant","error_description":"nope"}"#, "sign-in"),
        "osu! sign-in failed (invalid_grant: nope)"
    );
    assert_eq!(
        friendly_token_error(r#"{"error":"server_error"}"#, "token refresh"),
        "osu! token refresh failed (server_error)"
    );
    assert_eq!(friendly_token_error("[1]", "sign-in"), "osu! sign-in failed: [1]");
    assert_eq!(friendly_token_error(r#"{"error":5}"#, "x"), "osu! x failed: {\"error\":5}");
    let long = "ü".repeat(400);
    assert_eq!(
        friendly_token_error(&long, "sign-in"),
        format!("osu! sign-in failed: {}", "ü".repeat(300))
    );
    assert_eq!(
        friendly_error_text("invalid_client", "", "", "sign-in"),
        "osu! rejected the Worker's OAuth credentials (invalid_client). Fix: on the machine that deploys the Worker, run `npx wrangler secret put OSU_CLIENT_ID` and `npx wrangler secret put OSU_CLIENT_SECRET` with the values from https://osu.ppy.sh/home/account/edit#oauth, then `npx wrangler deploy`."
    );
    assert!(is_invalid_grant_code(Some("invalid_grant")));
    assert!(!is_invalid_grant_code(Some("Invalid_grant")));
    assert!(!is_invalid_grant_code(None));
    assert!(!is_invalid_grant(r#"{"error":null}"#));
}

#[test]
fn replies_become_sessions_or_errors() {
    let good = session_from_reply_at(TokenReply::Tokens(tokens("a", "r", 100)), "sign-in", 7);
    assert_eq!(good.unwrap().expires_at_unix, 107);
    let odd = session_from_reply(TokenReply::Undecodable("bad".into()), "sign-in").unwrap_err();
    assert_eq!(odd.message(), "decoding the osu! token response");
    let refused = session_from_reply(TokenReply::Refused("<oops>".into()), "sign-in").unwrap_err();
    assert_eq!(refused.message(), "osu! sign-in failed: <oops>");
}

#[test]
fn renewals_keep_the_session_unless_the_grant_is_dead() {
    let dead = RefreshReply::Reply(TokenReply::Refused(r#"{"error":"invalid_grant"}"#.into()));
    let failure = refreshed_at(dead, 5).unwrap_err();
    assert!(failure.permanent);
    assert_eq!(failure.message(), "osu! token refresh failed (invalid_grant)");
    let mut kept = Some(session("a", "r", 9));
    assert!(after_refresh(&mut kept, Err(failure)).is_err());
    assert!(kept.is_none());

    for passing in [
        RefreshReply::Unsent("no network".into()),
        RefreshReply::Reply(TokenReply::Refused(r#"{"error":"invalid_client"}"#.into())),
        RefreshReply::Reply(TokenReply::Undecodable("html".into())),
        RefreshReply::Reply(TokenReply::Tokens(tokens("", "", 0))),
    ] {
        let failure: RefreshError = refreshed(passing).unwrap_err();
        assert!(!failure.permanent);
        let mut kept = Some(session("a", "r", 9));
        assert!(after_refresh(&mut kept, Err(failure)).is_err());
        assert_eq!(kept.unwrap().refresh_token, "r");
    }

    let next = refreshed_at(RefreshReply::Reply(TokenReply::Tokens(tokens("b", "s", 500))), 5);
    let mut renewed = Some(session("a", "r", 9));
    assert_eq!(after_refresh(&mut renewed, next).unwrap().as_deref(), Some("b"));
    assert_eq!(renewed.unwrap().expires_at_unix, 505);
    let unsent = refreshed_at(RefreshReply::Unsent("x".into()), 5).unwrap_err();
    assert_eq!(unsent.message(), "refreshing the osu! access token");
}

#[test]
fn steps_to_an_access_token() {
    assert!(matches!(access_step_at(&None, 5), AccessStep::SignedOut));
    assert!(matches!(access_step(&None), AccessStep::SignedOut));
    let good = Some(session("a", "r", 1000));
    assert!(matches!(access_step_at(&good, 5), AccessStep::Use(token) if token == "a"));
    assert!(matches!(access_step_at(&good, 900), AccessStep::Refresh(token) if token == "r"));
    assert!(matches!(access_step(&good), AccessStep::Refresh(token) if token == "r"));
}

#[test]
fn the_backend_says_whether_it_is_ready() {
    let check = |ok, error: Option<&str>, message: Option<&str>| {
        CheckResponse { ok, error: error.map(str::to_owned), message: message.map(str::to_owned) }
            .into_result()
    };
    assert!(check(true, Some("e"), Some("m")).is_ok());
    assert_eq!(check(false, Some("e"), Some("m")).unwrap_err(), "m");
    assert_eq!(check(false, Some("e"), None).unwrap_err(), "e");
    assert_eq!(check(false, None, None).unwrap_err(), "the sign-in backend is not ready");
}

#[test]
fn the_session_is_kept_in_the_game_folder() {
    assert_eq!(
        oauth_session_path(" /games/osu ", Some("/cwd"), None),
        vec!["/games/osu", ".osu-map-manager", "oauth.json"]
    );
    assert_eq!(
        oauth_session_path("  ", Some("/cwd"), Some("/home/u")),
        vec!["/cwd", ".osu-map-manager", "oauth.json"]
    );
    assert_eq!(
        oauth_session_path("", None, None),
        vec![".", ".osu-map-manager", "oauth.json"]
    );
    assert_eq!(
        oauth_session_path("%USERPROFILE%\\/osu!", Some("/cwd"), Some("/home/u")),
        vec!["/home/u", "osu!", ".osu-map-manager", "oauth.json"]
    );
    assert_eq!(expand_prefilled_path("%USERPROFILE%\\osu!", None), vec!["%USERPROFILE%\\osu!"]);
    assert_eq!(expand_prefilled_path("%userprofile%", Some("/h")), vec!["%userprofile%"]);
}

#[test]
fn the_sign_in_address_carries_its_values() {
    let url = authorize_url("https://x.dev", "a&b=c ü", "ch?llenge");
    let (_, query) = url.split_once('?').unwrap();
    let values: Vec<(String, String)> = query
        .split('&')
        .map(|pair| pair.split_once('=').unwrap())
        .map(|(key, value)| (key.to_owned(), url_decode(value)))
        .collect();
    assert_eq!(
        values,
        vec![
            ("redirect_uri".to_owned(), "http://127.0.0.1:3000/callback".to_owned()),
            ("state".to_owned(), "a&b=c ü".to_owned()),
            ("code_challenge".to_owned(), "ch?llenge".to_owned()),
            ("code_challenge_method".to_owned(), "S256".to_owned()),
        ]
    );
    assert_eq!(url_encode("Az09-_.~"), "Az09-_.~");
}

#[test]
fn what_is_stale_stays_stale() {
    let session = session("a", "r", 1000);
    let mut stale = false;
    for now in 0..2000 {
        assert!(!stale || session.needs_refresh_at(now));
        stale = session.needs_refresh_at(now);
    }
    assert!(stale);
    assert!(!session.needs_refresh_at(879));
    assert!(session.needs_refresh_at(880));
}

#[test]
fn renewed_sessions_are_complete() {
    for (access, refresh) in [("", "r"), ("a", " "), ("\t", "")] {
        let reply = RefreshReply::Reply(TokenReply::Tokens(tokens(access, refresh, 500)));
        assert!(refreshed_at(reply, 5).is_err());
    }
    let reply = RefreshReply::Reply(TokenReply::Tokens(tokens("a", "r", 1)));
    assert_eq!(refreshed_at(reply, 5).unwrap().expires_at_unix, 65);
}

#[test]
fn the_clock_counts_whole_seconds() {
    assert_eq!(seconds_on_clock(None), 0);
    assert_eq!(seconds_on_clock(Some(999_999_999)), 0);
    assert_eq!(seconds_on_clock(Some(1_000_000_000)), 1);
    assert_eq!(seconds_on_clock(Some(1_700_000_000_123_456_789)), 1_700_000_000);
    assert_eq!(seconds_on_clock(Some(u64::MAX as u128 * 1_000_000_000)), u64::MAX);

    // A token that came just now expires when it says, by the machine's clock.
    let clock = std::time::SystemTime::now().duration_since(std::time::UNIX_EPOCH).unwrap();
    let session = tokens("a", "r", 500).into_session().unwrap();
    let left = session.expires_at_unix - clock.as_secs();
    assert!((500..=560).contains(&left));
}

fn check(ok: bool) -> SignInEvent {
    SignInEvent::Checked(CheckResponse { ok, error: Some("bad secret".into()), message: None })
}

#[test]
fn the_backend_is_asked_before_the_browser_opens() {
    let (mut sign_in, first) = SignIn::begin("https://x.dev/", "s", "verifier").unwrap();
    assert!(matches!(first, SignInStep::Check { url } if url == "https://x.dev/oauth/check"));
    // What does not belong to the phase changes nothing.
    assert!(matches!(sign_in.next(SignInEvent::Opened), SignInStep::Check { .. }));
    assert!(matches!(sign_in.next(SignInEvent::Code("c".into())), SignInStep::Check { .. }));
    match sign_in.next(check(true)) {
        SignInStep::OpenBrowser { url } => {
            assert_eq!(url, authorize_url("https://x.dev", "s", &code_challenge_s256("verifier")));
        }
        step => panic!("{step:?}"),
    }
    assert!(matches!(sign_in.next(check(true)), SignInStep::OpenBrowser { .. }));
    assert!(matches!(sign_in.next(SignInEvent::Opened), SignInStep::AwaitCallback));
    assert!(matches!(sign_in.next(SignInEvent::Opened), SignInStep::AwaitCallback));
    match sign_in.next(SignInEvent::Code("the-code".into())) {
        SignInStep::Exchange { url, form } => {
            assert_eq!(url, "https://x.dev/oauth/token");
            assert_eq!(form, exchange_form("the-code", "verifier"));
        }
        step => panic!("{step:?}"),
    }
    assert_eq!(sign_in.phase, SignInPhase::Exchanging);
    assert!(matches!(sign_in.next(SignInEvent::Opened), SignInStep::Nothing));
}

#[test]
fn a_backend_that_is_not_ready_ends_the_sign_in() {
    let (mut sign_in, _) = SignIn::begin("https://x.dev/", "s", "verifier").unwrap();
    match sign_in.next(check(false)) {
        SignInStep::GiveUp { message } => assert_eq!(message, "bad secret"),
        step => panic!("{step:?}"),
    }
    assert!(matches!(sign_in.next(check(true)), SignInStep::Nothing));
    assert_eq!(sign_in.phase, SignInPhase::GivenUp);
    assert!(matches!(SignIn::begin(" / ", "s", "v"), Err(BackendUrlError::Missing)));
    assert!(matches!(SignIn::begin("x.dev", "s", "v"), Err(BackendUrlError::NotHttp { .. })));
}

#[test]
fn the_callback_is_waited_for_three_minutes() {
    let waited = |millis| listen_step(ListenEvent::Waited { millis }, "s");
    assert!(matches!(waited(0), ListenStep::Accept));
    assert!(matches!(waited(179_999), ListenStep::Accept));
    assert!(matches!(waited(180_000), ListenStep::TimedOut));
    let pause = listen_step(ListenEvent::NothingYet, "s");
    assert!(matches!(pause, ListenStep::Pause { millis: 50 }));
    for (line, signed_in) in
        [("GET /callback?code=c&state=s HTTP/1.1", true), ("GET /callback?code=c HTTP/1.1", false)]
    {
        match listen_step(ListenEvent::Request { line: line.into() }, "s") {
            ListenStep::Answer { response, code } => {
                assert_eq!(response, callback_response(signed_in));
                assert_eq!(code.is_ok(), signed_in);
            }
            step => panic!("{step:?}"),
        }
    }
}

#[test]
fn a_scheme_alone_is_no_backend() {
    for url in ["http:// /", "https:// /", " HTTP://  // ", "http://\t/"] {
        // Its base passes, but the base of that does not.
        let base = validated_backend_base_url(url).unwrap();
        assert!(validated_backend_base_url(&base).is_err());
        let refused = backend_base_url(&base);
        match plan_sign_in(url, "s", "v") {
            Err(BackendUrlError::NotHttp { url }) => assert_eq!(url, refused),
            other => panic!("{other:?}"),
        }
        match SignIn::begin(url, "s", "v") {
            Err(BackendUrlError::NotHttp { url }) => assert_eq!(url, refused),
            other => panic!("{other:?}"),
        }
    }
    let plan = plan_sign_in("HTTPS://x.dev /", "s", "v").unwrap();
    assert_eq!(plan.check_url, "HTTPS://x.dev/oauth/check");
    for url in [&plan.check_url, &plan.sign_in_url, &plan.token_url] {
        assert!(validated_backend_base_url(url).is_ok());
    }
    // Asked by itself, the backend is asked at the base of the address.
    assert_eq!(check_endpoint("https://x /"), "https://x /oauth/check");
}
