//! What holds of sessions, of the addresses of the backend, and of what the
//! backend answers.

use crate::osu_oauth::{
    app_data_parts, base_url, body_text, callback_answer, callback_code, callback_page,
    chosen_backend, detail_text, endpoint_address, exchange_fields, expanded_path, friendly_text,
    is_access_step, is_refresh_result, is_web_address, last_value, member_text, query_value,
    refusal_text, root_parts, session_left, token_after, whole_seconds, AccessStep, CallbackError,
    CheckResponse, OauthSession, RefreshError, RefreshReply, TokenError, TokenReply, TokenResponse,
    OAUTH_REDIRECT_URI,
};
use crate::decimal::decimal_text;
use crate::outside::json_members;
use crate::sign_in::{
    is_listen_step, phase_after, ListenEvent, ListenStep, SignIn, SignInEvent, SignInPhase,
    SignInStep,
};
use crate::text::{
    ascii_lower, is_white_space, second_word, split_once, starts_with, trim, CharClass,
};
use crate::text_laws::{law_trim, law_trim_end, law_trim_start};
use vstd::prelude::*;
use vstd::utf8::encode_utf8;

verus! {

// ---------------------------------------------------------------------------
// Sessions
// ---------------------------------------------------------------------------

/// A clock shows the seconds that have gone by in full, and none where it is
/// set before the epoch.
pub proof fn law_whole_seconds(nanoseconds: u128)
    ensures
        1_000_000_000 * whole_seconds(Some(nanoseconds)) <= nanoseconds,
        nanoseconds < 1_000_000_000 * (whole_seconds(Some(nanoseconds)) + 1),
        whole_seconds(None) == 0,
{
}

/// A session is renewed from two minutes before it expires, and one without a
/// token at once.
pub proof fn law_when_sessions_are_renewed(session: OauthSession, now: u64)
    ensures
        trim(session.access_token@).len() == 0 ==> session.is_stale(now),
        trim(session.access_token@).len() > 0 ==> session.is_stale(now) == (now + 120
            >= session.expires_at_unix),
{
}

/// Tokens make a session that holds them as they are, and that lasts as long as
/// the backend says, but a minute at least.
pub proof fn law_tokens_make_a_session(tokens: TokenResponse, now: u64)
    requires
        trim(tokens.access_token@).len() > 0,
        trim(tokens.refresh_token@).len() > 0,
    ensures
        60 <= tokens.expires_in && now + tokens.expires_in <= u64::MAX ==> (tokens.outcome(
            now,
        ) matches Ok(session) && session.access_token == tokens.access_token
            && session.refresh_token == tokens.refresh_token && session.expires_at_unix == now
            + tokens.expires_in),
        tokens.expires_in < 60 && now + 60 <= u64::MAX ==> (tokens.outcome(now) matches Ok(session)
            && session.access_token == tokens.access_token && session.refresh_token
            == tokens.refresh_token && session.expires_at_unix == now + 60),
        now + 60 > u64::MAX || now + tokens.expires_in > u64::MAX ==> tokens.outcome(now) == Err::<
            OauthSession,
            TokenError,
        >(TokenError::ExpiryTooFar),
{
}

/// Blank tokens make no session; a blank access token is complained about
/// first.
pub proof fn law_blank_tokens(tokens: TokenResponse, now: u64)
    ensures
        trim(tokens.access_token@).len() == 0 ==> tokens.outcome(now) == Err::<
            OauthSession,
            TokenError,
        >(TokenError::NoAccessToken),
        trim(tokens.access_token@).len() > 0 && trim(tokens.refresh_token@).len() == 0
            ==> tokens.outcome(now) == Err::<OauthSession, TokenError>(TokenError::NoRefreshToken),
{
}

/// With a session that is good its access token is used, with one that is not
/// its refresh token is sent, and without one nothing is done.
pub proof fn law_steps_to_a_token(session: OauthSession, now: u64, step: AccessStep)
    ensures
        is_access_step(None, now, step) == (step is SignedOut),
        !session.is_stale(now) ==> is_access_step(Some(session), now, step) == (step
            == AccessStep::Use(session.access_token)),
        session.is_stale(now) ==> is_access_step(Some(session), now, step) == (step
            == AccessStep::Refresh(session.refresh_token)),
{
}

/// A renewed session takes the place of the old one; a failure leaves the old
/// one, unless it is for good.
pub proof fn law_session_after_a_refresh(
    session: Option<OauthSession>,
    next: OauthSession,
    failure: RefreshError,
)
    ensures
        session_left(session, Ok(next)) == Some(next),
        failure.permanent ==> session_left(session, Err(failure)) is None,
        !failure.permanent ==> session_left(session, Err(failure)) == session,
{
}

/// What becomes of a renewal: tokens are made a session, a request that was not
/// sent and a reply that cannot be read leave the grant alive, and a refusal
/// kills it only where it says that the grant is invalid.
pub proof fn law_results_of_a_refresh(
    cause: String,
    body: String,
    tokens: TokenResponse,
    now: u64,
    res: Result<OauthSession, RefreshError>,
)
    ensures
        is_refresh_result(RefreshReply::Unsent(cause), now, res) ==> (res matches Err(failure)
            && !failure.permanent),
        is_refresh_result(RefreshReply::Reply(TokenReply::Undecodable(cause)), now, res) ==> (
        res matches Err(failure) && !failure.permanent && failure.err
            == TokenError::Undecodable { cause }),
        is_refresh_result(RefreshReply::Reply(TokenReply::Refused(body)), now, res) ==> (
        res matches Err(failure) && failure.permanent == (body_text(body@, "error"@) == Some(
            "invalid_grant"@,
        ))),
        is_refresh_result(RefreshReply::Reply(TokenReply::Tokens(tokens)), now, res) ==> (
        match res {
            Ok(session) => tokens.outcome(now) == Ok::<OauthSession, TokenError>(session),
            Err(failure) => !failure.permanent && tokens.outcome(now) == Err::<
                OauthSession,
                TokenError,
            >(failure.err),
        }),
{
}

/// What errors say.
pub proof fn law_words_of_token_errors(attempt: String, cause: String, message: String)
    ensures
        (TokenError::Unsent { attempt, cause }).text() == attempt@,
        (TokenError::Undecodable { cause }).text() == "decoding the osu! token response"@,
        TokenError::NoAccessToken.text() == "OAuth token response did not contain an access token"@,
        TokenError::NoRefreshToken.text() == "OAuth token response did not contain a refresh token"@,
        (TokenError::Refused { message }).text() == message@,
        CallbackError::UnexpectedRequest.text() == "unexpected callback request"@,
        CallbackError::UnexpectedPath.text() == "unexpected callback path"@,
        CallbackError::StateMismatch.text() == "sign-in state mismatch; try again"@,
        CallbackError::NoCode.text() == "osu! did not return an authorization code"@,
{
}

// ---------------------------------------------------------------------------
// Addresses
// ---------------------------------------------------------------------------

/// The base of an address is the address without the white space around it and
/// without the slashes at its end.
pub proof fn law_base_of_an_address(
    a: Seq<char>,
    base: Seq<char>,
    slashes: Seq<char>,
    b: Seq<char>,
)
    requires
        forall|i: int| 0 <= i < a.len() ==> is_white_space(#[trigger] a[i]),
        forall|i: int| 0 <= i < b.len() ==> is_white_space(#[trigger] b[i]),
        forall|i: int| 0 <= i < slashes.len() ==> #[trigger] slashes[i] == '/',
        base.len() > 0,
        !is_white_space(base[0]) && !is_white_space(base.last()) && base.last() != '/',
    ensures
        base_url(a + (base + slashes) + b) == base,
        endpoint_address(a + (base + slashes) + b, "/oauth/token"@) == base + "/oauth/token"@,
{
    let inner = base + slashes;
    if slashes.len() > 0 {
        assert(slashes[slashes.len() - 1] == '/');
        assert(inner.last() == '/');
    } else {
        assert(inner =~= base);
    }
    assert(inner[0] == base[0]);
    law_trim(a, inner, b);
    law_trim_end(base, slashes, CharClass::Only('/'));
}

/// An address is on the web where it begins with one of two schemes, however
/// it is written.
pub proof fn law_addresses_on_the_web(url: Seq<char>, scheme: Seq<char>, rest: Seq<char>)
    ensures
        ascii_lower(scheme) == "http://"@ || ascii_lower(scheme) == "https://"@ ==> is_web_address(
            scheme + rest,
        ),
        is_web_address(url) ==> (exists|n: int|
            0 <= n <= url.len() && (#[trigger] ascii_lower(url.take(n)) == "http://"@ || ascii_lower(
                url.take(n),
            ) == "https://"@)),
{
    let all = ascii_lower(scheme + rest);
    assert(all.take(scheme.len() as int) =~= ascii_lower(scheme));
    if is_web_address(url) {
        let n = if starts_with(ascii_lower(url), "http://"@) {
            "http://"@.len() as int
        } else {
            "https://"@.len() as int
        };
        assert(ascii_lower(url.take(n)) =~= ascii_lower(url).take(n));
    }
}

/// A code is exchanged together with the verifier and the place that the
/// browser came back to, each under its own name.
pub proof fn law_exchange_form(code: Seq<char>, code_verifier: Seq<char>)
    ensures
        exchange_fields(code, code_verifier).len() == 3,
        exchange_fields(code, code_verifier).contains(("code"@, code)),
        exchange_fields(code, code_verifier).contains(("code_verifier"@, code_verifier)),
        exchange_fields(code, code_verifier).contains(
            ("redirect_uri"@, "http://127.0.0.1:3000/callback"@),
        ),
{
    let fields = exchange_fields(code, code_verifier);
    assert(fields[0] == ("code"@, code));
    assert(fields[1] == ("redirect_uri"@, OAUTH_REDIRECT_URI@));
    assert(fields[2] == ("code_verifier"@, code_verifier));
}

// ---------------------------------------------------------------------------
// Refusals
// ---------------------------------------------------------------------------

/// Of the members of an object with one name, the first is looked at.
pub proof fn law_first_member(
    members: Seq<(Seq<char>, Option<Seq<char>>)>,
    key: Seq<char>,
    i: int,
)
    requires
        0 <= i < members.len(),
        members[i].0 == key,
        forall|j: int| 0 <= j < i ==> (#[trigger] members[j]).0 != key,
    ensures
        member_text(members, key) == members[i].1,
    decreases members.len(),
{
    if i > 0 {
        assert(members[0].0 != key);
        let rest = members.skip(1);
        assert forall|j: int| 0 <= j < i - 1 implies (#[trigger] rest[j]).0 != key by {
            assert(members[j + 1].0 != key);
        }
        law_first_member(rest, key, i - 1);
    }
}

/// An object without a member of a name has no text for it, and neither has a
/// body that is no object.
pub proof fn law_missing_member(
    members: Seq<(Seq<char>, Option<Seq<char>>)>,
    body: Seq<char>,
    key: Seq<char>,
)
    requires
        forall|j: int| 0 <= j < members.len() ==> (#[trigger] members[j]).0 != key,
    ensures
        member_text(members, key) is None,
        json_members(body) is None ==> body_text(body, key) is None,
    decreases members.len(),
{
    if members.len() > 0 {
        let rest = members.skip(1);
        assert(members[0].0 != key);
        assert forall|j: int| 0 <= j < rest.len() implies (#[trigger] rest[j]).0 != key by {
            assert(members[j + 1].0 != key);
        }
        law_missing_member(rest, body, key);
    }
}

/// A refusal is told by its error and its description where it has an error,
/// else by the first three hundred characters of the body.
pub proof fn law_words_of_a_refusal(
    error: Seq<char>,
    description: Seq<char>,
    body: Seq<char>,
    action: Seq<char>,
)
    ensures
        error.len() > 0 && error != "invalid_client"@ && description.len() > 0 ==> friendly_text(
            error,
            description,
            body,
            action,
        ) == "osu! "@ + action + " failed ("@ + error + (": "@ + description) + ")"@,
        error.len() > 0 && error != "invalid_client"@ && description.len() == 0 ==> friendly_text(
            error,
            description,
            body,
            action,
        ) == "osu! "@ + action + " failed ("@ + error + ")"@,
        error.len() == 0 && body.len() <= 300 ==> friendly_text(error, description, body, action)
            == "osu! "@ + action + " failed: "@ + body,
        error.len() == 0 && body.len() > 300 ==> friendly_text(error, description, body, action)
            == "osu! "@ + action + " failed: "@ + body.take(300),
{
    reveal_strlit("invalid_client");
    assert("invalid_client"@.len() == 14);
    let start = "osu! "@ + action + " failed ("@ + error;
    assert(start + Seq::<char>::empty() + ")"@ =~= start + ")"@);
}

/// What the wrong credentials of the backend are told by does not depend on
/// what was tried.
pub proof fn law_wrong_credentials(
    description: Seq<char>,
    body: Seq<char>,
    other_body: Seq<char>,
    action: Seq<char>,
    other_action: Seq<char>,
)
    ensures
        friendly_text("invalid_client"@, description, body, action) == friendly_text(
            "invalid_client"@,
            description,
            other_body,
            other_action,
        ),
        starts_with(
            friendly_text("invalid_client"@, description, body, action),
            "osu! rejected the Worker's OAuth credentials (invalid_client"@ + detail_text(
                description,
            ),
        ),
{
    let text = friendly_text("invalid_client"@, description, body, action);
    let start = "osu! rejected the Worker's OAuth credentials (invalid_client"@ + detail_text(
        description,
    );
    assert(text.take(start.len() as int) =~= start);
}

/// A refusal in a body is told by the members `error` and `error_description`
/// of it.
pub proof fn law_refusal_in_a_body(
    body: Seq<char>,
    action: Seq<char>,
    error: Seq<char>,
    description: Seq<char>,
)
    requires
        body_text(body, "error"@) == Some(error),
    ensures
        body_text(body, "error_description"@) == Some(description) ==> refusal_text(body, action)
            == friendly_text(error, description, body, action),
        body_text(body, "error_description"@) is None ==> refusal_text(body, action)
            == friendly_text(error, Seq::empty(), body, action),
{
}

/// A backend that is not ready says why: by its message, else by its error,
/// else in general words.
pub proof fn law_complaints_of_the_backend(check: CheckResponse)
    ensures
        check.message matches Some(message) ==> check.complaint() == message@,
        check.message is None ==> (check.error matches Some(error) ==> check.complaint() == error@),
        check.message is None && check.error is None ==> check.complaint()
            == "the sign-in backend is not ready"@,
{
}

// ---------------------------------------------------------------------------
// The callback
// ---------------------------------------------------------------------------

/// Of the values of one name in a query, the last counts.
pub proof fn law_last_value_counts(
    pairs: Seq<Seq<char>>,
    key: Seq<char>,
    value: Seq<char>,
    i: int,
)
    requires
        0 <= i < pairs.len(),
        split_once(pairs[i], '=') == Some((key, value)),
        forall|j: int|
            i < j < pairs.len() ==> !(split_once(#[trigger] pairs[j], '=') matches Some((k, _)) && k
                == key),
    ensures
        last_value(pairs, key) == Some(value),
    decreases pairs.len(),
{
    if i < pairs.len() - 1 {
        let init = pairs.drop_last();
        assert(init[i] == pairs[i]);
        assert forall|j: int| i < j < init.len() implies !(split_once(
            #[trigger] init[j],
            '=',
        ) matches Some((k, _)) && k == key) by {
            assert(init[j] == pairs[j]);
        }
        law_last_value_counts(init, key, value, i);
        assert(pairs.last() == pairs[pairs.len() - 1]);
    }
}

/// What is wrong with a callback is told in this order: no path, another path,
/// another state, no code.
pub proof fn law_faults_of_a_callback(line: Seq<char>, path: Seq<char>, expected: Seq<char>)
    ensures
        second_word(line) is None ==> callback_code(line, expected) == Err::<
            Seq<char>,
            CallbackError,
        >(CallbackError::UnexpectedRequest),
        second_word(line) == Some(path) && !starts_with(path, "/callback"@) ==> callback_code(
            line,
            expected,
        ) == Err::<Seq<char>, CallbackError>(CallbackError::UnexpectedPath),
        second_word(line) == Some(path) && starts_with(path, "/callback"@) && query_value(
            path,
            "state"@,
        ) != expected ==> callback_code(line, expected) == Err::<Seq<char>, CallbackError>(
            CallbackError::StateMismatch,
        ),
        second_word(line) == Some(path) && starts_with(path, "/callback"@) && query_value(
            path,
            "state"@,
        ) == expected && trim(query_value(path, "code"@)).len() == 0 ==> callback_code(
            line,
            expected,
        ) == Err::<Seq<char>, CallbackError>(CallbackError::NoCode),
        second_word(line) == Some(path) && starts_with(path, "/callback"@) && query_value(
            path,
            "state"@,
        ) == expected && trim(query_value(path, "code"@)).len() > 0 ==> callback_code(line, expected)
            == Ok::<Seq<char>, CallbackError>(query_value(path, "code"@)),
{
}

/// The browser is told by the status and by the page whether it worked, and
/// how long the page is.
pub proof fn law_answers_to_the_browser()
    ensures
        starts_with(callback_answer(true), "HTTP/1.1 200 OK\r\n"@),
        starts_with(callback_answer(false), "HTTP/1.1 400 Bad Request\r\n"@),
        callback_page(true) == "<h1>Signed in</h1><p>You can return to osu! Map Manager.</p>"@,
        callback_page(false)
            == "<h1>Sign-in failed</h1><p>Return to osu! Map Manager and try again.</p>"@,
{
    reveal_strlit("HTTP/1.1 200 OK\r\n");
    reveal_strlit("HTTP/1.1 400 Bad Request\r\n");
    reveal_strlit("HTTP/1.1 ");
    reveal_strlit("200 OK");
    reveal_strlit("400 Bad Request");
    reveal_strlit("\r\nContent-Type: text/html; charset=utf-8\r\nContent-Length: ");
    let good = callback_answer(true);
    let bad = callback_answer(false);
    assert(good.take(17) =~= "HTTP/1.1 200 OK\r\n"@);
    assert(bad.take(26) =~= "HTTP/1.1 400 Bad Request\r\n"@);
}

/// An answer ends with a blank line and its page, and gives the length of the
/// page in bytes.
pub proof fn law_answers_give_their_length(signed_in: bool)
    ensures
        exists|head: Seq<char>|
            callback_answer(signed_in) == #[trigger] (head + "\r\nContent-Length: "@ + decimal_text(
                encode_utf8(callback_page(signed_in)).len(),
            ) + "\r\nConnection: close\r\n\r\n"@ + callback_page(signed_in)),
{
    reveal_strlit("\r\nContent-Type: text/html; charset=utf-8\r\nContent-Length: ");
    reveal_strlit("\r\nContent-Type: text/html; charset=utf-8");
    reveal_strlit("\r\nContent-Length: ");
    let status = if signed_in {
        "200 OK"@
    } else {
        "400 Bad Request"@
    };
    let head = "HTTP/1.1 "@ + status + "\r\nContent-Type: text/html; charset=utf-8"@;
    assert("\r\nContent-Type: text/html; charset=utf-8\r\nContent-Length: "@
        =~= "\r\nContent-Type: text/html; charset=utf-8"@ + "\r\nContent-Length: "@);
    assert(callback_answer(signed_in) =~= head + "\r\nContent-Length: "@ + decimal_text(
        encode_utf8(callback_page(signed_in)).len(),
    ) + "\r\nConnection: close\r\n\r\n"@ + callback_page(signed_in));
}

/// The callback is waited for three minutes, with a short pause between looks.
pub proof fn law_waiting_for_the_callback(millis: u128, expected: Seq<char>, step: ListenStep)
    ensures
        millis < 180_000 ==> is_listen_step(ListenEvent::Waited { millis }, expected, step) == (step
            is Accept),
        millis >= 180_000 ==> is_listen_step(ListenEvent::Waited { millis }, expected, step) == (
        step is TimedOut),
        is_listen_step(ListenEvent::NothingYet, expected, step) ==> step == (ListenStep::Pause {
            millis: 50,
        }),
{
}

/// A request is answered with success where it brings the code, and with
/// failure where it does not.
pub proof fn law_answers_match_the_outcome(line: String, expected: Seq<char>, step: ListenStep)
    requires
        is_listen_step(ListenEvent::Request { line }, expected, step),
    ensures
        step matches ListenStep::Answer { response, code } && match code {
            Ok(code) => response@ == callback_answer(true) && callback_code(line@, expected) == Ok::<
                Seq<char>,
                CallbackError,
            >(code@),
            Err(error) => response@ == callback_answer(false) && callback_code(line@, expected)
                == Err::<Seq<char>, CallbackError>(error),
        },
{
}

// ---------------------------------------------------------------------------
// The steps of a sign-in
// ---------------------------------------------------------------------------

/// A sign-in goes from the check to the browser, from the browser to the wait
/// and from the wait to the exchange; it is given up where the check fails.
/// What comes out of turn changes nothing.
pub proof fn law_phases_in_turn(check: CheckResponse, code: String, event: SignInEvent)
    ensures
        check.ok ==> phase_after(SignInPhase::Checking, SignInEvent::Checked(check))
            == SignInPhase::Opening,
        !check.ok ==> phase_after(SignInPhase::Checking, SignInEvent::Checked(check))
            == SignInPhase::GivenUp,
        !(event is Checked) ==> phase_after(SignInPhase::Checking, event) == SignInPhase::Checking,
        phase_after(SignInPhase::Opening, SignInEvent::Opened) == SignInPhase::Waiting,
        !(event is Opened) ==> phase_after(SignInPhase::Opening, event) == SignInPhase::Opening,
        phase_after(SignInPhase::Waiting, SignInEvent::Code(code)) == SignInPhase::Exchanging,
        !(event is Code) ==> phase_after(SignInPhase::Waiting, event) == SignInPhase::Waiting,
        phase_after(SignInPhase::Exchanging, event) == SignInPhase::Exchanging,
        phase_after(SignInPhase::GivenUp, event) == SignInPhase::GivenUp,
{
}

/// The addresses that a sign-in goes to, each at its own step: the check, then
/// the browser, then the exchange of the code that came.
pub proof fn law_addresses_of_the_steps(
    sign_in: SignIn,
    check: CheckResponse,
    code: String,
    step: SignInStep,
)
    ensures
        sign_in.phase == SignInPhase::Checking && check.ok && sign_in.is_step(
            SignInEvent::Checked(check),
            step,
        ) ==> step == (SignInStep::OpenBrowser { url: sign_in.plan.sign_in_url }),
        sign_in.phase == SignInPhase::Checking && !check.ok && sign_in.is_step(
            SignInEvent::Checked(check),
            step,
        ) ==> step is GiveUp,
        sign_in.phase == SignInPhase::Opening && sign_in.is_step(SignInEvent::Opened, step) ==> step
            is AwaitCallback,
        sign_in.phase == SignInPhase::Waiting && sign_in.is_step(SignInEvent::Code(code), step) ==> (
        step matches SignInStep::Exchange { url, form } && url == sign_in.plan.token_url),
{
}

// ---------------------------------------------------------------------------
// Where the session is kept
// ---------------------------------------------------------------------------

/// The session is kept in a folder of the game's own, else of the current
/// folder, else of the one here.
pub proof fn law_folder_of_the_session(
    osu_root: Seq<char>,
    current_dir: Option<Seq<char>>,
    user_profile: Option<Seq<char>>,
)
    ensures
        app_data_parts(osu_root, current_dir, user_profile).last() == ".osu-map-manager"@,
        trim(osu_root).len() > 0 ==> app_data_parts(
            osu_root,
            current_dir,
            user_profile,
        ).drop_last() == expanded_path(osu_root, user_profile),
        trim(osu_root).len() == 0 ==> (current_dir matches Some(folder) ==> app_data_parts(
            osu_root,
            current_dir,
            user_profile,
        ) == seq![folder, ".osu-map-manager"@]),
        trim(osu_root).len() == 0 && current_dir is None ==> app_data_parts(
            osu_root,
            current_dir,
            user_profile,
        ) == seq!["."@, ".osu-map-manager"@],
{
    let root = root_parts(osu_root, current_dir, user_profile);
    assert(root.push(".osu-map-manager"@).drop_last() =~= root);
}

/// A path that begins with the name of the user's folder lies in that folder;
/// any other is taken as it is.
pub proof fn law_folder_of_the_user(
    slashes: Seq<char>,
    rest: Seq<char>,
    profile: Seq<char>,
    path: Seq<char>,
)
    requires
        forall|i: int|
            0 <= i < slashes.len() ==> (#[trigger] slashes[i] == '/' || slashes[i] == '\\'),
        rest.len() > 0,
        rest[0] != '/' && rest[0] != '\\',
        !is_white_space(rest.last()),
    ensures
        expanded_path("%USERPROFILE%"@ + slashes + rest, Some(profile)) == seq![profile, rest],
        expanded_path(path, None) == seq![trim(path)],
        !starts_with(trim(path), "%USERPROFILE%"@) ==> expanded_path(path, Some(profile)) == seq![
            trim(path),
        ],
{
    reveal_strlit("%USERPROFILE%");
    let start = "%USERPROFILE%"@;
    let typed = start + slashes + rest;
    assert(typed[0] == '%');
    assert(typed.last() == rest.last());
    crate::text::lemma_trim_fixed(typed, CharClass::White);
    assert(typed.take(start.len() as int) =~= start);
    assert(typed.skip(start.len() as int) =~= slashes + rest);
    assert forall|i: int| 0 <= i < slashes.len() implies CharClass::Slash.has(
        #[trigger] slashes[i],
    ) by {
        assert(slashes[i] == '/' || slashes[i] == '\\');
    }
    law_trim_start(slashes, rest, CharClass::Slash);
}

/// The backend of the environment goes before the usual one, unless nothing is
/// left of it.
pub proof fn law_choice_of_the_backend(value: Seq<char>)
    ensures
        base_url(value).len() > 0 ==> chosen_backend(Some(value)) == base_url(value),
        base_url(value).len() == 0 ==> chosen_backend(Some(value)) == chosen_backend(None),
        chosen_backend(None) == "https://osu-map-manager.stanislavberman.workers.dev"@,
{
}

/// The token after a renewal is the access token of the new session, and
/// without one the reason is passed on.
pub proof fn law_token_after_a_refresh(next: OauthSession, failure: RefreshError)
    ensures
        token_after(Ok(next)) == Ok::<Option<String>, TokenError>(Some(next.access_token)),
        token_after(Err(failure)) == Err::<Option<String>, TokenError>(failure.err),
{
}

} // verus!
