//! A sign-in as a whole: what is asked of the backend and the browser, and
//! what holds from the first request to the last.

use crate::encoding::{
    law_encoded_text_is_one_value, law_plain_text_stays, law_url_decode_undoes_url_encode,
};
use crate::osu_oauth::{
    authorize_url, base_url, callback_answer, callback_code, callback_response, challenge_of,
    check_endpoint, code_challenge_s256, endpoint_address, exchange_fields, exchange_form,
    field_texts, is_access_step, is_permanent, is_refresh_result, is_web_address, last_value,
    parse_callback_request, query_of, query_value, session_left, sign_in_address, token_endpoint,
    url_value, validated_backend_base_url, AccessStep, BackendUrlError, CallbackError,
    CheckResponse, OauthSession, RefreshError, RefreshReply, TokenResponse, MIN_TOKEN_SECS,
    OAUTH_REDIRECT_URI, REFRESH_MARGIN_SECS,
};
use crate::text::{
    ascii_lower, has_white_space, is_white_space, lemma_second_word_at, lemma_split_at,
    lemma_split_once_at, lemma_split_single, lemma_trim_both_ends, lemma_trim_end, lemma_trim_fixed,
    second_word, split, split_once, starts_with, trim, trim_end, CharClass,
};
use vstd::prelude::*;
use vstd::utf8::encode_utf8;

verus! {

/// The addresses of one sign-in.
#[derive(Debug)]
pub struct SignInPlan {
    /// Asked first, whether the backend is ready.
    pub check_url: String,
    /// Opened in the browser.
    pub sign_in_url: String,
    /// Where the code that comes back is exchanged.
    pub token_url: String,
}

impl SignInPlan {
    /// Whether the addresses are those of a backend, for a state and a code
    /// verifier. The browser gets the challenge of the verifier and not the
    /// verifier.
    pub open spec fn is_for(
        self,
        backend: Seq<char>,
        state: Seq<char>,
        code_verifier: Seq<char>,
    ) -> bool {
        &&& is_web_address(backend)
        &&& is_web_address(base_url(backend))
        &&& self.check_url@ == endpoint_address(backend, "/oauth/check"@)
        &&& self.sign_in_url@ == sign_in_address(backend, state, challenge_of(code_verifier))
        &&& self.token_url@ == endpoint_address(backend, "/oauth/token"@)
    }
}

/// Whether an error says why the base of an address is not that of a backend.
pub open spec fn is_url_error(backend: Seq<char>, error: BackendUrlError) -> bool {
    match error {
        BackendUrlError::Missing => backend.len() == 0,
        BackendUrlError::NotHttp { url } => backend.len() > 0 && !is_web_address(backend) && url@
            == backend,
    }
}

/// Whether a sign-in can go through a backend address. The base of the address
/// has to be one on the web, and so has the base of that, which is what the
/// backend is asked at: white space before the slashes at the end of an
/// address is left when its base is taken once.
pub open spec fn can_sign_in_at(url: Seq<char>) -> bool {
    is_web_address(base_url(url)) && is_web_address(base_url(base_url(url)))
}

/// The base of an address that a sign-in is refused for.
pub open spec fn refused_base(url: Seq<char>) -> Seq<char> {
    if is_web_address(base_url(url)) {
        base_url(base_url(url))
    } else {
        base_url(url)
    }
}

/// Plans a sign-in with a state and a code verifier.
pub fn plan_sign_in(backend_url: &str, state: &str, code_verifier: &str) -> (res: Result<
    SignInPlan,
    BackendUrlError,
>)
    requires
        encode_utf8(code_verifier@).len() < 0x2000_0000_0000_0000,
    ensures
        match res {
            Ok(plan) => plan.is_for(base_url(backend_url@), state@, code_verifier@),
            Err(error) => is_url_error(refused_base(backend_url@), error),
        },
        res is Ok == can_sign_in_at(backend_url@),
{
    let backend = match validated_backend_base_url(backend_url) {
        Ok(backend) => backend,
        Err(error) => {
            return Err(error);
        },
    };
    match validated_backend_base_url(backend.as_str()) {
        Ok(_) => Ok(
            SignInPlan {
                check_url: check_endpoint(backend.as_str()),
                sign_in_url: authorize_url(
                    backend.as_str(),
                    state,
                    code_challenge_s256(code_verifier).as_str(),
                ),
                token_url: token_endpoint(backend.as_str()),
            },
        ),
        Err(error) => Err(error),
    }
}

/// What begins with an address on the web is one.
proof fn lemma_web_address(url: Seq<char>, rest: Seq<char>)
    requires
        is_web_address(url),
    ensures
        is_web_address(url + rest),
{
    let all = ascii_lower(url + rest);
    assert(all =~= ascii_lower(url) + ascii_lower(rest));
    if starts_with(ascii_lower(url), "http://"@) {
        let n = "http://"@.len() as int;
        assert(all.take(n) =~= ascii_lower(url).take(n));
    } else {
        let n = "https://"@.len() as int;
        assert(all.take(n) =~= ascii_lower(url).take(n));
    }
}

/// All addresses of a sign-in are on the web: no launcher takes the one that is
/// opened for a file.
pub proof fn law_sign_in_stays_on_the_web(
    plan: SignInPlan,
    backend: Seq<char>,
    state: Seq<char>,
    code_verifier: Seq<char>,
)
    requires
        plan.is_for(backend, state, code_verifier),
    ensures
        is_web_address(plan.check_url@),
        is_web_address(plan.sign_in_url@),
        is_web_address(plan.token_url@),
{
    let base = base_url(backend);
    lemma_web_address(base, "/oauth/check"@);
    lemma_web_address(base, "/oauth/token"@);
    let rest = plan.sign_in_url@.skip(base.len() as int);
    assert(plan.sign_in_url@ =~= base + rest);
    lemma_web_address(base, rest);
}

// ---------------------------------------------------------------------------
// The steps of a sign-in
// ---------------------------------------------------------------------------

/// How far a sign-in has come.
#[derive(Debug, Clone, Copy, PartialEq, Eq, Structural)]
pub enum SignInPhase {
    /// The backend is asked whether it is ready.
    Checking,
    /// The browser is opened.
    Opening,
    /// The callback is waited for.
    Waiting,
    /// The code is exchanged for tokens.
    Exchanging,
    /// The backend is not ready.
    GivenUp,
}

/// What happened in a sign-in.
#[derive(Debug)]
pub enum SignInEvent {
    /// The backend said whether it is ready.
    Checked(CheckResponse),
    /// The browser was opened.
    Opened,
    /// The callback brought a code.
    Code(String),
}

/// What to do next in a sign-in.
#[derive(Debug)]
pub enum SignInStep {
    Check { url: String },
    OpenBrowser { url: String },
    AwaitCallback,
    Exchange { url: String, form: Vec<(String, String)> },
    GiveUp { message: String },
    /// Nothing is left to do.
    Nothing,
}

/// The phase after an event. An event that does not belong to the phase
/// changes nothing.
pub open spec fn phase_after(phase: SignInPhase, event: SignInEvent) -> SignInPhase {
    match (phase, event) {
        (SignInPhase::Checking, SignInEvent::Checked(check)) => if check.ok {
            SignInPhase::Opening
        } else {
            SignInPhase::GivenUp
        },
        (SignInPhase::Opening, SignInEvent::Opened) => SignInPhase::Waiting,
        (SignInPhase::Waiting, SignInEvent::Code(_)) => SignInPhase::Exchanging,
        _ => phase,
    }
}

/// The phase of a sign-in in which some events happened.
pub open spec fn phase_of(events: Seq<SignInEvent>) -> SignInPhase
    decreases events.len(),
{
    if events.len() == 0 {
        SignInPhase::Checking
    } else {
        phase_after(phase_of(events.drop_last()), events.last())
    }
}

/// A sign-in on its way.
#[derive(Debug)]
pub struct SignIn {
    pub plan: SignInPlan,
    pub code_verifier: String,
    pub phase: SignInPhase,
}

impl SignIn {
    /// Whether a step is the one to take after an event. A code is sent with
    /// the verifier, and only to the backend.
    pub open spec fn is_step(self, event: SignInEvent, step: SignInStep) -> bool {
        match (self.phase, event) {
            (SignInPhase::Checking, SignInEvent::Checked(check)) => if check.ok {
                step == (SignInStep::OpenBrowser { url: self.plan.sign_in_url })
            } else {
                step matches SignInStep::GiveUp { message } && message@ == check.complaint()
            },
            (SignInPhase::Checking, _) => step == (SignInStep::Check { url: self.plan.check_url }),
            (SignInPhase::Opening, SignInEvent::Opened) => step is AwaitCallback,
            (SignInPhase::Opening, _) => step == (SignInStep::OpenBrowser {
                url: self.plan.sign_in_url,
            }),
            (SignInPhase::Waiting, SignInEvent::Code(code)) => {
                &&& step matches SignInStep::Exchange { url, form }
                &&& url == self.plan.token_url
                &&& field_texts(form@) == exchange_fields(code@, self.code_verifier@)
            },
            (SignInPhase::Waiting, _) => step is AwaitCallback,
            _ => step is Nothing,
        }
    }

    /// Begins a sign-in. The backend is asked first.
    pub fn begin(backend_url: &str, state: &str, code_verifier: &str) -> (res: Result<
        (SignIn, SignInStep),
        BackendUrlError,
    >)
        requires
            encode_utf8(code_verifier@).len() < 0x2000_0000_0000_0000,
        ensures
            match res {
                Ok((sign_in, step)) => {
                    &&& sign_in.plan.is_for(base_url(backend_url@), state@, code_verifier@)
                    &&& sign_in.code_verifier@ == code_verifier@
                    &&& sign_in.phase == phase_of(Seq::empty())
                    &&& step == (SignInStep::Check { url: sign_in.plan.check_url })
                },
                Err(error) => is_url_error(refused_base(backend_url@), error),
            },
            res is Ok == can_sign_in_at(backend_url@),
    {
        match plan_sign_in(backend_url, state, code_verifier) {
            Ok(plan) => {
                let url = plan.check_url.clone();
                let sign_in = SignIn {
                    plan,
                    code_verifier: code_verifier.to_owned(),
                    phase: SignInPhase::Checking,
                };
                Ok((sign_in, SignInStep::Check { url }))
            },
            Err(error) => Err(error),
        }
    }

    /// What to do after an event.
    pub fn next(&mut self, event: SignInEvent) -> (step: SignInStep)
        ensures
            final(self).phase == phase_after(old(self).phase, event),
            final(self).plan == old(self).plan,
            final(self).code_verifier == old(self).code_verifier,
            old(self).is_step(event, step),
    {
        match (self.phase, event) {
            (SignInPhase::Checking, SignInEvent::Checked(check)) => match check.into_result() {
                Ok(()) => {
                    self.phase = SignInPhase::Opening;
                    SignInStep::OpenBrowser { url: self.plan.sign_in_url.clone() }
                },
                Err(message) => {
                    self.phase = SignInPhase::GivenUp;
                    SignInStep::GiveUp { message }
                },
            },
            (SignInPhase::Checking, _) => SignInStep::Check { url: self.plan.check_url.clone() },
            (SignInPhase::Opening, SignInEvent::Opened) => {
                self.phase = SignInPhase::Waiting;
                SignInStep::AwaitCallback
            },
            (SignInPhase::Opening, _) => SignInStep::OpenBrowser {
                url: self.plan.sign_in_url.clone(),
            },
            (SignInPhase::Waiting, SignInEvent::Code(code)) => {
                self.phase = SignInPhase::Exchanging;
                SignInStep::Exchange {
                    url: self.plan.token_url.clone(),
                    form: exchange_form(code.as_str(), self.code_verifier.as_str()),
                }
            },
            (SignInPhase::Waiting, _) => SignInStep::AwaitCallback,
            _ => SignInStep::Nothing,
        }
    }
}

/// Whether an event says that the backend is ready.
pub open spec fn says_ready(event: SignInEvent) -> bool {
    event matches SignInEvent::Checked(check) && check.ok
}

/// The browser is opened, the callback is waited for and a code is exchanged
/// only after the backend said that it is ready.
pub proof fn law_ready_before_the_browser(events: Seq<SignInEvent>)
    requires
        phase_of(events) is Opening || phase_of(events) is Waiting || phase_of(
            events,
        ) is Exchanging,
    ensures
        exists|i: int| 0 <= i < events.len() && says_ready(#[trigger] events[i]),
    decreases events.len(),
{
    let earlier = events.drop_last();
    if phase_of(earlier) is Checking {
        assert(says_ready(events[events.len() - 1]));
    } else {
        law_ready_before_the_browser(earlier);
        let i = choose|i: int| 0 <= i < earlier.len() && says_ready(#[trigger] earlier[i]);
        assert(says_ready(events[i]));
    }
}

/// A backend that is not ready ends the sign-in, whatever happens later: the
/// browser is not opened.
pub proof fn law_given_up_stays_given_up(events: Seq<SignInEvent>, event: SignInEvent)
    requires
        phase_of(events) is GivenUp,
    ensures
        phase_of(events.push(event)) is GivenUp,
{
    assert(events.push(event).drop_last() == events);
}

// ---------------------------------------------------------------------------
// Waiting for the callback
// ---------------------------------------------------------------------------

/// How long the callback is waited for, in milliseconds.
pub const CALLBACK_TIMEOUT_MILLIS: u128 = 180_000;

/// How long to pause where no connection has come, in milliseconds.
pub const CALLBACK_PAUSE_MILLIS: u64 = 50;

/// What happened while waiting for the callback.
#[derive(Debug)]
pub enum ListenEvent {
    /// The wait goes on, after some time.
    Waited { millis: u128 },
    /// No connection has come yet.
    NothingYet,
    /// A request came, with its first line.
    Request { line: String },
}

/// What to do next while waiting for the callback.
#[derive(Debug)]
pub enum ListenStep {
    Accept,
    TimedOut,
    Pause { millis: u64 },
    /// Send the response; the wait is over.
    Answer { response: String, code: Result<String, CallbackError> },
}

/// Whether a step is the one to take after an event, when a state was sent.
pub open spec fn is_listen_step(
    event: ListenEvent,
    expected_state: Seq<char>,
    step: ListenStep,
) -> bool {
    match event {
        ListenEvent::Waited { millis } => if millis < CALLBACK_TIMEOUT_MILLIS {
            step is Accept
        } else {
            step is TimedOut
        },
        ListenEvent::NothingYet => step == (ListenStep::Pause { millis: CALLBACK_PAUSE_MILLIS }),
        ListenEvent::Request { line } => {
            let outcome = callback_code(line@, expected_state);
            &&& step matches ListenStep::Answer { response, code }
            &&& response@ == callback_answer(outcome is Ok)
            &&& match code {
                Ok(code) => outcome == Ok::<Seq<char>, CallbackError>(code@),
                Err(error) => outcome == Err::<Seq<char>, CallbackError>(error),
            }
        },
    }
}

/// What to do after an event while waiting for the callback.
pub fn listen_step(event: ListenEvent, expected_state: &str) -> (step: ListenStep)
    ensures
        is_listen_step(event, expected_state@, step),
{
    match event {
        ListenEvent::Waited { millis } => if millis < CALLBACK_TIMEOUT_MILLIS {
            ListenStep::Accept
        } else {
            ListenStep::TimedOut
        },
        ListenEvent::NothingYet => ListenStep::Pause { millis: CALLBACK_PAUSE_MILLIS },
        ListenEvent::Request { line } => {
            let code = parse_callback_request(line.as_str(), expected_state);
            ListenStep::Answer { response: callback_response(code.is_ok()), code }
        },
    }
}

/// Taking the base of an address twice changes nothing more, unless white
/// space stood before the slashes at its end.
pub proof fn law_base_url_is_stable(url: Seq<char>)
    requires
        base_url(url).len() > 0 ==> !is_white_space(base_url(url).last()),
    ensures
        base_url(base_url(url)) == base_url(url),
{
    let t = trim(url);
    let base = base_url(url);
    lemma_trim_both_ends(url, CharClass::White);
    lemma_trim_end(t, CharClass::Only('/'));
    if base.len() > 0 {
        assert(base[0] == t[0]);
    }
    lemma_trim_fixed(base, CharClass::White);
    assert(trim_end(base, CharClass::Only('/')) == base);
}

/// An encoded value holds no white space and no character that means
/// something in a query.
proof fn lemma_url_value(value: Seq<char>)
    ensures
        !has_white_space(url_value(value)),
        !url_value(value).contains('&'),
        !url_value(value).contains('='),
        !url_value(value).contains('?'),
{
    let encoded = url_value(value);
    assert forall|i: int| 0 <= i < encoded.len() implies !is_white_space(#[trigger] encoded[i])
        && encoded[i] != '&' && encoded[i] != '=' && encoded[i] != '?' by {
        law_encoded_text_is_one_value(encode_utf8(value), i);
    }
}

/// The path of a callback that brings a code and a state.
pub open spec fn callback_path(code: Seq<char>, state: Seq<char>) -> Seq<char> {
    "/callback?code="@ + url_value(code) + "&state="@ + url_value(state)
}

/// The first line of a request for a path.
pub open spec fn get_request(path: Seq<char>) -> Seq<char> {
    "GET "@ + path + " HTTP/1.1\r\n"@
}

proof fn lemma_callback_values(code: Seq<char>, state: Seq<char>)
    ensures
        query_value(callback_path(code, state), "code"@) == code,
        query_value(callback_path(code, state), "state"@) == state,
{
    reveal_strlit("/callback?code=");
    reveal_strlit("&state=");
    reveal_strlit("code");
    reveal_strlit("state");
    let path = callback_path(code, state);
    let c = url_value(code);
    let s = url_value(state);
    lemma_url_value(code);
    lemma_url_value(state);
    law_url_decode_undoes_url_encode(code);
    law_url_decode_undoes_url_encode(state);
    let before = seq!['/', 'c', 'a', 'l', 'l', 'b', 'a', 'c', 'k'];
    let first = "code"@ + seq!['='] + c;
    let second = "state"@ + seq!['='] + s;
    let query = first + seq!['&'] + second;
    assert(path =~= before + seq!['?'] + query);
    lemma_split_once_at(before, '?', query);
    assert(query_of(path) == query);
    assert forall|i: int| 0 <= i < first.len() implies first[i] != '&' by {
        if i >= 5 {
            assert(first[i] == c[i - 5]);
            assert(c.contains(c[i - 5]));
        }
    }
    assert forall|i: int| 0 <= i < second.len() implies second[i] != '&' by {
        if i >= 6 {
            assert(second[i] == s[i - 6]);
            assert(s.contains(s[i - 6]));
        }
    }
    lemma_split_at(first, '&', second);
    lemma_split_single(second, '&');
    let pairs = seq![first] + seq![second];
    assert(split(query, '&') == pairs);
    lemma_split_once_at("code"@, '=', c);
    lemma_split_once_at("state"@, '=', s);
    assert(pairs.last() == second);
    assert(pairs.drop_last() =~= seq![first]);
    assert(pairs.drop_last().last() == first);
    reveal_with_fuel(last_value, 3);
    assert("code"@.len() != "state"@.len());
    assert(last_value(pairs, "state"@) == Some(s));
    assert(last_value(pairs, "code"@) == Some(c));
}

/// A value of an address as one pair of its query.
spec fn pair(key: Seq<char>, value: Seq<char>) -> Seq<char> {
    key + seq!['='] + value
}

proof fn lemma_pair(key: Seq<char>, value: Seq<char>)
    requires
        !key.contains('='),
        !key.contains('&'),
        !value.contains('&'),
    ensures
        split_once(pair(key, value), '=') == Some((key, value)),
        !pair(key, value).contains('&'),
{
    lemma_split_once_at(key, '=', value);
    let p = pair(key, value);
    assert forall|i: int| 0 <= i < p.len() implies p[i] != '&' by {
        if i < key.len() {
            assert(p[i] == key[i]);
            assert(key.contains(key[i]));
        } else if i > key.len() {
            assert(p[i] == value[i - key.len() - 1]);
            assert(value.contains(value[i - key.len() - 1]));
        }
    }
}

/// The values of a query of four pairs with different keys.
proof fn lemma_four_pairs(keys: Seq<Seq<char>>, values: Seq<Seq<char>>)
    requires
        keys.len() == 4,
        values.len() == 4,
        forall|i: int| 0 <= i < 4 ==> !(#[trigger] keys[i]).contains('='),
        forall|i: int| 0 <= i < 4 ==> !(#[trigger] keys[i]).contains('&'),
        forall|i: int| 0 <= i < 4 ==> !(#[trigger] values[i]).contains('&'),
        forall|i: int, j: int| 0 <= i < j < 4 ==> keys[i] != keys[j],
    ensures
        forall|i: int|
            0 <= i < 4 ==> last_value(
                split(
                    pair(keys[0], values[0]) + seq!['&'] + (pair(keys[1], values[1]) + seq!['&'] + (
                    pair(keys[2], values[2]) + seq!['&'] + pair(keys[3], values[3]))),
                    '&',
                ),
                #[trigger] keys[i],
            ) == Some(values[i]),
{
    let p = Seq::new(4, |i: int| pair(keys[i], values[i]));
    assert forall|i: int| 0 <= i < 4 implies split_once(#[trigger] p[i], '=') == Some(
        (keys[i], values[i]),
    ) && !p[i].contains('&') by {
        lemma_pair(keys[i], values[i]);
    }
    lemma_split_single(p[3], '&');
    lemma_split_at(p[2], '&', p[3]);
    let two = p[2] + seq!['&'] + p[3];
    lemma_split_at(p[1], '&', two);
    let three = p[1] + seq!['&'] + two;
    lemma_split_at(p[0], '&', three);
    let parts = split(p[0] + seq!['&'] + three, '&');
    assert(parts =~= p);
    assert(p.drop_last().last() == p[2]);
    assert(p.drop_last().drop_last().last() == p[1]);
    assert(p.drop_last().drop_last().drop_last().last() == p[0]);
    reveal_with_fuel(last_value, 5);
}

/// The address that the browser opens hands the backend the place to come
/// back to, the state and the challenge as they are.
#[verifier::rlimit(50)]
pub proof fn law_sign_in_address_carries_its_values(
    backend_url: Seq<char>,
    state: Seq<char>,
    code_challenge: Seq<char>,
)
    requires
        !base_url(backend_url).contains('?'),
    ensures
        ({
            let address = sign_in_address(backend_url, state, code_challenge);
            &&& query_value(address, "redirect_uri"@) == OAUTH_REDIRECT_URI@
            &&& query_value(address, "state"@) == state
            &&& query_value(address, "code_challenge"@) == code_challenge
            &&& query_value(address, "code_challenge_method"@) == "S256"@
        }),
{
    reveal_strlit("/oauth/authorize?redirect_uri=");
    reveal_strlit("/oauth/authorize");
    reveal_strlit("&state=");
    reveal_strlit("&code_challenge=");
    reveal_strlit("&code_challenge_method=S256");
    reveal_strlit("redirect_uri");
    reveal_strlit("state");
    reveal_strlit("code_challenge");
    reveal_strlit("code_challenge_method");
    reveal_strlit("S256");
    let address = sign_in_address(backend_url, state, code_challenge);
    let keys = seq!["redirect_uri"@, "state"@, "code_challenge"@, "code_challenge_method"@];
    let values = seq![
        url_value(OAUTH_REDIRECT_URI@),
        url_value(state),
        url_value(code_challenge),
        "S256"@,
    ];
    lemma_url_value(OAUTH_REDIRECT_URI@);
    lemma_url_value(state);
    lemma_url_value(code_challenge);
    law_url_decode_undoes_url_encode(OAUTH_REDIRECT_URI@);
    law_url_decode_undoes_url_encode(state);
    law_url_decode_undoes_url_encode(code_challenge);
    law_plain_text_stays("S256"@);
    law_url_decode_undoes_url_encode("S256"@);
    let query = pair(keys[0], values[0]) + seq!['&'] + (pair(keys[1], values[1]) + seq!['&'] + (
    pair(keys[2], values[2]) + seq!['&'] + pair(keys[3], values[3])));
    let before = base_url(backend_url) + "/oauth/authorize"@;
    assert forall|i: int| 0 <= i < before.len() implies before[i] != '?' by {
        if i < base_url(backend_url).len() {
            assert(base_url(backend_url).contains(before[i]));
        }
    }
    assert(address =~= before + seq!['?'] + query);
    lemma_split_once_at(before, '?', query);
    lemma_four_pairs(keys, values);
    assert(keys[0] == "redirect_uri"@ && keys[1] == "state"@ && keys[2] == "code_challenge"@
        && keys[3] == "code_challenge_method"@);
}

/// The path of a callback is the second word of its request.
proof fn lemma_callback_path(code: Seq<char>, state: Seq<char>)
    ensures
        second_word(get_request(callback_path(code, state))) == Some(callback_path(code, state)),
        starts_with(callback_path(code, state), "/callback"@),
{
    reveal_strlit("GET ");
    reveal_strlit(" HTTP/1.1\r\n");
    reveal_strlit("/callback?code=");
    reveal_strlit("/callback");
    reveal_strlit("&state=");
    let path = callback_path(code, state);
    let get = seq!['G', 'E', 'T'];
    let rest = " HTTP/1.1\r\n"@.skip(1);
    let c = url_value(code);
    let s = url_value(state);
    lemma_url_value(code);
    lemma_url_value(state);
    assert forall|i: int| 0 <= i < path.len() implies !is_white_space(#[trigger] path[i]) by {
        if 15 <= i < 15 + c.len() {
            assert(path[i] == c[i - 15]);
        } else if i >= 22 + c.len() {
            assert(path[i] == s[i - 22 - c.len()]);
        }
    }
    assert(get_request(path) =~= get + seq![' '] + path + seq![' '] + rest);
    lemma_second_word_at(get, path, rest);
    assert(path.take(9) =~= "/callback"@);
}

/// A code that osu! sends back with the state that was sent to it arrives as
/// it is, whatever characters it holds.
pub proof fn law_callback_brings_the_code(code: Seq<char>, state: Seq<char>)
    requires
        trim(code).len() > 0,
    ensures
        callback_code(get_request(callback_path(code, state)), state) == Ok::<
            Seq<char>,
            CallbackError,
        >(code),
{
    lemma_callback_path(code, state);
    lemma_callback_values(code, state);
}

/// A request that brings another state brings no code.
pub proof fn law_other_state_brings_no_code(code: Seq<char>, state: Seq<char>, expected: Seq<char>)
    requires
        state != expected,
    ensures
        callback_code(get_request(callback_path(code, state)), expected) == Err::<
            Seq<char>,
            CallbackError,
        >(CallbackError::StateMismatch),
{
    lemma_callback_path(code, state);
    lemma_callback_values(code, state);
}

/// Whatever a request holds, it brings a code only with the state that was
/// sent, and never a blank one.
pub proof fn law_code_needs_the_state(request_line: Seq<char>, expected: Seq<char>)
    ensures
        callback_code(request_line, expected) matches Ok(code) ==> {
            &&& second_word(request_line) matches Some(path)
            &&& query_value(path, "state"@) == expected
            &&& trim(code).len() > 0
        },
{
}

/// A session is good from the time its tokens came until the margin before
/// they expire, which is a minute after they came at the earliest.
pub proof fn law_session_is_good_until_the_margin(tokens: TokenResponse, came: u64, now: u64)
    requires
        tokens.outcome(came) is Ok,
    ensures
        tokens.outcome(came)->Ok_0.is_stale(now) == (now + REFRESH_MARGIN_SECS >= tokens.expiry(
            came,
        )),
        tokens.expiry(came) >= came + MIN_TOKEN_SECS,
{
}

/// A token that is used is the one of the session, is not blank and does not
/// expire within the margin.
pub proof fn law_token_in_use_is_good(session: Option<OauthSession>, now: u64, token: String)
    requires
        is_access_step(session, now, AccessStep::Use(token)),
    ensures
        session matches Some(session) && {
            &&& session.access_token == token
            &&& trim(token@).len() > 0
            &&& now + REFRESH_MARGIN_SECS < session.expires_at_unix
        },
{
}

/// A renewed session has both tokens, and a minute left at least.
pub proof fn law_renewed_session_is_complete(reply: RefreshReply, now: u64, next: OauthSession)
    requires
        is_refresh_result(reply, now, Ok(next)),
    ensures
        trim(next.access_token@).len() > 0,
        trim(next.refresh_token@).len() > 0,
        now + MIN_TOKEN_SECS <= next.expires_at_unix,
{
}

/// A session that has to be renewed has to be renewed at every later time.
pub proof fn law_stale_stays_stale(session: OauthSession, now: u64, later: u64)
    requires
        session.is_stale(now),
        now <= later,
    ensures
        session.is_stale(later),
{
}

/// Only a refusal that calls the grant invalid signs a user out. After any
/// other failure the session is the one from before.
pub proof fn law_only_a_dead_grant_signs_out(
    session: OauthSession,
    reply: RefreshReply,
    now: u64,
    refreshed: Result<OauthSession, RefreshError>,
)
    requires
        is_refresh_result(reply, now, refreshed),
    ensures
        session_left(Some(session), refreshed) is None == is_permanent(reply),
        refreshed is Err && !is_permanent(reply) ==> session_left(Some(session), refreshed) == Some(
            session,
        ),
{
}

} // verus!
