//! Signing in to osu! by way of a backend that holds the client secret.
//!
//! 1. The browser is sent to `{backend}/oauth/authorize?...`.
//! 2. osu! redirects it to `http://127.0.0.1:3000/callback?code=...&state=...`.
//! 3. The code of that request is exchanged at `{backend}/oauth/token`.
//! 4. The session is kept, and renewed at `{backend}/oauth/refresh` before it
//!    expires.
//!
//! This module holds the rules of it: what is sent, what is accepted and what
//! becomes of the session.

use crate::decimal::{decimal_text, write_decimal};
use crate::encoding::{
    base64_text, base64url_no_pad, law_base64_length, percent_text, url_decode, url_decoded,
    url_encode,
};
use crate::outside::{
    debug_text, json_members, json_object, member_texts, optional_text, sha256_compute,
    sha256_digest, show_debug, unix_nanoseconds,
};
use crate::random_text::{all_alphanumeric, can_be_drawn, random_alphanumeric};
use crate::text::{
    append_chars, ascii_lower, ascii_lower_slice, chars_of, equals_str, is_blank, same_text,
    second_word, second_word_slice, split, split_once, split_once_slice, split_slice, starts_with,
    starts_with_str, string_of, texts, trim, trim_end, trim_end_slice, trim_start, trim_start_slice,
    trimmed, CharClass,
};
use vstd::prelude::*;
use vstd::utf8::encode_utf8;

verus! {

/// Where osu! sends the browser after signing in.
pub const OAUTH_REDIRECT_URI: &'static str = "http://127.0.0.1:3000/callback";

/// The backend that is used unless another one is set.
pub const BACKEND_URL: &'static str = "https://osu-map-manager.stanislavberman.workers.dev";

/// How long before it expires a token is renewed, in seconds.
pub const REFRESH_MARGIN_SECS: u64 = 120;

/// A token counts as valid for this many seconds at least.
pub const MIN_TOKEN_SECS: u64 = 60;

// ---------------------------------------------------------------------------
// Sessions
// ---------------------------------------------------------------------------

/// The tokens of a user who is signed in.
#[derive(Debug)]
pub struct OauthSession {
    pub access_token: String,
    pub refresh_token: String,
    /// When the access token expires, in seconds since the Unix epoch.
    pub expires_at_unix: u64,
}

impl Clone for OauthSession {
    fn clone(&self) -> (res: Self)
        ensures
            res == *self,
    {
        OauthSession {
            access_token: self.access_token.clone(),
            refresh_token: self.refresh_token.clone(),
            expires_at_unix: self.expires_at_unix,
        }
    }
}

/// The whole seconds of a clock that shows nanoseconds since the Unix epoch,
/// zero for a clock set before it.
pub open spec fn whole_seconds(clock: Option<u128>) -> int {
    match clock {
        Some(nanoseconds) => nanoseconds as int / 1_000_000_000,
        None => 0,
    }
}

/// The whole seconds of a clock that shows nanoseconds since the Unix epoch,
/// zero for a clock set before it.
pub fn seconds_on_clock(clock: Option<u128>) -> (res: u64)
    requires
        whole_seconds(clock) <= u64::MAX,
    ensures
        res == whole_seconds(clock),
{
    match clock {
        Some(nanoseconds) => (nanoseconds / 1_000_000_000) as u64,
        None => 0,
    }
}

/// The seconds since the Unix epoch, zero for a clock set before it. What the
/// clock shows is up to the machine, so nothing is said of the result;
/// [`seconds_on_clock`] says what is made of it.
fn unix_seconds() -> u64 {
    seconds_on_clock(unix_nanoseconds())
}

impl OauthSession {
    /// Whether the session has to be renewed at a time: it has no access
    /// token, or the token expires within the margin.
    pub open spec fn is_stale(self, now: u64) -> bool {
        trim(self.access_token@).len() == 0 || self.expires_at_unix <= now + REFRESH_MARGIN_SECS
    }

    pub fn needs_refresh_at(&self, now: u64) -> (res: bool)
        ensures
            res == self.is_stale(now),
    {
        is_blank(self.access_token.as_str()) || self.expires_at_unix <= REFRESH_MARGIN_SECS
            || self.expires_at_unix - REFRESH_MARGIN_SECS <= now
    }

    /// Whether the session has to be renewed now.
    pub fn needs_refresh(&self) -> (res: bool)
        ensures
            exists|now: u64| res == #[trigger] self.is_stale(now),
            trim(self.access_token@).len() == 0 ==> res,
            self.expires_at_unix <= REFRESH_MARGIN_SECS ==> res,
    {
        let now = unix_seconds();
        self.needs_refresh_at(now)
    }
}

/// Why there is no session.
#[derive(Debug)]
pub enum TokenError {
    /// The request could not be sent: what was tried, and why it failed.
    Unsent { attempt: String, cause: String },
    /// The reply was no token response.
    Undecodable { cause: String },
    NoAccessToken,
    NoRefreshToken,
    /// The token would expire beyond all timestamps.
    ExpiryTooFar,
    /// The backend refused, with a message for the user.
    Refused { message: String },
}

impl TokenError {
    pub open spec fn text(self) -> Seq<char> {
        match self {
            TokenError::Unsent { attempt, cause } => attempt@,
            TokenError::Undecodable { cause } => "decoding the osu! token response"@,
            TokenError::NoAccessToken => "OAuth token response did not contain an access token"@,
            TokenError::NoRefreshToken => "OAuth token response did not contain a refresh token"@,
            TokenError::ExpiryTooFar => "OAuth token response expires too far in the future"@,
            TokenError::Refused { message } => message@,
        }
    }

    /// The error in words.
    pub fn message(&self) -> (res: String)
        ensures
            res@ == self.text(),
    {
        match self {
            TokenError::Unsent { attempt, .. } => attempt.clone(),
            TokenError::Undecodable { .. } => "decoding the osu! token response".to_owned(),
            TokenError::NoAccessToken => {
                "OAuth token response did not contain an access token".to_owned()
            },
            TokenError::NoRefreshToken => {
                "OAuth token response did not contain a refresh token".to_owned()
            },
            TokenError::ExpiryTooFar => {
                "OAuth token response expires too far in the future".to_owned()
            },
            TokenError::Refused { message } => message.clone(),
        }
    }
}

/// A reply with tokens. What the reply leaves out is empty or zero.
#[derive(Debug, Clone)]
pub struct TokenResponse {
    pub access_token: String,
    pub refresh_token: String,
    pub expires_in: u64,
}

impl TokenResponse {
    /// When the tokens expire, if they come at a time.
    pub open spec fn expiry(self, now: u64) -> int {
        now + if self.expires_in >= MIN_TOKEN_SECS {
            self.expires_in as int
        } else {
            MIN_TOKEN_SECS as int
        }
    }

    /// What is wrong with the tokens of a reply.
    pub open spec fn fault(self) -> Option<TokenError> {
        if trim(self.access_token@).len() == 0 {
            Some(TokenError::NoAccessToken)
        } else if trim(self.refresh_token@).len() == 0 {
            Some(TokenError::NoRefreshToken)
        } else {
            None
        }
    }

    /// The session of the tokens, if they come at a time.
    pub open spec fn session(self, now: u64) -> OauthSession {
        OauthSession {
            access_token: self.access_token,
            refresh_token: self.refresh_token,
            expires_at_unix: self.expiry(now) as u64,
        }
    }

    /// Makes a session of tokens that came at a time.
    pub fn into_session_at(self, now: u64) -> (res: Result<OauthSession, TokenError>)
        requires
            self.expiry(now) <= u64::MAX,
        ensures
            match self.fault() {
                Some(error) => res == Err::<OauthSession, TokenError>(error),
                None => res == Ok::<OauthSession, TokenError>(self.session(now)),
            },
    {
        if is_blank(self.access_token.as_str()) {
            return Err(TokenError::NoAccessToken);
        }
        if is_blank(self.refresh_token.as_str()) {
            return Err(TokenError::NoRefreshToken);
        }
        let valid_for: u64 = if self.expires_in >= MIN_TOKEN_SECS {
            self.expires_in
        } else {
            MIN_TOKEN_SECS
        };
        Ok(
            OauthSession {
                access_token: self.access_token,
                refresh_token: self.refresh_token,
                expires_at_unix: now + valid_for,
            },
        )
    }

    /// What becomes of the tokens at a time, when an expiry beyond all
    /// timestamps is an error.
    pub open spec fn outcome(self, now: u64) -> Result<OauthSession, TokenError> {
        match self.fault() {
            Some(error) => Err(error),
            None => if self.expiry(now) <= u64::MAX {
                Ok(self.session(now))
            } else {
                Err(TokenError::ExpiryTooFar)
            },
        }
    }

    /// Makes a session of tokens that came at a time, whatever they say.
    pub fn checked_session_at(self, now: u64) -> (res: Result<OauthSession, TokenError>)
        ensures
            res == self.outcome(now),
    {
        let valid_for: u64 = if self.expires_in >= MIN_TOKEN_SECS {
            self.expires_in
        } else {
            MIN_TOKEN_SECS
        };
        if valid_for <= u64::MAX - now {
            self.into_session_at(now)
        } else if is_blank(self.access_token.as_str()) {
            Err(TokenError::NoAccessToken)
        } else if is_blank(self.refresh_token.as_str()) {
            Err(TokenError::NoRefreshToken)
        } else {
            Err(TokenError::ExpiryTooFar)
        }
    }

    /// Makes a session of tokens that just came.
    pub fn into_session(self) -> (res: Result<OauthSession, TokenError>)
        ensures
            exists|now: u64| res == #[trigger] self.outcome(now),
            self.fault() matches Some(error) ==> res == Err::<OauthSession, TokenError>(error),
    {
        let now = unix_seconds();
        self.checked_session_at(now)
    }
}

// ---------------------------------------------------------------------------
// Addresses
// ---------------------------------------------------------------------------

/// An address without white space around it and without slashes at its end.
pub open spec fn base_url(url: Seq<char>) -> Seq<char> {
    trim_end(trim(url), CharClass::Only('/'))
}

/// An address without white space around it and without slashes at its end.
pub fn backend_base_url(backend_url: &str) -> (res: String)
    ensures
        res@ == base_url(backend_url@),
{
    let url = trimmed(backend_url);
    string_of(trim_end_slice(&url, CharClass::Only('/')))
}

/// The backend that is used: the one of the environment, where it names one,
/// else the usual one.
pub open spec fn chosen_backend(from_env: Option<Seq<char>>) -> Seq<char> {
    match from_env {
        Some(value) if base_url(value).len() > 0 => base_url(value),
        _ => BACKEND_URL@,
    }
}

/// The backend to use, given what the environment sets.
pub fn backend_url(from_env: Option<&str>) -> (res: String)
    ensures
        res@ == (match from_env {
            Some(value) if base_url(value@).len() > 0 => base_url(value@),
            _ => BACKEND_URL@,
        }),
        res@ == chosen_backend(
            match from_env {
                Some(value) => Some(value@),
                None => None,
            },
        ),
{
    match from_env {
        Some(value) => {
            let url = trimmed(value);
            let base = trim_end_slice(&url, CharClass::Only('/'));
            if base.len() > 0 {
                string_of(base)
            } else {
                BACKEND_URL.to_owned()
            }
        },
        None => BACKEND_URL.to_owned(),
    }
}

/// A text as a value in an address.
pub open spec fn url_value(value: Seq<char>) -> Seq<char> {
    percent_text(encode_utf8(value))
}

/// The address at which the user signs in.
pub open spec fn sign_in_address(
    backend_url: Seq<char>,
    state: Seq<char>,
    code_challenge: Seq<char>,
) -> Seq<char> {
    base_url(backend_url) + "/oauth/authorize?redirect_uri="@ + url_value(OAUTH_REDIRECT_URI@)
        + "&state="@ + url_value(state) + "&code_challenge="@ + url_value(code_challenge)
        + "&code_challenge_method=S256"@
}

/// The address at which the user signs in.
pub fn authorize_url(backend_url: &str, state: &str, code_challenge: &str) -> (res: String)
    ensures
        res@ == sign_in_address(backend_url@, state@, code_challenge@),
{
    let mut res = backend_base_url(backend_url);
    res.append("/oauth/authorize?redirect_uri=");
    res.append(url_encode(OAUTH_REDIRECT_URI).as_str());
    res.append("&state=");
    res.append(url_encode(state).as_str());
    res.append("&code_challenge=");
    res.append(url_encode(code_challenge).as_str());
    res.append("&code_challenge_method=S256");
    res
}

/// An address of the backend.
pub open spec fn endpoint_address(backend_url: Seq<char>, path: Seq<char>) -> Seq<char> {
    base_url(backend_url) + path
}

fn endpoint(backend_url: &str, path: &str) -> (res: String)
    ensures
        res@ == endpoint_address(backend_url@, path@),
{
    let mut res = backend_base_url(backend_url);
    res.append(path);
    res
}

/// Where a code is exchanged for tokens.
pub fn token_endpoint(backend_url: &str) -> (res: String)
    ensures
        res@ == endpoint_address(backend_url@, "/oauth/token"@),
{
    endpoint(backend_url, "/oauth/token")
}

/// Where a session is renewed.
pub fn refresh_endpoint(backend_url: &str) -> (res: String)
    ensures
        res@ == endpoint_address(backend_url@, "/oauth/refresh"@),
{
    endpoint(backend_url, "/oauth/refresh")
}

/// Where the backend tells whether it is ready.
pub fn check_endpoint(backend_url: &str) -> (res: String)
    ensures
        res@ == endpoint_address(backend_url@, "/oauth/check"@),
{
    endpoint(backend_url, "/oauth/check")
}

/// The texts of the fields of a form.
pub open spec fn field_texts(fields: Seq<(String, String)>) -> Seq<(Seq<char>, Seq<char>)> {
    fields.map_values(|field: (String, String)| (field.0@, field.1@))
}

/// The fields that exchange a code for tokens.
pub open spec fn exchange_fields(code: Seq<char>, code_verifier: Seq<char>) -> Seq<
    (Seq<char>, Seq<char>),
> {
    seq![
        ("code"@, code),
        ("redirect_uri"@, OAUTH_REDIRECT_URI@),
        ("code_verifier"@, code_verifier),
    ]
}

/// The form that exchanges a code for tokens.
pub fn exchange_form(code: &str, code_verifier: &str) -> (res: Vec<(String, String)>)
    ensures
        field_texts(res@) == exchange_fields(code@, code_verifier@),
{
    let mut res: Vec<(String, String)> = Vec::new();
    res.push(("code".to_owned(), code.to_owned()));
    res.push(("redirect_uri".to_owned(), OAUTH_REDIRECT_URI.to_owned()));
    res.push(("code_verifier".to_owned(), code_verifier.to_owned()));
    assert(field_texts(res@) =~= exchange_fields(code@, code_verifier@));
    res
}

/// The form that renews a session.
pub fn refresh_form(refresh_token: &str) -> (res: Vec<(String, String)>)
    ensures
        field_texts(res@) == seq![("refresh_token"@, refresh_token@)],
{
    let mut res: Vec<(String, String)> = Vec::new();
    res.push(("refresh_token".to_owned(), refresh_token.to_owned()));
    assert(field_texts(res@) =~= seq![("refresh_token"@, refresh_token@)]);
    res
}

/// Why an address cannot be that of a backend.
#[derive(Debug)]
pub enum BackendUrlError {
    Missing,
    /// It does not begin with `http://` or `https://`.
    NotHttp { url: String },
}

impl BackendUrlError {
    pub open spec fn text(self) -> Seq<char> {
        match self {
            BackendUrlError::Missing => "backend URL is required for osu! sign-in"@,
            BackendUrlError::NotHttp { url } =>
                "backend URL must start with http:// or https:// (got "@ + debug_text(url@) + ")"@,
        }
    }

    /// The error in words.
    pub fn message(&self) -> (res: String)
        ensures
            res@ == self.text(),
    {
        match self {
            BackendUrlError::Missing => "backend URL is required for osu! sign-in".to_owned(),
            BackendUrlError::NotHttp { url } => {
                let mut res = "backend URL must start with http:// or https:// (got ".to_owned();
                res.append(show_debug(url.as_str()).as_str());
                res.append(")");
                res
            },
        }
    }
}

/// Whether an address has the scheme of the web, in small letters or capitals.
pub open spec fn is_web_address(url: Seq<char>) -> bool {
    starts_with(ascii_lower(url), "http://"@) || starts_with(ascii_lower(url), "https://"@)
}

/// The base of a backend address, which has to begin with `http://` or
/// `https://`: a launcher would take anything else for a file.
pub fn validated_backend_base_url(backend_url: &str) -> (res: Result<String, BackendUrlError>)
    ensures
        match res {
            Ok(url) => url@ == base_url(backend_url@) && is_web_address(url@),
            Err(BackendUrlError::Missing) => base_url(backend_url@).len() == 0,
            Err(BackendUrlError::NotHttp { url }) => {
                &&& base_url(backend_url@).len() > 0
                &&& !is_web_address(base_url(backend_url@))
                &&& url@ == base_url(backend_url@)
            },
        },
        res is Ok == is_web_address(base_url(backend_url@)),
{
    let trimmed_url = trimmed(backend_url);
    let base = trim_end_slice(&trimmed_url, CharClass::Only('/'));
    proof {
        reveal_strlit("http://");
        reveal_strlit("https://");
    }
    if base.len() == 0 {
        assert(ascii_lower(base@).len() == 0);
        return Err(BackendUrlError::Missing);
    }
    let lower = ascii_lower_slice(base);
    if !starts_with_str(&lower, "http://") && !starts_with_str(&lower, "https://") {
        return Err(BackendUrlError::NotHttp { url: string_of(base) });
    }
    Ok(string_of(base))
}

// ---------------------------------------------------------------------------
// Secrets of one sign-in
// ---------------------------------------------------------------------------

/// A state that cannot be foreseen: 24 random letters and digits.
pub fn generate_state(process_id: u32) -> (res: String)
    ensures
        exists|bytes: Option<Seq<u8>>, seed: u128|
            can_be_drawn(res@, bytes, seed, process_id, 24),
        res@.len() == 24,
        all_alphanumeric(res@),
{
    random_alphanumeric(24, process_id)
}

/// A code verifier: 64 random letters and digits. The browser only sees its
/// challenge.
pub fn generate_code_verifier(process_id: u32) -> (res: String)
    ensures
        exists|bytes: Option<Seq<u8>>, seed: u128|
            can_be_drawn(res@, bytes, seed, process_id, 64),
        res@.len() == 64,
        all_alphanumeric(res@),
{
    random_alphanumeric(64, process_id)
}

/// The challenge of a verifier: the SHA-256 digest of its bytes in Base64.
pub open spec fn challenge_of(verifier: Seq<char>) -> Seq<char> {
    base64_text(sha256_digest(encode_utf8(verifier)))
}

/// The challenge of a verifier.
pub fn code_challenge_s256(verifier: &str) -> (res: String)
    requires
        encode_utf8(verifier@).len() < 0x2000_0000_0000_0000,
    ensures
        res@ == challenge_of(verifier@),
        res@.len() == 43,
{
    let hash = sha256_compute(verifier.as_bytes());
    proof {
        law_base64_length(hash@);
    }
    base64url_no_pad(&hash)
}

// ---------------------------------------------------------------------------
// Refusals
// ---------------------------------------------------------------------------

/// The text under the first place of a key among the members of an object.
pub open spec fn member_text(
    members: Seq<(Seq<char>, Option<Seq<char>>)>,
    key: Seq<char>,
) -> Option<Seq<char>>
    decreases members.len(),
{
    if members.len() == 0 {
        None
    } else if members[0].0 == key {
        members[0].1
    } else {
        member_text(members.skip(1), key)
    }
}

/// The text under a key of the JSON object that a body holds.
pub open spec fn body_text(body: Seq<char>, key: Seq<char>) -> Option<Seq<char>> {
    match json_members(body) {
        Some(members) => member_text(members, key),
        None => None,
    }
}

fn find_member(members: &Vec<(String, Option<String>)>, key: &str) -> (res: Option<String>)
    ensures
        optional_text(res) == member_text(member_texts(members@), key@),
{
    let ghost all = member_texts(members@);
    let mut i: usize = 0;
    assert(all.skip(0) == all);
    while i < members.len()
        invariant
            i <= members@.len(),
            all == member_texts(members@),
            member_text(all, key@) == member_text(all.skip(i as int), key@),
        decreases members@.len() - i,
    {
        let ghost rest = all.skip(i as int);
        assert(rest[0] == (members@[i as int].0@, optional_text(members@[i as int].1)));
        assert(rest.skip(1) == all.skip(i + 1));
        if same_text(members[i].0.as_str(), key) {
            return match &members[i].1 {
                Some(text) => Some(text.clone()),
                None => None,
            };
        }
        i = i + 1;
    }
    None
}

/// Whether the error code of a refusal says that the refresh token is dead.
pub open spec fn is_dead_grant(error: Option<Seq<char>>) -> bool {
    error == Some("invalid_grant"@)
}

/// Whether an error code says that the refresh token is dead.
pub fn is_invalid_grant_code(error: Option<&str>) -> (res: bool)
    ensures
        res == is_dead_grant(
            match error {
                Some(error) => Some(error@),
                None => None,
            },
        ),
{
    match error {
        Some(error) => same_text(error, "invalid_grant"),
        None => false,
    }
}

/// Whether a refusal says that the refresh token is dead. Only its error code
/// counts; any other refusal may pass.
pub fn is_invalid_grant(body: &str) -> (res: bool)
    ensures
        res == is_dead_grant(body_text(body@, "error"@)),
{
    match json_object(body) {
        Some(members) => match find_member(&members, "error") {
            Some(error) => is_invalid_grant_code(Some(error.as_str())),
            None => false,
        },
        None => false,
    }
}

/// A description behind a colon, if there is one.
pub open spec fn detail_text(description: Seq<char>) -> Seq<char> {
    if description.len() == 0 {
        Seq::empty()
    } else {
        ": "@ + description
    }
}

/// The first 300 characters of a body.
pub open spec fn body_start(body: Seq<char>) -> Seq<char> {
    if body.len() <= 300 {
        body
    } else {
        body.take(300)
    }
}

/// A refusal in words that say what to do about it.
pub open spec fn friendly_text(
    error: Seq<char>,
    description: Seq<char>,
    body: Seq<char>,
    action: Seq<char>,
) -> Seq<char> {
    if error == "invalid_client"@ {
        "osu! rejected the Worker's OAuth credentials (invalid_client"@ + detail_text(description)
            + "). Fix: on the machine that deploys the Worker, run `npx wrangler secret put OSU_CLIENT_ID` and `npx wrangler secret put OSU_CLIENT_SECRET` with the values from https://osu.ppy.sh/home/account/edit#oauth, then `npx wrangler deploy`."@
    } else if error.len() > 0 {
        "osu! "@ + action + " failed ("@ + error + detail_text(description) + ")"@
    } else {
        "osu! "@ + action + " failed: "@ + body_start(body)
    }
}

fn append_detail(message: &mut String, description: &str)
    ensures
        final(message)@ == old(message)@ + detail_text(description@),
{
    if chars_of(description).len() > 0 {
        message.append(": ");
        message.append(description);
        assert(message@ =~= old(message)@ + detail_text(description@));
    } else {
        assert(old(message)@ + detail_text(description@) =~= old(message)@);
    }
}

/// A refusal in words, given its error code and description.
pub fn friendly_error_text(error: &str, description: &str, body: &str, action: &str) -> (res:
    String)
    ensures
        res@ == friendly_text(error@, description@, body@, action@),
{
    if same_text(error, "invalid_client") {
        let mut res = "osu! rejected the Worker's OAuth credentials (invalid_client".to_owned();
        append_detail(&mut res, description);
        res.append(
            "). Fix: on the machine that deploys the Worker, run `npx wrangler secret put OSU_CLIENT_ID` and `npx wrangler secret put OSU_CLIENT_SECRET` with the values from https://osu.ppy.sh/home/account/edit#oauth, then `npx wrangler deploy`.",
        );
        return res;
    }
    let mut res = "osu! ".to_owned();
    res.append(action);
    if chars_of(error).len() > 0 {
        res.append(" failed (");
        res.append(error);
        append_detail(&mut res, description);
        res.append(")");
    } else {
        res.append(" failed: ");
        let chars = chars_of(body);
        if chars.len() <= 300 {
            res.append(body);
        } else {
            let start = &chars[0..300];
            assert(start@ == body@.take(300));
            append_chars(&mut res, start);
        }
    }
    res
}

/// A text, or an empty one.
pub open spec fn or_empty(text: Option<Seq<char>>) -> Seq<char> {
    match text {
        Some(text) => text,
        None => Seq::empty(),
    }
}

/// A refusal in words: what the body of the reply says.
pub open spec fn refusal_text(body: Seq<char>, action: Seq<char>) -> Seq<char> {
    friendly_text(
        or_empty(body_text(body, "error"@)),
        or_empty(body_text(body, "error_description"@)),
        body,
        action,
    )
}

fn string_or_empty(text: Option<String>) -> (res: String)
    ensures
        res@ == or_empty(optional_text(text)),
{
    match text {
        Some(text) => text,
        None => String::new(),
    }
}

/// Puts a refusal into words that say what to do about it.
pub fn friendly_token_error(body: &str, action: &str) -> (res: String)
    ensures
        res@ == refusal_text(body@, action@),
{
    let (error, description) = match json_object(body) {
        Some(members) => (
            string_or_empty(find_member(&members, "error")),
            string_or_empty(find_member(&members, "error_description")),
        ),
        None => (String::new(), String::new()),
    };
    friendly_error_text(error.as_str(), description.as_str(), body, action)
}

// ---------------------------------------------------------------------------
// Replies
// ---------------------------------------------------------------------------

/// What came back from the backend.
#[derive(Debug)]
pub enum TokenReply {
    /// Tokens.
    Tokens(TokenResponse),
    /// Success, but no tokens: why the reply could not be read.
    Undecodable(String),
    /// A refusal, with the body of the reply.
    Refused(String),
}

/// Whether a result is what a reply means for an action at a time.
pub open spec fn is_reply_result(
    reply: TokenReply,
    action: Seq<char>,
    now: u64,
    res: Result<OauthSession, TokenError>,
) -> bool {
    match reply {
        TokenReply::Tokens(tokens) => res == tokens.outcome(now),
        TokenReply::Undecodable(cause) => res == Err::<OauthSession, TokenError>(
            TokenError::Undecodable { cause },
        ),
        TokenReply::Refused(body) => res matches Err(TokenError::Refused { message }) && message@
            == refusal_text(body@, action),
    }
}

/// The session of a reply that came at a time.
pub fn session_from_reply_at(reply: TokenReply, action: &str, now: u64) -> (res: Result<
    OauthSession,
    TokenError,
>)
    ensures
        is_reply_result(reply, action@, now, res),
{
    match reply {
        TokenReply::Tokens(tokens) => tokens.checked_session_at(now),
        TokenReply::Undecodable(cause) => Err(TokenError::Undecodable { cause }),
        TokenReply::Refused(body) => Err(
            TokenError::Refused { message: friendly_token_error(body.as_str(), action) },
        ),
    }
}

/// The session of a reply that just came.
pub fn session_from_reply(reply: TokenReply, action: &str) -> (res: Result<
    OauthSession,
    TokenError,
>)
    ensures
        exists|now: u64| is_reply_result(reply, action@, now, res),
        !(reply is Tokens) ==> forall|now: u64| is_reply_result(reply, action@, now, res),
{
    let now = unix_seconds();
    let res = session_from_reply_at(reply, action, now);
    assert(is_reply_result(reply, action@, now, res));
    res
}

/// A session that could not be renewed.
#[derive(Debug)]
pub struct RefreshError {
    /// Whether the refresh token itself was rejected, so that only signing in
    /// again helps. Any other failure may pass, and the session is kept.
    pub permanent: bool,
    pub err: TokenError,
}

impl RefreshError {
    /// The error in words.
    pub fn message(&self) -> (res: String)
        ensures
            res@ == self.err.text(),
    {
        self.err.message()
    }
}

/// What came of asking for a renewal.
#[derive(Debug)]
pub enum RefreshReply {
    /// The request could not be sent: why.
    Unsent(String),
    Reply(TokenReply),
}

/// Whether a reply to a renewal says that the refresh token is dead.
pub open spec fn is_permanent(reply: RefreshReply) -> bool {
    reply matches RefreshReply::Reply(TokenReply::Refused(body)) && is_dead_grant(
        body_text(body@, "error"@),
    )
}

/// Whether a result is what asking for a renewal means at a time.
pub open spec fn is_refresh_result(
    reply: RefreshReply,
    now: u64,
    res: Result<OauthSession, RefreshError>,
) -> bool {
    &&& res matches Err(failure) ==> failure.permanent == is_permanent(reply)
    &&& match reply {
        RefreshReply::Unsent(cause) => res matches Err(RefreshError {
            err: TokenError::Unsent { attempt, cause: why },
            ..
        }) && attempt@ == "refreshing the osu! access token"@ && why == cause,
        RefreshReply::Reply(reply) => is_reply_result(
            reply,
            "token refresh"@,
            now,
            match res {
                Ok(session) => Ok(session),
                Err(failure) => Err(failure.err),
            },
        ),
    }
}

/// The renewed session of a reply that came at a time.
pub fn refreshed_at(reply: RefreshReply, now: u64) -> (res: Result<OauthSession, RefreshError>)
    ensures
        is_refresh_result(reply, now, res),
{
    match reply {
        RefreshReply::Unsent(cause) => Err(
            RefreshError {
                permanent: false,
                err: TokenError::Unsent {
                    attempt: "refreshing the osu! access token".to_owned(),
                    cause,
                },
            },
        ),
        RefreshReply::Reply(reply) => {
            let permanent = match &reply {
                TokenReply::Refused(body) => is_invalid_grant(body.as_str()),
                _ => false,
            };
            match session_from_reply_at(reply, "token refresh", now) {
                Ok(session) => Ok(session),
                Err(err) => Err(RefreshError { permanent, err }),
            }
        },
    }
}

/// The renewed session of a reply that just came.
pub fn refreshed(reply: RefreshReply) -> (res: Result<OauthSession, RefreshError>)
    ensures
        exists|now: u64| is_refresh_result(reply, now, res),
        res matches Err(failure) ==> failure.permanent == is_permanent(reply),
{
    let now = unix_seconds();
    let res = refreshed_at(reply, now);
    assert(is_refresh_result(reply, now, res));
    res
}

/// What to do to get an access token.
#[derive(Debug)]
pub enum AccessStep {
    /// Nobody is signed in.
    SignedOut,
    /// The access token is good.
    Use(String),
    /// The session has to be renewed with its refresh token.
    Refresh(String),
}

/// Whether a step is the one to take with a session at a time.
pub open spec fn is_access_step(session: Option<OauthSession>, now: u64, step: AccessStep) -> bool {
    match session {
        None => step is SignedOut,
        Some(session) => if session.is_stale(now) {
            step == AccessStep::Refresh(session.refresh_token)
        } else {
            step == AccessStep::Use(session.access_token)
        },
    }
}

/// What to do to get an access token at a time.
pub fn access_step_at(session: &Option<OauthSession>, now: u64) -> (res: AccessStep)
    ensures
        is_access_step(*session, now, res),
{
    match session {
        None => AccessStep::SignedOut,
        Some(session) => if session.needs_refresh_at(now) {
            AccessStep::Refresh(session.refresh_token.clone())
        } else {
            AccessStep::Use(session.access_token.clone())
        },
    }
}

/// What to do to get an access token now.
pub fn access_step(session: &Option<OauthSession>) -> (res: AccessStep)
    ensures
        exists|now: u64| is_access_step(*session, now, res),
{
    let now = unix_seconds();
    let res = access_step_at(session, now);
    assert(is_access_step(*session, now, res));
    res
}

/// The session that is left after a renewal.
pub open spec fn session_left(
    session: Option<OauthSession>,
    refreshed: Result<OauthSession, RefreshError>,
) -> Option<OauthSession> {
    match refreshed {
        Ok(next) => Some(next),
        Err(failure) => if failure.permanent {
            None
        } else {
            session
        },
    }
}

/// The access token after a renewal, or why there is none.
pub open spec fn token_after(refreshed: Result<OauthSession, RefreshError>) -> Result<
    Option<String>,
    TokenError,
> {
    match refreshed {
        Ok(next) => Ok(Some(next.access_token)),
        Err(failure) => Err(failure.err),
    }
}

/// Takes in what came of renewing a session. A dead session is dropped; after
/// any other failure it stays as it was.
pub fn after_refresh(
    session: &mut Option<OauthSession>,
    refreshed: Result<OauthSession, RefreshError>,
) -> (res: Result<Option<String>, TokenError>)
    ensures
        *final(session) == session_left(*old(session), refreshed),
        res == (match refreshed {
            Ok(next) => Ok::<Option<String>, TokenError>(Some(next.access_token)),
            Err(failure) => Err(failure.err),
        }),
        res == token_after(refreshed),
{
    match refreshed {
        Ok(next) => {
            let token = next.access_token.clone();
            *session = Some(next);
            Ok(Some(token))
        },
        Err(failure) => {
            if failure.permanent {
                *session = None;
            }
            Err(failure.err)
        },
    }
}

/// What the backend says of itself.
#[derive(Debug, Clone)]
pub struct CheckResponse {
    pub ok: bool,
    pub error: Option<String>,
    pub message: Option<String>,
}

impl CheckResponse {
    /// Why the backend is not ready.
    pub open spec fn complaint(self) -> Seq<char> {
        match (self.message, self.error) {
            (Some(message), _) => message@,
            (None, Some(error)) => error@,
            (None, None) => "the sign-in backend is not ready"@,
        }
    }

    /// Whether the backend is ready, or why it is not.
    pub fn into_result(self) -> (res: Result<(), String>)
        ensures
            match res {
                Ok(()) => self.ok,
                Err(message) => !self.ok && message@ == self.complaint(),
            },
    {
        if self.ok {
            return Ok(());
        }
        match self.message {
            Some(message) => Err(message),
            None => match self.error {
                Some(error) => Err(error),
                None => Err("the sign-in backend is not ready".to_owned()),
            },
        }
    }
}

// ---------------------------------------------------------------------------
// The callback
// ---------------------------------------------------------------------------

/// Why a request is not the callback that was waited for.
#[derive(Debug, Clone, Copy, PartialEq, Eq, Structural)]
pub enum CallbackError {
    UnexpectedRequest,
    UnexpectedPath,
    StateMismatch,
    NoCode,
}

impl CallbackError {
    pub open spec fn text(self) -> Seq<char> {
        match self {
            CallbackError::UnexpectedRequest => "unexpected callback request"@,
            CallbackError::UnexpectedPath => "unexpected callback path"@,
            CallbackError::StateMismatch => "sign-in state mismatch; try again"@,
            CallbackError::NoCode => "osu! did not return an authorization code"@,
        }
    }

    /// The error in words.
    pub fn message(&self) -> (res: &'static str)
        ensures
            res@ == self.text(),
    {
        match self {
            CallbackError::UnexpectedRequest => "unexpected callback request",
            CallbackError::UnexpectedPath => "unexpected callback path",
            CallbackError::StateMismatch => "sign-in state mismatch; try again",
            CallbackError::NoCode => "osu! did not return an authorization code",
        }
    }
}

/// The encoded value of the last pair with a key.
pub open spec fn last_value(pairs: Seq<Seq<char>>, key: Seq<char>) -> Option<Seq<char>>
    decreases pairs.len(),
{
    if pairs.len() == 0 {
        None
    } else {
        match split_once(pairs.last(), '=') {
            Some((k, value)) if k == key => Some(value),
            _ => last_value(pairs.drop_last(), key),
        }
    }
}

/// The query of a path: what stands behind the first question mark.
pub open spec fn query_of(path: Seq<char>) -> Seq<char> {
    match split_once(path, '?') {
        Some((before, query)) => query,
        None => Seq::empty(),
    }
}

/// The value of a key in the query of a path, or an empty text.
pub open spec fn query_value(path: Seq<char>, key: Seq<char>) -> Seq<char> {
    match last_value(split(query_of(path), '&'), key) {
        Some(value) => url_decoded(value),
        None => Seq::empty(),
    }
}

/// The code that the first line of a request brings, where the request is the
/// callback that was waited for.
pub open spec fn callback_code(request_line: Seq<char>, expected_state: Seq<char>) -> Result<
    Seq<char>,
    CallbackError,
> {
    match second_word(request_line) {
        None => Err(CallbackError::UnexpectedRequest),
        Some(path) => if !starts_with(path, "/callback"@) {
            Err(CallbackError::UnexpectedPath)
        } else if query_value(path, "state"@) != expected_state {
            Err(CallbackError::StateMismatch)
        } else if trim(query_value(path, "code"@)).len() == 0 {
            Err(CallbackError::NoCode)
        } else {
            Ok(query_value(path, "code"@))
        },
    }
}

fn find_value(pairs: &Vec<Vec<char>>, key: &str) -> (res: String)
    ensures
        res@ == (match last_value(texts(pairs@), key@) {
            Some(value) => url_decoded(value),
            None => Seq::empty(),
        }),
{
    let ghost all = texts(pairs@);
    let mut value: Option<Vec<char>> = None;
    let mut i: usize = 0;
    assert(all.take(0) =~= Seq::empty());
    while i < pairs.len()
        invariant
            i <= pairs@.len(),
            all == texts(pairs@),
            match value {
                Some(value) => last_value(all.take(i as int), key@) == Some(value@),
                None => last_value(all.take(i as int), key@) is None,
            },
        decreases pairs@.len() - i,
    {
        assert(all[i as int] == pairs@[i as int]@);
        assert(all.take(i + 1).drop_last() == all.take(i as int));
        assert(all.take(i + 1).last() == all[i as int]);
        if let Some((k, v)) = split_once_slice(&pairs[i], '=') {
            if equals_str(k, key) {
                value = Some(crate::text::copy_chars(v));
            }
        }
        i = i + 1;
    }
    assert(all.take(all.len() as int) == all);
    match value {
        Some(value) => url_decode(string_of(&value).as_str()),
        None => String::new(),
    }
}

/// Reads the first line of a request to the loopback address. The state has
/// to be the one that was sent, so that no other page can sign a user in.
pub fn parse_callback_request(request_line: &str, expected_state: &str) -> (res: Result<
    String,
    CallbackError,
>)
    ensures
        match res {
            Ok(code) => callback_code(request_line@, expected_state@) == Ok::<
                Seq<char>,
                CallbackError,
            >(code@),
            Err(error) => callback_code(request_line@, expected_state@) == Err::<
                Seq<char>,
                CallbackError,
            >(error),
        },
{
    let line = chars_of(request_line);
    let path = match second_word_slice(&line) {
        Some(path) => path,
        None => {
            return Err(CallbackError::UnexpectedRequest);
        },
    };
    if !starts_with_str(path, "/callback") {
        return Err(CallbackError::UnexpectedPath);
    }
    let pairs = match split_once_slice(path, '?') {
        Some((_, query)) => split_slice(query, '&'),
        None => {
            let empty: Vec<char> = Vec::new();
            split_slice(&empty, '&')
        },
    };
    assert(texts(pairs@) == split(query_of(path@), '&'));
    let state = find_value(&pairs, "state");
    if !same_text(state.as_str(), expected_state) {
        return Err(CallbackError::StateMismatch);
    }
    let code = find_value(&pairs, "code");
    if is_blank(code.as_str()) {
        return Err(CallbackError::NoCode);
    }
    Ok(code)
}

/// The page that answers the callback.
pub open spec fn callback_page(signed_in: bool) -> Seq<char> {
    if signed_in {
        "<h1>Signed in</h1><p>You can return to osu! Map Manager.</p>"@
    } else {
        "<h1>Sign-in failed</h1><p>Return to osu! Map Manager and try again.</p>"@
    }
}

/// The answer to the callback.
pub open spec fn callback_answer(signed_in: bool) -> Seq<char> {
    let page = callback_page(signed_in);
    "HTTP/1.1 "@ + (if signed_in {
        "200 OK"@
    } else {
        "400 Bad Request"@
    }) + "\r\nContent-Type: text/html; charset=utf-8\r\nContent-Length: "@ + decimal_text(
        encode_utf8(page).len(),
    ) + "\r\nConnection: close\r\n\r\n"@ + page
}

/// The answer to the callback, with the length of its page in bytes.
pub fn callback_response(signed_in: bool) -> (res: String)
    ensures
        res@ == callback_answer(signed_in),
{
    let status = if signed_in {
        "200 OK"
    } else {
        "400 Bad Request"
    };
    let page = if signed_in {
        "<h1>Signed in</h1><p>You can return to osu! Map Manager.</p>"
    } else {
        "<h1>Sign-in failed</h1><p>Return to osu! Map Manager and try again.</p>"
    };
    let mut res = "HTTP/1.1 ".to_owned();
    res.append(status);
    res.append("\r\nContent-Type: text/html; charset=utf-8\r\nContent-Length: ");
    res.append(write_decimal(page.as_bytes().len()).as_str());
    res.append("\r\nConnection: close\r\n\r\n");
    res.append(page);
    res
}

// ---------------------------------------------------------------------------
// Where the session is kept
// ---------------------------------------------------------------------------

/// The folder that a typed path means, as parts to join: `%USERPROFILE%` at
/// its start stands for the user's folder, where that is known.
pub open spec fn expanded_path(path: Seq<char>, user_profile: Option<Seq<char>>) -> Seq<Seq<char>> {
    let typed = trim(path);
    match user_profile {
        Some(profile) if starts_with(typed, "%USERPROFILE%"@) => seq![
            profile,
            trim_start(typed.skip("%USERPROFILE%"@.len() as int), CharClass::Slash),
        ],
        _ => seq![typed],
    }
}

/// The root folder of the game, as parts to join: the typed path, or the
/// current folder where none is typed, or a dot where that is not known.
pub open spec fn root_parts(
    osu_root: Seq<char>,
    current_dir: Option<Seq<char>>,
    user_profile: Option<Seq<char>>,
) -> Seq<Seq<char>> {
    if trim(osu_root).len() > 0 {
        expanded_path(osu_root, user_profile)
    } else {
        match current_dir {
            Some(folder) => seq![folder],
            None => seq!["."@],
        }
    }
}

fn push_part(parts: &mut Vec<String>, part: String)
    ensures
        crate::text::string_texts(final(parts)@) == crate::text::string_texts(old(parts)@).push(
            part@,
        ),
{
    let ghost before = parts@;
    parts.push(part);
    assert(crate::text::string_texts(parts@) =~= crate::text::string_texts(before).push(part@));
}

/// The folder that a typed path means, as parts to join.
pub fn expand_prefilled_path(path: &str, user_profile: Option<&str>) -> (res: Vec<String>)
    ensures
        crate::text::string_texts(res@) == expanded_path(
            path@,
            match user_profile {
                Some(profile) => Some(profile@),
                None => None,
            },
        ),
{
    let typed = trimmed(path);
    let mut parts: Vec<String> = Vec::new();
    assert(crate::text::string_texts(parts@) =~= Seq::empty());
    if let Some(profile) = user_profile {
        if starts_with_str(&typed, "%USERPROFILE%") {
            let prefix = chars_of("%USERPROFILE%");
            let n = typed.len();
            let suffix = &typed[prefix.len()..n];
            assert(suffix@ == typed@.skip(prefix@.len() as int));
            push_part(&mut parts, profile.to_owned());
            push_part(&mut parts, string_of(trim_start_slice(suffix, CharClass::Slash)));
            assert(crate::text::string_texts(parts@) =~= expanded_path(path@, Some(profile@)));
            return parts;
        }
    }
    push_part(&mut parts, string_of(&typed));
    assert(crate::text::string_texts(parts@) =~= seq![trim(path@)]);
    parts
}

/// The folder of this program's data, as parts to join.
pub open spec fn app_data_parts(
    osu_root: Seq<char>,
    current_dir: Option<Seq<char>>,
    user_profile: Option<Seq<char>>,
) -> Seq<Seq<char>> {
    root_parts(osu_root, current_dir, user_profile).push(".osu-map-manager"@)
}

fn app_data_path(osu_root: &str, current_dir: Option<&str>, user_profile: Option<&str>) -> (res:
    Vec<String>)
    ensures
        crate::text::string_texts(res@) == app_data_parts(
            osu_root@,
            match current_dir {
                Some(folder) => Some(folder@),
                None => None,
            },
            match user_profile {
                Some(profile) => Some(profile@),
                None => None,
            },
        ),
{
    let mut parts: Vec<String> = Vec::new();
    if is_blank(osu_root) {
        assert(crate::text::string_texts(parts@) =~= Seq::empty());
        match current_dir {
            Some(folder) => push_part(&mut parts, folder.to_owned()),
            None => push_part(&mut parts, ".".to_owned()),
        }
    } else {
        parts = expand_prefilled_path(osu_root, user_profile);
    }
    let ghost root = crate::text::string_texts(parts@);
    proof {
        let folder = match current_dir {
            Some(folder) => Some(folder@),
            None => None,
        };
        let profile = match user_profile {
            Some(profile) => Some(profile@),
            None => None,
        };
        assert(root =~= root_parts(osu_root@, folder, profile));
    }
    push_part(&mut parts, ".osu-map-manager".to_owned());
    parts
}

/// The file of the session, as parts to join, given the current folder and
/// the user's folder where they are known.
pub fn oauth_session_path(
    osu_root: &str,
    current_dir: Option<&str>,
    user_profile: Option<&str>,
) -> (res: Vec<String>)
    ensures
        crate::text::string_texts(res@) == app_data_parts(
            osu_root@,
            match current_dir {
                Some(folder) => Some(folder@),
                None => None,
            },
            match user_profile {
                Some(profile) => Some(profile@),
                None => None,
            },
        ).push("oauth.json"@),
{
    let mut parts = app_data_path(osu_root, current_dir, user_profile);
    push_part(&mut parts, "oauth.json".to_owned());
    parts
}

} // verus!
