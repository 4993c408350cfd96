//! The MCI session: credentials and tokens read from the `.env` store, the
//! decisions of when to reuse, refresh or replace a token, what an auth
//! response changes, and when a packages fetch is retried. The requests
//! themselves are made by the caller, which hands each outcome back.

use vstd::prelude::*;

use crate::env_store::DotEnvStore;
use crate::json::{
    get, get_spec, integer_reading, is_object, is_object_spec, value_to_i64, JsonNumber, JsonValue,
};
use crate::text::{chars_of, i64_to_decimal, decimal_spec, parse_i64, parse_i64_spec};

verus! {

/// A failed HTTP exchange: the status where the server answered with an
/// error status, and the error's text.
#[derive(Debug)]
pub struct HttpFailure {
    pub status: Option<u16>,
    pub message: String,
}

/// The errors of the client.
#[derive(Debug)]
pub enum MciError {
    /// Reading or writing a file failed; the error's text.
    Io(String),
    /// An HTTP request failed.
    Http(HttpFailure),
    /// A required `.env` value is missing or empty; the key.
    MissingEnv(String),
    UnexpectedResponse(&'static str),
    Auth(&'static str),
    Json(String),
    Gui(String),
}

/// The text an error is shown as.
pub open spec fn error_message(e: MciError) -> Seq<char> {
    match e {
        MciError::Io(m) => m@,
        MciError::Http(h) => h.message@,
        MciError::MissingEnv(k) => "Missing required environment variable: "@ + k@,
        MciError::UnexpectedResponse(m) => m@,
        MciError::Auth(m) => m@,
        MciError::Json(m) => m@,
        MciError::Gui(m) => m@,
    }
}

impl MciError {
    /// The text this error is shown as.
    pub fn message(&self) -> (r: String)
        ensures
            r@ == error_message(*self),
    {
        match self {
            MciError::Io(m) => m.clone(),
            MciError::Http(h) => h.message.clone(),
            MciError::MissingEnv(k) => {
                let mut r = String::from_str("Missing required environment variable: ");
                r.append(k.as_str());
                r
            },
            MciError::UnexpectedResponse(m) => (*m).to_owned(),
            MciError::Auth(m) => (*m).to_owned(),
            MciError::Json(m) => m.clone(),
            MciError::Gui(m) => m.clone(),
        }
    }
}

/// The text of an optional `String`.
pub open spec fn opt_view(o: Option<String>) -> Option<Seq<char>> {
    match o {
        Some(s) => Some(s@),
        None => None,
    }
}

/// The text of an optional `&str`.
pub open spec fn opt_str_view(o: Option<&str>) -> Option<Seq<char>> {
    match o {
        Some(s) => Some(s@),
        None => None,
    }
}

// ---------------------------------------------------------------------
// `.env` keys
// ---------------------------------------------------------------------

pub open spec fn username_key() -> Seq<char> {
    "MCI_USERNAME"@
}

pub open spec fn password_key() -> Seq<char> {
    "MCI_PASSWORD"@
}

pub open spec fn access_token_key() -> Seq<char> {
    "MCI_ACCESS_TOKEN"@
}

pub open spec fn refresh_token_key() -> Seq<char> {
    "MCI_REFRESH_TOKEN"@
}

pub open spec fn session_state_key() -> Seq<char> {
    "MCI_SESSION_STATE"@
}

pub open spec fn access_expiry_key() -> Seq<char> {
    "MCI_ACCESS_TOKEN_EXPIRES_AT"@
}

pub open spec fn refresh_expiry_key() -> Seq<char> {
    "MCI_REFRESH_TOKEN_EXPIRES_AT"@
}

/// The value of `k` in `m`, where it is present and not empty.
pub open spec fn nonempty_value(m: Map<Seq<char>, Seq<char>>, k: Seq<char>) -> Option<Seq<char>> {
    if m.contains_key(k) && m[k].len() > 0 {
        Some(m[k])
    } else {
        None
    }
}

/// An optional text read as an `i64`; nothing for an empty text.
pub open spec fn safe_i64_spec(value: Option<Seq<char>>) -> Option<i64> {
    match value {
        Some(s) => if s.len() == 0 {
            None
        } else {
            parse_i64_spec(s)
        },
        None => None,
    }
}

/// `m` with every saved token, session state and expiry set to empty.
pub open spec fn auth_cleared(m: Map<Seq<char>, Seq<char>>) -> Map<Seq<char>, Seq<char>> {
    m.insert(access_token_key(), Seq::empty()).insert(refresh_token_key(), Seq::empty()).insert(
        session_state_key(),
        Seq::empty(),
    ).insert(access_expiry_key(), Seq::empty()).insert(refresh_expiry_key(), Seq::empty())
}

/// The value of `key` in `env`, where it is present and not empty.
fn nonempty_env(env: &DotEnvStore, key: &str) -> (r: Option<String>)
    ensures
        opt_view(r) == nonempty_value(env.data(), key@),
{
    match env.get(key) {
        Some(v) => {
            if v.is_empty() {
                None
            } else {
                Some(v.to_owned())
            }
        },
        None => None,
    }
}

/// The value of `key` in `env`; the missing key as the error where it is
/// absent or empty.
pub fn required_env(env: &DotEnvStore, key: &str) -> (r: Result<String, MciError>)
    ensures
        r matches Ok(v) ==> nonempty_value(env.data(), key@) == Some(v@),
        r matches Err(e) ==> nonempty_value(env.data(), key@) is None && (e matches MciError::MissingEnv(k) && k@ == key@),
{
    match nonempty_env(env, key) {
        Some(v) => Ok(v),
        None => Err(MciError::MissingEnv(key.to_owned())),
    }
}

/// An optional text read as an `i64`.
pub fn safe_i64(value: Option<&str>) -> (r: Option<i64>)
    ensures
        r == safe_i64_spec(opt_str_view(value)),
{
    match value {
        Some(v) => {
            if v.is_empty() {
                None
            } else {
                let c = chars_of(v);
                parse_i64(&c)
            }
        },
        None => None,
    }
}

/// Sets every saved token, session state and expiry to empty.
pub fn clear_auth_values(env: &mut DotEnvStore)
    ensures
        final(env).data() == auth_cleared(old(env).data()),
        final(env).lines_view() == old(env).lines_view(),
        final(env).path_view() == old(env).path_view(),
{
    proof {
        reveal_strlit("");
        assert(""@ =~= Seq::<char>::empty());
    }
    env.set("MCI_ACCESS_TOKEN", "");
    env.set("MCI_REFRESH_TOKEN", "");
    env.set("MCI_SESSION_STATE", "");
    env.set("MCI_ACCESS_TOKEN_EXPIRES_AT", "");
    env.set("MCI_REFRESH_TOKEN_EXPIRES_AT", "");
}

/// A store as a reset leaves it for a file body (`None` where there is no
/// file): the body's lines, and the pairs read from them with every saved
/// token, session state and expiry set to empty.
pub open spec fn is_reset_of(s: DotEnvStore, body: Option<Seq<char>>) -> bool {
    &&& s.lines_view() == crate::env_store::body_lines(body)
    &&& s.data() == auth_cleared(crate::env_store::load_data(crate::env_store::body_lines(body)))
}

/// The store of the `.env` file at `path` whose text is `body` (`None`
/// where there is no file), with every saved token, session state and
/// expiry set to empty; rendering it gives the text to write back.
pub fn reset_saved_auth(path: &str, body: Option<&str>) -> (s: DotEnvStore)
    ensures
        s.path_view() == path@,
        s.lines_view() == crate::env_store::body_lines(crate::env_store::body_view(body)),
        s.data() == auth_cleared(crate::env_store::load_data(s.lines_view())),
        is_reset_of(s, crate::env_store::body_view(body)),
{
    let mut env = DotEnvStore::new(path, body);
    clear_auth_values(&mut env);
    env
}

// ---------------------------------------------------------------------
// Time
// ---------------------------------------------------------------------

/// An expiry that is still ahead of `now`.
pub open spec fn token_is_valid_spec(expires_at: Option<i64>, now: i64) -> bool {
    match expires_at {
        Some(v) => v > now,
        None => false,
    }
}

/// Whether an expiry is still ahead of `now`.
pub fn token_is_valid(expires_at: Option<i64>, now: i64) -> (b: bool)
    ensures
        b == token_is_valid_spec(expires_at, now),
{
    match expires_at {
        Some(v) => v > now,
        None => false,
    }
}

/// The expiry of a lifetime in seconds counted from `now`, less a
/// 30-second safety margin (wrapping at the ends of the `i64` range).
pub open spec fn expiry_spec(expires_in: Option<JsonValue>, now: i64) -> Option<i64> {
    match expires_in {
        Some(v) => match integer_reading(v) {
            Some(seconds) => Some(now.wrapping_add(seconds).wrapping_sub(30)),
            None => None,
        },
        None => None,
    }
}

/// The expiry of a lifetime in seconds counted from `now`.
pub fn expiry_from_seconds(expires_in: Option<&JsonValue>, now: i64) -> (r: Option<i64>)
    ensures
        r == expiry_spec(
            match expires_in {
                Some(v) => Some(*v),
                None => None,
            },
            now,
        ),
{
    match expires_in {
        Some(v) => match value_to_i64(v) {
            Some(seconds) => Some(now.wrapping_add(seconds).wrapping_sub(30)),
            None => None,
        },
        None => None,
    }
}

// ---------------------------------------------------------------------
// Auth payloads
// ---------------------------------------------------------------------

/// The non-empty string stored under `key` in an object.
pub open spec fn string_field_spec(payload: JsonValue, key: Seq<char>) -> Option<Seq<char>> {
    match get_spec(payload, key) {
        Some(JsonValue::Str { text, float_reading: _ }) => if text@.len() > 0 {
            Some(text@)
        } else {
            None
        },
        _ => None,
    }
}

/// The non-empty string stored under `key` in an object.
pub fn string_field(payload: &JsonValue, key: &str) -> (r: Option<String>)
    ensures
        opt_view(r) == string_field_spec(*payload, key@),
{
    match get(payload, key) {
        Some(JsonValue::Str { text, float_reading: _ }) => {
            if text.as_str().is_empty() {
                None
            } else {
                Some(text.clone())
            }
        },
        _ => None,
    }
}

/// The decimal text of an optional expiry, empty for none.
pub open spec fn expiry_text(v: Option<i64>) -> Seq<char> {
    match v {
        Some(x) => decimal_spec(x as int),
        None => Seq::empty(),
    }
}

/// An optional token's text, empty for none.
pub open spec fn token_text(v: Option<Seq<char>>) -> Seq<char> {
    match v {
        Some(x) => x,
        None => Seq::empty(),
    }
}

/// `new` where it is present, `old` otherwise.
pub open spec fn newer<T>(new: Option<T>, old: Option<T>) -> Option<T> {
    match new {
        Some(x) => Some(x),
        None => old,
    }
}

/// What the client knows: the account, and the saved tokens with the
/// session state and the expiries (seconds since the Unix epoch).
pub struct ClientView {
    pub username: Seq<char>,
    pub password: Seq<char>,
    pub access_token: Option<Seq<char>>,
    pub refresh_token: Option<Seq<char>>,
    pub session_state: Option<Seq<char>>,
    pub access_token_expires_at: Option<i64>,
    pub refresh_token_expires_at: Option<i64>,
}

/// The kind of credential an auth request presents.
#[derive(Debug, Clone, Copy, PartialEq, Eq)]
pub enum CredentialType {
    Password,
    RefreshToken,
}

/// An auth request to send: the JSON body fields and the bearer token.
#[derive(Debug)]
pub struct AuthRequest {
    pub username: String,
    pub credential_type: CredentialType,
    pub credential: String,
    pub bearer: Option<String>,
}

/// What to do next while securing a token.
#[derive(Debug)]
pub enum TokenStep {
    /// The token to use.
    Ready(String),
    /// Send this refresh request and report how it went.
    Refresh(AuthRequest),
    /// Send this login request and report how it went.
    Login(AuthRequest),
    /// Stop with this error.
    Failed(MciError),
}

/// The MCI session: the `.env` store, the account and the saved tokens.
#[derive(Debug)]
pub struct MciInternetClient {
    env: DotEnvStore,
    username: String,
    password: String,
    access_token: Option<String>,
    refresh_token: Option<String>,
    session_state: Option<String>,
    access_token_expires_at: Option<i64>,
    refresh_token_expires_at: Option<i64>,
}

impl View for MciInternetClient {
    type V = ClientView;

    closed spec fn view(&self) -> ClientView {
        ClientView {
            username: self.username@,
            password: self.password@,
            access_token: opt_view(self.access_token),
            refresh_token: opt_view(self.refresh_token),
            session_state: opt_view(self.session_state),
            access_token_expires_at: self.access_token_expires_at,
            refresh_token_expires_at: self.refresh_token_expires_at,
        }
    }
}

/// Every saved token and the session state, where present, is non-empty.
pub open spec fn saved_tokens_nonempty(c: ClientView) -> bool {
    &&& c.access_token matches Some(t) ==> t.len() > 0
    &&& c.refresh_token matches Some(t) ==> t.len() > 0
    &&& c.session_state matches Some(t) ==> t.len() > 0
}

/// The session read from a `.env` store: the account, which must be
/// present and not empty, and the tokens, session state and expiries saved
/// there (an empty value counting as none).
pub open spec fn session_from_env(m: Map<Seq<char>, Seq<char>>) -> ClientView {
    ClientView {
        username: nonempty_value(m, username_key())->0,
        password: nonempty_value(m, password_key())->0,
        access_token: nonempty_value(m, access_token_key()),
        refresh_token: nonempty_value(m, refresh_token_key()),
        session_state: nonempty_value(m, session_state_key()),
        access_token_expires_at: safe_i64_spec(
            if m.contains_key(access_expiry_key()) {
                Some(m[access_expiry_key()])
            } else {
                None
            },
        ),
        refresh_token_expires_at: safe_i64_spec(
            if m.contains_key(refresh_expiry_key()) {
                Some(m[refresh_expiry_key()])
            } else {
                None
            },
        ),
    }
}

/// The session after an auth response: every token and session state the
/// response holds (non-empty), every expiry it gives, the rest kept.
pub open spec fn after_auth_payload(c: ClientView, payload: JsonValue, now: i64) -> ClientView {
    ClientView {
        access_token: newer(string_field_spec(payload, "access_token"@), c.access_token),
        refresh_token: newer(string_field_spec(payload, "refresh_token"@), c.refresh_token),
        session_state: newer(string_field_spec(payload, "session_state"@), c.session_state),
        access_token_expires_at: newer(
            expiry_spec(get_spec(payload, "expires_in"@), now),
            c.access_token_expires_at,
        ),
        refresh_token_expires_at: newer(
            expiry_spec(get_spec(payload, "refresh_expires_in"@), now),
            c.refresh_token_expires_at,
        ),
        ..c
    }
}

/// `m` with the session's tokens, session state and expiries written in.
pub open spec fn with_session(m: Map<Seq<char>, Seq<char>>, c: ClientView) -> Map<
    Seq<char>,
    Seq<char>,
> {
    m.insert(access_token_key(), token_text(c.access_token)).insert(
        refresh_token_key(),
        token_text(c.refresh_token),
    ).insert(session_state_key(), token_text(c.session_state)).insert(
        access_expiry_key(),
        expiry_text(c.access_token_expires_at),
    ).insert(refresh_expiry_key(), expiry_text(c.refresh_token_expires_at))
}

/// The first step of securing a token: the saved access token where it
/// is present, still valid and no refresh is forced; a refresh where a
/// refresh token is present and a refresh is forced, the refresh token is
/// valid or an access token is present; a login otherwise.
pub open spec fn token_start_spec(c: ClientView, force_refresh: bool, now: i64) -> int {
    if !force_refresh && c.access_token is Some && token_is_valid_spec(
        c.access_token_expires_at,
        now,
    ) {
        0
    } else if c.refresh_token is Some && (force_refresh || token_is_valid_spec(
        c.refresh_token_expires_at,
        now,
    ) || c.access_token is Some) {
        1
    } else {
        2
    }
}

/// The login request: the username with the password.
pub open spec fn is_login_request(r: AuthRequest, c: ClientView) -> bool {
    &&& r.username@ == c.username
    &&& r.credential_type == CredentialType::Password
    &&& r.credential@ == c.password
    &&& r.bearer is None
}

/// The refresh request: the username with the refresh token, bearing the
/// access token where there is one.
pub open spec fn is_refresh_request(r: AuthRequest, c: ClientView) -> bool {
    &&& r.username@ == c.username
    &&& r.credential_type == CredentialType::RefreshToken
    &&& r.credential@ == c.refresh_token->0
    &&& opt_view(r.bearer) == c.access_token
}

impl MciInternetClient {
    /// Every saved token and the session state, where present, is non-empty.
    #[verifier::type_invariant]
    closed spec fn saved_tokens_are_nonempty(self) -> bool {
        saved_tokens_nonempty(self@)
    }

    /// The session read from `env`; the first of `MCI_USERNAME` and
    /// `MCI_PASSWORD` that is missing or empty as the error.
    pub fn new(env: DotEnvStore) -> (r: Result<Self, MciError>)
        ensures
            r matches Ok(c) ==> {
                &&& nonempty_value(env.data(), username_key()) is Some
                &&& nonempty_value(env.data(), password_key()) is Some
                &&& c@ == session_from_env(env.data())
                &&& saved_tokens_nonempty(c@)
                &&& c.env() == env
            },
            r matches Err(e) ==> {
                ||| nonempty_value(env.data(), username_key()) is None && (e matches MciError::MissingEnv(
                    k,
                ) && k@ == username_key())
                ||| nonempty_value(env.data(), username_key()) is Some && nonempty_value(
                    env.data(),
                    password_key(),
                ) is None && (e matches MciError::MissingEnv(k) && k@ == password_key())
            },
    {
        let username = match required_env(&env, "MCI_USERNAME") {
            Ok(v) => v,
            Err(e) => return Err(e),
        };
        let password = match required_env(&env, "MCI_PASSWORD") {
            Ok(v) => v,
            Err(e) => return Err(e),
        };
        let access_token = nonempty_env(&env, "MCI_ACCESS_TOKEN");
        let refresh_token = nonempty_env(&env, "MCI_REFRESH_TOKEN");
        let session_state = nonempty_env(&env, "MCI_SESSION_STATE");
        let access_token_expires_at = safe_i64(env.get("MCI_ACCESS_TOKEN_EXPIRES_AT"));
        let refresh_token_expires_at = safe_i64(env.get("MCI_REFRESH_TOKEN_EXPIRES_AT"));
        let c = MciInternetClient {
            env,
            username,
            password,
            access_token,
            refresh_token,
            session_state,
            access_token_expires_at,
            refresh_token_expires_at,
        };
        assert(c@ == session_from_env(c.env.data()));
        Ok(c)
    }

    /// The `.env` store of the session.
    pub closed spec fn env(self) -> DotEnvStore {
        self.env
    }

    /// Moves the `.env` store out, leaving an empty one in its place.
    fn take_env(&mut self) -> (env: DotEnvStore)
        ensures
            env == old(self).env(),
            final(self)@ == old(self)@,
    {
        proof {
            use_type_invariant(&*self);
        }
        let mut env = DotEnvStore::new("", None);
        std::mem::swap(&mut env, &mut self.env);
        env
    }

    /// The `.env` store, to be written back.
    pub fn env_store(&self) -> (r: &DotEnvStore)
        ensures
            *r == self.env(),
    {
        &self.env
    }

    /// The saved access token.
    pub fn access_token(&self) -> (r: Option<&str>)
        ensures
            opt_str_view(r) == self@.access_token,
            r matches Some(t) ==> t@.len() > 0,
    {
        proof {
            use_type_invariant(self);
        }
        match &self.access_token {
            Some(t) => Some(t.as_str()),
            None => None,
        }
    }

    /// The saved refresh token.
    pub fn refresh_token(&self) -> (r: Option<&str>)
        ensures
            opt_str_view(r) == self@.refresh_token,
            r matches Some(t) ==> t@.len() > 0,
    {
        proof {
            use_type_invariant(self);
        }
        match &self.refresh_token {
            Some(t) => Some(t.as_str()),
            None => None,
        }
    }

    /// Forgets every token, session state and expiry, here and in the
    /// `.env` store (which the caller then writes back).
    pub fn reset_auth(&mut self)
        ensures
            final(self)@ == (ClientView {
                access_token: None,
                refresh_token: None,
                session_state: None,
                access_token_expires_at: None,
                refresh_token_expires_at: None,
                ..old(self)@
            }),
            final(self).env().data() == auth_cleared(old(self).env().data()),
            final(self).env().lines_view() == old(self).env().lines_view(),
            final(self).env().path_view() == old(self).env().path_view(),
    {
        proof {
            use_type_invariant(&*self);
        }
        self.access_token = None;
        self.refresh_token = None;
        self.session_state = None;
        self.access_token_expires_at = None;
        self.refresh_token_expires_at = None;
        let mut env = self.take_env();
        clear_auth_values(&mut env);
        self.env = env;
    }

    /// The login request.
    pub fn login_request(&self) -> (r: AuthRequest)
        ensures
            is_login_request(r, self@),
    {
        AuthRequest {
            username: self.username.clone(),
            credential_type: CredentialType::Password,
            credential: self.password.clone(),
            bearer: None,
        }
    }

    /// The refresh request; the login request where no refresh token is saved.
    pub fn refresh_request(&self) -> (r: AuthRequest)
        ensures
            self@.refresh_token is Some ==> is_refresh_request(r, self@),
            self@.refresh_token is None ==> is_login_request(r, self@),
    {
        match &self.refresh_token {
            Some(t) => AuthRequest {
                username: self.username.clone(),
                credential_type: CredentialType::RefreshToken,
                credential: t.clone(),
                bearer: match &self.access_token {
                    Some(a) => Some(a.clone()),
                    None => None,
                },
            },
            None => self.login_request(),
        }
    }

    /// Takes in an auth response received at `now`: an object updates the
    /// session and its `.env` values (which the caller then writes back);
    /// anything else is refused and changes nothing.
    pub fn accept_auth_response(&mut self, payload: &JsonValue, now: i64) -> (r: Result<
        (),
        MciError,
    >)
        ensures
            is_object_spec(*payload) ==> {
                &&& r is Ok
                &&& final(self)@ == after_auth_payload(old(self)@, *payload, now)
                &&& saved_tokens_nonempty(final(self)@)
                &&& string_field_spec(*payload, "access_token"@) matches Some(t) ==> final(self)@.access_token == Some(t)
                &&& string_field_spec(*payload, "access_token"@) is None ==> final(self)@.access_token == old(self)@.access_token
                &&& string_field_spec(*payload, "refresh_token"@) matches Some(t) ==> final(self)@.refresh_token == Some(t)
                &&& string_field_spec(*payload, "refresh_token"@) is None ==> final(self)@.refresh_token == old(self)@.refresh_token
                &&& string_field_spec(*payload, "session_state"@) matches Some(t) ==> final(self)@.session_state == Some(t)
                &&& string_field_spec(*payload, "session_state"@) is None ==> final(self)@.session_state == old(self)@.session_state
                &&& final(self).env().data()[access_token_key()] == token_text(final(self)@.access_token)
                &&& final(self).env().data()[refresh_token_key()] == token_text(final(self)@.refresh_token)
                &&& final(self).env().data()[session_state_key()] == token_text(final(self)@.session_state)
                &&& final(self)@.username == old(self)@.username
                &&& final(self)@.password == old(self)@.password
                &&& final(self).env().data() == with_session(old(self).env().data(), final(self)@)
                &&& final(self).env().lines_view() == old(self).env().lines_view()
                &&& final(self).env().path_view() == old(self).env().path_view()
            },
            !is_object_spec(*payload) ==> {
                &&& r matches Err(e) && e == MciError::UnexpectedResponse(
                    "Unexpected auth response format.",
                )
                &&& *final(self) == *old(self)
            },
    {
        proof {
            use_type_invariant(&*self);
        }
        if !is_object(payload) {
            return Err(MciError::UnexpectedResponse("Unexpected auth response format."));
        }
        if let Some(value) = string_field(payload, "access_token") {
            self.access_token = Some(value);
        }
        if let Some(value) = string_field(payload, "refresh_token") {
            self.refresh_token = Some(value);
        }
        if let Some(value) = string_field(payload, "session_state") {
            self.session_state = Some(value);
        }
        if let Some(expires_at) = expiry_from_seconds(get(payload, "expires_in"), now) {
            self.access_token_expires_at = Some(expires_at);
        }
        if let Some(expires_at) = expiry_from_seconds(get(payload, "refresh_expires_in"), now) {
            self.refresh_token_expires_at = Some(expires_at);
        }
        let access = match &self.access_token {
            Some(t) => t.clone(),
            None => String::new(),
        };
        let refresh = match &self.refresh_token {
            Some(t) => t.clone(),
            None => String::new(),
        };
        let session = match &self.session_state {
            Some(t) => t.clone(),
            None => String::new(),
        };
        let access_at = match self.access_token_expires_at {
            Some(v) => i64_to_decimal(v),
            None => String::new(),
        };
        let refresh_at = match self.refresh_token_expires_at {
            Some(v) => i64_to_decimal(v),
            None => String::new(),
        };
        let mut env = self.take_env();
        env.set("MCI_ACCESS_TOKEN", access.as_str());
        env.set("MCI_REFRESH_TOKEN", refresh.as_str());
        env.set("MCI_SESSION_STATE", session.as_str());
        env.set("MCI_ACCESS_TOKEN_EXPIRES_AT", access_at.as_str());
        env.set("MCI_REFRESH_TOKEN_EXPIRES_AT", refresh_at.as_str());
        self.env = env;
        proof {
            lemma_auth_keys_distinct();
        }
        Ok(())
    }

    /// The first step of securing a token valid at `now`.
    pub fn ensure_token_start(&self, force_refresh: bool, now: i64) -> (r: TokenStep)
        ensures
            token_start_spec(self@, force_refresh, now) == 0 ==> (r matches TokenStep::Ready(t)
                && Some(t@) == self@.access_token),
            token_start_spec(self@, force_refresh, now) == 1 ==> (r matches TokenStep::Refresh(q)
                && is_refresh_request(q, self@)),
            token_start_spec(self@, force_refresh, now) == 2 ==> (r matches TokenStep::Login(q)
                && is_login_request(q, self@)),
            r matches TokenStep::Ready(t) ==> t@.len() > 0,
            force_refresh ==> !(r is Ready),
            force_refresh && self@.refresh_token is Some ==> (r matches TokenStep::Refresh(q)
                && is_refresh_request(q, self@)),
            force_refresh && self@.refresh_token is None ==> (r matches TokenStep::Login(q)
                && is_login_request(q, self@)),
            r matches TokenStep::Ready(t) ==> {
                &&& Some(t@) == self@.access_token
                &&& self@.access_token_expires_at matches Some(e) && e > now
            },
    {
        proof {
            use_type_invariant(self);
        }
        if !force_refresh && self.access_token.is_some() && token_is_valid(
            self.access_token_expires_at,
            now,
        ) {
            match &self.access_token {
                Some(t) => return TokenStep::Ready(t.clone()),
                None => {},
            }
        }
        if self.refresh_token.is_some() && (force_refresh || token_is_valid(
            self.refresh_token_expires_at,
            now,
        ) || self.access_token.is_some()) {
            return TokenStep::Refresh(self.refresh_request());
        }
        TokenStep::Login(self.login_request())
    }

    /// The step after a refresh: the access token where the refresh went
    /// through and one is saved; a login where it went through without
    /// one or the server answered with an error status; the refresh's
    /// error otherwise. Never a second refresh.
    pub fn ensure_token_after_refresh(&self, outcome: Result<(), MciError>) -> (r: TokenStep)
        ensures
            match outcome {
                Ok(()) => match self@.access_token {
                    Some(t) => r matches TokenStep::Ready(x) && x@ == t,
                    None => r matches TokenStep::Login(q) && is_login_request(q, self@),
                },
                Err(MciError::Http(h)) => if h.status is Some {
                    r matches TokenStep::Login(q) && is_login_request(q, self@)
                } else {
                    r == TokenStep::Failed(MciError::Http(h))
                },
                Err(e) => r == TokenStep::Failed(e),
            },
            r matches TokenStep::Ready(t) ==> t@.len() > 0,
    {
        proof {
            use_type_invariant(self);
        }
        match outcome {
            Ok(()) => match &self.access_token {
                Some(t) => TokenStep::Ready(t.clone()),
                None => TokenStep::Login(self.login_request()),
            },
            Err(MciError::Http(h)) => {
                if h.status.is_some() {
                    TokenStep::Login(self.login_request())
                } else {
                    TokenStep::Failed(MciError::Http(h))
                }
            },
            Err(e) => TokenStep::Failed(e),
        }
    }

    /// The result after a login: the saved access token, an error where
    /// none is saved, or the login's error.
    pub fn ensure_token_after_login(&self, outcome: Result<(), MciError>) -> (r: Result<
        String,
        MciError,
    >)
        ensures
            match outcome {
                Ok(()) => match self@.access_token {
                    Some(t) => r matches Ok(x) && x@ == t,
                    None => r == Err::<String, MciError>(
                        MciError::Auth("Authentication failed: access token not available."),
                    ),
                },
                Err(e) => r == Err::<String, MciError>(e),
            },
            r matches Ok(t) ==> t@.len() > 0,
    {
        proof {
            use_type_invariant(self);
        }
        match outcome {
            Ok(()) => match &self.access_token {
                Some(t) => Ok(t.clone()),
                None => Err(MciError::Auth("Authentication failed: access token not available.")),
            },
            Err(e) => Err(e),
        }
    }
}

// ---------------------------------------------------------------------
// Laws
// ---------------------------------------------------------------------


/// A forced refresh (after the server refused the access token) never hands
/// the saved access token back: it refreshes where a refresh token is saved
/// and logs in otherwise.
pub proof fn law_forced_refresh_never_reuses(c: ClientView, now: i64)
    ensures
        token_start_spec(c, true, now) == if c.refresh_token is Some {
            1int
        } else {
            2int
        },
{
}

/// The saved access token is used exactly when no refresh is forced, it is
/// saved, and its expiry is saved and still ahead of `now`.
pub proof fn law_reuse_only_valid_token(c: ClientView, force_refresh: bool, now: i64)
    ensures
        (token_start_spec(c, force_refresh, now) == 0) <==> (!force_refresh
            && c.access_token is Some && (c.access_token_expires_at matches Some(e) && e > now)),
{
}

/// Without a saved refresh token a token that cannot be reused is got by
/// logging in; with one and nothing else to go on, too: a saved refresh
/// token is used where a refresh is forced, its expiry is ahead of `now`,
/// or an access token is saved.
pub proof fn law_refresh_or_login(c: ClientView, force_refresh: bool, now: i64)
    ensures
        token_start_spec(c, force_refresh, now) != 0 ==> ((token_start_spec(c, force_refresh, now)
            == 1) <==> (c.refresh_token is Some && (force_refresh
            || (c.refresh_token_expires_at matches Some(e) && e > now) || c.access_token is Some))),
        0 <= token_start_spec(c, force_refresh, now) <= 2,
{
}

/// The login request sends the username with the password as a password
/// credential and no bearer token; the refresh request sends the username
/// with the refresh token as a refresh-token credential, bearing the saved
/// access token.
pub proof fn law_requests_carry_credentials(q: AuthRequest, c: ClientView)
    ensures
        is_login_request(q, c) ==> q.username@ == c.username && q.credential@ == c.password
            && q.credential_type == CredentialType::Password && q.bearer is None,
        is_refresh_request(q, c) && c.refresh_token is Some ==> q.username@ == c.username
            && Some(q.credential@) == c.refresh_token && q.credential_type
            == CredentialType::RefreshToken && opt_view(q.bearer) == c.access_token,
{
}


/// The first entry of an object named `key`, where it is at `i`: every
/// entry before it has another name.
pub open spec fn first_entry_at(payload: JsonValue, key: Seq<char>, i: int) -> bool {
    &&& payload is Object
    &&& 0 <= i < payload->Object_0@.len()
    &&& payload->Object_0@[i].0@ == key
    &&& forall|j: int| 0 <= j < i ==> (#[trigger] payload->Object_0@[j]).0@ != key
}

/// No entry of an object is named `key`.
pub open spec fn no_entry_named(payload: JsonValue, key: Seq<char>) -> bool {
    &&& payload is Object
    &&& forall|j: int|
        0 <= j < payload->Object_0@.len() ==> (#[trigger] payload->Object_0@[j]).0@ != key
}

proof fn lemma_string_field_at(payload: JsonValue, key: Seq<char>, i: int)
    requires
        first_entry_at(payload, key, i),
    ensures
        get_spec(payload, key) == Some(payload->Object_0@[i].1),
        (payload->Object_0@[i].1 matches JsonValue::Str { text, float_reading: _ }
            && text@.len() > 0) ==> string_field_spec(payload, key) == Some(
            payload->Object_0@[i].1->Str_text@,
        ),
{
    crate::json::lemma_lookup_at(payload->Object_0@, key, i);
}

proof fn lemma_no_entry(payload: JsonValue, key: Seq<char>)
    requires
        no_entry_named(payload, key),
    ensures
        get_spec(payload, key) is None,
        string_field_spec(payload, key) is None,
{
    crate::json::lemma_lookup_at(payload->Object_0@, key, payload->Object_0@.len() as int);
}

/// The access token of a response replaces the saved one: where the first
/// `access_token` entry is a non-empty string, that string is the access
/// token afterwards, whatever token was saved; where the response has no
/// `access_token` entry, the saved token stays.
pub proof fn law_response_access_token_wins(c: ClientView, payload: JsonValue, i: int, now: i64)
    ensures
        first_entry_at(payload, "access_token"@, i) && (payload->Object_0@[i].1 matches JsonValue::Str {
            text,
            float_reading: _,
        } && text@.len() > 0) ==> after_auth_payload(c, payload, now).access_token == Some(
            payload->Object_0@[i].1->Str_text@,
        ),
        no_entry_named(payload, "access_token"@) ==> after_auth_payload(c, payload, now).access_token
            == c.access_token,
{
    if first_entry_at(payload, "access_token"@, i) {
        lemma_string_field_at(payload, "access_token"@, i);
    }
    if no_entry_named(payload, "access_token"@) {
        lemma_no_entry(payload, "access_token"@);
    }
}

/// The refresh token of a response replaces the saved one, and the session
/// state of a response the saved one, in the same way.
pub proof fn law_response_refresh_token_and_state_win(
    c: ClientView,
    payload: JsonValue,
    i: int,
    now: i64,
)
    ensures
        first_entry_at(payload, "refresh_token"@, i) && (payload->Object_0@[i].1 matches JsonValue::Str {
            text,
            float_reading: _,
        } && text@.len() > 0) ==> after_auth_payload(c, payload, now).refresh_token == Some(
            payload->Object_0@[i].1->Str_text@,
        ),
        no_entry_named(payload, "refresh_token"@) ==> after_auth_payload(
            c,
            payload,
            now,
        ).refresh_token == c.refresh_token,
        first_entry_at(payload, "session_state"@, i) && (payload->Object_0@[i].1 matches JsonValue::Str {
            text,
            float_reading: _,
        } && text@.len() > 0) ==> after_auth_payload(c, payload, now).session_state == Some(
            payload->Object_0@[i].1->Str_text@,
        ),
        no_entry_named(payload, "session_state"@) ==> after_auth_payload(
            c,
            payload,
            now,
        ).session_state == c.session_state,
{
    if first_entry_at(payload, "refresh_token"@, i) {
        lemma_string_field_at(payload, "refresh_token"@, i);
    }
    if no_entry_named(payload, "refresh_token"@) {
        lemma_no_entry(payload, "refresh_token"@);
    }
    if first_entry_at(payload, "session_state"@, i) {
        lemma_string_field_at(payload, "session_state"@, i);
    }
    if no_entry_named(payload, "session_state"@) {
        lemma_no_entry(payload, "session_state"@);
    }
}

/// The lifetimes of a response set the expiries: where the first
/// `expires_in` (or `refresh_expires_in`) entry is a whole number of
/// seconds `n`, the access (or refresh) token expires at `now + n - 30`,
/// where that sum stays within the `i64` range.
pub proof fn law_response_lifetimes_set_expiries(
    c: ClientView,
    payload: JsonValue,
    i: int,
    n: u64,
    now: i64,
)
    requires
        n <= i64::MAX,
        now + n <= i64::MAX,
        i64::MIN <= now + n - 30,
    ensures
        first_entry_at(payload, "expires_in"@, i) && payload->Object_0@[i].1 == JsonValue::Number(
            JsonNumber::PosInt(n),
        ) ==> after_auth_payload(c, payload, now).access_token_expires_at == Some(
            (now + n - 30) as i64,
        ),
        first_entry_at(payload, "refresh_expires_in"@, i) && payload->Object_0@[i].1
            == JsonValue::Number(JsonNumber::PosInt(n)) ==> after_auth_payload(
            c,
            payload,
            now,
        ).refresh_token_expires_at == Some((now + n - 30) as i64),
{
    let x = JsonValue::Number(JsonNumber::PosInt(n));
    assert(integer_reading(x) == Some(n as i64));
    let sum = now.wrapping_add(n as i64);
    assert(sum == now + n);
    assert(sum.wrapping_sub(30) == now + n - 30);
    assert(expiry_spec(Some(x), now) == Some((now + n - 30) as i64));
    if first_entry_at(payload, "expires_in"@, i) {
        lemma_string_field_at(payload, "expires_in"@, i);
    }
    if first_entry_at(payload, "refresh_expires_in"@, i) {
        lemma_string_field_at(payload, "refresh_expires_in"@, i);
    }
}

proof fn lemma_auth_keys_distinct()
    ensures
        access_token_key() != refresh_token_key(),
        access_token_key() != session_state_key(),
        access_token_key() != access_expiry_key(),
        access_token_key() != refresh_expiry_key(),
        refresh_token_key() != session_state_key(),
        refresh_token_key() != access_expiry_key(),
        refresh_token_key() != refresh_expiry_key(),
        session_state_key() != access_expiry_key(),
        session_state_key() != refresh_expiry_key(),
        access_expiry_key() != refresh_expiry_key(),
{
    reveal_strlit("MCI_ACCESS_TOKEN");
    reveal_strlit("MCI_REFRESH_TOKEN");
    reveal_strlit("MCI_SESSION_STATE");
    reveal_strlit("MCI_ACCESS_TOKEN_EXPIRES_AT");
    reveal_strlit("MCI_REFRESH_TOKEN_EXPIRES_AT");
    assert(access_token_key()[4] != refresh_token_key()[4]);
    assert(access_token_key()[4] != session_state_key()[4]);
    assert(access_token_key().len() != access_expiry_key().len());
    assert(access_token_key().len() != refresh_expiry_key().len());
    assert(refresh_token_key()[4] != session_state_key()[4]);
    assert(refresh_token_key()[4] != access_expiry_key()[4]);
    assert(refresh_token_key().len() != refresh_expiry_key().len());
    assert(session_state_key()[4] != access_expiry_key()[4]);
    assert(session_state_key()[4] != refresh_expiry_key()[4]);
    assert(access_expiry_key()[4] != refresh_expiry_key()[4]);
}

proof fn lemma_expiry_reads_back(v: Option<i64>)
    ensures
        safe_i64_spec(Some(expiry_text(v))) == v,
{
    match v {
        Some(x) => {
            crate::text::law_parse_decimal(x);
            let t = decimal_spec(x as int);
            if t.len() == 0 {
                assert(parse_i64_spec(t) is None);
            }
        },
        None => {},
    }
}

proof fn lemma_auth_keys_valid()
    ensures
        crate::env_store::valid_key(access_token_key()),
        crate::env_store::valid_key(refresh_token_key()),
        crate::env_store::valid_key(session_state_key()),
        crate::env_store::valid_key(access_expiry_key()),
        crate::env_store::valid_key(refresh_expiry_key()),
{
    reveal_strlit("MCI_ACCESS_TOKEN");
    reveal_strlit("MCI_REFRESH_TOKEN");
    reveal_strlit("MCI_SESSION_STATE");
    reveal_strlit("MCI_ACCESS_TOKEN_EXPIRES_AT");
    reveal_strlit("MCI_REFRESH_TOKEN_EXPIRES_AT");
}

/// Resetting the saved session of a file a second time, from the text the
/// first reset wrote, keeps the same pairs and writes the same text, where
/// no line of the file that assigns no key ends in a carriage return.
pub proof fn law_reset_twice(first: DotEnvStore, second: DotEnvStore, body: Option<Seq<char>>)
    requires
        first.wf(),
        second.wf(),
        is_reset_of(first, body),
        is_reset_of(
            second,
            Some(crate::env_store::render_spec(first.lines_view(), first.entries_view())),
        ),
        crate::env_store::plain_lines_end_without_cr(crate::env_store::body_lines(body)),
    ensures
        second.data() == first.data(),
        crate::env_store::render_spec(second.lines_view(), second.entries_view())
            == crate::env_store::render_spec(first.lines_view(), first.entries_view()),
{
    let m0 = crate::env_store::load_data(crate::env_store::body_lines(body));
    let m1 = first.data();
    crate::env_store::lemma_loaded_values_one_line(body);
    lemma_auth_keys_valid();
    reveal_strlit("");
    assert(""@ =~= Seq::<char>::empty());
    assert forall|k: Seq<char>| #[trigger] m1.contains_key(k) implies crate::env_store::valid_key(k)
        && !m1[k].contains('\n') by {
        if k != access_token_key() && k != refresh_token_key() && k != session_state_key() && k
            != access_expiry_key() && k != refresh_expiry_key() {
            assert(m0.contains_key(k));
        }
    }
    first.law_reload_rendered();
    assert(auth_cleared(m1) =~= m1);
    first.law_render_again(second);
}

/// The tokens, session state and expiries that a session writes into the
/// `.env` values are the ones a session read from those values holds,
/// where every saved token and session state is non-empty.
pub proof fn law_session_reads_back(m: Map<Seq<char>, Seq<char>>, c: ClientView)
    requires
        saved_tokens_nonempty(c),
    ensures
        session_from_env(with_session(m, c)).access_token == c.access_token,
        session_from_env(with_session(m, c)).refresh_token == c.refresh_token,
        session_from_env(with_session(m, c)).session_state == c.session_state,
        session_from_env(with_session(m, c)).access_token_expires_at == c.access_token_expires_at,
        session_from_env(with_session(m, c)).refresh_token_expires_at
            == c.refresh_token_expires_at,
{
    lemma_auth_keys_distinct();
    lemma_expiry_reads_back(c.access_token_expires_at);
    lemma_expiry_reads_back(c.refresh_token_expires_at);
    let w = with_session(m, c);
    assert(w[access_token_key()] == token_text(c.access_token));
    assert(w[refresh_token_key()] == token_text(c.refresh_token));
    assert(w[session_state_key()] == token_text(c.session_state));
    assert(w[access_expiry_key()] == expiry_text(c.access_token_expires_at));
    assert(w[refresh_expiry_key()] == expiry_text(c.refresh_token_expires_at));
}

/// After a reset, a session read from the `.env` values holds no token,
/// session state or expiry.
pub proof fn law_reset_reads_back_empty(m: Map<Seq<char>, Seq<char>>)
    ensures
        session_from_env(auth_cleared(m)).access_token is None,
        session_from_env(auth_cleared(m)).refresh_token is None,
        session_from_env(auth_cleared(m)).session_state is None,
        session_from_env(auth_cleared(m)).access_token_expires_at is None,
        session_from_env(auth_cleared(m)).refresh_token_expires_at is None,
{
    lemma_auth_keys_distinct();
    let w = auth_cleared(m);
    assert(w[access_token_key()] == Seq::<char>::empty());
    assert(w[refresh_token_key()] == Seq::<char>::empty());
    assert(w[session_state_key()] == Seq::<char>::empty());
    assert(w[access_expiry_key()] == Seq::<char>::empty());
    assert(w[refresh_expiry_key()] == Seq::<char>::empty());
}

// ---------------------------------------------------------------------
// Packages fetch
// ---------------------------------------------------------------------

/// What to do next while fetching the packages.
#[derive(Debug)]
pub enum FetchStep {
    /// Secure a token, forcing a refresh where asked, and report it.
    NeedToken { force_refresh: bool },
    /// Send the packages request with this token and report its status.
    Get { token: String },
    /// Read the response body and report it.
    ReadBody,
    /// Stop with this error.
    Failed(MciError),
}

/// A packages fetch: one request, and one more after an unauthorized
/// answer, with a refreshed token.
#[derive(Debug)]
pub struct PackagesFetch {
    retried: bool,
}

impl PackagesFetch {
    /// Whether the fetch has already retried.
    pub closed spec fn has_retried(self) -> bool {
        self.retried
    }

    /// A fetch that has not yet retried, and its first step: a token,
    /// without a forced refresh.
    pub fn start() -> (r: (PackagesFetch, FetchStep))
        ensures
            !r.0.has_retried(),
            r.1 matches FetchStep::NeedToken { force_refresh } && !force_refresh,
    {
        (PackagesFetch { retried: false }, FetchStep::NeedToken { force_refresh: false })
    }

    /// After securing a token: send the request with it, or stop with the error.
    pub fn on_token(&self, token: Result<String, MciError>) -> (r: FetchStep)
        ensures
            match token {
                Ok(t) => r matches FetchStep::Get { token } && token@ == t@,
                Err(e) => r == FetchStep::Failed(e),
            },
    {
        match token {
            Ok(t) => FetchStep::Get { token: t },
            Err(e) => FetchStep::Failed(e),
        }
    }

    /// After a response with `status`: on the first 401, a token with a
    /// forced refresh; otherwise read the body.
    pub fn on_status(&mut self, status: u16) -> (r: FetchStep)
        ensures
            status == 401 && !old(self).has_retried() ==> final(self).has_retried() && (r matches FetchStep::NeedToken { force_refresh } && force_refresh),
            !(status == 401 && !old(self).has_retried()) ==> final(self).has_retried() == old(self).has_retried() && (r matches FetchStep::ReadBody),
    {
        if status == 401 && !self.retried {
            self.retried = true;
            FetchStep::NeedToken { force_refresh: true }
        } else {
            FetchStep::ReadBody
        }
    }

    /// After reading the body: an object is the result; anything else, or
    /// an error, ends the fetch with an error.
    pub fn on_body(&self, body: Result<JsonValue, MciError>) -> (r: Result<JsonValue, MciError>)
        ensures
            match body {
                Ok(v) => if is_object_spec(v) {
                    r == Ok::<JsonValue, MciError>(v)
                } else {
                    r == Err::<JsonValue, MciError>(
                        MciError::UnexpectedResponse("Unexpected packages response format."),
                    )
                },
                Err(e) => r == Err::<JsonValue, MciError>(e),
            },
    {
        match body {
            Ok(v) => {
                if is_object(&v) {
                    Ok(v)
                } else {
                    Err(MciError::UnexpectedResponse("Unexpected packages response format."))
                }
            },
            Err(e) => Err(e),
        }
    }
}

} // verus!
