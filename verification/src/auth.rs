//! Credential checks and the bearer-token store of the authentication service.
use vstd::prelude::*;
use vstd::utf8::{decode_utf8, valid_utf8};
use crate::strmap::StrMap;
use crate::sys::{instant_now, nanos_since, new_uuid};
use crate::text;
use crate::text::{chars_of, str_eq, string_of_range, string_from_utf8};

verus! {

/// The user name accepted by the default credentials.
pub const BASIC_USER: &'static str = "test";

/// The password accepted by the default credentials.
pub const BASIC_PASS: &'static str = "password";

/// The API key accepted by `check_api_key`.
pub const API_KEY: &'static str = "test-api-key";

/// How long an issued token stays valid, in seconds.
pub const TOKEN_TTL_SECS: u64 = 3600;

/// A user name and password that requests are checked against.
pub struct Credentials {
    pub username: String,
    pub password: String,
}

impl Default for Credentials {
    fn default() -> (r: Self)
        ensures
            r.username@ == BASIC_USER@,
            r.password@ == BASIC_PASS@,
    {
        Credentials { username: BASIC_USER.to_owned(), password: BASIC_PASS.to_owned() }
    }
}

impl Credentials {
    pub fn new(username: &str, password: &str) -> (r: Self)
        ensures
            r.username@ == username@,
            r.password@ == password@,
    {
        Credentials { username: username.to_owned(), password: password.to_owned() }
    }

    /// Whether `user` and `pass` are exactly these credentials.
    pub fn check(&self, user: &str, pass: &str) -> (r: bool)
        ensures
            r == (self.username@ == user@ && self.password@ == pass@),
    {
        str_eq(self.username.as_str(), user) && str_eq(self.password.as_str(), pass)
    }
}

/// Whether `user` and `pass` are the default credentials.
pub fn check_basic_credentials(user: &str, pass: &str) -> (r: bool)
    ensures
        r == (user@ == BASIC_USER@ && pass@ == BASIC_PASS@),
{
    str_eq(user, BASIC_USER) && str_eq(pass, BASIC_PASS)
}

/// Whether `key` is the accepted API key.
pub fn check_api_key(key: &str) -> (r: bool)
    ensures
        r == (key@ == API_KEY@),
{
    str_eq(key, API_KEY)
}

/// The only grant a token request may name.
pub open spec fn client_credentials_grant() -> Seq<char> {
    "client_credentials"@
}

/// Checks the `grant_type` of a token request: it must be
/// `client_credentials`; otherwise the request is refused with a message.
pub fn check_grant_type(grant_type: Option<&str>) -> (r: Result<(), String>)
    ensures
        r is Ok <==> (grant_type matches Some(g) && g@ == client_credentials_grant()),
        r matches Err(m) ==> m@ == "grant_type must be client_credentials"@,
{
    match grant_type {
        Some(g) => {
            if str_eq(g, "client_credentials") {
                return Ok(());
            }
        },
        None => {},
    }
    Err(String::from_str("grant_type must be client_credentials"))
}

/// What standard base64 (with padding) decodes `text` to, if it is valid.
pub uninterp spec fn base64_standard_decode(text: Seq<char>) -> Option<Seq<u8>>;

/// Decodes standard base64 with padding:
/// `base64::engine::general_purpose::STANDARD.decode`. The result is named,
/// not stated: `None` exactly when the crate reports a decode error.
#[verifier::external_body]
fn decode_standard_base64(text: &str) -> (r: Option<Vec<u8>>)
    ensures
        match r {
            Some(bytes) => base64_standard_decode(text@) == Some(bytes@),
            None => base64_standard_decode(text@) is None,
        },
{
    base64::Engine::decode(&base64::engine::general_purpose::STANDARD, text).ok()
}

/// The user and password of `user:password` text: split at the first colon.
pub open spec fn split_credentials(t: Seq<char>) -> Option<(Seq<char>, Seq<char>)> {
    match text::first_index(t, ':') {
        Some(i) => Some((t.take(i), t.skip(i + 1))),
        None => None,
    }
}

/// The user and password carried by decoded Basic credentials: the bytes
/// must be UTF-8 and hold a colon.
pub open spec fn credentials_of_bytes(bytes: Seq<u8>) -> Option<(Seq<char>, Seq<char>)> {
    if valid_utf8(bytes) {
        split_credentials(decode_utf8(bytes))
    } else {
        None
    }
}

/// Splits decoded Basic credentials into user and password.
pub fn split_basic_credentials(bytes: Vec<u8>) -> (r: Option<(String, String)>)
    ensures
        match r {
            Some((u, p)) => credentials_of_bytes(bytes@) == Some((u@, p@)),
            None => credentials_of_bytes(bytes@) is None,
        },
{
    let ghost b = bytes@;
    let s = match string_from_utf8(bytes) {
        Some(s) => s,
        None => {
            return None;
        },
    };
    let v = chars_of(s.as_str());
    match text::find_char(&v, 0, ':') {
        Some(i) => {
            proof {
                assert(v@.skip(0) =~= v@);
                text::lemma_first_index(v@, ':', i as int);
            }
            assert(i < v.len());
            let user = string_of_range(&v, 0, i);
            let pass = string_of_range(&v, i + 1, v.len());
            assert(v@.subrange(0, i as int) =~= v@.take(i as int));
            assert(v@.subrange(i + 1, v@.len() as int) =~= v@.skip(i + 1));
            Some((user, pass))
        },
        None => {
            proof {
                text::lemma_first_index_none(v@, ':');
            }
            None
        },
    }
}

/// The user and password carried by a Basic authorization value.
pub open spec fn basic_auth_of(encoded: Seq<char>) -> Option<(Seq<char>, Seq<char>)> {
    match base64_standard_decode(encoded) {
        Some(bytes) => credentials_of_bytes(bytes),
        None => None,
    }
}

/// Decodes a base64 Basic authorization value into user and password.
pub fn decode_basic_auth(encoded: &str) -> (r: Option<(String, String)>)
    ensures
        match r {
            Some((u, p)) => basic_auth_of(encoded@) == Some((u@, p@)),
            None => basic_auth_of(encoded@) is None,
        },
{
    match decode_standard_base64(encoded) {
        Some(bytes) => split_basic_credentials(bytes),
        None => None,
    }
}

/// Issued bearer tokens with the time each one expires, in nanoseconds of
/// the store's own clock, and the latest clock reading the store acted on
/// (its clock never reads earlier than that).
pub struct TokenStore {
    tokens: StrMap<u128>,
    ttl_secs: u64,
    origin: std::time::Instant,
    last_reading: u64,
}

/// The tokens of `m` that are still valid at `now`.
pub open spec fn live_tokens(m: Map<Seq<char>, u128>, now: int) -> Map<Seq<char>, u128> {
    m.restrict(m.dom().filter(|k: Seq<char>| m[k] > now))
}

/// Whether `token` is among `tokens` and expires after `now`.
pub open spec fn token_valid(tokens: Map<Seq<char>, u128>, token: Seq<char>, now: u64) -> bool {
    tokens.contains_key(token) && tokens[token] > now
}

/// The tokens after `token` is issued at `now`: the expired ones dropped,
/// `token` expiring `ttl` seconds later.
pub open spec fn after_issue(before: Map<Seq<char>, u128>, token: Seq<char>, ttl: u64, now: u64) -> Map<
    Seq<char>,
    u128,
> {
    live_tokens(before, now as int).insert(token, (now + ttl * 1_000_000_000) as u128)
}

/// The expiry given to a token issued already expired at `now`: one second earlier.
pub open spec fn expired_expiry(now: u64) -> u128 {
    if now >= 1_000_000_000 {
        (now - 1_000_000_000) as u128
    } else {
        0u128
    }
}

/// A token is valid from the moment it is issued until its lifetime has
/// passed, and not after; issuing it leaves every other token that is
/// still valid at that moment valid.
pub proof fn law_issued_token_valid(before: Map<Seq<char>, u128>, token: Seq<char>, ttl: u64, now: u64, later: u64, other: Seq<char>)
    ensures
        now <= later && (later as int) < now + ttl * 1_000_000_000 ==> token_valid(after_issue(before, token, ttl, now), token, later),
        (later as int) >= now + ttl * 1_000_000_000 ==> !token_valid(after_issue(before, token, ttl, now), token, later),
        other != token && token_valid(before, other, now) ==> token_valid(after_issue(before, token, ttl, now), other, now),
{
}

impl TokenStore {
    /// Each token and the time it expires.
    pub closed spec fn tokens(self) -> Map<Seq<char>, u128> {
        self.tokens@
    }

    /// How long a token stays valid, in seconds.
    pub closed spec fn ttl(self) -> u64 {
        self.ttl_secs
    }

    /// The latest reading of the store's clock that it issued a token at,
    /// in nanoseconds since the store was made.
    pub closed spec fn latest(self) -> u64 {
        self.last_reading
    }

    pub fn new() -> (r: Self)
        ensures
            r.tokens() == Map::<Seq<char>, u128>::empty(),
            r.ttl() == TOKEN_TTL_SECS,
            r.latest() == 0,
    {
        TokenStore { tokens: StrMap::new(), ttl_secs: TOKEN_TTL_SECS, origin: instant_now(), last_reading: 0 }
    }

    /// Records `token` as issued at `now`, after dropping the tokens that
    /// expired by then. Returns the token and its lifetime in seconds.
    pub fn issue_at(&mut self, token: String, now: u64) -> (r: (String, u64))
        ensures
            final(self).ttl() == old(self).ttl(),
            final(self).latest() == old(self).latest(),
            final(self).tokens() == after_issue(old(self).tokens(), token@, old(self).ttl(), now),
            r.0@ == token@,
            r.1 == old(self).ttl(),
    {
        self.drop_expired(now as u128);
        let expires: u128 = now as u128 + self.ttl_secs as u128 * 1_000_000_000;
        let t = token.clone();
        self.tokens.insert(token, expires);
        (t, self.ttl_secs)
    }

    /// Keeps only the tokens that expire after `now`.
    fn drop_expired(&mut self, now: u128)
        ensures
            final(self).ttl() == old(self).ttl(),
            final(self).latest() == old(self).latest(),
            final(self).tokens() == live_tokens(old(self).tokens(), now as int),
    {
        let n = self.tokens.len();
        let mut kept: StrMap<u128> = StrMap::new();
        let ghost m = self.tokens@;
        let ghost ks = self.tokens.keys();
        let mut i: usize = 0;
        while i < n
            invariant
                i <= n,
                n == ks.len(),
                ks == self.tokens.keys(),
                m == self.tokens@,
                crate::strmap::ordered_keys_of(ks, m),
                forall|k: Seq<char>| #[trigger] kept@.contains_key(k) ==> m.contains_key(k) && m[k] > now
                    && kept@[k] == m[k] && exists|j: int| 0 <= j < i && ks[j] == k,
                forall|j: int| 0 <= j < i && m[ks[j]] > now ==> #[trigger] kept@.contains_key(ks[j]),
            decreases n - i,
        {
            let (k, e) = self.tokens.entry_at(i);
            if *e > now {
                kept.insert(k.clone(), *e);
            }
            i = i + 1;
        }
        proof {
            let target = live_tokens(m, now as int);
            assert forall|k: Seq<char>| #[trigger] kept@.contains_key(k) == target.contains_key(k) by {
                if m.contains_key(k) && m[k] > now {
                    let j = choose|j: int| 0 <= j < ks.len() && ks[j] == k;
                    assert(kept@.contains_key(ks[j]));
                }
            }
            assert(kept@ =~= target);
        }
        self.tokens = kept;
    }

    /// Whether `token` was issued and is still valid at `now`.
    pub fn validate_at(&self, token: &str, now: u64) -> (r: bool)
        ensures
            r == token_valid(self.tokens(), token@, now),
    {
        match self.tokens.get(token) {
            Some(e) => *e > now as u128,
            None => false,
        }
    }

    /// Records `token` as one that expired one second before `now`.
    pub fn insert_expired_at(&mut self, token: String, now: u64) -> (r: String)
        ensures
            final(self).ttl() == old(self).ttl(),
            final(self).latest() == old(self).latest(),
            final(self).tokens() == old(self).tokens().insert(token@, expired_expiry(now)),
            r@ == token@,
    {
        let expires: u128 = if now >= 1_000_000_000 {
            (now - 1_000_000_000) as u128
        } else {
            0
        };
        let t = token.clone();
        self.tokens.insert(token, expires);
        t
    }

    /// The store's clock: nanoseconds since it was made, saturated to `u64`,
    /// and never earlier than the latest reading the store acted on.
    fn clock(&self) -> (r: u64)
        ensures
            r >= self.latest(),
    {
        let n = nanos_since(&self.origin);
        let c = if n > u64::MAX as u128 {
            u64::MAX
        } else {
            n as u64
        };
        if c < self.last_reading {
            self.last_reading
        } else {
            c
        }
    }

    /// Issues a fresh random token, valid for the store's lifetime from now.
    pub fn issue(&mut self) -> (r: (String, u64))
        ensures
            final(self).ttl() == old(self).ttl(),
            r.1 == old(self).ttl(),
            exists|now: u64|
                final(self).tokens() == #[trigger] after_issue(old(self).tokens(), r.0@, old(self).ttl(), now),
            final(self).latest() >= old(self).latest(),
            final(self).tokens() == after_issue(old(self).tokens(), r.0@, old(self).ttl(), final(self).latest()),
    {
        let token = new_uuid();
        let now = self.clock();
        self.last_reading = now;
        let r = self.issue_at(token, now);
        assert(self.tokens() == after_issue(old(self).tokens(), r.0@, old(self).ttl(), now));
        r
    }

    /// Whether `token` was issued and is still valid now.
    pub fn validate(&self, token: &str) -> (r: bool)
        ensures
            r ==> self.tokens().contains_key(token@),
            exists|now: u64| r == #[trigger] token_valid(self.tokens(), token@, now),
            exists|now: u64| now >= self.latest() && r == #[trigger] token_valid(self.tokens(), token@, now),
    {
        let now = self.clock();
        self.validate_at(token, now)
    }

    /// Issues a fresh token that has already expired.
    pub fn issue_expired(&mut self) -> (r: String)
        ensures
            final(self).ttl() == old(self).ttl(),
            final(self).tokens().contains_key(r@),
            exists|now: u64| final(self).tokens() == old(self).tokens().insert(r@, #[trigger] expired_expiry(now)),
            final(self).latest() >= old(self).latest(),
            final(self).tokens() == old(self).tokens().insert(r@, expired_expiry(final(self).latest())),
    {
        let token = new_uuid();
        let now = self.clock();
        self.last_reading = now;
        self.insert_expired_at(token, now)
    }
}

/// A token that `issue` returns validates at every reading of the store's
/// clock from the one it was issued at until its lifetime has passed, and
/// at none after: `issue` leaves the store with the issue reading as its
/// latest, and `validate` reads the clock no earlier than that.
pub proof fn law_issued_token_validates(before: TokenStore, after: TokenStore, token: Seq<char>, now: u64)
    requires
        after.ttl() == before.ttl(),
        after.tokens() == after_issue(before.tokens(), token, before.ttl(), after.latest()),
        now >= after.latest(),
    ensures
        (now as int) < after.latest() + after.ttl() * 1_000_000_000 ==> token_valid(after.tokens(), token, now),
        (now as int) >= after.latest() + after.ttl() * 1_000_000_000 ==> !token_valid(after.tokens(), token, now),
{
}

impl Default for TokenStore {
    fn default() -> (r: Self)
        ensures
            r.tokens() == Map::<Seq<char>, u128>::empty(),
            r.ttl() == TOKEN_TTL_SECS,
            r.latest() == 0,
    {
        TokenStore::new()
    }
}

/// A request's claim to be authenticated.
pub enum AuthRequest {
    Basic { user: String, pass: String },
    Bearer { token: String },
    ApiKey { key: String },
}

/// Why authentication failed.
pub enum AuthError {
    InvalidCredentials,
}

/// Whether `req` is accepted when bearer tokens are checked at time `now`.
pub open spec fn accepted(req: AuthRequest, tokens: Map<Seq<char>, u128>, now: u64) -> bool {
    match req {
        AuthRequest::Basic { user, pass } => user@ == BASIC_USER@ && pass@ == BASIC_PASS@,
        AuthRequest::Bearer { token } => token_valid(tokens, token@, now),
        AuthRequest::ApiKey { key } => key@ == API_KEY@,
    }
}

/// Checks an authentication request, bearer tokens as of `now`.
pub fn authenticate_at(req: &AuthRequest, token_store: &TokenStore, now: u64) -> (r: Result<(), AuthError>)
    ensures
        r is Ok <==> accepted(*req, token_store.tokens(), now),
{
    let ok = match req {
        AuthRequest::Basic { user, pass } => check_basic_credentials(user.as_str(), pass.as_str()),
        AuthRequest::Bearer { token } => token_store.validate_at(token.as_str(), now),
        AuthRequest::ApiKey { key } => check_api_key(key.as_str()),
    };
    if ok {
        Ok(())
    } else {
        Err(AuthError::InvalidCredentials)
    }
}

/// Checks an authentication request, bearer tokens as of now.
pub fn authenticate(req: &AuthRequest, token_store: &TokenStore) -> (r: Result<(), AuthError>)
    ensures
        exists|now: u64| r is Ok <==> accepted(*req, token_store.tokens(), now),
        exists|now: u64| now >= token_store.latest() && (r is Ok <==> #[trigger] accepted(*req, token_store.tokens(), now)),
{
    let now = token_store.clock();
    authenticate_at(req, token_store, now)
}

} // verus!
