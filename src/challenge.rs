//! The ACME HTTP-01 challenge store: token to key authorization, with a
//! time-to-live, answered on `/.well-known/acme-challenge/<token>`.

use vstd::prelude::*;
use dashmap::DashMap;
use crate::text::{chars_of, contains_char, starts_with};

verus! {

pub const ACME_CHALLENGE_PATH_PREFIX: &'static str = "/.well-known/acme-challenge/";

/// Seconds after which a challenge entry is stale.
pub const CHALLENGE_EXPIRY_SECONDS: u64 = 3600;

/// `dashmap::DashMap`, held opaque: what it holds is `challenge_entries`.
#[verifier::external_type_specification]
#[verifier::external_body]
#[verifier::reject_recursive_types(K)]
#[verifier::reject_recursive_types(V)]
#[verifier::reject_recursive_types(S)]
pub struct ExDashMap<K, V, S>(DashMap<K, V, S>);

/// One pending challenge: the key authorization to answer with and when
/// it was added, in seconds since the Unix epoch.
pub struct ChallengeEntry {
    pub key_authorization: String,
    pub created_at: u64,
}

/// Whether an entry added at `created_at` is stale at `now`.
pub open spec fn entry_expired(created_at: u64, now: u64) -> bool {
    now as int - created_at as int > CHALLENGE_EXPIRY_SECONDS as int
}

impl ChallengeEntry {
    pub fn new(key_authorization: String, created_at: u64) -> (r: Self)
        ensures
            r.key_authorization@ == key_authorization@,
            r.created_at == created_at,
    {
        ChallengeEntry { key_authorization, created_at }
    }

    pub fn is_expired(&self, now: u64) -> (r: bool)
        ensures
            r == entry_expired(self.created_at, now),
    {
        now > self.created_at && now - self.created_at > CHALLENGE_EXPIRY_SECONDS
    }
}

/// What a challenge map holds: token to (key authorization, time added).
pub uninterp spec fn challenge_entries(m: DashMap<String, ChallengeEntry>) -> Map<
    Seq<char>,
    (Seq<char>, u64),
>;

/// Relies on `DashMap::new`: the map starts empty.
#[verifier::external_body]
fn entries_new() -> (r: DashMap<String, ChallengeEntry>)
    ensures
        challenge_entries(r).dom() == Set::<Seq<char>>::empty(),
{
    DashMap::new()
}

/// Relies on `DashMap::insert`: the key now maps to the value, replacing
/// any earlier one.
#[verifier::external_body]
fn entries_insert(m: &mut DashMap<String, ChallengeEntry>, key: String, value: ChallengeEntry)
    ensures
        challenge_entries(*final(m)) == challenge_entries(*old(m)).insert(
            key@,
            (value.key_authorization@, value.created_at),
        ),
{
    m.insert(key, value);
}

/// Relies on `DashMap::remove`: the key no longer maps to anything.
#[verifier::external_body]
fn entries_remove(m: &mut DashMap<String, ChallengeEntry>, key: &str)
    ensures
        challenge_entries(*final(m)) == challenge_entries(*old(m)).remove(key@),
{
    m.remove(key);
}

/// Relies on `DashMap::get`: the entry stored under the key, if any.
#[verifier::external_body]
fn entries_get(m: &DashMap<String, ChallengeEntry>, key: &str) -> (r: Option<(String, u64)>)
    ensures
        r is Some <==> challenge_entries(*m).contains_key(key@),
        match r {
            Some((k, t)) => (k@, t) == challenge_entries(*m)[key@],
            None => true,
        },
{
    m.get(key).map(|e| (e.key_authorization.clone(), e.created_at))
}

/// Relies on `DashMap::len`: the number of entries.
#[verifier::external_body]
fn entries_len(m: &DashMap<String, ChallengeEntry>) -> (r: usize)
    ensures
        r == challenge_entries(*m).len(),
{
    m.len()
}

/// The entries of `m` that are not stale at `now`.
pub open spec fn fresh_entries(m: Map<Seq<char>, (Seq<char>, u64)>, now: u64) -> Map<
    Seq<char>,
    (Seq<char>, u64),
> {
    Map::new(|k: Seq<char>| m.contains_key(k) && !entry_expired(m[k].1, now), |k: Seq<char>| m[k])
}

/// Relies on `DashMap::retain`: exactly the entries the closure keeps stay,
/// unchanged.
#[verifier::external_body]
fn entries_retain_fresh(m: &mut DashMap<String, ChallengeEntry>, now: u64)
    ensures
        challenge_entries(*final(m)) == fresh_entries(challenge_entries(*old(m)), now),
{
    m.retain(|_, e| !e.is_expired(now));
}

/// Relies on `std::time::SystemTime::now`: seconds since the Unix epoch
/// (0 for a clock set before it). Nothing is promised of the value.
#[verifier::external_body]
fn unix_time_seconds() -> (r: u64) {
    std::time::SystemTime::now().duration_since(std::time::UNIX_EPOCH).map_or(0, |d| d.as_secs())
}

/// The key authorization stored for `token` and still fresh at `now`.
pub open spec fn lookup_spec(m: Map<Seq<char>, (Seq<char>, u64)>, token: Seq<char>, now: u64) -> Option<
    Seq<char>,
> {
    if m.contains_key(token) && !entry_expired(m[token].1, now) {
        Some(m[token].0)
    } else {
        None
    }
}

/// The token a request path names, when it starts with the challenge
/// prefix.
pub open spec fn token_of_path(path: Seq<char>) -> Option<Seq<char>> {
    let p = ACME_CHALLENGE_PATH_PREFIX@;
    if p.is_prefix_of(path) {
        Some(path.subrange(p.len() as int, path.len() as int))
    } else {
        None
    }
}

/// The answer to a request for `path` at `now`: a non-empty token without
/// slashes that is stored and fresh gives its key authorization.
pub open spec fn handle_spec(m: Map<Seq<char>, (Seq<char>, u64)>, path: Seq<char>, now: u64) -> Option<
    Seq<char>,
> {
    match token_of_path(path) {
        Some(t) => if t.len() == 0 || t.contains('/') {
            None
        } else {
            lookup_spec(m, t, now)
        },
        None => None,
    }
}

/// Concurrent map of pending HTTP-01 challenges.
pub struct AcmeHttp01ChallengeStore {
    challenges: DashMap<String, ChallengeEntry>,
}

impl View for AcmeHttp01ChallengeStore {
    type V = Map<Seq<char>, (Seq<char>, u64)>;

    closed spec fn view(&self) -> Self::V {
        challenge_entries(self.challenges)
    }
}

/// How an optional string result reads as an optional character sequence.
pub open spec fn opt_view(r: Option<String>) -> Option<Seq<char>> {
    match r {
        Some(s) => Some(s@),
        None => None,
    }
}

impl AcmeHttp01ChallengeStore {
    pub fn new() -> (r: Self)
        ensures
            r@ == Map::<Seq<char>, (Seq<char>, u64)>::empty(),
    {
        AcmeHttp01ChallengeStore { challenges: entries_new() }
    }

    /// Adds a challenge, stamped with the current time.
    pub fn add_challenge(&mut self, token: String, key_authorization: String)
        ensures
            exists|t: u64|
                final(self)@ == old(self)@.insert(token@, (key_authorization@, t)),
    {
        let now = unix_time_seconds();
        self.add_challenge_at(token, key_authorization, now);
    }

    /// Adds a challenge added at `now`, replacing any earlier one for the
    /// token.
    pub fn add_challenge_at(&mut self, token: String, key_authorization: String, now: u64)
        ensures
            final(self)@ == old(self)@.insert(token@, (key_authorization@, now)),
    {
        entries_insert(&mut self.challenges, token, ChallengeEntry::new(key_authorization, now));
    }

    pub fn remove_challenge(&mut self, token: &str)
        ensures
            final(self)@ == old(self)@.remove(token@),
    {
        entries_remove(&mut self.challenges, token);
    }

    /// The key authorization for `token`, if stored and fresh now.
    pub fn get_key_authorization(&self, token: &str) -> (r: Option<String>)
        ensures
            r is Some ==> self@.contains_key(token@) && r->0@ == self@[token@].0,
            !self@.contains_key(token@) ==> r is None,
    {
        let now = unix_time_seconds();
        self.get_key_authorization_at(token, now)
    }

    /// The key authorization for `token`, if stored and fresh at `now`.
    pub fn get_key_authorization_at(&self, token: &str, now: u64) -> (r: Option<String>)
        ensures
            opt_view(r) == lookup_spec(self@, token@, now),
    {
        match entries_get(&self.challenges, token) {
            Some((key_authorization, created_at)) => {
                if now > created_at && now - created_at > CHALLENGE_EXPIRY_SECONDS {
                    None
                } else {
                    Some(key_authorization)
                }
            },
            None => None,
        }
    }

    /// The token of a challenge path: what follows the challenge prefix.
    pub fn extract_token_from_path(path: &str) -> (r: Option<&str>)
        ensures
            match r {
                Some(t) => token_of_path(path@) == Some(t@),
                None => token_of_path(path@) is None,
            },
    {
        let p = chars_of(ACME_CHALLENGE_PATH_PREFIX);
        let s = chars_of(path);
        if starts_with(&s, &p) {
            Some(path.substring_char(p.len(), s.len()))
        } else {
            None
        }
    }

    /// Answers a challenge request for `path` now.
    pub fn try_handle_challenge(&self, path: &str) -> (r: Option<String>)
        ensures
            r is Some ==> exists|now: u64| opt_view(r) == handle_spec(self@, path@, now),
            (forall|now: u64| handle_spec(self@, path@, now) is None) ==> r is None,
    {
        let now = unix_time_seconds();
        self.try_handle_challenge_at(path, now)
    }

    /// Answers a challenge request for `path` at `now`: the key
    /// authorization when the path names a non-empty token without slashes
    /// that is stored and fresh.
    pub fn try_handle_challenge_at(&self, path: &str, now: u64) -> (r: Option<String>)
        ensures
            opt_view(r) == handle_spec(self@, path@, now),
    {
        match Self::extract_token_from_path(path) {
            Some(token) => {
                let t = chars_of(token);
                if t.len() == 0 || contains_char(&t, '/') {
                    None
                } else {
                    self.get_key_authorization_at(token, now)
                }
            },
            None => None,
        }
    }

    /// Drops every entry that is stale now.
    pub fn cleanup_expired(&mut self)
        ensures
            exists|now: u64| final(self)@ == fresh_entries(old(self)@, now),
    {
        let now = unix_time_seconds();
        self.cleanup_expired_at(now);
    }

    /// Drops every entry that is stale at `now`.
    pub fn cleanup_expired_at(&mut self, now: u64)
        ensures
            final(self)@ == fresh_entries(old(self)@, now),
    {
        entries_retain_fresh(&mut self.challenges, now);
    }

    pub fn active_challenge_count(&self) -> (r: usize)
        ensures
            r == self@.len(),
    {
        entries_len(&self.challenges)
    }
}

impl Default for AcmeHttp01ChallengeStore {
    fn default() -> (r: Self)
        ensures
            r@ == Map::<Seq<char>, (Seq<char>, u64)>::empty(),
    {
        Self::new()
    }
}

/// A challenge added at `added` is answered on its path until it is stale,
/// and no longer once removed.
pub proof fn lemma_add_then_handle(
    m: Map<Seq<char>, (Seq<char>, u64)>,
    token: Seq<char>,
    key: Seq<char>,
    added: u64,
    now: u64,
)
    requires
        token.len() > 0,
        !token.contains('/'),
        now as int - added as int <= CHALLENGE_EXPIRY_SECONDS as int,
    ensures
        handle_spec(m.insert(token, (key, added)), ACME_CHALLENGE_PATH_PREFIX@ + token, now) == Some(key),
        handle_spec(m.insert(token, (key, added)).remove(token), ACME_CHALLENGE_PATH_PREFIX@ + token, now) is None,
{
    let p = ACME_CHALLENGE_PATH_PREFIX@;
    let path = p + token;
    assert(path.subrange(0, p.len() as int) =~= p);
    assert(path.subrange(p.len() as int, path.len() as int) =~= token);
}

} // verus!
