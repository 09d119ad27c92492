//! Spotify, as data: what its answers mean, and when to ask again.
//!
//! Everything Spotify-shaped stops here: its JSON is mapped into [`Track`]
//! and [`Playback`] at this boundary so nothing above it knows what a
//! Spotify object looks like. The requests themselves are sent by whoever
//! holds the HTTP client; what a response means, and whether to retry, is
//! decided here.

use vstd::prelude::*;

use super::auth::{Access, ACCOUNTS};
use super::{Playback, Track};
use crate::json::{field, field_bool, field_i64, field_str, Value};
use crate::text::{concat, owned, push_decimal, trim, trimmed, decimal};

verus! {

/// Most results a search may ask for. Spotify's maximum is ten; asking for
/// more is an error, not a silently clamped request.
pub const SEARCH_LIMIT: usize = 10;

/// Seconds of slack before an access token is treated as expired.
pub const EXPIRY_SKEW_S: i64 = 60;

/// How many times one call may be sent, counting refresh and rate-limit
/// retries.
pub const MAX_ATTEMPTS: usize = 3;

/// Longest a rate-limit backoff will be honoured, in seconds. The service
/// can answer a hammered endpoint with a wait measured in hours; a room
/// device must not sit on a locked player until then.
pub const MAX_RETRY_AFTER_S: u64 = 30;

/// Credentials for the house account's Spotify app.
#[derive(Debug, Clone)]
pub struct SpotifyConfig {
    /// Client id from the developer dashboard.
    pub client_id: String,
    /// Client secret. Kept in a root-owned file, never in the log.
    pub client_secret: String,
    /// Connect device name to play through.
    pub device_name: String,
}

/// Accept credentials only when both halves are set: the shipped template
/// has empty values, and starting with it should say so rather than fail
/// later inside a token request.
pub fn check_config(config: SpotifyConfig) -> (r: Result<SpotifyConfig, String>)
    ensures
        (trimmed(config.client_id@).len() == 0 || trimmed(config.client_secret@).len() == 0)
            ==> (r matches Err(e) && e@ == "client_id and client_secret must both be set"@),
        !(trimmed(config.client_id@).len() == 0 || trimmed(config.client_secret@).len() == 0)
            ==> r == Ok::<SpotifyConfig, String>(config),
{
    let id = trim(config.client_id.as_str());
    let secret = trim(config.client_secret.as_str());
    if id.unicode_len() == 0 || secret.unicode_len() == 0 {
        return Err(owned("client_id and client_secret must both be set"));
    }
    Ok(config)
}

/// Where the Spotify APIs live. Overridable so tests can point at a stub.
#[derive(Debug, Clone)]
pub struct Endpoints {
    /// Web API base, including the version segment.
    pub api: String,
    /// Accounts service base, for token grants.
    pub accounts: String,
}

impl Default for Endpoints {
    /// The real hosts.
    fn default() -> (r: Self)
        ensures
            r.api@ == "https://api.spotify.com/v1"@,
            r.accounts@ == ACCOUNTS@,
    {
        Endpoints { api: owned("https://api.spotify.com/v1"), accounts: owned(ACCOUNTS) }
    }
}

/// The names of the artist objects that have one, in order.
pub open spec fn artist_names(items: Seq<Value>) -> Seq<Seq<char>>
    decreases items.len(),
{
    if items.len() == 0 {
        Seq::empty()
    } else {
        let prev = artist_names(items.drop_last());
        match field_str(items.last(), "name"@) {
            Some(n) => prev.push(n),
            None => prev,
        }
    }
}

/// `parts` joined with `sep` between each two.
pub open spec fn joined(parts: Seq<Seq<char>>, sep: Seq<char>) -> Seq<char>
    decreases parts.len(),
{
    if parts.len() == 0 {
        Seq::empty()
    } else if parts.len() == 1 {
        parts[0]
    } else {
        joined(parts.drop_last(), sep) + sep + parts.last()
    }
}

/// The artist credit of a track object: its artists' names, comma
/// separated; nothing when it lists none.
pub open spec fn artist_credit(v: Value) -> Seq<char> {
    match field(v, "artists"@) {
        Some(Value::Array(items)) => joined(artist_names(items@), ", "@),
        _ => Seq::empty(),
    }
}

/// What a Spotify track object means: nothing without a URI, because a
/// track that cannot be referred to later is of no use; everything else
/// degrades to a default.
pub open spec fn track_of(v: Value) -> Option<(Seq<char>, Seq<char>, Seq<char>, i64)> {
    match field_str(v, "uri"@) {
        Some(uri) => Some(
            (
                uri,
                match field_str(v, "name"@) {
                    Some(n) => n,
                    None => Seq::empty(),
                },
                artist_credit(v),
                match field_i64(v, "duration_ms"@) {
                    Some(d) => d,
                    None => 0,
                },
            ),
        ),
        None => None,
    }
}

/// Whether `t` is what `track_of` says `v` means.
pub open spec fn is_track_of(t: Track, v: Value) -> bool {
    track_of(v) == Some((t.uri@, t.title@, t.artist@, t.duration_ms))
}

/// The artist credit of `value`.
fn credit(value: &Value) -> (r: String)
    ensures
        r@ == artist_credit(*value),
{
    let mut out = String::new();
    match value.get("artists") {
        Some(Value::Array(items)) => {
            let mut count: usize = 0;
            let mut i: usize = 0;
            assert(items@.subrange(0, 0) =~= Seq::<Value>::empty());
            while i < items.len()
                invariant
                    i <= items@.len(),
                    out@ == joined(artist_names(items@.subrange(0, i as int)), ", "@),
                    count == artist_names(items@.subrange(0, i as int)).len(),
                    count <= i,
                decreases items@.len() - i,
            {
                proof {
                    let pre = items@.subrange(0, i + 1);
                    assert(pre.drop_last() =~= items@.subrange(0, i as int));
                    assert(pre.last() == items@[i as int]);
                }
                match items[i].get_str("name") {
                    Some(name) => {
                        let ghost before = artist_names(items@.subrange(0, i as int));
                        let ghost after = before.push(name@);
                        assert(after.drop_last() =~= before);
                        if count > 0 {
                            out = concat(out.as_str(), ", ");
                        } else {
                            assert(after =~= seq![name@]);
                        }
                        out = concat(out.as_str(), name.as_str());
                        assert(out@ =~= joined(after, ", "@));
                        count = count + 1;
                    },
                    None => {},
                }
                i = i + 1;
            }
            assert(items@.subrange(0, items@.len() as int) =~= items@);
        },
        _ => {},
    }
    out
}

/// Map one Spotify track object.
pub fn track_from_json(value: &Value) -> (r: Option<Track>)
    ensures
        match r {
            Some(t) => is_track_of(t, *value),
            None => track_of(*value) is None,
        },
{
    let uri = match value.get_str("uri") {
        Some(uri) => uri,
        None => return None,
    };
    let title = match value.get_str("name") {
        Some(name) => name,
        None => String::new(),
    };
    let duration_ms = match value.get_i64("duration_ms") {
        Some(d) => d,
        None => 0,
    };
    Some(Track { uri, title, artist: credit(value), duration_ms })
}

/// What the `GET /me/player` object means: nothing when no track object is
/// on it — a device active but idle, or playing an advert.
pub open spec fn is_playback_of(p: Playback, v: Value) -> bool {
    &&& field(v, "item"@) matches Some(item)
    &&& is_track_of(p.track, item)
    &&& p.progress_ms == match field_i64(v, "progress_ms"@) {
        Some(n) => n,
        None => 0,
    }
    &&& p.is_playing == match field_bool(v, "is_playing"@) {
        Some(b) => b,
        None => false,
    }
    &&& crate::event::opt_view(p.device) == match field(v, "device"@) {
        Some(d) => field_str(d, "name"@),
        None => None,
    }
}

/// Map the `GET /me/player` object.
pub fn playback_from_json(value: &Value) -> (r: Option<Playback>)
    ensures
        match r {
            Some(p) => is_playback_of(p, *value),
            None => match field(*value, "item"@) {
                Some(item) => track_of(item) is None,
                None => true,
            },
        },
{
    let track = match value.get("item") {
        Some(item) => match track_from_json(item) {
            Some(t) => t,
            None => return None,
        },
        None => return None,
    };
    let progress_ms = match value.get_i64("progress_ms") {
        Some(n) => n,
        None => 0,
    };
    let is_playing = match value.get_bool("is_playing") {
        Some(b) => b,
        None => false,
    };
    let device = match value.get("device") {
        Some(d) => d.get_str("name"),
        None => None,
    };
    Some(Playback { track, progress_ms, is_playing, device })
}

/// The tracks of a search answer's `tracks.items`, those with a URI, in
/// order.
pub open spec fn search_hits(items: Seq<Value>) -> Seq<Value>
    decreases items.len(),
{
    if items.len() == 0 {
        Seq::empty()
    } else {
        let prev = search_hits(items.drop_last());
        if track_of(items.last()) is Some {
            prev.push(items.last())
        } else {
            prev
        }
    }
}

/// The items of a search answer, if it has any.
pub open spec fn search_items(body: Option<Value>) -> Seq<Value> {
    match body {
        Some(b) => match field(b, "tracks"@) {
            Some(t) => match field(t, "items"@) {
                Some(Value::Array(items)) => items@,
                _ => Seq::empty(),
            },
            None => Seq::empty(),
        },
        None => Seq::empty(),
    }
}

/// The value an optional reference points at.
pub open spec fn deref_opt(body: Option<&Value>) -> Option<Value> {
    match body {
        Some(b) => Some(*b),
        None => None,
    }
}

/// The tracks a search answered with.
pub fn tracks_from_search(body: Option<&Value>) -> (r: Vec<Track>)
    ensures
        r@.len() == search_hits(search_items(deref_opt(body))).len(),
        forall|i: int|
            0 <= i < r@.len() ==> is_track_of(
                #[trigger] r@[i],
                search_hits(search_items(deref_opt(body)))[i],
            ),
{
    let mut out: Vec<Track> = Vec::new();
    let items = match body {
        Some(b) => match b.get("tracks") {
            Some(t) => match t.get("items") {
                Some(Value::Array(items)) => items,
                _ => return out,
            },
            None => return out,
        },
        None => return out,
    };
    let ghost all = items@;
    assert(all.subrange(0, 0) =~= Seq::<Value>::empty());
    let mut i: usize = 0;
    while i < items.len()
        invariant
            all == items@,
            all == search_items(deref_opt(body)),
            i <= all.len(),
            out@.len() == search_hits(all.subrange(0, i as int)).len(),
            forall|k: int|
                0 <= k < out@.len() ==> is_track_of(
                    #[trigger] out@[k],
                    search_hits(all.subrange(0, i as int))[k],
                ),
        decreases all.len() - i,
    {
        proof {
            let pre = all.subrange(0, i + 1);
            assert(pre.drop_last() =~= all.subrange(0, i as int));
            assert(pre.last() == all[i as int]);
        }
        match track_from_json(&items[i]) {
            Some(t) => {
                let ghost prev = out@;
                out.push(t);
                proof {
                    let hits = search_hits(all.subrange(0, i + 1));
                    assert forall|k: int| 0 <= k < out@.len() implies is_track_of(
                        #[trigger] out@[k],
                        hits[k],
                    ) by {
                        if k < prev.len() {
                            assert(out@[k] == prev[k]);
                        }
                    }
                }
            },
            None => {},
        }
        i = i + 1;
    }
    assert(all.subrange(0, all.len() as int) =~= all);
    out
}

/// The id of the first device in a device list named `name`, if that
/// device has one.
pub open spec fn device_id_of(devices: Seq<Value>, name: Seq<char>) -> Option<Seq<char>>
    decreases devices.len(),
{
    if devices.len() == 0 {
        None
    } else if field_str(devices[0], "name"@) == Some(name) {
        field_str(devices[0], "id"@)
    } else {
        device_id_of(devices.drop_first(), name)
    }
}

/// The devices of a `GET /me/player/devices` answer.
pub open spec fn device_list(body: Value) -> Seq<Value> {
    match field(body, "devices"@) {
        Some(Value::Array(items)) => items@,
        _ => Seq::empty(),
    }
}

/// The Connect device id matching `name` in a device-list answer.
pub fn device_id_in(body: &Value, name: &str) -> (r: Option<String>)
    ensures
        crate::event::opt_view(r) == device_id_of(device_list(*body), name@),
{
    let items = match body.get("devices") {
        Some(Value::Array(items)) => items,
        _ => return None,
    };
    let ghost all = items@;
    let mut i: usize = 0;
    assert(all.subrange(0, all.len() as int) =~= all);
    while i < items.len()
        invariant
            all == items@,
            all == device_list(*body),
            i <= all.len(),
            device_id_of(all, name@) == device_id_of(all.subrange(i as int, all.len() as int), name@),
        decreases all.len() - i,
    {
        let ghost rest = all.subrange(i as int, all.len() as int);
        assert(rest[0] == all[i as int]);
        assert(rest.drop_first() =~= all.subrange(i + 1, all.len() as int));
        let named = match items[i].get_str("name") {
            Some(n) => crate::text::str_eq(n.as_str(), name),
            None => false,
        };
        if named {
            return items[i].get_str("id");
        }
        i = i + 1;
    }
    assert(all.subrange(i as int, all.len() as int) =~= Seq::<Value>::empty());
    None
}

/// The access token and refresh token the player holds.
#[derive(Debug)]
pub struct Tokens {
    /// The long-lived token used to mint access tokens.
    pub refresh: String,
    /// The access token last minted, if it is still held.
    pub access: Option<String>,
    /// Monotonic milliseconds at which the access token stops being used.
    ///
    /// Not wall time: an access token's life is a duration, and measuring it
    /// against a clock that steps sideways at boot would have the room
    /// believe a fresh token was already stale.
    pub expires_at_ms: i64,
}

/// When an access token minted at `now` with a life of `expires_in_s`
/// seconds should stop being used: a minute early, and never in the past.
pub open spec fn expiry(now: int, expires_in_s: int) -> int {
    now + if expires_in_s - EXPIRY_SKEW_S > 0 {
        (expires_in_s - EXPIRY_SKEW_S) * 1000
    } else {
        0
    }
}

impl Tokens {
    /// Tokens holding only a refresh token.
    pub fn new(refresh: String) -> (r: Self)
        ensures
            r.refresh@ == refresh@,
            r.access is None,
            r.expires_at_ms == 0,
    {
        Tokens { refresh, access: None, expires_at_ms: 0 }
    }

    /// The held access token, if it is still good at `now_mono_ms`.
    pub fn cached(&self, now_mono_ms: i64) -> (r: Option<String>)
        ensures
            match self.access {
                Some(a) => if now_mono_ms < self.expires_at_ms {
                    r matches Some(t) && t@ == a@
                } else {
                    r is None
                },
                None => r is None,
            },
    {
        match &self.access {
            Some(token) => if now_mono_ms < self.expires_at_ms {
                Some(token.clone())
            } else {
                None
            },
            None => None,
        }
    }

    /// Whether a token minted at `now_mono_ms` with this life has an expiry
    /// that fits.
    pub fn expiry_fits(now_mono_ms: i64, expires_in_s: i64) -> (r: bool)
        ensures
            r == (i64::MIN <= expiry(now_mono_ms as int, expires_in_s as int) <= i64::MAX),
    {
        let life = (expires_in_s as i128) - (EXPIRY_SKEW_S as i128);
        let span = if life > 0 {
            life * 1000
        } else {
            0
        };
        let at = (now_mono_ms as i128) + span;
        i64::MIN as i128 <= at && at <= i64::MAX as i128
    }

    /// Hold a freshly minted access token. Returns the rotated refresh
    /// token, when the accounts service issued one, for the caller to
    /// persist: missing a rotation would work for an hour and then lock the
    /// room out.
    pub fn refreshed(&mut self, access: &Access, now_mono_ms: i64) -> (r: Option<String>)
        requires
            i64::MIN <= expiry(now_mono_ms as int, access.expires_in_s as int) <= i64::MAX,
        ensures
            final(self).access matches Some(a) && a@ == access.token@,
            final(self).expires_at_ms == expiry(now_mono_ms as int, access.expires_in_s as int),
            match access.refresh_token {
                Some(t) => final(self).refresh@ == t@ && (r matches Some(s) && s@ == t@),
                None => final(self).refresh@ == old(self).refresh@ && r is None,
            },
    {
        self.access = Some(access.token.clone());
        let life = (access.expires_in_s as i128) - (EXPIRY_SKEW_S as i128);
        let span = if life > 0 {
            life * 1000
        } else {
            0
        };
        self.expires_at_ms = ((now_mono_ms as i128) + span) as i64;
        match &access.refresh_token {
            Some(rotated) => {
                self.refresh = rotated.clone();
                Some(rotated.clone())
            },
            None => None,
        }
    }

    /// Drop the held access token, so the next call mints a fresh one. An
    /// expired token looks exactly like a revoked one from outside.
    pub fn forget_access(&mut self)
        ensures
            final(self).access is None,
            final(self).refresh@ == old(self).refresh@,
            final(self).expires_at_ms == old(self).expires_at_ms,
    {
        self.access = None;
    }
}

/// What to do with one HTTP answer to a call.
#[derive(Debug)]
pub enum Answer {
    /// Unauthorised, with attempts left: drop the access token and retry.
    Reauthorise,
    /// Rate limited, with attempts left: wait this many seconds and retry.
    Backoff(u64),
    /// Success with nothing to say.
    Nothing,
    /// The call failed, for this reason.
    Failed(String),
    /// Success with a body to parse.
    Body(String),
}

/// The seconds a `Retry-After` value names, as `str::parse::<u64>` reads
/// it: optional `+`, then decimal digits, fitting a `u64`.
pub open spec fn digits_value(s: Seq<char>) -> int
    decreases s.len(),
{
    if s.len() == 0 {
        0
    } else {
        digits_value(s.drop_last()) * 10 + (s.last() as int - '0' as int)
    }
}

/// Whether `s` is only decimal digits, at least one.
pub open spec fn all_digits(s: Seq<char>) -> bool {
    s.len() > 0 && forall|i: int| 0 <= i < s.len() ==> '0' <= #[trigger] s[i] <= '9'
}

/// What `str::parse::<u64>` gives for `s`.
pub open spec fn parsed_u64(s: Seq<char>) -> Option<u64> {
    let body = if s.len() > 0 && s[0] == '+' {
        s.drop_first()
    } else {
        s
    };
    if all_digits(body) && digits_value(body) <= u64::MAX {
        Some(digits_value(body) as u64)
    } else {
        None
    }
}

/// Read a decimal `u64`, as `str::parse` does.
pub fn parse_u64(s: &str) -> (r: Option<u64>)
    ensures
        r == parsed_u64(s@),
{
    let cs = crate::text::chars_of(s);
    let start: usize = if cs.len() > 0 && cs[0] == '+' {
        1
    } else {
        0
    };
    let ghost body = if s@.len() > 0 && s@[0] == '+' {
        s@.drop_first()
    } else {
        s@
    };
    assert(body =~= s@.subrange(start as int, s@.len() as int));
    if start >= cs.len() {
        return None;
    }
    let mut value: u64 = 0;
    let mut i: usize = start;
    assert(body.subrange(0, 0) =~= Seq::<char>::empty());
    while i < cs.len()
        invariant
            cs@ == s@,
            start <= i <= cs@.len(),
            body == s@.subrange(start as int, s@.len() as int),
            body == (if s@.len() > 0 && s@[0] == '+' {
                s@.drop_first()
            } else {
                s@
            }),
            value as int == digits_value(body.subrange(0, i - start)),
            forall|k: int| 0 <= k < i - start ==> '0' <= #[trigger] body[k] <= '9',
        decreases cs@.len() - i,
    {
        let c = cs[i];
        proof {
            let pre = body.subrange(0, i - start + 1);
            assert(pre.drop_last() =~= body.subrange(0, i - start));
            assert(pre.last() == c);
        }
        assert(body[i - start] == c);
        if c < '0' || c > '9' {
            assert(!all_digits(body));
            return None;
        }
        let d = (c as u32 - '0' as u32) as u64;
        if value > (u64::MAX - d) / 10 {
            proof {
                assert(value * 10 + d > u64::MAX) by (nonlinear_arith)
                    requires
                        value > (u64::MAX - d) / 10,
                        d <= 9,
                ;
                lemma_digits_grow(body, (i - start) as int);
            }
            return None;
        }
        assert(value * 10 + d <= u64::MAX) by (nonlinear_arith)
            requires
                value <= (u64::MAX - d) / 10,
                d <= 9,
        ;
        value = value * 10 + d;
        i = i + 1;
    }
    assert(body.subrange(0, i - start) =~= body);
    Some(value)
}

proof fn lemma_digits_grow(s: Seq<char>, n: int)
    requires
        0 <= n < s.len(),
        forall|k: int| 0 <= k <= n ==> '0' <= #[trigger] s[k] <= '9',
        digits_value(s.subrange(0, n)) * 10 + (s[n] as int - '0' as int) > u64::MAX,
    ensures
        !(all_digits(s) && digits_value(s) <= u64::MAX),
    decreases s.len() - n,
{
    let pre = s.subrange(0, n + 1);
    assert(pre.drop_last() =~= s.subrange(0, n));
    assert(pre.last() == s[n]);
    if all_digits(s) {
        lemma_digits_monotone(s, n + 1);
    }
}

proof fn lemma_digits_monotone(s: Seq<char>, m: int)
    requires
        0 < m <= s.len(),
        all_digits(s),
    ensures
        digits_value(s) >= digits_value(s.subrange(0, m)),
    decreases s.len() - m,
{
    if m < s.len() {
        lemma_digits_monotone(s, m + 1);
        let pre = s.subrange(0, m + 1);
        assert(pre.drop_last() =~= s.subrange(0, m));
        assert(digits_value(s.subrange(0, m)) >= 0) by {
            lemma_digits_nonneg(s.subrange(0, m));
        }
    } else {
        assert(s.subrange(0, m) =~= s);
    }
}

proof fn lemma_digits_nonneg(s: Seq<char>)
    requires
        forall|i: int| 0 <= i < s.len() ==> '0' <= #[trigger] s[i] <= '9',
    ensures
        digits_value(s) >= 0,
    decreases s.len(),
{
    if s.len() > 0 {
        lemma_digits_nonneg(s.drop_last());
        assert(s.last() == s[s.len() - 1]);
    }
}

/// How long to honour a rate limit: the `Retry-After` seconds, one when the
/// header is missing or unreadable (the documented minimum, better than
/// hammering), and never more than [`MAX_RETRY_AFTER_S`].
pub fn backoff_seconds(retry_after: Option<&str>) -> (r: u64)
    ensures
        r == ({
            let asked = match retry_after {
                Some(v) => match parsed_u64(v@) {
                    Some(n) => n,
                    None => 1,
                },
                None => 1,
            };
            if asked < MAX_RETRY_AFTER_S {
                asked
            } else {
                MAX_RETRY_AFTER_S
            }
        }),
{
    let asked = match retry_after {
        Some(v) => match parse_u64(v) {
            Some(n) => n,
            None => 1,
        },
        None => 1,
    };
    if asked < MAX_RETRY_AFTER_S {
        asked
    } else {
        MAX_RETRY_AFTER_S
    }
}

/// What the call should do with an answer of HTTP `status` on attempt
/// `attempt` (counting from one), whose body is `text` and whose
/// `Retry-After` header is `retry_after`. `status_text` is the status as
/// shown, e.g. `404 Not Found`; `method` and `path` name the call.
///
/// Unauthorised is retried once a token has been minted afresh, and a rate
/// limit after a backoff, while attempts remain; no content is the ordinary
/// answer to "what is playing" when nothing is, and to every command that
/// succeeded.
pub fn answer(
    status: u16,
    attempt: usize,
    retry_after: Option<&str>,
    status_text: &str,
    text: &str,
    method: &str,
    path: &str,
) -> (r: Answer)
    ensures
        status == 401 && attempt < MAX_ATTEMPTS ==> r is Reauthorise,
        status == 429 && attempt < MAX_ATTEMPTS ==> r == Answer::Backoff(
            backoff_seconds_spec(retry_after),
        ),
        !((status == 401 || status == 429) && attempt < MAX_ATTEMPTS) ==> {
            if status == 204 {
                r is Nothing
            } else if !(200 <= status < 300) {
                r matches Answer::Failed(msg) && msg@ == "Spotify "@ + method@ + " "@ + path@
                    + " failed ("@ + status_text@ + "): "@ + text@
            } else if trimmed(text@).len() == 0 {
                r is Nothing
            } else {
                r matches Answer::Body(b) && b@ == text@
            }
        },
{
    if status == 401 && attempt < MAX_ATTEMPTS {
        return Answer::Reauthorise;
    }
    if status == 429 && attempt < MAX_ATTEMPTS {
        return Answer::Backoff(backoff_seconds(retry_after));
    }
    if status == 204 {
        return Answer::Nothing;
    }
    if !(200 <= status && status < 300) {
        let mut msg = concat("Spotify ", method);
        msg = concat(msg.as_str(), " ");
        msg = concat(msg.as_str(), path);
        msg = concat(msg.as_str(), " failed (");
        msg = concat(msg.as_str(), status_text);
        msg = concat(msg.as_str(), "): ");
        msg = concat(msg.as_str(), text);
        return Answer::Failed(msg);
    }
    let body = trim(text);
    if body.unicode_len() == 0 {
        return Answer::Nothing;
    }
    Answer::Body(owned(text))
}

/// How long [`backoff_seconds`] waits for `retry_after`.
pub open spec fn backoff_seconds_spec(retry_after: Option<&str>) -> u64 {
    let asked = match retry_after {
        Some(v) => match parsed_u64(v@) {
            Some(n) => n,
            None => 1,
        },
        None => 1,
    };
    if asked < MAX_RETRY_AFTER_S {
        asked
    } else {
        MAX_RETRY_AFTER_S
    }
}

/// Why a call gave up after every attempt.
pub fn exhausted(method: &str, path: &str) -> (r: String)
    ensures
        r@ == "Spotify "@ + method@ + " "@ + path@ + " did not succeed in "@ + decimal(
            MAX_ATTEMPTS as nat,
        ) + " attempts"@,
{
    let mut msg = concat("Spotify ", method);
    msg = concat(msg.as_str(), " ");
    msg = concat(msg.as_str(), path);
    msg = concat(msg.as_str(), " did not succeed in ");
    push_decimal(&mut msg, MAX_ATTEMPTS as u64);
    concat(msg.as_str(), " attempts")
}

/// The body that starts exactly one track: `{"uris": [uri]}`. A list of
/// tracks rather than a context, so the source cannot carry on into tracks
/// nobody in the room chose.
pub fn play_body(uri: &str) -> (r: Value)
    ensures
        r matches Value::Object(m) && m@.len() == 1 && m@[0].0@ == "uris"@ && (m@[0].1 matches Value::Array(a)
            && a@.len() == 1 && (a@[0] matches Value::Str(u) && u@ == uri@)),
{
    let uris = vec![Value::Str(owned(uri))];
    let members = vec![(owned("uris"), Value::Array(uris))];
    Value::Object(members)
}

/// The body that moves playback to a device without starting it:
/// `{"device_ids": [device], "play": false}`.
pub fn transfer_body(device: &str) -> (r: Value)
    ensures
        r matches Value::Object(m) && m@.len() == 2 && m@[0].0@ == "device_ids"@ && (m@[0].1 matches Value::Array(a)
            && a@.len() == 1 && (a@[0] matches Value::Str(d) && d@ == device@)) && m@[1].0@
            == "play"@ && m@[1].1 == Value::Bool(false),
{
    let ids = vec![Value::Str(owned(device))];
    let members = vec![(owned("device_ids"), Value::Array(ids)), (owned("play"), Value::Bool(false))];
    Value::Object(members)
}

} // verus!
