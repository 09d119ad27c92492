//! Authorising the house Spotify account, once: the parts that are text.
//!
//! One account for the whole house, not one per person: an app in
//! development mode allows five authorised users, so per-person
//! authorisation would refuse the sixth friend through the door.
//!
//! The refresh token is kept in a file readable only by its owner and
//! **never** in the event log, which is append-only and served
//! unauthenticated on the LAN.

use vstd::prelude::*;

use crate::json::{field_i64, field_str, Value};
use crate::text::{concat, debug_quoted, debug_text, decimal, owned, push_decimal, split_words, words};

verus! {

/// What the house needs from the account, space separated: read what is
/// playing, and change it.
pub const SCOPE: &'static str = "user-read-playback-state user-modify-playback-state";

/// Where the accounts service sends the browser back to: a loopback port,
/// because loopback is the one redirect allowed without HTTPS.
pub const CALLBACK_PORT: u16 = 7374;

/// The accounts host.
pub const ACCOUNTS: &'static str = "https://accounts.spotify.com";

/// What `Url::parse_with_params` gives for a base URL and query parameters:
/// the URL serialised with the parameters form-encoded onto its query, or
/// nothing when the base does not parse.
pub uninterp spec fn url_with_query(base: Seq<char>, params: Seq<(Seq<char>, Seq<char>)>) -> Option<Seq<char>>;

/// What `Url::parse` followed by `query_pairs` gives for a URL: its query's
/// pairs, form-decoded, in order; nothing when the URL does not parse.
pub uninterp spec fn query_pairs_of(url: Seq<char>) -> Option<Seq<(Seq<char>, Seq<char>)>>;

/// The model of a list of string pairs.
pub open spec fn pair_views(v: Seq<(String, String)>) -> Seq<(Seq<char>, Seq<char>)> {
    v.map_values(|p: (String, String)| (p.0@, p.1@))
}

/// `base` with `params` added to its query.
///
/// Trusted: calls `reqwest::Url::parse_with_params` (the `url` crate's),
/// which parses `base` and appends each pair, form-encoded, to the query,
/// and serialises the result. The result is named, not stated; the error's
/// text is not stated either.
#[verifier::external_body]
fn url_with_params(base: &str, params: &Vec<(String, String)>) -> (r: Result<String, String>)
    ensures
        match r {
            Ok(u) => url_with_query(base@, pair_views(params@)) == Some(u@),
            Err(_) => url_with_query(base@, pair_views(params@)) is None,
        },
{
    match reqwest::Url::parse_with_params(base, params) {
        Ok(url) => Ok(url.into()),
        Err(error) => Err(error.to_string()),
    }
}

/// The query pairs of `url`.
///
/// Trusted: calls `reqwest::Url::parse` and then `query_pairs`, which
/// form-decodes the query into key/value pairs in order. The result is
/// named, not stated.
#[verifier::external_body]
fn url_query_pairs(url: &str) -> (r: Option<Vec<(String, String)>>)
    ensures
        match r {
            Some(p) => query_pairs_of(url@) == Some(pair_views(p@)),
            None => query_pairs_of(url@) is None,
        },
{
    match reqwest::Url::parse(url) {
        Ok(parsed) => Some(
            parsed.query_pairs().map(|(k, v)| (k.into_owned(), v.into_owned())).collect(),
        ),
        Err(_) => None,
    }
}

/// The redirect URI to register in the dashboard.
pub open spec fn redirect_text() -> Seq<char> {
    "http://127.0.0.1:"@ + decimal(CALLBACK_PORT as nat) + "/callback"@
}

/// The redirect URI to register in the dashboard.
pub fn redirect_uri() -> (r: String)
    ensures
        r@ == redirect_text(),
{
    let mut out = owned("http://127.0.0.1:");
    push_decimal(&mut out, CALLBACK_PORT as u64);
    let r = concat(out.as_str(), "/callback");
    r
}

/// The parameters of an authorisation request.
pub open spec fn authorize_params(
    client_id: Seq<char>,
    redirect: Seq<char>,
    state: Seq<char>,
) -> Seq<(Seq<char>, Seq<char>)> {
    seq![
        ("client_id"@, client_id),
        ("response_type"@, "code"@),
        ("redirect_uri"@, redirect),
        ("scope"@, SCOPE@),
        ("state"@, state),
    ]
}

/// The URL a person opens to grant access.
pub fn authorize_url(accounts: &str, client_id: &str, redirect: &str, state: &str) -> (r: Result<
    String,
    String,
>)
    ensures
        match url_with_query(accounts@ + "/authorize"@, authorize_params(client_id@, redirect@, state@)) {
            Some(u) => r matches Ok(s) && s@ == u,
            None => r is Err,
        },
{
    let base = concat(accounts, "/authorize");
    let params = vec![
        (owned("client_id"), owned(client_id)),
        (owned("response_type"), owned("code")),
        (owned("redirect_uri"), owned(redirect)),
        (owned("scope"), owned(SCOPE)),
        (owned("state"), owned(state)),
    ];
    assert(pair_views(params@) =~= authorize_params(client_id@, redirect@, state@));
    url_with_params(base.as_str(), &params)
}

/// The value of the last pair named `key`, as a query read left to right
/// keeps it.
pub open spec fn last_value(pairs: Seq<(Seq<char>, Seq<char>)>, key: Seq<char>) -> Option<Seq<char>>
    decreases pairs.len(),
{
    if pairs.len() == 0 {
        None
    } else if pairs.last().0 == key {
        Some(pairs.last().1)
    } else {
        last_value(pairs.drop_last(), key)
    }
}

/// What a callback's query pairs say: a refusal, a forged or stale
/// callback, a missing code, or the code.
pub open spec fn callback_code(pairs: Seq<(Seq<char>, Seq<char>)>, expected_state: Seq<char>) -> Result<
    Seq<char>,
    Seq<char>,
> {
    match last_value(pairs, "error"@) {
        Some(e) => Err("Spotify refused the authorisation: "@ + e),
        None => if last_value(pairs, "state"@) != Some(expected_state) {
            Err("the callback's state did not match the one we sent; ignoring it"@)
        } else {
            match last_value(pairs, "code"@) {
                Some(c) => Ok(c),
                None => Err("the callback carried no authorisation code"@),
            }
        },
    }
}

/// The model of a result of strings.
pub open spec fn result_view(r: Result<String, String>) -> Result<Seq<char>, Seq<char>> {
    match r {
        Ok(s) => Ok(s@),
        Err(e) => Err(e@),
    }
}

/// Pull the authorisation code out of a callback's decoded query pairs.
///
/// The `state` check is what stops a link someone else crafted from
/// completing *this* flow and binding the room to an account nobody here
/// chose.
pub fn code_from_pairs(pairs: &Vec<(String, String)>, expected_state: &str) -> (r: Result<String, String>)
    ensures
        result_view(r) == callback_code(pair_views(pairs@), expected_state@),
{
    let ghost all = pair_views(pairs@);
    let mut code: Option<String> = None;
    let mut state: Option<String> = None;
    let mut error: Option<String> = None;
    let mut i: usize = 0;
    assert(all.subrange(0, 0) =~= Seq::<(Seq<char>, Seq<char>)>::empty());
    while i < pairs.len()
        invariant
            all == pair_views(pairs@),
            i <= pairs@.len(),
            crate::event::opt_view(code) == last_value(all.subrange(0, i as int), "code"@),
            crate::event::opt_view(state) == last_value(all.subrange(0, i as int), "state"@),
            crate::event::opt_view(error) == last_value(all.subrange(0, i as int), "error"@),
        decreases pairs@.len() - i,
    {
        proof {
            let pre = all.subrange(0, i + 1);
            assert(pre.drop_last() =~= all.subrange(0, i as int));
            assert(pre.last() == all[i as int]);
            reveal_strlit("code");
            reveal_strlit("state");
            reveal_strlit("error");
            assert("code"@.len() != "state"@.len());
            assert("code"@.len() != "error"@.len());
            assert("state"@[0] != "error"@[0]);
        }
        let key = pairs[i].0.as_str();
        let value = &pairs[i].1;
        if crate::text::str_eq(key, "code") {
            code = Some(value.clone());
        } else if crate::text::str_eq(key, "state") {
            state = Some(value.clone());
        } else if crate::text::str_eq(key, "error") {
            error = Some(value.clone());
        }
        i = i + 1;
    }
    assert(all.subrange(0, pairs@.len() as int) =~= all);
    if let Some(error) = error {
        return Err(concat("Spotify refused the authorisation: ", error.as_str()));
    }
    let matches = match &state {
        Some(s) => crate::text::str_eq(s.as_str(), expected_state),
        None => false,
    };
    if !matches {
        return Err(owned("the callback's state did not match the one we sent; ignoring it"));
    }
    match code {
        Some(c) => Ok(c),
        None => Err(owned("the callback carried no authorisation code")),
    }
}

/// Pull the authorisation code out of the callback's query string.
pub fn code_from_query(query: &str, expected_state: &str) -> (r: Result<String, String>)
    ensures
        match query_pairs_of("http://127.0.0.1/?"@ + query@) {
            Some(pairs) => result_view(r) == callback_code(pairs, expected_state@),
            None => result_view(r) == Err::<Seq<char>, Seq<char>>(
                "the callback query was not parseable"@,
            ),
        },
{
    let url = concat("http://127.0.0.1/?", query);
    match url_query_pairs(url.as_str()) {
        Some(pairs) => code_from_pairs(&pairs, expected_state),
        None => Err(owned("the callback query was not parseable")),
    }
}

/// The request target of a raw HTTP request line, e.g. the middle of
/// `GET /callback?code=x HTTP/1.1`.
pub fn target_from_request_line(line: &str) -> (r: Result<String, String>)
    ensures
        words(line@).len() > 1 ==> result_view(r) == Ok::<Seq<char>, Seq<char>>(words(line@)[1]),
        words(line@).len() <= 1 ==> result_view(r) == Err::<Seq<char>, Seq<char>>(
            "malformed HTTP request line: "@ + debug_text(line@),
        ),
{
    let parts = split_words(line);
    if parts.len() > 1 {
        Ok(parts[1].clone())
    } else {
        let shown = debug_quoted(line);
        Err(concat("malformed HTTP request line: ", shown.as_str()))
    }
}

/// The query of a request target: what follows its first `?`, or nothing.
pub fn query_of_target(target: &str) -> (r: String)
    ensures
        (forall|i: int| 0 <= i < target@.len() ==> target@[i] != '?') ==> r@.len() == 0,
        forall|i: int|
            0 <= i < target@.len() && target@[i] == '?' && (forall|j: int| 0 <= j < i ==> target@[j]
                != '?') ==> r@ == target@.subrange(i + 1, target@.len() as int),
{
    let cs = crate::text::chars_of(target);
    let mut i: usize = 0;
    while i < cs.len() && cs[i] != '?'
        invariant
            cs@ == target@,
            i <= cs@.len(),
            forall|j: int| 0 <= j < i ==> target@[j] != '?',
        decreases cs@.len() - i,
    {
        i = i + 1;
    }
    if i == cs.len() {
        return String::new();
    }
    let mut out: Vec<char> = Vec::new();
    let mut k: usize = i + 1;
    while k < cs.len()
        invariant
            cs@ == target@,
            i < cs@.len(),
            i + 1 <= k <= cs@.len(),
            out@ == target@.subrange(i + 1, k as int),
        decreases cs@.len() - k,
    {
        out.push(cs[k]);
        k = k + 1;
        assert(out@ =~= target@.subrange(i + 1, k as int));
    }
    crate::text::string_from_chars(out.as_slice())
}

/// What is kept on disk between runs.
#[derive(Debug, Clone, PartialEq, Eq)]
pub struct StoredTokens {
    /// The long-lived token used to mint access tokens.
    pub refresh_token: String,
}

/// A freshly minted access token.
#[derive(Debug, Clone)]
pub struct Access {
    /// The bearer token for API calls.
    pub token: String,
    /// Seconds until it expires.
    pub expires_in_s: i64,
    /// The accounts service occasionally issues a replacement refresh token.
    pub refresh_token: Option<String>,
}

/// Read a token response.
///
/// A missing lifetime defaults to the documented hour rather than reading
/// as "expires immediately" and refreshing on every call.
pub fn access_from_json(value: &Value) -> (r: Result<Access, String>)
    ensures
        match field_str(*value, "access_token"@) {
            Some(t) => r matches Ok(a) && a.token@ == t && a.expires_in_s == match field_i64(
                *value,
                "expires_in"@,
            ) {
                Some(n) => n,
                None => 3600,
            } && crate::event::opt_view(a.refresh_token) == field_str(*value, "refresh_token"@),
            None => r matches Err(e) && e@ == "token response carried no access_token"@,
        },
{
    let token = match value.get_str("access_token") {
        Some(t) => t,
        None => return Err(owned("token response carried no access_token")),
    };
    let expires_in_s = match value.get_i64("expires_in") {
        Some(n) => n,
        None => 3600,
    };
    let refresh_token = value.get_str("refresh_token");
    Ok(Access { token, expires_in_s, refresh_token })
}

/// What to keep from a code exchange: a refresh token is required, or the
/// room cannot stay authorised.
pub fn tokens_from_exchange(access: Access) -> (r: Result<(StoredTokens, Access), String>)
    ensures
        match access.refresh_token {
            Some(t) => r matches Ok((stored, a)) && stored.refresh_token@ == t@ && a.token@
                == access.token@ && a.expires_in_s == access.expires_in_s,
            None => r matches Err(e) && e@
                == "Spotify returned no refresh token; cannot stay authorised"@,
        },
{
    match &access.refresh_token {
        Some(t) => {
            let stored = StoredTokens { refresh_token: t.clone() };
            Ok((stored, access))
        },
        None => Err(owned("Spotify returned no refresh token; cannot stay authorised")),
    }
}

} // verus!
