//! The decisions of the rqbit HTTP client: its settings, when to retry a
//! request, how a response status becomes an error, how the bytes of a
//! ranged read are cut, and how a torrent listing is assembled.
use crate::api::types::{ListTorrentsResult, PieceBitfield, TorrentInfo, TorrentSummary};
use crate::config::{url_error, url_parse_error, Config};
use crate::error::RqbitFuseError;
use crate::metrics::{wrap_add, Metrics};
use crate::text::{concat2, concat3, decimal, parse_u64, parse_usize, spec_parse_unsigned, u64_to_decimal};
use vstd::prelude::*;

verus! {

/// Retries of a request after its first attempt.
pub const DEFAULT_MAX_RETRIES: u32 = 3;

/// The base of the delay between attempts, in milliseconds.
pub const DEFAULT_RETRY_DELAY_MS: u64 = 500;

/// How long a torrent listing stays fresh, in milliseconds.
pub const LIST_CACHE_TTL_MS: u64 = 30000;

/// What a client is made with: the server, the retry policy and the
/// credentials for HTTP Basic Auth.
#[derive(Debug)]
pub struct ClientSettings {
    pub base_url: String,
    pub max_retries: u32,
    pub retry_delay_ms: u64,
    pub auth_credentials: Option<(String, String)>,
}

/// The credentials as plain text.
pub open spec fn credentials_view(c: Option<(String, String)>) -> Option<(Seq<char>, Seq<char>)> {
    match c {
        Some((u, p)) => Some((u@, p@)),
        None => None,
    }
}

impl ClientSettings {
    /// Settings for a client of `base_url`, which must parse as a URL
    /// (else an I/O error naming the parse error).
    pub fn with_config(
        base_url: String,
        max_retries: u32,
        retry_delay_ms: u64,
        auth_credentials: Option<(String, String)>,
    ) -> (r: Result<ClientSettings, RqbitFuseError>)
        ensures
            url_parse_error(base_url@) is Some <==> r is Err,
            r matches Err(e) ==> (e matches RqbitFuseError::IoError(m) && m@ == "Invalid URL: "@
                + url_parse_error(base_url@)->0),
            r matches Ok(s) ==> s.base_url@ == base_url@ && s.max_retries == max_retries
                && s.retry_delay_ms == retry_delay_ms && credentials_view(s.auth_credentials)
                == credentials_view(auth_credentials),
    {
        match url_error(base_url.as_str()) {
            Some(e) => Err(RqbitFuseError::IoError(concat2("Invalid URL: ", e.as_str()))),
            None => Ok(ClientSettings { base_url, max_retries, retry_delay_ms, auth_credentials }),
        }
    }

    /// Settings with the default retry policy and no credentials.
    pub fn new(base_url: String) -> (r: Result<ClientSettings, RqbitFuseError>)
        ensures
            url_parse_error(base_url@) is Some <==> r is Err,
            r matches Ok(s) ==> s.base_url@ == base_url@ && s.max_retries == DEFAULT_MAX_RETRIES
                && s.retry_delay_ms == DEFAULT_RETRY_DELAY_MS && s.auth_credentials is None,
    {
        Self::with_config(base_url, DEFAULT_MAX_RETRIES, DEFAULT_RETRY_DELAY_MS, None)
    }

    /// Settings with the default retry policy and credentials.
    pub fn with_auth(base_url: String, username: String, password: String) -> (r: Result<ClientSettings, RqbitFuseError>)
        ensures
            url_parse_error(base_url@) is Some <==> r is Err,
            r matches Ok(s) ==> s.base_url@ == base_url@ && s.max_retries == DEFAULT_MAX_RETRIES
                && s.retry_delay_ms == DEFAULT_RETRY_DELAY_MS && credentials_view(s.auth_credentials)
                == Some((username@, password@)),
    {
        Self::with_config(base_url, DEFAULT_MAX_RETRIES, DEFAULT_RETRY_DELAY_MS, Some((username, password)))
    }
}

/// The settings for the client of a configuration: its URL, the default
/// retry policy, and credentials when both a user name and a password are
/// configured.
pub fn create_api_client(config: &Config) -> (r: Result<ClientSettings, RqbitFuseError>)
    ensures
        url_parse_error(config.api_url@) is Some <==> r is Err,
        r matches Ok(s) ==> s.base_url@ == config.api_url@ && s.max_retries == DEFAULT_MAX_RETRIES
            && s.retry_delay_ms == DEFAULT_RETRY_DELAY_MS && credentials_view(s.auth_credentials) == (
        match (config.api_username, config.api_password) {
            (Some(u), Some(p)) => Some((u@, p@)),
            _ => None,
        }),
{
    let url = String::from_str(config.api_url.as_str());
    match (&config.api_username, &config.api_password) {
        (Some(username), Some(password)) => ClientSettings::with_config(
            url,
            DEFAULT_MAX_RETRIES,
            DEFAULT_RETRY_DELAY_MS,
            Some((String::from_str(username.as_str()), String::from_str(password.as_str()))),
        ),
        _ => ClientSettings::with_config(url, DEFAULT_MAX_RETRIES, DEFAULT_RETRY_DELAY_MS, None),
    }
}

/// What one attempt of a request gave: a response with its status and
/// its `retry-after` header (when it is text), or a failure.
#[derive(Debug)]
pub enum AttemptOutcome {
    Response { status: u16, retry_after: Option<String> },
    Failed(RqbitFuseError),
}

/// How long to wait before the next attempt.
#[derive(Debug, Clone, Copy, PartialEq, Eq, Structural)]
pub enum RetryDelay {
    /// The seconds a `retry-after` header asked for
    Seconds(u64),
    /// Milliseconds of back-off
    Millis(u64),
}

/// What to do after an attempt: wait and try again, or stop with the
/// response (`Ok`) or the error.
#[derive(Debug)]
pub enum RetryDecision {
    Retry(RetryDelay),
    Finish(Result<(), RqbitFuseError>),
}

/// Whether a status is a server error (5xx).
pub open spec fn is_server_error(status: u16) -> bool {
    500 <= status && status <= 599
}

/// The decision after attempt `attempt` (counting from 0) of at most
/// `max_retries + 1`: a server error or a transient failure is retried
/// after an exponential back-off, `retry_delay_ms * 2^attempt` (the k-th
/// retry waits `retry_delay_ms * 2^(k-1)`); a rate limit (429) after the
/// seconds of its `retry-after` header when it holds a number, else after
/// the same back-off; the last attempt, and every other outcome, stops.
pub open spec fn retry_decision_spec(attempt: u32, max_retries: u32, retry_delay_ms: u64, outcome: AttemptOutcome) -> RetryDecision {
    let backoff = RetryDelay::Millis(backoff_ms(retry_delay_ms, attempt) as u64);
    match outcome {
        AttemptOutcome::Response { status, retry_after } => if is_server_error(status) && attempt < max_retries {
            RetryDecision::Retry(backoff)
        } else if status == 429 && attempt < max_retries {
            match retry_after {
                Some(h) => match spec_parse_unsigned(h@, u64::MAX as nat) {
                    Some(secs) => RetryDecision::Retry(RetryDelay::Seconds(secs as u64)),
                    None => RetryDecision::Retry(backoff),
                },
                None => RetryDecision::Retry(backoff),
            }
        } else {
            RetryDecision::Finish(Ok(()))
        },
        AttemptOutcome::Failed(e) => if e.spec_is_transient() && attempt < max_retries {
            RetryDecision::Retry(backoff)
        } else {
            RetryDecision::Finish(Err(e))
        },
    }
}

/// The back-off before the retry that follows attempt `attempt` (counting
/// from 0): `retry_delay_ms` doubled `attempt` times.
pub open spec fn backoff_ms(retry_delay_ms: u64, attempt: u32) -> nat {
    (retry_delay_ms as nat) * vstd::arithmetic::power2::pow2(attempt as nat)
}

/// Computes [`backoff_ms`] by doubling.
fn exponential_backoff(retry_delay_ms: u64, attempt: u32) -> (r: u64)
    requires
        backoff_ms(retry_delay_ms, attempt) <= u64::MAX,
    ensures
        r == backoff_ms(retry_delay_ms, attempt),
{
    let mut d: u64 = retry_delay_ms;
    let mut i: u32 = 0;
    proof {
        vstd::arithmetic::power2::lemma2_to64();
    }
    while i < attempt
        invariant
            i <= attempt,
            d == retry_delay_ms * vstd::arithmetic::power2::pow2(i as nat),
            retry_delay_ms * vstd::arithmetic::power2::pow2(attempt as nat) <= u64::MAX,
        decreases attempt - i,
    {
        proof {
            vstd::arithmetic::power2::lemma_pow2_unfold((i + 1) as nat);
            if i + 1 < attempt {
                vstd::arithmetic::power2::lemma_pow2_strictly_increases((i + 1) as nat, attempt as nat);
            }
            vstd::arithmetic::mul::lemma_mul_inequality(
                vstd::arithmetic::power2::pow2((i + 1) as nat) as int,
                vstd::arithmetic::power2::pow2(attempt as nat) as int,
                retry_delay_ms as int,
            );
            vstd::arithmetic::mul::lemma_mul_is_commutative(
                retry_delay_ms as int,
                vstd::arithmetic::power2::pow2((i + 1) as nat) as int,
            );
            vstd::arithmetic::mul::lemma_mul_is_commutative(
                retry_delay_ms as int,
                vstd::arithmetic::power2::pow2(attempt as nat) as int,
            );
            vstd::arithmetic::mul::lemma_mul_is_associative(
                retry_delay_ms as int,
                vstd::arithmetic::power2::pow2(i as nat) as int,
                2,
            );
        }
        d = d * 2;
        i = i + 1;
    }
    d
}

/// Decides what follows an attempt of a request: see
/// [`retry_decision_spec`].
pub fn retry_decision(attempt: u32, max_retries: u32, retry_delay_ms: u64, outcome: AttemptOutcome) -> (r: RetryDecision)
    requires
        backoff_ms(retry_delay_ms, attempt) <= u64::MAX,
    ensures
        r == retry_decision_spec(attempt, max_retries, retry_delay_ms, outcome),
{
    let backoff = RetryDelay::Millis(exponential_backoff(retry_delay_ms, attempt));
    match outcome {
        AttemptOutcome::Response { status, retry_after } => {
            if 500 <= status && status <= 599 && attempt < max_retries {
                RetryDecision::Retry(backoff)
            } else if status == 429 && attempt < max_retries {
                match retry_after {
                    Some(h) => match parse_u64(h.as_str()) {
                        Some(secs) => RetryDecision::Retry(RetryDelay::Seconds(secs)),
                        None => RetryDecision::Retry(backoff),
                    },
                    None => RetryDecision::Retry(backoff),
                }
            } else {
                RetryDecision::Finish(Ok(()))
            }
        },
        AttemptOutcome::Failed(e) => {
            if e.is_transient() && attempt < max_retries {
                RetryDecision::Retry(backoff)
            } else {
                RetryDecision::Finish(Err(e))
            }
        },
    }
}

/// Whether the back-off of attempt `attempt` fits in 64 bits.
fn backoff_fits(retry_delay_ms: u64, attempt: u32) -> (r: bool)
    ensures
        r == (backoff_ms(retry_delay_ms, attempt) <= u64::MAX),
{
    if retry_delay_ms == 0 {
        return true;
    }
    let mut d: u64 = retry_delay_ms;
    let mut i: u32 = 0;
    proof {
        vstd::arithmetic::power2::lemma2_to64();
    }
    while i < attempt
        invariant
            i <= attempt,
            d == retry_delay_ms * vstd::arithmetic::power2::pow2(i as nat),
        decreases attempt - i,
    {
        proof {
            vstd::arithmetic::power2::lemma_pow2_unfold((i + 1) as nat);
        }
        if d > u64::MAX / 2 {
            proof {
                let rest = (attempt - i) as nat;
                vstd::arithmetic::power2::lemma_pow2_adds(i as nat, rest);
                vstd::arithmetic::power2::lemma_pow2_unfold(rest);
                vstd::arithmetic::power2::lemma_pow2_pos((rest - 1) as nat);
                let p = vstd::arithmetic::power2::pow2(rest);
                assert(p >= 2);
                assert(retry_delay_ms * vstd::arithmetic::power2::pow2(attempt as nat) == d * p) by (nonlinear_arith)
                    requires
                        d == retry_delay_ms * vstd::arithmetic::power2::pow2(i as nat),
                        vstd::arithmetic::power2::pow2(attempt as nat) == vstd::arithmetic::power2::pow2(i as nat) * p,
                ;
                assert(d * p >= d * 2) by (nonlinear_arith)
                    requires
                        p >= 2,
                        d >= 0,
                ;
            }
            return false;
        }
        proof {
            assert(d * 2 == retry_delay_ms * vstd::arithmetic::power2::pow2((i + 1) as nat)) by (nonlinear_arith)
                requires
                    d == retry_delay_ms * vstd::arithmetic::power2::pow2(i as nat),
                    vstd::arithmetic::power2::pow2((i + 1) as nat) == 2 * vstd::arithmetic::power2::pow2(i as nat),
            ;
        }
        d = d * 2;
        i = i + 1;
    }
    true
}

/// The decision after an attempt, as [`retry_decision`] gives it where the
/// back-off fits in 64 bits; where it does not, the attempt's outcome is
/// final: the response, or the error.
pub fn retry_step(attempt: u32, max_retries: u32, retry_delay_ms: u64, outcome: AttemptOutcome) -> (r: RetryDecision)
    ensures
        backoff_ms(retry_delay_ms, attempt) <= u64::MAX ==> r == retry_decision_spec(attempt, max_retries, retry_delay_ms, outcome),
        backoff_ms(retry_delay_ms, attempt) > u64::MAX ==> r == (match outcome {
            AttemptOutcome::Response { .. } => RetryDecision::Finish(Ok(())),
            AttemptOutcome::Failed(e) => RetryDecision::Finish(Err(e)),
        }),
{
    if backoff_fits(retry_delay_ms, attempt) {
        retry_decision(attempt, max_retries, retry_delay_ms, outcome)
    } else {
        match outcome {
            AttemptOutcome::Response { .. } => RetryDecision::Finish(Ok(())),
            AttemptOutcome::Failed(e) => RetryDecision::Finish(Err(e)),
        }
    }
}

/// Whether a status counts as success for the API: 2xx.
pub open spec fn is_success_status(status: u16) -> bool {
    200 <= status && status <= 299
}

/// Checks a response's status, `body` being its text or the text of the
/// failure to read it: success and 206 pass; 401 is a permission error
/// (`Authentication failed: ` and the body, or `Invalid credentials` when
/// the body is empty or unreadable); another status is an API error with
/// the body, or a network error when the body could not be read.
pub fn check_response(status: u16, body: Result<String, String>) -> (r: Result<(), RqbitFuseError>)
    ensures
        is_success_status(status) || status == 206 ==> r is Ok,
        !(is_success_status(status) || status == 206) && status == 401 ==> (r matches Err(
            RqbitFuseError::PermissionDenied(m),
        ) && m@ == "Authentication failed: "@ + (match body {
            Ok(t) => if t@.len() == 0 { "Invalid credentials"@ } else { t@ },
            Err(_) => "Invalid credentials"@,
        })),
        !(is_success_status(status) || status == 206) && status != 401 ==> match body {
            Ok(t) => r matches Err(RqbitFuseError::ApiError { status: s, message }) && s == status && message@ == t@,
            Err(e) => r matches Err(RqbitFuseError::NetworkError(m)) && m@ == "Failed to read error response body: "@ + e@,
        },
{
    if (200 <= status && status <= 299) || status == 206 {
        Ok(())
    } else if status == 401 {
        let message = match body {
            Ok(t) => t,
            Err(_) => String::new(),
        };
        let shown = if message.as_str().is_empty() {
            String::from_str("Invalid credentials")
        } else {
            message
        };
        Err(RqbitFuseError::PermissionDenied(concat2("Authentication failed: ", shown.as_str())))
    } else {
        match body {
            Ok(message) => Err(RqbitFuseError::ApiError { status, message }),
            Err(e) => Err(RqbitFuseError::NetworkError(concat2("Failed to read error response body: ", e.as_str()))),
        }
    }
}

/// A torrent's missing page (404) becomes "not found"; other errors stay.
pub fn torrent_error(id: u64, e: RqbitFuseError) -> (r: RqbitFuseError)
    ensures
        (e matches RqbitFuseError::ApiError { status, .. } && status == 404) ==> (r matches RqbitFuseError::NotFound(m)
            && m@ == "torrent "@ + decimal(id as nat)),
        !(e matches RqbitFuseError::ApiError { status, .. } && status == 404) ==> r == e,
{
    match e {
        RqbitFuseError::ApiError { status: 404, .. } => RqbitFuseError::NotFound(torrent_label(id)),
        _ => e,
    }
}

/// `torrent <id>`.
fn torrent_label(id: u64) -> (r: String)
    ensures
        r@ == "torrent "@ + decimal(id as nat),
{
    let n = u64_to_decimal(id);
    concat2("torrent ", n.as_str())
}

/// The error for a torrent that the server does not know.
pub fn torrent_not_found(id: u64) -> (r: RqbitFuseError)
    ensures
        r matches RqbitFuseError::NotFound(m) && m@ == "torrent "@ + decimal(id as nat),
{
    RqbitFuseError::NotFound(torrent_label(id))
}

/// The failures of a listing, in order: the id and name of each torrent
/// whose details could not be fetched, with the error.
pub open spec fn failure_list(
    names: Seq<TorrentSummary>,
    all: Seq<Result<TorrentInfo, RqbitFuseError>>,
) -> Seq<(u64, Seq<char>, RqbitFuseError)>
    decreases all.len(),
{
    if all.len() == 0 || names.len() < all.len() {
        Seq::empty()
    } else {
        let n = all.len() - 1;
        let rest = failure_list(names.subrange(0, n), all.subrange(0, n));
        match all[n] {
            Err(e) => rest.push((names[n].id, names[n].name@, e)),
            Ok(_) => rest,
        }
    }
}

/// A failure as plain values.
pub open spec fn failure_view(e: (u64, String, RqbitFuseError)) -> (u64, Seq<char>, RqbitFuseError) {
    (e.0, e.1@, e.2)
}

/// Assembles a torrent listing: each listed torrent whose details could be
/// fetched (`details[i]`) is kept; the others are reported with their id,
/// name and error.
pub fn collect_torrent_details(
    summaries: Vec<TorrentSummary>,
    details: Vec<Result<TorrentInfo, RqbitFuseError>>,
) -> (r: ListTorrentsResult)
    requires
        summaries@.len() == details@.len(),
    ensures
        r.torrents@.len() + r.errors@.len() == summaries@.len(),
        r.torrents@ == details@.filter(|d: Result<TorrentInfo, RqbitFuseError>| d is Ok).map_values(
            |d: Result<TorrentInfo, RqbitFuseError>| d->Ok_0,
        ),
        r.errors@.map_values(|e: (u64, String, RqbitFuseError)| failure_view(e)) == failure_list(summaries@, details@),
{
    let mut torrents: Vec<TorrentInfo> = Vec::new();
    let mut errors: Vec<(u64, String, RqbitFuseError)> = Vec::new();
    let ghost all = details@;
    let ghost names = summaries@;
    let mut pending_s = summaries;
    let mut pending_d = details;
    let mut rev_s: Vec<TorrentSummary> = Vec::new();
    let mut rev_d: Vec<Result<TorrentInfo, RqbitFuseError>> = Vec::new();
    while pending_d.len() > 0
        invariant
            pending_d@.len() == pending_s@.len(),
            pending_d@ == all.subrange(0, pending_d@.len() as int),
            pending_s@ == names.subrange(0, pending_s@.len() as int),
            all.len() == names.len(),
            rev_d@.len() == rev_s@.len(),
            rev_d@.len() + pending_d@.len() == all.len(),
            forall|k: int| 0 <= k < rev_d@.len() ==> #[trigger] rev_d@[k] == all[all.len() - 1 - k] && rev_s@[k] == names[all.len() - 1 - k],
        decreases pending_d.len(),
    {
        let d = pending_d.pop().unwrap();
        let sm = pending_s.pop().unwrap();
        rev_d.push(d);
        rev_s.push(sm);
    }
    let total = rev_d.len();
    let ghost n = total as int;
    let mut k: usize = 0;
    while rev_d.len() > 0
        invariant
            rev_d@.len() == rev_s@.len(),
            rev_d@.len() + k == n,
            n == all.len(),
            n <= usize::MAX,
            n == names.len(),
            forall|q: int| 0 <= q < rev_d@.len() ==> #[trigger] rev_d@[q] == all[n - 1 - q] && rev_s@[q] == names[n - 1 - q],
            torrents@ == all.subrange(0, k as int).filter(|d: Result<TorrentInfo, RqbitFuseError>| d is Ok).map_values(
                |d: Result<TorrentInfo, RqbitFuseError>| d->Ok_0,
            ),
            torrents@.len() + errors@.len() == k,
            errors@.map_values(|e: (u64, String, RqbitFuseError)| failure_view(e)) == failure_list(names.subrange(0, k as int), all.subrange(0, k as int)),
        decreases rev_d.len(),
    {
        let last = rev_d.len() - 1;
        assert(rev_d@[last as int] == all[k as int]);
        assert(rev_s@[last as int] == names[k as int]);
        let d = rev_d.pop().unwrap();
        let sm = rev_s.pop().unwrap();
        let ghost prefix = all.subrange(0, k as int);
        assert(all.subrange(0, k + 1) =~= prefix.push(d));
        proof {
            prefix.lemma_filter_push(d, |d: Result<TorrentInfo, RqbitFuseError>| d is Ok);
        }
        let ghost old_errors = errors@;
        proof {
            assert(names.subrange(0, k + 1).subrange(0, k as int) =~= names.subrange(0, k as int));
            assert(all.subrange(0, k + 1).subrange(0, k as int) =~= all.subrange(0, k as int));
        }
        match d {
            Ok(info) => {
                torrents.push(info);
                proof {
                    assert(torrents@ =~= all.subrange(0, k + 1).filter(|d: Result<TorrentInfo, RqbitFuseError>| d is Ok).map_values(
                        |d: Result<TorrentInfo, RqbitFuseError>| d->Ok_0,
                    ));
                }
            },
            Err(e) => {
                errors.push((sm.id, sm.name, e));
                proof {
                    assert(errors@.map_values(|e: (u64, String, RqbitFuseError)| failure_view(e)) =~= old_errors.map_values(
                        |e: (u64, String, RqbitFuseError)| failure_view(e),
                    ).push((names[k as int].id, names[k as int].name@, all[k as int]->Err_0)));
                    assert(all.subrange(0, k + 1).filter(|d: Result<TorrentInfo, RqbitFuseError>| d is Ok) =~= prefix.filter(
                        |d: Result<TorrentInfo, RqbitFuseError>| d is Ok,
                    ));
                    let i = errors@.len() - 1;
                    assert(all[k as int] is Err && errors@[i].0 == names[k as int].id);
                }
            },
        }
        k = k + 1;
    }
    assert(all.subrange(0, n) =~= all);
    assert(names.subrange(0, n) =~= names);
    let r = ListTorrentsResult { torrents, errors };
    r
}

/// Whether a listing cached at `cached_at_ms` is still fresh at `now_ms`.
pub fn listing_is_fresh(cached_at_ms: u64, now_ms: u64, ttl_ms: u64) -> (r: bool)
    ensures
        r == (now_ms >= cached_at_ms && now_ms - cached_at_ms < ttl_ms),
{
    now_ms >= cached_at_ms && now_ms - cached_at_ms < ttl_ms
}

/// The torrent listing kept between listings, with the time (ms since the
/// Unix epoch) at which it was made.
pub struct ListingCache {
    entry: Option<(u64, ListTorrentsResult)>,
}

impl ListingCache {
    /// What the cache holds: the time of the listing and the listing.
    pub closed spec fn held(&self) -> Option<(u64, ListTorrentsResult)> {
        self.entry
    }

    /// An empty cache.
    pub fn new() -> (c: Self)
        ensures
            c.held() is None,
    {
        ListingCache { entry: None }
    }

    /// The listing held, while it is fresh at `now_ms`: made at most
    /// `ttl_ms` earlier (not later than now). A stale listing is not given.
    pub fn lookup(&self, now_ms: u64, ttl_ms: u64) -> (r: Option<&ListTorrentsResult>)
        ensures
            match self.held() {
                Some((at, listing)) => if now_ms >= at && now_ms - at < ttl_ms {
                    r matches Some(l) && *l == listing
                } else {
                    r is None
                },
                None => r is None,
            },
    {
        match &self.entry {
            Some((at, listing)) => {
                if listing_is_fresh(*at, now_ms, ttl_ms) {
                    Some(listing)
                } else {
                    None
                }
            },
            None => None,
        }
    }

    /// As [`ListingCache::lookup`], counting a listing given as a cache hit
    /// and none as a cache miss in `metrics`.
    pub fn lookup_counted(&self, now_ms: u64, ttl_ms: u64, metrics: &mut Metrics) -> (r: Option<&ListTorrentsResult>)
        ensures
            match self.held() {
                Some((at, listing)) => if now_ms >= at && now_ms - at < ttl_ms {
                    r matches Some(l) && *l == listing
                } else {
                    r is None
                },
                None => r is None,
            },
            r is Some ==> *final(metrics) == (Metrics { cache_hits: wrap_add(old(metrics).cache_hits, 1), ..*old(metrics) }),
            r is None ==> *final(metrics) == (Metrics { cache_misses: wrap_add(old(metrics).cache_misses, 1), ..*old(metrics) }),
    {
        let r = self.lookup(now_ms, ttl_ms);
        match r {
            Some(_) => metrics.record_cache_hit(),
            None => metrics.record_cache_miss(),
        }
        r
    }

    /// Keeps a listing made at `now_ms`, in place of the one held.
    pub fn store(&mut self, now_ms: u64, listing: ListTorrentsResult)
        ensures
            final(self).held() == Some((now_ms, listing)),
    {
        self.entry = Some((now_ms, listing));
    }

    /// Drops the listing held, so that the next listing asks rqbit; returns
    /// whether one was held.
    pub fn invalidate(&mut self) -> (r: bool)
        ensures
            r == old(self).held() is Some,
            final(self).held() is None,
    {
        let had = self.entry.is_some();
        self.entry = None;
        had
    }
}

/// The `Range` header of a read of bytes `start..=end`, or the error for
/// a range whose start is past its end.
pub fn range_header(start: u64, end: u64) -> (r: Result<String, RqbitFuseError>)
    ensures
        start > end ==> (r matches Err(RqbitFuseError::InvalidArgument(m)) && m@ == "Invalid range: start ("@
            + decimal(start as nat) + ") > end ("@ + decimal(end as nat) + ")"@),
        start <= end && end - start == u64::MAX ==> (r matches Err(RqbitFuseError::InvalidArgument(m)) && m@
            == "Range too large"@),
        start <= end && end - start < u64::MAX ==> (r matches Ok(h) && h@ == "bytes="@ + decimal(start as nat) + "-"@
            + decimal(end as nat)),
{
    let a = u64_to_decimal(start);
    let b = u64_to_decimal(end);
    if start > end {
        let mut m = concat3("Invalid range: start (", a.as_str(), ") > end (");
        m.append(b.as_str());
        m.append(")");
        return Err(RqbitFuseError::InvalidArgument(m));
    }
    // The length of the whole 64-bit range does not fit in 64 bits.
    if end - start == u64::MAX {
        return Err(RqbitFuseError::InvalidArgument(String::from_str("Range too large")));
    }
    Ok(concat3("bytes=", a.as_str(), concat2("-", b.as_str()).as_str()))
}

/// What to do with the response to a ranged read.
#[derive(Debug, Clone, Copy, PartialEq, Eq, Structural)]
pub enum ReadResponsePlan {
    /// 404: the file is not there
    NotFound,
    /// 416: the body explains the bad range
    BadRange,
    /// Check the status, then collect the body, skipping `skip` bytes and
    /// keeping at most `limit` (all when `None`)
    Collect { limit: Option<u64>, skip: u64 },
}

/// The plan for the response to a read of `range` (all of the file when
/// `None`): a server that answers a ranged read with 200 sent the whole
/// file, so the range is cut out of it.
pub fn read_response_plan(status: u16, range: Option<(u64, u64)>) -> (r: ReadResponsePlan)
    requires
        range matches Some((s, e)) ==> s <= e && e - s < u64::MAX,
    ensures
        status == 404 ==> r == ReadResponsePlan::NotFound,
        status == 416 ==> r == ReadResponsePlan::BadRange,
        status != 404 && status != 416 ==> r == (match range {
            Some((s, e)) => if status == 200 {
                ReadResponsePlan::Collect { limit: Some((e - s + 1) as u64), skip: s }
            } else {
                ReadResponsePlan::Collect { limit: None, skip: 0 }
            },
            None => ReadResponsePlan::Collect { limit: None, skip: 0 },
        }),
{
    if status == 404 {
        ReadResponsePlan::NotFound
    } else if status == 416 {
        ReadResponsePlan::BadRange
    } else {
        match range {
            Some((s, e)) => if status == 200 {
                ReadResponsePlan::Collect { limit: Some(e - s + 1), skip: s }
            } else {
                ReadResponsePlan::Collect { limit: None, skip: 0 }
            },
            None => ReadResponsePlan::Collect { limit: None, skip: 0 },
        }
    }
}

/// The error for a file that the server does not have.
pub fn file_not_found(torrent_id: u64, file_idx: u64) -> (r: RqbitFuseError)
    ensures
        r matches RqbitFuseError::NotFound(m) && m@ == "file "@ + decimal(file_idx as nat) + " in torrent "@ + decimal(torrent_id as nat),
{
    let f = u64_to_decimal(file_idx);
    let t = u64_to_decimal(torrent_id);
    RqbitFuseError::NotFound(concat3("file ", f.as_str(), concat2(" in torrent ", t.as_str()).as_str()))
}

/// The error for a range the server refused (416), given the response
/// body or the failure to read it.
pub fn bad_range_error(body: Result<String, String>) -> (r: RqbitFuseError)
    ensures
        match body {
            Ok(t) => r == RqbitFuseError::InvalidArgument(t),
            Err(e) => r matches RqbitFuseError::NetworkError(m) && m@ == "Failed to read range error response body: "@ + e@,
        },
{
    match body {
        Ok(t) => RqbitFuseError::InvalidArgument(t),
        Err(e) => RqbitFuseError::NetworkError(concat2("Failed to read range error response body: ", e.as_str())),
    }
}

/// The part of `all` a read keeps: from `skip` on, at most `limit` bytes.
pub open spec fn range_slice(all: Seq<u8>, skip: nat, limit: Option<nat>) -> Seq<u8> {
    let start: int = if skip < all.len() { skip as int } else { all.len() as int };
    let end: int = match limit {
        None => all.len() as int,
        Some(l) => if skip + l < all.len() { (skip + l) as int } else { all.len() as int },
    };
    all.subrange(start, if end < start { start } else { end })
}

/// Collects the body of a ranged read chunk by chunk, skipping the bytes
/// before the range and keeping at most its length.
pub struct RangeCollector {
    limit: Option<u64>,
    skip: u64,
    to_skip: u64,
    data: Vec<u8>,
    seen: Ghost<Seq<u8>>,
}

impl RangeCollector {
    /// The invariant: the bytes kept are the part of those seen that the
    /// range selects, and the bytes still to skip are those of the range's
    /// start not seen yet.
    pub closed spec fn inv(&self) -> bool {
        &&& self.data@ == range_slice(self.seen@, self.skip as nat, self.limit_nat())
        &&& self.to_skip == (if self.seen@.len() < self.skip { self.skip - self.seen@.len() } else { 0 })
        &&& self.data@.len() <= u64::MAX
    }

    pub closed spec fn limit_nat(&self) -> Option<nat> {
        match self.limit {
            Some(l) => Some(l as nat),
            None => None,
        }
    }

    /// The bytes to skip at the start of the body.
    pub closed spec fn skip_len(&self) -> nat {
        self.skip as nat
    }

    /// The bytes received so far.
    pub closed spec fn seen(&self) -> Seq<u8> {
        self.seen@
    }

    /// The bytes kept so far.
    pub closed spec fn kept(&self) -> Seq<u8> {
        self.data@
    }

    /// A collector for a read that skips `skip` bytes and keeps at most
    /// `limit` (all when `None`).
    pub fn new(limit: Option<u64>, skip: u64) -> (c: Self)
        ensures
            c.inv(),
            c.seen() == Seq::<u8>::empty(),
            c.kept() == Seq::<u8>::empty(),
            c.limit_nat() == (match limit { Some(l) => Some(l as nat), None => None::<nat> }),
            c.skip_len() == skip,
    {
        let c = RangeCollector { limit, skip, to_skip: skip, data: Vec::new(), seen: Ghost(Seq::empty()) };
        assert(c.data@ =~= range_slice(Seq::empty(), skip as nat, c.limit_nat()));
        c
    }

    /// Takes the next chunk of the body. Returns whether more chunks are
    /// wanted: false once the range is complete.
    pub fn push(&mut self, chunk: &[u8]) -> (more: bool)
        requires
            old(self).inv(),
            old(self).seen().len() + chunk@.len() <= u64::MAX,
        ensures
            final(self).inv(),
            final(self).seen() == old(self).seen() + chunk@,
            final(self).kept() == range_slice(final(self).seen(), old(self).skip_len(), old(self).limit_nat()),
            final(self).limit_nat() == old(self).limit_nat(),
            final(self).skip_len() == old(self).skip_len(),
            !more ==> (final(self).limit_nat() matches Some(l) && final(self).kept().len() == l),
    {
        let ghost before = self.seen@;
        let ghost all = before + chunk@;
        let ghost sk = self.skip as int;
        let ghost lim = self.limit_nat();
        proof {
            self.seen = Ghost(all);
        }
        let n = chunk.len() as u64;
        let mut from: u64 = 0;
        if self.to_skip > 0 {
            if n <= self.to_skip {
                self.to_skip = self.to_skip - n;
                assert(self.data@ =~= range_slice(all, sk as nat, lim));
                return true;
            }
            from = self.to_skip;
            self.to_skip = 0;
        } else {
            match self.limit {
                Some(l) => {
                    if self.data.len() as u64 >= l {
                        assert(self.data@ =~= range_slice(all, sk as nat, lim));
                        return false;
                    }
                },
                None => {},
            }
        }
        let take_to: u64 = match self.limit {
            Some(l) => {
                let room = l - self.data.len() as u64;
                if n - from < room { n } else { from + room }
            },
            None => n,
        };
        let ghost kept0 = self.data@;
        let ghost lim0 = self.limit;
        let mut i: u64 = from;
        while i < take_to
            invariant
                from <= i <= take_to <= n,
                n == chunk@.len(),
                chunk@.len() <= usize::MAX,
                self.seen@ == all,
                self.skip == sk,
                self.limit == lim0,
                self.to_skip == 0,
                self.data@ == kept0 + chunk@.subrange(from as int, i as int),
            decreases take_to - i,
        {
            assert((i as usize) < chunk@.len());
            self.data.push(chunk[i as usize]);
            i = i + 1;
            assert(self.data@ =~= kept0 + chunk@.subrange(from as int, i as int));
        }
        proof {
            let b = before.len() as int;
            let start: int = if sk < all.len() { sk } else { all.len() as int };
            let end0: int = match lim { None => all.len() as int, Some(l) => if sk + l < all.len() { sk + l } else { all.len() as int } };
            let end: int = if end0 < start { start } else { end0 };
            assert(start >= b ==> start == sk + 0);
            if b < sk {
                assert(kept0.len() == 0);
                assert(start == sk);
                assert(all.subrange(start, end) =~= chunk@.subrange(sk - b, end - b));
                assert(self.data@ =~= all.subrange(start, end));
            } else {
                assert(from == 0);
                assert(kept0 =~= before.subrange(sk, b));
                assert(all.subrange(start, end) =~= before.subrange(sk, b) + chunk@.subrange(0, end - b));
                assert(self.data@ =~= all.subrange(start, end));
            }
        }
        match self.limit {
            Some(l) => (self.data.len() as u64) < l,
            None => true,
        }
    }

    /// The bytes kept.
    pub fn into_bytes(self) -> (r: Vec<u8>)
        requires
            self.inv(),
        ensures
            r@ == range_slice(self.seen(), self.skip_len(), self.limit_nat()),
    {
        self.data
    }
}

/// Whether an action on a torrent changes the listing (so that a cached
/// listing is dropped): forgetting and deleting do.
pub fn action_invalidates_listing(action: &str) -> (r: bool)
    ensures
        r == (action@ == "forget"@ || action@ == "delete"@),
{
    crate::text::str_equal(action, "forget") || crate::text::str_equal(action, "delete")
}

/// The delay before the next health check while waiting for the server:
/// 500 ms doubled per failed check, doubling at most five times.
pub fn server_wait_delay_ms(attempt: u32) -> (r: u64)
    ensures
        r == 500 * vstd::arithmetic::power2::pow2((if attempt < 5 { attempt } else { 5 }) as nat),
{
    let e = if attempt < 5 { attempt } else { 5 };
    let mut p: u64 = 1;
    let mut i: u32 = 0;
    proof {
        vstd::arithmetic::power2::lemma2_to64();
    }
    while i < e
        invariant
            i <= e <= 5,
            p == vstd::arithmetic::power2::pow2(i as nat),
        decreases e - i,
    {
        proof {
            vstd::arithmetic::power2::lemma_pow2_unfold((i + 1) as nat);
            vstd::arithmetic::power2::lemma2_to64();
        }
        p = p * 2;
        i = i + 1;
    }
    500 * p
}

/// The piece bitfield of a response: its `x-bitfield-len` header must be
/// a number (the piece count), the body holds the bits.
pub fn bitfield_from_response(bitfield_len: Option<String>, bits: Vec<u8>) -> (r: Result<PieceBitfield, RqbitFuseError>)
    ensures
        match bitfield_len {
            Some(h) => match spec_parse_unsigned(h@, usize::MAX as nat) {
                Some(n) => r matches Ok(b) && b.bits@ == bits@ && b.num_pieces == n,
                None => r matches Err(RqbitFuseError::IoError(m)) && m@ == "Missing or invalid x-bitfield-len header"@,
            },
            None => r matches Err(RqbitFuseError::IoError(m)) && m@ == "Missing or invalid x-bitfield-len header"@,
        },
{
    let n = match bitfield_len {
        Some(h) => parse_usize(h.as_str()),
        None => None,
    };
    match n {
        Some(num_pieces) => Ok(PieceBitfield { bits, num_pieces }),
        None => Err(RqbitFuseError::IoError(String::from_str("Missing or invalid x-bitfield-len header"))),
    }
}

/// The answer to whether a byte range is available when it needs no
/// bitfield: an empty range is, and a piece length of 0 is an error;
/// `None` when the bitfield must be fetched.
pub fn range_check_without_bitfield(size: u64, piece_length: u64) -> (r: Option<Result<bool, RqbitFuseError>>)
    ensures
        size == 0 ==> r == Some(Ok::<bool, RqbitFuseError>(true)),
        size != 0 && piece_length == 0 ==> (r matches Some(Err(RqbitFuseError::InvalidArgument(m)))
            && m@ == "piece_length cannot be zero"@),
        size != 0 && piece_length != 0 ==> r is None,
{
    if size == 0 {
        return Some(Ok(true));
    }
    if piece_length == 0 {
        return Some(Err(RqbitFuseError::InvalidArgument(String::from_str("piece_length cannot be zero"))));
    }
    None
}

} // verus!
