use rqbit_fuse::api::client::{
    action_invalidates_listing, bad_range_error, bitfield_from_response, check_response,
    collect_torrent_details, create_api_client, file_not_found, listing_is_fresh, range_check_without_bitfield,
    range_header, read_response_plan, retry_decision, retry_step, server_wait_delay_ms, torrent_error, torrent_not_found,
    AttemptOutcome, ClientSettings, ListingCache, RangeCollector, ReadResponsePlan, RetryDecision, RetryDelay,
    DEFAULT_MAX_RETRIES, DEFAULT_RETRY_DELAY_MS,
};
use rqbit_fuse::api::create_auth_header;
use rqbit_fuse::api::types::{ListTorrentsResult, TorrentInfo, TorrentSummary};
use rqbit_fuse::config::Config;
use rqbit_fuse::error::RqbitFuseError;

#[test]
fn test_client_creation() {
    let client = ClientSettings::new("http://localhost:3030".to_string()).unwrap();
    assert_eq!(client.base_url, "http://localhost:3030");
    assert_eq!(client.max_retries, 3);
    assert_eq!(client.retry_delay_ms, 500);
    assert!(client.auth_credentials.is_none());
}

#[test]
fn invalid_client_url() {
    match ClientSettings::new("not a url".to_string()) {
        Err(RqbitFuseError::IoError(m)) => assert!(m.starts_with("Invalid URL: ")),
        other => panic!("unexpected {:?}", other),
    }
}

#[test]
fn client_from_config_takes_credentials_when_both_are_set() {
    let mut config = Config::default();
    let s = create_api_client(&config).unwrap();
    assert_eq!(s.base_url, "http://127.0.0.1:3030");
    assert!(s.auth_credentials.is_none());

    config.api_username = Some("u".to_string());
    let s = create_api_client(&config).unwrap();
    assert!(s.auth_credentials.is_none());

    config.api_password = Some("p".to_string());
    let s = create_api_client(&config).unwrap();
    assert_eq!(s.auth_credentials, Some(("u".to_string(), "p".to_string())));
    assert_eq!(s.max_retries, DEFAULT_MAX_RETRIES);
    assert_eq!(s.retry_delay_ms, DEFAULT_RETRY_DELAY_MS);

    let a = ClientSettings::with_auth("http://h:1".to_string(), "a".to_string(), "b".to_string()).unwrap();
    assert_eq!(a.auth_credentials, Some(("a".to_string(), "b".to_string())));
}

#[test]
fn basic_auth_header() {
    let creds = ("user".to_string(), "pass".to_string());
    assert_eq!(create_auth_header(Some(&creds)), Some("Basic dXNlcjpwYXNz".to_string()));
    let creds = ("admin".to_string(), "".to_string());
    assert_eq!(create_auth_header(Some(&creds)), Some("Basic YWRtaW46".to_string()));
    assert_eq!(create_auth_header(None), None);
    // Padding for a last group of one and of two bytes.
    let creds = ("ab".to_string(), "cd".to_string());
    assert_eq!(create_auth_header(Some(&creds)), Some("Basic YWI6Y2Q=".to_string()));
    let creds = ("u".to_string(), "pw".to_string());
    assert_eq!(create_auth_header(Some(&creds)), Some("Basic dTpwdw==".to_string()));
}

fn resp(status: u16, retry_after: Option<&str>) -> AttemptOutcome {
    AttemptOutcome::Response { status, retry_after: retry_after.map(|s| s.to_string()) }
}

fn retry_delay(d: RetryDecision) -> Option<RetryDelay> {
    match d {
        RetryDecision::Retry(delay) => Some(delay),
        RetryDecision::Finish(_) => None,
    }
}

#[test]
fn retry_policy() {
    // Server errors are retried with an exponential back-off.
    assert_eq!(retry_delay(retry_decision(0, 3, 500, resp(503, None))), Some(RetryDelay::Millis(500)));
    assert_eq!(retry_delay(retry_decision(1, 3, 500, resp(503, None))), Some(RetryDelay::Millis(1000)));
    assert_eq!(retry_delay(retry_decision(2, 3, 500, resp(500, None))), Some(RetryDelay::Millis(2000)));
    assert_eq!(retry_delay(retry_decision(2, 3, 100, resp(502, None))), Some(RetryDelay::Millis(400)));
    // ...but not on the last attempt.
    assert!(matches!(retry_decision(3, 3, 500, resp(500, None)), RetryDecision::Finish(Ok(()))));
    // Rate limits follow retry-after when it is a number.
    assert_eq!(retry_delay(retry_decision(0, 3, 500, resp(429, Some("2")))), Some(RetryDelay::Seconds(2)));
    assert_eq!(retry_delay(retry_decision(1, 3, 500, resp(429, Some("soon")))), Some(RetryDelay::Millis(1000)));
    assert_eq!(retry_delay(retry_decision(1, 3, 500, resp(429, None))), Some(RetryDelay::Millis(1000)));
    assert_eq!(retry_delay(retry_decision(3, 5, 500, resp(429, None))), Some(RetryDelay::Millis(4000)));
    assert!(matches!(retry_decision(3, 3, 500, resp(429, Some("2"))), RetryDecision::Finish(Ok(()))));
    // Other statuses stop with the response.
    assert!(matches!(retry_decision(0, 3, 500, resp(200, None)), RetryDecision::Finish(Ok(()))));
    assert!(matches!(retry_decision(0, 3, 500, resp(404, None)), RetryDecision::Finish(Ok(()))));
    // Transient failures are retried, others are not.
    assert_eq!(
        retry_delay(retry_decision(0, 3, 100, AttemptOutcome::Failed(RqbitFuseError::TimedOut("t".to_string())))),
        Some(RetryDelay::Millis(100))
    );
    match retry_decision(0, 3, 100, AttemptOutcome::Failed(RqbitFuseError::NotFound("n".to_string()))) {
        RetryDecision::Finish(Err(RqbitFuseError::NotFound(m))) => assert_eq!(m, "n"),
        other => panic!("unexpected {:?}", other),
    }
    match retry_decision(3, 3, 100, AttemptOutcome::Failed(RqbitFuseError::NetworkError("x".to_string()))) {
        RetryDecision::Finish(Err(RqbitFuseError::NetworkError(_))) => {}
        other => panic!("unexpected {:?}", other),
    }
}

#[test]
fn response_checks() {
    assert!(check_response(200, Ok(String::new())).is_ok());
    assert!(check_response(206, Err("x".to_string())).is_ok());
    assert_eq!(
        check_response(401, Ok(String::new())).unwrap_err().message(),
        "Permission denied: Authentication failed: Invalid credentials"
    );
    assert_eq!(
        check_response(401, Ok("bad token".to_string())).unwrap_err().message(),
        "Permission denied: Authentication failed: bad token"
    );
    assert_eq!(
        check_response(401, Err("io".to_string())).unwrap_err().message(),
        "Permission denied: Authentication failed: Invalid credentials"
    );
    match check_response(500, Ok("oops".to_string())) {
        Err(RqbitFuseError::ApiError { status, message }) => {
            assert_eq!(status, 500);
            assert_eq!(message, "oops");
        }
        other => panic!("unexpected {:?}", other),
    }
    assert_eq!(
        check_response(404, Err("eof".to_string())).unwrap_err().message(),
        "Network error: Failed to read error response body: eof"
    );
}

#[test]
fn torrent_errors() {
    assert_eq!(
        torrent_error(7, RqbitFuseError::ApiError { status: 404, message: "x".to_string() }).message(),
        "Not found: torrent 7"
    );
    assert_eq!(
        torrent_error(7, RqbitFuseError::ApiError { status: 500, message: "x".to_string() }).message(),
        "API error: 500 - x"
    );
    assert_eq!(torrent_not_found(12).message(), "Not found: torrent 12");
    assert_eq!(file_not_found(3, 4).message(), "Not found: file 4 in torrent 3");
    assert_eq!(bad_range_error(Ok("bad".to_string())).message(), "Invalid argument: bad");
    assert_eq!(
        bad_range_error(Err("e".to_string())).message(),
        "Network error: Failed to read range error response body: e"
    );
}

fn summary(id: u64, name: &str) -> TorrentSummary {
    TorrentSummary { id, info_hash: String::new(), name: name.to_string(), output_folder: String::new() }
}

fn info(id: u64) -> TorrentInfo {
    TorrentInfo {
        id,
        info_hash: String::new(),
        name: String::new(),
        output_folder: String::new(),
        file_count: None,
        files: vec![],
        piece_length: None,
    }
}

#[test]
fn listing_keeps_successes_and_reports_failures() {
    let r = collect_torrent_details(
        vec![summary(1, "a"), summary(2, "b"), summary(3, "c")],
        vec![Ok(info(1)), Err(RqbitFuseError::NotFound("torrent 2".to_string())), Ok(info(3))],
    );
    assert_eq!(r.torrents.iter().map(|t| t.id).collect::<Vec<_>>(), vec![1, 3]);
    assert_eq!(r.errors.len(), 1);
    assert_eq!(r.errors[0].0, 2);
    assert_eq!(r.errors[0].1, "b");
    assert!(r.is_partial());
    assert_eq!(r.total_attempted(), 3);
}

#[test]
fn listing_cache_freshness() {
    assert!(listing_is_fresh(1000, 1000, 30000));
    assert!(listing_is_fresh(1000, 30999, 30000));
    assert!(!listing_is_fresh(1000, 31000, 30000));
    assert!(!listing_is_fresh(2000, 1000, 30000));
    assert!(action_invalidates_listing("forget"));
    assert!(action_invalidates_listing("delete"));
    assert!(!action_invalidates_listing("pause"));
    assert!(!action_invalidates_listing("start"));
}

#[test]
fn ranges() {
    assert_eq!(range_header(0, 99).unwrap(), "bytes=0-99");
    assert_eq!(range_header(5, 5).unwrap(), "bytes=5-5");
    assert_eq!(range_header(10, 5).unwrap_err().message(), "Invalid argument: Invalid range: start (10) > end (5)");
    assert_eq!(range_header(0, u64::MAX).unwrap_err().message(), "Invalid argument: Range too large");
    assert_eq!(range_header(1, u64::MAX).unwrap(), format!("bytes=1-{}", u64::MAX));

    assert_eq!(read_response_plan(404, Some((0, 9))), ReadResponsePlan::NotFound);
    assert_eq!(read_response_plan(416, None), ReadResponsePlan::BadRange);
    assert_eq!(read_response_plan(206, Some((10, 19))), ReadResponsePlan::Collect { limit: None, skip: 0 });
    assert_eq!(read_response_plan(200, Some((10, 19))), ReadResponsePlan::Collect { limit: Some(10), skip: 10 });
    assert_eq!(read_response_plan(200, None), ReadResponsePlan::Collect { limit: None, skip: 0 });
}

#[test]
fn range_collector_cuts_a_full_body() {
    // A server that ignored the range sent the whole file: bytes 3..7 are kept.
    let mut c = RangeCollector::new(Some(4), 3);
    assert!(c.push(&[0, 1]));
    assert!(c.push(&[2, 3, 4]));
    assert!(!c.push(&[5, 6, 7, 8, 9]));
    assert_eq!(c.into_bytes(), vec![3, 4, 5, 6]);

    let mut all = RangeCollector::new(None, 0);
    assert!(all.push(&[1, 2]));
    assert!(all.push(&[]));
    assert!(all.push(&[3]));
    assert_eq!(all.into_bytes(), vec![1, 2, 3]);

    // A body shorter than the range keeps what there is.
    let mut short = RangeCollector::new(Some(10), 2);
    assert!(short.push(&[0, 1, 2, 3]));
    assert_eq!(short.into_bytes(), vec![2, 3]);
}

#[test]
fn server_wait_back_off() {
    assert_eq!(server_wait_delay_ms(0), 500);
    assert_eq!(server_wait_delay_ms(1), 1000);
    assert_eq!(server_wait_delay_ms(4), 8000);
    assert_eq!(server_wait_delay_ms(5), 16000);
    assert_eq!(server_wait_delay_ms(100), 16000);
}

#[test]
fn bitfields_from_responses() {
    let b = bitfield_from_response(Some("12".to_string()), vec![0xff, 0x0f]).unwrap();
    assert_eq!(b.num_pieces, 12);
    assert!(b.is_complete());
    assert_eq!(
        bitfield_from_response(Some("x".to_string()), vec![]).unwrap_err().message(),
        "I/O error: Missing or invalid x-bitfield-len header"
    );
    assert!(bitfield_from_response(None, vec![]).is_err());

    assert!(matches!(range_check_without_bitfield(0, 0), Some(Ok(true))));
    match range_check_without_bitfield(10, 0) {
        Some(Err(RqbitFuseError::InvalidArgument(m))) => assert_eq!(m, "piece_length cannot be zero"),
        other => panic!("unexpected {:?}", other),
    }
    assert!(range_check_without_bitfield(10, 100).is_none());
}

#[test]
fn listing_cache_keeps_a_listing_for_its_lifetime() {
    let mut cache = ListingCache::new();
    assert!(cache.lookup(0, 30_000).is_none());
    let listing = ListTorrentsResult { torrents: vec![], errors: vec![(4, "four".to_string(), RqbitFuseError::NotFound("x".to_string()))] };
    cache.store(1_000, listing);
    assert_eq!(cache.lookup(1_000, 30_000).unwrap().errors.len(), 1);
    assert_eq!(cache.lookup(30_999, 30_000).unwrap().errors[0].0, 4);
    assert!(cache.lookup(31_000, 30_000).is_none());
    assert!(cache.lookup(999, 30_000).is_none());
    assert!(cache.invalidate());
    assert!(cache.lookup(1_000, 30_000).is_none());
    assert!(!cache.invalidate());
}

#[test]
fn retry_step_stops_when_the_back_off_does_not_fit() {
    match retry_step(1, 3, 100, resp(500, None)) {
        RetryDecision::Retry(RetryDelay::Millis(ms)) => assert_eq!(ms, 200),
        other => panic!("unexpected {:?}", other),
    }
    match retry_step(1, 3, u64::MAX, resp(500, None)) {
        RetryDecision::Finish(Ok(())) => {}
        other => panic!("unexpected {:?}", other),
    }
    match retry_step(1, 3, u64::MAX, AttemptOutcome::Failed(RqbitFuseError::TimedOut("t".to_string()))) {
        RetryDecision::Finish(Err(RqbitFuseError::TimedOut(m))) => assert_eq!(m, "t"),
        other => panic!("unexpected {:?}", other),
    }
    match retry_step(0, 3, u64::MAX, resp(503, None)) {
        RetryDecision::Retry(RetryDelay::Millis(ms)) => assert_eq!(ms, u64::MAX),
        other => panic!("unexpected {:?}", other),
    }
}

#[test]
fn listing_cache_counts_hits_and_misses() {
    let mut metrics = rqbit_fuse::metrics::Metrics::new();
    let mut cache = ListingCache::new();
    assert!(cache.lookup_counted(0, 30_000, &mut metrics).is_none());
    assert_eq!((metrics.cache_hits, metrics.cache_misses), (0, 1));
    cache.store(100, ListTorrentsResult { torrents: vec![], errors: vec![] });
    assert!(cache.lookup_counted(200, 30_000, &mut metrics).is_some());
    assert!(cache.lookup_counted(29_000, 30_000, &mut metrics).is_some());
    assert_eq!((metrics.cache_hits, metrics.cache_misses), (2, 1));
    assert!(cache.lookup_counted(40_000, 30_000, &mut metrics).is_none());
    assert_eq!((metrics.cache_hits, metrics.cache_misses), (2, 2));
}
