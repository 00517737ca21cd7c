use srv_rs::{
    Affinity, Attempts, Cache, Execution, LibResolvSrvRecord, Rfc2782, SrvClient, SrvError,
};
use std::sync::Arc;

fn record(target: &str, port: u16, priority: u16, weight: u16) -> LibResolvSrvRecord {
    LibResolvSrvRecord { target: target.to_string(), port, priority, weight }
}

fn three_records() -> Vec<LibResolvSrvRecord> {
    vec![
        record("a.example.com", 443, 1, 10),
        record("b.example.com", 443, 1, 10),
        record("c.example.com", 8443, 2, 10),
    ]
}

fn client() -> SrvClient<(), Affinity> {
    SrvClient::new_with_resolver("_http._tcp.example.com", ())
}

fn cache_of(client: &SrvClient<(), Affinity>, records: &[LibResolvSrvRecord]) -> Arc<Cache<String>> {
    client.refresh_cache::<()>(records, u64::MAX).ok().unwrap()
}

/// Drives an execution the way the asynchronous loop does, serially: start,
/// run the operation, report, until nothing is left.
fn run_serial(
    client: &SrvClient<(), Affinity>,
    cache: &Cache<String>,
    op: &mut dyn FnMut(usize) -> Result<usize, String>,
) -> Result<Result<usize, String>, SrvError<()>> {
    let mut attempts: Attempts<usize, String> = client.start_execution(Execution::Serial, cache);
    while !attempts.is_done() {
        match attempts.start() {
            Some(idx) => {
                let outcome = op(idx);
                client.record_outcome(cache, &mut attempts, idx, outcome);
            }
            None => break,
        }
    }
    attempts.finish()
}

#[test]
fn execution_default_is_serial() {
    assert!(matches!(Execution::default(), Execution::Serial));
}

#[test]
fn builder_defaults_and_setters() {
    let c = client();
    assert_eq!(c.srv(), "_http._tcp.example.com");
    let cache = cache_of(&c, &three_records());
    assert_eq!(cache.items()[0], "https://a.example.com:443/");
    assert_eq!(cache.items()[2], "https://c.example.com:8443/");
    let c = c.http_scheme("http").path_prefix("/bar").srv_name("_other._tcp.example.com");
    assert_eq!(c.srv(), "_other._tcp.example.com");
    let cache = cache_of(&c, &three_records());
    assert_eq!(cache.items()[1], "http://b.example.com:443/bar");
    assert_eq!(cache.valid_until(), u64::MAX);
}

#[test]
fn record_parse_builds_address() {
    let rec = LibResolvSrvRecord {
        priority: 1,
        weight: 100,
        port: 8211,
        target: String::from("srv-client-rust.deshaw.org"),
    };
    assert_eq!(rec.parse("https", "/").ok().unwrap(), "https://srv-client-rust.deshaw.org:8211/");
    assert_eq!(rec.parse("http", "/bar").ok().unwrap(), "http://srv-client-rust.deshaw.org:8211/bar");
    assert!(rec.parse("not a scheme", "/").is_err());
}

#[test]
fn refresh_fails_wholesale_on_bad_record() {
    let c = client();
    let fresh = cache_of(&c, &three_records());
    assert!(fresh.valid());
    let mut records = three_records();
    records.push(record("bad host name", 1, 1, 1));
    let r = c.refresh_cache::<()>(&records, u64::MAX);
    assert!(matches!(r, Err(SrvError::RecordParsing(_))));
    assert!(c.get_valid_cache().is_some());
    let r = c.get_fresh_uri_candidates::<()>(&records, 5);
    assert!(matches!(r, Err(SrvError::RecordParsing(_))));
    let (uris, until) = c.get_fresh_uri_candidates::<()>(&three_records(), 5).ok().unwrap();
    assert_eq!(uris.len(), 3);
    assert_eq!(until, 5);
}

#[test]
fn valid_cache_needs_refresh_first() {
    let c = client();
    assert!(c.get_valid_cache().is_none());
    cache_of(&c, &three_records());
    let cache = c.get_valid_cache().unwrap();
    assert_eq!(cache.items().len(), 3);
    let c = c.path_prefix("/x");
    assert!(c.get_valid_cache().is_none());
    c.refresh_cache::<()>(&three_records(), 0).ok().unwrap();
    assert!(c.get_valid_cache().is_none());
}

#[test]
fn serial_success_uses_only_first_candidate() {
    let c = client();
    let cache = cache_of(&c, &three_records());
    let mut calls = [0usize; 3];
    let r = run_serial(&c, &cache, &mut |idx| {
        calls[idx] += 1;
        Ok(idx)
    });
    assert!(matches!(r, Ok(Ok(0))));
    assert_eq!(calls, [1, 0, 0]);
}

#[test]
fn serial_failures_return_last_error() {
    let c = client();
    let cache = cache_of(&c, &three_records());
    let mut calls = [0usize; 3];
    let r = run_serial(&c, &cache, &mut |idx| {
        calls[idx] += 1;
        Err(format!("failed {}", idx))
    });
    match r {
        Ok(Err(e)) => assert_eq!(e, "failed 2"),
        _ => panic!("expected the last failure"),
    }
    assert_eq!(calls, [1, 1, 1]);
}

#[test]
fn serial_success_moves_affinity() {
    let c = client();
    let cache = cache_of(&c, &three_records());
    let r = run_serial(&c, &cache, &mut |idx| if idx == 2 { Ok(idx) } else { Err(String::new()) });
    assert!(matches!(r, Ok(Ok(2))));
    let mut seen = Vec::new();
    let r = run_serial(&c, &cache, &mut |idx| {
        seen.push(idx);
        Ok(idx)
    });
    assert!(matches!(r, Ok(Ok(2))));
    assert_eq!(seen, vec![2]);
}

#[test]
fn empty_cache_yields_no_targets() {
    let c = client();
    let cache = c.refresh_cache::<()>(&[], u64::MAX).ok().unwrap();
    assert!(!cache.valid());
    let mut calls = 0;
    let r = run_serial(&c, &cache, &mut |idx| {
        calls += 1;
        Ok(idx)
    });
    assert!(matches!(r, Err(SrvError::NoTargets)));
    assert_eq!(calls, 0);
    let mut attempts: Attempts<usize, String> = c.start_execution(Execution::Concurrent, &cache);
    assert!(attempts.is_done());
    assert_eq!(attempts.start(), None);
    assert!(matches!(attempts.finish::<()>(), Err(SrvError::NoTargets)));
}

#[test]
fn concurrent_slowest_success_arrives_last() {
    let c = client();
    let cache = cache_of(&c, &three_records());
    let mut attempts: Attempts<usize, String> = c.start_execution(Execution::Concurrent, &cache);
    let mut started = Vec::new();
    while let Some(idx) = attempts.start() {
        started.push(idx);
    }
    assert_eq!(started, vec![0, 1, 2]);
    // Completion order: the fastest (index 1) first, the slowest (index 0) last.
    c.record_outcome(&cache, &mut attempts, 1, Err(String::from("fast failure")));
    assert!(!attempts.is_done());
    c.record_outcome(&cache, &mut attempts, 2, Err(String::from("slower failure")));
    assert!(!attempts.is_done());
    c.record_outcome(&cache, &mut attempts, 0, Ok(0));
    assert!(attempts.is_done());
    assert!(matches!(attempts.finish::<()>(), Ok(Ok(0))));
}

#[test]
fn concurrent_first_success_stops_consumption() {
    let c = client();
    let cache = cache_of(&c, &three_records());
    let mut attempts: Attempts<usize, String> = c.start_execution(Execution::Concurrent, &cache);
    while attempts.start().is_some() {}
    c.record_outcome(&cache, &mut attempts, 2, Ok(2));
    assert!(attempts.is_done());
    assert!(matches!(attempts.finish::<()>(), Ok(Ok(2))));
}

#[test]
fn concurrent_all_fail_returns_last_observed() {
    let c = client();
    let cache = cache_of(&c, &three_records());
    let mut attempts: Attempts<usize, String> = c.start_execution(Execution::Concurrent, &cache);
    while attempts.start().is_some() {}
    c.record_outcome(&cache, &mut attempts, 2, Err(String::from("two")));
    c.record_outcome(&cache, &mut attempts, 0, Err(String::from("zero")));
    c.record_outcome(&cache, &mut attempts, 1, Err(String::from("one")));
    assert!(attempts.is_done());
    match attempts.finish::<()>() {
        Ok(Err(e)) => assert_eq!(e, "one"),
        _ => panic!("expected the last failure"),
    }
}

#[test]
fn serial_waits_for_each_outcome() {
    let c = client();
    let cache = cache_of(&c, &three_records());
    let mut attempts: Attempts<usize, String> = c.start_execution(Execution::Serial, &cache);
    assert_eq!(attempts.start(), Some(0));
    assert_eq!(attempts.start(), None);
    c.record_outcome(&cache, &mut attempts, 0, Err(String::new()));
    assert_eq!(attempts.start(), Some(1));
}

#[test]
fn rfc2782_client_orders_by_priority() {
    let c = client().policy(Rfc2782);
    let records = vec![
        record("low.example.com", 1, 5, 1),
        record("high.example.com", 2, 1, 1),
        record("mid.example.com", 3, 3, 1),
    ];
    let cache = c.refresh_cache::<()>(&records, u64::MAX).ok().unwrap();
    let kept: Vec<(u16, u16)> = cache.items().iter().map(|i| (i.priority(), i.weight())).collect();
    assert_eq!(kept, vec![(5, 1), (1, 1), (3, 1)]);
    assert_eq!(cache.items()[1].uri(), "https://high.example.com:2/");
    let mut attempts: Attempts<(), ()> = c.start_execution(Execution::Concurrent, &cache);
    let mut started = Vec::new();
    while let Some(idx) = attempts.start() {
        started.push(c.candidate_uri(&cache, idx).clone());
    }
    assert_eq!(
        started,
        vec![
            "https://high.example.com:2/",
            "https://mid.example.com:3/",
            "https://low.example.com:1/"
        ]
    );
}
