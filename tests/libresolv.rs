use srv_rs::resolver::libresolv::{
    answer_valid_until, check, check_srv_name, fit_answer, least_ttl, parse_srv_header, AnswerFit,
    SrvHeader, NS_T_SRV,
};
use srv_rs::{LibResolv, LibResolvError, LibResolvSrvRecord, ResolverError, SrvRecord};

#[test]
fn status_maps_to_errors() {
    assert_eq!(check(0, 3), Ok(()));
    assert_eq!(check(12, 1), Ok(()));
    assert_eq!(check(-1, 0), Ok(()));
    assert_eq!(check(-1, 1), Err(ResolverError::HostNotFound));
    assert_eq!(check(-1, 2), Err(ResolverError::TryAgain));
    assert_eq!(check(-1, 3), Err(ResolverError::NoRecovery));
    assert_eq!(check(-1, 4), Err(ResolverError::NoData));
    assert_eq!(check(-1, 9), Err(ResolverError::Unexpected(9)));
}

#[test]
fn srv_name_with_nul_is_refused() {
    assert_eq!(check_srv_name("_http._tcp.foo.com"), Ok(()));
    assert_eq!(check_srv_name("_http.\0_tcp.foo.com"), Err(LibResolvError::InteriorNul(6)));
}

#[test]
fn answer_buffer_growth() {
    assert_eq!(fit_answer(100, 512), Ok(AnswerFit::Fits));
    assert_eq!(fit_answer(512, 512), Ok(AnswerFit::Fits));
    assert_eq!(fit_answer(900, 512), Ok(AnswerFit::Retry(900)));
    assert_eq!(fit_answer(65535, 512), Ok(AnswerFit::Retry(65535)));
    assert_eq!(fit_answer(65536, 512), Err(LibResolvError::AnswerTooLarge));
}

#[test]
fn srv_header_from_bytes() {
    let rdata = [0u8, 10, 0, 100, 0x1f, 0x90, 7, b'e', b'x'];
    assert_eq!(
        parse_srv_header(NS_T_SRV, &rdata),
        Ok(SrvHeader { priority: 10, weight: 100, port: 8080 })
    );
    assert_eq!(parse_srv_header(1, &rdata), Err(LibResolvError::NotSrv));
    assert_eq!(parse_srv_header(NS_T_SRV, &rdata[..5]), Err(LibResolvError::TruncatedRecord));
}

#[test]
fn expiration_follows_least_ttl() {
    assert_eq!(least_ttl(&[300, 60, 120]), 60);
    assert_eq!(least_ttl(&[]), 0);
    assert_eq!(answer_valid_until(1_000, &[300, 60, 120]), 61_000);
    assert_eq!(answer_valid_until(1_000, &[]), 1_000);
    assert_eq!(answer_valid_until(u64::MAX - 5, &[1]), u64::MAX);
}

#[test]
fn libresolv_buffer_size() {
    assert_eq!(LibResolv::default().initial_buf_size(), 512);
    assert_eq!(LibResolv::new(4096).initial_buf_size(), 4096);
}

#[test]
fn record_accessors() {
    let rec = LibResolvSrvRecord {
        target: String::from("server1.test.local"),
        port: 8080,
        priority: 10,
        weight: 100,
    };
    assert_eq!(rec.priority(), 10);
    assert_eq!(rec.weight(), 100);
    assert_eq!(rec.port(), 8080);
    assert_eq!(rec.target().to_string(), "server1.test.local");
    assert_eq!(rec.duplicate(), rec);
}
