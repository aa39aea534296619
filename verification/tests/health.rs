//! Health targets, status lines and sampled verdicts.

use causeway::health::{
    check_plan, check_result, is_success, scan_status_line, split_connect_target, split_url,
    status_code, take_sample, valid_target, wants_tunnel_probe, SampleTick, SampledVerdict,
    StatusProblem, StatusScan, TargetProblem,
};

#[test]
fn connect_targets_normalize_and_reject_garbage() {
    assert_eq!(
        split_connect_target("connect://api.example:443").unwrap(),
        "api.example:443"
    );
    assert_eq!(
        split_connect_target("connect://api.example").unwrap(),
        "api.example:443",
        "port defaults to 443"
    );
    for bad in [
        "connect://",
        "connect:///path",
        "connect://host:0x10",
        "connect://host:99999",
        "connect://host:0",
        "connect://:443",
        "connect://user@host",
        "connect://ho st",
        "connect://host:443:443",
    ] {
        assert!(split_connect_target(bad).is_err(), "{bad} must be rejected");
    }
}

#[test]
fn valid_target_accepts_both_forms_and_rejects_others() {
    assert!(valid_target("http://www.gstatic.com/generate_204"));
    assert!(valid_target("connect://api.example:443"));
    assert!(!valid_target("https://www.gstatic.com/generate_204"));
    assert!(!valid_target("ftp://example/"));
    assert!(!valid_target("connect://api.example/path"));
}

#[test]
fn plaintext_urls_split_into_host_and_url() {
    assert_eq!(
        split_url("http://www.gstatic.com/generate_204").unwrap().0,
        "www.gstatic.com"
    );
    assert_eq!(
        split_url("https://www.gstatic.com/"),
        Err(TargetProblem::NotPlaintext)
    );
    assert_eq!(split_url("http://"), Err(TargetProblem::InvalidUrl));
    assert_eq!(
        split_connect_target("http://host"),
        Err(TargetProblem::NotConnect)
    );
    assert_eq!(
        split_connect_target("connect://host:0"),
        Err(TargetProblem::PortZero)
    );
    assert_eq!(
        split_connect_target("connect://host:99999"),
        Err(TargetProblem::PortNotNumeric)
    );
    assert_eq!(
        split_connect_target("connect://:443"),
        Err(TargetProblem::NoHost)
    );
    assert_eq!(
        split_connect_target("connect://user@host"),
        Err(TargetProblem::InvalidConnect)
    );
    assert_eq!(
        TargetProblem::NotPlaintext.message(),
        "health check URL must be plaintext http://"
    );
}

#[test]
fn connect_targets_plan_a_tunnel_and_plain_ones_a_get() {
    let tunnel = check_plan("connect://api.example:443").unwrap();
    assert!(tunnel.tunnel);
    assert!(tunnel.request.starts_with("CONNECT api.example:443 HTTP/1.1\r\n"));
    assert!(tunnel.request.ends_with("\r\n\r\n"));
    let get = check_plan("http://www.gstatic.com/generate_204").unwrap();
    assert!(!get.tunnel);
    assert!(get
        .request
        .starts_with("GET http://www.gstatic.com/generate_204 HTTP/1.1\r\n"));
    assert!(check_plan("ftp://example/").is_err());
}

#[test]
fn status_lines_are_read_and_refused() {
    assert_eq!(status_code("HTTP/1.1 204 No Content"), Ok(204));
    assert_eq!(status_code(""), Err(StatusProblem::NoVersion));
    assert_eq!(status_code("HTTP/1.1"), Err(StatusProblem::NoCode));
    assert_eq!(
        status_code("HTTP/1.1 ok"),
        Err(StatusProblem::CodeNotNumeric)
    );
    assert_eq!(
        scan_status_line(&b"HTTP/1.1 204 No Content\r\nX: y".to_vec()),
        StatusScan::Line(23)
    );
    assert_eq!(scan_status_line(&b"HTTP/1.1 2".to_vec()), StatusScan::More);
    assert_eq!(
        StatusProblem::CodeNotNumeric.message(),
        "status code is not a number"
    );
}

#[test]
fn only_two_hundreds_are_healthy() {
    assert!(is_success(200));
    assert!(is_success(299));
    assert!(!is_success(199));
    assert!(!is_success(301), "a redirecting origin is not healthy");
    assert!(!is_success(503));
}

#[test]
fn a_granted_tunnel_must_answer_the_probe() {
    assert!(wants_tunnel_probe(true, 200));
    assert!(!wants_tunnel_probe(true, 502));
    assert!(!wants_tunnel_probe(false, 200));
    assert_eq!(check_result(true, 200, 0), None);
    assert_eq!(check_result(true, 200, 1), Some(200));
    assert_eq!(check_result(true, 502, 0), Some(502));
    assert_eq!(check_result(false, 204, 0), Some(204));
}

#[test]
fn any_failed_sample_sinks_the_tick() {
    let tick = SampleTick::begin(3);
    assert!(!tick.wants_pause());
    let tick = take_sample(tick, Some(true)).unwrap_err();
    assert!(tick.wants_pause());
    assert_eq!(take_sample(tick, Some(false)), Ok(SampledVerdict::Unhealthy));
    assert_eq!(take_sample(tick, None), Ok(SampledVerdict::Cancelled));
    let tick = take_sample(tick, Some(true)).unwrap_err();
    assert_eq!(take_sample(tick, Some(true)), Ok(SampledVerdict::Healthy));
    // No samples asked for still takes one.
    assert_eq!(
        take_sample(SampleTick::begin(0), Some(true)),
        Ok(SampledVerdict::Healthy)
    );
}
