//! Site probes: URLs, requests, status classes.

use causeway::siteprobe::{
    classify_status, connect_request, get_request, https_parts, read_line_code, site_verdict,
    split_https_url, tunnel_refusal, SiteAttempt, SiteStatus, SiteUrlProblem, SiteVerdict,
};

#[test]
fn status_classification_separates_refusals_from_ambiguity() {
    assert_eq!(classify_status(200), SiteStatus::Served);
    assert_eq!(classify_status(301), SiteStatus::Served);
    assert_eq!(classify_status(403), SiteStatus::Blocked);
    assert_eq!(classify_status(429), SiteStatus::Blocked);
    assert_eq!(classify_status(451), SiteStatus::Blocked);
    assert_eq!(classify_status(401), SiteStatus::Blocked);
    // Ambiguous: never rotate on these
    assert_eq!(classify_status(404), SiteStatus::Unknown);
    assert_eq!(classify_status(500), SiteStatus::Unknown);
    assert_eq!(classify_status(503), SiteStatus::Unknown);
}

#[test]
fn https_url_splitting_accepts_only_https_authorities() {
    let site = split_https_url("https://www.cnbc.com/markets/").unwrap();
    assert_eq!(site.host, "www.cnbc.com");
    assert_eq!(site.port, 443);
    assert_eq!(site.target, "/markets/");

    let site = split_https_url("https://example.org:8443/x?y=1").unwrap();
    assert_eq!(site.host, "example.org");
    assert_eq!(site.port, 8443);
    assert_eq!(site.target, "/x?y=1");

    assert!(split_https_url("http://plain.example/").is_err());
    assert!(split_https_url("https://user@example.com/").is_err());
    assert!(split_https_url("https:///path").is_err());
}

#[test]
fn site_url_problems_are_told_apart() {
    assert_eq!(
        split_https_url("http://plain.example/"),
        Err(SiteUrlProblem::NotHttps)
    );
    assert_eq!(
        split_https_url("https://user@example.com/"),
        Err(SiteUrlProblem::BadAuthority)
    );
    assert_eq!(
        split_https_url("https://example.com:port/"),
        Err(SiteUrlProblem::BadPort)
    );
    // The parts are fine, but no TLS server can have this name.
    assert!(https_parts("https://a..b/").is_ok());
    assert_eq!(
        split_https_url("https://a..b/"),
        Err(SiteUrlProblem::BadServerName)
    );
    assert_eq!(
        SiteUrlProblem::NotHttps.message(),
        "site probe URL must be https://"
    );
}

#[test]
fn site_requests_name_the_host_and_the_agent() {
    let site = split_https_url("https://example.org:8443/x?y=1").unwrap();
    assert!(connect_request(&site).starts_with("CONNECT example.org:8443 HTTP/1.1\r\n"));
    let get = get_request(&site, "agent/1");
    assert!(get.starts_with("GET /x?y=1 HTTP/1.1\r\nHost: example.org"));
    assert!(get.contains("User-Agent: agent/1\r\n"));
    assert!(get.ends_with("\r\n\r\n"));
    assert_eq!(read_line_code("HTTP/1.1 403 Forbidden"), Ok(403));
    assert!(read_line_code("garbage").is_err());
}

#[test]
fn verdicts_keep_the_code_or_the_detail() {
    assert_eq!(
        site_verdict(7, SiteAttempt::Answered(403)),
        SiteVerdict {
            status: SiteStatus::Blocked,
            http_status: Some(403),
            checked_unix: 7,
            detail: None,
        }
    );
    assert_eq!(
        site_verdict(8, SiteAttempt::Failed("timed out".to_string())),
        SiteVerdict {
            status: SiteStatus::Unknown,
            http_status: None,
            checked_unix: 8,
            detail: Some("timed out".to_string()),
        }
    );
    let detail = |a| site_verdict(8, a).detail.unwrap();
    assert_eq!(
        detail(SiteAttempt::NoPorts("full".to_string())),
        "reserve adapter ports: full"
    );
    assert_eq!(
        detail(SiteAttempt::NotStarted("no program".to_string())),
        "start data plane: no program"
    );
    assert_eq!(tunnel_refusal(200), None);
    assert_eq!(
        tunnel_refusal(204).as_deref(),
        Some("proxy CONNECT returned HTTP 204")
    );
    assert_eq!(SiteStatus::Served.as_str(), "ok");
    assert_eq!(SiteStatus::Blocked.as_str(), "blocked");
    assert_eq!(SiteStatus::Unknown.as_str(), "unknown");
}
