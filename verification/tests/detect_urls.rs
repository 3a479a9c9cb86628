//! URL detection in provider log lines, the racing slot, and the bounded
//! wait's verdict rule.

use tunnelkit::detect::{
    claim_url_slot, find_tunnel_url, judge_url_wait, url_scheme_allowed, WaitVerdict,
    URL_WAIT_DEADLINE_MS,
};

#[test]
fn finds_url_in_noisy_line() {
    let line = "2024-05-01T10:00:00Z INF |  https://able-bogus.trycloudflare.com  |";
    assert_eq!(
        find_tunnel_url(line),
        Some("https://able-bogus.trycloudflare.com".to_string())
    );
}

#[test]
fn finds_plain_http_url() {
    let line = "visit http://x9.trycloudflare.com now";
    assert_eq!(find_tunnel_url(line), Some("http://x9.trycloudflare.com".to_string()));
}

#[test]
fn line_without_url_gives_none() {
    assert_eq!(find_tunnel_url("starting tunnel, waiting for edge connection"), None);
    assert_eq!(find_tunnel_url(""), None);
}

#[test]
fn wrong_domain_gives_none() {
    assert_eq!(find_tunnel_url("https://abc.trycloudflare.org is not it"), None);
    assert_eq!(find_tunnel_url("https://abc.cloudflare.com either"), None);
}

#[test]
fn empty_host_gives_none() {
    // the wildcard domain alone, with no host label before it, is no match
    assert_eq!(find_tunnel_url("https://.trycloudflare.com"), None);
    assert_eq!(
        find_tunnel_url("https://a.trycloudflare.com"),
        Some("https://a.trycloudflare.com".to_string())
    );
}

#[test]
fn first_url_wins() {
    let line = "http://a1.trycloudflare.com then https://b2.trycloudflare.com";
    assert_eq!(find_tunnel_url(line), Some("http://a1.trycloudflare.com".to_string()));
}

#[test]
fn url_at_line_end_is_complete() {
    let line = "INF +--- https://quiet-lion-42.trycloudflare.com";
    assert_eq!(
        find_tunnel_url(line),
        Some("https://quiet-lion-42.trycloudflare.com".to_string())
    );
}

#[test]
fn claim_slot_first_writer_wins() {
    let mut slot: Option<String> = None;
    assert!(claim_url_slot(&mut slot, "https://one.trycloudflare.com".to_string()));
    assert!(!claim_url_slot(&mut slot, "https://two.trycloudflare.com".to_string()));
    assert_eq!(slot, Some("https://one.trycloudflare.com".to_string()));
}

#[test]
fn wait_verdict_found_before_deadline() {
    // a reader saw the URL on stderr 200 ms after the spawn: the start
    // succeeds with exactly that URL, well before the deadline
    let stderr_line = "2024-05-01T10:00:00Z INF https://late-bird.trycloudflare.com";
    let url = find_tunnel_url(stderr_line).unwrap_or_else(|| panic!("no url found"));
    let mut slot: Option<String> = None;
    assert!(claim_url_slot(&mut slot, url));
    match judge_url_wait(slot, 200) {
        WaitVerdict::Found(u) => assert_eq!(u, "https://late-bird.trycloudflare.com"),
        _ => panic!("expected Found"),
    }
}

#[test]
fn wait_verdict_keeps_waiting_until_deadline() {
    assert!(matches!(judge_url_wait(None, 0), WaitVerdict::KeepWaiting));
    assert!(matches!(
        judge_url_wait(None, URL_WAIT_DEADLINE_MS),
        WaitVerdict::KeepWaiting
    ));
}

#[test]
fn wait_verdict_times_out_past_deadline() {
    assert!(matches!(
        judge_url_wait(None, URL_WAIT_DEADLINE_MS + 1),
        WaitVerdict::TimedOut
    ));
}

#[test]
fn scheme_gate_allows_only_web_urls() {
    assert!(url_scheme_allowed("https://x.trycloudflare.com"));
    assert!(url_scheme_allowed("http://example.com/path"));
    assert!(!url_scheme_allowed("ftp://example.com"));
    assert!(!url_scheme_allowed("file:///etc/passwd"));
    assert!(!url_scheme_allowed(""));
    assert!(!url_scheme_allowed("https:/x"));
}

#[test]
fn multibyte_text_around_url_is_handled() {
    let line = "Grüße ███ https://über-alles.trycloudflare.com fertig";
    // the host run stops at the non-ASCII character, so the match starts
    // at the scheme and spans only host characters and the domain
    assert_eq!(find_tunnel_url(line), None);
    let line2 = "приветствие: http://ok-42.trycloudflare.com готово";
    assert_eq!(find_tunnel_url(line2), Some("http://ok-42.trycloudflare.com".to_string()));
}
