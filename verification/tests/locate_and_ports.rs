//! The binary locator's candidate order, and the scanner/killer parsing
//! helpers.

use tunnelkit::locate::{
    candidate_names, common_locations, first_existing, is_blank, join_path,
    locator_candidates, looks_like_path, tunnel_command_args, CloudflareProvider, Platform,
};
use tunnelkit::port::{
    collect_port_infos, is_no_such_process, parse_port_from_local, parse_port_from_name,
    PortInfo,
};

#[test]
fn default_provider_uses_bare_command() {
    let p = CloudflareProvider::default();
    assert_eq!(p.binary, "cloudflared");
    assert_eq!(p.name(), "cloudflare");
}

#[test]
fn path_detection_needs_a_separator() {
    assert!(looks_like_path("./bin/cloudflared"));
    assert!(looks_like_path("C:\\Tools\\cloudflared.exe"));
    assert!(!looks_like_path("cloudflared"));
}

#[test]
fn blank_detection_ignores_whitespace_only() {
    assert!(is_blank(""));
    assert!(is_blank(" \t\r\n"));
    assert!(!is_blank(" x "));
}

#[test]
fn candidate_names_are_platform_appropriate() {
    let win = candidate_names(Platform::Windows);
    assert_eq!(win, vec!["cloudflared.exe".to_string(), "cloudflared".to_string()]);
    let linux = candidate_names(Platform::Linux);
    assert_eq!(linux, vec!["cloudflared".to_string()]);
}

#[test]
fn join_uses_platform_separator() {
    assert_eq!(join_path("/opt", "cloudflared", Platform::Linux), "/opt/cloudflared");
    assert_eq!(
        join_path("C:\\Apps", "cloudflared.exe", Platform::Windows),
        "C:\\Apps\\cloudflared.exe"
    );
}

#[test]
fn linux_candidate_order_follows_the_rungs() {
    let roots: Vec<String> = vec![];
    let c = locator_candidates(
        "./vendor/cloudflared",
        Some("/override/cf"),
        Some("/app/bin"),
        None,
        &roots,
        Platform::Linux,
    );
    assert_eq!(
        c,
        vec![
            "./vendor/cloudflared".to_string(),
            "/override/cf".to_string(),
            "/app/bin/cloudflared".to_string(),
            "/usr/local/bin/cloudflared".to_string(),
            "/usr/bin/cloudflared".to_string(),
            "/snap/bin/cloudflared".to_string(),
        ]
    );
}

#[test]
fn bare_command_and_blank_override_are_skipped() {
    let roots: Vec<String> = vec![];
    let c = locator_candidates("cloudflared", Some("   "), None, None, &roots, Platform::Linux);
    assert_eq!(
        c,
        vec![
            "/usr/local/bin/cloudflared".to_string(),
            "/usr/bin/cloudflared".to_string(),
            "/snap/bin/cloudflared".to_string(),
        ]
    );
}

#[test]
fn macos_candidates_include_resources_directory() {
    let roots: Vec<String> = vec![];
    let c = locator_candidates(
        "cloudflared",
        None,
        Some("/Applications/Quick.app/Contents/MacOS"),
        Some("/Applications/Quick.app/Contents/Resources"),
        &roots,
        Platform::MacOs,
    );
    assert_eq!(
        c,
        vec![
            "/Applications/Quick.app/Contents/MacOS/cloudflared".to_string(),
            "/Applications/Quick.app/Contents/Resources/cloudflared".to_string(),
            "/opt/homebrew/bin/cloudflared".to_string(),
            "/usr/local/bin/cloudflared".to_string(),
            "/usr/bin/cloudflared".to_string(),
        ]
    );
}

#[test]
fn windows_common_locations_search_each_root() {
    let roots = vec!["C:\\Program Files".to_string(), "C:\\Users\\me\\AppData\\Local".to_string()];
    let c = common_locations(Platform::Windows, &roots);
    assert_eq!(
        c,
        vec![
            "C:\\ProgramData\\chocolatey\\bin\\cloudflared.exe".to_string(),
            "C:\\Program Files\\Cloudflare\\cloudflared.exe".to_string(),
            "C:\\Program Files\\cloudflared\\cloudflared.exe".to_string(),
            "C:\\Users\\me\\AppData\\Local\\Cloudflare\\cloudflared.exe".to_string(),
            "C:\\Users\\me\\AppData\\Local\\cloudflared\\cloudflared.exe".to_string(),
        ]
    );
}

#[test]
fn first_existing_picks_the_first_hit() {
    let candidates = vec!["a".to_string(), "b".to_string(), "c".to_string()];
    assert_eq!(first_existing(&candidates, &vec![false, true, true]), Some(1));
    assert_eq!(first_existing(&candidates, &vec![false, false, false]), None);
    let empty: Vec<String> = vec![];
    assert_eq!(first_existing(&empty, &vec![]), None);
}

#[test]
fn parse_local_address_takes_suffix_after_last_colon() {
    assert_eq!(parse_port_from_local("127.0.0.1:8080"), Some(8080));
    assert_eq!(parse_port_from_local("[::1]:443"), Some(443));
    assert_eq!(parse_port_from_local("no-colon"), None);
    assert_eq!(parse_port_from_local("x:"), None);
    assert_eq!(parse_port_from_local("x:99999"), None);
    assert_eq!(parse_port_from_local("x:65535"), Some(65535));
    assert_eq!(parse_port_from_local("x:12ab"), None);
}

#[test]
fn parse_name_column_takes_leading_digits() {
    assert_eq!(parse_port_from_name("localhost:8080"), Some(8080));
    assert_eq!(parse_port_from_name("*:3000 (LISTEN)"), Some(3000));
    assert_eq!(parse_port_from_name("*:http"), None);
    assert_eq!(parse_port_from_name("host:65536x"), None);
    assert_eq!(parse_port_from_name("nocolon"), None);
}

#[test]
fn kill_complaint_detection() {
    assert!(is_no_such_process("kill: (123) - No such process"));
    assert!(!is_no_such_process("operation not permitted"));
    assert!(!is_no_such_process(""));
}

#[test]
fn scan_rows_keep_first_per_port_sorted() {
    let row = |port: u16, pid: u32| PortInfo {
        port,
        pid,
        protocol: "tcp".to_string(),
        process_name: String::new(),
        address: String::new(),
        user: String::new(),
        fd: String::new(),
        command: None,
        is_active: true,
    };
    let rows = vec![row(9000, 1), row(80, 2), row(9000, 3), row(443, 4)];
    let out = collect_port_infos(rows);
    let seen: Vec<(u16, u32)> = out.iter().map(|p| (p.port, p.pid)).collect();
    assert_eq!(seen, vec![(80, 2), (443, 4), (9000, 1)]);
}

#[test]
fn provider_command_line_requests_the_forward() {
    let args = tunnel_command_args(8080);
    assert_eq!(
        args,
        vec![
            "tunnel".to_string(),
            "--url".to_string(),
            "http://localhost:8080".to_string(),
            "--no-autoupdate".to_string(),
        ]
    );
    assert_eq!(tunnel_command_args(0)[2], "http://localhost:0");
    assert_eq!(tunnel_command_args(65535)[2], "http://localhost:65535");
}
