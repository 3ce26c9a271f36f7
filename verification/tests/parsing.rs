use adsys_mount::MountRequest;
use adsys_mount::parse_entries;
use adsys_mount::parse_line;

fn req(location: &str, anonymous: bool) -> MountRequest {
    MountRequest { location: location.to_string(), anonymous }
}

#[test]
fn parses_plain_and_anonymous_lines() {
    let parsed = parse_entries("smb://host/share1\n[anonymous]smb://host/share2");
    assert_eq!(parsed, vec![req("smb://host/share1", false), req("smb://host/share2", true)]);
}

#[test]
fn empty_content_yields_no_requests() {
    assert_eq!(parse_entries(""), vec![]);
}

#[test]
fn blank_lines_are_skipped() {
    let parsed = parse_entries("\nsmb://host/a\n\n\nnfs://host/b\n\n");
    assert_eq!(parsed, vec![req("smb://host/a", false), req("nfs://host/b", false)]);
}

#[test]
fn trailing_newline_adds_no_request() {
    assert_eq!(parse_entries("smb://host/a\n"), vec![req("smb://host/a", false)]);
}

#[test]
fn content_without_final_newline_is_parsed() {
    assert_eq!(
        parse_entries("smb://host/a\nsmb://host/b"),
        vec![req("smb://host/a", false), req("smb://host/b", false)]
    );
}

#[test]
fn marker_alone_yields_empty_anonymous_location() {
    assert_eq!(parse_entries("[anonymous]"), vec![req("", true)]);
}

#[test]
fn marker_not_at_line_start_is_kept() {
    assert_eq!(
        parse_entries("smb://host/[anonymous]share"),
        vec![req("smb://host/[anonymous]share", false)]
    );
}

#[test]
fn partial_marker_is_kept() {
    assert_eq!(parse_entries("[anonymou]smb://host/a"), vec![req("[anonymou]smb://host/a", false)]);
}

#[test]
fn parse_line_strips_the_marker() {
    assert_eq!(parse_line("[anonymous]smb://host/share2"), req("smb://host/share2", true));
}

#[test]
fn parse_line_keeps_a_plain_location() {
    assert_eq!(parse_line("smb://host/share1"), req("smb://host/share1", false));
}

#[test]
fn parse_line_handles_non_ascii_locations() {
    assert_eq!(parse_line("[anonymous]smb://hôte/données"), req("smb://hôte/données", true));
    assert_eq!(parse_entries("smb://hôte/à\n[anonymous]b"), vec![
        req("smb://hôte/à", false),
        req("b", true),
    ]);
}
