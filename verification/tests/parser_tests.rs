use mirror_select::parser::{parse_mirror_list, AppError};
use mirror_select::protocol::{Config, Protocol};

fn https_only() -> Config {
    Config { allow_http: false, allow_https: true, allow_rsync: false }
}

#[test]
fn two_countries_two_mirrors() {
    let doc = "## France\nServer = https://a.example/$repo/$arch\n## Germany\nServer = https://b.example/$repo/$arch";
    let mirrors = parse_mirror_list(doc, &https_only(), "state").unwrap();
    assert_eq!(mirrors.len(), 2);
    assert_eq!(mirrors[0].country.as_ref().unwrap().name, "France");
    assert_eq!(mirrors[0].url.scheme, Protocol::Https);
    assert_eq!(mirrors[0].url.text, "https://a.example/");
    assert_eq!(mirrors[0].url_to_test, "https://a.example/state");
    assert_eq!(mirrors[1].country.as_ref().unwrap().name, "Germany");
    assert_eq!(mirrors[1].url.text, "https://b.example/");
    assert_eq!(mirrors[1].url_to_test, "https://b.example/state");
}

#[test]
fn comments_and_blank_lines_are_skipped() {
    let doc = "# a comment\n\n#another\nServer = https://a.example/$repo/$arch\n";
    let mirrors = parse_mirror_list(doc, &https_only(), "state").unwrap();
    assert_eq!(mirrors.len(), 1);
    assert!(mirrors[0].country.is_none());
}

#[test]
fn malformed_url_is_dropped_without_error() {
    let doc = "Server = not a url$repo/$arch\nServer = https://ok.example/$repo/$arch";
    let mirrors = parse_mirror_list(doc, &https_only(), "state").unwrap();
    assert_eq!(mirrors.len(), 1);
    assert_eq!(mirrors[0].url.text, "https://ok.example/");
}

#[test]
fn disallowed_protocol_is_dropped() {
    let doc = "Server = http://plain.example/$repo/$arch\nServer = https://tls.example/$repo/$arch";
    let mirrors = parse_mirror_list(doc, &https_only(), "state").unwrap();
    assert_eq!(mirrors.len(), 1);
    assert_eq!(mirrors[0].url.scheme, Protocol::Https);
}

#[test]
fn unknown_scheme_is_dropped() {
    let doc = "Server = ftp://old.example/$repo/$arch";
    let mirrors = parse_mirror_list(doc, &https_only(), "state").unwrap();
    assert_eq!(mirrors.len(), 0);
}

#[test]
fn unparseable_country_tag_resets_to_unknown() {
    let doc = "## France\nServer = https://a.example/$repo/$arch\n## \nServer = https://b.example/$repo/$arch";
    let mirrors = parse_mirror_list(doc, &https_only(), "state").unwrap();
    assert_eq!(mirrors.len(), 2);
    assert_eq!(mirrors[0].country.as_ref().unwrap().name, "France");
    assert!(mirrors[1].country.is_none());
}

#[test]
fn join_failure_is_fatal() {
    // a cannot-be-a-base URL with a known scheme reaches the join and fails it
    let doc = "Server = rsync:offline-pool$repo/$arch";
    let cfg = Config { allow_http: true, allow_https: true, allow_rsync: true };
    let r = parse_mirror_list(doc, &cfg, "state");
    assert!(matches!(r, Err(AppError::UrlJoinFailed)));
}

#[test]
fn crlf_lines_are_handled() {
    let doc = "## France\r\nServer = https://a.example/$repo/$arch\r\n";
    let mirrors = parse_mirror_list(doc, &https_only(), "state").unwrap();
    assert_eq!(mirrors.len(), 1);
    assert_eq!(mirrors[0].country.as_ref().unwrap().name, "France");
}

#[test]
fn scheme_is_normalized_by_url_parsing() {
    let doc = "Server = HTTPS://a.example/$repo/$arch";
    let mirrors = parse_mirror_list(doc, &https_only(), "state").unwrap();
    assert_eq!(mirrors.len(), 1);
    assert_eq!(mirrors[0].url.scheme, Protocol::Https);
    assert_eq!(mirrors[0].url.text, "https://a.example/");
}

#[test]
fn allow_list_admits_every_named_protocol() {
    let doc = "Server = http://a.example/$repo/$arch\nServer = rsync://b.example/$repo/$arch";
    let cfg = Config { allow_http: true, allow_https: false, allow_rsync: true };
    let mirrors = parse_mirror_list(doc, &cfg, "state").unwrap();
    assert_eq!(mirrors.len(), 2);
    assert_eq!(mirrors[0].url.scheme, Protocol::Http);
    assert_eq!(mirrors[1].url.scheme, Protocol::Rsync);
}
