use mirror_select::country::Country;
use mirror_select::mirror::{Mirror, MirrorUrl};
use mirror_select::protocol::{Config, Protocol};
use mirror_select::target::EndeavourOSTarget;
use mirror_select::text::{parse_usize, remove_all, to_decimal};

fn target() -> EndeavourOSTarget {
    EndeavourOSTarget {
        mirror_list_file: "https://list.example/mirrorlist".to_string(),
        path_to_test: "state".to_string(),
        comment_prefix: "# ".to_string(),
        fetch_mirrors_timeout: 15000,
        version_mirror_timeout: 5000,
        version_mirror_concurrency: 4,
    }
}

#[test]
fn format_mirror_writes_a_list_line() {
    let m = Mirror {
        country: Some(Country { name: "France".to_string() }),
        url: MirrorUrl { scheme: Protocol::Https, text: "https://a.example/".to_string() },
        url_to_test: "https://a.example/state".to_string(),
    };
    assert_eq!(target().format_mirror(&m), "Server = https://a.example/$repo/$arch");
}

#[test]
fn format_comment_prefixes_the_message() {
    assert_eq!(target().format_comment("chosen 3 mirrors"), "# chosen 3 mirrors");
}

#[test]
fn format_mirror_line_parses_back() {
    let m = Mirror {
        country: None,
        url: MirrorUrl { scheme: Protocol::Https, text: "https://a.example/".to_string() },
        url_to_test: "https://a.example/state".to_string(),
    };
    let line = target().format_mirror(&m);
    let cfg = Config { allow_http: false, allow_https: true, allow_rsync: false };
    let parsed = target().parse_mirror_list(&line, &cfg).unwrap();
    assert_eq!(parsed.len(), 1);
    assert_eq!(parsed[0].url.text, "https://a.example/");
}

#[test]
fn decimal_writing_is_exact() {
    assert_eq!(to_decimal(0), "0");
    assert_eq!(to_decimal(7), "7");
    assert_eq!(to_decimal(2024), "2024");
    assert_eq!(to_decimal(1000), "1000");
}

#[test]
fn decimal_reading_matches_std_parsing() {
    for s in ["0", "7", "2024", "+15", "", "abc", "12x", " 3", "18446744073709551615",
        "18446744073709551616", "+"] {
        assert_eq!(parse_usize(s), s.parse::<usize>().ok(), "input {:?}", s);
    }
}

#[test]
fn remove_all_strips_every_occurrence() {
    assert_eq!(remove_all("Server = Server = x", "Server = "), "x");
    assert_eq!(remove_all("abcabc", "abc"), "");
    assert_eq!(remove_all("aaa", "aa"), "a");
    assert_eq!(remove_all("plain", "zz"), "plain");
}
