use mirror_select::country::Country;
use mirror_select::events::ProgressEvent;
use mirror_select::mirror::{Mirror, MirrorUrl, VersionedMirror};
use mirror_select::protocol::Protocol;
use mirror_select::selector::select_latest;

fn mirror(name: &str) -> Mirror {
    let base = format!("https://{}.example/", name);
    let test = format!("https://{}.example/state", name);
    Mirror {
        country: Some(Country { name: name.to_string() }),
        url: MirrorUrl { scheme: Protocol::Https, text: base },
        url_to_test: test,
    }
}

fn probed(name: &str, update_number: Option<usize>) -> VersionedMirror {
    VersionedMirror { mirror: mirror(name), update_number }
}

#[test]
fn keeps_exactly_the_mirrors_at_the_maximum() {
    let results = vec![
        probed("a", Some(5)),
        probed("b", None),
        probed("c", Some(5)),
        probed("d", Some(3)),
    ];
    let (selected, event) = select_latest(results);
    assert_eq!(selected.len(), 2);
    assert_eq!(selected[0].url.text, "https://a.example/");
    assert_eq!(selected[1].url.text, "https://c.example/");
    match event {
        Some(ProgressEvent::TakingLatest { version }) => assert_eq!(version, 5),
        _ => panic!("expected the announcement of version 5"),
    }
}

#[test]
fn no_versions_select_nothing() {
    let results = vec![probed("a", None), probed("b", None)];
    let (selected, event) = select_latest(results);
    assert!(selected.is_empty());
    assert!(event.is_none());
}

#[test]
fn empty_input_selects_nothing() {
    let (selected, event) = select_latest(Vec::new());
    assert!(selected.is_empty());
    assert!(event.is_none());
}

#[test]
fn single_version_is_kept() {
    let results = vec![probed("a", None), probed("b", Some(0))];
    let (selected, event) = select_latest(results);
    assert_eq!(selected.len(), 1);
    assert_eq!(selected[0].url.text, "https://b.example/");
    let msg = event.unwrap().message();
    assert_eq!(msg, "TAKING MIRRORS WITH LATEST VERSION: 0");
}

#[test]
fn announcement_message_is_exact() {
    let results = vec![probed("a", Some(2024)), probed("b", Some(7))];
    let (selected, event) = select_latest(results);
    assert_eq!(selected.len(), 1);
    assert_eq!(event.unwrap().message(), "TAKING MIRRORS WITH LATEST VERSION: 2024");
}

#[test]
fn ties_preserve_completion_order() {
    let results = vec![
        probed("z", Some(9)),
        probed("m", Some(9)),
        probed("a", Some(9)),
    ];
    let (selected, _) = select_latest(results);
    let names: Vec<&str> = selected.iter().map(|m| m.url.text.as_str()).collect();
    assert_eq!(
        names,
        vec!["https://z.example/", "https://m.example/", "https://a.example/"]
    );
}
