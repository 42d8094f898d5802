use mirror_select::country::Country;
use mirror_select::mirror::{Mirror, MirrorUrl};
use mirror_select::prober::{classify_probe, ProbeOutcome, ProbeRound};
use mirror_select::protocol::Protocol;

fn mirror(name: &str) -> Mirror {
    let base = format!("https://{}.example/", name);
    let test = format!("https://{}.example/state", name);
    Mirror {
        country: Some(Country { name: name.to_string() }),
        url: MirrorUrl { scheme: Protocol::Https, text: base },
        url_to_test: test,
    }
}

#[test]
fn classify_reads_the_first_body_line() {
    let (vm, ev) = classify_probe(mirror("a"), &ProbeOutcome::Body("3\n2024-01-01".to_string()));
    assert_eq!(vm.update_number, Some(3));
    assert_eq!(ev.message(), "FETCHED MIRROR VERSION 3: https://a.example/");
}

#[test]
fn classify_accepts_a_leading_plus() {
    let (vm, _) = classify_probe(mirror("a"), &ProbeOutcome::Body("+7".to_string()));
    assert_eq!(vm.update_number, Some(7));
}

#[test]
fn classify_rejects_an_unreadable_number() {
    let (vm, ev) = classify_probe(mirror("a"), &ProbeOutcome::Body("Yesterday".to_string()));
    assert_eq!(vm.update_number, None);
    assert_eq!(ev.message(), "FAILED TO READ MIRROR UPDATE NUMBER: https://a.example/");
}

#[test]
fn classify_rejects_an_overflowing_number() {
    let (vm, _) = classify_probe(
        mirror("a"),
        &ProbeOutcome::Body("99999999999999999999999999".to_string()),
    );
    assert_eq!(vm.update_number, None);
}

#[test]
fn classify_reports_an_empty_body() {
    let (vm, ev) = classify_probe(mirror("a"), &ProbeOutcome::Body(String::new()));
    assert_eq!(vm.update_number, None);
    assert_eq!(ev.message(), "EMPTY MIRROR STATE: https://a.example/");
}

#[test]
fn classify_reports_connect_and_read_failures() {
    let (vm, ev) = classify_probe(mirror("a"), &ProbeOutcome::ConnectFailed);
    assert_eq!(vm.update_number, None);
    assert_eq!(ev.message(), "FAILED TO CONNECT: https://a.example/");
    let (vm, ev) = classify_probe(mirror("a"), &ProbeOutcome::ReadFailed);
    assert_eq!(vm.update_number, None);
    assert_eq!(ev.message(), "FAILED TO READ STATE: https://a.example/");
}

#[test]
fn round_bounds_probes_in_flight() {
    let mirrors = vec![mirror("a"), mirror("b"), mirror("c"), mirror("d")];
    let mut round = ProbeRound::new(mirrors, 2);
    assert!(round.can_launch());
    let m1 = round.launch();
    let m2 = round.launch();
    assert_eq!(m1.url.text, "https://a.example/");
    assert_eq!(m2.url.text, "https://b.example/");
    // two probes are in flight: the bound refuses a third
    assert!(!round.can_launch());
    let _ev = round.complete(m2, &ProbeOutcome::Body("5".to_string()));
    assert!(round.can_launch());
    let m3 = round.launch();
    assert!(!round.can_launch());
    let _ev = round.complete(m1, &ProbeOutcome::ConnectFailed);
    let m4 = round.launch();
    assert!(!round.can_launch());
    let _ev = round.complete(m4, &ProbeOutcome::Body(String::new()));
    let _ev = round.complete(m3, &ProbeOutcome::Body("4".to_string()));
    assert!(round.is_done());
    let results = round.into_results();
    assert_eq!(results.len(), 4);
    // completion order, not launch order
    assert_eq!(results[0].mirror.url.text, "https://b.example/");
    assert_eq!(results[0].update_number, Some(5));
    assert_eq!(results[1].update_number, None);
    assert_eq!(results[2].update_number, None);
    assert_eq!(results[3].update_number, Some(4));
}

#[test]
fn round_emits_one_event_per_mirror() {
    let mirrors = vec![mirror("a"), mirror("b"), mirror("c")];
    let mut round = ProbeRound::new(mirrors, 1);
    let mut events: Vec<String> = Vec::new();
    for _ in 0..3 {
        assert!(round.can_launch());
        let m = round.launch();
        let ev = round.complete(m, &ProbeOutcome::ReadFailed);
        events.push(ev.message());
    }
    assert!(round.is_done());
    let results = round.into_results();
    assert_eq!(events.len(), 3);
    assert_eq!(results.len(), 3);
    assert_eq!(events[0], "FAILED TO READ STATE: https://a.example/");
}
