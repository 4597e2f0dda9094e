use phonoscope::timestamp::Timestamp;
use phonoscope::warden::{Command, Endpoint, Event, Output, Sample, Warden, POLL_INTERVAL_MS};

fn sample(title: Option<&str>, secs: u64) -> Option<Sample> {
    Some(Sample { title: title.map(|t| t.to_string()), position: Timestamp::new(secs, 0) })
}

fn session_of(c: Command) -> u64 {
    match c {
        Command::Query { session, .. } => session,
        other => panic!("expected a query, got {:?}", other),
    }
}

#[test]
fn same_title_twice_is_told_once() {
    let mut w = Warden::new();
    let r = w.update(Event::Select(0));
    assert!(r.outputs.is_empty());
    assert_eq!(r.command, Command::Query { session: 1, index: 0, delay_ms: 0 });
    let s = session_of(r.command);

    let r1 = w.update(Event::Poll(s, sample(Some("Song"), 1)));
    assert_eq!(r1.outputs.len(), 2);
    assert!(matches!(&r1.outputs[0], Output::TrackChanged(Some(t)) if t == "Song"));
    assert!(matches!(&r1.outputs[1], Output::PositionTick(p) if *p == Timestamp::new(1, 0)));
    assert_eq!(r1.command, Command::Query { session: s, index: 0, delay_ms: POLL_INTERVAL_MS });

    let r2 = w.update(Event::Poll(s, sample(Some("Song"), 2)));
    assert_eq!(r2.outputs.len(), 1);
    assert!(matches!(&r2.outputs[0], Output::PositionTick(p) if *p == Timestamp::new(2, 0)));
}

#[test]
fn new_title_is_told_again() {
    let mut w = Warden::new();
    let s = session_of(w.update(Event::Select(2)).command);
    w.update(Event::Poll(s, sample(Some("A"), 1)));
    let r = w.update(Event::Poll(s, sample(Some("B"), 2)));
    assert_eq!(r.outputs.len(), 2);
    assert!(matches!(&r.outputs[0], Output::TrackChanged(Some(t)) if t == "B"));
    let r = w.update(Event::Poll(s, sample(None, 3)));
    assert!(matches!(&r.outputs[0], Output::TrackChanged(None)));
    let r = w.update(Event::Poll(s, sample(None, 4)));
    assert_eq!(r.outputs.len(), 1);
}

#[test]
fn first_poll_without_title_is_told() {
    let mut w = Warden::new();
    let s = session_of(w.update(Event::Select(0)).command);
    let r = w.update(Event::Poll(s, sample(None, 0)));
    assert_eq!(r.outputs.len(), 2);
    assert!(matches!(&r.outputs[0], Output::TrackChanged(None)));
}

#[test]
fn failed_poll_resets_once() {
    let mut w = Warden::new();
    let s = session_of(w.update(Event::Select(0)).command);
    let r = w.update(Event::Poll(s, None));
    assert_eq!(r.outputs.len(), 1);
    assert!(matches!(r.outputs[0], Output::Reset));
    assert_eq!(r.command, Command::Nothing);
    assert_eq!(w.selected, None);

    let r = w.update(Event::Poll(s, sample(Some("X"), 1)));
    assert!(r.outputs.is_empty());
    assert_eq!(r.command, Command::Nothing);
    let r = w.update(Event::Poll(s, None));
    assert!(r.outputs.is_empty());

    let s2 = session_of(w.update(Event::Select(0)).command);
    assert_ne!(s, s2);
    let r = w.update(Event::Poll(s2, sample(Some("X"), 1)));
    assert_eq!(r.outputs.len(), 2);
}

#[test]
fn poll_without_selection_does_nothing() {
    let mut w = Warden::new();
    let r = w.update(Event::Poll(0, sample(Some("X"), 1)));
    assert!(r.outputs.is_empty());
    assert_eq!(r.command, Command::Nothing);
}

#[test]
fn reselection_drops_the_old_session() {
    let mut w = Warden::new();
    let old = session_of(w.update(Event::Select(0)).command);
    w.update(Event::Poll(old, sample(Some("A"), 1)));
    let new = session_of(w.update(Event::Select(1)).command);
    let r = w.update(Event::Poll(old, sample(Some("A"), 2)));
    assert!(r.outputs.is_empty());
    assert_eq!(r.command, Command::Nothing);
    let r = w.update(Event::Poll(new, sample(Some("A"), 3)));
    assert_eq!(r.outputs.len(), 2);
    assert_eq!(r.command, Command::Query { session: new, index: 1, delay_ms: POLL_INTERVAL_MS });
}

#[test]
fn session_wraps_at_the_largest_value() {
    let mut w = Warden::new();
    w.session = u64::MAX;
    let r = w.update(Event::Select(0));
    assert_eq!(r.command, Command::Query { session: 0, index: 0, delay_ms: 0 });
}

#[test]
fn discovery_is_asked_and_reported() {
    let mut w = Warden::new();
    let r = w.update(Event::Players);
    assert!(r.outputs.is_empty());
    assert_eq!(r.command, Command::Discover);
    let list = vec![Endpoint::new("org.mpris.MediaPlayer2.vlc", ":1.42", "VLC")];
    let r = w.update(Event::Found(Ok(list)));
    assert_eq!(r.command, Command::Nothing);
    match &r.outputs[0] {
        Output::EndpointsFetched(v) => {
            assert_eq!(v.len(), 1);
            assert_eq!(v[0].identity, "VLC");
            assert_eq!(v[0].bus_name, "org.mpris.MediaPlayer2.vlc");
            assert_eq!(v[0].unique_name, ":1.42");
        }
        other => panic!("unexpected {:?}", other),
    }
}

#[test]
fn discovery_failure_is_reported_and_keeps_selection() {
    let mut w = Warden::new();
    let s = session_of(w.update(Event::Select(0)).command);
    let r = w.update(Event::Found(Err("no bus".to_string())));
    assert!(matches!(&r.outputs[0], Output::DiscoveryFailed(m) if m == "no bus"));
    assert_eq!(w.selected, Some(0));
    assert_eq!(w.session, s);
}
