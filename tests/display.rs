use phonoscope::display::{heading, shown_characters, shown_reading, Display};
use phonoscope::parser::{Lyric, Ruby};
use phonoscope::players::describe;
use phonoscope::timestamp::Timestamp;

fn lyric(secs: u64) -> Lyric {
    Lyric { timestamp: Timestamp::new(secs, 0), rubies: Vec::new() }
}

#[test]
fn display_draws_each_line_once() {
    let mut d = Display::new();
    d.loaded(vec![lyric(0), lyric(5), lyric(10)]);
    // The first line sits at zero, the timestamp taken as drawn at the start.
    assert_eq!(d.poll(Timestamp::new(1, 0)), None);
    assert_eq!(d.poll(Timestamp::new(6, 0)), Some(1));
    assert_eq!(d.cached, Timestamp::new(5, 0));
    assert_eq!(d.poll(Timestamp::new(7, 0)), None);
    assert_eq!(d.poll(Timestamp::new(11, 0)), Some(2));
    d.initialise();
    assert!(d.lyrics.is_empty());
    assert_eq!(d.poll(Timestamp::new(12, 0)), None);
}

#[test]
fn blocks_as_drawn() {
    let empty = Ruby { characters: String::new(), reading: None };
    assert_eq!(shown_characters(&empty), " ");
    assert_eq!(shown_reading(&empty), "");
    let full = Ruby { characters: "字".to_string(), reading: Some("じ".to_string()) };
    assert_eq!(shown_characters(&full), "字");
    assert_eq!(shown_reading(&full), "じ");
}

#[test]
fn window_heading() {
    assert_eq!(heading(&Some("Song".to_string())), "Song");
    assert_eq!(heading(&None), "No track currently playing.");
}

#[test]
fn player_report() {
    assert_eq!(
        describe("VLC", ":1.42", Some(Some("Song".to_string()))),
        "Found player: VLC (bus name :1.42) (Song)"
    );
    assert_eq!(
        describe("VLC", ":1.42", Some(None)),
        "Found player: VLC (bus name :1.42) (No track currently playing.)"
    );
    assert_eq!(
        describe("VLC", ":1.42", None),
        "Found player: VLC (bus name :1.42) (Unable to ascertain current track.)"
    );
}

#[test]
fn display_with_lines_out_of_order() {
    let mut d = Display::new();
    d.loaded(vec![lyric(10), lyric(2), lyric(7)]);
    assert!(!d.sorted);
    assert_eq!(d.poll(Timestamp::new(8, 0)), Some(2));
    assert_eq!(d.poll(Timestamp::new(9, 0)), None);
    assert_eq!(d.poll(Timestamp::new(3, 0)), Some(1));
    d.loaded(vec![lyric(1), lyric(2)]);
    assert!(d.sorted);
    // The line at two seconds was the one drawn last.
    assert_eq!(d.poll(Timestamp::new(3, 0)), None);
    assert_eq!(d.poll(Timestamp::new(1, 5)), Some(0));
}
