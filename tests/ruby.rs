use phonoscope::ruby::{Line, Ruby};
use phonoscope::timestamp::Timestamp;

#[test]
fn formatted_line_reads_time_and_words() {
    let l = Line::from_formatted("01:02:03  春｜はる  夏 ");
    assert_eq!(l.timestamp, Timestamp::new(62, 3_000_000));
    assert_eq!(l.lyrics.len(), 2);
    assert_eq!(l.lyrics[0].characters, "春");
    assert_eq!(l.lyrics[0].reading.as_deref(), Some("はる"));
    assert_eq!(l.lyrics[1].characters, "夏");
    assert_eq!(l.lyrics[1].reading, None);
}

#[test]
fn formatted_ruby_splits_on_full_width_bar_only() {
    let r = Ruby::from_formatted("a|b");
    assert_eq!(r.characters, "a|b");
    assert_eq!(r.reading, None);
    let r = Ruby::from_formatted("字｜じ｜x");
    assert_eq!(r.characters, "字");
    assert_eq!(r.reading.as_deref(), Some("じ"));
}

#[test]
fn filedata_keeps_lines_that_are_not_empty() {
    let v = Line::from_filedata("00:01:00  a\n\n00:02:50  b c\n");
    assert_eq!(v.len(), 2);
    assert_eq!(v[0].timestamp, Timestamp::new(1, 0));
    assert_eq!(v[1].timestamp, Timestamp::new(2, 50_000_000));
    assert_eq!(v[1].lyrics.len(), 2);
}
