use phonoscope::parser::{Error, Lyric, Parser, Ruby};
use phonoscope::timestamp::Timestamp;

fn ts(secs: u64, nanos: u32) -> Timestamp {
    Timestamp::new(secs, nanos)
}

fn line(text: &str) -> Lyric {
    match Lyric::new(text) {
        Ok(l) => l,
        Err(Error::Malformed(t)) => panic!("refused: {}", t),
    }
}

fn is_malformed(text: &str) -> bool {
    matches!(Lyric::new(text), Err(Error::Malformed(t)) if t == text)
}

#[test]
fn parses_a_line_with_a_reading() {
    let l = line("[00:01.50] hello|world foo");
    assert_eq!(l.timestamp, ts(1, 500_000_000));
    assert_eq!(l.rubies.len(), 2);
    assert_eq!(l.rubies[0].characters, "hello");
    assert_eq!(l.rubies[0].reading.as_deref(), Some("world"));
    assert_eq!(l.rubies[1].characters, "foo");
    assert_eq!(l.rubies[1].reading, None);
}

#[test]
fn clock_zero() {
    assert_eq!(line("[00:00.00] a").timestamp, ts(0, 0));
}

#[test]
fn clock_one_minute_two_seconds() {
    assert_eq!(line("[01:02.03] a").timestamp, ts(62, 30_000_000));
}

#[test]
fn clock_last_of_the_hour() {
    assert_eq!(line("[59:59.99] a").timestamp, ts(3599, 990_000_000));
}

#[test]
fn clock_with_long_fields() {
    assert_eq!(line("[123:7.05] a").timestamp, ts(123 * 60 + 7, 50_000_000));
}

#[test]
fn clock_that_overflows_is_refused() {
    assert!(is_malformed("[99999999999999999999:00.00] a"));
    assert!(is_malformed("[307445734561825861:00.00] a"));
}

#[test]
fn clock_at_the_largest_seconds() {
    // 60 * 307445734561825860 + 15 == u64::MAX
    let l = line("[307445734561825860:15.00] a");
    assert_eq!(l.timestamp, ts(u64::MAX, 0));
    assert!(is_malformed("[307445734561825860:16.00] a"));
}

#[test]
fn missing_closing_bracket_is_refused() {
    assert!(is_malformed("[00:01.50 hello"));
}

#[test]
fn missing_opening_bracket_is_refused() {
    assert!(is_malformed("00:01.50] hello"));
}

#[test]
fn brackets_in_wrong_order_are_refused() {
    assert!(is_malformed("]00:01.50[ hello"));
}

#[test]
fn missing_colon_or_period_is_refused() {
    assert!(is_malformed("[0001.50] a"));
    assert!(is_malformed("[00:0150] a"));
    assert!(is_malformed("[00.01:50] a"));
}

#[test]
fn hundredths_need_two_digits() {
    assert!(is_malformed("[00:01.5] a"));
    assert!(is_malformed("[00:01.500] a"));
}

#[test]
fn fields_need_digits() {
    assert!(is_malformed("[:01.50] a"));
    assert!(is_malformed("[00:.50] a"));
    assert!(is_malformed("[0a:01.50] a"));
    assert!(is_malformed("[+1:01.50] a"));
}

#[test]
fn line_without_words_is_refused() {
    assert!(is_malformed("[00:01.50]"));
}

#[test]
fn text_around_the_brackets_is_allowed() {
    let l = line("x[00:02.00]y a");
    assert_eq!(l.timestamp, ts(2, 0));
}

#[test]
fn empty_token_between_spaces() {
    let l = line("[00:01.00] a  b");
    let chars: Vec<&str> = l.rubies.iter().map(|r| r.characters.as_str()).collect();
    assert_eq!(chars, vec!["a", "", "b"]);
}

#[test]
fn empty_body_gives_one_empty_token() {
    let l = line("[00:01.00] ");
    assert_eq!(l.rubies.len(), 1);
    assert_eq!(l.rubies[0].characters, "");
    assert_eq!(l.rubies[0].reading, None);
}

#[test]
fn ideographic_space_separates_fields_and_words() {
    let l = line("[00:03.00]\u{3000}春|はる\u{3000}夏");
    assert_eq!(l.timestamp, ts(3, 0));
    assert_eq!(l.rubies.len(), 2);
    assert_eq!(l.rubies[0].characters, "春");
    assert_eq!(l.rubies[0].reading.as_deref(), Some("はる"));
    assert_eq!(l.rubies[1].characters, "夏");
}

#[test]
fn ruby_with_full_width_bar() {
    let r = Ruby::new("漢字｜かんじ").ok().unwrap();
    assert_eq!(r.characters, "漢字");
    assert_eq!(r.reading.as_deref(), Some("かんじ"));
}

#[test]
fn ruby_reading_stops_at_the_next_bar() {
    let r = Ruby::new("a|b|c").ok().unwrap();
    assert_eq!(r.characters, "a");
    assert_eq!(r.reading.as_deref(), Some("b"));
}

#[test]
fn ruby_with_empty_reading() {
    let r = Ruby::new("a|").ok().unwrap();
    assert_eq!(r.characters, "a");
    assert_eq!(r.reading.as_deref(), Some(""));
}

#[test]
fn ruby_without_bar() {
    let r = Ruby::new("plain").ok().unwrap();
    assert_eq!(r.characters, "plain");
    assert_eq!(r.reading, None);
    let e = Ruby::new("").ok().unwrap();
    assert_eq!(e.characters, "");
}

#[test]
fn document_skips_blank_lines() {
    let doc = "[00:01.00] a\n\n[00:02.00] b|c\n";
    let v = Parser::parse(doc).ok().unwrap();
    assert_eq!(v.len(), 2);
    assert_eq!(v[0].timestamp, ts(1, 0));
    assert_eq!(v[1].timestamp, ts(2, 0));
    assert_eq!(v[1].rubies[0].reading.as_deref(), Some("c"));
}

#[test]
fn document_with_crlf_line_ends() {
    let doc = "[00:01.00] a\r\n\r\n[00:02.00] b\r\n";
    let v = Parser::parse(doc).ok().unwrap();
    assert_eq!(v.len(), 2);
    assert_eq!(v[0].rubies[0].characters, "a");
    assert_eq!(v[1].rubies[0].characters, "b");
}

#[test]
fn empty_document_has_no_lines() {
    assert_eq!(Parser::parse("").ok().unwrap().len(), 0);
    assert_eq!(Parser::parse("\n\n").ok().unwrap().len(), 0);
}

#[test]
fn one_bad_line_fails_the_document() {
    let doc = "[00:01.00] a\n[00:01.50 hello\n[00:02.00] b\n[bad c\n";
    match Parser::parse(doc) {
        Err(Error::Malformed(t)) => assert_eq!(t, "[00:01.50 hello"),
        Ok(_) => panic!("a malformed document was accepted"),
    }
}

#[test]
fn lyric_path_of_a_title() {
    assert_eq!(Parser::lyric_path("Song"), "./lyrics/Song.lrc");
    assert_eq!(Parser::lyric_path(""), "./lyrics/.lrc");
}
