//! The older lyric format: `MM:SS:XX` in the first eight characters, the words
//! from the eleventh character on, and a full-width vertical bar between the
//! characters of a word and their reading.
use vstd::prelude::*;

use crate::parser::{lines_of, option_view, ruby_of, split_lines, LyricSpec, RubySpec};
use crate::text::{
    chars_of, copy_range, digit_value, is_digit, keep_nonempty, nonempty, split, split_chars,
    views, Sep,
};
use crate::timestamp::Timestamp;

verus! {

/// One timed line of the older format.
#[derive(Debug, Clone)]
pub struct Line {
    pub timestamp: Timestamp,
    pub lyrics: Vec<Ruby>,
}

/// A block of characters and, where one was given, their reading.
#[derive(Debug, Clone)]
pub struct Ruby {
    pub characters: String,
    pub reading: Option<String>,
}

impl View for Ruby {
    type V = RubySpec;

    open spec fn view(&self) -> RubySpec {
        RubySpec { characters: self.characters@, reading: option_view(self.reading) }
    }
}

impl View for Line {
    type V = LyricSpec;

    open spec fn view(&self) -> LyricSpec {
        LyricSpec { timestamp: self.timestamp, rubies: self.lyrics@.map_values(|r: Ruby| r@) }
    }
}

/// Whether `c` is a single byte in UTF-8.
pub open spec fn is_ascii(c: char) -> bool {
    (c as u32) < 128
}

/// Whether `s` starts with `MM:SS:XX` and two more ASCII characters.
pub open spec fn is_formatted(s: Seq<char>) -> bool {
    &&& s.len() >= 10
    &&& is_digit(s[0]) && is_digit(s[1]) && s[2] == ':'
    &&& is_digit(s[3]) && is_digit(s[4]) && s[5] == ':'
    &&& is_digit(s[6]) && is_digit(s[7])
    &&& is_ascii(s[8]) && is_ascii(s[9])
}

/// The number that the two digits at `i` and `i + 1` write.
pub open spec fn pair_at(s: Seq<char>, i: int) -> nat {
    10 * digit_value(s[i]) + digit_value(s[i + 1])
}

/// A line of the older format: minutes, seconds and milliseconds, then the
/// words that white space separates, empty ones left out.
pub open spec fn formatted_line(s: Seq<char>) -> LyricSpec {
    LyricSpec {
        timestamp: Timestamp {
            secs: (60 * pair_at(s, 0) + pair_at(s, 3)) as u64,
            nanos: (1_000_000 * pair_at(s, 6)) as u32,
        },
        rubies: nonempty(split(s.skip(10), Sep::Whitespace)).map_values(
            |w: Seq<char>| ruby_of(w, Sep::WideBar),
        ),
    }
}

/// The two digits at `i` and `i + 1`, read as a number.
fn read_pair(s: &[char], i: usize) -> (r: u64)
    requires
        i + 1 < s@.len(),
        is_digit(s@[i as int]),
        is_digit(s@[i + 1]),
    ensures
        r == pair_at(s@, i as int),
        r <= 99,
{
    let hi = (s[i] as u32 - '0' as u32) as u64;
    let lo = (s[i + 1] as u32 - '0' as u32) as u64;
    10 * hi + lo
}

impl Ruby {
    /// The word `chunk` cut at its first full-width vertical bar.
    pub fn from_formatted(chunk: &str) -> (r: Ruby)
        ensures
            r@ == ruby_of(chunk@, Sep::WideBar),
    {
        let s = chars_of(chunk);
        Ruby::from_chars(s.as_slice())
    }

    /// The word `t`, as characters, cut at its first full-width vertical bar.
    pub fn from_chars(t: &[char]) -> (r: Ruby)
        ensures
            r@ == ruby_of(t@, Sep::WideBar),
    {
        let x = crate::parser::cut_ruby(t, Sep::WideBar);
        Ruby { characters: x.characters, reading: x.reading }
    }
}

impl Line {
    /// A line of the older format, parsed.
    pub fn from_formatted(line: &str) -> (r: Line)
        requires
            is_formatted(line@),
        ensures
            r@ == formatted_line(line@),
    {
        let s = chars_of(line);
        Line::from_chars(s.as_slice())
    }

    /// A line of the older format, as characters, parsed.
    pub fn from_chars(s: &[char]) -> (r: Line)
        requires
            is_formatted(s@),
        ensures
            r@ == formatted_line(s@),
    {
        let minutes = read_pair(s, 0);
        let seconds = read_pair(s, 3);
        let millis = read_pair(s, 6);
        let timestamp = Timestamp::new(60 * minutes + seconds, 1_000_000 * (millis as u32));
        let rest = copy_range(s, 10, s.len());
        assert(rest@ =~= s@.skip(10));
        let words = keep_nonempty(split_chars(rest.as_slice(), Sep::Whitespace));
        let ghost ws = views(words@);
        let mut lyrics: Vec<Ruby> = Vec::new();
        let mut i: usize = 0;
        while i < words.len()
            invariant
                i <= words@.len(),
                ws == views(words@),
                lyrics@.len() == i,
                forall|j: int|
                    0 <= j < i ==> (#[trigger] lyrics@[j])@ == ruby_of(ws[j], Sep::WideBar),
            decreases words@.len() - i,
        {
            lyrics.push(Ruby::from_chars(words[i].as_slice()));
            i = i + 1;
        }
        assert(lyrics@.map_values(|r: Ruby| r@) =~= ws.map_values(
            |w: Seq<char>| ruby_of(w, Sep::WideBar),
        ));
        Line { timestamp, lyrics }
    }

    /// Every line of `data` that is not empty, parsed; each must be in the
    /// older format.
    pub fn from_filedata(data: &str) -> (r: Vec<Line>)
        requires
            forall|i: int|
                0 <= i < lines_of(data@).len() ==> is_formatted(#[trigger] lines_of(data@)[i]),
        ensures
            r@.map_values(|l: Line| l@) == lines_of(data@).map_values(
                |l: Seq<char>| formatted_line(l),
            ),
    {
        let d = chars_of(data);
        let lines = split_lines(d.as_slice());
        let ghost ls = views(lines@);
        let mut out: Vec<Line> = Vec::new();
        let mut i: usize = 0;
        while i < lines.len()
            invariant
                i <= lines@.len(),
                ls == views(lines@),
                ls == lines_of(data@),
                forall|j: int| 0 <= j < ls.len() ==> is_formatted(#[trigger] ls[j]),
                out@.len() == i,
                forall|j: int| 0 <= j < i ==> (#[trigger] out@[j])@ == formatted_line(ls[j]),
            decreases lines@.len() - i,
        {
            assert(lines@[i as int]@ == ls[i as int]);
            out.push(Line::from_chars(lines[i].as_slice()));
            i = i + 1;
        }
        assert(out@.map_values(|l: Line| l@) =~= ls.map_values(|l: Seq<char>| formatted_line(l)));
        out
    }
}

} // verus!
