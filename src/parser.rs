//! Lyric files: LRC with two additions. A white space character stands
//! between the timestamp and the words, and a word that holds a vertical bar
//! is split by it into the characters shown and their reading.
use vstd::prelude::*;

use crate::text::{
    all_digits, digit_value, chars_of, copy_range, find, find_from, is_digit, keep_nonempty, nonempty,
    parse_number, push_str, split, split_chars, string_of, value, views, Sep,
};
use crate::timestamp::Timestamp;

verus! {

/// What a `Ruby` holds, as plain sequences.
pub struct RubySpec {
    pub characters: Seq<char>,
    pub reading: Option<Seq<char>>,
}

/// What a `Lyric` holds, as plain sequences.
pub struct LyricSpec {
    pub timestamp: Timestamp,
    pub rubies: Seq<RubySpec>,
}

/// The entry point for whole lyric files.
pub struct Parser;

/// One timed line of a lyric file.
#[derive(Debug, Clone)]
pub struct Lyric {
    pub timestamp: Timestamp,
    pub rubies: Vec<Ruby>,
}

/// A block of characters and, where one was given, their reading.
#[derive(Debug, Clone)]
pub struct Ruby {
    pub characters: String,
    pub reading: Option<String>,
}

/// Why a lyric file was refused.
#[derive(Debug, Clone)]
pub enum Error {
    /// A line does not follow the grammar; it is carried whole.
    Malformed(String),
}

pub open spec fn option_view(o: Option<String>) -> Option<Seq<char>> {
    match o {
        Some(s) => Some(s@),
        None => None,
    }
}

impl View for Ruby {
    type V = RubySpec;

    open spec fn view(&self) -> RubySpec {
        RubySpec { characters: self.characters@, reading: option_view(self.reading) }
    }
}

impl View for Lyric {
    type V = LyricSpec;

    open spec fn view(&self) -> LyricSpec {
        LyricSpec { timestamp: self.timestamp, rubies: self.rubies@.map_values(|r: Ruby| r@) }
    }
}

/// A word cut at its first delimiter: what comes before it is shown, and the
/// piece up to the next delimiter, if any, is the reading.
pub open spec fn ruby_of(t: Seq<char>, sep: Sep) -> RubySpec {
    let i = find(t, sep) as int;
    if i >= t.len() {
        RubySpec { characters: t, reading: None }
    } else {
        let rest = t.skip(i + 1);
        RubySpec { characters: t.take(i), reading: Some(rest.take(find(rest, sep) as int)) }
    }
}

/// The time that a clock `MM:SS.CC` reads: `60 * MM + SS` seconds and `CC`
/// hundredths; `None` where the text is no such clock or the seconds do not
/// fit in a `u64`.
pub open spec fn clock_of(s: Seq<char>) -> Option<Timestamp> {
    let n = s.len() as int;
    let i = find(s, Sep::NonDigit) as int;
    if 0 < i && i + 1 < n - 3 && s[i] == ':' && s[n - 3] == '.' && all_digits(
        s.subrange(i + 1, n - 3),
    ) && is_digit(s[n - 2]) && is_digit(s[n - 1]) {
        let secs = 60 * value(s.take(i)) + value(s.subrange(i + 1, n - 3));
        if secs <= u64::MAX {
            Some(
                Timestamp {
                    secs: secs as u64,
                    nanos: (10_000_000 * value(s.subrange(n - 2, n))) as u32,
                },
            )
        } else {
            None
        }
    } else {
        None
    }
}

/// The time in a timestamp field: the clock between its first `[` and its
/// first `]`.
pub open spec fn stamp_of(field: Seq<char>) -> Option<Timestamp> {
    let a = find(field, Sep::Open) as int;
    let b = find(field, Sep::Close) as int;
    if a < b && b < field.len() {
        clock_of(field.subrange(a + 1, b))
    } else {
        None
    }
}

/// One line of a lyric file: the timestamp field up to the first white space,
/// then the words, one for each piece between white space characters.
pub open spec fn parse_line(s: Seq<char>) -> Option<LyricSpec> {
    let k = find(s, Sep::Whitespace) as int;
    if k < s.len() {
        match stamp_of(s.take(k)) {
            Some(t) => Some(
                LyricSpec {
                    timestamp: t,
                    rubies: split(s.skip(k + 1), Sep::Whitespace).map_values(
                        |w: Seq<char>| ruby_of(w, Sep::Bar),
                    ),
                },
            ),
            None => None,
        }
    } else {
        None
    }
}

/// A line without the carriage return that ends it, if one does.
pub open spec fn strip_cr(l: Seq<char>) -> Seq<char> {
    if l.len() > 0 && l.last() == '\r' {
        l.drop_last()
    } else {
        l
    }
}

/// The lines of a text, as `str::lines` gives them (a line feed, or a carriage
/// return and a line feed, ends a line), without the empty ones.
pub open spec fn lines_of(d: Seq<char>) -> Seq<Seq<char>> {
    let ps = split(d, Sep::Newline);
    nonempty(
        Seq::new(
            ps.len(),
            |i: int|
                if i + 1 < ps.len() {
                    strip_cr(ps[i])
                } else {
                    ps[i]
                },
        ),
    )
}

/// The lines parsed in order; the first that fails fails the whole.
pub open spec fn parse_lines(ls: Seq<Seq<char>>) -> Result<Seq<LyricSpec>, Seq<char>>
    decreases ls.len(),
{
    if ls.len() == 0 {
        Ok(Seq::empty())
    } else {
        match parse_lines(ls.drop_last()) {
            Err(e) => Err(e),
            Ok(v) => match parse_line(ls.last()) {
                Some(l) => Ok(v.push(l)),
                None => Err(ls.last()),
            },
        }
    }
}

/// What a parse of a whole file gave, as plain sequences.
pub open spec fn outcome(r: Result<Vec<Lyric>, Error>) -> Result<Seq<LyricSpec>, Seq<char>> {
    match r {
        Ok(v) => Ok(v@.map_values(|l: Lyric| l@)),
        Err(Error::Malformed(t)) => Err(t@),
    }
}

/// The characters and reading of the word `t`.
pub fn cut_ruby(t: &[char], sep: Sep) -> (r: Ruby)
    ensures
        r@ == ruby_of(t@, sep),
{
    let i = find_from(t, 0, sep);
    assert(t@.skip(0) =~= t@);
    if i == t.len() {
        assert(t@.subrange(0, t@.len() as int) =~= t@);
        Ruby { characters: string_of(t), reading: None }
    } else {
        let chars = copy_range(t, 0, i);
        let j = find_from(t, i + 1, sep);
        let reading = copy_range(t, i + 1, j);
        assert(t@.take(i as int) =~= chars@);
        assert(t@.skip(i + 1).take(j - (i + 1)) =~= reading@);
        Ruby { characters: string_of(chars.as_slice()), reading: Some(string_of(reading.as_slice())) }
    }
}

/// The time that the clock `s` reads.
pub fn parse_clock(s: &[char]) -> (r: Option<Timestamp>)
    ensures
        r == clock_of(s@),
        r matches Some(t) ==> t.wf(),
{
    let n = s.len();
    let i = find_from(s, 0, Sep::NonDigit);
    assert(s@.skip(0) =~= s@);
    proof {
        crate::text::lemma_find_bound(s@, Sep::NonDigit);
    }
    if !(n >= 4 && 0 < i && i < n - 4 && s[i] == ':' && s[n - 3] == '.' && is_digit_char(
        s[n - 2],
    ) && is_digit_char(s[n - 1])) {
        return None;
    }
    let k = find_from(s, i + 1, Sep::NonDigit);
    proof {
        crate::text::lemma_find_bound(s@.skip(i + 1), Sep::NonDigit);
    }
    if k < n - 3 {
        assert(!is_digit(s@.skip(i + 1)[k - (i + 1)]));
        assert(s@.subrange(i + 1, n - 3)[k - (i + 1)] == s@.skip(i + 1)[k - (i + 1)]);
        assert(!all_digits(s@.subrange(i + 1, n - 3)));
        return None;
    }
    assert(all_digits(s@.subrange(i + 1, n - 3))) by {
        assert forall|j: int| 0 <= j < n - 3 - (i + 1) implies is_digit(
            #[trigger] s@.subrange(i + 1, n - 3)[j],
        ) by {
            assert(s@.subrange(i + 1, n - 3)[j] == s@.skip(i + 1)[j]);
        }
    }
    assert(all_digits(s@.subrange(0, i as int))) by {
        assert forall|j: int| 0 <= j < i implies is_digit(#[trigger] s@.subrange(0, i as int)[j]) by {
            assert(s@.subrange(0, i as int)[j] == s@[j]);
        }
    }
    assert(all_digits(s@.subrange(n - 2, n as int))) by {
        assert forall|j: int| 0 <= j < 2 implies is_digit(
            #[trigger] s@.subrange(n - 2, n as int)[j],
        ) by {
            assert(s@.subrange(n - 2, n as int)[j] == s@[n - 2 + j]);
        }
    }
    assert(s@.take(i as int) =~= s@.subrange(0, i as int));
    let minutes = parse_number(s, 0, i);
    let seconds = parse_number(s, i + 1, n - 3);
    let hundredths = parse_number(s, n - 2, n);
    let ghost mm = value(s@.take(i as int));
    let ghost ss = value(s@.subrange(i + 1, n - 3));
    proof {
        lemma_two_digits(s@.subrange(n - 2, n as int));
        assert(find(s@, Sep::NonDigit) == i);
    }
    let c = match hundredths {
        Some(c) => c,
        None => return None,
    };
    let m = match minutes {
        Some(m) => m,
        None => {
            assert(60 * mm + ss > u64::MAX);
            return None;
        },
    };
    let sec = match seconds {
        Some(sec) => sec,
        None => {
            assert(60 * mm + ss > u64::MAX);
            return None;
        },
    };
    match m.checked_mul(60) {
        Some(m60) => match m60.checked_add(sec) {
            Some(total) => Some(Timestamp::new(total, 10_000_000 * (c as u32))),
            None => None,
        },
        None => None,
    }
}

/// The time in the timestamp field `field`.
pub fn parse_stamp(field: &[char]) -> (r: Option<Timestamp>)
    ensures
        r == stamp_of(field@),
        r matches Some(t) ==> t.wf(),
{
    let a = find_from(field, 0, Sep::Open);
    let b = find_from(field, 0, Sep::Close);
    assert(field@.skip(0) =~= field@);
    if a < b && b < field.len() {
        let inner = copy_range(field, a + 1, b);
        parse_clock(inner.as_slice())
    } else {
        None
    }
}

/// The words of `body`, each cut into characters and reading.
pub fn parse_words(body: &[char]) -> (r: Vec<Ruby>)
    ensures
        r@.map_values(|x: Ruby| x@) == split(body@, Sep::Whitespace).map_values(
            |w: Seq<char>| ruby_of(w, Sep::Bar),
        ),
{
    let words = split_chars(body, Sep::Whitespace);
    let ghost ws = views(words@);
    let mut rubies: Vec<Ruby> = Vec::new();
    let mut i: usize = 0;
    while i < words.len()
        invariant
            i <= words@.len(),
            ws == views(words@),
            ws == split(body@, Sep::Whitespace),
            rubies@.len() == i,
            forall|j: int| 0 <= j < i ==> (#[trigger] rubies@[j])@ == ruby_of(ws[j], Sep::Bar),
        decreases words@.len() - i,
    {
        let ruby = cut_ruby(words[i].as_slice(), Sep::Bar);
        rubies.push(ruby);
        i = i + 1;
    }
    assert(rubies@.map_values(|x: Ruby| x@) =~= ws.map_values(|w: Seq<char>| ruby_of(w, Sep::Bar)));
    rubies
}

impl Lyric {
    /// The line `s`, as characters, parsed.
    pub fn from_chars(s: &[char]) -> (r: Option<Lyric>)
        ensures
            match r {
                Some(l) => parse_line(s@) == Some(l@),
                None => parse_line(s@) is None,
            },
    {
        let k = find_from(s, 0, Sep::Whitespace);
        assert(s@.skip(0) =~= s@);
        if k == s.len() {
            return None;
        }
        let field = copy_range(s, 0, k);
        assert(field@ =~= s@.take(k as int));
        match parse_stamp(field.as_slice()) {
            Some(timestamp) => {
                let body = copy_range(s, k + 1, s.len());
                assert(body@ =~= s@.skip(k + 1));
                let rubies = parse_words(body.as_slice());
                Some(Lyric { timestamp, rubies })
            },
            None => None,
        }
    }

    /// One line of a lyric file, parsed; a line that breaks the grammar is
    /// refused with its text.
    pub fn new(line: &str) -> (r: Result<Lyric, Error>)
        ensures
            match r {
                Ok(l) => parse_line(line@) == Some(l@),
                Err(Error::Malformed(t)) => parse_line(line@) is None && t@ == line@,
            },
    {
        let s = chars_of(line);
        match Lyric::from_chars(s.as_slice()) {
            Some(l) => Ok(l),
            None => Err(Error::Malformed(line.to_owned())),
        }
    }
}

impl Ruby {
    /// The word `chunk` cut at its first vertical bar, ASCII or full-width;
    /// this never fails.
    pub fn new(chunk: &str) -> (r: Result<Ruby, Error>)
        ensures
            r matches Ok(x) && x@ == ruby_of(chunk@, Sep::Bar),
    {
        let s = chars_of(chunk);
        Ok(cut_ruby(s.as_slice(), Sep::Bar))
    }
}

/// The lines of `d` as `lines_of` gives them.
pub fn split_lines(d: &[char]) -> (r: Vec<Vec<char>>)
    ensures
        views(r@) == lines_of(d@),
{
    let pieces = split_chars(d, Sep::Newline);
    let ghost ps = views(pieces@);
    let n = pieces.len();
    let mut stripped: Vec<Vec<char>> = Vec::new();
    let mut i: usize = 0;
    while i < n
        invariant
            n == pieces@.len(),
            i <= n,
            ps == views(pieces@),
            ps == split(d@, Sep::Newline),
            stripped@.len() == i,
            forall|j: int|
                0 <= j < i ==> (#[trigger] stripped@[j])@ == (if j + 1 < n {
                    strip_cr(ps[j])
                } else {
                    ps[j]
                }),
        decreases n - i,
    {
        let l = pieces[i].as_slice();
        let len = l.len();
        let line = if i + 1 < n && len > 0 && l[len - 1] == '\r' {
            let c = copy_range(l, 0, len - 1);
            assert(c@ =~= l@.drop_last());
            c
        } else {
            let c = copy_range(l, 0, len);
            assert(c@ =~= l@);
            c
        };
        stripped.push(line);
        i = i + 1;
    }
    let ghost cut = Seq::new(
        ps.len(),
        |i: int|
            if i + 1 < ps.len() {
                strip_cr(ps[i])
            } else {
                ps[i]
            },
    );
    assert(views(stripped@) =~= cut);
    keep_nonempty(stripped)
}

impl Parser {
    /// Where the lyrics of the track `title` are kept: `./lyrics/<title>.lrc`.
    pub fn lyric_path(title: &str) -> (r: String)
        ensures
            r@ == "./lyrics/"@ + title@ + ".lrc"@,
    {
        let mut v: Vec<char> = Vec::new();
        push_str(&mut v, "./lyrics/");
        push_str(&mut v, title);
        push_str(&mut v, ".lrc");
        assert(v@ =~= "./lyrics/"@ + title@ + ".lrc"@);
        string_of(v.as_slice())
    }

    /// A whole lyric file parsed: every line that is not empty, in order, or
    /// the first line that breaks the grammar and nothing else.
    pub fn parse(data: &str) -> (r: Result<Vec<Lyric>, Error>)
        ensures
            outcome(r) == parse_lines(lines_of(data@)),
    {
        let d = chars_of(data);
        let lines = split_lines(d.as_slice());
        let ghost ls = views(lines@);
        let mut out: Vec<Lyric> = Vec::new();
        let mut i: usize = 0;
        assert(ls.take(0) =~= Seq::<Seq<char>>::empty());
        assert(out@.map_values(|l: Lyric| l@) =~= Seq::<LyricSpec>::empty());
        while i < lines.len()
            invariant
                i <= lines@.len(),
                ls == views(lines@),
                ls == lines_of(d@),
                d@ == data@,
                parse_lines(ls.take(i as int)) == Ok::<Seq<LyricSpec>, Seq<char>>(
                    out@.map_values(|l: Lyric| l@),
                ),
            decreases lines@.len() - i,
        {
            let ghost prev = out@;
            assert(ls.take(i + 1).drop_last() =~= ls.take(i as int));
            assert(ls.take(i + 1).last() == lines@[i as int]@);
            match Lyric::from_chars(lines[i].as_slice()) {
                Some(l) => {
                    out.push(l);
                    assert(out@.map_values(|l: Lyric| l@) =~= prev.map_values(|l: Lyric| l@).push(
                        l@,
                    ));
                },
                None => {
                    proof {
                        lemma_failure_sticks(ls, i as int + 1);
                    }
                    assert(ls.take(ls.len() as int) =~= ls);
                    return Err(Error::Malformed(string_of(lines[i].as_slice())));
                },
            }
            i = i + 1;
        }
        assert(ls.take(i as int) =~= ls);
        Ok(out)
    }
}

/// Once a prefix of the lines fails, every longer prefix fails the same way.
pub proof fn lemma_failure_sticks(ls: Seq<Seq<char>>, k: int)
    requires
        0 <= k <= ls.len(),
        parse_lines(ls.take(k)) is Err,
    ensures
        parse_lines(ls) == parse_lines(ls.take(k)),
    decreases ls.len() - k,
{
    if k < ls.len() {
        assert(ls.take(k + 1).drop_last() =~= ls.take(k));
        lemma_failure_sticks(ls, k + 1);
    } else {
        assert(ls.take(k) =~= ls);
    }
}

/// Any clock `MM:SS.CC`, bracketed at the start of a line and followed by a
/// space, reads as `60 * MM + SS` seconds and `CC` hundredths of a second,
/// that is `CC * 10` milliseconds, whatever words come after it.
pub proof fn lemma_clock_reading(mm: Seq<char>, ss: Seq<char>, cc: Seq<char>, body: Seq<char>)
    requires
        mm.len() > 0,
        ss.len() > 0,
        cc.len() == 2,
        all_digits(mm),
        all_digits(ss),
        all_digits(cc),
        60 * value(mm) + value(ss) <= u64::MAX,
    ensures
        ({
            let clock = mm + seq![':'] + ss + seq!['.'] + cc;
            let line = seq!['['] + clock + seq![']', ' '] + body;
            &&& parse_line(line) matches Some(l)
            &&& l.timestamp.secs == 60 * value(mm) + value(ss)
            &&& l.timestamp.nanos == 10_000_000 * value(cc)
            &&& l.timestamp.total_nanos() == (60 * value(mm) + value(ss)) * 1_000_000_000
                + value(cc) * 10_000_000
        }),
{
    let clock = mm + seq![':'] + ss + seq!['.'] + cc;
    let field = seq!['['] + clock + seq![']'];
    let line = field + seq![' '] + body;
    let n = clock.len() as int;
    let i = mm.len() as int;
    assert(line =~= seq!['['] + clock + seq![']', ' '] + body);
    // The clock itself.
    assert forall|j: int| 0 <= j < i implies !crate::text::sep_matches(
        Sep::NonDigit,
        #[trigger] clock[j],
    ) by {
        assert(clock[j] == mm[j]);
    }
    crate::text::lemma_find_is(clock, Sep::NonDigit, i);
    assert(clock.take(i) =~= mm);
    assert(clock.subrange(i + 1, n - 3) =~= ss);
    assert(clock.subrange(n - 2, n) =~= cc);
    lemma_two_digits(cc);
    assert(clock[n - 2] == cc[0] && clock[n - 1] == cc[1]);
    assert(clock_of(clock) == Some(
        Timestamp {
            secs: (60 * value(mm) + value(ss)) as u64,
            nanos: (10_000_000 * value(cc)) as u32,
        },
    ));
    // The brackets around it.
    assert forall|j: int| 0 <= j < n + 1 implies !crate::text::sep_matches(
        Sep::Close,
        #[trigger] field[j],
    ) by {
        if j > 0 {
            assert(field[j] == clock[j - 1]);
            if j - 1 < i {
                assert(clock[j - 1] == mm[j - 1]);
            } else if i < j - 1 < i + 1 + ss.len() {
                assert(clock[j - 1] == ss[j - 1 - i - 1]);
            } else if j - 1 > i + ss.len() + 1 {
                assert(clock[j - 1] == cc[j - 1 - i - ss.len() - 2]);
            }
        }
    }
    crate::text::lemma_find_is(field, Sep::Open, 0);
    crate::text::lemma_find_is(field, Sep::Close, n + 1);
    assert(field.subrange(1, n + 1) =~= clock);
    // The space after the field.
    assert forall|j: int| 0 <= j < n + 2 implies !crate::text::sep_matches(
        Sep::Whitespace,
        #[trigger] line[j],
    ) by {
        assert(line[j] == field[j]);
        if 0 < j < n + 1 {
            assert(field[j] == clock[j - 1]);
            if j - 1 < i {
                assert(clock[j - 1] == mm[j - 1]);
            } else if i < j - 1 < i + 1 + ss.len() {
                assert(clock[j - 1] == ss[j - 1 - i - 1]);
            } else if j - 1 > i + ss.len() + 1 {
                assert(clock[j - 1] == cc[j - 1 - i - ss.len() - 2]);
            }
        }
    }
    crate::text::lemma_find_is(line, Sep::Whitespace, n + 2);
    assert(line.take(n + 2) =~= field);
    assert(10_000_000 * value(cc) <= 990_000_000);
}

/// A document fails as a whole at its first line that breaks the grammar:
/// the error carries that line, and no line of the document is returned.
pub proof fn lemma_first_bad_line_fails_all(ls: Seq<Seq<char>>, k: int)
    requires
        0 <= k < ls.len(),
        parse_line(ls[k]) is None,
        forall|j: int| 0 <= j < k ==> (#[trigger] parse_line(ls[j])) is Some,
    ensures
        parse_lines(ls) == Err::<Seq<LyricSpec>, Seq<char>>(ls[k]),
    decreases ls.len(),
{
    if k + 1 < ls.len() {
        assert(ls.drop_last()[k] == ls[k]);
        assert forall|j: int| 0 <= j < k implies (#[trigger] parse_line(ls.drop_last()[j])) is Some by {
            assert(ls.drop_last()[j] == ls[j]);
        }
        lemma_first_bad_line_fails_all(ls.drop_last(), k);
    } else {
        lemma_good_lines_parse(ls.drop_last());
        assert forall|j: int| 0 <= j < ls.drop_last().len() implies (#[trigger] parse_line(
            ls.drop_last()[j],
        )) is Some by {
            assert(ls.drop_last()[j] == ls[j]);
        }
    }
}

/// Lines that each parse give a document that parses.
pub proof fn lemma_good_lines_parse(ls: Seq<Seq<char>>)
    ensures
        (forall|j: int| 0 <= j < ls.len() ==> (#[trigger] parse_line(ls[j])) is Some)
            ==> parse_lines(ls) is Ok,
    decreases ls.len(),
{
    if ls.len() > 0 {
        lemma_good_lines_parse(ls.drop_last());
        if forall|j: int| 0 <= j < ls.len() ==> (#[trigger] parse_line(ls[j])) is Some {
            assert forall|j: int| 0 <= j < ls.drop_last().len() implies (#[trigger] parse_line(
                ls.drop_last()[j],
            )) is Some by {
                assert(ls.drop_last()[j] == ls[j]);
            }
            assert(parse_line(ls[ls.len() - 1]) is Some);
        }
    }
}

/// Two digits write a number below a hundred.
pub proof fn lemma_two_digits(s: Seq<char>)
    requires
        s.len() == 2,
        all_digits(s),
    ensures
        value(s) <= 99,
{
    let first = s.drop_last();
    assert(is_digit(s[0]) && is_digit(s[1]));
    assert(first.drop_last() =~= Seq::<char>::empty());
    assert(first.last() == s[0]);
    assert(value(first.drop_last()) == 0);
    assert(value(first) == digit_value(s[0]));
    assert(value(s) == value(first) * 10 + digit_value(s[1]));
}

/// Whether `c` is an ASCII digit.
pub fn is_digit_char(c: char) -> (r: bool)
    ensures
        r == is_digit(c),
{
    '0' <= c && c <= '9'
}

} // verus!
