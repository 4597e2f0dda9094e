use vstd::prelude::*;

verus! {

/// Whether `c` has the Unicode `White_Space` property, as `char::is_whitespace`
/// documents it.
pub open spec fn is_ws(c: char) -> bool {
    ('\u{9}' <= c && c <= '\u{d}') || c == ' ' || c == '\u{85}' || c == '\u{a0}'
        || c == '\u{1680}' || ('\u{2000}' <= c && c <= '\u{200a}') || c == '\u{2028}'
        || c == '\u{2029}' || c == '\u{202f}' || c == '\u{205f}' || c == '\u{3000}'
}

/// Whether `c` is an ASCII decimal digit.
pub open spec fn is_digit(c: char) -> bool {
    '0' <= c && c <= '9'
}

/// The characters that split a text into pieces.
#[derive(Clone, Copy, Debug, PartialEq, Eq, Structural)]
pub enum Sep {
    /// Any white space character.
    Whitespace,
    /// A line feed.
    Newline,
    /// The ASCII vertical bar or its full-width form.
    Bar,
    /// The full-width vertical bar alone.
    WideBar,
    /// An opening square bracket.
    Open,
    /// A closing square bracket.
    Close,
    /// Any character that is not an ASCII digit.
    NonDigit,
}

pub open spec fn sep_matches(sep: Sep, c: char) -> bool {
    match sep {
        Sep::Whitespace => is_ws(c),
        Sep::Newline => c == '\n',
        Sep::Bar => c == '|' || c == '\u{ff5c}',
        Sep::WideBar => c == '\u{ff5c}',
        Sep::Open => c == '[',
        Sep::Close => c == ']',
        Sep::NonDigit => !is_digit(c),
    }
}

/// The index of the first character of `s` that `sep` matches, or the length
/// of `s` where there is none.
pub open spec fn find(s: Seq<char>, sep: Sep) -> nat
    decreases s.len(),
{
    if s.len() == 0 {
        0
    } else if sep_matches(sep, s[0]) {
        0
    } else {
        1 + find(s.drop_first(), sep)
    }
}

/// `s` cut at every character that `sep` matches; the separators are dropped,
/// and `n` separators give `n + 1` pieces.
pub open spec fn split(s: Seq<char>, sep: Sep) -> Seq<Seq<char>>
    decreases s.len(),
{
    let i = find(s, sep);
    if i >= s.len() {
        seq![s]
    } else {
        seq![s.take(i as int)] + split(s.skip(i + 1 as int), sep)
    }
}

/// The pieces that hold at least one character, in order.
pub open spec fn nonempty(ps: Seq<Seq<char>>) -> Seq<Seq<char>> {
    ps.filter(|p: Seq<char>| p.len() > 0)
}

pub proof fn lemma_find_bound(s: Seq<char>, sep: Sep)
    ensures
        find(s, sep) <= s.len(),
        find(s, sep) < s.len() ==> sep_matches(sep, s[find(s, sep) as int]),
        forall|j: int| 0 <= j < find(s, sep) ==> !sep_matches(sep, #[trigger] s[j]),
    decreases s.len(),
{
    if s.len() > 0 && !sep_matches(sep, s[0]) {
        lemma_find_bound(s.drop_first(), sep);
        assert forall|j: int| 0 <= j < find(s, sep) implies !sep_matches(sep, #[trigger] s[j]) by {
            if j > 0 {
                assert(s[j] == s.drop_first()[j - 1]);
            }
        }
    }
}

/// The first match is at `i` when none comes before it and `s[i]` matches, or
/// `i` is the end.
pub proof fn lemma_find_is(s: Seq<char>, sep: Sep, i: int)
    requires
        0 <= i <= s.len(),
        i < s.len() ==> sep_matches(sep, s[i]),
        forall|j: int| 0 <= j < i ==> !sep_matches(sep, #[trigger] s[j]),
    ensures
        find(s, sep) == i,
    decreases i,
{
    if i > 0 {
        assert(!sep_matches(sep, s[0]));
        assert forall|j: int| 0 <= j < i - 1 implies !sep_matches(
            sep,
            #[trigger] s.drop_first()[j],
        ) by {
            assert(s.drop_first()[j] == s[j + 1]);
        }
        lemma_find_is(s.drop_first(), sep, i - 1);
    }
}

/// Whether `sep` matches `c`.
pub fn matches(sep: Sep, c: char) -> (r: bool)
    ensures
        r == sep_matches(sep, c),
{
    match sep {
        Sep::Whitespace => {
            ('\u{9}' <= c && c <= '\u{d}') || c == ' ' || c == '\u{85}' || c == '\u{a0}'
                || c == '\u{1680}' || ('\u{2000}' <= c && c <= '\u{200a}') || c == '\u{2028}'
                || c == '\u{2029}' || c == '\u{202f}' || c == '\u{205f}' || c == '\u{3000}'
        },
        Sep::Newline => c == '\n',
        Sep::Bar => c == '|' || c == '\u{ff5c}',
        Sep::WideBar => c == '\u{ff5c}',
        Sep::Open => c == '[',
        Sep::Close => c == ']',
        Sep::NonDigit => !('0' <= c && c <= '9'),
    }
}

/// The index of the first character at or after `from` that `sep` matches,
/// or the length of `s` where there is none.
pub fn find_from(s: &[char], from: usize, sep: Sep) -> (r: usize)
    requires
        from <= s@.len(),
    ensures
        r == from + find(s@.skip(from as int), sep),
        from <= r <= s@.len(),
{
    let mut i = from;
    while i < s.len() && !matches(sep, s[i])
        invariant
            from <= i <= s@.len(),
            forall|j: int| from <= j < i ==> !sep_matches(sep, #[trigger] s@[j]),
        decreases s@.len() - i,
    {
        i = i + 1;
    }
    proof {
        let t = s@.skip(from as int);
        assert forall|j: int| 0 <= j < i - from implies !sep_matches(sep, #[trigger] t[j]) by {
            assert(t[j] == s@[from + j]);
        }
        lemma_find_is(t, sep, i - from);
    }
    i
}

/// The views of a sequence of character vectors.
pub open spec fn views(v: Seq<Vec<char>>) -> Seq<Seq<char>> {
    v.map_values(|x: Vec<char>| x@)
}

/// The number that the digit `c` writes.
pub open spec fn digit_value(c: char) -> nat {
    (c as int - '0' as int) as nat
}

/// Whether every character of `s` is an ASCII digit.
pub open spec fn all_digits(s: Seq<char>) -> bool {
    forall|i: int| 0 <= i < s.len() ==> is_digit(#[trigger] s[i])
}

/// The number that the decimal digits `s` write, most significant first.
pub open spec fn value(s: Seq<char>) -> nat
    decreases s.len(),
{
    if s.len() == 0 {
        0
    } else {
        value(s.drop_last()) * 10 + digit_value(s.last())
    }
}

/// A number written with more digits is no smaller.
pub proof fn lemma_value_prefix(s: Seq<char>, k: int)
    requires
        0 <= k <= s.len(),
        all_digits(s),
    ensures
        value(s.take(k)) <= value(s),
    decreases s.len(),
{
    if k < s.len() {
        assert(s.drop_last().take(k) =~= s.take(k));
        lemma_value_prefix(s.drop_last(), k);
    } else {
        assert(s.take(k) =~= s);
    }
}

/// The number that the digits `s[from..to]` write, or `None` where it does not
/// fit in a `u64`.
pub fn parse_number(s: &[char], from: usize, to: usize) -> (r: Option<u64>)
    requires
        from <= to <= s@.len(),
        all_digits(s@.subrange(from as int, to as int)),
    ensures
        r == (if value(s@.subrange(from as int, to as int)) <= u64::MAX {
            Some(value(s@.subrange(from as int, to as int)) as u64)
        } else {
            None::<u64>
        }),
{
    let ghost whole = s@.subrange(from as int, to as int);
    let mut acc: u64 = 0;
    let mut i = from;
    assert(s@.subrange(from as int, from as int) =~= Seq::<char>::empty());
    while i < to
        invariant
            from <= i <= to <= s@.len(),
            whole == s@.subrange(from as int, to as int),
            all_digits(whole),
            acc == value(s@.subrange(from as int, i as int)),
        decreases to - i,
    {
        let ghost prev = s@.subrange(from as int, i as int);
        let ghost next = s@.subrange(from as int, i + 1);
        assert(next.drop_last() =~= prev);
        assert(next.last() == whole[i - from]);
        let d = (s[i] as u32 - '0' as u32) as u64;
        assert(d == digit_value(next.last()));
        assert(d <= 9);
        if acc > (u64::MAX - d) / 10 {
            assert(value(next) > u64::MAX) by (nonlinear_arith)
                requires
                    value(next) == acc * 10 + d,
                    acc > (u64::MAX - d) / 10,
                    d <= 9,
            ;
            assert(whole.take(i + 1 - from) =~= next);
            proof { lemma_value_prefix(whole, i + 1 - from); }
            return None;
        }
        assert(acc * 10 + d <= u64::MAX) by (nonlinear_arith)
            requires
                acc <= (u64::MAX - d) / 10,
                d <= 9,
        ;
        acc = acc * 10 + d;
        i = i + 1;
    }
    Some(acc)
}

/// A copy of `s[from..to]`.
pub fn copy_range(s: &[char], from: usize, to: usize) -> (r: Vec<char>)
    requires
        from <= to <= s@.len(),
    ensures
        r@ == s@.subrange(from as int, to as int),
{
    let mut r: Vec<char> = Vec::new();
    let mut i = from;
    while i < to
        invariant
            from <= i <= to <= s@.len(),
            r@ == s@.subrange(from as int, i as int),
        decreases to - i,
    {
        r.push(s[i]);
        i = i + 1;
        assert(r@ =~= s@.subrange(from as int, i as int));
    }
    r
}

/// `s` cut at every character that `sep` matches.
pub fn split_chars(s: &[char], sep: Sep) -> (r: Vec<Vec<char>>)
    ensures
        views(r@) == split(s@, sep),
{
    let mut r: Vec<Vec<char>> = Vec::new();
    let mut start: usize = 0;
    assert(s@.skip(0) =~= s@);
    assert(views(r@) =~= Seq::<Seq<char>>::empty());
    loop
        invariant
            start <= s@.len(),
            split(s@, sep) == views(r@) + split(s@.skip(start as int), sep),
        decreases s@.len() - start,
    {
        let j = find_from(s, start, sep);
        let piece = copy_range(s, start, j);
        let ghost t = s@.skip(start as int);
        let ghost old_r = r@;
        assert(t.take(j - start) =~= piece@);
        r.push(piece);
        assert(views(r@) =~= views(old_r) + seq![piece@]);
        if j == s.len() {
            assert(split(s@, sep) =~= views(r@));
            return r;
        }
        assert(t.skip(j - start + 1) =~= s@.skip(j + 1));
        start = j + 1;
    }
}

/// The pieces of `ps` that hold at least one character.
pub fn keep_nonempty(ps: Vec<Vec<char>>) -> (r: Vec<Vec<char>>)
    ensures
        views(r@) == nonempty(views(ps@)),
{
    let mut r: Vec<Vec<char>> = Vec::new();
    let mut i: usize = 0;
    let ghost all = views(ps@);
    while i < ps.len()
        invariant
            i <= ps@.len(),
            all == views(ps@),
            views(r@) == nonempty(all.take(i as int)),
        decreases ps@.len() - i,
    {
        let ghost old_r = r@;
        let ghost next = all.take(i + 1);
        assert(next.drop_last() =~= all.take(i as int));
        assert(next.last() == ps@[i as int]@);
        reveal(Seq::filter);
        assert(nonempty(next) == if ps@[i as int]@.len() > 0 {
            nonempty(all.take(i as int)).push(ps@[i as int]@)
        } else {
            nonempty(all.take(i as int))
        });
        if ps[i].len() > 0 {
            r.push(ps[i].clone());
            assert(views(r@) =~= views(old_r).push(all[i as int]));
        } else {
            assert(views(r@) =~= views(old_r));
        }
        i = i + 1;
    }
    assert(all.take(i as int) =~= all);
    r
}

/// The characters of `s`, in order.
pub fn chars_of(s: &str) -> (r: Vec<char>)
    ensures
        r@ == s@,
{
    let mut r: Vec<char> = Vec::new();
    for c in it: s.chars()
        invariant
            r@ == it.seq().take(it.index() as int),
    {
        r.push(c);
    }
    r
}

/// Appends the characters of `s` to `v`.
pub fn push_str(v: &mut Vec<char>, s: &str)
    ensures
        final(v)@ == old(v)@ + s@,
{
    let cs = chars_of(s);
    let ghost start = v@;
    let mut i: usize = 0;
    while i < cs.len()
        invariant
            i <= cs@.len(),
            cs@ == s@,
            v@ == start + cs@.take(i as int),
        decreases cs@.len() - i,
    {
        v.push(cs[i]);
        i = i + 1;
        assert(v@ =~= start + cs@.take(i as int));
    }
    assert(cs@.take(i as int) =~= cs@);
}

/// Relies on `String`'s `FromIterator<char>`: the string holds the characters
/// in the order given.
#[verifier::external_body]
pub fn string_of(s: &[char]) -> (r: String)
    ensures
        r@ == s@,
{
    s.iter().collect()
}

} // verus!
