//! What the lyric display shows: which line to draw as playback moves, and
//! the text of each block.
use vstd::prelude::*;

use crate::locator::{current_line, current_line_sorted, in_order, is_active, is_sorted, stamps};
use crate::parser::{Lyric, Ruby};
use crate::timestamp::Timestamp;

verus! {

/// The display's model: the lyrics of the current track, whether they are in
/// order of their timestamps, and the timestamp of the line drawn last.
#[derive(Debug)]
pub struct Display {
    pub cached: Timestamp,
    pub lyrics: Vec<Lyric>,
    pub sorted: bool,
}

impl Display {
    /// `sorted` tells whether the lyrics are in order.
    pub open spec fn wf(self) -> bool {
        self.sorted == is_sorted(stamps(self.lyrics@))
    }

    /// A display with no lyrics, whose last line is taken to be at zero.
    pub fn new() -> (r: Display)
        ensures
            r.cached == Timestamp::spec_zero(),
            r.lyrics@.len() == 0,
            r.wf(),
    {
        Display { cached: Timestamp::zero(), lyrics: Vec::new(), sorted: true }
    }

    /// A new track starts: its lyrics are not known yet.
    pub fn initialise(&mut self)
        ensures
            final(self).lyrics@.len() == 0,
            final(self).cached == old(self).cached,
            final(self).wf(),
    {
        self.lyrics = Vec::new();
        self.sorted = true;
    }

    /// The lyrics of the track have been read.
    pub fn loaded(&mut self, lyrics: Vec<Lyric>)
        ensures
            final(self).lyrics == lyrics,
            final(self).cached == old(self).cached,
            final(self).wf(),
    {
        self.sorted = in_order(lyrics.as_slice());
        self.lyrics = lyrics;
    }

    /// Playback is at `at`: the index of the line to draw, where the active
    /// line differs from the one drawn last by its timestamp. Lyrics in order
    /// are searched by halving.
    pub fn poll(&mut self, at: Timestamp) -> (r: Option<usize>)
        requires
            old(self).wf(),
        ensures
            final(self).lyrics == old(self).lyrics,
            final(self).sorted == old(self).sorted,
            match r {
                Some(i) => {
                    &&& is_active(stamps(old(self).lyrics@), at, i as int)
                    &&& old(self).lyrics@[i as int].timestamp != old(self).cached
                    &&& final(self).cached == old(self).lyrics@[i as int].timestamp
                },
                None => {
                    &&& final(self).cached == old(self).cached
                    &&& forall|i: int|
                        is_active(stamps(old(self).lyrics@), at, i)
                            ==> old(self).lyrics@[i].timestamp == old(self).cached
                },
            },
    {
        let ghost ts = stamps(self.lyrics@);
        let found = if self.sorted {
            current_line_sorted(self.lyrics.as_slice(), at)
        } else {
            current_line(self.lyrics.as_slice(), at)
        };
        match found {
            Some(i) => {
                let t = self.lyrics[i].timestamp;
                if t != self.cached {
                    self.cached = t;
                    Some(i)
                } else {
                    proof {
                        lemma_active_unique(ts, at, i as int);
                    }
                    None
                }
            },
            None => None,
        }
    }
}

/// At most one line is active at a time.
pub proof fn lemma_active_unique(ts: Seq<Timestamp>, at: Timestamp, i: int)
    requires
        is_active(ts, at, i),
    ensures
        forall|j: int| is_active(ts, at, j) ==> j == i,
{
    assert forall|j: int| is_active(ts, at, j) implies j == i by {
        if j < i {
            assert(!ts[i].before(at));
        } else if j > i {
            assert(!ts[j].before(at));
        }
    }
}

/// The characters of a block as drawn: an empty block stands for a space.
pub fn shown_characters(r: &Ruby) -> (s: String)
    ensures
        s@ == (if r.characters@.len() == 0 {
            seq![' ']
        } else {
            r.characters@
        }),
{
    if r.characters.as_str().is_empty() {
        let s = " ".to_owned();
        proof {
            reveal_strlit(" ");
        }
        s
    } else {
        r.characters.clone()
    }
}

/// The reading of a block as drawn: nothing where it has none.
pub fn shown_reading(r: &Ruby) -> (s: String)
    ensures
        s@ == (match r.reading {
            Some(x) => x@,
            None => Seq::<char>::empty(),
        }),
{
    match &r.reading {
        Some(x) => x.clone(),
        None => String::new(),
    }
}

/// The heading of the window for a track: its title, or a note that none is
/// playing.
pub fn heading(title: &Option<String>) -> (s: String)
    ensures
        s@ == (match title {
            Some(t) => t@,
            None => "No track currently playing."@,
        }),
{
    match title {
        Some(t) => t.clone(),
        None => "No track currently playing.".to_owned(),
    }
}

} // verus!
