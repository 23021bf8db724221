use vstd::prelude::*;
use crate::samples::{frames_for, left_channel, make_sample, stereo_of, Chord, PcmBuffer, Synthesizer};

verus! {

/// Length of every buffer that a player renders, in milliseconds.
pub const SAMPLE_LEN_MS: usize = 500;

/// Why a chord could not be played.
#[derive(Clone, Copy, Debug, PartialEq, Eq, Structural)]
pub enum PlayError {
    /// The chord was not among those the player was built from.
    NotRegistered(Chord),
}

/// The chords of `s` in order of first occurrence, each once.
pub open spec fn distinct_chords(s: Seq<Chord>) -> Seq<Chord>
    decreases s.len(),
{
    if s.len() == 0 {
        Seq::empty()
    } else {
        let prev = distinct_chords(s.drop_last());
        if prev.contains(s.last()) {
            prev
        } else {
            prev.push(s.last())
        }
    }
}

/// Every chord of `s` appears in `distinct_chords(s)` exactly once, and no other.
pub proof fn lemma_distinct_chords(s: Seq<Chord>)
    ensures
        forall|c: Chord| distinct_chords(s).contains(c) <==> s.contains(c),
        distinct_chords(s).no_duplicates(),
    decreases s.len(),
{
    if s.len() > 0 {
        let prev = distinct_chords(s.drop_last());
        lemma_distinct_chords(s.drop_last());
        assert forall|c: Chord| distinct_chords(s).contains(c) <==> s.contains(c) by {
            if s.contains(c) && c != s.last() {
                let i = choose|i: int| 0 <= i < s.len() && s[i] == c;
                assert(s.drop_last()[i] == c);
            }
            if s.drop_last().contains(c) {
                let i = choose|i: int| 0 <= i < s.drop_last().len() && s.drop_last()[i] == c;
                assert(s[i] == c);
            }
            if !prev.contains(s.last()) {
                assert(prev.push(s.last())[prev.len() as int] == s.last());
                if prev.push(s.last()).contains(c) && c != s.last() {
                    let i = choose|i: int| 0 <= i < prev.len() + 1 && prev.push(s.last())[i] == c;
                    assert(prev[i] == c);
                }
                if prev.contains(c) {
                    let i = choose|i: int| 0 <= i < prev.len() && prev[i] == c;
                    assert(prev.push(s.last())[i] == c);
                }
            }
            assert(s[s.len() - 1] == s.last());
        }
    }
}

/// Listing a chord again, once it is listed, leaves the set of distinct chords as it was.
pub proof fn lemma_duplicate_chord_collapses(s: Seq<Chord>, c: Chord)
    requires
        s.contains(c),
    ensures
        distinct_chords(s.push(c)) == distinct_chords(s),
{
    lemma_distinct_chords(s);
    assert(s.push(c).drop_last() =~= s);
}

/// Rendered chords, one buffer per distinct chord, ready to be played.
pub struct ChordPlayer {
    chords: Vec<(Chord, PcmBuffer)>,
    muted: bool,
}

/// Where `c` stands among the keys of `entries`, if it does.
fn position(entries: &Vec<(Chord, PcmBuffer)>, c: &Chord) -> (r: Option<usize>)
    ensures
        match r {
            Some(i) => i < entries@.len() && entries@[i as int].0 == *c,
            None => forall|i: int| 0 <= i < entries@.len() ==> entries@[i].0 != *c,
        },
{
    let mut i: usize = 0;
    while i < entries.len()
        invariant
            i <= entries@.len(),
            forall|j: int| 0 <= j < i ==> entries@[j].0 != *c,
        decreases entries@.len() - i,
    {
        if entries[i].0 == *c {
            return Some(i);
        }
        i += 1;
    }
    None
}

/// Holds of a buffer of `SAMPLE_LEN_MS` milliseconds, the same on both channels.
pub open spec fn is_chord_buffer(b: Seq<i16>) -> bool {
    &&& b.len() == 2 * frames_for(SAMPLE_LEN_MS as int)
    &&& b == stereo_of(left_channel(b))
}

impl ChordPlayer {
    /// The chords that the player holds, in the order they were rendered.
    pub closed spec fn keys(&self) -> Seq<Chord> {
        self.chords@.map_values(|e: (Chord, PcmBuffer)| e.0)
    }

    /// The buffer held for the `i`-th chord of `keys()`.
    pub closed spec fn buffer_at(&self, i: int) -> Seq<i16> {
        self.chords@[i].1@
    }

    pub closed spec fn spec_muted(&self) -> bool {
        self.muted
    }

    pub open spec fn registers(&self, c: Chord) -> bool {
        self.keys().contains(c)
    }

    /// Renders one buffer of `SAMPLE_LEN_MS` milliseconds for each distinct chord of
    /// `chords`, through `synth`; a chord listed again is rendered once.
    pub fn from_chords<S: Synthesizer>(chords: &Vec<Chord>, synth: &mut S) -> (r: Self)
        ensures
            r.keys() == distinct_chords(chords@),
            r.keys().no_duplicates(),
            forall|c: Chord| r.registers(c) <==> chords@.contains(c),
            forall|i: int| 0 <= i < r.keys().len() ==> is_chord_buffer(#[trigger] r.buffer_at(i)),
            !r.spec_muted(),
    {
        let mut entries: Vec<(Chord, PcmBuffer)> = Vec::new();
        let mut i: usize = 0;
        while i < chords.len()
            invariant
                i <= chords@.len(),
                entries@.map_values(|e: (Chord, PcmBuffer)| e.0)
                    == distinct_chords(chords@.subrange(0, i as int)),
                forall|j: int| 0 <= j < entries@.len() ==> is_chord_buffer(#[trigger] entries@[j].1@),
            decreases chords@.len() - i,
        {
            let c = chords[i];
            let ghost prefix = chords@.subrange(0, i as int);
            let ghost next = chords@.subrange(0, i + 1);
            assert(next.drop_last() =~= prefix);
            assert(next.last() == c);
            let found = position(&entries, &c);
            match found {
                Some(k) => {
                    assert(entries@.map_values(|e: (Chord, PcmBuffer)| e.0)[k as int] == c);
                },
                None => {
                    assert(!distinct_chords(prefix).contains(c));
                    let b = make_sample(c, SAMPLE_LEN_MS, synth);
                    entries.push((c, b));
                    assert(entries@.map_values(|e: (Chord, PcmBuffer)| e.0)
                        =~= distinct_chords(prefix).push(c));
                },
            }
            i += 1;
        }
        assert(chords@.subrange(0, chords@.len() as int) =~= chords@);
        proof {
            lemma_distinct_chords(chords@);
        }
        ChordPlayer { chords: entries, muted: false }
    }

    /// The buffer of `chord`, to be queued for playback; `None` while muted. A chord
    /// that the player was not built from is an error.
    pub fn play_chord(&self, chord: &Chord) -> (r: Result<Option<&PcmBuffer>, PlayError>)
        ensures
            r is Err <==> !self.registers(*chord),
            r is Err ==> r == Err::<Option<&PcmBuffer>, PlayError>(PlayError::NotRegistered(*chord)),
            r == Ok::<Option<&PcmBuffer>, PlayError>(None) <==> (self.registers(*chord) && self.spec_muted()),
            match r {
                Ok(Some(b)) => exists|i: int|
                    0 <= i < self.keys().len() && self.keys()[i] == *chord && #[trigger] self.buffer_at(i) == b@,
                _ => true,
            },
    {
        match position(&self.chords, chord) {
            None => {
                proof {
                    if self.keys().contains(*chord) {
                        let i = choose|i: int| 0 <= i < self.keys().len() && self.keys()[i] == *chord;
                        assert(self.chords@[i].0 == *chord);
                    }
                }
                Err(PlayError::NotRegistered(*chord))
            },
            Some(i) => {
                assert(self.keys()[i as int] == *chord);
                if self.muted {
                    Ok(None)
                } else {
                    assert(self.buffer_at(i as int) == self.chords@[i as int].1@);
                    Ok(Some(&self.chords[i].1))
                }
            },
        }
    }

    /// Whether playback is muted.
    pub fn muted(&self) -> (r: bool)
        ensures
            r == self.spec_muted(),
    {
        self.muted
    }

    /// Mutes or unmutes playback; the rendered chords stay as they are.
    pub fn set_mute(&mut self, muted: bool)
        ensures
            final(self).spec_muted() == muted,
            final(self).keys() == old(self).keys(),
            forall|i: int| 0 <= i < old(self).keys().len() ==> #[trigger] final(self).buffer_at(i) == old(self).buffer_at(i),
    {
        self.muted = muted;
    }
}

/// Playing a chord that the player was not built from fails.
pub proof fn lemma_unlisted_chord_is_not_registered(p: ChordPlayer, chords: Seq<Chord>, c: Chord)
    requires
        p.keys() == distinct_chords(chords),
        !chords.contains(c),
    ensures
        !p.registers(c),
{
    lemma_distinct_chords(chords);
}

} // verus!
