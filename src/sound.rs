use vstd::prelude::*;
use crate::samples::{
    chord_pitches, get_chord, frames_for, left_channel, stereo_of, Chord as SampleChord,
    ChordKind, Note, PcmBuffer, Ratio, Synthesizer,
};

verus! {

/// The seven minor chords rooted in the lower octave.
#[derive(Clone, Copy, Debug, PartialEq, Eq, Structural)]
pub enum Chord {
    C3Minor,
    D3Minor,
    E3Minor,
    F3Minor,
    G3Minor,
    A3Minor,
    B3Minor,
}

impl Chord {
    pub open spec fn spec_root(self) -> Note {
        match self {
            Chord::C3Minor => Note::C3,
            Chord::D3Minor => Note::D3,
            Chord::E3Minor => Note::E3,
            Chord::F3Minor => Note::F3,
            Chord::G3Minor => Note::G3,
            Chord::A3Minor => Note::A3,
            Chord::B3Minor => Note::B3,
        }
    }

    /// The same chord as a root note and a quality.
    pub fn to_chord(&self) -> (r: SampleChord)
        ensures
            r.basenote == self.spec_root(),
            r.kind == ChordKind::Minor,
    {
        let basenote = match self {
            Chord::C3Minor => Note::C3,
            Chord::D3Minor => Note::D3,
            Chord::E3Minor => Note::E3,
            Chord::F3Minor => Note::F3,
            Chord::G3Minor => Note::G3,
            Chord::A3Minor => Note::A3,
            Chord::B3Minor => Note::B3,
        };
        SampleChord { basenote, kind: ChordKind::Minor }
    }
}

/// The three pitches (root, minor third, fifth) of `chord`.
pub fn pitches(chord: Chord) -> (r: [Ratio; 3])
    ensures
        r@ == chord_pitches(chord.spec_root(), ChordKind::Minor),
{
    let c = chord.to_chord();
    get_chord(c.basenote, c.kind)
}

/// Renders `len_ms` milliseconds of `chord` through `synth`, on both channels.
pub fn make_sample<S: Synthesizer>(chord: Chord, len_ms: usize, synth: &mut S) -> (r: PcmBuffer)
    requires
        len_ms <= usize::MAX / 96,
    ensures
        r@.len() == 2 * frames_for(len_ms as int),
        r@ == stereo_of(left_channel(r@)),
{
    crate::samples::make_sample(chord.to_chord(), len_ms, synth)
}

} // verus!
