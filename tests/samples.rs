use chord_pairs::samples::{
    get_chord, make_sample, oscillator_bank, Chord, ChordKind, Note, Oscillator, PcmBuffer, Ratio,
    Synthesizer, SAMPLE_RATE,
};
use chord_pairs::sound;
use fon::chan::{Ch16, Ch32};
use twang::noise::White;
use twang::osc::Sine;

const NOTES: [Note; 14] = [
    Note::C3,
    Note::D3,
    Note::E3,
    Note::F3,
    Note::G3,
    Note::A3,
    Note::B3,
    Note::C4,
    Note::D4,
    Note::E4,
    Note::F4,
    Note::G4,
    Note::A4,
    Note::B4,
];

/// Voices the bank with twang's oscillators, phases drawn from white noise.
struct TwangSynth {
    white: White,
    voices: Vec<(Sine, f32, f32)>,
}

impl TwangSynth {
    fn new() -> Self {
        TwangSynth { white: White::new(), voices: Vec::new() }
    }
}

fn value(r: Ratio) -> f32 {
    r.num as f32 / r.den as f32
}

impl Synthesizer for TwangSynth {
    fn start(&mut self, bank: &Vec<Oscillator>) {
        self.voices = bank
            .iter()
            .map(|o| {
                let mut sine = Sine::new();
                sine.shift(self.white.step());
                (sine, value(o.freq), value(o.gain))
            })
            .collect();
    }

    fn next_sample(&mut self) -> i16 {
        let mut sum = 0.0f32;
        for (sine, hz, gain) in self.voices.iter_mut() {
            sum += f32::from(sine.step(*hz)) * *gain;
        }
        i16::from(Ch16::from(Ch32::from(sum)))
    }
}

/// Hands out 0, 1, 2, ... and records the bank it was given.
struct CountingSynth {
    next: i16,
    bank: Vec<Oscillator>,
}

impl Synthesizer for CountingSynth {
    fn start(&mut self, bank: &Vec<Oscillator>) {
        self.bank = bank.clone();
    }

    fn next_sample(&mut self) -> i16 {
        let v = self.next;
        self.next = self.next.wrapping_add(1);
        v
    }
}

fn ratio_is(a: Ratio, b: Ratio, p: u64, q: u64) -> bool {
    a.num * b.den * q == p * a.den * b.num
}

#[test]
fn root_is_fundamental_for_both_qualities() {
    for n in NOTES {
        let minor = get_chord(n, ChordKind::Minor);
        let major = get_chord(n, ChordKind::Major);
        assert_eq!(minor[0], n.freq());
        assert_eq!(major[0], n.freq());
    }
    assert_eq!(Note::C3.freq(), Ratio { num: 13081, den: 100 });
    assert_eq!(Note::B4.freq(), Ratio { num: 49300, den: 100 });
}

#[test]
fn third_intervals() {
    for n in NOTES {
        let minor = get_chord(n, ChordKind::Minor);
        let major = get_chord(n, ChordKind::Major);
        assert!(ratio_is(minor[1], minor[0], 32, 27));
        assert!(ratio_is(major[1], major[0], 5, 4));
        assert!(!ratio_is(minor[1], minor[0], 5, 4));
        let f = value(minor[1]) / value(minor[0]);
        assert!((f - 32.0 / 27.0).abs() < 1e-5);
    }
}

#[test]
fn fifth_interval() {
    for n in NOTES {
        for k in [ChordKind::Minor, ChordKind::Major] {
            let c = get_chord(n, k);
            assert!(ratio_is(c[2], c[0], 3, 2));
        }
    }
}

#[test]
fn a3_minor_pitches_exact() {
    let c = get_chord(Note::A3, ChordKind::Minor);
    assert_eq!(c[0], Ratio { num: 22000, den: 100 });
    assert_eq!(c[1], Ratio { num: 704000, den: 2700 });
    assert_eq!(c[2], Ratio { num: 66000, den: 200 });
    assert!((value(c[1]) - 260.7407).abs() < 1e-3);
    assert!((value(c[2]) - 330.0).abs() < 1e-3);
}

#[test]
fn sound_pitches_are_minor_chords() {
    assert_eq!(sound::pitches(sound::Chord::C3Minor), get_chord(Note::C3, ChordKind::Minor));
    assert_eq!(sound::pitches(sound::Chord::B3Minor), get_chord(Note::B3, ChordKind::Minor));
    let c = sound::Chord::G3Minor.to_chord();
    assert_eq!(c, Chord { basenote: Note::G3, kind: ChordKind::Minor });
}

#[test]
fn oscillator_bank_layout() {
    let chord = Chord { basenote: Note::A3, kind: ChordKind::Major };
    let bank = oscillator_bank(chord);
    assert_eq!(bank.len(), 30);
    assert_eq!(bank[0].freq, Ratio { num: 22000, den: 100 });
    assert_eq!(bank[0].gain, Ratio { num: 700, den: 3000 });
    assert_eq!(bank[9].freq, Ratio { num: 220000, den: 100 });
    assert_eq!(bank[9].gain, Ratio { num: 90, den: 3000 });
    // fourth harmonic of the major third (275 Hz)
    assert_eq!(bank[13].freq, Ratio { num: 440000, den: 400 });
    assert_eq!(bank[13].gain, Ratio { num: 95, den: 3000 });
    // second harmonic of the fifth (330 Hz)
    assert_eq!(bank[21].freq, Ratio { num: 132000, den: 200 });
    assert_eq!(bank[26].gain, Ratio { num: 288, den: 3000 });
}

#[test]
fn render_frame_count_matches_duration() {
    let chord = Chord { basenote: Note::C3, kind: ChordKind::Minor };
    let mut synth = TwangSynth::new();
    for ms in [1usize, 10, 100, 500] {
        let buf = make_sample(chord, ms, &mut synth);
        assert_eq!(buf.frame_count(), SAMPLE_RATE as usize * ms / 1000);
        assert_eq!(buf.channels(), 2);
        assert_eq!(buf.sample_rate(), 48000);
        assert_eq!(buf.as_i16_slice().len(), 2 * 48 * ms);
    }
}

#[test]
fn render_zero_duration_is_empty() {
    let chord = Chord { basenote: Note::E4, kind: ChordKind::Major };
    let buf = make_sample(chord, 0, &mut TwangSynth::new());
    assert_eq!(buf.frame_count(), 0);
    assert!(buf.as_i16_slice().is_empty());
}

#[test]
fn render_hands_bank_to_synth_and_duplicates_channels() {
    let chord = Chord { basenote: Note::D3, kind: ChordKind::Minor };
    let mut synth = CountingSynth { next: 0, bank: Vec::new() };
    let buf = make_sample(chord, 2, &mut synth);
    assert_eq!(synth.bank, oscillator_bank(chord));
    let s = buf.as_i16_slice();
    assert_eq!(s.len(), 192);
    for i in 0..96 {
        assert_eq!(s[2 * i], i as i16);
        assert_eq!(s[2 * i + 1], i as i16);
    }
}

#[test]
fn render_is_centered_and_audible() {
    let chord = Chord { basenote: Note::A3, kind: ChordKind::Minor };
    let buf = make_sample(chord, 100, &mut TwangSynth::new());
    let s = buf.as_i16_slice();
    for f in s.chunks(2) {
        assert_eq!(f[0], f[1]);
    }
    assert!(s.iter().any(|v| *v != 0));
}

#[test]
fn a3_minor_rendered_twice_has_same_layout() {
    let chord = Chord { basenote: Note::A3, kind: ChordKind::Minor };
    let mut synth = TwangSynth::new();
    let a = make_sample(chord, 500, &mut synth);
    let b = make_sample(chord, 500, &mut synth);
    assert_eq!(a.frame_count(), b.frame_count());
    assert_eq!(a.frame_count(), 24000);
    assert_eq!(a.channels(), b.channels());
    assert_eq!(a.sample_rate(), b.sample_rate());
}

#[test]
fn from_mono_interleaves() {
    let buf = PcmBuffer::from_mono(&vec![3, -7, 12]);
    assert_eq!(buf.as_i16_slice(), &[3, 3, -7, -7, 12, 12]);
    assert_eq!(buf.frame_count(), 3);
    assert_eq!(PcmBuffer::from_mono(&Vec::new()).frame_count(), 0);
}

#[test]
fn chord_names() {
    assert_eq!(Chord { basenote: Note::C3, kind: ChordKind::Minor }.name(), "C3 minor");
    assert_eq!(Chord { basenote: Note::E3, kind: ChordKind::Major }.name(), "E3");
    assert_eq!(Note::B4.name(), "B4");
    assert_eq!(sound::make_sample(sound::Chord::F3Minor, 10, &mut TwangSynth::new()).frame_count(), 480);
}
