use vstd::prelude::*;
use vstd::string::*;

verus! {

/// Frames per second of every rendered buffer.
pub const SAMPLE_RATE: u32 = 48000;

/// Frames in one millisecond at `SAMPLE_RATE`.
pub const FRAMES_PER_MS: usize = 48;

/// Gain of the volume applied to the summed voice, as a divisor: one third.
pub const VOLUME_DIVISOR: u64 = 3;

/// An exact frequency or gain, `num / den`.
#[derive(Clone, Copy, Debug, PartialEq, Eq, Structural)]
pub struct Ratio {
    pub num: u64,
    pub den: u64,
}

/// `a / b == p / q`, compared without division.
pub open spec fn ratio_is(a: Ratio, b: Ratio, p: int, q: int) -> bool {
    (a.num as int) * (b.den as int) * q == p * (a.den as int) * (b.num as int)
}

#[derive(Clone, Copy, Debug, PartialEq, Eq, Hash, Structural)]
pub enum Note {
    C3,
    D3,
    E3,
    F3,
    G3,
    A3,
    B3,
    C4,
    D4,
    E4,
    F4,
    G4,
    A4,
    B4,
}

#[derive(Clone, Copy, Debug, PartialEq, Eq, Hash, Structural)]
pub enum ChordKind {
    Minor,
    Major,
}

#[derive(Clone, Copy, Debug, PartialEq, Eq, Hash, Structural)]
pub struct Chord {
    pub basenote: Note,
    pub kind: ChordKind,
}

/// Fundamental of each note, in hundredths of a hertz.
pub open spec fn root_centihertz(n: Note) -> u64 {
    match n {
        Note::C3 => 13081,
        Note::D3 => 14683,
        Note::E3 => 16481,
        Note::F3 => 17461,
        Note::G3 => 19600,
        Note::A3 => 22000,
        Note::B3 => 24694,
        Note::C4 => 26100,
        Note::D4 => 29400,
        Note::E4 => 32900,
        Note::F4 => 34900,
        Note::G4 => 39200,
        Note::A4 => 44000,
        Note::B4 => 49300,
    }
}

/// Fundamental of a note in hertz.
pub open spec fn note_freq(n: Note) -> Ratio {
    Ratio { num: root_centihertz(n), den: 100 }
}

/// The three pitches of a chord: root, third and fifth.
pub open spec fn chord_pitches(n: Note, k: ChordKind) -> Seq<Ratio> {
    let c = root_centihertz(n);
    let third = match k {
        ChordKind::Minor => Ratio { num: (c * 32) as u64, den: 2700 },
        ChordKind::Major => Ratio { num: (c * 5) as u64, den: 400 },
    };
    seq![note_freq(n), third, Ratio { num: (c * 3) as u64, den: 200 }]
}

impl Note {
    pub open spec fn spec_name(self) -> Seq<char> {
        match self {
            Note::C3 => "C3"@,
            Note::D3 => "D3"@,
            Note::E3 => "E3"@,
            Note::F3 => "F3"@,
            Note::G3 => "G3"@,
            Note::A3 => "A3"@,
            Note::B3 => "B3"@,
            Note::C4 => "C4"@,
            Note::D4 => "D4"@,
            Note::E4 => "E4"@,
            Note::F4 => "F4"@,
            Note::G4 => "G4"@,
            Note::A4 => "A4"@,
            Note::B4 => "B4"@,
        }
    }

    fn centihertz(&self) -> (r: u64)
        ensures
            r == root_centihertz(*self),
            r <= 49300,
    {
        match self {
            Note::C3 => 13081,
            Note::D3 => 14683,
            Note::E3 => 16481,
            Note::F3 => 17461,
            Note::G3 => 19600,
            Note::A3 => 22000,
            Note::B3 => 24694,
            Note::C4 => 26100,
            Note::D4 => 29400,
            Note::E4 => 32900,
            Note::F4 => 34900,
            Note::G4 => 39200,
            Note::A4 => 44000,
            Note::B4 => 49300,
        }
    }

    /// The fundamental frequency of the note, in hertz.
    pub fn freq(&self) -> (r: Ratio)
        ensures
            r == note_freq(*self),
    {
        Ratio { num: self.centihertz(), den: 100 }
    }

    /// The note's name, such as `C3`.
    pub fn name(&self) -> (r: String)
        ensures
            r@ == self.spec_name(),
    {
        match self {
            Note::C3 => "C3".to_owned(),
            Note::D3 => "D3".to_owned(),
            Note::E3 => "E3".to_owned(),
            Note::F3 => "F3".to_owned(),
            Note::G3 => "G3".to_owned(),
            Note::A3 => "A3".to_owned(),
            Note::B3 => "B3".to_owned(),
            Note::C4 => "C4".to_owned(),
            Note::D4 => "D4".to_owned(),
            Note::E4 => "E4".to_owned(),
            Note::F4 => "F4".to_owned(),
            Note::G4 => "G4".to_owned(),
            Note::A4 => "A4".to_owned(),
            Note::B4 => "B4".to_owned(),
        }
    }
}

impl Chord {
    pub open spec fn spec_name(self) -> Seq<char> {
        match self.kind {
            ChordKind::Minor => self.basenote.spec_name() + " minor"@,
            ChordKind::Major => self.basenote.spec_name(),
        }
    }

    /// The chord's label: the root's name, followed by ` minor` for a minor chord.
    pub fn name(&self) -> (r: String)
        ensures
            r@ == self.spec_name(),
    {
        let mut s = self.basenote.name();
        match self.kind {
            ChordKind::Minor => s.append(" minor"),
            ChordKind::Major => {},
        }
        s
    }

    pub open spec fn pitches(self) -> Seq<Ratio> {
        chord_pitches(self.basenote, self.kind)
    }
}

/// The three pitches (root, third, fifth) of the chord on `note`.
pub fn get_chord(note: Note, chord_kind: ChordKind) -> (r: [Ratio; 3])
    ensures
        r@ == chord_pitches(note, chord_kind),
{
    let c = note.centihertz();
    let third = match chord_kind {
        ChordKind::Minor => Ratio { num: c * 32, den: 2700 },
        ChordKind::Major => Ratio { num: c * 5, den: 400 },
    };
    let r = [note.freq(), third, Ratio { num: c * 3, den: 200 }];
    assert(r@ =~= chord_pitches(note, chord_kind));
    r
}


/// The root of a chord is the note's fundamental, whatever the chord's quality.
pub proof fn lemma_root_is_fundamental(n: Note, k: ChordKind)
    ensures
        chord_pitches(n, k)[0] == note_freq(n),
        chord_pitches(n, ChordKind::Minor)[0] == chord_pitches(n, ChordKind::Major)[0],
{
}

/// The third of a minor chord stands at 32/27 of its root, that of a major chord at 5/4.
pub proof fn lemma_third_interval(n: Note)
    ensures
        ratio_is(chord_pitches(n, ChordKind::Minor)[1], chord_pitches(n, ChordKind::Minor)[0], 32, 27),
        ratio_is(chord_pitches(n, ChordKind::Major)[1], chord_pitches(n, ChordKind::Major)[0], 5, 4),
{
    let c = root_centihertz(n) as int;
    assert(c <= 49300);
    assert((c * 32) * 100 * 27 == 32 * 2700 * c) by (nonlinear_arith);
    assert((c * 5) * 100 * 4 == 5 * 400 * c) by (nonlinear_arith);
}

/// The fifth of every chord stands at 3/2 of its root.
pub proof fn lemma_fifth_interval(n: Note, k: ChordKind)
    ensures
        ratio_is(chord_pitches(n, k)[2], chord_pitches(n, k)[0], 3, 2),
{
    let c = root_centihertz(n) as int;
    assert(c <= 49300);
    assert((c * 3) * 100 * 2 == 3 * 200 * c) by (nonlinear_arith);
}


/// Relative gain of each of the ten harmonics, in thousandths (an electric-piano tone).
pub open spec fn harmonic_milli(h: int) -> u64 {
    if h == 0 { 700 }
    else if h == 1 { 243 }
    else if h == 2 { 229 }
    else if h == 3 { 95 }
    else if h == 4 { 139 }
    else if h == 5 { 87 }
    else if h == 6 { 288 }
    else if h == 7 { 199 }
    else if h == 8 { 124 }
    else { 90 }
}

fn harmonic_gain_milli(h: usize) -> (r: u64)
    requires
        h < HARMONIC_COUNT,
    ensures
        r == harmonic_milli(h as int),
{
    if h == 0 { 700 }
    else if h == 1 { 243 }
    else if h == 2 { 229 }
    else if h == 3 { 95 }
    else if h == 4 { 139 }
    else if h == 5 { 87 }
    else if h == 6 { 288 }
    else if h == 7 { 199 }
    else if h == 8 { 124 }
    else { 90 }
}

/// Harmonics voiced per pitch.
pub const HARMONIC_COUNT: usize = 10;

/// Pitches per chord.
pub const PITCH_COUNT: usize = 3;

/// One sine oscillator of the bank: its frequency in hertz and its gain.
#[derive(Clone, Copy, Debug, PartialEq, Eq, Structural)]
pub struct Oscillator {
    pub freq: Ratio,
    pub gain: Ratio,
}

/// Oscillator `j` of a bank over `pitches`: harmonic `j % 10` of pitch `j / 10`,
/// at `(j % 10 + 1)` times the pitch, weighted by that harmonic's gain and the volume.
pub open spec fn bank_entry(pitches: Seq<Ratio>, j: int) -> Oscillator {
    let p = pitches[j / 10];
    let h = j % 10;
    Oscillator {
        freq: Ratio { num: (p.num * (h + 1)) as u64, den: p.den },
        gain: Ratio { num: harmonic_milli(h), den: (1000 * VOLUME_DIVISOR) as u64 },
    }
}

/// The thirty oscillators that voice a chord, ten harmonics per pitch, pitch by pitch.
pub open spec fn chord_bank(c: Chord) -> Seq<Oscillator> {
    Seq::new(30, |j: int| bank_entry(c.pitches(), j))
}

proof fn lemma_split_index(p: int, h: int)
    requires
        0 <= p,
        0 <= h < 10,
    ensures
        (10 * p + h) / 10 == p,
        (10 * p + h) % 10 == h,
{
    assert((10 * p + h) / 10 == p && (10 * p + h) % 10 == h) by (nonlinear_arith)
        requires 0 <= p, 0 <= h < 10;
}

/// The oscillator bank that voices `chord`.
pub fn oscillator_bank(chord: Chord) -> (r: Vec<Oscillator>)
    ensures
        r@ == chord_bank(chord),
{
    let pitches = get_chord(chord.basenote, chord.kind);
    proof {
        assert(root_centihertz(chord.basenote) <= 49300);
    }
    let mut bank: Vec<Oscillator> = Vec::new();
    let mut p: usize = 0;
    while p < PITCH_COUNT
        invariant
            p <= PITCH_COUNT,
            pitches@ == chord.pitches(),
            root_centihertz(chord.basenote) <= 49300,
            bank@.len() == 10 * p,
            forall|k: int| 0 <= k < bank@.len() ==> bank@[k] == bank_entry(pitches@, k),
        decreases PITCH_COUNT - p,
    {
        let pitch = pitches[p];
        assert(pitch.num <= 49300 * 32);
        let mut h: usize = 0;
        while h < HARMONIC_COUNT
            invariant
                p < PITCH_COUNT,
                h <= HARMONIC_COUNT,
                pitch == pitches@[p as int],
                pitch.num <= 49300 * 32,
                bank@.len() == 10 * p + h,
                forall|k: int| 0 <= k < bank@.len() ==> bank@[k] == bank_entry(pitches@, k),
            decreases HARMONIC_COUNT - h,
        {
            assert(pitch.num * (h as u64 + 1) <= 49300 * 32 * 10) by (nonlinear_arith)
                requires pitch.num <= 49300 * 32, h < 10;
            let osc = Oscillator {
                freq: Ratio { num: pitch.num * (h as u64 + 1), den: pitch.den },
                gain: Ratio { num: harmonic_gain_milli(h), den: 1000 * VOLUME_DIVISOR },
            };
            proof {
                lemma_split_index(p as int, h as int);
            }
            bank.push(osc);
            h += 1;
        }
        p += 1;
    }
    assert(bank@ =~= chord_bank(chord));
    bank
}

/// Frames in a buffer of `ms` milliseconds.
pub open spec fn frames_for(ms: int) -> int {
    FRAMES_PER_MS * ms
}

/// Interleaves a mono signal into two channels, each frame carrying the sample twice.
pub open spec fn stereo_of(mono: Seq<i16>) -> Seq<i16> {
    Seq::new(2 * mono.len(), |j: int| mono[j / 2])
}

/// The first channel of an interleaved two-channel signal.
pub open spec fn left_channel(s: Seq<i16>) -> Seq<i16> {
    Seq::new(s.len() / 2, |i: int| s[2 * i])
}

/// A rendered chord: interleaved two-channel 16-bit samples at `SAMPLE_RATE`.
#[derive(Clone, Debug, PartialEq, Eq)]
pub struct PcmBuffer {
    samples: Vec<i16>,
}

impl View for PcmBuffer {
    type V = Seq<i16>;

    closed spec fn view(&self) -> Seq<i16> {
        self.samples@
    }
}

impl PcmBuffer {
    /// A buffer that plays `mono` on both channels.
    pub fn from_mono(mono: &Vec<i16>) -> (r: PcmBuffer)
        ensures
            r@ == stereo_of(mono@),
    {
        let mut samples: Vec<i16> = Vec::new();
        let mut i: usize = 0;
        while i < mono.len()
            invariant
                i <= mono@.len(),
                samples@ == stereo_of(mono@.subrange(0, i as int)),
            decreases mono@.len() - i,
        {
            let v = mono[i];
            samples.push(v);
            samples.push(v);
            proof {
                assert forall|j: int| 0 <= j < samples@.len() implies samples@[j]
                    == stereo_of(mono@.subrange(0, i + 1))[j] by {
                    if j < 2 * i {
                        assert(j / 2 < i) by (nonlinear_arith) requires 0 <= j < 2 * i;
                    } else {
                        assert(j / 2 == i) by (nonlinear_arith) requires 2 * i <= j < 2 * i + 2;
                    }
                }
            }
            assert(samples@ =~= stereo_of(mono@.subrange(0, i + 1)));
            i += 1;
        }
        assert(mono@.subrange(0, mono@.len() as int) =~= mono@);
        PcmBuffer { samples }
    }

    /// Number of two-channel frames.
    pub fn frame_count(&self) -> (r: usize)
        ensures
            r == self@.len() / 2,
    {
        self.samples.len() / 2
    }

    /// Number of interleaved channels: always two.
    pub fn channels(&self) -> (r: u16)
        ensures
            r == 2,
    {
        2
    }

    /// Frames per second.
    pub fn sample_rate(&self) -> (r: u32)
        ensures
            r == SAMPLE_RATE,
    {
        SAMPLE_RATE
    }

    /// The interleaved samples.
    pub fn as_i16_slice(&self) -> (r: &[i16])
        ensures
            r@ == self@,
    {
        self.samples.as_slice()
    }
}

proof fn lemma_left_of_stereo(m: Seq<i16>)
    ensures
        left_channel(stereo_of(m)) == m,
{
    let s = stereo_of(m);
    assert forall|i: int| 0 <= i < m.len() implies left_channel(s)[i] == m[i] by {
        assert((2 * i) / 2 == i) by (nonlinear_arith);
        assert(2 * i < 2 * m.len()) by (nonlinear_arith) requires i < m.len();
    }
    assert(left_channel(s) =~= m);
}

/// What renders a chord's sound: it voices an oscillator bank, drawing a fresh
/// starting phase for each oscillator, and mixes the bank down one sample at a time.
pub trait Synthesizer {
    /// Sets up the bank to voice, each oscillator at a fresh starting phase.
    fn start(&mut self, bank: &Vec<Oscillator>);

    /// The next mono sample of the mixed bank, quantized to 16 bits.
    fn next_sample(&mut self) -> i16;
}

/// Renders `len_ms` milliseconds of `chord` through `synth`: the chord's oscillator
/// bank is handed to `synth`, and each frame carries its next sample on both channels.
pub fn make_sample<S: Synthesizer>(chord: Chord, len_ms: usize, synth: &mut S) -> (r: PcmBuffer)
    requires
        len_ms <= usize::MAX / 96,
    ensures
        r@.len() == 2 * frames_for(len_ms as int),
        r@ == stereo_of(left_channel(r@)),
        len_ms == 0 ==> r@.len() == 0,
{
    let frames = len_ms * FRAMES_PER_MS;
    let bank = oscillator_bank(chord);
    synth.start(&bank);
    let mut mono: Vec<i16> = Vec::new();
    let mut i: usize = 0;
    while i < frames
        invariant
            i <= frames,
            mono@.len() == i,
        decreases frames - i,
    {
        let v = synth.next_sample();
        mono.push(v);
        i += 1;
    }
    let r = PcmBuffer::from_mono(&mono);
    proof {
        lemma_left_of_stereo(mono@);
    }
    r
}

/// A buffer of `ms` milliseconds holds exactly `SAMPLE_RATE * ms / 1000` frames.
pub proof fn lemma_frame_count_matches_rate(ms: nat)
    ensures
        frames_for(ms as int) == SAMPLE_RATE * ms / 1000,
{
    assert(48000 * ms == (48 * ms) * 1000) by (nonlinear_arith);
    vstd::arithmetic::div_mod::lemma_div_by_multiple(48 * ms as int, 1000);
}

} // verus!
