use vstd::prelude::*;
use rand::seq::SliceRandom;
use num_integer::Roots;
use crate::samples::{Chord, ChordKind, Note};

verus! {

/// Relies on rand's `SliceRandom::shuffle` with `thread_rng`: it reorders the
/// elements in place (swaps only), keeping each of them.
#[verifier::external_body]
fn shuffle_chords(v: &mut Vec<Chord>)
    ensures
        final(v)@.len() == old(v)@.len(),
        final(v)@.to_multiset() == old(v)@.to_multiset(),
{
    v.shuffle(&mut rand::thread_rng());
}

/// Relies on num_integer's `Roots::sqrt` on `usize`: the truncated square root,
/// `r * r <= n < (r + 1) * (r + 1)`.
#[verifier::external_body]
fn integer_sqrt(n: usize) -> (r: usize)
    ensures
        r * r <= n,
        n < (r + 1) * (r + 1),
{
    n.sqrt()
}

/// One card of the board: it carries a chord.
#[derive(Clone, Copy, Debug, PartialEq, Eq, Structural)]
pub struct Card {
    chord: Chord,
}

#[derive(Clone, Copy, Debug, PartialEq, Eq, Structural)]
pub enum CardState {
    FaceDown,
    FaceUp,
    /// Also shows the chord.
    Revealed,
}

/// The label of a card in a given state.
pub open spec fn card_text(chord: Chord, state: CardState) -> Seq<char> {
    match state {
        CardState::FaceDown => "?"@,
        CardState::FaceUp => "o"@,
        CardState::Revealed => chord.spec_name(),
    }
}

impl Card {
    pub closed spec fn spec_chord(self) -> Chord {
        self.chord
    }

    pub fn new(chord: Chord) -> (r: Card)
        ensures
            r.spec_chord() == chord,
    {
        Card { chord }
    }

    pub fn chord(&self) -> (r: Chord)
        ensures
            r == self.spec_chord(),
    {
        self.chord
    }

    /// What the card shows: `?` face down, `o` face up, and its chord once revealed.
    pub fn text(&self, state: &CardState) -> (r: String)
        ensures
            r@ == card_text(self.spec_chord(), *state),
    {
        match state {
            CardState::FaceDown => "?".to_owned(),
            CardState::FaceUp => "o".to_owned(),
            CardState::Revealed => self.chord.name(),
        }
    }
}

/// How many, and which, cards the player has turned over.
#[derive(Clone, Copy, Debug, PartialEq, Eq, Structural)]
enum GuessState {
    Idle,
    One(usize),
}

pub enum PlayerAction {
    LookAt(usize),
}

#[derive(Clone, Copy, Debug, PartialEq, Eq, Structural)]
pub enum PairCount {
    Max,
    N(usize),
}

pub open spec fn note_at(i: int) -> Note {
    if i == 0 { Note::C3 }
    else if i == 1 { Note::D3 }
    else if i == 2 { Note::E3 }
    else if i == 3 { Note::F3 }
    else if i == 4 { Note::G3 }
    else if i == 5 { Note::A3 }
    else if i == 6 { Note::B3 }
    else if i == 7 { Note::C4 }
    else if i == 8 { Note::D4 }
    else if i == 9 { Note::E4 }
    else if i == 10 { Note::F4 }
    else if i == 11 { Note::G4 }
    else if i == 12 { Note::A4 }
    else { Note::B4 }
}

fn note_at_index(i: usize) -> (r: Note)
    requires
        i < NOTE_COUNT,
    ensures
        r == note_at(i as int),
{
    if i == 0 { Note::C3 }
    else if i == 1 { Note::D3 }
    else if i == 2 { Note::E3 }
    else if i == 3 { Note::F3 }
    else if i == 4 { Note::G3 }
    else if i == 5 { Note::A3 }
    else if i == 6 { Note::B3 }
    else if i == 7 { Note::C4 }
    else if i == 8 { Note::D4 }
    else if i == 9 { Note::E4 }
    else if i == 10 { Note::F4 }
    else if i == 11 { Note::G4 }
    else if i == 12 { Note::A4 }
    else { Note::B4 }
}

/// Notes of the two-octave scale.
pub const NOTE_COUNT: usize = 14;

/// Every chord of the game: the minor chord on each note, then the major chord on each.
pub open spec fn all_chords() -> Seq<Chord> {
    Seq::new(
        28,
        |i: int|
            if i < 14 {
                Chord { basenote: note_at(i), kind: ChordKind::Minor }
            } else {
                Chord { basenote: note_at(i - 14), kind: ChordKind::Major }
            },
    )
}

/// The chords dealt for a number of pairs: the first `n` of `all_chords()`, or all of them.
pub open spec fn chosen_chords(pair_count: PairCount) -> Seq<Chord> {
    match pair_count {
        PairCount::Max => all_chords(),
        PairCount::N(n) => if n < 28 { all_chords().take(n as int) } else { all_chords() },
    }
}

/// The chords of the cards that hold one, in board order.
pub open spec fn present_chords(deck: Seq<Option<Chord>>) -> Seq<Chord>
    decreases deck.len(),
{
    if deck.len() == 0 {
        Seq::empty()
    } else {
        let rest = present_chords(deck.drop_last());
        match deck.last() {
            Some(c) => rest.push(c),
            None => rest,
        }
    }
}

/// Card states, first guess and wrong-guess count after the player turns over card `idx`:
/// a first card turns face up; a second card holding the same chord as the first
/// reveals both, any other second card turns both face down and counts a wrong guess.
pub open spec fn after_look(
    deck: Seq<Option<Chord>>,
    states: Seq<CardState>,
    guess: Option<int>,
    wrong: nat,
    idx: int,
) -> (Seq<CardState>, Option<int>, nat) {
    match deck[idx] {
        None => (states, guess, wrong),
        Some(c) => match guess {
            None => (states.update(idx, CardState::FaceUp), Some(idx), wrong),
            Some(f) => match deck[f] {
                None => (states, guess, wrong),
                Some(fc) => if fc == c && f != idx {
                    (states.update(idx, CardState::Revealed).update(f, CardState::Revealed), None, wrong)
                } else {
                    (states.update(idx, CardState::FaceDown).update(f, CardState::FaceDown), None, wrong + 1)
                },
            },
        },
    }
}

pub struct Board {
    cards: Vec<(Option<Card>, CardState)>,
    guess_state: GuessState,
    wrong_guess_count: usize,
}

impl Board {
    /// The chord on each card, if the card holds one.
    pub closed spec fn deck(&self) -> Seq<Option<Chord>> {
        self.cards@.map_values(
            |e: (Option<Card>, CardState)|
                match e.0 {
                    Some(card) => Some(card.chord),
                    None => None,
                },
        )
    }

    /// The state of each card.
    pub closed spec fn states(&self) -> Seq<CardState> {
        self.cards@.map_values(|e: (Option<Card>, CardState)| e.1)
    }

    /// The card turned over first in the current guess, if one is.
    pub closed spec fn guess(&self) -> Option<int> {
        match self.guess_state {
            GuessState::Idle => None,
            GuessState::One(i) => Some(i as int),
        }
    }

    pub closed spec fn wrong_guesses(&self) -> nat {
        self.wrong_guess_count as nat
    }

    pub open spec fn wf(&self) -> bool {
        &&& self.deck().len() == self.states().len()
        &&& match self.guess() {
            Some(i) => 0 <= i < self.deck().len(),
            None => true,
        }
    }

    /// A board of two cards for each chosen chord, shuffled, all face down.
    pub fn new(pair_count: PairCount) -> (r: Self)
        ensures
            r.wf(),
            r.deck().len() == 2 * chosen_chords(pair_count).len(),
            present_chords(r.deck()).to_multiset()
                == (chosen_chords(pair_count) + chosen_chords(pair_count)).to_multiset(),
            forall|i: int| 0 <= i < r.deck().len() ==> (#[trigger] r.deck()[i]) is Some,
            forall|i: int| 0 <= i < r.states().len() ==> #[trigger] r.states()[i] == CardState::FaceDown,
            r.guess() is None,
            r.wrong_guesses() == 0,
    {
        let mut all: Vec<Chord> = Vec::new();
        let mut i: usize = 0;
        while i < 2 * NOTE_COUNT
            invariant
                i <= 2 * NOTE_COUNT,
                all@ == all_chords().take(i as int),
            decreases 2 * NOTE_COUNT - i,
        {
            let c = if i < NOTE_COUNT {
                Chord { basenote: note_at_index(i), kind: ChordKind::Minor }
            } else {
                Chord { basenote: note_at_index(i - NOTE_COUNT), kind: ChordKind::Major }
            };
            all.push(c);
            assert(all@ =~= all_chords().take(i + 1));
            i += 1;
        }
        assert(all@ =~= all_chords());
        let count = match pair_count {
            PairCount::Max => all.len(),
            PairCount::N(n) => if n < all.len() { n } else { all.len() },
        };
        let mut deck: Vec<Chord> = Vec::new();
        let mut k: usize = 0;
        while k < 2 * count
            invariant
                count <= 28,
                all@ == all_chords(),
                chosen_chords(pair_count) == all@.take(count as int),
                k <= 2 * count,
                deck@.len() == k,
                forall|j: int| 0 <= j < k ==> #[trigger] deck@[j] == all@[j % (count as int)],
            decreases 2 * count - k,
        {
            let j = if k < count { k } else { k - count };
            proof {
                if k < count {
                    assert(j == k % count) by (nonlinear_arith) requires j == k, 0 <= k < count;
                } else {
                    assert(j == k % count) by (nonlinear_arith)
                        requires j == k - count, count <= k < 2 * count;
                }
            }
            deck.push(all[j]);
            k += 1;
        }
        let ghost chosen = chosen_chords(pair_count);
        assert(deck@ =~= chosen + chosen) by {
            assert forall|j: int| 0 <= j < deck@.len() implies deck@[j] == (chosen + chosen)[j] by {
                if j < count {
                    assert(j % (count as int) == j) by (nonlinear_arith) requires 0 <= j < count;
                } else {
                    assert(j % (count as int) == j - count) by (nonlinear_arith)
                        requires count <= j < 2 * count;
                }
            }
        }
        shuffle_chords(&mut deck);
        let mut cards: Vec<(Option<Card>, CardState)> = Vec::new();
        let mut m: usize = 0;
        while m < deck.len()
            invariant
                m <= deck@.len(),
                cards@.len() == m,
                forall|j: int| 0 <= j < m ==> #[trigger] cards@[j] == (Some(Card { chord: deck@[j] }), CardState::FaceDown),
            decreases deck@.len() - m,
        {
            cards.push((Some(Card { chord: deck[m] }), CardState::FaceDown));
            m += 1;
        }
        let r = Board { cards, guess_state: GuessState::Idle, wrong_guess_count: 0 };
        proof {
            assert forall|j: int| 0 <= j < r.deck().len() implies #[trigger] r.deck()[j] == Some(deck@[j]) by {
                assert(cards@[j] == (Some(Card { chord: deck@[j] }), CardState::FaceDown));
            }
            lemma_present_all(r.deck(), deck@);
        }
        r
    }

    fn set_state(&mut self, idx: usize, state: CardState)
        requires
            idx < old(self).cards@.len(),
        ensures
            final(self).deck() == old(self).deck(),
            final(self).states() == old(self).states().update(idx as int, state),
            final(self).guess_state == old(self).guess_state,
            final(self).wrong_guess_count == old(self).wrong_guess_count,
    {
        let card = self.cards[idx].0;
        self.cards.set(idx, (card, state));
        assert(self.deck() =~= old(self).deck());
        assert(self.states() =~= old(self).states().update(idx as int, state));
    }

    /// Turns over card `card_idx` and hands back its chord, to be played; a slot
    /// without a card changes nothing.
    pub fn look_at_card(&mut self, card_idx: usize) -> (r: Option<Chord>)
        requires
            old(self).wf(),
            card_idx < old(self).deck().len(),
            old(self).wrong_guesses() < usize::MAX,
        ensures
            final(self).wf(),
            final(self).deck() == old(self).deck(),
            r == old(self).deck()[card_idx as int],
            (final(self).states(), final(self).guess(), final(self).wrong_guesses()) == after_look(
                old(self).deck(),
                old(self).states(),
                old(self).guess(),
                old(self).wrong_guesses(),
                card_idx as int,
            ),
    {
        let card = match self.cards[card_idx].0 {
            Some(card) => card,
            None => {
                return None;
            },
        };
        match self.guess_state {
            GuessState::Idle => {
                self.set_state(card_idx, CardState::FaceUp);
                self.guess_state = GuessState::One(card_idx);
            },
            GuessState::One(first_idx) => {
                match self.cards[first_idx].0 {
                    Some(first_card) => {
                        if first_card.chord == card.chord && first_idx != card_idx {
                            self.set_state(card_idx, CardState::Revealed);
                            self.set_state(first_idx, CardState::Revealed);
                        } else {
                            self.set_state(card_idx, CardState::FaceDown);
                            self.set_state(first_idx, CardState::FaceDown);
                            self.wrong_guess_count = self.wrong_guess_count + 1;
                        }
                        self.guess_state = GuessState::Idle;
                    },
                    None => {},
                }
            },
        }
        Some(card.chord)
    }

    /// Carries out a player's action; hands back the chord to play, if any.
    pub fn update(&mut self, action: PlayerAction) -> (r: Option<Chord>)
        requires
            old(self).wf(),
            old(self).wrong_guesses() < usize::MAX,
            match action {
                PlayerAction::LookAt(i) => i < old(self).deck().len(),
            },
        ensures
            final(self).wf(),
            final(self).deck() == old(self).deck(),
            match action {
                PlayerAction::LookAt(i) => {
                    &&& r == old(self).deck()[i as int]
                    &&& (final(self).states(), final(self).guess(), final(self).wrong_guesses())
                        == after_look(
                        old(self).deck(),
                        old(self).states(),
                        old(self).guess(),
                        old(self).wrong_guesses(),
                        i as int,
                    )
                },
            },
    {
        match action {
            PlayerAction::LookAt(card_idx) => self.look_at_card(card_idx),
        }
    }

    /// Cards per row when the board is laid out as a grid: one more than the
    /// truncated square root of the number of cards.
    pub fn row_len(&self) -> (r: usize)
        ensures
            r >= 1,
            (r - 1) * (r - 1) <= self.deck().len() < r * r,
    {
        let s = integer_sqrt(self.cards.len());
        assert(s < usize::MAX) by (nonlinear_arith)
            requires s * s <= usize::MAX, s >= 0;
        s + 1
    }

    /// Number of card slots on the board.
    pub fn card_count(&self) -> (r: usize)
        ensures
            r == self.deck().len(),
    {
        self.cards.len()
    }

    /// The card in slot `i`, if any, and its state.
    pub fn card_at(&self, i: usize) -> (r: (Option<Card>, CardState))
        requires
            i < self.deck().len(),
        ensures
            match r.0 {
                Some(card) => self.deck()[i as int] == Some(card.spec_chord()),
                None => self.deck()[i as int] is None,
            },
            r.1 == self.states()[i as int],
    {
        self.cards[i]
    }

    /// Wrong guesses made so far.
    pub fn wrong_guess_count(&self) -> (r: usize)
        ensures
            r == self.wrong_guesses(),
    {
        self.wrong_guess_count
    }

    /// The chords of the cards on the board, in board order.
    pub fn chords(&self) -> (r: Vec<Chord>)
        ensures
            r@ == present_chords(self.deck()),
    {
        let mut out: Vec<Chord> = Vec::new();
        let mut i: usize = 0;
        while i < self.cards.len()
            invariant
                i <= self.cards@.len(),
                out@ == present_chords(self.deck().take(i as int)),
            decreases self.cards@.len() - i,
        {
            assert(self.deck().take(i + 1).drop_last() =~= self.deck().take(i as int));
            match &self.cards[i].0 {
                Some(card) => {
                    out.push(card.chord);
                },
                None => {},
            }
            i += 1;
        }
        assert(self.deck().take(self.cards@.len() as int) =~= self.deck());
        out
    }
}

proof fn lemma_present_all(deck: Seq<Option<Chord>>, chords: Seq<Chord>)
    requires
        deck.len() == chords.len(),
        forall|j: int| 0 <= j < deck.len() ==> #[trigger] deck[j] == Some(chords[j]),
    ensures
        present_chords(deck) == chords,
    decreases deck.len(),
{
    if deck.len() > 0 {
        lemma_present_all(deck.drop_last(), chords.drop_last());
        assert(chords.drop_last().push(chords.last()) =~= chords);
    }
}

} // verus!
