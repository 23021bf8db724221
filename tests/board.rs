use chord_pairs::board::{Board, Card, CardState, PairCount, PlayerAction};
use chord_pairs::samples::{Chord, ChordKind, Note};

fn chord(basenote: Note, kind: ChordKind) -> Chord {
    Chord { basenote, kind }
}

#[test]
fn card_text_by_state() {
    let card = Card::new(chord(Note::F4, ChordKind::Minor));
    assert_eq!(card.text(&CardState::FaceDown), "?");
    assert_eq!(card.text(&CardState::FaceUp), "o");
    assert_eq!(card.text(&CardState::Revealed), "F4 minor");
    assert_eq!(Card::new(chord(Note::G4, ChordKind::Major)).text(&CardState::Revealed), "G4");
    assert_eq!(card.chord(), chord(Note::F4, ChordKind::Minor));
}

#[test]
fn new_board_holds_each_chosen_chord_twice() {
    let board = Board::new(PairCount::N(5));
    assert_eq!(board.card_count(), 10);
    let mut chords = board.chords();
    assert_eq!(chords.len(), 10);
    let notes = [Note::C3, Note::D3, Note::E3, Note::F3, Note::G3];
    for n in notes {
        let c = chord(n, ChordKind::Minor);
        assert_eq!(chords.iter().filter(|x| **x == c).count(), 2);
    }
    chords.retain(|c| c.kind == ChordKind::Minor);
    assert_eq!(chords.len(), 10);
    for i in 0..10 {
        assert_eq!(board.card_at(i).1, CardState::FaceDown);
        assert!(board.card_at(i).0.is_some());
    }
    assert_eq!(board.wrong_guess_count(), 0);
}

#[test]
fn max_board_holds_all_chords() {
    let board = Board::new(PairCount::Max);
    assert_eq!(board.card_count(), 56);
    let chords = board.chords();
    assert_eq!(chords.iter().filter(|c| **c == chord(Note::B4, ChordKind::Major)).count(), 2);
    assert_eq!(chords.iter().filter(|c| c.kind == ChordKind::Major).count(), 28);
    let mut in_order = Vec::new();
    for _ in 0..2 {
        for kind in [ChordKind::Minor, ChordKind::Major] {
            for n in [
                Note::C3, Note::D3, Note::E3, Note::F3, Note::G3, Note::A3, Note::B3,
                Note::C4, Note::D4, Note::E4, Note::F4, Note::G4, Note::A4, Note::B4,
            ] {
                in_order.push(chord(n, kind));
            }
        }
    }
    assert_ne!(chords, in_order);
    assert_eq!(Board::new(PairCount::N(100)).card_count(), 56);
    assert_eq!(Board::new(PairCount::N(0)).card_count(), 0);
}

#[test]
fn matching_pair_is_revealed() {
    let mut board = Board::new(PairCount::N(1));
    let c3m = chord(Note::C3, ChordKind::Minor);
    assert_eq!(board.look_at_card(0), Some(c3m));
    assert_eq!(board.card_at(0).1, CardState::FaceUp);
    assert_eq!(board.update(PlayerAction::LookAt(1)), Some(c3m));
    assert_eq!(board.card_at(0).1, CardState::Revealed);
    assert_eq!(board.card_at(1).1, CardState::Revealed);
    assert_eq!(board.wrong_guess_count(), 0);
}

#[test]
fn mismatched_pair_turns_back_and_counts() {
    let mut board = Board::new(PairCount::N(2));
    let chords = board.chords();
    let other = (1..4).find(|i| chords[*i] != chords[0]).unwrap();
    assert_eq!(board.look_at_card(0), Some(chords[0]));
    assert_eq!(board.look_at_card(other), Some(chords[other]));
    assert_eq!(board.card_at(0).1, CardState::FaceDown);
    assert_eq!(board.card_at(other).1, CardState::FaceDown);
    assert_eq!(board.wrong_guess_count(), 1);
    // the same card twice is a wrong guess too
    board.look_at_card(0);
    board.look_at_card(0);
    assert_eq!(board.card_at(0).1, CardState::FaceDown);
    assert_eq!(board.wrong_guess_count(), 2);
}

#[test]
fn row_len_is_sqrt_plus_one() {
    assert_eq!(Board::new(PairCount::N(5)).row_len(), 4);
    assert_eq!(Board::new(PairCount::N(8)).row_len(), 5);
    assert_eq!(Board::new(PairCount::Max).row_len(), 8);
    assert_eq!(Board::new(PairCount::N(0)).row_len(), 1);
}
