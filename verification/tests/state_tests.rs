use tarot_deck::deck::{Deck, DrawCount};
use tarot_deck::feedback::Feedback;
use tarot_deck::reading::Reading;
use tarot_deck::text::{replace_str, str_eq, str_le, usize_to_string};

#[test]
fn feedback_holds_one_message_kind() {
    let err = Feedback::error("something failed".to_owned());
    assert_eq!(err.error_text(), Some("something failed"));
    assert_eq!(err.status_text(), None);

    let ok = Feedback::status("all done".to_owned());
    assert_eq!(ok.error_text(), None);
    assert_eq!(ok.status_text(), Some("all done"));

    let empty = Feedback::default();
    assert_eq!(empty.error_text(), None);
    assert_eq!(empty.status_text(), None);

    let copy = err.clone();
    assert_eq!(copy.error_text(), Some("something failed"));
}

#[test]
fn reading_wraps_drawn_cards() {
    let empty = Reading::empty();
    assert!(!empty.has_cards());
    assert_eq!(empty.cards().len(), 0);
    assert!(!Reading::default().has_cards());

    let drawn = Deck::standard().draw_random(DrawCount::Three).expect("draw 3");
    let reading = Reading::from_cards(drawn);
    assert!(reading.has_cards());
    assert_eq!(reading.cards().len(), 3);

    let copy = reading.clone();
    assert_eq!(copy.cards().len(), 3);
    assert_eq!(copy.cards()[0].card.slug, reading.cards()[0].card.slug);
}

#[test]
fn decimal_rendering_is_exact() {
    assert_eq!(usize_to_string(0), "0");
    assert_eq!(usize_to_string(7), "7");
    assert_eq!(usize_to_string(10), "10");
    assert_eq!(usize_to_string(90125), "90125");
}

#[test]
fn replace_substitutes_every_occurrence() {
    assert_eq!(replace_str("a{x}b{x}c", "{x}", "-"), "a-b-c");
    assert_eq!(replace_str("nothing here", "{x}", "-"), "nothing here");
    assert_eq!(replace_str("{x}{x}", "{x}", "yz"), "yzyz");
    assert_eq!(replace_str("aaa", "aa", "b"), "ba");
}

#[test]
fn string_comparisons_are_ordinal() {
    assert!(str_le("Alpha", "Beta"));
    assert!(str_le("Alpha", "Alpha"));
    assert!(!str_le("Beta", "Alpha"));
    assert!(str_le("Ace", "Aces"));
    // ordinal comparison: upper-case letters sort before lower-case ones
    assert!(str_le("Z", "a"));

    assert!(str_eq("same", "same"));
    assert!(!str_eq("same", "Same"));
    assert!(!str_eq("same", "sameness"));
}
