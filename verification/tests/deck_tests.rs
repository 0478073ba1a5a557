use tarot_deck::deck::{detect_suit, Deck, DeckError, DrawCount, DrawnCard, Orientation, TarotCard};

fn sample_card(slug: &str, name: &str) -> TarotCard {
    TarotCard {
        slug: slug.to_owned(),
        name: name.to_owned(),
        upright: format!("{} upright.", name),
        reversed: format!("{} reversed.", name),
        keywords: vec!["sample".to_owned()],
    }
}

#[test]
fn deck_draws_requested_number_of_cards() {
    let deck = Deck::standard();
    let cards = deck.draw_random(DrawCount::One).expect("draw 1");
    assert_eq!(cards.len(), 1);
}

#[test]
fn draw_returns_exact_count_with_distinct_slugs() {
    let deck = Deck::standard();
    for count in [DrawCount::One, DrawCount::Three, DrawCount::Five] {
        let cards = deck.draw_random(count).expect("standard deck is large enough");
        assert_eq!(cards.len(), count.as_usize());
        for i in 0..cards.len() {
            for j in 0..i {
                assert_ne!(cards[i].card.slug, cards[j].card.slug);
            }
        }
    }
}

#[test]
fn draw_on_empty_deck_returns_empty_deck_error() {
    let deck = Deck::new(Vec::new());
    for count in [DrawCount::One, DrawCount::Three, DrawCount::Five] {
        assert_eq!(deck.draw_random(count), Err(DeckError::EmptyDeck));
    }
}

#[test]
fn draw_too_many_returns_insufficient_cards_with_numbers() {
    let deck = Deck::new(vec![sample_card("a", "A"), sample_card("b", "B")]);
    assert_eq!(
        deck.draw_random(DrawCount::Five),
        Err(DeckError::InsufficientCards { requested: 5, available: 2 })
    );
    assert_eq!(
        deck.draw_random(DrawCount::Three),
        Err(DeckError::InsufficientCards { requested: 3, available: 2 })
    );
    assert!(deck.draw_random(DrawCount::One).is_ok());
}

#[test]
fn draw_of_exactly_the_whole_deck_succeeds() {
    let deck = Deck::new(vec![
        sample_card("a", "A"),
        sample_card("b", "B"),
        sample_card("c", "C"),
        sample_card("d", "D"),
        sample_card("e", "E"),
    ]);
    let cards = deck.draw_random(DrawCount::Five).expect("five of five");
    assert_eq!(cards.len(), 5);
    let mut slugs: Vec<&str> = cards.iter().map(|c| c.card.slug.as_str()).collect();
    slugs.sort();
    assert_eq!(slugs, vec!["a", "b", "c", "d", "e"]);
}

#[test]
fn orientation_distribution_is_roughly_even() {
    let deck = Deck::standard();
    let trials = 1000;
    let mut upright = 0;
    for _ in 0..trials {
        let cards = deck.draw_random(DrawCount::One).expect("draw 1");
        if cards[0].orientation == Orientation::Upright {
            upright += 1;
        }
    }
    // fairness, not exact equality: ~50% with generous slack
    assert!(upright > 350, "upright came up only {} times of {}", upright, trials);
    assert!(upright < 650, "upright came up {} times of {}", upright, trials);
}

#[test]
fn repeated_draws_are_not_all_identical() {
    let deck = Deck::standard();
    let first: Vec<String> = deck
        .draw_random(DrawCount::Three)
        .expect("draw 3")
        .iter()
        .map(|c| c.card.slug.clone())
        .collect();
    let mut saw_difference = false;
    for _ in 0..50 {
        let next: Vec<String> = deck
            .draw_random(DrawCount::Three)
            .expect("draw 3")
            .iter()
            .map(|c| c.card.slug.clone())
            .collect();
        if next != first {
            saw_difference = true;
            break;
        }
    }
    assert!(saw_difference, "fifty draws all returned the same cards in the same order");
}

#[test]
fn standard_deck_is_sorted_and_has_all_curated_cards() {
    let deck = Deck::standard();
    assert_eq!(deck.len(), 27);
    let cards = deck.cards();
    for i in 1..cards.len() {
        assert!(cards[i - 1].name <= cards[i].name);
    }
    assert!(cards.iter().any(|c| c.slug == "the-fool"));
    assert!(cards.iter().any(|c| c.slug == "ace-of-pentacles"));
}

#[test]
fn card_accessors_expose_fields() {
    let card = sample_card("the-sun", "The Sun");
    assert_eq!(card.image_path(), "assets/the-sun.webp");

    let drawn = DrawnCard { card: card.clone(), orientation: Orientation::Upright };
    assert_eq!(drawn.name(), "The Sun");
    assert_eq!(drawn.image_path(), "assets/the-sun.webp");
    assert_eq!(drawn.orientation_label(), "Upright");
    assert_eq!(drawn.meaning(), "The Sun upright.");
    assert_eq!(drawn.keywords(), &vec!["sample".to_owned()]);

    let reversed = DrawnCard { card, orientation: Orientation::Reversed };
    assert_eq!(reversed.orientation_label(), "Reversed");
    assert_eq!(reversed.meaning(), "The Sun reversed.");
}

#[test]
fn draw_count_labels_and_sizes() {
    assert_eq!(DrawCount::One.as_usize(), 1);
    assert_eq!(DrawCount::Three.as_usize(), 3);
    assert_eq!(DrawCount::Five.as_usize(), 5);
    assert_eq!(DrawCount::One.label(), "Single card");
    assert_eq!(DrawCount::Three.label(), "Three cards");
    assert_eq!(DrawCount::Five.label(), "Five cards");
    assert_eq!(DrawCount::One.description(), "A quick pulse check.");
    assert_eq!(DrawCount::Three.description(), "Past · Present · Future.");
    assert_eq!(DrawCount::Five.description(), "Deep-dive spread.");
}

#[test]
fn deck_error_messages() {
    assert_eq!(
        DeckError::EmptyDeck.message(),
        "No cards available. Drop your .webp files inside the assets/ folder and rebuild."
    );
    assert_eq!(
        DeckError::InsufficientCards { requested: 5, available: 2 }.message(),
        "Requested 5 cards but only 2 exist in the deck."
    );
}

#[test]
fn suit_classes_follow_the_display_name() {
    assert_eq!(detect_suit("Two of Cups"), "suit-cups");
    assert_eq!(detect_suit("Ace of Pentacles"), "suit-pentacles");
    assert_eq!(detect_suit("Ace of Swords"), "suit-swords");
    assert_eq!(detect_suit("Ace of Wands"), "suit-wands");
    assert_eq!(detect_suit("The High Priestess"), "suit-major");
}

#[test]
fn orientation_selects_meaning() {
    let card = sample_card("justice", "Justice");
    assert_eq!(Orientation::Upright.label(), "Upright");
    assert_eq!(Orientation::Reversed.label(), "Reversed");
    assert_eq!(Orientation::Upright.meaning(&card), "Justice upright.");
    assert_eq!(Orientation::Reversed.meaning(&card), "Justice reversed.");
    assert_eq!(Orientation::default(), Orientation::Upright);
}
