use tarot_deck::resolver::{
    auto_keywords, default_reversed, default_upright, discovered_cards, fallback_display_name,
    is_webp_name, parse_filename, prettify_card_slug, resolve_card, CardMetadata,
};

fn meta(slug: &str) -> CardMetadata {
    CardMetadata {
        slug: slug.to_owned(),
        name: None,
        upright: None,
        reversed: None,
        keywords: None,
    }
}

#[test]
fn derives_title_cased_names_with_minor_words() {
    assert_eq!(
        prettify_card_slug("the-high-priestess").as_deref(),
        Some("The High Priestess")
    );
    assert_eq!(prettify_card_slug("two-of-cups").as_deref(), Some("Two of Cups"));
    assert_eq!(prettify_card_slug("wheel_of_fortune").as_deref(), Some("Wheel of Fortune"));
    // a minor word leads: it is title-cased
    assert_eq!(prettify_card_slug("of-cups").as_deref(), Some("Of Cups"));
}

#[test]
fn strips_structural_prefixes() {
    assert_eq!(prettify_card_slug("tarot_the-sun").as_deref(), Some("The Sun"));
    assert_eq!(prettify_card_slug("_images_death").as_deref(), Some("Death"));
    assert_eq!(prettify_card_slug("_images_tarot_justice").as_deref(), Some("Justice"));
}

#[test]
fn prettify_yields_nothing_when_no_segment_survives() {
    assert_eq!(prettify_card_slug(""), None);
    assert_eq!(prettify_card_slug("---"), None);
    assert_eq!(prettify_card_slug("_images_"), None);
}

#[test]
fn fallback_name_replaces_separators_and_title_cases() {
    assert_eq!(fallback_display_name("the-sun"), "The sun");
    assert_eq!(fallback_display_name("odd_name"), "Odd name");
}

#[test]
fn default_texts_embed_the_name() {
    assert_eq!(
        default_upright("The Sun"),
        "The Sun invites you to interpret this pull in the context of your question."
    );
    assert_eq!(
        default_reversed("The Sun"),
        "The Sun reversed highlights the hidden dynamics around your question."
    );
}

#[test]
fn parse_filename_trims_and_splits_at_first_dot() {
    let parsed = parse_filename("the-fool.webp").expect("usable stem");
    assert_eq!(parsed.0, "the-fool");
    assert_eq!(parsed.1, "The Fool");

    let parsed = parse_filename("  strength  .webp").expect("trimmed stem");
    assert_eq!(parsed.0, "strength");
    assert_eq!(parsed.1, "Strength");

    assert_eq!(parse_filename(".webp"), None);
    assert_eq!(parse_filename("   .webp"), None);
}

#[test]
fn webp_extension_check_is_case_insensitive() {
    assert!(is_webp_name("the-fool.webp"));
    assert!(is_webp_name("the-fool.WEBP"));
    assert!(is_webp_name("a.b.webp"));
    assert!(!is_webp_name("the-fool.png"));
    assert!(!is_webp_name("the-fool"));
    assert!(!is_webp_name(".webp"));
}

#[test]
fn resolve_card_without_metadata_uses_generated_defaults() {
    let card = resolve_card("the-sun", "The Sun", None);
    assert_eq!(card.slug, "the-sun");
    assert_eq!(card.name, "The Sun");
    assert_eq!(
        card.upright,
        "The Sun invites you to interpret this pull in the context of your question."
    );
    assert_eq!(
        card.reversed,
        "The Sun reversed highlights the hidden dynamics around your question."
    );
    assert_eq!(card.keywords, auto_keywords());
}

#[test]
fn resolve_card_prefers_authored_fields() {
    let m = CardMetadata {
        slug: "the-sun".to_owned(),
        name: Some("Sol".to_owned()),
        upright: Some("Authored upright.".to_owned()),
        reversed: None,
        keywords: Some(vec!["warmth".to_owned()]),
    };
    let card = resolve_card("the-sun", "The Sun", Some(&m));
    assert_eq!(card.name, "Sol");
    assert_eq!(card.upright, "Authored upright.");
    assert_eq!(
        card.reversed,
        "Sol reversed highlights the hidden dynamics around your question."
    );
    assert_eq!(card.keywords, vec!["warmth".to_owned()]);
}

#[test]
fn resolve_card_empty_keyword_list_falls_back_to_auto_keywords() {
    let m = CardMetadata { keywords: Some(Vec::new()), ..meta("x") };
    let card = resolve_card("x", "X", Some(&m));
    assert_eq!(card.keywords, vec!["intuitive".to_owned(), "auto-generated".to_owned()]);
}

#[test]
fn discovered_cards_skip_unusable_files_and_apply_overrides() {
    let filenames = vec![
        "the-fool.webp".to_owned(),
        "notes.txt".to_owned(),
        "  .webp".to_owned(),
        "two-of-cups.webp".to_owned(),
    ];
    let metadata = vec![CardMetadata {
        slug: "two-of-cups".to_owned(),
        name: Some("Two of Cups (Override)".to_owned()),
        upright: None,
        reversed: None,
        keywords: None,
    }];
    let cards = discovered_cards(&filenames, &metadata);
    assert_eq!(cards.len(), 2);
    assert_eq!(cards[0].slug, "the-fool");
    assert_eq!(cards[0].name, "The Fool");
    assert_eq!(cards[1].slug, "two-of-cups");
    assert_eq!(cards[1].name, "Two of Cups (Override)");
}

#[test]
fn later_metadata_entry_for_a_slug_wins() {
    let filenames = vec!["x.webp".to_owned()];
    let metadata = vec![
        CardMetadata { name: Some("First".to_owned()), ..meta("x") },
        CardMetadata { name: Some("Second".to_owned()), ..meta("x") },
    ];
    let cards = discovered_cards(&filenames, &metadata);
    assert_eq!(cards.len(), 1);
    assert_eq!(cards[0].name, "Second");
}
