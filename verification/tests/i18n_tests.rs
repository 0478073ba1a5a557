use tarot_deck::deck::{DrawnCard, Orientation, TarotCard};
use tarot_deck::i18n::{
    copy_payload, default_translations, format_copied_message, resolve_bundle,
    resolve_card_bundle, resolved_meaning, resolved_name, validate_translations,
    CardTranslation, CardTranslations, Language,
};

fn base_card(slug: &str, name: &str) -> TarotCard {
    TarotCard {
        slug: slug.to_owned(),
        name: name.to_owned(),
        upright: format!("{} base upright.", name),
        reversed: format!("{} base reversed.", name),
        keywords: Vec::new(),
    }
}

fn translation(name: Option<&str>, upright: &str, reversed: &str) -> CardTranslation {
    CardTranslation {
        name: name.map(|n| n.to_owned()),
        upright: upright.to_owned(),
        reversed: reversed.to_owned(),
        keywords: Vec::new(),
    }
}

#[test]
fn unsupported_language_code_maps_to_default() {
    assert_eq!(Language::from_code("xx"), Language::English);
    assert_eq!(Language::from_code(""), Language::English);
    assert_eq!(Language::from_code("en"), Language::English);
    assert_eq!(Language::from_code("ua"), Language::Ukrainian);
    assert_eq!(Language::from_code("uk"), Language::Ukrainian);
    assert_eq!(Language::default(), Language::English);
}

#[test]
fn language_codes_and_toggle() {
    assert_eq!(Language::English.code(), "en");
    assert_eq!(Language::Ukrainian.code(), "ua");
    assert_eq!(Language::English.toggle(), Language::Ukrainian);
    assert_eq!(Language::Ukrainian.toggle(), Language::English);
    assert_eq!(Language::English.toggle().toggle(), Language::English);
}

#[test]
fn absent_candidate_bundle_falls_back_to_default() {
    let bundle = resolve_bundle(None);
    assert_eq!(bundle.language, "en");
    assert_eq!(bundle.buttons.draw, "Draw cards");
    assert!(validate_translations(&bundle));
}

#[test]
fn invalid_candidate_bundle_falls_back_to_default() {
    let mut candidate = default_translations();
    candidate.language = "ua".to_owned();
    candidate.feedback.copied = String::new();
    assert!(!validate_translations(&candidate));
    let bundle = resolve_bundle(Some(candidate));
    assert_eq!(bundle.language, "en");
    assert_eq!(bundle.feedback.copied, "Copied {count} card{plural} to the clipboard.");
}

#[test]
fn valid_candidate_bundle_is_kept() {
    let mut candidate = default_translations();
    candidate.language = "ua".to_owned();
    candidate.buttons.draw = "Витягнути карти".to_owned();
    let bundle = resolve_bundle(Some(candidate));
    assert_eq!(bundle.language, "ua");
    assert_eq!(bundle.buttons.draw, "Витягнути карти");
}

#[test]
fn absent_card_translation_falls_back_to_base_text() {
    let card = base_card("the-sun", "The Sun");
    let table = CardTranslations::new();
    let tr = table.get("the-sun");
    assert!(tr.is_none());
    assert_eq!(resolved_name(&card, tr), "The Sun");
    assert_eq!(
        resolved_meaning(&card, Orientation::Upright, tr),
        "The Sun base upright."
    );
    assert_eq!(
        resolved_meaning(&card, Orientation::Reversed, tr),
        "The Sun base reversed."
    );
}

#[test]
fn present_card_translation_is_used_per_field() {
    let card = base_card("the-sun", "The Sun");
    let mut table = CardTranslations::new();
    table.insert(
        "the-sun".to_owned(),
        translation(None, "Sunlit upright.", "Sunlit reversed."),
    );
    let tr = table.get("the-sun");
    assert!(tr.is_some());
    // no translated name: the base name stays
    assert_eq!(resolved_name(&card, tr), "The Sun");
    assert_eq!(resolved_meaning(&card, Orientation::Upright, tr), "Sunlit upright.");
    assert_eq!(resolved_meaning(&card, Orientation::Reversed, tr), "Sunlit reversed.");
}

#[test]
fn later_insert_for_same_id_wins() {
    let card = base_card("x", "X");
    let mut table = CardTranslations::new();
    table.insert("x".to_owned(), translation(Some("First"), "u1", "r1"));
    table.insert("x".to_owned(), translation(Some("Second"), "u2", "r2"));
    let tr = table.get("x");
    assert_eq!(resolved_name(&card, tr), "Second");
}

#[test]
fn absent_card_bundle_resolves_to_the_empty_table() {
    let table = resolve_card_bundle(None);
    assert!(table.get("the-sun").is_none());
}

#[test]
fn parsed_card_bundle_is_kept() {
    let mut candidate = CardTranslations::new();
    candidate.insert("x".to_owned(), translation(Some("Name"), "u", "r"));
    let kept = resolve_card_bundle(Some(candidate));
    let card = base_card("x", "X");
    assert_eq!(resolved_name(&card, kept.get("x")), "Name");
}

#[test]
fn copied_message_fills_count_and_plural() {
    let t = default_translations();
    assert_eq!(format_copied_message(&t, 1), "Copied 1 card to the clipboard.");
    assert_eq!(format_copied_message(&t, 3), "Copied 3 cards to the clipboard.");
    assert_eq!(format_copied_message(&t, 12), "Copied 12 cards to the clipboard.");
}

#[test]
fn copy_payload_joins_resolved_lines() {
    let t = default_translations();
    let mut table = CardTranslations::new();
    table.insert(
        "the-sun".to_owned(),
        translation(Some("Sol"), "u", "r"),
    );
    let cards = vec![
        DrawnCard { card: base_card("the-sun", "The Sun"), orientation: Orientation::Reversed },
        DrawnCard { card: base_card("the-moon", "The Moon"), orientation: Orientation::Upright },
    ];
    let payload = copy_payload(&cards, &table, &t);
    assert_eq!(payload, "Sol (Reversed)\nThe Moon");
}

#[test]
fn copy_payload_of_no_cards_is_empty() {
    let t = default_translations();
    let table = CardTranslations::new();
    let payload = copy_payload(&Vec::new(), &table, &t);
    assert_eq!(payload, "");
}
