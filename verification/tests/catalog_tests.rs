use tarot_deck::catalog::{build_catalog, curated_cards};
use tarot_deck::deck::TarotCard;

fn card(slug: &str, name: &str, upright: &str) -> TarotCard {
    TarotCard {
        slug: slug.to_owned(),
        name: name.to_owned(),
        upright: upright.to_owned(),
        reversed: format!("{} reversed.", name),
        keywords: Vec::new(),
    }
}

#[test]
fn override_entry_wins_over_curated_entry() {
    let curated = vec![
        card("the-sun", "The Sun", "Curated sunshine."),
        card("the-moon", "The Moon", "Curated moonlight."),
    ];
    let overrides = vec![card("the-sun", "The Sun", "Overridden sunshine.")];
    let catalog = build_catalog(curated, overrides);

    let suns: Vec<&TarotCard> = catalog.iter().filter(|c| c.slug == "the-sun").collect();
    assert_eq!(suns.len(), 1);
    assert_eq!(suns[0].upright, "Overridden sunshine.");
    assert_eq!(catalog.len(), 2);
}

#[test]
fn catalog_is_sorted_by_name() {
    let curated = vec![
        card("c", "Gamma", "g"),
        card("a", "Alpha", "a"),
        card("b", "Beta", "b"),
    ];
    let catalog = build_catalog(curated, Vec::new());
    let names: Vec<&str> = catalog.iter().map(|c| c.name.as_str()).collect();
    assert_eq!(names, vec!["Alpha", "Beta", "Gamma"]);
}

#[test]
fn repeated_builds_from_identical_input_are_identical() {
    let make_inputs = || {
        let curated = vec![
            card("the-sun", "The Sun", "Sunshine."),
            card("the-moon", "The Moon", "Moonlight."),
            card("justice", "Justice", "Balance."),
        ];
        let overrides = vec![card("the-moon", "The Moon", "Override moonlight.")];
        (curated, overrides)
    };
    let (c1, o1) = make_inputs();
    let (c2, o2) = make_inputs();
    let first = build_catalog(c1, o1);
    let second = build_catalog(c2, o2);
    assert_eq!(first, second);

    let ids1: Vec<&str> = first.iter().map(|c| c.slug.as_str()).collect();
    let ids2: Vec<&str> = second.iter().map(|c| c.slug.as_str()).collect();
    assert_eq!(ids1, ids2);
}

#[test]
fn duplicate_slugs_within_one_source_keep_the_last_entry() {
    let curated = vec![
        card("x", "First Name", "first"),
        card("x", "Second Name", "second"),
    ];
    let catalog = build_catalog(curated, Vec::new());
    assert_eq!(catalog.len(), 1);
    assert_eq!(catalog[0].name, "Second Name");
    assert_eq!(catalog[0].upright, "second");
}

#[test]
fn empty_inputs_yield_an_empty_catalog() {
    let catalog = build_catalog(Vec::new(), Vec::new());
    assert!(catalog.is_empty());
}

#[test]
fn curated_list_has_twenty_seven_unique_slugs() {
    let cards = curated_cards();
    assert_eq!(cards.len(), 27);
    for i in 0..cards.len() {
        for j in 0..i {
            assert_ne!(cards[i].slug, cards[j].slug);
        }
    }
    assert!(cards.iter().any(|c| c.slug == "the-high-priestess"));
}
