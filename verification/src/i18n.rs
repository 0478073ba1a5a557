//! Localization resolution.
//!
//! A [`Translations`] bundle carries every UI string for one language; a
//! [`CardTranslations`] table carries per-card text. Loading and parsing
//! the bundle sources is the caller's concern: this module validates a
//! parsed candidate bundle and falls back to the built-in default-language
//! bundle when the candidate is absent or structurally invalid
//! ([`resolve_bundle`] is total and always returns a valid bundle).
//!
//! Per-card lookup degrades gracefully: a card absent from the table, or a
//! translated field that is absent, falls back to the base card's own
//! text, never to an error.

use vstd::prelude::*;
use crate::deck::{DrawnCard, DrawnView, Orientation, TarotCard};
use crate::text::{dec_chars, push_char, replace_all, replace_str, str_eq, usize_to_string};

verus! {

/// UI text bundle for one language. Every field is non-empty once
/// validated; an incomplete bundle is rejected wholesale.
#[derive(Debug, PartialEq)]
pub struct Translations {
    pub language: String,
    pub buttons: ButtonTranslations,
    pub spreads: SpreadTranslations,
    pub empty: EmptyTranslations,
    pub feedback: FeedbackTranslations,
    pub orientation: OrientationTranslations,
}

#[derive(Debug, PartialEq)]
pub struct ButtonTranslations {
    pub draw: String,
    pub copy: String,
    pub language: String,
}

#[derive(Debug, PartialEq)]
pub struct SpreadTranslations {
    pub single: SpreadOption,
    pub three: SpreadOption,
    pub five: SpreadOption,
}

#[derive(Debug, PartialEq)]
pub struct SpreadOption {
    pub label: String,
    pub description: String,
}

#[derive(Debug, PartialEq)]
pub struct EmptyTranslations {
    pub title: String,
    pub subtitle: String,
}

#[derive(Debug, PartialEq)]
pub struct FeedbackTranslations {
    pub cleared: String,
    pub copied: String,
    pub draw_first: String,
}

#[derive(Debug, PartialEq)]
pub struct OrientationTranslations {
    pub upright: String,
    pub reversed: String,
}

/// A structurally complete bundle: every field is non-empty.
pub open spec fn valid_translations(t: Translations) -> bool {
    &&& t.language@.len() > 0
    &&& t.buttons.draw@.len() > 0
    &&& t.buttons.copy@.len() > 0
    &&& t.buttons.language@.len() > 0
    &&& t.spreads.single.label@.len() > 0
    &&& t.spreads.single.description@.len() > 0
    &&& t.spreads.three.label@.len() > 0
    &&& t.spreads.three.description@.len() > 0
    &&& t.spreads.five.label@.len() > 0
    &&& t.spreads.five.description@.len() > 0
    &&& t.empty.title@.len() > 0
    &&& t.empty.subtitle@.len() > 0
    &&& t.feedback.cleared@.len() > 0
    &&& t.feedback.copied@.len() > 0
    &&& t.feedback.draw_first@.len() > 0
    &&& t.orientation.upright@.len() > 0
    &&& t.orientation.reversed@.len() > 0
}

/// The built-in default-language bundle, field by field.
pub open spec fn is_default_bundle(t: Translations) -> bool {
    &&& t.language@ == "en"@
    &&& t.buttons.draw@ == "Draw cards"@
    &&& t.buttons.copy@ == "Copy reading"@
    &&& t.buttons.language@ == "Language"@
    &&& t.spreads.single.label@ == "Single card"@
    &&& t.spreads.single.description@ == "A quick pulse check."@
    &&& t.spreads.three.label@ == "Three cards"@
    &&& t.spreads.three.description@ == "Past · Present · Future."@
    &&& t.spreads.five.label@ == "Five cards"@
    &&& t.spreads.five.description@ == "Deep-dive spread."@
    &&& t.empty.title@ == "No cards yet"@
    &&& t.empty.subtitle@ == "Draw a spread to begin your reading."@
    &&& t.feedback.cleared@ == "Reading cleared."@
    &&& t.feedback.copied@ == "Copied {count} card{plural} to the clipboard."@
    &&& t.feedback.draw_first@ == "Draw cards before copying."@
    &&& t.orientation.upright@ == "Upright"@
    &&& t.orientation.reversed@ == "Reversed"@
}

/// The built-in default-language bundle. It always validates.
pub fn default_translations() -> (r: Translations)
    ensures
        is_default_bundle(r),
        valid_translations(r),
{
    let r = Translations {
        language: "en".to_owned(),
        buttons: ButtonTranslations {
            draw: "Draw cards".to_owned(),
            copy: "Copy reading".to_owned(),
            language: "Language".to_owned(),
        },
        spreads: SpreadTranslations {
            single: SpreadOption {
                label: "Single card".to_owned(),
                description: "A quick pulse check.".to_owned(),
            },
            three: SpreadOption {
                label: "Three cards".to_owned(),
                description: "Past · Present · Future.".to_owned(),
            },
            five: SpreadOption {
                label: "Five cards".to_owned(),
                description: "Deep-dive spread.".to_owned(),
            },
        },
        empty: EmptyTranslations {
            title: "No cards yet".to_owned(),
            subtitle: "Draw a spread to begin your reading.".to_owned(),
        },
        feedback: FeedbackTranslations {
            cleared: "Reading cleared.".to_owned(),
            copied: "Copied {count} card{plural} to the clipboard.".to_owned(),
            draw_first: "Draw cards before copying.".to_owned(),
        },
        orientation: OrientationTranslations {
            upright: "Upright".to_owned(),
            reversed: "Reversed".to_owned(),
        },
    };
    proof {
        reveal_strlit("en");
        reveal_strlit("Draw cards");
        reveal_strlit("Copy reading");
        reveal_strlit("Language");
        reveal_strlit("Single card");
        reveal_strlit("A quick pulse check.");
        reveal_strlit("Three cards");
        reveal_strlit("Past · Present · Future.");
        reveal_strlit("Five cards");
        reveal_strlit("Deep-dive spread.");
        reveal_strlit("No cards yet");
        reveal_strlit("Draw a spread to begin your reading.");
        reveal_strlit("Reading cleared.");
        reveal_strlit("Copied {count} card{plural} to the clipboard.");
        reveal_strlit("Draw cards before copying.");
        reveal_strlit("Upright");
        reveal_strlit("Reversed");
    }
    r
}

/// Checks a bundle for structural completeness: every field non-empty.
pub fn validate_translations(t: &Translations) -> (r: bool)
    ensures
        r == valid_translations(*t),
{
    !t.language.as_str().is_empty() && !t.buttons.draw.as_str().is_empty()
        && !t.buttons.copy.as_str().is_empty() && !t.buttons.language.as_str().is_empty()
        && !t.spreads.single.label.as_str().is_empty()
        && !t.spreads.single.description.as_str().is_empty()
        && !t.spreads.three.label.as_str().is_empty()
        && !t.spreads.three.description.as_str().is_empty()
        && !t.spreads.five.label.as_str().is_empty()
        && !t.spreads.five.description.as_str().is_empty() && !t.empty.title.as_str().is_empty()
        && !t.empty.subtitle.as_str().is_empty() && !t.feedback.cleared.as_str().is_empty()
        && !t.feedback.copied.as_str().is_empty() && !t.feedback.draw_first.as_str().is_empty()
        && !t.orientation.upright.as_str().is_empty()
        && !t.orientation.reversed.as_str().is_empty()
}

/// Resolves a candidate bundle: a structurally valid candidate is kept as
/// it is; an absent or invalid candidate falls back to the built-in
/// default-language bundle. The result always validates.
pub fn resolve_bundle(candidate: Option<Translations>) -> (r: Translations)
    ensures
        valid_translations(r),
        match candidate {
            Some(t) => {
                &&& valid_translations(t) ==> r == t
                &&& !valid_translations(t) ==> is_default_bundle(r)
            },
            None => is_default_bundle(r),
        },
{
    match candidate {
        Some(t) => {
            if validate_translations(&t) {
                t
            } else {
                default_translations()
            }
        },
        None => default_translations(),
    }
}

/// Translated text for one card: an optional translated name plus the
/// orientation texts and keywords.
#[derive(Debug, PartialEq)]
pub struct CardTranslation {
    pub name: Option<String>,
    pub upright: String,
    pub reversed: String,
    pub keywords: Vec<String>,
}

/// The mathematical value of a [`CardTranslation`].
pub struct CardTranslationView {
    pub name: Option<Seq<char>>,
    pub upright: Seq<char>,
    pub reversed: Seq<char>,
    pub keywords: Seq<Seq<char>>,
}

impl View for CardTranslation {
    type V = CardTranslationView;

    open spec fn view(&self) -> CardTranslationView {
        CardTranslationView {
            name: self.name.deep_view(),
            upright: self.upright@,
            reversed: self.reversed@,
            keywords: self.keywords.deep_view(),
        }
    }
}

impl DeepView for CardTranslation {
    type V = CardTranslationView;

    open spec fn deep_view(&self) -> CardTranslationView {
        self.view()
    }
}

/// One row of the per-card translation table.
#[derive(Debug, PartialEq)]
pub struct CardTranslationEntry {
    pub id: String,
    pub translation: CardTranslation,
}

/// The mathematical value of a [`CardTranslationEntry`].
pub struct CardEntryView {
    pub id: Seq<char>,
    pub translation: CardTranslationView,
}

impl View for CardTranslationEntry {
    type V = CardEntryView;

    open spec fn view(&self) -> CardEntryView {
        CardEntryView { id: self.id@, translation: self.translation@ }
    }
}

impl DeepView for CardTranslationEntry {
    type V = CardEntryView;

    open spec fn deep_view(&self) -> CardEntryView {
        self.view()
    }
}

/// The translation a table yields for a card id: the last entry carrying
/// the id, so a later insertion overrides an earlier one.
pub open spec fn ct_lookup(entries: Seq<CardEntryView>, id: Seq<char>) -> Option<
    CardTranslationView,
>
    decreases entries.len(),
{
    if entries.len() == 0 {
        Option::<CardTranslationView>::None
    } else if entries.last().id == id {
        Some(entries.last().translation)
    } else {
        ct_lookup(entries.drop_last(), id)
    }
}

/// Mapping from card id to translated card text. Insertion order decides:
/// a later entry for the same id overrides an earlier one.
#[derive(Debug, PartialEq)]
pub struct CardTranslations {
    entries: Vec<CardTranslationEntry>,
}

impl View for CardTranslations {
    type V = Seq<CardEntryView>;

    closed spec fn view(&self) -> Seq<CardEntryView> {
        self.entries.deep_view()
    }
}

impl CardTranslations {
    /// An empty table.
    pub fn new() -> (r: Self)
        ensures
            r@.len() == 0,
    {
        let r = CardTranslations { entries: Vec::new() };
        proof {
            assert(r@ =~= Seq::<CardEntryView>::empty());
        }
        r
    }

    /// Adds a translation for a card id, overriding any earlier entry for
    /// the same id.
    pub fn insert(&mut self, id: String, translation: CardTranslation)
        ensures
            final(self)@ == old(self)@.push(
                (CardEntryView { id: id@, translation: translation@ }),
            ),
    {
        let ghost before = self@;
        let entry = CardTranslationEntry { id, translation };
        let ghost ev = entry@;
        self.entries.push(entry);
        proof {
            assert(self@ =~= before.push(ev));
        }
    }

    /// Looks up the translation for a card id: the last entry carrying
    /// it, or nothing.
    pub fn get<'a>(&'a self, id: &str) -> (r: Option<&'a CardTranslation>)
        ensures
            match r {
                Some(t) => ct_lookup(self@, id@) == Some(t@),
                None => ct_lookup(self@, id@) is None,
            },
    {
        let ghost dv = self@;
        let n = self.entries.len();
        let mut k: usize = n;
        proof {
            assert(dv.take(n as int) =~= dv);
        }
        while k > 0
            invariant
                k <= n,
                n == dv.len(),
                dv == self@,
                dv == self.entries.deep_view(),
                ct_lookup(dv, id@) == ct_lookup(dv.take(k as int), id@),
            decreases k,
        {
            if str_eq(self.entries[k - 1].id.as_str(), id) {
                proof {
                    assert(dv.take(k as int).last() == dv[k - 1]);
                }
                return Some(&self.entries[k - 1].translation);
            }
            proof {
                assert(dv.take(k as int).last() == dv[k - 1]);
                assert(dv.take(k as int).drop_last() =~= dv.take(k - 1));
            }
            k = k - 1;
        }
        None
    }
}

/// Resolves a candidate per-card bundle: a parsed candidate is kept as it
/// is; an absent or unparsable one falls back to the default-language
/// bundle, which carries no per-card overrides, so the empty table.
pub fn resolve_card_bundle(candidate: Option<CardTranslations>) -> (r: CardTranslations)
    ensures
        match candidate {
            Some(t) => r@ == t@,
            None => r@.len() == 0,
        },
{
    match candidate {
        Some(t) => t,
        None => CardTranslations::new(),
    }
}

/// The display name a card resolves to under a translation: the
/// translated name when one is present, the base card's name otherwise.
pub open spec fn spec_resolved_name(card: crate::deck::CardView, tr: Option<
    CardTranslationView,
>) -> Seq<char> {
    match tr {
        Some(t) => match t.name {
            Some(n) => n,
            None => card.name,
        },
        None => card.name,
    }
}

/// Resolves a card's display name against an optional translation.
pub fn resolved_name(card: &TarotCard, tr: Option<&CardTranslation>) -> (r: String)
    ensures
        r@ == spec_resolved_name(card@, tr.deep_view()),
{
    match tr {
        Some(t) => match &t.name {
            Some(n) => n.clone(),
            None => card.name.clone(),
        },
        None => card.name.clone(),
    }
}

/// The meaning text a card resolves to under a translation: the
/// translation's orientation text when the card has an entry, the base
/// card's own orientation text otherwise.
pub open spec fn spec_resolved_meaning(
    card: crate::deck::CardView,
    orientation: Orientation,
    tr: Option<CardTranslationView>,
) -> Seq<char> {
    match tr {
        Some(t) => match orientation {
            Orientation::Upright => t.upright,
            Orientation::Reversed => t.reversed,
        },
        None => orientation.spec_meaning(card),
    }
}

/// Resolves a card's meaning text against an optional translation.
pub fn resolved_meaning(card: &TarotCard, orientation: Orientation, tr: Option<
    &CardTranslation,
>) -> (r: String)
    ensures
        r@ == spec_resolved_meaning(card@, orientation, tr.deep_view()),
{
    match tr {
        Some(t) => match orientation {
            Orientation::Upright => t.upright.clone(),
            Orientation::Reversed => t.reversed.clone(),
        },
        None => match orientation {
            Orientation::Upright => card.upright.clone(),
            Orientation::Reversed => card.reversed.clone(),
        },
    }
}

/// The supported languages.
#[derive(Debug, Clone, Copy, PartialEq, Eq, Structural)]
pub enum Language {
    English,
    Ukrainian,
}

/// How an arbitrary language code normalizes into the supported set: the
/// Ukrainian codes map to Ukrainian, anything else to the default.
pub open spec fn spec_from_code(code: Seq<char>) -> Language {
    if code == "ua"@ || code == "uk"@ {
        Language::Ukrainian
    } else {
        Language::English
    }
}

impl Language {
    pub fn code(&self) -> (r: &'static str)
        ensures
            *self is English ==> r@ == "en"@,
            *self is Ukrainian ==> r@ == "ua"@,
    {
        match self {
            Language::English => "en",
            Language::Ukrainian => "ua",
        }
    }

    /// Normalizes an arbitrary language code: unrecognized codes map to
    /// the default language.
    pub fn from_code(code: &str) -> (r: Self)
        ensures
            r == spec_from_code(code@),
    {
        if str_eq(code, "ua") || str_eq(code, "uk") {
            Language::Ukrainian
        } else {
            Language::English
        }
    }

    /// Cycles through the supported languages.
    pub fn toggle(&self) -> (r: Self)
        ensures
            *self is English ==> r is Ukrainian,
            *self is Ukrainian ==> r is English,
    {
        match self {
            Language::English => Language::Ukrainian,
            Language::Ukrainian => Language::English,
        }
    }
}

impl Default for Language {
    fn default() -> (r: Self)
        ensures
            r == Language::English,
    {
        Language::English
    }
}

/// The plural suffix for a card count.
pub open spec fn spec_plural(count: nat) -> Seq<char> {
    if count == 1 {
        Seq::<char>::empty()
    } else {
        seq!['s']
    }
}

/// Fills the `{count}` and `{plural}` placeholders of the copied-feedback
/// template.
pub fn format_copied_message(t: &Translations, count: usize) -> (r: String)
    ensures
        r@ == replace_all(
            replace_all(t.feedback.copied@, "{count}"@, dec_chars(count as nat)),
            "{plural}"@,
            spec_plural(count as nat),
        ),
{
    let num = usize_to_string(count);
    let with_count = replace_str(t.feedback.copied.as_str(), "{count}", num.as_str());
    let plural: &str = if count == 1 {
        ""
    } else {
        "s"
    };
    proof {
        reveal_strlit("");
        reveal_strlit("s");
        assert(plural@ =~= spec_plural(count as nat));
    }
    replace_str(with_count.as_str(), "{plural}", plural)
}

/// One line of the copy payload: the card's resolved display name, with
/// the localized reversed marker appended in parentheses when the card
/// lies reversed.
pub open spec fn spec_card_line(
    d: DrawnView,
    ct: Seq<CardEntryView>,
    reversed_label: Seq<char>,
) -> Seq<char> {
    let name = spec_resolved_name(d.card, ct_lookup(ct, d.card.slug));
    match d.orientation {
        Orientation::Upright => name,
        Orientation::Reversed => name + " ("@ + reversed_label + ")"@,
    }
}

/// The copy payload for a list of drawn cards: one line per card, joined
/// with newlines.
pub open spec fn spec_copy_payload(
    cards: Seq<DrawnView>,
    ct: Seq<CardEntryView>,
    reversed_label: Seq<char>,
) -> Seq<char>
    decreases cards.len(),
{
    if cards.len() == 0 {
        Seq::<char>::empty()
    } else if cards.len() == 1 {
        spec_card_line(cards[0], ct, reversed_label)
    } else {
        spec_copy_payload(cards.drop_last(), ct, reversed_label) + seq!['\n'] + spec_card_line(
            cards.last(),
            ct,
            reversed_label,
        )
    }
}

/// Builds one line of the copy payload.
fn card_line(d: &DrawnCard, ct: &CardTranslations, t: &Translations) -> (r: String)
    ensures
        r@ == spec_card_line(d@, ct@, t.orientation.reversed@),
{
    let tr = ct.get(d.card.slug.as_str());
    let name = resolved_name(&d.card, tr);
    match d.orientation {
        Orientation::Upright => name,
        Orientation::Reversed => {
            let mut line = name;
            line.append(" (");
            line.append(t.orientation.reversed.as_str());
            line.append(")");
            proof {
                assert(line@ =~= spec_resolved_name(d@.card, ct_lookup(ct@, d@.card.slug))
                    + " ("@ + t.orientation.reversed@ + ")"@);
            }
            line
        },
    }
}

/// Builds the clipboard payload for a reading: each card's resolved,
/// localized line, joined with newlines.
pub fn copy_payload(cards: &Vec<DrawnCard>, ct: &CardTranslations, t: &Translations) -> (r:
    String)
    ensures
        r@ == spec_copy_payload(cards.deep_view(), ct@, t.orientation.reversed@),
{
    let ghost dv = cards.deep_view();
    let ghost label = t.orientation.reversed@;
    let n = cards.len();
    let mut out = String::new();
    let mut i: usize = 0;
    proof {
        assert(dv.take(0) =~= Seq::<DrawnView>::empty());
    }
    while i < n
        invariant
            i <= n,
            n == dv.len(),
            dv == cards.deep_view(),
            label == t.orientation.reversed@,
            out@ == spec_copy_payload(dv.take(i as int), ct@, label),
        decreases n - i,
    {
        let line = card_line(&cards[i], ct, t);
        proof {
            assert(dv.take(i + 1).drop_last() =~= dv.take(i as int));
            assert(dv.take(i + 1).last() == dv[i as int]);
        }
        if i > 0 {
            push_char(&mut out, '\n');
        }
        out.append(line.as_str());
        proof {
            if i == 0 {
                assert(out@ =~= spec_card_line(dv[0], ct@, label));
                assert(dv.take(1).len() == 1);
                assert(dv.take(1)[0] == dv[0]);
            } else {
                assert(out@ =~= spec_copy_payload(dv.take(i as int), ct@, label) + seq!['\n']
                    + spec_card_line(dv[i as int], ct@, label));
            }
        }
        i = i + 1;
    }
    proof {
        assert(dv.take(n as int) =~= dv);
    }
    out
}

} // verus!
