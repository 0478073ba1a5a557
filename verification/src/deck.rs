//! Card data types and the draw engine.
//!
//! [`TarotCard`] holds one card's metadata, [`Deck`] is the immutable
//! catalog wrapper, and [`Deck::draw_random`] samples a requested number of
//! distinct cards, each with an independently chosen orientation.
//!
//! Randomness comes from the `rand` crate behind two trusted wrappers; all
//! selection logic around them is verified: a successful draw returns
//! exactly the requested number of cards, taken at pairwise distinct
//! positions of the deck.

use vstd::prelude::*;
use vstd::seq_lib::group_to_multiset_ensures;
use rand::seq::SliceRandom;
use rand::Rng;

verus! {

/// Basic facts for a card.
#[derive(Debug, PartialEq, Eq)]
pub struct TarotCard {
    pub slug: String,
    pub name: String,
    pub upright: String,
    pub reversed: String,
    pub keywords: Vec<String>,
}

/// The mathematical value of a [`TarotCard`]: every text field as a
/// character sequence.
pub struct CardView {
    pub slug: Seq<char>,
    pub name: Seq<char>,
    pub upright: Seq<char>,
    pub reversed: Seq<char>,
    pub keywords: Seq<Seq<char>>,
}

impl View for TarotCard {
    type V = CardView;

    open spec fn view(&self) -> CardView {
        CardView {
            slug: self.slug@,
            name: self.name@,
            upright: self.upright@,
            reversed: self.reversed@,
            keywords: self.keywords.deep_view(),
        }
    }
}

impl DeepView for TarotCard {
    type V = CardView;

    open spec fn deep_view(&self) -> CardView {
        self.view()
    }
}

impl Clone for TarotCard {
    fn clone(&self) -> (r: Self)
        ensures
            r@ == self@,
    {
        let r = TarotCard {
            slug: self.slug.clone(),
            name: self.name.clone(),
            upright: self.upright.clone(),
            reversed: self.reversed.clone(),
            keywords: clone_string_list(&self.keywords),
        };
        proof {
            assert(r@.keywords =~= self@.keywords);
        }
        r
    }
}

/// Clones a list of strings, keeping every character sequence.
pub fn clone_string_list(v: &Vec<String>) -> (r: Vec<String>)
    ensures
        r.deep_view() == v.deep_view(),
{
    let mut r: Vec<String> = Vec::new();
    let mut i: usize = 0;
    while i < v.len()
        invariant
            i <= v@.len(),
            r@.len() == i,
            forall|j: int| 0 <= j < i ==> r@[j]@ == v@[j]@,
        decreases v@.len() - i,
    {
        r.push(v[i].clone());
        i = i + 1;
    }
    proof {
        assert(r.deep_view() =~= v.deep_view());
    }
    r
}

impl TarotCard {
    /// Relative path of the card's image inside the assets folder:
    /// `assets/<slug>.webp`.
    pub fn image_path(&self) -> (r: String)
        ensures
            r@ == "assets/"@ + self@.slug + ".webp"@,
    {
        let mut r = String::new();
        r.append("assets/");
        r.append(self.slug.as_str());
        r.append(".webp");
        proof {
            assert(r@ =~= "assets/"@ + self@.slug + ".webp"@);
        }
        r
    }
}

/// How many cards a draw may request.
#[derive(Debug, Clone, Copy, PartialEq, Eq, Structural)]
pub enum DrawCount {
    One,
    Three,
    Five,
}

impl DrawCount {
    /// The number of cards this request stands for.
    pub open spec fn spec_count(self) -> nat {
        match self {
            DrawCount::One => 1,
            DrawCount::Three => 3,
            DrawCount::Five => 5,
        }
    }

    pub fn as_usize(self) -> (r: usize)
        ensures
            r == self.spec_count(),
    {
        match self {
            DrawCount::One => 1,
            DrawCount::Three => 3,
            DrawCount::Five => 5,
        }
    }

    pub fn label(self) -> (r: &'static str)
        ensures
            self is One ==> r@ == "Single card"@,
            self is Three ==> r@ == "Three cards"@,
            self is Five ==> r@ == "Five cards"@,
    {
        match self {
            DrawCount::One => "Single card",
            DrawCount::Three => "Three cards",
            DrawCount::Five => "Five cards",
        }
    }

    pub fn description(self) -> (r: &'static str)
        ensures
            self is One ==> r@ == "A quick pulse check."@,
            self is Three ==> r@ == "Past · Present · Future."@,
            self is Five ==> r@ == "Deep-dive spread."@,
    {
        match self {
            DrawCount::One => "A quick pulse check.",
            DrawCount::Three => "Past · Present · Future.",
            DrawCount::Five => "Deep-dive spread.",
        }
    }
}

/// Upright or reversed orientation for a drawn card.
#[derive(Debug, Clone, Copy, PartialEq, Eq, Structural)]
pub enum Orientation {
    Upright,
    Reversed,
}

impl Default for Orientation {
    fn default() -> (r: Self)
        ensures
            r == Orientation::Upright,
    {
        Orientation::Upright
    }
}

impl Orientation {
    pub fn label(self) -> (r: &'static str)
        ensures
            self is Upright ==> r@ == "Upright"@,
            self is Reversed ==> r@ == "Reversed"@,
    {
        match self {
            Orientation::Upright => "Upright",
            Orientation::Reversed => "Reversed",
        }
    }

    /// The meaning text that this orientation selects from a card.
    pub open spec fn spec_meaning(self, card: CardView) -> Seq<char> {
        match self {
            Orientation::Upright => card.upright,
            Orientation::Reversed => card.reversed,
        }
    }

    pub fn meaning<'a>(self, card: &'a TarotCard) -> (r: &'a str)
        ensures
            r@ == self.spec_meaning(card@),
    {
        match self {
            Orientation::Upright => card.upright.as_str(),
            Orientation::Reversed => card.reversed.as_str(),
        }
    }
}

/// A card coupled with its randomly chosen orientation.
#[derive(Debug, PartialEq, Eq)]
pub struct DrawnCard {
    pub card: TarotCard,
    pub orientation: Orientation,
}

/// The mathematical value of a [`DrawnCard`].
pub struct DrawnView {
    pub card: CardView,
    pub orientation: Orientation,
}

impl View for DrawnCard {
    type V = DrawnView;

    open spec fn view(&self) -> DrawnView {
        DrawnView { card: self.card@, orientation: self.orientation }
    }
}

impl DeepView for DrawnCard {
    type V = DrawnView;

    open spec fn deep_view(&self) -> DrawnView {
        self.view()
    }
}

impl Clone for DrawnCard {
    fn clone(&self) -> (r: Self)
        ensures
            r@ == self@,
    {
        DrawnCard { card: self.card.clone(), orientation: self.orientation }
    }
}

impl DrawnCard {
    pub fn name(&self) -> (r: &str)
        ensures
            r@ == self@.card.name,
    {
        self.card.name.as_str()
    }

    pub fn image_path(&self) -> (r: String)
        ensures
            r@ == "assets/"@ + self@.card.slug + ".webp"@,
    {
        self.card.image_path()
    }

    pub fn orientation_label(&self) -> (r: &'static str)
        ensures
            self.orientation is Upright ==> r@ == "Upright"@,
            self.orientation is Reversed ==> r@ == "Reversed"@,
    {
        self.orientation.label()
    }

    pub fn meaning(&self) -> (r: &str)
        ensures
            r@ == self.orientation.spec_meaning(self@.card),
    {
        self.orientation.meaning(&self.card)
    }

    pub fn keywords(&self) -> (r: &Vec<String>)
        ensures
            r.deep_view() == self@.card.keywords,
    {
        &self.card.keywords
    }
}

/// The style class a card's display name selects: one per Minor Arcana
/// suit, with everything else treated as Major Arcana.
pub open spec fn spec_detect_suit(name: Seq<char>) -> Seq<char> {
    if crate::text::spec_contains(name, "Cups"@) {
        "suit-cups"@
    } else if crate::text::spec_contains(name, "Pentacles"@) {
        "suit-pentacles"@
    } else if crate::text::spec_contains(name, "Swords"@) {
        "suit-swords"@
    } else if crate::text::spec_contains(name, "Wands"@) {
        "suit-wands"@
    } else {
        "suit-major"@
    }
}

/// Detects the suit style class for a card's display name.
pub fn detect_suit(name: &str) -> (r: &'static str)
    ensures
        r@ == spec_detect_suit(name@),
{
    if crate::text::str_contains(name, "Cups") {
        "suit-cups"
    } else if crate::text::str_contains(name, "Pentacles") {
        "suit-pentacles"
    } else if crate::text::str_contains(name, "Swords") {
        "suit-swords"
    } else if crate::text::str_contains(name, "Wands") {
        "suit-wands"
    } else {
        "suit-major"
    }
}

/// No two cards of the sequence share a slug.
pub open spec fn unique_slugs(cards: Seq<CardView>) -> bool {
    forall|i: int, j: int|
        0 <= i < j < cards.len() ==> cards[i].slug != cards[j].slug
}

/// `idx` lists pairwise distinct positions of `cards`, and `drawn` holds
/// exactly the cards at those positions.
pub open spec fn is_draw_witness(
    cards: Seq<CardView>,
    drawn: Seq<DrawnView>,
    idx: Seq<int>,
) -> bool {
    &&& idx.len() == drawn.len()
    &&& forall|i: int| 0 <= i < idx.len() ==> 0 <= #[trigger] idx[i] < cards.len()
    &&& forall|i: int|
        0 <= i < idx.len() ==> #[trigger] drawn[i].card == cards[idx[i]]
    &&& forall|i: int, j: int| 0 <= i < j < idx.len() ==> idx[i] != idx[j]
}

/// `drawn` consists of cards taken at pairwise distinct positions of
/// `cards`.
pub open spec fn drawn_from(cards: Seq<CardView>, drawn: Seq<DrawnView>) -> bool {
    exists|idx: Seq<int>| is_draw_witness(cards, drawn, idx)
}

/// No two drawn cards share a slug.
pub open spec fn distinct_drawn_slugs(drawn: Seq<DrawnView>) -> bool {
    forall|i: int, j: int|
        0 <= i < j < drawn.len() ==> drawn[i].card.slug != drawn[j].card.slug
}

/// Cards drawn at distinct positions of a deck without slug collisions
/// never repeat a slug.
pub proof fn lemma_draw_has_distinct_slugs(cards: Seq<CardView>, drawn: Seq<DrawnView>)
    requires
        unique_slugs(cards),
        drawn_from(cards, drawn),
    ensures
        distinct_drawn_slugs(drawn),
{
    let idx = choose|idx: Seq<int>| is_draw_witness(cards, drawn, idx);
    assert forall|i: int, j: int|
        0 <= i < j < drawn.len() implies drawn[i].card.slug != drawn[j].card.slug by {
        if idx[i] < idx[j] {
            assert(cards[idx[i]].slug != cards[idx[j]].slug);
        } else {
            assert(cards[idx[j]].slug != cards[idx[i]].slug);
        }
    }
}

/// Errors that can occur when requesting a reading from the deck.
#[derive(Debug, PartialEq, Eq)]
pub enum DeckError {
    EmptyDeck,
    InsufficientCards { requested: usize, available: usize },
}

impl Clone for DeckError {
    fn clone(&self) -> (r: Self)
        ensures
            r == *self,
    {
        match self {
            DeckError::EmptyDeck => DeckError::EmptyDeck,
            DeckError::InsufficientCards { requested, available } => {
                DeckError::InsufficientCards { requested: *requested, available: *available }
            },
        }
    }
}

impl DeckError {
    /// A short human-readable description of the failure.
    pub fn message(&self) -> (r: String)
        ensures
            self is EmptyDeck ==> r@
                == "No cards available. Drop your .webp files inside the assets/ folder and rebuild."@,
            self matches DeckError::InsufficientCards { requested, available } ==> r@
                == "Requested "@ + crate::text::dec_chars(requested as nat)
                + " cards but only "@ + crate::text::dec_chars(available as nat)
                + " exist in the deck."@,
    {
        match self {
            DeckError::EmptyDeck => {
                "No cards available. Drop your .webp files inside the assets/ folder and rebuild.".to_owned()
            },
            DeckError::InsufficientCards { requested, available } => {
                let mut r = String::new();
                r.append("Requested ");
                let req = crate::text::usize_to_string(*requested);
                r.append(req.as_str());
                r.append(" cards but only ");
                let avail = crate::text::usize_to_string(*available);
                r.append(avail.as_str());
                r.append(" exist in the deck.");
                proof {
                    assert(r@ =~= "Requested "@ + crate::text::dec_chars(*requested as nat)
                        + " cards but only "@ + crate::text::dec_chars(*available as nat)
                        + " exist in the deck."@);
                }
                r
            },
        }
    }
}

/// Relies on rand's `SliceRandom::shuffle` (with `thread_rng` as the
/// randomness source): it permutes the elements of the slice in place, so
/// the multiset of elements is unchanged.
#[verifier::external_body]
fn shuffle(v: &mut Vec<usize>)
    ensures
        final(v)@.to_multiset() == old(v)@.to_multiset(),
{
    v.shuffle(&mut rand::thread_rng());
}

/// Relies on rand's `Rng::gen` for `bool` (with `thread_rng` as the
/// randomness source): returns one of the two values; nothing is promised
/// about which.
#[verifier::external_body]
fn coin_flip() -> bool {
    rand::thread_rng().gen::<bool>()
}

/// Thin wrapper around a list of cards with helper methods for drawing.
#[derive(Debug)]
pub struct Deck {
    cards: Vec<TarotCard>,
}

impl View for Deck {
    type V = Seq<CardView>;

    closed spec fn view(&self) -> Seq<CardView> {
        self.cards.deep_view()
    }
}

impl Deck {
    pub fn new(cards: Vec<TarotCard>) -> (r: Self)
        ensures
            r@ == cards.deep_view(),
    {
        Deck { cards }
    }

    /// The standard deck: the catalog built from the curated card list.
    /// It is sorted by display name, has no repeated slug, and is not
    /// empty.
    pub fn standard() -> (r: Self)
        ensures
            r@ == crate::catalog::catalog_spec(crate::catalog::curated_views()),
            crate::catalog::sorted_by_name(r@),
            unique_slugs(r@),
            r@.len() > 0,
    {
        let curated = crate::catalog::curated_cards();
        let ghost cv = curated.deep_view();
        let empty: Vec<TarotCard> = Vec::new();
        let catalog = crate::catalog::build_catalog(curated, empty);
        proof {
            let ghost all = cv + Seq::<CardView>::empty();
            assert(all =~= cv);
            assert(cv == crate::catalog::curated_views());
            crate::catalog::lemma_catalog_props(all);
            assert(crate::catalog::has_slug(catalog.deep_view(), "the-fool"@));
            let i = choose|i: int|
                0 <= i < catalog.deep_view().len() && (#[trigger] catalog.deep_view()[i]).slug
                    == "the-fool"@;
            assert(catalog.deep_view().len() > 0);
        }
        Deck::new(catalog)
    }

    pub fn len(&self) -> (r: usize)
        ensures
            r == self@.len(),
    {
        self.cards.len()
    }

    pub fn cards(&self) -> (r: &Vec<TarotCard>)
        ensures
            r.deep_view() == self@,
    {
        &self.cards
    }

    /// Draws `count` distinct cards at random, each with an independently
    /// chosen orientation.
    ///
    /// Fails with [`DeckError::EmptyDeck`] on an empty deck and with
    /// [`DeckError::InsufficientCards`] when more cards are requested than
    /// exist; otherwise returns exactly `count` cards taken at pairwise
    /// distinct positions of the deck.
    pub fn draw_random(&self, count: DrawCount) -> (r: Result<Vec<DrawnCard>, DeckError>)
        ensures
            self@.len() == 0 ==> r == Err::<Vec<DrawnCard>, DeckError>(DeckError::EmptyDeck),
            self@.len() > 0 && count.spec_count() > self@.len() ==> r == Err::<
                Vec<DrawnCard>,
                DeckError,
            >(
                (DeckError::InsufficientCards {
                    requested: count.spec_count() as usize,
                    available: self@.len() as usize,
                }),
            ),
            0 < count.spec_count() <= self@.len() ==> {
                &&& r is Ok
                &&& r->Ok_0.deep_view().len() == count.spec_count()
                &&& drawn_from(self@, r->Ok_0.deep_view())
                &&& (unique_slugs(self@) ==> distinct_drawn_slugs(r->Ok_0.deep_view()))
            },
    {
        let available = self.cards.len();
        if available == 0 {
            return Err(DeckError::EmptyDeck);
        }
        let requested = count.as_usize();
        if requested > available {
            return Err(DeckError::InsufficientCards { requested, available });
        }

        let mut indices: Vec<usize> = Vec::new();
        let mut k: usize = 0;
        while k < available
            invariant
                k <= available,
                indices@.len() == k,
                forall|j: int| 0 <= j < k ==> indices@[j] == j,
            decreases available - k,
        {
            indices.push(k);
            k = k + 1;
        }
        proof {
            assert(indices@.no_duplicates());
            indices@.lemma_multiset_has_no_duplicates();
        }
        let ghost before = indices@;
        shuffle(&mut indices);
        proof {
            broadcast use group_to_multiset_ensures;

            assert forall|x: usize| indices@.to_multiset().contains(x)
                implies indices@.to_multiset().count(x) == 1 by {
                assert(before.to_multiset().contains(x));
            }
            indices@.lemma_multiset_has_no_duplicates_conv();
            assert forall|j: int| 0 <= j < indices@.len() implies indices@[j] < available by {
                assert(indices@.to_multiset().contains(indices@[j]));
                assert(before.to_multiset().contains(indices@[j]));
                assert(before.contains(indices@[j]));
            }
            assert(indices@.len() == before.to_multiset().len());
        }

        let mut cards: Vec<DrawnCard> = Vec::new();
        let mut i: usize = 0;
        while i < requested
            invariant
                i <= requested,
                requested <= available,
                available == self@.len(),
                available == indices@.len(),
                self@ == self.cards.deep_view(),
                indices@.no_duplicates(),
                forall|j: int| 0 <= j < indices@.len() ==> indices@[j] < available,
                cards.deep_view().len() == i,
                is_draw_witness(
                    self@,
                    cards.deep_view(),
                    indices@.take(i as int).map_values(|u: usize| u as int),
                ),
            decreases requested - i,
        {
            let ghost prev = cards.deep_view();
            let ghost prev_idx = indices@.take(i as int).map_values(|u: usize| u as int);
            let idx = indices[i];
            let card = self.cards[idx].clone();
            let orientation = if coin_flip() {
                Orientation::Upright
            } else {
                Orientation::Reversed
            };
            let drawn = DrawnCard { card, orientation };
            let ghost dview = drawn@;
            cards.push(drawn);
            i = i + 1;
            proof {
                assert(cards.deep_view() =~= prev.push(dview));
                assert(indices@.take(i as int).map_values(|u: usize| u as int) =~= prev_idx.push(
                    indices@[i - 1] as int,
                ));
            }
        }
        proof {
            let w = indices@.take(requested as int).map_values(|u: usize| u as int);
            assert(is_draw_witness(self@, cards.deep_view(), w));
            if unique_slugs(self@) {
                lemma_draw_has_distinct_slugs(self@, cards.deep_view());
            }
        }
        Ok(cards)
    }
}

} // verus!
