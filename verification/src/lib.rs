//! A small card-drawing library.
//!
//! The crate covers the content and logic core of a card-reading
//! application:
//!
//! - [`deck`] holds the card data types and the draw engine, which samples
//!   a requested number of distinct cards with independent orientations.
//! - [`catalog`] assembles the immutable card catalog: it merges a curated
//!   card list with discovered entries, deduplicates by slug (the discovered
//!   entry wins) and sorts the result by display name.
//! - [`resolver`] derives display names and default meaning texts from raw
//!   asset identifiers.
//! - [`i18n`] resolves localized text bundles with guaranteed fallback to
//!   the default language and to the base card data.
//! - [`feedback`] and [`reading`] are small value types for user-facing
//!   state.
//!
//! Rendering and host-platform integration are out of scope; callers hand
//! the library plain values and take plain values back.

pub mod catalog;
pub mod deck;
pub mod feedback;
pub mod i18n;
pub mod reading;
pub mod resolver;
pub mod text;
