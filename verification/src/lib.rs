//! A catalog of the flats section of a classifieds site, and the
//! conversation that leads a user through it to a search.
//!
//! - `flats` holds the catalog of cities, districts and deal types, the
//!   crawler that fills it from the pages of the site, and the reader of a
//!   page of listings.
//! - `telegram` holds the conversation: a rule from a state, a message and
//!   the catalog to the next state and the answer.
//! - `text` holds what both need of strings.
//!
//! The library fetches nothing and sends nothing: it says which page it
//! needs and takes what was fetched, and it says which message to send.

pub mod flats;
pub mod telegram;
pub mod text;
