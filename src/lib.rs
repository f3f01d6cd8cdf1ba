//! Two-way conversion between collectible metadata documents (a name, a
//! description, an edition and a list of trait/value attributes) and flat
//! collectible rows with one column per trait.

pub mod schema;
pub mod record;
pub mod mapper;
pub mod driver;
