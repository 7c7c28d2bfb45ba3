//! A caching proxy core for an animal-listing service: query fingerprints and
//! result freshness, the bearer-token lifecycle, and a persistent table of short
//! redirect codes for listing URLs.
//!
//! Everything here is pure logic over plain values; the HTTP server, the
//! outbound requests and the files on disk are driven by the application
//! around this library.

pub mod cache;
pub mod listing;
pub mod pipeline;
pub mod query;
pub mod text;
pub mod token;
pub mod urls;

pub use cache::{cache_path, is_fresh, TTL};
pub use listing::{
    create_short_url, Address, Animal, AnimalData, Attributes, Breeds, Colors, Contact,
    Environment, Links, Organization, Pagination, Photo, PrimaryPhotoCropped, SelfField, Type,
};
pub use pipeline::{next_stage, Stage};
pub use query::AnimalOptions;
pub use text::{push_decimal, push_decimal_i64};
pub use urls::{look_up_url, short_url, UrlTable};
pub use token::{AuthData, State, TokenResponse};
