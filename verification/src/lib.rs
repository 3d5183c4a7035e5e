//! Discovery of cloud database instances for a monitoring system.
//!
//! The library holds the verified core of a discovery pipeline: resolving a
//! run configuration (including a tag filter written as a JSON array),
//! selecting enumerated database instances by tag, projecting them into
//! discovery records, and rendering the final discovery document as
//! pretty-printed JSON. Network calls and argument handling live outside the
//! library and hand it plain values.

pub mod config;
pub mod laws;
pub mod model;
pub mod render;
pub mod select;
mod strutil;

pub use config::Config;
pub use config::ConfigError;
pub use config::parse_tag_filters;
pub use config::resolve_config;
pub use model::DbInstance;
pub use model::DiscoveryData;
pub use model::DiscoveryEntry;
pub use model::Endpoint;
pub use model::Tag;
pub use model::TagFilter;
pub use render::render_document;
pub use select::DiscoveryError;
pub use select::discover_instances;
pub use select::project_instance;
pub use select::tags_match;
