//! A local-first content store: items, tags and their links, a frecency
//! ranking for tags, and the decisions of a last-write-wins sync engine.
//!
//! - `store`: the item/tag store and its invariant;
//! - `frecency`: the tag ranking score;
//! - `sync`: merging pulled items, choosing and recording pushes, status and
//!   the watermark of a full sync;
//! - `remote` and `settings`: the request path, version headers and stored
//!   settings of the sync protocol;
//! - `commands`, `themes`, `registry`: the command surface and the explicit
//!   registries of the running application.
pub mod commands;
pub mod frecency;
pub mod model;
pub mod registry;
pub mod remote;
pub mod settings;
pub mod store;
pub mod sync;
pub mod text;
pub mod themes;
