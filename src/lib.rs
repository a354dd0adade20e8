//! A local mirror of a media routing server's object graph, and the rules for editing it.
//!
//! - `directory` remembers what each live server object is, so that removals, which the
//!   server reports by id alone, can be resolved;
//! - `bridge` turns registry notifications into events and edit commands into server
//!   requests;
//! - `graph` and `node` hold the UI-side model, which merges server nodes by display name;
//! - `layout` orders nodes along their links and places new ones;
//! - `port_order` lists a node's ports in natural order of their names.

pub mod bridge;
pub mod directory;
pub mod graph;
pub mod id;
pub mod layout;
pub mod link;
pub mod messages;
pub mod node;
pub mod port_order;
pub mod text;
