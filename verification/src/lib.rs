//! A verified merge engine for proxy-routing configurations.
//!
//! The library combines a base routing template with a dynamically
//! generated list of proxy nodes: node tags are spliced into the
//! template's selector groups, and the node entries themselves are
//! appended to the template's top-level outbound list.

pub mod json;
pub mod laws;
pub mod merge;
