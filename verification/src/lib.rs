//! Buffer-pool layer of a page-oriented storage engine: fixed-size pages with
//! an embedded header, a clock eviction policy, and the frame table that pins
//! and replaces resident pages.

pub mod buffer_pool_manager;
pub mod layout;
pub mod page;
pub mod page_constants;
pub mod replacement;
