//! Static-asset resolution over layered roots, with directory listings
//! rendered as HTML, XML or JSON.

pub mod names;
pub mod clock;
pub mod listing;
pub mod render;
pub mod negotiate;
pub mod config;
pub mod resolve;
