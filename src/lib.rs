//! An incremental static site builder: a change-detection cache, a page
//! model and a styling markdown transformer.

pub mod cache;
pub mod content;
pub mod markdown;
pub mod paths;
pub mod resources;
pub mod site;
