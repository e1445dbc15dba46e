//! Building blocks shared by the provider contracts.

pub mod label_map;
pub mod label_selector;
pub mod labels;
pub mod runtime;
pub mod selection;
pub mod text;
pub mod types;
