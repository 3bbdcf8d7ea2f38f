//! Verified core of the SideScreenUtil native edition: frame filtering,
//! overlay state, translations, settings and layout arithmetic.

pub mod platform;
pub mod grid;
pub mod search;
pub mod edges;
pub mod model;
pub mod filter;
pub mod i18n;
pub mod settings;
pub mod overlay;
pub mod controls;
pub mod layout;
pub mod panel;
