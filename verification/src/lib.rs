//! Grouped statistics over indexed series: the computations behind the
//! derived datasets of a Bitcoin chain explorer.

pub mod options;
pub mod stats;
pub mod column;
pub mod builder;
pub mod address;
pub mod cohorts;
pub mod timeline;
pub mod prices;
pub mod grouped;
pub mod builder_laws;
pub mod ledger;
pub mod supply;
pub mod stores;
pub mod dates;
