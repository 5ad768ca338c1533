//! Records, geometry and the update pipeline's decisions.

pub mod convexity;
pub mod crossing;
pub mod dates;
pub mod gazette;
pub mod geojson;
pub mod handler;
pub mod hash;
pub mod hull;
pub mod maptypes;
pub mod pattern;
pub mod pdf;
pub mod proximity;
pub mod text;
pub mod updater;
