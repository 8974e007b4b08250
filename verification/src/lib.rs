//! Verified planning and accounting logic of a system-drive cleaner.

pub mod text;
pub mod paths;
pub mod model;
pub mod rules;
pub mod progress;
pub mod items;
pub mod restore_points;
pub mod scan;
pub mod plan_laws;
pub mod cleanup;
