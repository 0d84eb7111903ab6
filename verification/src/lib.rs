//! Game rules of a small endless-runner: which obstacle comes next, the
//! high-score bookkeeping, the GitHub support check, the score display and
//! the window settings.

pub mod config;
pub mod github_gate;
pub mod hud;
pub mod obstacle;
pub mod persistence;
pub mod text;
