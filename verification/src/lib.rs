//! Core of the ElectroniX reliability workbench backend: session
//! folders and their contents, the plans of the helper runs, the `.pcsim`
//! load deck, and the readers of the `.pcprep` point-cloud text and the
//! `.pcres` binary result formats.

pub mod jobs;
pub mod paths;
pub mod pcprep;
pub mod pcres;
pub mod session;
pub mod text;

pub use session::{SessionDirs, SessionStatus};
