//! Toggles proxy settings across developer tools from one place, and
//! reverts them later.
//!
//! A target is a tool whose configuration this crate can edit: Git, npm, two
//! editors of the VS Code family, an IDE, and the environment variables of
//! the user. Enable backs the configuration up and sets the proxy in it;
//! disable puts the last backup back, or strips the proxy where there is
//! none; reset puts the first backup back.
//!
//! Every function here works on values: the text of a configuration, the
//! snapshots of a target, the configuration of the user. Reading and
//! writing files, the registry and the output of system utilities are left
//! to the caller, who hands in what is on disk and stores what comes back.
//!
//! - [`text`]: characters, lines, fields, numbers; the model of all texts.
//! - [`editors`]: one editor per dialect, each with `apply` and `strip`.
//! - [`backup`]: the two snapshots of a target.
//! - [`registry`] and [`paths`]: the targets and where their files live.
//! - [`orchestrator`]: enable, disable and reset, for one target and for
//!   many, with a report line for each.
//! - [`profile_manager`]: the configuration of the user.
//! - [`port_detector`]: the ports on which a proxy program listens.
//! - [`outside`]: the calls into other crates, whose contracts are stated
//!   and not proved.

pub mod backup;
pub mod editors;
pub mod orchestrator;
pub mod outside;
pub mod pairs;
pub mod paths;
pub mod port_detector;
pub mod profile_manager;
pub mod registry;
pub mod seqs;
pub mod settings;
pub mod text;
