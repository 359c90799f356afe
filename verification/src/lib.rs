//! The logic of a dashboard that pulls every git repository of a directory.
//!
//! The state of the dashboard is in [`app`], and what it shows in [`render`], [`help`] and
//! [`style`]. What is run is in [`commands`], and what is made of the answers in [`git`],
//! [`pull`], [`scan`] and [`worker`]. Groups of repositories are in [`groups`], their resolution
//! in [`resolution`] and the matching of their names in [`wildcard`]; the timing report is in
//! [`profile`].
//!
//! Nothing here reads anything but the clock, or writes anything: commands, files, the network and
//! the terminal are the business of the program around the library, which hands over what it got
//! as plain values. What the library has from other code stands in [`outside`].
//!
//! Beside each contract stand laws that say what it is for: in the module itself, or in
//! [`answer_laws`], [`app_laws`], [`git_laws`], [`group_laws`], [`pull_laws`], [`render_laws`] and
//! [`scan_laws`].

pub mod answer_laws;
pub mod app;
pub mod app_laws;
pub mod commands;
pub mod elapsed;
pub mod git;
pub mod git_laws;
pub mod group_laws;
pub mod groups;
pub mod help;
pub mod info;
pub mod number;
pub mod order;
pub mod output;
pub mod outside;
pub mod path;
pub mod profile;
pub mod pull;
pub mod pull_laws;
pub mod render;
pub mod render_laws;
pub mod resolution;
pub mod scan;
pub mod scan_laws;
pub mod style;
pub mod text;
pub mod wildcard;
pub mod worker;
