//! The logic of a desktop front end for 7-Zip: its configuration file, the
//! expansion of environment variables in paths, the detection of split
//! archive volumes, the interpretation of 7-Zip's output, the password retry
//! of a batch extraction and the WebDAV synchronisation decisions.
pub mod platform;
pub mod text;
pub mod config;
pub mod passwords;
pub mod envvars;
pub mod bytes;
pub mod sorting;
pub mod split_parts;
pub mod sevenzip;
pub mod extract;
pub mod webdav;
pub mod menu;
pub mod state;
