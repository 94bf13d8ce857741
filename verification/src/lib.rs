//! Timestamp-driven renaming of photo and video files, with a ledger of the
//! sources that were already copied.
//!
//! The library decides and computes; it reads no file and writes none. The
//! files found below the search roots are grouped by stem (`grouping`), each
//! file is given the most trustworthy timestamp that its group, its EXIF
//! data, its name or its modification time offers (`timestamp`, `resolve`),
//! and its copy gets a name made of that timestamp that collides with no
//! existing file (`naming`). What was copied is recorded in a ledger, which
//! makes a second run leave those files alone and which can be rebased when
//! the sources move (`ledger`). The run itself is a machine that asks the
//! caller for every access to the file system (`engine`). That a second run
//! copies nothing is proved in `rerun` for a first run that gave up no file,
//! whatever the answers are, and in `world` for every run in a file system
//! that keeps its answers.

pub mod config;
pub mod engine;
pub mod grouping;
pub mod ledger;
pub mod media;
pub mod naming;
pub mod rerun;
pub mod resolve;
pub mod text;
pub mod timestamp;
pub mod world;
