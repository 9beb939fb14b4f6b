//! Deduplicating import of files into a named storage resource.
//!
//! An import takes a list of paths, files or directories, and stores in a
//! resource each file that the resource does not hold yet and whose format
//! it takes. The files of a directory are imported by ascending
//! modification time; directories below it are left alone. The first
//! operation that fails ends the import.
//!
//! The library decides and does nothing else: it touches neither the file
//! system nor the resource. An [`run::ImportRun`] asks for one operation at
//! a time ([`protocol::Action`]) and is told how it went
//! ([`protocol::Event`]); whoever drives it carries the operations out.
//!
//! - [`entry`]: what the file system says of a path.
//! - [`scan`]: the order in which the entries of a directory are imported.
//! - [`ident`]: the identifiers under which files are stored.
//! - [`outcome`]: what a run reports of each file, and the errors that end it.
//! - [`protocol`]: operations and their answers.
//! - [`model`]: the run as a state machine, as contracts see it.
//! - [`run`]: the run itself.
//! - [`history`]: what holds of every run, whatever answers it gets.
//! - [`world`]: what holds of runs whose answers come from a file system
//!   that stays as it is and a resource that holds what was stored in it.

pub mod entry;
pub mod history;
pub mod ident;
pub mod model;
pub mod outcome;
pub mod protocol;
pub mod run;
pub mod scan;
pub mod world;
