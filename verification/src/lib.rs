//! Core of a command-line assistant that drafts a commit message for the
//! staged changes with a remote completion service, lets the user edit the
//! draft, and then commits and pushes.
//!
//! This library holds everything the tool decides and computes: the settings
//! store and its on-disk format, the prompt builder, the completion request
//! body and the extraction of the draft from the response, message
//! validation, and the workflow state machine that sequences the run. The
//! binary around it only performs the I/O that the machine asks for.

pub mod num;
pub mod prompt;
pub mod request;
pub mod settings;
pub mod text;
pub mod workflow;
