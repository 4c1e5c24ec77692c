//! Conditional copying: an instruction document names a destination directory
//! and a list of target files, and each target is copied to the destination
//! only where no file of its name stands there yet.
//!
//! The crate reads such a document into a [`Controller`](controller::Controller)
//! and decides, step by step, what is to be done for each target and what
//! became of it. It touches no file itself: the caller carries out each
//! requested action and reports what came of it.
//!
//! - [`lines`] splits text into lines;
//! - [`controller`] reads a document;
//! - [`paths`] finds the place of a target's copy;
//! - [`reconcile`] holds the reconciler and what it speaks in;
//! - [`pass`] lays down what the reconciler does, and what holds of it.

pub mod controller;
pub mod lines;
pub mod pass;
pub mod paths;
pub mod reconcile;
