//! Drafting e-mail messages for a locally installed Outlook.
//!
//! A [`MessageBuilder`] collects recipients, a subject, a body and at most
//! one attachment, and turns them into the command line that `OUTLOOK.EXE`
//! takes for a pre-filled message. An [`ExecutableLocator`] remembers where
//! the executable is registered, so that the configuration store is asked at
//! most once.
//!
//! Everything here is pure: reading the registry and starting the process are
//! left to the caller, who hands in what it read and receives an
//! [`Invocation`] to run.

pub mod escape;
pub mod locator;
pub mod message;
pub mod text;

pub use crate::escape::percent_escape;
pub use crate::locator::ExecutableLocator;
pub use crate::message::{Invocation, LaunchError, MessageBuilder};
