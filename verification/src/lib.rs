//! Decrypts the armored PGP messages embedded in a text document and puts the
//! plaintext back in their place, keeping the indentation of each message.
//!
//! The crate holds the scanning and substitution logic. Running the external
//! decryption engine is left to the caller, who hands it in as a function.
//!
//! - `text`: whitespace, trimming, indentation.
//! - `lines`: splitting a text into lines and joining lines into a text.
//! - `marker`: the marker lines that enclose a message.
//! - `scanner`: the state machine that is fed the lines one by one.
//! - `document`: the run over a whole document, with the engine called on
//!   the way.
//! - `composition`: what holds of every run.
//! - `engine`: how the engine is invoked and what its exit means.
//! - `passphrase`: where the passphrase comes from.

pub mod composition;
pub mod document;
pub mod engine;
pub mod lines;
pub mod marker;
pub mod passphrase;
pub mod scanner;
pub mod text;

pub use document::decrypt;
pub use engine::Failure;
pub use scanner::Scanner;
