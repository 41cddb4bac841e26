//! Where the passphrase comes from.

use vstd::prelude::*;

verus! {

/// The environment variable that may hold the passphrase.
pub const PASSPHRASE_VARIABLE: &'static str = "PGP_KEY_PASSPHRASE";

/// What the user is asked when the passphrase has to be typed in.
pub const PASSPHRASE_PROMPT: &'static str = "Key passphrase: ";

/// The passphrase that is known without asking: the one given explicitly,
/// else the one from the environment. Where neither is there, the user has
/// to be asked.
pub fn known_passphrase(given: Option<String>, environment: Option<String>) -> (known: Option<
    String,
>)
    ensures
        known == (if given is Some {
            given
        } else {
            environment
        }),
{
    match given {
        Some(passphrase) => Some(passphrase),
        None => environment,
    }
}

} // verus!
