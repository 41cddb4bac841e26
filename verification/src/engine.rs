//! The boundary to the external decryption engine: how it is to be invoked
//! for one message, what its exit means, and the failures that end a run.

use vstd::prelude::*;
use vstd::utf8::{decode_utf8, valid_utf8};
use crate::lines::views;
use crate::passphrase::PASSPHRASE_VARIABLE;

verus! {

/// The program that decrypts.
pub const ENGINE: &'static str = "gpg";

/// Why a run ended without a document.
#[derive(Debug, Clone, PartialEq, Eq)]
pub enum Failure {
    /// The input file could not be read.
    InputUnreadable { path: String, detail: String },
    /// No passphrase could be had from the prompt.
    PassphraseUnavailable { detail: String },
    /// The passphrase could not be written to the file that the engine
    /// reads it from.
    PassphraseNotDelivered { detail: String },
    /// The engine could not be started.
    EngineNotStarted { detail: String },
    /// The message could not be written to the engine's input.
    EngineInput { detail: String },
    /// Waiting for the engine to end failed.
    EngineWait { detail: String },
    /// The engine ended with a status other than success.
    DecryptionFailed { diagnostics: String, output: String },
    /// The output file could not be written.
    OutputUnwritable { path: String, detail: String },
}

/// The message that tells a user of `failure`.
pub open spec fn message_of(failure: Failure) -> Seq<char> {
    match failure {
        Failure::InputUnreadable { path, detail } => "Failed to read input file '"@ + path@
            + "': "@ + detail@,
        Failure::PassphraseUnavailable { detail } => "Failed to read passphrase: "@ + detail@,
        Failure::PassphraseNotDelivered { detail } => "Failed to hand the passphrase to gpg: "@
            + detail@,
        Failure::EngineNotStarted { detail } => "Failed to spawn gpg command: "@ + detail@,
        Failure::EngineInput { detail } => "Failed to write to gpg stdin: "@ + detail@,
        Failure::EngineWait { detail } => "Failed to wait for gpg output: "@ + detail@,
        Failure::DecryptionFailed { diagnostics, output } => "GPG decryption failed: "@
            + diagnostics@ + "\n"@ + output@,
        Failure::OutputUnwritable { path, detail } => "Failed to write output to '"@ + path@
            + "': "@ + detail@,
    }
}

impl Failure {
    /// The message that tells a user of this failure.
    pub fn message(&self) -> (text: String)
        ensures
            text@ == message_of(*self),
    {
        match self {
            Failure::InputUnreadable { path, detail } => {
                let mut text = String::from_str("Failed to read input file '");
                text.append(path.as_str());
                text.append("': ");
                text.append(detail.as_str());
                text
            },
            Failure::PassphraseUnavailable { detail } => {
                let mut text = String::from_str("Failed to read passphrase: ");
                text.append(detail.as_str());
                text
            },
            Failure::PassphraseNotDelivered { detail } => {
                let mut text = String::from_str("Failed to hand the passphrase to gpg: ");
                text.append(detail.as_str());
                text
            },
            Failure::EngineNotStarted { detail } => {
                let mut text = String::from_str("Failed to spawn gpg command: ");
                text.append(detail.as_str());
                text
            },
            Failure::EngineInput { detail } => {
                let mut text = String::from_str("Failed to write to gpg stdin: ");
                text.append(detail.as_str());
                text
            },
            Failure::EngineWait { detail } => {
                let mut text = String::from_str("Failed to wait for gpg output: ");
                text.append(detail.as_str());
                text
            },
            Failure::DecryptionFailed { diagnostics, output } => {
                let mut text = String::from_str("GPG decryption failed: ");
                text.append(diagnostics.as_str());
                text.append("\n");
                text.append(output.as_str());
                text
            },
            Failure::OutputUnwritable { path, detail } => {
                let mut text = String::from_str("Failed to write output to '");
                text.append(path.as_str());
                text.append("': ");
                text.append(detail.as_str());
                text
            },
        }
    }
}

/// The message of a failed decryption holds the engine's diagnostics whole,
/// directly behind its opening words.
pub proof fn lemma_message_holds_diagnostics(diagnostics: String, output: String)
    ensures
        ({
            let text = message_of(Failure::DecryptionFailed { diagnostics, output });
            let lead = "GPG decryption failed: "@.len() as int;
            &&& lead + diagnostics@.len() <= text.len()
            &&& text.subrange(lead, lead + diagnostics@.len()) == diagnostics@
        }),
{
}

/// The arguments that the engine is started with: decrypt, ask nothing, say
/// yes to every question, expect no terminal, take the passphrase from the
/// file `passphrase_file`, and trust the key.
pub open spec fn engine_arguments(passphrase_file: Seq<char>) -> Seq<Seq<char>> {
    seq![
        "--decrypt"@,
        "--batch"@,
        "--yes"@,
        "--no-tty"@,
        "--pinentry-mode"@,
        "loopback"@,
        "--passphrase-file"@,
        passphrase_file,
        "--always-trust"@,
    ]
}

/// One run of the engine. The message and the passphrase reach it on two
/// channels of their own: the message on its input, the passphrase in a
/// file that it is told to read. Neither is an argument, and the engine's
/// environment is without the variable that may hold the passphrase.
#[derive(Debug, Clone, PartialEq, Eq)]
pub struct Invocation {
    /// The program to start.
    pub program: String,
    /// Its arguments.
    pub arguments: Vec<String>,
    /// What is written to its input before the input is closed.
    pub input: String,
    /// The file that it reads the passphrase from.
    pub passphrase_file: String,
    /// What that file has to hold.
    pub passphrase: String,
    /// The variables that are taken out of its environment.
    pub withheld_variables: Vec<String>,
}

/// How the engine is to be run for the message `block_text`, with the
/// passphrase in the file `passphrase_file`.
///
/// A run is planned for every message and every passphrase. The engine's
/// input is the message and nothing else, and the passphrase is handed over
/// as it was given. The arguments and the withheld variables are the same
/// whatever the passphrase is. Of a passphrase file `gpg` takes the first
/// line: a passphrase that holds a line feed reaches the file whole, and
/// `gpg` reads it up to that line feed.
pub fn plan_invocation(block_text: &str, passphrase: &str, passphrase_file: &str) -> (plan:
    Invocation)
    ensures
        plan.program@ == ENGINE@,
        views(plan.arguments@) == engine_arguments(passphrase_file@),
        plan.input@ == block_text@,
        plan.passphrase_file@ == passphrase_file@,
        plan.passphrase@ == passphrase@,
        views(plan.withheld_variables@) == seq![PASSPHRASE_VARIABLE@],
{
    let mut arguments: Vec<String> = Vec::new();
    arguments.push(String::from_str("--decrypt"));
    arguments.push(String::from_str("--batch"));
    arguments.push(String::from_str("--yes"));
    arguments.push(String::from_str("--no-tty"));
    arguments.push(String::from_str("--pinentry-mode"));
    arguments.push(String::from_str("loopback"));
    arguments.push(String::from_str("--passphrase-file"));
    arguments.push(String::from_str(passphrase_file));
    arguments.push(String::from_str("--always-trust"));
    let mut withheld_variables: Vec<String> = Vec::new();
    withheld_variables.push(String::from_str(PASSPHRASE_VARIABLE));
    Invocation {
        program: String::from_str(ENGINE),
        arguments,
        input: String::from_str(block_text),
        passphrase_file: String::from_str(passphrase_file),
        passphrase: String::from_str(passphrase),
        withheld_variables,
    }
}

/// What a finished run of the engine means. On success the engine's output
/// is the plaintext; otherwise the run failed, and the failure keeps what
/// the engine wrote to its error stream and to its output.
pub fn conclude(succeeded: bool, output: &str, diagnostics: &str) -> (outcome: Result<
    String,
    Failure,
>)
    ensures
        match outcome {
            Ok(plaintext) => succeeded && plaintext@ == output@,
            Err(Failure::DecryptionFailed { diagnostics: d, output: o }) => !succeeded && d@
                == diagnostics@ && o@ == output@,
            Err(_) => false,
        },
{
    if succeeded {
        Ok(String::from_str(output))
    } else {
        Err(
            Failure::DecryptionFailed {
                diagnostics: String::from_str(diagnostics),
                output: String::from_str(output),
            },
        )
    }
}

/// The text that lossy decoding makes of `bytes`: the characters that valid
/// UTF-8 stands for, and U+FFFD for what is no valid UTF-8.
pub uninterp spec fn lossy_text(bytes: Seq<u8>) -> Seq<char>;

/// `String::from_utf8_lossy`: decodes `bytes` as UTF-8 and never fails. The
/// result depends on the bytes alone, and bytes that are valid UTF-8 are
/// decoded as they are.
#[verifier::external_body]
fn decode_lossy(bytes: &[u8]) -> (text: String)
    ensures
        text@ == lossy_text(bytes@),
        valid_utf8(bytes@) ==> text@ == decode_utf8(bytes@),
{
    String::from_utf8_lossy(bytes).into_owned()
}

/// What a finished run of the engine means, from the bytes it wrote: both
/// streams are decoded lossily, so that bytes that are no text fail nothing,
/// and the outcome is that of `conclude` on the decoded texts.
pub fn conclude_from_bytes(succeeded: bool, output: &[u8], diagnostics: &[u8]) -> (outcome: Result<
    String,
    Failure,
>)
    ensures
        match outcome {
            Ok(plaintext) => succeeded && plaintext@ == lossy_text(output@),
            Err(Failure::DecryptionFailed { diagnostics: d, output: o }) => !succeeded && d@
                == lossy_text(diagnostics@) && o@ == lossy_text(output@),
            Err(_) => false,
        },
        valid_utf8(output@) ==> match outcome {
            Ok(plaintext) => plaintext@ == decode_utf8(output@),
            Err(Failure::DecryptionFailed { diagnostics: d, output: o }) => o@ == decode_utf8(
                output@,
            ),
            Err(_) => false,
        },
        valid_utf8(diagnostics@) ==> match outcome {
            Ok(plaintext) => true,
            Err(Failure::DecryptionFailed { diagnostics: d, output: o }) => d@ == decode_utf8(
                diagnostics@,
            ),
            Err(_) => false,
        },
{
    let output_text = decode_lossy(output);
    let diagnostics_text = decode_lossy(diagnostics);
    conclude(succeeded, output_text.as_str(), diagnostics_text.as_str())
}

} // verus!
