use pgp_blocks::engine::{conclude, conclude_from_bytes, plan_invocation, Failure, ENGINE};
use pgp_blocks::passphrase::{known_passphrase, PASSPHRASE_PROMPT, PASSPHRASE_VARIABLE};

fn text(s: &str) -> String {
    s.to_string()
}

#[test]
fn engine_is_gpg() {
    assert_eq!(ENGINE, "gpg");
}

#[test]
fn invocation_asks_for_batch_decryption() {
    let message = "-----BEGIN PGP MESSAGE-----\nabc\n-----END PGP MESSAGE-----";
    let plan = plan_invocation(message, "pw", "/tmp/p");
    assert_eq!(plan.program, "gpg");
    assert_eq!(
        plan.arguments,
        vec![
            text("--decrypt"),
            text("--batch"),
            text("--yes"),
            text("--no-tty"),
            text("--pinentry-mode"),
            text("loopback"),
            text("--passphrase-file"),
            text("/tmp/p"),
            text("--always-trust"),
        ]
    );
}

#[test]
fn invocation_writes_the_message_alone_to_the_input() {
    let plan = plan_invocation("line one\nline two", "pw", "/tmp/p");
    assert_eq!(plan.input, "line one\nline two");
    let plan = plan_invocation("", "pw", "/tmp/p");
    assert_eq!(plan.input, "");
    let plan = plan_invocation("  kept as it is \n", "pw", "/tmp/p");
    assert_eq!(plan.input, "  kept as it is \n");
}

#[test]
fn invocation_hands_the_passphrase_over_whole_in_a_file_of_its_own() {
    let plan = plan_invocation("message", " correct\thorse\r ", "/run/user/1/secret");
    assert_eq!(plan.passphrase, " correct\thorse\r ");
    assert_eq!(plan.passphrase_file, "/run/user/1/secret");
    assert_eq!(plan.arguments[6], "--passphrase-file");
    assert_eq!(plan.arguments[7], "/run/user/1/secret");
    let plan = plan_invocation("message", "", "p");
    assert_eq!(plan.passphrase, "");
}

#[test]
fn invocation_keeps_the_passphrase_off_the_command_line_and_the_input() {
    let plan = plan_invocation("message", "correct horse", "/tmp/p");
    assert!(plan.arguments.iter().all(|argument| !argument.contains("correct horse")));
    assert!(!plan.program.contains("correct horse"));
    assert!(!plan.input.contains("correct horse"));
}

#[test]
fn invocation_keeps_the_passphrase_variable_out_of_the_environment() {
    let plan = plan_invocation("message", "pw", "/tmp/p");
    assert_eq!(plan.withheld_variables, vec![text("PGP_KEY_PASSPHRASE")]);
}

#[test]
fn run_is_planned_for_every_passphrase() {
    for passphrase in ["", "pw", "a\nb", "a\n", "\n", "a\r\nb", " \t", "p\u{e4}ss \u{2028}"] {
        let plan = plan_invocation("message", passphrase, "/tmp/p");
        assert_eq!(plan.program, "gpg");
        assert_eq!(plan.passphrase, passphrase);
        assert_eq!(plan.passphrase_file, "/tmp/p");
        assert_eq!(plan.input, "message");
        for flag in ["--decrypt", "--batch", "--yes", "--no-tty", "--always-trust"] {
            assert_eq!(plan.arguments.iter().filter(|a| a.as_str() == flag).count(), 1);
        }
        assert_eq!(plan.arguments[4], "--pinentry-mode");
        assert_eq!(plan.arguments[5], "loopback");
    }
}

#[test]
fn passphrase_with_a_line_feed_is_handed_over_whole() {
    let plan = plan_invocation("m", "first\nsecond", "/tmp/p");
    assert_eq!(plan.passphrase, "first\nsecond");
    assert_eq!(plan.input, "m");
}

#[test]
fn different_passphrases_give_the_same_arguments_and_environment() {
    let one = plan_invocation("message", "alpha horse", "/tmp/p");
    let other = plan_invocation("message", "battery\nstaple", "/tmp/p");
    assert_eq!(one.program, other.program);
    assert_eq!(one.arguments, other.arguments);
    assert_eq!(one.withheld_variables, other.withheld_variables);
    assert_eq!(one.input, other.input);
    assert_eq!(one.passphrase_file, other.passphrase_file);
    assert_ne!(one.passphrase, other.passphrase);
    for part in ["alpha", "horse", "battery", "staple"] {
        assert!(one.arguments.iter().all(|argument| !argument.contains(part)));
        assert!(other.arguments.iter().all(|argument| !argument.contains(part)));
    }
}

#[test]
fn message_of_a_passphrase_that_was_not_delivered() {
    let failure = Failure::PassphraseNotDelivered { detail: text("File exists") };
    assert_eq!(failure.message(), "Failed to hand the passphrase to gpg: File exists");
}

#[test]
fn success_gives_the_output_as_plaintext() {
    assert_eq!(
        conclude(true, "secret: value\n", "gpg: encrypted with RSA key"),
        Ok(text("secret: value\n"))
    );
    assert_eq!(conclude(true, "", ""), Ok(text("")));
}

#[test]
fn failure_keeps_diagnostics_and_output() {
    assert_eq!(
        conclude(false, "partial", "gpg: decryption failed: Bad session key"),
        Err(Failure::DecryptionFailed {
            diagnostics: text("gpg: decryption failed: Bad session key"),
            output: text("partial"),
        })
    );
}

#[test]
fn message_of_a_failed_decryption() {
    let failure = Failure::DecryptionFailed { diagnostics: text("bad key"), output: text("out") };
    assert_eq!(failure.message(), "GPG decryption failed: bad key\nout");
}

#[test]
fn message_of_an_engine_that_did_not_start() {
    let failure = Failure::EngineNotStarted { detail: text("No such file or directory") };
    assert_eq!(failure.message(), "Failed to spawn gpg command: No such file or directory");
}

#[test]
fn message_of_a_failed_write_to_the_engine() {
    let failure = Failure::EngineInput { detail: text("Broken pipe") };
    assert_eq!(failure.message(), "Failed to write to gpg stdin: Broken pipe");
}

#[test]
fn message_of_a_failed_wait_for_the_engine() {
    let failure = Failure::EngineWait { detail: text("interrupted") };
    assert_eq!(failure.message(), "Failed to wait for gpg output: interrupted");
}

#[test]
fn message_of_an_unreadable_input() {
    let failure = Failure::InputUnreadable { path: text("in.yaml"), detail: text("not found") };
    assert_eq!(failure.message(), "Failed to read input file 'in.yaml': not found");
}

#[test]
fn message_of_an_unwritable_output() {
    let failure = Failure::OutputUnwritable { path: text("out.yaml"), detail: text("denied") };
    assert_eq!(failure.message(), "Failed to write output to 'out.yaml': denied");
}

#[test]
fn message_of_a_missing_passphrase() {
    let failure = Failure::PassphraseUnavailable { detail: text("no tty") };
    assert_eq!(failure.message(), "Failed to read passphrase: no tty");
}

#[test]
fn given_passphrase_comes_first() {
    assert_eq!(known_passphrase(Some(text("given")), Some(text("env"))), Some(text("given")));
    assert_eq!(known_passphrase(Some(text("given")), None), Some(text("given")));
}

#[test]
fn environment_passphrase_comes_second() {
    assert_eq!(known_passphrase(None, Some(text("env"))), Some(text("env")));
}

#[test]
fn without_either_the_passphrase_is_unknown() {
    assert_eq!(known_passphrase(None, None), None);
}

#[test]
fn passphrase_variable_and_prompt() {
    assert_eq!(PASSPHRASE_VARIABLE, "PGP_KEY_PASSPHRASE");
    assert_eq!(PASSPHRASE_PROMPT, "Key passphrase: ");
}

#[test]
fn bytes_of_valid_text_are_decoded_as_they_are() {
    assert_eq!(
        conclude_from_bytes(true, "caf\u{e9}: 1\n".as_bytes(), b""),
        Ok(text("caf\u{e9}: 1\n"))
    );
    assert_eq!(
        conclude_from_bytes(false, b"out", "gpg: Entschl\u{fc}sselung fehlgeschlagen".as_bytes()),
        Err(Failure::DecryptionFailed {
            diagnostics: text("gpg: Entschl\u{fc}sselung fehlgeschlagen"),
            output: text("out"),
        })
    );
}

#[test]
fn bytes_that_are_no_text_fail_nothing() {
    assert_eq!(conclude_from_bytes(true, b"a\xffb", b""), Ok(text("a\u{fffd}b")));
    assert_eq!(
        conclude_from_bytes(false, b"\xc3", b"bad \xf0\x28 key"),
        Err(Failure::DecryptionFailed {
            diagnostics: text("bad \u{fffd}( key"),
            output: text("\u{fffd}"),
        })
    );
}
