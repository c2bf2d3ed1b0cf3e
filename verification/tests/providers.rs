use env_secrets::error::SecretError;
use env_secrets::provider::{
    command_line, pass_command, provider_command, secret_from_outcome, shell_command, Platform,
    ProcessOutput,
};
use env_secrets::secret::SecretReference;

fn reference(provider: &str, reference: &str) -> SecretReference {
    SecretReference { provider: provider.to_string(), reference: reference.to_string() }
}

fn exited(success: bool, exit_code: Option<i32>, stdout: &[u8], stderr: &[u8]) -> ProcessOutput {
    ProcessOutput { success, exit_code, stdout: stdout.to_vec(), stderr: stderr.to_vec() }
}

#[test]
fn command_provider_uses_powershell_core() {
    let secret = SecretReference {
        provider: "command".to_string(),
        reference: "$env:OPENAI_API_KEY".to_string(),
    };

    let (program, args) =
        provider_command(&secret, Platform::Windows).expect("command provider should resolve");

    assert_eq!(program, "pwsh");
    assert_eq!(
        args,
        vec![
            "-NoLogo".to_string(),
            "-NoProfile".to_string(),
            "-NonInteractive".to_string(),
            "-Command".to_string(),
            "$env:OPENAI_API_KEY".to_string(),
        ]
    );
}

#[test]
fn pass_provider_is_rejected_on_windows() {
    let secret = SecretReference {
        provider: "pass".to_string(),
        reference: "ignored".to_string(),
    };

    let error = provider_command(&secret, Platform::Windows)
        .expect_err("pass should be unsupported on Windows");

    assert!(error
        .message()
        .contains("secret provider 'pass' is not supported on Windows"));
}

#[test]
fn command_provider_uses_posix_shell() {
    let secret = SecretReference {
        provider: "command".to_string(),
        reference: "printenv OPENAI_API_KEY".to_string(),
    };

    let (program, args) =
        provider_command(&secret, Platform::Posix).expect("command provider should resolve");

    assert_eq!(program, "sh");
    assert_eq!(
        args,
        vec!["-c".to_string(), "printenv OPENAI_API_KEY".to_string()]
    );
}

#[test]
fn one_password_reads_the_reference() {
    let secret = reference("1password", "op://v/i/f");
    for platform in [Platform::Posix, Platform::Windows] {
        let (program, args) = provider_command(&secret, platform).unwrap();
        assert_eq!(program, "op");
        assert_eq!(args, vec!["read".to_string(), "op://v/i/f".to_string()]);
    }
}

#[test]
fn pass_shows_the_reference_on_posix() {
    let secret = reference("pass", "mail/work");
    let (program, args) = provider_command(&secret, Platform::Posix).unwrap();
    assert_eq!(program, "pass");
    assert_eq!(args, vec!["show".to_string(), "mail/work".to_string()]);
    assert_eq!(pass_command(&secret, Platform::Posix).unwrap(), (program, args));
    assert_eq!(
        pass_command(&secret, Platform::Windows),
        Err(SecretError::UnsupportedPlatform { provider: "pass".to_string() })
    );
}

#[test]
fn unknown_provider_is_refused() {
    let secret = reference("unknown", "x");
    let error = provider_command(&secret, Platform::Posix).unwrap_err();
    assert_eq!(error, SecretError::UnsupportedProvider { provider: "unknown".to_string() });
    assert!(error.message().contains("unsupported secret provider: 'unknown'"));
    assert_eq!(error.message(), "unsupported secret provider: 'unknown'");
}

#[test]
fn provider_names_are_compared_to_the_letter() {
    for name in ["1Password", "PASS", "Command", " pass", "pass ", ""] {
        let error = provider_command(&reference(name, "x"), Platform::Posix).unwrap_err();
        assert_eq!(error, SecretError::UnsupportedProvider { provider: name.to_string() });
    }
}

#[test]
fn shell_command_keeps_the_text_as_it_is() {
    let text = "echo 'a b' | tr a-z A-Z; rm -rf \"$X\"";
    let (program, args) = shell_command(text, Platform::Posix);
    assert_eq!(program, "sh");
    assert_eq!(args, vec!["-c".to_string(), text.to_string()]);
    let (program, args) = shell_command(text, Platform::Windows);
    assert_eq!(program, "pwsh");
    assert_eq!(args.len(), 5);
    assert_eq!(args[4], text);
}

#[test]
fn command_line_puts_spaces_between() {
    assert_eq!(command_line("op", &vec!["read".to_string(), "op://v/i/f".to_string()]), "op read op://v/i/f");
    assert_eq!(command_line("sh", &vec![]), "sh ");
    assert_eq!(command_line("sh", &vec!["-c".to_string()]), "sh -c");
}

#[test]
fn successful_output_is_trimmed() {
    let out = secret_from_outcome("pass", "pass show x", Ok(exited(true, Some(0), b"  sk-123\n", b"")));
    assert_eq!(out, Ok("sk-123".to_string()));
    let out = secret_from_outcome("pass", "pass show x", Ok(exited(true, Some(0), b"\t a b \r\n", b"noise")));
    assert_eq!(out, Ok("a b".to_string()));
    let out = secret_from_outcome("pass", "pass show x", Ok(exited(true, Some(0), b" \n ", b"")));
    assert_eq!(out, Ok(String::new()));
}

#[test]
fn failed_command_carries_code_and_trimmed_stderr() {
    let out = secret_from_outcome("1password", "op read x", Ok(exited(false, Some(1), b"ignored", b"  not signed in\n")));
    let error = out.unwrap_err();
    assert_eq!(
        error,
        SecretError::ProviderExecutionFailed {
            provider: "1password".to_string(),
            exit_code: Some(1),
            stderr: "not signed in".to_string(),
        }
    );
    assert_eq!(
        error.message(),
        "secret provider '1password' failed (exit code Some(1)): not signed in"
    );
}

#[test]
fn failed_command_without_code_and_with_broken_stderr() {
    let out = secret_from_outcome("pass", "pass show x", Ok(exited(false, None, b"", b"bad \xff byte ")));
    let error = out.unwrap_err();
    assert_eq!(
        error,
        SecretError::ProviderExecutionFailed {
            provider: "pass".to_string(),
            exit_code: None,
            stderr: "bad \u{fffd} byte".to_string(),
        }
    );
    assert_eq!(
        error.message(),
        "secret provider 'pass' failed (exit code None): bad \u{fffd} byte"
    );
}

#[test]
fn exit_codes_are_shown_in_decimal() {
    for (code, shown) in [
        (0, "Some(0)"),
        (7, "Some(7)"),
        (10, "Some(10)"),
        (255, "Some(255)"),
        (-1, "Some(-1)"),
        (i32::MAX, "Some(2147483647)"),
        (i32::MIN, "Some(-2147483648)"),
    ] {
        let error = SecretError::ProviderExecutionFailed {
            provider: "p".to_string(),
            exit_code: Some(code),
            stderr: String::new(),
        };
        assert_eq!(error.message(), format!("secret provider 'p' failed (exit code {}): ", shown));
    }
}

#[test]
fn output_that_is_no_utf8_fails() {
    let out = secret_from_outcome("pass", "pass show x", Ok(exited(true, Some(0), b"\xc3\x28", b"")));
    let error = out.unwrap_err();
    assert_eq!(error, SecretError::OutputDecodingFailed);
    assert_eq!(error.message(), "secret provider output is not valid UTF-8");
}

#[test]
fn command_that_did_not_start_fails() {
    let out = secret_from_outcome("pass", "pass show x", Err("No such file or directory".to_string()));
    let error = out.unwrap_err();
    assert_eq!(
        error,
        SecretError::SpawnFailed {
            command_line: "pass show x".to_string(),
            cause: "No such file or directory".to_string(),
        }
    );
    assert_eq!(
        error.message(),
        "failed to execute secret provider command: pass show x: No such file or directory"
    );
}
