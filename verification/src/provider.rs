//! The commands that fetch secrets, and what their outcome means.

use vstd::prelude::*;
use vstd::string::*;
use vstd::utf8::*;
use crate::error::{Failure, SecretError};
use crate::secret::{SecretName, SecretReference};
use crate::text::{
    decode, decode_lossy, is_word, join, join_text, lossy_text, texts_of, trim, trim_text,
};

verus! {

/// The kind of system on which the commands run.
#[derive(Debug, Clone, Copy, PartialEq, Eq)]
pub enum Platform {
    /// A system with a POSIX shell.
    Posix,
    /// Windows, with PowerShell.
    Windows,
}

/// How a provider's command ended: whether it succeeded, its exit code where it
/// has one, and the bytes that it wrote.
#[derive(Debug)]
pub struct ProcessOutput {
    pub success: bool,
    pub exit_code: Option<i32>,
    pub stdout: Vec<u8>,
    pub stderr: Vec<u8>,
}

/// The arguments with which a shell runs `command` as it stands. The text is
/// handed to the shell unchanged: whoever wrote the configuration is trusted
/// with it.
pub open spec fn shell_command_for(command: Seq<char>, platform: Platform) -> (
    Seq<char>,
    Seq<Seq<char>>,
) {
    match platform {
        Platform::Posix => ("sh"@, seq!["-c"@, command]),
        Platform::Windows => (
            "pwsh"@,
            seq!["-NoLogo"@, "-NoProfile"@, "-NonInteractive"@, "-Command"@, command],
        ),
    }
}

/// The command of the provider `pass`, which Windows does not have.
pub open spec fn pass_command_for(secret: SecretName, platform: Platform) -> Result<
    (Seq<char>, Seq<Seq<char>>),
    Failure,
> {
    match platform {
        Platform::Posix => Ok(("pass"@, seq!["show"@, secret.reference])),
        Platform::Windows => Err(Failure::UnsupportedPlatform { provider: secret.provider }),
    }
}

/// The program and the arguments that fetch `secret`: the provider's name
/// decides, compared to the letter, and any other name is refused.
pub open spec fn command_for(secret: SecretName, platform: Platform) -> Result<
    (Seq<char>, Seq<Seq<char>>),
    Failure,
> {
    if secret.provider == "1password"@ {
        Ok(("op"@, seq!["read"@, secret.reference]))
    } else if secret.provider == "pass"@ {
        pass_command_for(secret, platform)
    } else if secret.provider == "command"@ {
        Ok(shell_command_for(secret.reference, platform))
    } else {
        Err(Failure::UnsupportedProvider { provider: secret.provider })
    }
}

/// A command as one line: the program, then each argument after a space.
pub open spec fn command_line_text(program: Seq<char>, arguments: Seq<Seq<char>>) -> Seq<char> {
    program + " "@ + join_text(arguments, " "@)
}

/// What the outcome of a provider's command gives for a secret of `provider`:
/// the trimmed text of its output where it succeeded and wrote UTF-8, else the
/// error that says why not. `Err` as outcome holds why the command did not
/// start.
pub open spec fn outcome_value(
    provider: Seq<char>,
    command_line: Seq<char>,
    outcome: Result<ProcessOutput, String>,
) -> Result<Seq<char>, Failure> {
    match outcome {
        Err(cause) => Err(Failure::SpawnFailed { command_line, cause: cause@ }),
        Ok(output) => if !output.success {
            Err(
                Failure::ProviderExecutionFailed {
                    provider,
                    exit_code: output.exit_code,
                    stderr: trim_text(lossy_text(output.stderr@)),
                },
            )
        } else if !valid_utf8(output.stdout@) {
            Err(Failure::OutputDecodingFailed)
        } else {
            Ok(trim_text(decode_utf8(output.stdout@)))
        },
    }
}

/// What a result over strings is in contracts.
pub open spec fn result_text(result: Result<String, SecretError>) -> Result<Seq<char>, Failure> {
    match result {
        Ok(value) => Ok(value@),
        Err(error) => Err(error@),
    }
}

/// What a command is in contracts.
pub open spec fn command_text(command: Result<(&'static str, Vec<String>), SecretError>) -> Result<
    (Seq<char>, Seq<Seq<char>>),
    Failure,
> {
    match command {
        Ok((program, arguments)) => Ok((program@, texts_of(arguments@))),
        Err(error) => Err(error@),
    }
}

/// The shell and its arguments for a command line.
pub fn shell_command(command: &str, platform: Platform) -> (out: (&'static str, Vec<String>))
    ensures
        (out.0@, texts_of(out.1@)) == shell_command_for(command@, platform),
{
    match platform {
        Platform::Posix => {
            let arguments = vec![String::from_str("-c"), String::from_str(command)];
            proof {
                assert(texts_of(arguments@) =~= seq!["-c"@, command@]);
            }
            ("sh", arguments)
        },
        Platform::Windows => {
            let arguments = vec![
                String::from_str("-NoLogo"),
                String::from_str("-NoProfile"),
                String::from_str("-NonInteractive"),
                String::from_str("-Command"),
                String::from_str(command),
            ];
            proof {
                assert(texts_of(arguments@) =~= seq![
                    "-NoLogo"@,
                    "-NoProfile"@,
                    "-NonInteractive"@,
                    "-Command"@,
                    command@,
                ]);
            }
            ("pwsh", arguments)
        },
    }
}

/// The command of the provider `pass`.
pub fn pass_command(secret: &SecretReference, platform: Platform) -> (out: Result<
    (&'static str, Vec<String>),
    SecretError,
>)
    ensures
        command_text(out) == pass_command_for(secret@, platform),
{
    match platform {
        Platform::Posix => {
            let arguments = vec![String::from_str("show"), secret.reference.clone()];
            proof {
                assert(texts_of(arguments@) =~= seq!["show"@, secret.reference@]);
            }
            Ok(("pass", arguments))
        },
        Platform::Windows => Err(
            SecretError::UnsupportedPlatform { provider: secret.provider.clone() },
        ),
    }
}

/// The program and the arguments that fetch `secret` on `platform`.
pub fn provider_command(secret: &SecretReference, platform: Platform) -> (out: Result<
    (&'static str, Vec<String>),
    SecretError,
>)
    ensures
        command_text(out) == command_for(secret@, platform),
{
    if is_word(&secret.provider, "1password") {
        let arguments = vec![String::from_str("read"), secret.reference.clone()];
        proof {
            assert(texts_of(arguments@) =~= seq!["read"@, secret.reference@]);
        }
        Ok(("op", arguments))
    } else if is_word(&secret.provider, "pass") {
        pass_command(secret, platform)
    } else if is_word(&secret.provider, "command") {
        Ok(shell_command(secret.reference.as_str(), platform))
    } else {
        Err(SecretError::UnsupportedProvider { provider: secret.provider.clone() })
    }
}

/// A command as one line, as messages show it.
pub fn command_line(program: &str, arguments: &Vec<String>) -> (out: String)
    ensures
        out@ == command_line_text(program@, texts_of(arguments@)),
{
    let mut out = String::from_str(program);
    out.append(" ");
    let joined = join(arguments, " ");
    out.append(joined.as_str());
    out
}

/// The error for a command that ended with a failure, from the text of its
/// standard error, which is kept as it is given.
pub fn execution_failed(provider: &str, exit_code: Option<i32>, stderr: String) -> (out:
    SecretError)
    ensures
        out@ == (Failure::ProviderExecutionFailed { provider: provider@, exit_code, stderr: stderr@ }),
{
    SecretError::ProviderExecutionFailed { provider: String::from_str(provider), exit_code, stderr }
}

/// What the outcome of a provider's command gives for a secret of `provider`.
pub fn secret_from_outcome(
    provider: &str,
    command_line: &str,
    outcome: Result<ProcessOutput, String>,
) -> (out: Result<String, SecretError>)
    ensures
        result_text(out) == outcome_value(provider@, command_line@, outcome),
{
    match outcome {
        Err(cause) => Err(
            SecretError::SpawnFailed { command_line: String::from_str(command_line), cause },
        ),
        Ok(output) => {
            if !output.success {
                let shown = decode_lossy(&output.stderr);
                Err(execution_failed(provider, output.exit_code, trim(shown.as_str())))
            } else {
                match decode(output.stdout) {
                    Some(text) => Ok(trim(text.as_str())),
                    None => Err(SecretError::OutputDecodingFailed),
                }
            }
        },
    }
}

} // verus!
