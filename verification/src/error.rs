//! The errors of secret resolution, and the messages that they show.

use vstd::prelude::*;
use vstd::string::*;
use crate::secret::{SecretName, SecretReference};
use crate::text::{exit_code_text, join, join_text, push_decimal, push_exit_code, decimal_text, texts_of};

verus! {

/// Why a secret could not be had.
#[allow(inconsistent_fields)]
#[derive(Debug, PartialEq, Eq)]
pub enum SecretError {
    /// No provider has this name.
    UnsupportedProvider { provider: String },
    /// The provider is known, but cannot be used on Windows.
    UnsupportedPlatform { provider: String },
    /// The provider's command could not be started.
    SpawnFailed { command_line: String, cause: String },
    /// The provider's command ended with a failure. Holds the exit code and
    /// the trimmed text of its standard error.
    ProviderExecutionFailed { provider: String, exit_code: Option<i32>, stderr: String },
    /// The provider's command printed bytes that are no UTF-8 text.
    OutputDecodingFailed,
    /// A secret was used before it was resolved. Holds the key of the
    /// environment entry, where there is one.
    UnresolvedSecret { key: Option<String>, secret: SecretReference },
    /// A secret was used whose resolution had failed earlier in the session.
    /// Holds the message of that failure.
    PreviouslyFailed { key: String, secret: SecretReference, message: String },
    /// Some secrets of a batch could not be resolved. Holds one message for
    /// each of them, in the order in which they failed.
    ResolutionFailed { messages: Vec<String> },
}

/// What a `SecretError` is in contracts.
#[allow(inconsistent_fields)]
pub enum Failure {
    UnsupportedProvider { provider: Seq<char> },
    UnsupportedPlatform { provider: Seq<char> },
    SpawnFailed { command_line: Seq<char>, cause: Seq<char> },
    ProviderExecutionFailed { provider: Seq<char>, exit_code: Option<i32>, stderr: Seq<char> },
    OutputDecodingFailed,
    UnresolvedSecret { key: Option<Seq<char>>, secret: SecretName },
    PreviouslyFailed { key: Seq<char>, secret: SecretName, message: Seq<char> },
    ResolutionFailed { messages: Seq<Seq<char>> },
}

/// The provider and the reference of a secret, as messages show them.
pub open spec fn identity_text(secret: SecretName) -> Seq<char> {
    "(provider: "@ + secret.provider + ", reference: "@ + secret.reference + ")"@
}

impl Failure {
    /// The message of the error.
    pub open spec fn text(self) -> Seq<char> {
        match self {
            Failure::UnsupportedProvider { provider } => "unsupported secret provider: '"@
                + provider + "'"@,
            Failure::UnsupportedPlatform { provider } => "secret provider '"@ + provider
                + "' is not supported on Windows"@,
            Failure::SpawnFailed { command_line, cause } =>
                "failed to execute secret provider command: "@ + command_line + ": "@ + cause,
            Failure::ProviderExecutionFailed { provider, exit_code, stderr } =>
                "secret provider '"@ + provider + "' failed (exit code "@ + exit_code_text(
                    exit_code,
                ) + "): "@ + stderr,
            Failure::OutputDecodingFailed => "secret provider output is not valid UTF-8"@,
            Failure::UnresolvedSecret { key: None, secret } => "unresolved secret reference "@
                + identity_text(secret),
            Failure::UnresolvedSecret { key: Some(key), secret } =>
                "secret not pre-resolved for '"@ + key + "' "@ + identity_text(secret),
            Failure::PreviouslyFailed { key, secret, message } =>
                "failed to resolve secret for '"@ + key + "' "@ + identity_text(secret) + ": "@
                    + message,
            Failure::ResolutionFailed { messages } => "failed to resolve "@ + decimal_text(
                messages.len(),
            ) + " secret(s): "@ + join_text(messages, "; "@),
        }
    }
}

/// The message under which the failure to resolve `secret` is kept: the
/// secret's provider and reference, then the message of the cause.
pub open spec fn failure_text(secret: SecretName, cause: Seq<char>) -> Seq<char> {
    "failed to resolve secret "@ + identity_text(secret) + ": "@ + cause
}

impl View for SecretError {
    type V = Failure;

    open spec fn view(&self) -> Failure {
        match self {
            SecretError::UnsupportedProvider { provider } => Failure::UnsupportedProvider {
                provider: provider@,
            },
            SecretError::UnsupportedPlatform { provider } => Failure::UnsupportedPlatform {
                provider: provider@,
            },
            SecretError::SpawnFailed { command_line, cause } => Failure::SpawnFailed {
                command_line: command_line@,
                cause: cause@,
            },
            SecretError::ProviderExecutionFailed {
                provider,
                exit_code,
                stderr,
            } => Failure::ProviderExecutionFailed {
                provider: provider@,
                exit_code: *exit_code,
                stderr: stderr@,
            },
            SecretError::OutputDecodingFailed => Failure::OutputDecodingFailed,
            SecretError::UnresolvedSecret { key, secret } => Failure::UnresolvedSecret {
                key: match key {
                    Some(k) => Some(k@),
                    None => None,
                },
                secret: secret@,
            },
            SecretError::PreviouslyFailed { key, secret, message } => Failure::PreviouslyFailed {
                key: key@,
                secret: secret@,
                message: message@,
            },
            SecretError::ResolutionFailed { messages } => Failure::ResolutionFailed {
                messages: texts_of(messages@),
            },
        }
    }
}

/// Appends the provider and the reference of a secret, as messages show them.
pub fn push_identity(out: &mut String, secret: &SecretReference)
    ensures
        final(out)@ == old(out)@ + identity_text(secret@),
{
    out.append("(provider: ");
    out.append(secret.provider.as_str());
    out.append(", reference: ");
    out.append(secret.reference.as_str());
    out.append(")");
    proof {
        assert(final(out)@ =~= old(out)@ + identity_text(secret@));
    }
}

/// The message under which the failure to resolve `secret` is kept.
pub fn failure_message(secret: &SecretReference, cause: &str) -> (out: String)
    ensures
        out@ == failure_text(secret@, cause@),
{
    let mut out = String::from_str("failed to resolve secret ");
    push_identity(&mut out, secret);
    out.append(": ");
    out.append(cause);
    out
}

impl SecretError {
    /// The message of the error.
    pub fn message(&self) -> (out: String)
        ensures
            out@ == self@.text(),
    {
        match self {
            SecretError::UnsupportedProvider { provider } => {
                let mut out = String::from_str("unsupported secret provider: '");
                out.append(provider.as_str());
                out.append("'");
                out
            },
            SecretError::UnsupportedPlatform { provider } => {
                let mut out = String::from_str("secret provider '");
                out.append(provider.as_str());
                out.append("' is not supported on Windows");
                out
            },
            SecretError::SpawnFailed { command_line, cause } => {
                let mut out = String::from_str("failed to execute secret provider command: ");
                out.append(command_line.as_str());
                out.append(": ");
                out.append(cause.as_str());
                out
            },
            SecretError::ProviderExecutionFailed { provider, exit_code, stderr } => {
                let mut out = String::from_str("secret provider '");
                out.append(provider.as_str());
                out.append("' failed (exit code ");
                push_exit_code(&mut out, *exit_code);
                out.append("): ");
                out.append(stderr.as_str());
                out
            },
            SecretError::OutputDecodingFailed => String::from_str(
                "secret provider output is not valid UTF-8",
            ),
            SecretError::UnresolvedSecret { key: None, secret } => {
                let mut out = String::from_str("unresolved secret reference ");
                push_identity(&mut out, secret);
                out
            },
            SecretError::UnresolvedSecret { key: Some(key), secret } => {
                let mut out = String::from_str("secret not pre-resolved for '");
                out.append(key.as_str());
                out.append("' ");
                push_identity(&mut out, secret);
                out
            },
            SecretError::PreviouslyFailed { key, secret, message } => {
                let mut out = String::from_str("failed to resolve secret for '");
                out.append(key.as_str());
                out.append("' ");
                push_identity(&mut out, secret);
                out.append(": ");
                out.append(message.as_str());
                out
            },
            SecretError::ResolutionFailed { messages } => {
                let mut out = String::from_str("failed to resolve ");
                push_decimal(&mut out, messages.len() as u64);
                out.append(" secret(s): ");
                let joined = join(messages, "; ");
                out.append(joined.as_str());
                out
            },
        }
    }
}

} // verus!
