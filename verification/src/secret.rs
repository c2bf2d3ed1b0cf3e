//! References to secrets, and the values of an environment.

use vstd::prelude::*;
use vstd::string::*;
use crate::error::{Failure, SecretError};

verus! {

/// Names one secret in an outside store: the provider that holds it and the
/// provider's own reference to it.
#[derive(Debug, PartialEq, Eq, Hash)]
pub struct SecretReference {
    /// The provider: `1password`, `pass` or `command`.
    pub provider: String,
    /// What the provider is asked for, such as `op://vault/item/field`.
    pub reference: String,
}

/// What a `SecretReference` is in contracts: its two texts.
pub struct SecretName {
    pub provider: Seq<char>,
    pub reference: Seq<char>,
}

impl View for SecretReference {
    type V = SecretName;

    open spec fn view(&self) -> SecretName {
        SecretName { provider: self.provider@, reference: self.reference@ }
    }
}

impl Clone for SecretReference {
    fn clone(&self) -> (out: Self)
        ensures
            out@ == self@,
    {
        SecretReference { provider: self.provider.clone(), reference: self.reference.clone() }
    }
}

impl SecretReference {
    /// Whether two references name the same secret: the same provider and the
    /// same reference, character by character.
    pub fn same_as(&self, other: &SecretReference) -> (same: bool)
        ensures
            same == (self@ == other@),
    {
        self.provider == other.provider && self.reference == other.reference
    }
}

/// One value of an environment: plain text, or a reference to a secret that
/// has yet to be resolved.
#[derive(Debug, PartialEq, Eq)]
pub enum EnvValue {
    /// A reference to a secret, to be resolved before the value is used.
    Secret { secret: SecretReference },
    /// Plain text.
    Plain(String),
}

/// What an `EnvValue` is in contracts.
pub enum EnvText {
    Secret(SecretName),
    Plain(Seq<char>),
}

impl View for EnvValue {
    type V = EnvText;

    open spec fn view(&self) -> EnvText {
        match self {
            EnvValue::Secret { secret } => EnvText::Secret(secret@),
            EnvValue::Plain(value) => EnvText::Plain(value@),
        }
    }
}

impl Clone for EnvValue {
    fn clone(&self) -> (out: Self)
        ensures
            out@ == self@,
    {
        match self {
            EnvValue::Secret { secret } => EnvValue::Secret { secret: secret.clone() },
            EnvValue::Plain(value) => EnvValue::Plain(value.clone()),
        }
    }
}

impl EnvValue {
    /// The text of a plain value, and nothing for a secret.
    pub fn as_plain(&self) -> (out: Option<&str>)
        ensures
            match self@ {
                EnvText::Plain(text) => out matches Some(s) && s@ == text,
                EnvText::Secret(_) => out is None,
            },
    {
        match self {
            EnvValue::Plain(value) => Some(value.as_str()),
            EnvValue::Secret { .. } => None,
        }
    }

    /// The reference of a secret, and nothing for a plain value.
    pub fn as_secret(&self) -> (out: Option<&SecretReference>)
        ensures
            match self@ {
                EnvText::Secret(name) => out matches Some(secret) && secret@ == name,
                EnvText::Plain(_) => out is None,
            },
    {
        match self {
            EnvValue::Secret { secret } => Some(secret),
            EnvValue::Plain(_) => None,
        }
    }

    /// The text of a plain value. A secret is never turned into text: it gives
    /// the error `UnresolvedSecret`, which names the reference.
    pub fn into_plain_string(self) -> (out: Result<String, SecretError>)
        ensures
            match self@ {
                EnvText::Plain(text) => out matches Ok(s) && s@ == text,
                EnvText::Secret(name) => out matches Err(e) && e@ == (Failure::UnresolvedSecret {
                    key: None,
                    secret: name,
                }),
            },
    {
        match self {
            EnvValue::Plain(value) => Ok(value),
            EnvValue::Secret { secret } => Err(SecretError::UnresolvedSecret { key: None, secret }),
        }
    }
}

/// What an entry of an environment is in contracts: its key and its value.
pub open spec fn entry_text(entry: (String, EnvValue)) -> (Seq<char>, EnvText) {
    (entry.0@, entry.1@)
}

/// What an environment is in contracts: its entries in order.
pub open spec fn env_text(env: Seq<(String, EnvValue)>) -> Seq<(Seq<char>, EnvText)> {
    env.map_values(|entry: (String, EnvValue)| entry_text(entry))
}

} // verus!
