//! The resolver: what a session has learned of its secrets, the batch that
//! resolves references one after the other, and the rewriting of an
//! environment from what is known.

use vstd::prelude::*;
use vstd::string::*;
use crate::error::{failure_message, failure_text, Failure, SecretError};
use crate::provider::{
    command_for, command_line, command_line_text, outcome_value, provider_command,
    result_text, secret_from_outcome, Platform, ProcessOutput,
};
use crate::secret::{entry_text, env_text, EnvText, EnvValue, SecretName, SecretReference};
use crate::text::texts_of;

verus! {

/// What a resolver knows, in contracts: the text of each secret that was
/// resolved, and the message of each failure.
pub struct Caches {
    pub resolved: Map<SecretName, Seq<char>>,
    pub failed: Map<SecretName, Seq<char>>,
}

impl Caches {
    /// Whether the secret was resolved or has failed: it is then not tried again.
    pub open spec fn settled(self, secret: SecretName) -> bool {
        self.resolved.contains_key(secret) || self.failed.contains_key(secret)
    }

    /// Whether `later` knows all that `self` knows of resolved and failed
    /// secrets, with possibly newer texts.
    pub open spec fn grown_to(self, later: Caches) -> bool {
        &&& self.resolved.dom().subset_of(later.resolved.dom())
        &&& self.failed.dom().subset_of(later.failed.dom())
    }
}

/// What a batch is in contracts: the references in their order, the platform,
/// how many of them are done with, and the messages of those that failed in
/// this batch.
pub struct BatchState {
    pub secrets: Seq<SecretName>,
    pub platform: Platform,
    pub position: nat,
    pub errors: Seq<Seq<char>>,
}

/// What is to be done next for a batch, in contracts.
pub enum Step {
    /// Run this command, and record its outcome.
    Run { program: Seq<char>, arguments: Seq<Seq<char>> },
    /// Nothing is left to do: the batch has this result.
    Finished(Result<(), Failure>),
}

/// The references of a vector, in contracts.
pub open spec fn names_of(secrets: Seq<SecretReference>) -> Seq<SecretName> {
    secrets.map_values(|secret: SecretReference| secret@)
}

/// A batch of which nothing is done yet.
pub open spec fn fresh_batch(secrets: Seq<SecretName>, platform: Platform) -> BatchState {
    BatchState { secrets, platform, position: 0, errors: Seq::empty() }
}

/// The result of a batch whose failures are `errors`: success where there is
/// none, else one error that holds them all in their order.
pub open spec fn batch_result(errors: Seq<Seq<char>>) -> Result<(), Failure> {
    if errors.len() == 0 {
        Ok(())
    } else {
        Err(Failure::ResolutionFailed { messages: errors })
    }
}

/// The batch's current reference gets `result`: a text goes to the resolved
/// secrets; an error goes, as a message that names the secret, to the failed
/// ones and to the batch's errors. The batch moves on to its next reference.
/// A batch with no reference left stays as it is.
pub open spec fn settle_model(caches: Caches, batch: BatchState, result: Result<Seq<char>, Failure>) -> (
    Caches,
    BatchState,
) {
    if batch.position >= batch.secrets.len() {
        (caches, batch)
    } else {
        let secret = batch.secrets[batch.position as int];
        match result {
            Ok(text) => (
                Caches { resolved: caches.resolved.insert(secret, text), ..caches },
                BatchState { position: batch.position + 1, ..batch },
            ),
            Err(failure) => {
                let message = failure_text(secret, failure.text());
                (
                    Caches { failed: caches.failed.insert(secret, message), ..caches },
                    BatchState {
                        position: batch.position + 1,
                        errors: batch.errors.push(message),
                        ..batch
                    },
                )
            },
        }
    }
}

/// The outcome of the command that was run for the batch's current reference
/// is recorded: what it gives for the secret is settled.
pub open spec fn record_model(
    caches: Caches,
    batch: BatchState,
    outcome: Result<ProcessOutput, String>,
) -> (Caches, BatchState) {
    if batch.position >= batch.secrets.len() {
        (caches, batch)
    } else {
        let secret = batch.secrets[batch.position as int];
        match command_for(secret, batch.platform) {
            Ok((program, arguments)) => settle_model(
                caches,
                batch,
                outcome_value(secret.provider, command_line_text(program, arguments), outcome),
            ),
            Err(failure) => settle_model(caches, batch, Err(failure)),
        }
    }
}

/// The batch goes on to the first reference that needs a command. References
/// that are settled are passed over. One for which there is no command fails
/// at once, and the batch goes on. With no reference left the batch is
/// finished.
pub open spec fn advance_model(caches: Caches, batch: BatchState) -> (Caches, BatchState, Step)
    decreases batch.secrets.len() - batch.position,
{
    if batch.position >= batch.secrets.len() {
        (caches, batch, Step::Finished(batch_result(batch.errors)))
    } else {
        let secret = batch.secrets[batch.position as int];
        if caches.settled(secret) {
            advance_model(caches, BatchState { position: batch.position + 1, ..batch })
        } else {
            match command_for(secret, batch.platform) {
                Ok((program, arguments)) => (caches, batch, Step::Run { program, arguments }),
                Err(failure) => {
                    let next = settle_model(caches, batch, Err(failure));
                    advance_model(next.0, next.1)
                },
            }
        }
    }
}

/// Whether every reference that the batch is done with is settled.
pub open spec fn done_are_settled(caches: Caches, batch: BatchState) -> bool {
    forall|i: int| 0 <= i < batch.position && i < batch.secrets.len() ==> caches.settled(#[trigger] batch.secrets[i])
}

/// The entry as rewriting leaves it: plain text stays; a resolved secret
/// becomes its text; a failed secret gives `PreviouslyFailed` with the message
/// that was kept; a secret that is not known gives `UnresolvedSecret`. Both
/// errors name the entry's key.
pub open spec fn rewrite_entry(caches: Caches, entry: (Seq<char>, EnvText)) -> Result<
    (Seq<char>, EnvText),
    Failure,
> {
    match entry.1 {
        EnvText::Plain(text) => Ok(entry),
        EnvText::Secret(secret) => if caches.resolved.contains_key(secret) {
            Ok((entry.0, EnvText::Plain(caches.resolved[secret])))
        } else if caches.failed.contains_key(secret) {
            Err(
                Failure::PreviouslyFailed {
                    key: entry.0,
                    secret,
                    message: caches.failed[secret],
                },
            )
        } else {
            Err(Failure::UnresolvedSecret { key: Some(entry.0), secret })
        },
    }
}

/// The environment with each entry rewritten, or the error of the first entry,
/// in the environment's order, that cannot be rewritten.
pub open spec fn rewrite_model(caches: Caches, env: Seq<(Seq<char>, EnvText)>) -> Result<
    Seq<(Seq<char>, EnvText)>,
    Failure,
>
    decreases env.len(),
{
    if env.len() == 0 {
        Ok(Seq::empty())
    } else {
        match rewrite_model(caches, env.drop_last()) {
            Err(failure) => Err(failure),
            Ok(entries) => match rewrite_entry(caches, env.last()) {
                Err(failure) => Err(failure),
                Ok(entry) => Ok(entries.push(entry)),
            },
        }
    }
}

/// The references of the environment's secrets, each once, in the order in
/// which they first occur.
pub open spec fn distinct_secrets(env: Seq<(Seq<char>, EnvText)>) -> Seq<SecretName>
    decreases env.len(),
{
    if env.len() == 0 {
        Seq::empty()
    } else {
        let before = distinct_secrets(env.drop_last());
        match env.last().1 {
            EnvText::Secret(secret) => if before.contains(secret) {
                before
            } else {
                before.push(secret)
            },
            EnvText::Plain(_) => before,
        }
    }
}

/// What is to be done next for a batch.
#[derive(Debug, PartialEq, Eq)]
pub enum Action {
    /// Run this command, and hand its outcome to `record`.
    Run { program: &'static str, arguments: Vec<String> },
    /// Nothing is left to do: the batch has this result.
    Finished(Result<(), SecretError>),
}

/// What the result of a batch is in contracts.
pub open spec fn finish_text(result: Result<(), SecretError>) -> Result<(), Failure> {
    match result {
        Ok(()) => Ok(()),
        Err(error) => Err(error@),
    }
}

impl View for Action {
    type V = Step;

    open spec fn view(&self) -> Step {
        match self {
            Action::Run { program, arguments } => Step::Run {
                program: program@,
                arguments: texts_of(arguments@),
            },
            Action::Finished(result) => Step::Finished(finish_text(*result)),
        }
    }
}

/// The progress of one pass over a list of references.
pub struct Batch {
    secrets: Vec<SecretReference>,
    platform: Platform,
    position: usize,
    errors: Vec<String>,
}

impl View for Batch {
    type V = BatchState;

    closed spec fn view(&self) -> BatchState {
        BatchState {
            secrets: names_of(self.secrets@),
            platform: self.platform,
            position: self.position as nat,
            errors: texts_of(self.errors@),
        }
    }
}

struct CacheEntry {
    secret: SecretReference,
    text: String,
}

/// The map that a list of entries stands for: a later entry for a secret
/// replaces an earlier one.
spec fn entries_map(entries: Seq<CacheEntry>) -> Map<SecretName, Seq<char>>
    decreases entries.len(),
{
    if entries.len() == 0 {
        Map::empty()
    } else {
        entries_map(entries.drop_last()).insert(entries.last().secret@, entries.last().text@)
    }
}

proof fn lemma_entries_map_latest(entries: Seq<CacheEntry>, i: int, secret: SecretName)
    requires
        0 <= i < entries.len(),
        entries[i].secret@ == secret,
        forall|j: int| i < j < entries.len() ==> entries[j].secret@ != secret,
    ensures
        entries_map(entries).contains_key(secret),
        entries_map(entries)[secret] == entries[i].text@,
    decreases entries.len(),
{
    if i < entries.len() - 1 {
        lemma_entries_map_latest(entries.drop_last(), i, secret);
    }
}

proof fn lemma_entries_map_absent(entries: Seq<CacheEntry>, secret: SecretName)
    requires
        forall|j: int| 0 <= j < entries.len() ==> entries[j].secret@ != secret,
    ensures
        !entries_map(entries).contains_key(secret),
    decreases entries.len(),
{
    if entries.len() > 0 {
        lemma_entries_map_absent(entries.drop_last(), secret);
    }
}

proof fn lemma_entries_map_replace(entries: Seq<CacheEntry>, i: int, entry: CacheEntry)
    requires
        0 <= i < entries.len(),
        entries[i].secret@ == entry.secret@,
        forall|j: int| i < j < entries.len() ==> entries[j].secret@ != entry.secret@,
    ensures
        entries_map(entries.update(i, entry)) == entries_map(entries).insert(
            entry.secret@,
            entry.text@,
        ),
    decreases entries.len(),
{
    let front = entries.drop_last();
    if i < entries.len() - 1 {
        lemma_entries_map_replace(front, i, entry);
        assert(entries.update(i, entry).drop_last() =~= front.update(i, entry));
        assert(entries_map(front).insert(entry.secret@, entry.text@).insert(
            entries.last().secret@,
            entries.last().text@,
        ) =~= entries_map(entries).insert(entry.secret@, entry.text@));
    } else {
        assert(entries.update(i, entry).drop_last() =~= front);
        assert(entries_map(front).insert(entry.secret@, entry.text@) =~= entries_map(
            entries,
        ).insert(entry.secret@, entry.text@));
    }
}

/// The index of the last entry for `secret`.
fn find(entries: &Vec<CacheEntry>, secret: &SecretReference) -> (out: Option<usize>)
    ensures
        match out {
            Some(i) => {
                &&& i < entries.len()
                &&& entries@[i as int].secret@ == secret@
                &&& forall|j: int| i < j < entries.len() ==> entries@[j].secret@ != secret@
                &&& entries_map(entries@).contains_key(secret@)
                &&& entries_map(entries@)[secret@] == entries@[i as int].text@
            },
            None => !entries_map(entries@).contains_key(secret@),
        },
{
    let mut i: usize = entries.len();
    while i > 0
        invariant
            i <= entries.len(),
            forall|j: int| i <= j < entries.len() ==> entries@[j].secret@ != secret@,
        decreases i,
    {
        i -= 1;
        if entries[i].secret.same_as(secret) {
            proof {
                lemma_entries_map_latest(entries@, i as int, secret@);
            }
            return Some(i);
        }
    }
    proof {
        lemma_entries_map_absent(entries@, secret@);
    }
    None
}

fn lookup<'a>(entries: &'a Vec<CacheEntry>, secret: &SecretReference) -> (out: Option<&'a String>)
    ensures
        match out {
            Some(text) => entries_map(entries@).contains_key(secret@) && entries_map(
                entries@,
            )[secret@] == text@,
            None => !entries_map(entries@).contains_key(secret@),
        },
{
    match find(entries, secret) {
        Some(i) => Some(&entries[i].text),
        None => None,
    }
}

/// Puts `text` in the place of what the entries held for `secret`, or adds
/// an entry where they held nothing: no secret has two entries.
fn insert(entries: &mut Vec<CacheEntry>, secret: SecretReference, text: String)
    ensures
        entries_map(final(entries)@) == entries_map(old(entries)@).insert(secret@, text@),
{
    let ghost before = entries@;
    let entry = CacheEntry { secret, text };
    match find(entries, &entry.secret) {
        Some(i) => {
            proof {
                lemma_entries_map_replace(before, i as int, entry);
            }
            entries.set(i, entry);
        },
        None => {
            entries.push(entry);
            proof {
                assert(entries@.drop_last() =~= before);
            }
        },
    }
}

fn clone_texts(texts: &Vec<String>) -> (out: Vec<String>)
    ensures
        texts_of(out@) == texts_of(texts@),
{
    let mut out: Vec<String> = Vec::new();
    let mut i: usize = 0;
    while i < texts.len()
        invariant
            i <= texts.len(),
            texts_of(out@) == texts_of(texts@).take(i as int),
        decreases texts.len() - i,
    {
        let ghost before = texts_of(out@);
        out.push(texts[i].clone());
        proof {
            assert(texts_of(out@) =~= before.push(texts@[i as int]@));
            assert(texts_of(texts@).take(i + 1) =~= before.push(texts@[i as int]@));
        }
        i += 1;
    }
    proof {
        assert(texts_of(texts@).take(i as int) =~= texts_of(texts@));
    }
    out
}

fn holds(secrets: &Vec<SecretReference>, secret: &SecretReference) -> (found: bool)
    ensures
        found == names_of(secrets@).contains(secret@),
{
    let mut i: usize = 0;
    while i < secrets.len()
        invariant
            i <= secrets.len(),
            forall|j: int| 0 <= j < i ==> names_of(secrets@)[j] != secret@,
        decreases secrets.len() - i,
    {
        if secrets[i].same_as(secret) {
            proof {
                assert(names_of(secrets@)[i as int] == secret@);
            }
            return true;
        }
        i += 1;
    }
    false
}

impl Batch {
    /// The number of references that the batch is done with.
    pub fn position(&self) -> (out: usize)
        ensures
            out == self@.position,
    {
        self.position
    }

    /// The number of references in the batch.
    pub fn len(&self) -> (out: usize)
        ensures
            out == self@.secrets.len(),
    {
        self.secrets.len()
    }

    /// The result that the batch has so far: success, or the failures of this
    /// batch in their order.
    pub fn result(&self) -> (out: Result<(), SecretError>)
        ensures
            finish_text(out) == batch_result(self@.errors),
    {
        if self.errors.len() == 0 {
            Ok(())
        } else {
            Err(SecretError::ResolutionFailed { messages: clone_texts(&self.errors) })
        }
    }
}

/// What a session has learned of its secrets. Entries are only ever added:
/// nothing is forgotten before the session ends.
pub struct SecretResolver {
    cache: Vec<CacheEntry>,
    failures: Vec<CacheEntry>,
}

impl View for SecretResolver {
    type V = Caches;

    closed spec fn view(&self) -> Caches {
        Caches { resolved: entries_map(self.cache@), failed: entries_map(self.failures@) }
    }
}

impl SecretResolver {
    /// A resolver that knows nothing yet.
    pub fn new() -> (out: Self)
        ensures
            out@.resolved == Map::<SecretName, Seq<char>>::empty(),
            out@.failed == Map::<SecretName, Seq<char>>::empty(),
    {
        SecretResolver { cache: Vec::new(), failures: Vec::new() }
    }

    /// The text of a secret that was resolved.
    pub fn resolved_value(&self, secret: &SecretReference) -> (out: Option<&str>)
        ensures
            match out {
                Some(text) => self@.resolved.contains_key(secret@) && self@.resolved[secret@]
                    == text@,
                None => !self@.resolved.contains_key(secret@),
            },
    {
        match lookup(&self.cache, secret) {
            Some(text) => Some(text.as_str()),
            None => None,
        }
    }

    /// The message that was kept for a secret whose resolution failed.
    pub fn failure_of(&self, secret: &SecretReference) -> (out: Option<&str>)
        ensures
            match out {
                Some(text) => self@.failed.contains_key(secret@) && self@.failed[secret@] == text@,
                None => !self@.failed.contains_key(secret@),
            },
    {
        match lookup(&self.failures, secret) {
            Some(text) => Some(text.as_str()),
            None => None,
        }
    }

    /// Whether the secret was resolved or has failed.
    pub fn is_settled(&self, secret: &SecretReference) -> (out: bool)
        ensures
            out == self@.settled(secret@),
    {
        lookup(&self.cache, secret).is_some() || lookup(&self.failures, secret).is_some()
    }

    /// The references of the environment's secrets, each once, in the order in
    /// which they first occur.
    pub fn collect_secrets(env: &Vec<(String, EnvValue)>) -> (out: Vec<SecretReference>)
        ensures
            names_of(out@) == distinct_secrets(env_text(env@)),
    {
        let mut out: Vec<SecretReference> = Vec::new();
        let mut i: usize = 0;
        proof {
            assert(env_text(env@).take(0) =~= Seq::<(Seq<char>, EnvText)>::empty());
            assert(names_of(out@) =~= Seq::<SecretName>::empty());
        }
        while i < env.len()
            invariant
                i <= env.len(),
                names_of(out@) == distinct_secrets(env_text(env@).take(i as int)),
            decreases env.len() - i,
        {
            proof {
                let all = env_text(env@);
                assert(all.take(i + 1).drop_last() =~= all.take(i as int));
                assert(all.take(i + 1).last() == entry_text(env@[i as int]));
            }
            match &env[i].1 {
                EnvValue::Secret { secret } => {
                    if !holds(&out, secret) {
                        let ghost before = names_of(out@);
                        out.push(secret.clone());
                        proof {
                            assert(names_of(out@) =~= before.push(secret@));
                        }
                    }
                },
                EnvValue::Plain(_) => {},
            }
            i += 1;
        }
        proof {
            assert(env_text(env@).take(i as int) =~= env_text(env@));
        }
        out
    }

    /// Begins a pass over `secrets`, in their order, with commands for
    /// `platform`. The pass is driven by `advance` and `record` in turn, one
    /// command at a time.
    pub fn pre_resolve(&self, secrets: Vec<SecretReference>, platform: Platform) -> (out: Batch)
        ensures
            out@ == fresh_batch(names_of(secrets@), platform),
    {
        let out = Batch { secrets, platform, position: 0, errors: Vec::new() };
        proof {
            assert(texts_of(out.errors@) =~= Seq::<Seq<char>>::empty());
        }
        out
    }

    /// Gives the batch's current reference its result, and moves the batch on.
    pub fn settle(&mut self, batch: &mut Batch, result: Result<String, SecretError>)
        ensures
            (final(self)@, final(batch)@) == settle_model(
                old(self)@,
                old(batch)@,
                result_text(result),
            ),
    {
        if batch.position >= batch.secrets.len() {
            return ;
        }
        let secret = batch.secrets[batch.position].clone();
        proof {
            assert(names_of(batch.secrets@)[batch.position as int] == secret@);
        }
        match result {
            Ok(text) => {
                insert(&mut self.cache, secret, text);
            },
            Err(error) => {
                let cause = error.message();
                let message = failure_message(&secret, cause.as_str());
                let ghost before = texts_of(batch.errors@);
                batch.errors.push(message.clone());
                insert(&mut self.failures, secret, message);
                proof {
                    assert(texts_of(batch.errors@) =~= before.push(message@));
                }
            },
        }
        batch.position = batch.position + 1;
    }

    /// Records the outcome of the command that `advance` asked for: its
    /// trimmed output is kept for the batch's current reference, or the
    /// message of its failure. `Err` as outcome says why the command did not
    /// start.
    pub fn record(&mut self, batch: &mut Batch, outcome: Result<ProcessOutput, String>)
        ensures
            (final(self)@, final(batch)@) == record_model(old(self)@, old(batch)@, outcome),
    {
        if batch.position >= batch.secrets.len() {
            return ;
        }
        proof {
            assert(names_of(batch.secrets@)[batch.position as int]
                == batch.secrets@[batch.position as int]@);
        }
        let command = provider_command(&batch.secrets[batch.position], batch.platform);
        let result = match command {
            Ok((program, arguments)) => {
                let line = command_line(program, &arguments);
                secret_from_outcome(
                    batch.secrets[batch.position].provider.as_str(),
                    line.as_str(),
                    outcome,
                )
            },
            Err(error) => Err(error),
        };
        self.settle(batch, result);
    }

    /// Moves the batch on to the first reference that needs a command, and
    /// says which. References that are settled are passed over, so that no
    /// secret is asked for twice in a session; one for which there is no
    /// command fails at once. With no reference left, says that the batch is
    /// finished, and with what result.
    pub fn advance(&mut self, batch: &mut Batch) -> (action: Action)
        ensures
            (final(self)@, final(batch)@, action@) == advance_model(old(self)@, old(batch)@),
    {
        loop
            invariant
                advance_model(self@, batch@) == advance_model(old(self)@, old(batch)@),
            decreases batch.secrets.len() - batch.position,
        {
            if batch.position >= batch.secrets.len() {
                return Action::Finished(batch.result());
            }
            proof {
                assert(names_of(batch.secrets@)[batch.position as int]
                    == batch.secrets@[batch.position as int]@);
            }
            if self.is_settled(&batch.secrets[batch.position]) {
                batch.position = batch.position + 1;
            } else {
                match provider_command(&batch.secrets[batch.position], batch.platform) {
                    Ok((program, arguments)) => {
                        return Action::Run { program, arguments };
                    },
                    Err(error) => {
                        self.settle(batch, Err(error));
                    },
                }
            }
        }
    }

    /// The environment with each secret replaced by its resolved text. Nothing
    /// is asked of any provider. The first entry, in the environment's order,
    /// whose secret is not resolved ends the rewriting with its error, and no
    /// part of the environment is returned.
    pub fn resolve_env_map(&self, env: &Vec<(String, EnvValue)>) -> (out: Result<
        Vec<(String, EnvValue)>,
        SecretError,
    >)
        ensures
            match rewrite_model(self@, env_text(env@)) {
                Ok(entries) => out matches Ok(rewritten) && env_text(rewritten@) == entries,
                Err(failure) => out matches Err(error) && error@ == failure,
            },
    {
        let mut out: Vec<(String, EnvValue)> = Vec::new();
        let mut i: usize = 0;
        proof {
            assert(env_text(env@).take(0) =~= Seq::<(Seq<char>, EnvText)>::empty());
            assert(env_text(out@) =~= Seq::<(Seq<char>, EnvText)>::empty());
        }
        while i < env.len()
            invariant
                i <= env.len(),
                rewrite_model(self@, env_text(env@).take(i as int)) == Ok::<_, Failure>(
                    env_text(out@),
                ),
            decreases env.len() - i,
        {
            proof {
                let all = env_text(env@);
                assert(all.take(i + 1).drop_last() =~= all.take(i as int));
                assert(all.take(i + 1).last() == entry_text(env@[i as int]));
            }
            let ghost before = env_text(out@);
            let key = env[i].0.clone();
            match &env[i].1 {
                EnvValue::Plain(text) => {
                    out.push((key, EnvValue::Plain(text.clone())));
                },
                EnvValue::Secret { secret } => {
                    match lookup(&self.cache, secret) {
                        Some(text) => {
                            out.push((key, EnvValue::Plain(text.clone())));
                        },
                        None => {
                            let error = match lookup(&self.failures, secret) {
                                Some(message) => SecretError::PreviouslyFailed {
                                    key,
                                    secret: secret.clone(),
                                    message: message.clone(),
                                },
                                None => SecretError::UnresolvedSecret {
                                    key: Some(key),
                                    secret: secret.clone(),
                                },
                            };
                            proof {
                                lemma_rewrite_fails_from(self@, env_text(env@), i + 1);
                            }
                            return Err(error);
                        },
                    }
                },
            }
            proof {
                assert(env_text(out@) =~= before.push(rewrite_entry(self@, entry_text(env@[i as int]))->Ok_0));
            }
            i += 1;
        }
        proof {
            assert(env_text(env@).take(i as int) =~= env_text(env@));
        }
        Ok(out)
    }
}

/// Once the rewriting of the first `n` entries fails, the rewriting of the
/// whole environment fails with the same error.
pub proof fn lemma_rewrite_fails_from(caches: Caches, env: Seq<(Seq<char>, EnvText)>, n: int)
    requires
        0 <= n <= env.len(),
        rewrite_model(caches, env.take(n)) is Err,
    ensures
        rewrite_model(caches, env) == rewrite_model(caches, env.take(n)),
    decreases env.len() - n,
{
    if n < env.len() {
        assert(env.take(n + 1).drop_last() =~= env.take(n));
        lemma_rewrite_fails_from(caches, env, n + 1);
    } else {
        assert(env.take(n) =~= env);
    }
}

} // verus!
