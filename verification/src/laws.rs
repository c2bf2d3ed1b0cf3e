//! What holds of collecting, resolving and rewriting, for every environment,
//! every batch and every outcome of the providers' commands.

use vstd::prelude::*;
use crate::error::Failure;
use crate::provider::{command_for, Platform, ProcessOutput};
use crate::resolver::{
    advance_model, batch_result, distinct_secrets, done_are_settled, fresh_batch, record_model,
    rewrite_entry, rewrite_model, settle_model, BatchState, Caches, Step,
};
use crate::secret::{EnvText, SecretName};

verus! {

/// Whether `secret` is the reference of one of the environment's entries.
pub open spec fn occurs_in(env: Seq<(Seq<char>, EnvText)>, secret: SecretName) -> bool {
    exists|i: int| 0 <= i < env.len() && (#[trigger] env[i]).1 == EnvText::Secret(secret)
}

/// The collected references are exactly those that occur in the environment
/// as secrets, and none of them is collected twice, under however many keys
/// it occurs.
pub proof fn lemma_collected_are_the_distinct_secrets(env: Seq<(Seq<char>, EnvText)>)
    ensures
        distinct_secrets(env).no_duplicates(),
        forall|secret: SecretName| #[trigger]
            distinct_secrets(env).contains(secret) <==> occurs_in(env, secret),
    decreases env.len(),
{
    if env.len() > 0 {
        let front = env.drop_last();
        let before = distinct_secrets(front);
        lemma_collected_are_the_distinct_secrets(front);
        assert forall|secret: SecretName| #[trigger]
            distinct_secrets(env).contains(secret) <==> occurs_in(env, secret) by {
            if occurs_in(front, secret) {
                let i = choose|i: int| 0 <= i < front.len() && (#[trigger] front[i]).1
                    == EnvText::Secret(secret);
                assert(env[i] == front[i]);
            }
            if occurs_in(env, secret) {
                let i = choose|i: int| 0 <= i < env.len() && (#[trigger] env[i]).1
                    == EnvText::Secret(secret);
                if i < front.len() {
                    assert(front[i] == env[i]);
                }
            }
            if env.last().1 == EnvText::Secret(secret) {
                assert(env[env.len() - 1] == env.last());
            }
            if distinct_secrets(env).contains(secret) && !before.contains(secret) {
                let j = choose|j: int| 0 <= j < distinct_secrets(env).len() && distinct_secrets(
                    env,
                )[j] == secret;
                if j < before.len() {
                    assert(before[j] == secret);
                }
            }
            if before.contains(secret) {
                let j = choose|j: int| 0 <= j < before.len() && before[j] == secret;
                assert(distinct_secrets(env)[j] == secret);
            }
            match env.last().1 {
                EnvText::Secret(last) => {
                    if !before.contains(last) {
                        assert(before.push(last)[before.len() as int] == last);
                    }
                },
                EnvText::Plain(_) => {},
            }
        }
    } else {
        assert forall|secret: SecretName| #[trigger]
            distinct_secrets(env).contains(secret) <==> occurs_in(env, secret) by {}
    }
}

/// A batch whose remaining references are all settled asks for no command and
/// changes nothing that the resolver knows: it is finished at once, with the
/// result that it had.
pub proof fn lemma_settled_rest_runs_nothing(caches: Caches, batch: BatchState)
    requires
        forall|i: int|
            batch.position <= i < batch.secrets.len() ==> caches.settled(
                #[trigger] batch.secrets[i],
            ),
    ensures
        advance_model(caches, batch) == (
            caches,
            BatchState {
                position: if batch.position >= batch.secrets.len() {
                    batch.position
                } else {
                    batch.secrets.len()
                },
                ..batch
            },
            Step::Finished(batch_result(batch.errors)),
        ),
    decreases batch.secrets.len() - batch.position,
{
    if batch.position < batch.secrets.len() {
        lemma_settled_rest_runs_nothing(
            caches,
            BatchState { position: batch.position + 1, ..batch },
        );
    }
}

/// Resolving the same references again asks no provider: once every
/// reference of a list is settled, a new batch over the list runs no command,
/// leaves the resolver as it is, and succeeds.
pub proof fn lemma_second_batch_runs_nothing(
    caches: Caches,
    secrets: Seq<SecretName>,
    platform: Platform,
)
    requires
        forall|i: int| 0 <= i < secrets.len() ==> caches.settled(#[trigger] secrets[i]),
    ensures
        advance_model(caches, fresh_batch(secrets, platform)) == (
            caches,
            BatchState { position: secrets.len(), ..fresh_batch(secrets, platform) },
            Step::Finished(Ok(())),
        ),
{
    lemma_settled_rest_runs_nothing(caches, fresh_batch(secrets, platform));
}

/// Settling the current reference of a batch forgets nothing, settles that
/// reference, and moves the batch on by one.
pub proof fn lemma_settle_settles(
    caches: Caches,
    batch: BatchState,
    result: Result<Seq<char>, Failure>,
)
    requires
        batch.position < batch.secrets.len(),
        done_are_settled(caches, batch),
    ensures
        ({
            let next = settle_model(caches, batch, result);
            &&& caches.grown_to(next.0)
            &&& next.0.settled(batch.secrets[batch.position as int])
            &&& done_are_settled(next.0, next.1)
            &&& next.1.position == batch.position + 1
            &&& next.1.secrets == batch.secrets
            &&& next.1.platform == batch.platform
            &&& result is Ok ==> next.1.errors == batch.errors && next.0.failed == caches.failed
                && next.0.resolved == caches.resolved.insert(
                batch.secrets[batch.position as int],
                result->Ok_0,
            )
            &&& result is Err ==> next.1.errors.len() == batch.errors.len() + 1 && next.0.resolved
                == caches.resolved
        }),
{
    let next = settle_model(caches, batch, result);
    assert forall|i: int| 0 <= i < next.1.position && i < next.1.secrets.len() implies next.0.settled(
        #[trigger] next.1.secrets[i],
    ) by {
        if i < batch.position {
            assert(caches.settled(batch.secrets[i]));
        }
    }
}

/// Recording the outcome of a command forgets nothing, settles the current
/// reference whatever the outcome was, and moves the batch on by one.
pub proof fn lemma_record_settles(
    caches: Caches,
    batch: BatchState,
    outcome: Result<ProcessOutput, String>,
)
    requires
        batch.position < batch.secrets.len(),
        done_are_settled(caches, batch),
    ensures
        ({
            let next = record_model(caches, batch, outcome);
            &&& caches.grown_to(next.0)
            &&& next.0.settled(batch.secrets[batch.position as int])
            &&& done_are_settled(next.0, next.1)
            &&& next.1.position == batch.position + 1
            &&& next.1.secrets == batch.secrets
            &&& next.1.platform == batch.platform
        }),
{
    let secret = batch.secrets[batch.position as int];
    match command_for(secret, batch.platform) {
        Ok((program, arguments)) => {
            lemma_settle_settles(
                caches,
                batch,
                crate::provider::outcome_value(
                    secret.provider,
                    crate::provider::command_line_text(program, arguments),
                    outcome,
                ),
            );
        },
        Err(failure) => {
            lemma_settle_settles(caches, batch, Err(failure));
        },
    }
}

/// Advancing a batch forgets nothing and keeps the references and their
/// order. A command is asked for only for a reference that is not settled,
/// and it is that reference's command, so within a session no settled secret
/// is asked for again; a finished batch has every reference settled.
pub proof fn lemma_advance_asks_only_for_the_unsettled(caches: Caches, batch: BatchState)
    requires
        batch.position <= batch.secrets.len(),
        done_are_settled(caches, batch),
    ensures
        ({
            let next = advance_model(caches, batch);
            &&& caches.grown_to(next.0)
            &&& next.0.resolved == caches.resolved
            &&& done_are_settled(next.0, next.1)
            &&& next.1.secrets == batch.secrets
            &&& next.1.platform == batch.platform
            &&& batch.position <= next.1.position <= batch.secrets.len()
            &&& match next.2 {
                Step::Run { program, arguments } => {
                    &&& next.1.position < batch.secrets.len()
                    &&& !next.0.settled(batch.secrets[next.1.position as int])
                    &&& command_for(batch.secrets[next.1.position as int], batch.platform) == Ok::<
                        _,
                        Failure,
                    >((program, arguments))
                },
                Step::Finished(result) => {
                    &&& next.1.position == batch.secrets.len()
                    &&& result == batch_result(next.1.errors)
                    &&& forall|i: int|
                        0 <= i < batch.secrets.len() ==> next.0.settled(
                            #[trigger] batch.secrets[i],
                        )
                },
            }
        }),
    decreases batch.secrets.len() - batch.position,
{
    if batch.position < batch.secrets.len() {
        let secret = batch.secrets[batch.position as int];
        if caches.settled(secret) {
            let moved = BatchState { position: batch.position + 1, ..batch };
            assert forall|i: int| 0 <= i < moved.position && i < moved.secrets.len() implies caches.settled(
                #[trigger] moved.secrets[i],
            ) by {
                if i < batch.position {
                    assert(caches.settled(batch.secrets[i]));
                }
            }
            lemma_advance_asks_only_for_the_unsettled(caches, moved);
        } else {
            match command_for(secret, batch.platform) {
                Ok(_) => {},
                Err(failure) => {
                    let next = settle_model(caches, batch, Err(failure));
                    lemma_settle_settles(caches, batch, Err(failure));
                    lemma_advance_asks_only_for_the_unsettled(next.0, next.1);
                },
            }
        }
    } else {
        assert forall|i: int| 0 <= i < batch.secrets.len() implies caches.settled(
            #[trigger] batch.secrets[i],
        ) by {}
    }
}

/// An environment of which every entry can be rewritten is rewritten entry by
/// entry: it keeps its keys and their order, and each value is plain.
pub proof fn lemma_rewrite_succeeds(caches: Caches, env: Seq<(Seq<char>, EnvText)>)
    requires
        forall|i: int| 0 <= i < env.len() ==> rewrite_entry(caches, #[trigger] env[i]) is Ok,
    ensures
        rewrite_model(caches, env) is Ok,
        rewrite_model(caches, env)->Ok_0.len() == env.len(),
        forall|i: int|
            0 <= i < env.len() ==> {
                &&& Ok::<_, Failure>(#[trigger] rewrite_model(caches, env)->Ok_0[i])
                    == rewrite_entry(caches, env[i])
                &&& rewrite_model(caches, env)->Ok_0[i].0 == env[i].0
                &&& rewrite_model(caches, env)->Ok_0[i].1 is Plain
            },
    decreases env.len(),
{
    if env.len() > 0 {
        let front = env.drop_last();
        assert forall|i: int| 0 <= i < front.len() implies rewrite_entry(
            caches,
            #[trigger] front[i],
        ) is Ok by {
            assert(front[i] == env[i]);
        }
        lemma_rewrite_succeeds(caches, front);
        assert(rewrite_entry(caches, env[env.len() - 1]) is Ok);
        let out = rewrite_model(caches, env)->Ok_0;
        assert forall|i: int| 0 <= i < env.len() implies {
            &&& Ok::<_, Failure>(#[trigger] out[i]) == rewrite_entry(caches, env[i])
            &&& out[i].0 == env[i].0
            &&& out[i].1 is Plain
        } by {
            if i < front.len() {
                assert(front[i] == env[i]);
                assert(out[i] == rewrite_model(caches, front)->Ok_0[i]);
            }
        }
    }
}

/// An environment without secrets is returned as it is, whatever the
/// resolver knows.
pub proof fn lemma_plain_env_is_unchanged(caches: Caches, env: Seq<(Seq<char>, EnvText)>)
    requires
        forall|i: int| 0 <= i < env.len() ==> (#[trigger] env[i]).1 is Plain,
    ensures
        rewrite_model(caches, env) == Ok::<_, Failure>(env),
{
    lemma_rewrite_succeeds(caches, env);
    assert(rewrite_model(caches, env)->Ok_0 =~= env);
}

/// Rewriting fails fast: the first entry, in the environment's order, whose
/// secret is not resolved decides the error, which names that entry's key and
/// its secret. A secret that was never resolved nor tried gives
/// `UnresolvedSecret`.
pub proof fn lemma_first_unresolved_entry_fails(
    caches: Caches,
    env: Seq<(Seq<char>, EnvText)>,
    i: int,
)
    requires
        0 <= i < env.len(),
        rewrite_entry(caches, env[i]) is Err,
        forall|j: int| 0 <= j < i ==> rewrite_entry(caches, #[trigger] env[j]) is Ok,
    ensures
        rewrite_model(caches, env) == Err::<Seq<(Seq<char>, EnvText)>, _>(
            rewrite_entry(caches, env[i])->Err_0,
        ),
        env[i].1 matches EnvText::Secret(secret) && (!caches.settled(secret) ==> rewrite_model(
            caches,
            env,
        ) == Err::<Seq<(Seq<char>, EnvText)>, _>(
            Failure::UnresolvedSecret { key: Some(env[i].0), secret },
        )),
{
    let front = env.take(i);
    assert forall|j: int| 0 <= j < front.len() implies rewrite_entry(
        caches,
        #[trigger] front[j],
    ) is Ok by {
        assert(front[j] == env[j]);
    }
    lemma_rewrite_succeeds(caches, front);
    assert(env.take(i + 1).drop_last() =~= front);
    assert(env.take(i + 1).last() == env[i]);
    crate::resolver::lemma_rewrite_fails_from(caches, env, i + 1);
}

/// As soon as one entry holds a secret that is not resolved, no environment
/// is returned.
pub proof fn lemma_unresolved_secret_fails(
    caches: Caches,
    env: Seq<(Seq<char>, EnvText)>,
    i: int,
)
    requires
        0 <= i < env.len(),
        env[i].1 matches EnvText::Secret(secret) && !caches.resolved.contains_key(secret),
    ensures
        rewrite_model(caches, env) is Err,
    decreases i,
{
    if forall|j: int| 0 <= j < i ==> rewrite_entry(caches, #[trigger] env[j]) is Ok {
        lemma_first_unresolved_entry_fails(caches, env, i);
    } else {
        let j = choose|j: int| 0 <= j < i && !(rewrite_entry(caches, #[trigger] env[j]) is Ok);
        lemma_unresolved_secret_fails(caches, env, j);
    }
}

} // verus!
