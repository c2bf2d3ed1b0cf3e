use env_secrets::error::SecretError;
use env_secrets::provider::{Platform, ProcessOutput};
use env_secrets::resolver::{Action, SecretResolver};
use env_secrets::secret::{EnvValue, SecretReference};

fn reference(provider: &str, reference: &str) -> SecretReference {
    SecretReference { provider: provider.to_string(), reference: reference.to_string() }
}

fn secret(provider: &str, name: &str) -> EnvValue {
    EnvValue::Secret { secret: reference(provider, name) }
}

fn plain(text: &str) -> EnvValue {
    EnvValue::Plain(text.to_string())
}

fn printed(text: &str) -> Result<ProcessOutput, String> {
    Ok(ProcessOutput { success: true, exit_code: Some(0), stdout: text.as_bytes().to_vec(), stderr: Vec::new() })
}

fn failed(code: i32, stderr: &str) -> Result<ProcessOutput, String> {
    Ok(ProcessOutput { success: false, exit_code: Some(code), stdout: Vec::new(), stderr: stderr.as_bytes().to_vec() })
}

/// Runs a batch with a provider that prints `<reference>-value` and fails for
/// references that begin with `bad`. Returns the result and the commands run.
fn run(
    resolver: &mut SecretResolver,
    secrets: Vec<SecretReference>,
) -> (Result<(), SecretError>, Vec<Vec<String>>) {
    let mut batch = resolver.pre_resolve(secrets, Platform::Posix);
    let mut commands = Vec::new();
    loop {
        match resolver.advance(&mut batch) {
            Action::Run { program, arguments } => {
                let name = arguments[1].clone();
                let mut command = vec![program.to_string()];
                command.extend(arguments);
                commands.push(command);
                let outcome = if name.starts_with("bad") {
                    failed(1, " no such secret \n")
                } else {
                    printed(&format!("  {}-value\n", name))
                };
                resolver.record(&mut batch, outcome);
            }
            Action::Finished(result) => {
                assert_eq!(batch.position(), batch.len());
                return (result, commands);
            }
        }
    }
}

#[test]
fn new_resolver_knows_nothing() {
    let resolver = SecretResolver::new();
    let a = reference("pass", "a");
    assert_eq!(resolver.resolved_value(&a), None);
    assert_eq!(resolver.failure_of(&a), None);
    assert!(!resolver.is_settled(&a));
}

#[test]
fn collect_secrets_finds_each_reference_once() {
    let env = vec![
        ("A".to_string(), secret("pass", "x")),
        ("B".to_string(), plain("pass")),
        ("C".to_string(), secret("1password", "x")),
        ("D".to_string(), secret("pass", "x")),
        ("E".to_string(), secret("pass", "y")),
        ("F".to_string(), secret("1password", "x")),
    ];
    assert_eq!(
        SecretResolver::collect_secrets(&env),
        vec![reference("pass", "x"), reference("1password", "x"), reference("pass", "y")]
    );
}

#[test]
fn collect_secrets_of_plain_and_empty_maps_is_empty() {
    assert_eq!(SecretResolver::collect_secrets(&vec![]), vec![]);
    let env = vec![("A".to_string(), plain("x")), ("B".to_string(), plain("y"))];
    assert_eq!(SecretResolver::collect_secrets(&env), vec![]);
}

#[test]
fn batch_runs_commands_in_order_and_keeps_trimmed_values() {
    let mut resolver = SecretResolver::new();
    let secrets = vec![reference("pass", "a"), reference("1password", "b"), reference("command", "c")];
    let (result, commands) = run(&mut resolver, secrets.clone());
    assert_eq!(result, Ok(()));
    assert_eq!(
        commands,
        vec![
            vec!["pass".to_string(), "show".to_string(), "a".to_string()],
            vec!["op".to_string(), "read".to_string(), "b".to_string()],
            vec!["sh".to_string(), "-c".to_string(), "c".to_string()],
        ]
    );
    assert_eq!(resolver.resolved_value(&secrets[0]), Some("a-value"));
    assert_eq!(resolver.resolved_value(&secrets[1]), Some("b-value"));
    assert_eq!(resolver.resolved_value(&secrets[2]), Some("c-value"));
    assert!(resolver.is_settled(&secrets[2]));
}

#[test]
fn second_batch_asks_no_provider() {
    let mut resolver = SecretResolver::new();
    let secrets = vec![reference("pass", "a"), reference("pass", "bad"), reference("nowhere", "c")];
    let (first, commands) = run(&mut resolver, secrets.clone());
    assert!(first.is_err());
    assert_eq!(commands.len(), 2);
    let (second, commands) = run(&mut resolver, secrets.clone());
    assert_eq!(second, Ok(()));
    assert_eq!(commands.len(), 0);
    assert_eq!(resolver.resolved_value(&secrets[0]), Some("a-value"));
    assert!(resolver.failure_of(&secrets[1]).is_some());
    assert!(resolver.failure_of(&secrets[2]).is_some());
}

#[test]
fn reference_that_occurs_twice_is_asked_for_once() {
    let mut resolver = SecretResolver::new();
    let secrets = vec![reference("pass", "a"), reference("pass", "a"), reference("pass", "bad"), reference("pass", "bad")];
    let (result, commands) = run(&mut resolver, secrets);
    assert_eq!(commands.len(), 2);
    match result {
        Err(SecretError::ResolutionFailed { messages }) => assert_eq!(messages.len(), 1),
        other => panic!("unexpected result: {:?}", other),
    }
}

#[test]
fn partial_failure_keeps_what_was_resolved() {
    let mut resolver = SecretResolver::new();
    let a = reference("pass", "a");
    let b = reference("pass", "bad-b");
    let c = reference("pass", "c");
    let (result, commands) = run(&mut resolver, vec![a.clone(), b.clone(), c.clone()]);
    assert_eq!(commands.len(), 3);
    assert_eq!(resolver.resolved_value(&a), Some("a-value"));
    assert_eq!(resolver.resolved_value(&c), Some("c-value"));
    assert_eq!(resolver.resolved_value(&b), None);
    assert_eq!(resolver.failure_of(&a), None);
    assert_eq!(resolver.failure_of(&c), None);
    let message = "failed to resolve secret (provider: pass, reference: bad-b): \
                   secret provider 'pass' failed (exit code Some(1)): no such secret";
    assert_eq!(resolver.failure_of(&b), Some(message));
    let error = result.unwrap_err();
    assert_eq!(error, SecretError::ResolutionFailed { messages: vec![message.to_string()] });
    assert_eq!(error.message(), format!("failed to resolve 1 secret(s): {}", message));
}

#[test]
fn failures_are_listed_in_their_order() {
    let mut resolver = SecretResolver::new();
    let secrets = vec![
        reference("pass", "bad-1"),
        reference("vault", "x"),
        reference("pass", "ok"),
        reference("pass", "bad-2"),
    ];
    let (result, commands) = run(&mut resolver, secrets);
    assert_eq!(commands.len(), 3);
    let first = "failed to resolve secret (provider: pass, reference: bad-1): \
                 secret provider 'pass' failed (exit code Some(1)): no such secret";
    let second = "failed to resolve secret (provider: vault, reference: x): \
                  unsupported secret provider: 'vault'";
    let third = "failed to resolve secret (provider: pass, reference: bad-2): \
                 secret provider 'pass' failed (exit code Some(1)): no such secret";
    assert_eq!(
        result.unwrap_err().message(),
        format!("failed to resolve 3 secret(s): {}; {}; {}", first, second, third)
    );
}

#[test]
fn ten_failures_are_counted_in_decimal() {
    let mut resolver = SecretResolver::new();
    let secrets: Vec<SecretReference> =
        (0..12).map(|i| reference("vault", &format!("r{}", i))).collect();
    let (result, commands) = run(&mut resolver, secrets);
    assert_eq!(commands.len(), 0);
    assert!(result.unwrap_err().message().starts_with("failed to resolve 12 secret(s): failed to resolve secret (provider: vault, reference: r0): "));
}

#[test]
fn empty_batch_is_finished_at_once() {
    let mut resolver = SecretResolver::new();
    let mut batch = resolver.pre_resolve(vec![], Platform::Windows);
    assert_eq!(batch.len(), 0);
    assert_eq!(resolver.advance(&mut batch), Action::Finished(Ok(())));
    resolver.record(&mut batch, printed("late"));
    assert_eq!(batch.position(), 0);
    assert_eq!(batch.result(), Ok(()));
}

#[test]
fn pass_on_windows_fails_without_a_command() {
    let mut resolver = SecretResolver::new();
    let a = reference("pass", "a");
    let mut batch = resolver.pre_resolve(vec![a.clone()], Platform::Windows);
    let action = resolver.advance(&mut batch);
    let message = "failed to resolve secret (provider: pass, reference: a): \
                   secret provider 'pass' is not supported on Windows";
    assert_eq!(
        action,
        Action::Finished(Err(SecretError::ResolutionFailed { messages: vec![message.to_string()] }))
    );
    assert_eq!(resolver.failure_of(&a), Some(message));
}

#[test]
fn command_that_did_not_start_is_kept_as_failure() {
    let mut resolver = SecretResolver::new();
    let a = reference("1password", "op://v/i/f");
    let mut batch = resolver.pre_resolve(vec![a.clone()], Platform::Posix);
    assert_eq!(
        resolver.advance(&mut batch),
        Action::Run { program: "op", arguments: vec!["read".to_string(), "op://v/i/f".to_string()] }
    );
    resolver.record(&mut batch, Err("not found".to_string()));
    assert_eq!(
        resolver.failure_of(&a),
        Some(
            "failed to resolve secret (provider: 1password, reference: op://v/i/f): \
             failed to execute secret provider command: op read op://v/i/f: not found"
        )
    );
    assert!(matches!(resolver.advance(&mut batch), Action::Finished(Err(_))));
}

#[test]
fn settle_gives_the_current_reference_its_result() {
    let mut resolver = SecretResolver::new();
    let a = reference("pass", "a");
    let b = reference("pass", "b");
    let mut batch = resolver.pre_resolve(vec![a.clone(), b.clone()], Platform::Posix);
    resolver.settle(&mut batch, Ok("one".to_string()));
    assert_eq!(batch.position(), 1);
    resolver.settle(&mut batch, Err(SecretError::OutputDecodingFailed));
    assert_eq!(batch.position(), 2);
    resolver.settle(&mut batch, Ok("late".to_string()));
    assert_eq!(batch.position(), 2);
    assert_eq!(resolver.resolved_value(&a), Some("one"));
    assert_eq!(
        resolver.failure_of(&b),
        Some("failed to resolve secret (provider: pass, reference: b): secret provider output is not valid UTF-8")
    );
    assert_eq!(resolver.resolved_value(&b), None);
}

#[test]
fn all_plain_map_comes_back_unchanged() {
    let resolver = SecretResolver::new();
    let env = vec![
        ("PATH".to_string(), plain("/usr/bin")),
        ("EMPTY".to_string(), plain("")),
        ("SPACED".to_string(), plain("  kept as is  ")),
    ];
    assert_eq!(resolver.resolve_env_map(&env), Ok(env.clone()));
    assert_eq!(resolver.resolve_env_map(&vec![]), Ok(vec![]));
}

#[test]
fn unresolved_secret_fails_with_key_and_provider() {
    let resolver = SecretResolver::new();
    let env = vec![("API_KEY".to_string(), secret("1password", "op://v/i/f"))];
    let error = resolver.resolve_env_map(&env).unwrap_err();
    assert_eq!(
        error,
        SecretError::UnresolvedSecret {
            key: Some("API_KEY".to_string()),
            secret: reference("1password", "op://v/i/f"),
        }
    );
    let message = error.message();
    assert!(message.contains("API_KEY"));
    assert!(message.contains("1password"));
    assert_eq!(
        message,
        "secret not pre-resolved for 'API_KEY' (provider: 1password, reference: op://v/i/f)"
    );
}

#[test]
fn resolved_secret_is_substituted() {
    let mut resolver = SecretResolver::new();
    let token = reference("pass", "token");
    let mut batch = resolver.pre_resolve(vec![token.clone()], Platform::Posix);
    assert!(matches!(resolver.advance(&mut batch), Action::Run { .. }));
    resolver.record(&mut batch, printed("  sk-123\n"));
    assert_eq!(resolver.advance(&mut batch), Action::Finished(Ok(())));
    let env = vec![("TOKEN".to_string(), EnvValue::Secret { secret: token })];
    assert_eq!(
        resolver.resolve_env_map(&env),
        Ok(vec![("TOKEN".to_string(), plain("sk-123"))])
    );
}

#[test]
fn previously_failed_secret_fails_with_the_kept_message() {
    let mut resolver = SecretResolver::new();
    let bad = reference("pass", "bad");
    let (result, _) = run(&mut resolver, vec![bad.clone(), reference("pass", "good")]);
    assert!(result.is_err());
    let env = vec![
        ("FIRST".to_string(), plain("x")),
        ("GOOD".to_string(), secret("pass", "good")),
        ("BAD".to_string(), secret("pass", "bad")),
        ("NEVER".to_string(), secret("pass", "never")),
    ];
    let error = resolver.resolve_env_map(&env).unwrap_err();
    let kept = "failed to resolve secret (provider: pass, reference: bad): \
                secret provider 'pass' failed (exit code Some(1)): no such secret";
    assert_eq!(
        error,
        SecretError::PreviouslyFailed { key: "BAD".to_string(), secret: bad, message: kept.to_string() }
    );
    assert_eq!(
        error.message(),
        format!("failed to resolve secret for 'BAD' (provider: pass, reference: bad): {}", kept)
    );
}

#[test]
fn first_entry_in_order_is_the_one_reported() {
    let resolver = SecretResolver::new();
    let env = vec![
        ("Z".to_string(), secret("pass", "z")),
        ("A".to_string(), secret("pass", "a")),
    ];
    match resolver.resolve_env_map(&env).unwrap_err() {
        SecretError::UnresolvedSecret { key, .. } => assert_eq!(key, Some("Z".to_string())),
        other => panic!("unexpected error: {:?}", other),
    }
}

#[test]
fn rewriting_does_not_change_the_resolver() {
    let mut resolver = SecretResolver::new();
    let a = reference("pass", "a");
    let (_, _) = run(&mut resolver, vec![a.clone()]);
    let env = vec![("A".to_string(), secret("pass", "a")), ("B".to_string(), secret("pass", "b"))];
    assert!(resolver.resolve_env_map(&env).is_err());
    assert!(!resolver.is_settled(&reference("pass", "b")));
    assert_eq!(resolver.resolved_value(&a), Some("a-value"));
}

#[test]
fn interleaved_batches_may_both_ask() {
    let mut resolver = SecretResolver::new();
    let a = reference("pass", "a");
    let mut first = resolver.pre_resolve(vec![a.clone()], Platform::Posix);
    let mut second = resolver.pre_resolve(vec![a.clone()], Platform::Posix);
    assert!(matches!(resolver.advance(&mut first), Action::Run { .. }));
    assert!(matches!(resolver.advance(&mut second), Action::Run { .. }));
    resolver.record(&mut first, printed("one"));
    resolver.record(&mut second, printed("two"));
    assert_eq!(resolver.resolved_value(&a), Some("two"));
    assert_eq!(resolver.advance(&mut first), Action::Finished(Ok(())));
    assert_eq!(resolver.advance(&mut second), Action::Finished(Ok(())));
}
