//! How results of remote operations are laid out as JSON.
use vstd::prelude::*;

use crate::failure::{FailureModel, HostKeyModel, RemoteFailure};
use crate::json::{
    has_part, lemma_says_at, lemma_says_optional, lemma_says_within, list, lists_show_their_items,
    member, object, optional, pad, quoted, says, signed, signed_string, truth, Lines,
};
use crate::remote::{
    command_models, verified_models, AgentKeyInfo, AgentKeyModel, CommandModel, ManyModel,
    RemoteCommandResult, RemoteManyResult, RemoteResult, ResultModel, VerifiedHostKey,
    VerifiedModel,
};
use crate::text::decimal;

verus! {

/// An accepted host key; the identity of its host stays inside the program.
pub open spec fn verified_json(level: nat, key: VerifiedModel) -> Seq<char> {
    object(
        level,
        seq![
            member(level, "alias"@, quoted(key.alias)),
            member(level, "fingerprint"@, quoted(key.fingerprint)),
            member(level, "algorithm"@, quoted(key.algorithm)),
            member(level, "verified_at_unix"@, decimal(key.verified_at_unix as nat)),
        ],
    )
}

fn write_verified(level: usize, key: &VerifiedHostKey) -> (r: String)
    requires
        level < 1000,
    ensures
        r@ == verified_json(level as nat, key@),
{
    let mut lines = Lines::new(level);
    lines.put_text("alias", key.alias.as_str());
    lines.put_text("fingerprint", key.fingerprint.as_str());
    lines.put_text("algorithm", key.algorithm.as_str());
    lines.put_number("verified_at_unix", key.verified_at_unix);
    assert(lines@ =~= seq![
        member(level as nat, "alias"@, quoted(key@.alias)),
        member(level as nat, "fingerprint"@, quoted(key@.fingerprint)),
        member(level as nat, "algorithm"@, quoted(key@.algorithm)),
        member(level as nat, "verified_at_unix"@, decimal(key@.verified_at_unix as nat)),
    ]);
    lines.into_object()
}

/// The accepted host keys as a member, left out when there are none.
pub open spec fn keys_member(level: nat, keys: Seq<VerifiedModel>) -> Seq<Seq<char>> {
    if keys.len() == 0 {
        Seq::empty()
    } else {
        seq![
            member(
                level,
                "verified_host_keys"@,
                list(
                    level + 1,
                    Seq::new(keys.len(), |i: int| verified_json(level + 2, keys[i])),
                ),
            ),
        ]
    }
}

fn put_keys(lines: &mut Lines, keys: &Vec<VerifiedHostKey>)
    requires
        old(lines).inv(),
        old(lines).level < 900,
    ensures
        final(lines).inv(),
        final(lines).level == old(lines).level,
        final(lines)@ == old(lines)@ + keys_member(
            old(lines).level as nat,
            verified_models(keys@),
        ),
{
    let level: usize = lines.level;
    let ghost models = verified_models(keys@);
    if keys.len() == 0 {
        assert(lines@ =~= old(lines)@ + keys_member(level as nat, models));
        return;
    }
    let ghost items = Seq::new(models.len(), |i: int| verified_json(level as nat + 2, models[i]));
    let ghost whole = Seq::new(items.len(), |i: int| pad(level as nat + 2) + items[i]);
    let mut inner = Lines::new(level + 1);
    let mut i: usize = 0;
    while i < keys.len()
        invariant
            i <= keys@.len(),
            level < 900,
            inner.inv(),
            inner.level == level + 1,
            models == verified_models(keys@),
            items == Seq::new(models.len(), |i: int| verified_json(level as nat + 2, models[i])),
            whole == Seq::new(items.len(), |i: int| pad(level as nat + 2) + items[i]),
            inner@ == whole.take(i as int),
        decreases keys@.len() - i,
    {
        let item = write_verified(level + 2, &keys[i]);
        assert(item@ == items[i as int]);
        inner.item(item.as_str());
        assert(inner@ =~= whole.take(i + 1));
        i = i + 1;
    }
    assert(whole.take(i as int) =~= whole);
    assert(whole =~= Seq::new(items.len(), |i: int| pad((level + 1) as nat + 1) + items[i]));
    let value = inner.into_list();
    lines.put("verified_host_keys", value.as_str());
    assert(lines@ =~= old(lines)@ + keys_member(level as nat, models));
}

/// The result of one command on one host.
pub open spec fn result_json(level: nat, result: ResultModel) -> Seq<char> {
    object(
        level,
        seq![
            member(level, "status"@, quoted(result.status)),
            member(level, "alias"@, quoted(result.alias)),
            member(level, "exit_code"@, signed(result.exit_code as int)),
            member(level, "stdout"@, quoted(result.stdout)),
            member(level, "stderr"@, quoted(result.stderr)),
            member(level, "output_truncated"@, truth(result.output_truncated)),
        ] + optional(level, "host_fingerprint"@, result.host_fingerprint) + optional(
            level,
            "host_key_algorithm"@,
            result.host_key_algorithm,
        ) + optional(level, "auth_key_fingerprint"@, result.auth_key_fingerprint) + keys_member(
            level,
            result.verified_host_keys,
        ),
    )
}

pub fn write_result(level: usize, result: &RemoteResult) -> (r: String)
    requires
        level < 900,
    ensures
        r@ == result_json(level as nat, result@),
{
    let mut lines = Lines::new(level);
    lines.put_text("status", result.status);
    lines.put_text("alias", result.alias.as_str());
    lines.put("exit_code", signed_string(result.exit_code).as_str());
    lines.put_text("stdout", result.stdout.as_str());
    lines.put_text("stderr", result.stderr.as_str());
    lines.put_truth("output_truncated", result.output_truncated);
    assert(lines@ =~= seq![
        member(level as nat, "status"@, quoted(result@.status)),
        member(level as nat, "alias"@, quoted(result@.alias)),
        member(level as nat, "exit_code"@, signed(result@.exit_code as int)),
        member(level as nat, "stdout"@, quoted(result@.stdout)),
        member(level as nat, "stderr"@, quoted(result@.stderr)),
        member(level as nat, "output_truncated"@, truth(result@.output_truncated)),
    ]);
    lines.put_optional("host_fingerprint", &result.host_fingerprint);
    lines.put_optional("host_key_algorithm", &result.host_key_algorithm);
    lines.put_optional("auth_key_fingerprint", &result.auth_key_fingerprint);
    put_keys(&mut lines, &result.verified_host_keys);
    lines.into_object()
}

/// A number as a member, left out when there is none.
pub open spec fn exit_member(level: nat, code: Option<i32>) -> Seq<Seq<char>> {
    match code {
        Some(code) => seq![member(level, "exit_code"@, signed(code as int))],
        None => Seq::empty(),
    }
}

pub(crate) fn put_exit(lines: &mut Lines, code: Option<i32>)
    requires
        old(lines).inv(),
    ensures
        final(lines).inv(),
        final(lines).level == old(lines).level,
        final(lines)@ == old(lines)@ + exit_member(old(lines).level as nat, code),
{
    if let Some(code) = code {
        lines.put("exit_code", signed_string(code).as_str());
    }
    assert(lines@ =~= old(lines)@ + exit_member(old(lines).level as nat, code));
}

/// The result of one command of several.
pub open spec fn command_json(level: nat, result: CommandModel) -> Seq<char> {
    object(
        level,
        seq![
            member(level, "index"@, decimal(result.index as nat)),
            member(level, "status"@, quoted(result.status)),
        ] + exit_member(level, result.exit_code) + seq![
            member(level, "stdout"@, quoted(result.stdout)),
            member(level, "stderr"@, quoted(result.stderr)),
            member(level, "output_truncated"@, truth(result.output_truncated)),
        ] + optional(level, "error_code"@, result.error_code) + optional(
            level,
            "error_message"@,
            result.error_message,
        ),
    )
}

pub fn write_command(level: usize, result: &RemoteCommandResult) -> (r: String)
    requires
        level < 900,
    ensures
        r@ == command_json(level as nat, result@),
{
    let ghost l = level as nat;
    let mut lines = Lines::new(level);
    lines.put_number("index", result.index as u64);
    lines.put_text("status", result.status);
    assert(lines@ =~= seq![
        member(l, "index"@, decimal(result@.index as nat)),
        member(l, "status"@, quoted(result@.status)),
    ]);
    put_exit(&mut lines, result.exit_code);
    let ghost before = lines@;
    lines.put_text("stdout", result.stdout.as_str());
    lines.put_text("stderr", result.stderr.as_str());
    lines.put_truth("output_truncated", result.output_truncated);
    assert(lines@ =~= before + seq![
        member(l, "stdout"@, quoted(result@.stdout)),
        member(l, "stderr"@, quoted(result@.stderr)),
        member(l, "output_truncated"@, truth(result@.output_truncated)),
    ]);
    let ghost before = lines@;
    if let Some(code) = result.error_code {
        lines.put_text("error_code", code);
    }
    assert(lines@ =~= before + optional(l, "error_code"@, result@.error_code));
    lines.put_optional("error_message", &result.error_message);
    lines.into_object()
}

/// The results of several commands on one host.
pub open spec fn many_json(level: nat, result: ManyModel) -> Seq<char> {
    object(
        level,
        seq![
            member(level, "status"@, quoted(result.status)),
            member(level, "alias"@, quoted(result.alias)),
            member(
                level,
                "results"@,
                list(
                    level + 1,
                    Seq::new(
                        result.results.len(),
                        |i: int| command_json(level + 2, result.results[i]),
                    ),
                ),
            ),
        ] + optional(level, "host_fingerprint"@, result.host_fingerprint) + optional(
            level,
            "host_key_algorithm"@,
            result.host_key_algorithm,
        ) + optional(level, "auth_key_fingerprint"@, result.auth_key_fingerprint) + keys_member(
            level,
            result.verified_host_keys,
        ),
    )
}

fn write_commands(level: usize, results: &Vec<RemoteCommandResult>) -> (r: String)
    requires
        level < 800,
    ensures
        r@ == list(
            level as nat,
            Seq::new(
                results@.len(),
                |i: int| command_json(level as nat + 1, command_models(results@)[i]),
            ),
        ),
{
    let ghost items = Seq::new(
        results@.len(),
        |i: int| command_json(level as nat + 1, command_models(results@)[i]),
    );
    let ghost whole = Seq::new(items.len(), |i: int| pad(level as nat + 1) + items[i]);
    let mut lines = Lines::new(level);
    let mut i: usize = 0;
    while i < results.len()
        invariant
            i <= results@.len(),
            level < 800,
            lines.inv(),
            lines.level == level,
            items == Seq::new(
                results@.len(),
                |i: int| command_json(level as nat + 1, command_models(results@)[i]),
            ),
            whole == Seq::new(items.len(), |i: int| pad(level as nat + 1) + items[i]),
            lines@ == whole.take(i as int),
        decreases results@.len() - i,
    {
        let item = write_command(level + 1, &results[i]);
        assert(item@ == items[i as int]);
        lines.item(item.as_str());
        assert(lines@ =~= whole.take(i + 1));
        i = i + 1;
    }
    assert(whole.take(i as int) =~= whole);
    lines.into_list()
}

pub fn write_many(level: usize, result: &RemoteManyResult) -> (r: String)
    requires
        level < 700,
    ensures
        r@ == many_json(level as nat, result@),
{
    let ghost l = level as nat;
    let mut lines = Lines::new(level);
    lines.put_text("status", result.status);
    lines.put_text("alias", result.alias.as_str());
    let results = write_commands(level + 1, &result.results);
    lines.put("results", results.as_str());
    proof {
        let items = Seq::new(
            result@.results.len(),
            |i: int| command_json(l + 2, result@.results[i]),
        );
        assert(Seq::new(
            result.results@.len(),
            |i: int| command_json((level + 1) as nat + 1, command_models(result.results@)[i]),
        ) =~= items);
        assert(lines@ =~= seq![
            member(l, "status"@, quoted(result@.status)),
            member(l, "alias"@, quoted(result@.alias)),
            member(l, "results"@, list(l + 1, items)),
        ]);
    }
    lines.put_optional("host_fingerprint", &result.host_fingerprint);
    lines.put_optional("host_key_algorithm", &result.host_key_algorithm);
    lines.put_optional("auth_key_fingerprint", &result.auth_key_fingerprint);
    put_keys(&mut lines, &result.verified_host_keys);
    lines.into_object()
}

/// What is known of a host key that was not accepted stands beside the other members.
pub open spec fn host_key_members(level: nat, details: Option<HostKeyModel>) -> Seq<Seq<char>> {
    match details {
        Some(key) => optional(level, "expected_fingerprint"@, key.expected_fingerprint) + optional(
            level,
            "observed_fingerprint"@,
            key.observed_fingerprint,
        ) + optional(level, "expected_algorithm"@, key.expected_algorithm) + optional(
            level,
            "observed_algorithm"@,
            key.observed_algorithm,
        ),
        None => Seq::empty(),
    }
}

pub open spec fn failure_json(level: nat, failure: FailureModel) -> Seq<char> {
    object(
        level,
        seq![
            member(level, "status"@, quoted(failure.status)),
            member(level, "code"@, quoted(failure.code)),
            member(level, "message"@, quoted(failure.message)),
        ] + optional(level, "host_alias"@, failure.host_alias) + host_key_members(
            level,
            failure.host_key,
        ),
    )
}

pub fn write_failure(level: usize, failure: &RemoteFailure) -> (r: String)
    requires
        level < 900,
    ensures
        r@ == failure_json(level as nat, failure@),
{
    let ghost l = level as nat;
    let mut lines = Lines::new(level);
    lines.put_text("status", failure.status);
    lines.put_text("code", failure.code);
    lines.put_text("message", failure.message.as_str());
    assert(lines@ =~= seq![
        member(l, "status"@, quoted(failure@.status)),
        member(l, "code"@, quoted(failure@.code)),
        member(l, "message"@, quoted(failure@.message)),
    ]);
    lines.put_optional("host_alias", &failure.host_alias);
    let ghost before = lines@;
    if let Some(key) = &failure.host_key {
        lines.put_optional("expected_fingerprint", &key.expected_fingerprint);
        lines.put_optional("observed_fingerprint", &key.observed_fingerprint);
        lines.put_optional("expected_algorithm", &key.expected_algorithm);
        lines.put_optional("observed_algorithm", &key.observed_algorithm);
    }
    assert(lines@ =~= before + host_key_members(l, failure@.host_key));
    lines.into_object()
}

/// An identity of an agent.
pub open spec fn agent_key_json(level: nat, key: AgentKeyModel) -> Seq<char> {
    object(
        level,
        seq![
            member(level, "fingerprint"@, quoted(key.fingerprint)),
            member(level, "algorithm"@, quoted(key.algorithm)),
            member(level, "comment"@, quoted(key.comment)),
            member(level, "certificate"@, truth(key.certificate)),
        ] + optional(level, "public_key"@, key.public_key),
    )
}

pub fn write_agent_key(level: usize, key: &AgentKeyInfo) -> (r: String)
    requires
        level < 900,
    ensures
        r@ == agent_key_json(level as nat, key@),
{
    let ghost l = level as nat;
    let mut lines = Lines::new(level);
    lines.put_text("fingerprint", key.fingerprint.as_str());
    lines.put_text("algorithm", key.algorithm.as_str());
    lines.put_text("comment", key.comment.as_str());
    lines.put_truth("certificate", key.certificate);
    assert(lines@ =~= seq![
        member(l, "fingerprint"@, quoted(key@.fingerprint)),
        member(l, "algorithm"@, quoted(key@.algorithm)),
        member(l, "comment"@, quoted(key@.comment)),
        member(l, "certificate"@, truth(key@.certificate)),
    ]);
    lines.put_optional("public_key", &key.public_key);
    lines.into_object()
}

/// A result says how the command ended, on which host, and what it printed, each under its name.
pub proof fn results_say_what_happened(level: nat, result: ResultModel)
    ensures
        says(result_json(level, result), "status"@, quoted(result.status)),
        says(result_json(level, result), "alias"@, quoted(result.alias)),
        says(result_json(level, result), "exit_code"@, signed(result.exit_code as int)),
        says(result_json(level, result), "stdout"@, quoted(result.stdout)),
        says(result_json(level, result), "stderr"@, quoted(result.stderr)),
        says(result_json(level, result), "output_truncated"@, truth(result.output_truncated)),
        result.host_fingerprint matches Some(value) ==> says(
            result_json(level, result),
            "host_fingerprint"@,
            quoted(value),
        ),
        result.host_key_algorithm matches Some(value) ==> says(
            result_json(level, result),
            "host_key_algorithm"@,
            quoted(value),
        ),
        result.auth_key_fingerprint matches Some(value) ==> says(
            result_json(level, result),
            "auth_key_fingerprint"@,
            quoted(value),
        ),
{
    let base = seq![
        member(level, "status"@, quoted(result.status)),
        member(level, "alias"@, quoted(result.alias)),
        member(level, "exit_code"@, signed(result.exit_code as int)),
        member(level, "stdout"@, quoted(result.stdout)),
        member(level, "stderr"@, quoted(result.stderr)),
        member(level, "output_truncated"@, truth(result.output_truncated)),
    ];
    let host = optional(level, "host_fingerprint"@, result.host_fingerprint);
    let kind = optional(level, "host_key_algorithm"@, result.host_key_algorithm);
    let own = optional(level, "auth_key_fingerprint"@, result.auth_key_fingerprint);
    let keys = keys_member(level, result.verified_host_keys);
    let whole = base + host + kind + own + keys;
    lemma_says_at(level, whole, 0, "status"@, quoted(result.status));
    lemma_says_at(level, whole, 1, "alias"@, quoted(result.alias));
    lemma_says_at(level, whole, 2, "exit_code"@, signed(result.exit_code as int));
    lemma_says_at(level, whole, 3, "stdout"@, quoted(result.stdout));
    lemma_says_at(level, whole, 4, "stderr"@, quoted(result.stderr));
    lemma_says_at(level, whole, 5, "output_truncated"@, truth(result.output_truncated));
    if result.host_fingerprint is Some {
        assert(whole =~= base + host + (kind + own + keys));
        lemma_says_optional(
            level,
            base,
            "host_fingerprint"@,
            result.host_fingerprint,
            kind + own + keys,
        );
    }
    if result.host_key_algorithm is Some {
        assert(whole =~= (base + host) + kind + (own + keys));
        lemma_says_optional(
            level,
            base + host,
            "host_key_algorithm"@,
            result.host_key_algorithm,
            own + keys,
        );
    }
    if result.auth_key_fingerprint is Some {
        lemma_says_optional(
            level,
            base + host + kind,
            "auth_key_fingerprint"@,
            result.auth_key_fingerprint,
            keys,
        );
    }
}

/// A failure says what went wrong, under which code and on which host.
pub proof fn failures_say_what_went_wrong(level: nat, failure: FailureModel)
    ensures
        says(failure_json(level, failure), "status"@, quoted(failure.status)),
        says(failure_json(level, failure), "code"@, quoted(failure.code)),
        says(failure_json(level, failure), "message"@, quoted(failure.message)),
        failure.host_alias matches Some(value) ==> says(
            failure_json(level, failure),
            "host_alias"@,
            quoted(value),
        ),
{
    let base = seq![
        member(level, "status"@, quoted(failure.status)),
        member(level, "code"@, quoted(failure.code)),
        member(level, "message"@, quoted(failure.message)),
    ];
    let host = optional(level, "host_alias"@, failure.host_alias);
    let whole = base + host + host_key_members(level, failure.host_key);
    lemma_says_at(level, whole, 0, "status"@, quoted(failure.status));
    lemma_says_at(level, whole, 1, "code"@, quoted(failure.code));
    lemma_says_at(level, whole, 2, "message"@, quoted(failure.message));
    if failure.host_alias is Some {
        lemma_says_optional(
            level,
            base,
            "host_alias"@,
            failure.host_alias,
            host_key_members(level, failure.host_key),
        );
    }
}

/// A failure over a host key says which key was expected and which was seen.
pub proof fn refused_host_keys_are_shown(level: nat, failure: FailureModel, key: HostKeyModel)
    requires
        failure.host_key == Some(key),
    ensures
        key.expected_fingerprint matches Some(value) ==> says(
            failure_json(level, failure),
            "expected_fingerprint"@,
            quoted(value),
        ),
        key.observed_fingerprint matches Some(value) ==> says(
            failure_json(level, failure),
            "observed_fingerprint"@,
            quoted(value),
        ),
        key.expected_algorithm matches Some(value) ==> says(
            failure_json(level, failure),
            "expected_algorithm"@,
            quoted(value),
        ),
        key.observed_algorithm matches Some(value) ==> says(
            failure_json(level, failure),
            "observed_algorithm"@,
            quoted(value),
        ),
{
    let base = seq![
        member(level, "status"@, quoted(failure.status)),
        member(level, "code"@, quoted(failure.code)),
        member(level, "message"@, quoted(failure.message)),
    ] + optional(level, "host_alias"@, failure.host_alias);
    let a = optional(level, "expected_fingerprint"@, key.expected_fingerprint);
    let b = optional(level, "observed_fingerprint"@, key.observed_fingerprint);
    let c = optional(level, "expected_algorithm"@, key.expected_algorithm);
    let d = optional(level, "observed_algorithm"@, key.observed_algorithm);
    let none = Seq::<Seq<char>>::empty();
    let whole = base + (a + b + c + d);
    if key.expected_fingerprint is Some {
        assert(whole =~= base + a + (b + c + d));
        lemma_says_optional(
            level,
            base,
            "expected_fingerprint"@,
            key.expected_fingerprint,
            b + c + d,
        );
    }
    if key.observed_fingerprint is Some {
        assert(whole =~= (base + a) + b + (c + d));
        lemma_says_optional(
            level,
            base + a,
            "observed_fingerprint"@,
            key.observed_fingerprint,
            c + d,
        );
    }
    if key.expected_algorithm is Some {
        assert(whole =~= (base + a + b) + c + d);
        lemma_says_optional(level, base + a + b, "expected_algorithm"@, key.expected_algorithm, d);
    }
    if key.observed_algorithm is Some {
        assert(whole =~= (base + a + b + c) + d + none);
        lemma_says_optional(
            level,
            base + a + b + c,
            "observed_algorithm"@,
            key.observed_algorithm,
            none,
        );
    }
}

/// An accepted host key is reported with its host, its fingerprint and its time.
pub proof fn accepted_host_keys_are_shown(level: nat, key: VerifiedModel)
    ensures
        says(verified_json(level, key), "alias"@, quoted(key.alias)),
        says(verified_json(level, key), "fingerprint"@, quoted(key.fingerprint)),
        says(verified_json(level, key), "algorithm"@, quoted(key.algorithm)),
        says(verified_json(level, key), "verified_at_unix"@, decimal(key.verified_at_unix as nat)),
{
    let whole = seq![
        member(level, "alias"@, quoted(key.alias)),
        member(level, "fingerprint"@, quoted(key.fingerprint)),
        member(level, "algorithm"@, quoted(key.algorithm)),
        member(level, "verified_at_unix"@, decimal(key.verified_at_unix as nat)),
    ];
    lemma_says_at(level, whole, 0, "alias"@, quoted(key.alias));
    lemma_says_at(level, whole, 1, "fingerprint"@, quoted(key.fingerprint));
    lemma_says_at(level, whole, 2, "algorithm"@, quoted(key.algorithm));
    lemma_says_at(level, whole, 3, "verified_at_unix"@, decimal(key.verified_at_unix as nat));
}

/// A command of several says which one it was, how it ended and what it printed.
pub proof fn commands_say_what_happened(level: nat, result: CommandModel)
    ensures
        says(command_json(level, result), "index"@, decimal(result.index as nat)),
        says(command_json(level, result), "status"@, quoted(result.status)),
        says(command_json(level, result), "stdout"@, quoted(result.stdout)),
        says(command_json(level, result), "stderr"@, quoted(result.stderr)),
        says(command_json(level, result), "output_truncated"@, truth(result.output_truncated)),
        result.exit_code matches Some(code) ==> says(
            command_json(level, result),
            "exit_code"@,
            signed(code as int),
        ),
        result.error_code matches Some(value) ==> says(
            command_json(level, result),
            "error_code"@,
            quoted(value),
        ),
        result.error_message matches Some(value) ==> says(
            command_json(level, result),
            "error_message"@,
            quoted(value),
        ),
{
    let base = seq![
        member(level, "index"@, decimal(result.index as nat)),
        member(level, "status"@, quoted(result.status)),
    ];
    let exit = exit_member(level, result.exit_code);
    let output = seq![
        member(level, "stdout"@, quoted(result.stdout)),
        member(level, "stderr"@, quoted(result.stderr)),
        member(level, "output_truncated"@, truth(result.output_truncated)),
    ];
    let code = optional(level, "error_code"@, result.error_code);
    let message = optional(level, "error_message"@, result.error_message);
    let whole = base + exit + output + code + message;
    let at = 2 + exit.len() as int;
    lemma_says_at(level, whole, 0, "index"@, decimal(result.index as nat));
    lemma_says_at(level, whole, 1, "status"@, quoted(result.status));
    lemma_says_at(level, whole, at, "stdout"@, quoted(result.stdout));
    lemma_says_at(level, whole, at + 1, "stderr"@, quoted(result.stderr));
    lemma_says_at(level, whole, at + 2, "output_truncated"@, truth(result.output_truncated));
    if result.exit_code is Some {
        lemma_says_at(level, whole, 2, "exit_code"@, signed(result.exit_code->0 as int));
    }
    if result.error_code is Some {
        lemma_says_optional(level, base + exit + output, "error_code"@, result.error_code, message);
    }
    if result.error_message is Some {
        let none = Seq::<Seq<char>>::empty();
        assert(whole =~= (base + exit + output + code) + message + none);
        lemma_says_optional(
            level,
            base + exit + output + code,
            "error_message"@,
            result.error_message,
            none,
        );
    }
}

/// The answer to several commands shows the result of each.
pub proof fn every_command_is_shown(level: nat, result: ManyModel, i: int)
    requires
        0 <= i < result.results.len(),
    ensures
        has_part(many_json(level, result), command_json(level + 2, result.results[i])),
        says(many_json(level, result), "status"@, quoted(result.status)),
        says(many_json(level, result), "alias"@, quoted(result.alias)),
{
    let items = Seq::new(
        result.results.len(),
        |i: int| command_json(level + 2, result.results[i]),
    );
    let base = seq![
        member(level, "status"@, quoted(result.status)),
        member(level, "alias"@, quoted(result.alias)),
        member(level, "results"@, list(level + 1, items)),
    ];
    let whole = base + optional(level, "host_fingerprint"@, result.host_fingerprint) + optional(
        level,
        "host_key_algorithm"@,
        result.host_key_algorithm,
    ) + optional(level, "auth_key_fingerprint"@, result.auth_key_fingerprint) + keys_member(
        level,
        result.verified_host_keys,
    );
    lemma_says_at(level, whole, 0, "status"@, quoted(result.status));
    lemma_says_at(level, whole, 1, "alias"@, quoted(result.alias));
    lemma_says_at(level, whole, 2, "results"@, list(level + 1, items));
    lists_show_their_items(level + 1, items, i);
    lemma_says_within(
        many_json(level, result),
        "results"@,
        list(level + 1, items),
        command_json(level + 2, result.results[i]),
    );
}

/// An identity of an agent is shown with its fingerprint, its algorithm and its comment.
pub proof fn agent_identities_are_shown(level: nat, key: AgentKeyModel)
    ensures
        says(agent_key_json(level, key), "fingerprint"@, quoted(key.fingerprint)),
        says(agent_key_json(level, key), "algorithm"@, quoted(key.algorithm)),
        says(agent_key_json(level, key), "comment"@, quoted(key.comment)),
        says(agent_key_json(level, key), "certificate"@, truth(key.certificate)),
        key.public_key matches Some(value) ==> says(
            agent_key_json(level, key),
            "public_key"@,
            quoted(value),
        ),
{
    let base = seq![
        member(level, "fingerprint"@, quoted(key.fingerprint)),
        member(level, "algorithm"@, quoted(key.algorithm)),
        member(level, "comment"@, quoted(key.comment)),
        member(level, "certificate"@, truth(key.certificate)),
    ];
    let none = Seq::<Seq<char>>::empty();
    let own = optional(level, "public_key"@, key.public_key);
    let whole = base + own;
    lemma_says_at(level, whole, 0, "fingerprint"@, quoted(key.fingerprint));
    lemma_says_at(level, whole, 1, "algorithm"@, quoted(key.algorithm));
    lemma_says_at(level, whole, 2, "comment"@, quoted(key.comment));
    lemma_says_at(level, whole, 3, "certificate"@, truth(key.certificate));
    if key.public_key is Some {
        assert(whole =~= base + own + none);
        lemma_says_optional(level, base, "public_key"@, key.public_key, none);
    }
}

/// A result shows every host key that was accepted on the way.
pub proof fn results_show_accepted_keys(level: nat, result: ResultModel, i: int)
    requires
        0 <= i < result.verified_host_keys.len(),
    ensures
        has_part(
            result_json(level, result),
            verified_json(level + 2, result.verified_host_keys[i]),
        ),
{
    let keys = result.verified_host_keys;
    let items = Seq::new(keys.len(), |i: int| verified_json(level + 2, keys[i]));
    let front = seq![
        member(level, "status"@, quoted(result.status)),
        member(level, "alias"@, quoted(result.alias)),
        member(level, "exit_code"@, signed(result.exit_code as int)),
        member(level, "stdout"@, quoted(result.stdout)),
        member(level, "stderr"@, quoted(result.stderr)),
        member(level, "output_truncated"@, truth(result.output_truncated)),
    ] + optional(level, "host_fingerprint"@, result.host_fingerprint) + optional(
        level,
        "host_key_algorithm"@,
        result.host_key_algorithm,
    ) + optional(level, "auth_key_fingerprint"@, result.auth_key_fingerprint);
    let whole = front + keys_member(level, keys);
    lemma_says_at(
        level,
        whole,
        front.len() as int,
        "verified_host_keys"@,
        list(level + 1, items),
    );
    lists_show_their_items(level + 1, items, i);
    lemma_says_within(
        result_json(level, result),
        "verified_host_keys"@,
        list(level + 1, items),
        items[i],
    );
}

} // verus!
