//! From a tool request to what has to be done, and from what came of it to the answer.
use vstd::prelude::*;

use crate::batch::BatchResult;
use crate::budget::batch_json;
use crate::execute::key_models;
use crate::failure::{failure, FailureModel, RemoteFailure};
use crate::id::{uuid_text, Id};
use crate::json::{
    has_part, lemma_says_at, lemma_says_optional, lemma_says_within, list, lists_show_their_items,
    member, object, optional, pad, quoted, says, truth, Lines,
};
use crate::listing::{
    agent_identities_json, capabilities_json, fido_identities_json, list_json, summaries,
    ability_members, bound_members, AgentIdentitiesResult, FidoIdentitiesResult, ListResult,
};
use crate::model::{models, HostProfile, ProfileModel};
use crate::remote::{OperationLimits, RemoteManyResult, RemoteResult};
use crate::report::{
    exit_member, failure_json, many_json, put_exit, result_json, write_failure, write_many,
    write_result,
};
use crate::secrets_app::{OperationStatus, Response, ResponseModel};
use crate::temporary_secrets::{status_models, FieldStatus, FieldStatusModel};
use crate::text::{decimal, same_text, texts};
use crate::tool::{
    commands_fault, concurrency, find_host_index, limited, limits, lookup_fault, owner_of,
    profile_fault, validate_commands, validate_profile, workers, BatchOptions, ToolRequest,
    MAX_BATCH_OUTPUT_BYTES, SCHEMA_VERSION,
};

verus! {

pub open spec fn field_json(level: nat, field: FieldStatusModel) -> Seq<char> {
    object(
        level,
        seq![
            member(level, "name"@, quoted(field.name)),
            member(level, "ready"@, truth(field.ready)),
        ],
    )
}

fn write_fields(fields: &Vec<FieldStatus>) -> (r: String)
    ensures
        r@ == list(
            1,
            Seq::new(fields@.len(), |i: int| field_json(2, status_models(fields@)[i])),
        ),
{
    let ghost written = Seq::new(
        fields@.len(),
        |i: int| field_json(2, status_models(fields@)[i]),
    );
    let ghost whole = Seq::new(written.len(), |i: int| pad(2) + written[i]);
    let mut lines = Lines::new(1);
    let mut i: usize = 0;
    while i < fields.len()
        invariant
            i <= fields@.len(),
            lines.inv(),
            lines.level == 1,
            written == Seq::new(fields@.len(), |i: int| field_json(2, status_models(fields@)[i])),
            whole == Seq::new(written.len(), |i: int| pad(2) + written[i]),
            lines@ == whole.take(i as int),
        decreases fields@.len() - i,
    {
        let mut inner = Lines::new(2);
        inner.put_text("name", fields[i].name.as_str());
        inner.put_truth("ready", fields[i].ready);
        assert(inner@ =~= seq![
            member(2, "name"@, quoted(status_models(fields@)[i as int].name)),
            member(2, "ready"@, truth(status_models(fields@)[i as int].ready)),
        ]);
        let item = inner.into_object();
        assert(item@ == written[i as int]);
        lines.item(item.as_str());
        assert(lines@ =~= whole.take(i + 1));
        i = i + 1;
    }
    assert(whole.take(i as int) =~= whole);
    assert(Seq::new(written.len(), |i: int| pad(1 + 1) + written[i]) =~= whole);
    lines.into_list()
}

pub open spec fn operation_json(level: nat, operation: OperationStatus) -> Seq<char> {
    object(
        level,
        seq![
            member(level, "id"@, quoted(uuid_text(operation.id.value))),
            member(level, "status"@, quoted(operation.status.name())),
        ] + exit_member(level, operation.exit_code),
    )
}

fn write_operation(level: usize, operation: &OperationStatus) -> (r: String)
    requires
        level < 900,
    ensures
        r@ == operation_json(level as nat, *operation),
{
    let ghost l = level as nat;
    let mut lines = Lines::new(level);
    lines.put_text("id", operation.id.text().as_str());
    lines.put_text("status", operation.status.word());
    assert(lines@ =~= seq![
        member(l, "id"@, quoted(uuid_text(operation.id.value))),
        member(l, "status"@, quoted(operation.status.name())),
    ]);
    put_exit(&mut lines, operation.exit_code);
    lines.into_object()
}

fn write_operations(operations: &Vec<OperationStatus>) -> (r: String)
    ensures
        r@ == list(1, Seq::new(operations@.len(), |i: int| operation_json(2, operations@[i]))),
{
    let ghost written = Seq::new(operations@.len(), |i: int| operation_json(2, operations@[i]));
    let ghost whole = Seq::new(written.len(), |i: int| pad(2) + written[i]);
    let mut lines = Lines::new(1);
    let mut i: usize = 0;
    while i < operations.len()
        invariant
            i <= operations@.len(),
            lines.inv(),
            lines.level == 1,
            written == Seq::new(operations@.len(), |i: int| operation_json(2, operations@[i])),
            whole == Seq::new(written.len(), |i: int| pad(2) + written[i]),
            lines@ == whole.take(i as int),
        decreases operations@.len() - i,
    {
        let item = write_operation(2, &operations[i]);
        assert(item@ == written[i as int]);
        lines.item(item.as_str());
        assert(lines@ =~= whole.take(i + 1));
        i = i + 1;
    }
    assert(whole.take(i as int) =~= whole);
    assert(Seq::new(written.len(), |i: int| pad(1 + 1) + written[i]) =~= whole);
    lines.into_list()
}

pub open spec fn id_member(key: Seq<char>, id: Option<Id>) -> Seq<Seq<char>> {
    match id {
        Some(id) => seq![member(0, key, quoted(uuid_text(id.value)))],
        None => Seq::empty(),
    }
}

/// The answer of the window that holds temporary secrets, as it is written.
pub open spec fn secrets_json(response: ResponseModel) -> Seq<char> {
    object(
        0,
        seq![
            member(0, "schema_version"@, decimal(response.schema_version as nat)),
            member(0, "status"@, quoted(response.status)),
            member(0, "session"@, quoted(uuid_text(response.session.value))),
        ] + optional(0, "code"@, response.code) + seq![
            member(
                0,
                "fields"@,
                list(
                    1,
                    Seq::new(response.fields.len(), |i: int| field_json(2, response.fields[i])),
                ),
            ),
            member(
                0,
                "operations"@,
                list(
                    1,
                    Seq::new(
                        response.operations.len(),
                        |i: int| operation_json(2, response.operations[i]),
                    ),
                ),
            ),
        ] + id_member("operation_id"@, response.operation_id),
    )
}

impl Response {
    pub fn json(&self) -> (r: String)
        ensures
            r@ == secrets_json(self@),
    {
        let ghost model = self@;
        let mut lines = Lines::new(0);
        lines.put_number("schema_version", self.schema_version as u64);
        lines.put_text("status", self.status.as_str());
        lines.put_text("session", self.session.text().as_str());
        assert(lines@ =~= seq![
            member(0, "schema_version"@, decimal(model.schema_version as nat)),
            member(0, "status"@, quoted(model.status)),
            member(0, "session"@, quoted(uuid_text(model.session.value))),
        ]);
        lines.put_optional("code", &self.code);
        let ghost before = lines@;
        lines.put("fields", write_fields(&self.fields).as_str());
        lines.put("operations", write_operations(&self.operations).as_str());
        proof {
            let fields = Seq::new(model.fields.len(), |i: int| field_json(2, model.fields[i]));
            let operations = Seq::new(
                model.operations.len(),
                |i: int| operation_json(2, model.operations[i]),
            );
            assert(fields =~= Seq::new(
                self.fields@.len(),
                |i: int| field_json(2, status_models(self.fields@)[i]),
            ));
            assert(lines@ =~= before + seq![
                member(0, "fields"@, list(1, fields)),
                member(0, "operations"@, list(1, operations)),
            ]);
        }
        let ghost before = lines@;
        if let Some(id) = self.operation_id {
            lines.put_text("operation_id", id.text().as_str());
        }
        assert(lines@ =~= before + id_member("operation_id"@, model.operation_id));
        lines.into_object()
    }
}

/// The answer to a tool request.
pub enum ToolResponse {
    TemporarySecrets(Response),
    Capabilities { version: String },
    AgentIdentities(AgentIdentitiesResult),
    FidoIdentities(FidoIdentitiesResult),
    List(ListResult),
    Remote(RemoteResult),
    RemoteMany(RemoteManyResult),
    Batch(BatchResult),
    Failure(RemoteFailure),
}

/// The headers that every list of the tool carries.
pub open spec fn is_ok_header(schema_version: u32, status: Seq<char>) -> bool {
    schema_version == SCHEMA_VERSION && status == "ok"@
}

impl ToolResponse {
    pub open spec fn inv(self) -> bool {
        match self {
            ToolResponse::AgentIdentities(result) => is_ok_header(
                result.schema_version,
                result.status@,
            ),
            ToolResponse::FidoIdentities(result) => is_ok_header(
                result.schema_version,
                result.status@,
            ),
            ToolResponse::List(result) => is_ok_header(result.schema_version, result.status@),
            _ => true,
        }
    }

    /// The answer reports a failure of the request itself. A failing command or host is no such
    /// failure.
    pub open spec fn fails(self) -> bool {
        match self {
            ToolResponse::Failure(_) => true,
            ToolResponse::TemporarySecrets(response) => response@.status == "error"@,
            _ => false,
        }
    }

    pub fn is_failure(&self) -> (r: bool)
        ensures
            r == self.fails(),
    {
        match self {
            ToolResponse::Failure(_) => true,
            ToolResponse::TemporarySecrets(response) => same_text(
                response.status.as_str(),
                "error",
            ),
            _ => false,
        }
    }

    pub open spec fn written(self) -> Seq<char> {
        match self {
            ToolResponse::TemporarySecrets(response) => secrets_json(response@),
            ToolResponse::Capabilities { version } => object(
                0,
                ability_members(version@) + bound_members(),
            ),
            ToolResponse::AgentIdentities(result) => agent_identities_json(
                key_models(result.identities@),
            ),
            ToolResponse::FidoIdentities(result) => fido_identities_json(
                result.helper_available,
                result.identities@,
            ),
            ToolResponse::List(result) => list_json(summaries(result.hosts@)),
            ToolResponse::Remote(result) => result_json(0, result@),
            ToolResponse::RemoteMany(result) => many_json(0, result@),
            ToolResponse::Batch(result) => batch_json(result@),
            ToolResponse::Failure(error) => failure_json(0, error@),
        }
    }

    /// The answer as it is written to the result file.
    pub fn json(&self) -> (r: String)
        requires
            self.inv(),
        ensures
            r@ == self.written(),
    {
        match self {
            ToolResponse::TemporarySecrets(response) => response.json(),
            ToolResponse::Capabilities { version } => capabilities_json(version.as_str()),
            ToolResponse::AgentIdentities(result) => result.json(),
            ToolResponse::FidoIdentities(result) => result.json(),
            ToolResponse::List(result) => result.json(),
            ToolResponse::Remote(result) => write_result(0, result),
            ToolResponse::RemoteMany(result) => write_many(0, result),
            ToolResponse::Batch(result) => result.json(),
            ToolResponse::Failure(error) => write_failure(0, error),
        }
    }
}

/// The exit code of a tool run: an unwritten answer goes before a failing one.
pub fn exit_code(failed: bool, written: bool) -> (r: i32)
    ensures
        r == if !written {
            2int
        } else if failed {
            1int
        } else {
            0int
        },
{
    if !written {
        2
    } else if failed {
        1
    } else {
        0
    }
}

/// What a request needs before the store is read.
#[derive(Debug, Clone, Copy, PartialEq, Eq, Structural)]
pub enum EarlyStep {
    Capabilities,
    AgentIdentities,
    FidoIdentities,
    OpenSecrets,
    CallSecrets,
    /// The store has to be read.
    Store,
}

pub open spec fn early(request: ToolRequest) -> EarlyStep {
    match request {
        ToolRequest::Capabilities => EarlyStep::Capabilities,
        ToolRequest::AgentIdentities => EarlyStep::AgentIdentities,
        ToolRequest::FidoIdentities => EarlyStep::FidoIdentities,
        ToolRequest::TemporarySecretsOpen { .. } => EarlyStep::OpenSecrets,
        ToolRequest::TemporarySecrets { .. } => EarlyStep::CallSecrets,
        _ => EarlyStep::Store,
    }
}

pub fn early_step(request: &ToolRequest) -> (r: EarlyStep)
    ensures
        r == early(*request),
{
    match request {
        ToolRequest::Capabilities => EarlyStep::Capabilities,
        ToolRequest::AgentIdentities => EarlyStep::AgentIdentities,
        ToolRequest::FidoIdentities => EarlyStep::FidoIdentities,
        ToolRequest::TemporarySecretsOpen { .. } => EarlyStep::OpenSecrets,
        ToolRequest::TemporarySecrets { .. } => EarlyStep::CallSecrets,
        _ => EarlyStep::Store,
    }
}

/// What to do with the stored hosts; a host is named by its position among them.
pub enum ToolStep {
    List { tags: Vec<String> },
    Probe { host: usize, limits: OperationLimits },
    Exec { host: usize, command: String, stdin: Option<String>, limits: OperationLimits },
    ExecMany { host: usize, commands: Vec<String>, concurrency: usize, limits: OperationLimits },
    BatchProbe { aliases: Vec<String>, options: BatchOptions },
    BatchExec { aliases: Vec<String>, command: String, options: BatchOptions },
}

/// Why no stored host may be used under this alias, if none may: it is not found, or not valid.
pub open spec fn host_fault(hosts: Seq<ProfileModel>, alias: Seq<char>) -> Option<FailureModel> {
    match lookup_fault(hosts, alias) {
        Some(fault) => Some(fault),
        None => profile_fault(hosts[owner_of(hosts, alias)]),
    }
}

/// A host that may be used under this alias.
pub fn usable_host(hosts: &[HostProfile], alias: &str) -> (r: Result<usize, RemoteFailure>)
    ensures
        match host_fault(models(hosts@), alias@) {
            Some(fault) => r matches Err(error) && error@ == fault,
            None => r matches Ok(at) && at < hosts@.len() && at == owner_of(
                models(hosts@),
                alias@,
            ),
        },
{
    match find_host_index(hosts, alias) {
        Err(error) => Err(error),
        Ok(at) => match validate_profile(&hosts[at]) {
            Err(error) => Err(error),
            Ok(()) => Ok(at),
        },
    }
}

/// Why a request cannot be carried out with these hosts, if it cannot.
pub open spec fn step_fault(request: ToolRequest, hosts: Seq<ProfileModel>) -> Option<
    FailureModel,
> {
    match request {
        ToolRequest::Probe { alias, .. } => host_fault(hosts, alias@),
        ToolRequest::Exec { alias, .. } => host_fault(hosts, alias@),
        ToolRequest::ExecMany { alias, commands, .. } => match commands_fault(texts(commands@)) {
            Some(fault) => Some(fault),
            None => host_fault(hosts, alias@),
        },
        _ => None,
    }
}

/// The step that a request calls for.
pub open spec fn is_step(request: ToolRequest, hosts: Seq<ProfileModel>, step: ToolStep) -> bool {
    match (request, step) {
        (ToolRequest::ListHosts { tags }, ToolStep::List { tags: wanted }) => wanted == tags,
        (ToolRequest::Probe { alias, timeouts }, ToolStep::Probe { host, limits }) => host
            == owner_of(hosts, alias@) && limits == limited(timeouts, None),
        (
            ToolRequest::Exec { alias, command, stdin, timeouts },
            ToolStep::Exec { host, command: run, stdin: input, limits },
        ) => host == owner_of(hosts, alias@) && run == command && input == stdin && limits
            == limited(timeouts, None),
        (
            ToolRequest::ExecMany { alias, commands, max_concurrency, timeouts, .. },
            ToolStep::ExecMany { host, commands: run, concurrency, limits },
        ) => host == owner_of(hosts, alias@) && run == commands && concurrency == workers(
            max_concurrency,
        ) && limits == (OperationLimits {
            output_bytes: Some(MAX_BATCH_OUTPUT_BYTES),
            ..limited(timeouts, None)
        }),
        (
            ToolRequest::BatchProbe { aliases, options },
            ToolStep::BatchProbe { aliases: named, options: asked },
        ) => named == aliases && asked == options,
        (
            ToolRequest::BatchExec { aliases, command, options, .. },
            ToolStep::BatchExec { aliases: named, command: run, options: asked },
        ) => named == aliases && run == command && asked == options,
        _ => false,
    }
}

/// What a request that needs the stored hosts comes to.
pub fn store_step(request: ToolRequest, hosts: &[HostProfile]) -> (r: Result<
    ToolStep,
    RemoteFailure,
>)
    requires
        early(request) == EarlyStep::Store,
    ensures
        match step_fault(request, models(hosts@)) {
            Some(fault) => r matches Err(error) && error@ == fault,
            None => r matches Ok(step) && is_step(request, models(hosts@), step),
        },
{
    match request {
        ToolRequest::ListHosts { tags } => Ok(ToolStep::List { tags }),
        ToolRequest::Probe { alias, timeouts } => match usable_host(hosts, alias.as_str()) {
            Err(error) => Err(error),
            Ok(host) => Ok(ToolStep::Probe { host, limits: limits(timeouts, None) }),
        },
        ToolRequest::Exec { alias, command, stdin, timeouts } => match usable_host(
            hosts,
            alias.as_str(),
        ) {
            Err(error) => Err(error),
            Ok(host) => Ok(
                ToolStep::Exec { host, command, stdin, limits: limits(timeouts, None) },
            ),
        },
        ToolRequest::ExecMany { alias, commands, stdin: _, max_concurrency, timeouts } => {
            if let Err(error) = validate_commands(&commands) {
                return Err(error);
            }
            match usable_host(hosts, alias.as_str()) {
                Err(error) => Err(error),
                Ok(host) => {
                    let mut limits = limits(timeouts, None);
                    limits.output_bytes = Some(MAX_BATCH_OUTPUT_BYTES);
                    Ok(
                        ToolStep::ExecMany {
                            host,
                            commands,
                            concurrency: concurrency(max_concurrency),
                            limits,
                        },
                    )
                },
            }
        },
        ToolRequest::BatchProbe { aliases, options } => Ok(
            ToolStep::BatchProbe { aliases, options },
        ),
        ToolRequest::BatchExec { aliases, command, stdin: _, options } => Ok(
            ToolStep::BatchExec { aliases, command, options },
        ),
        _ => vstd::pervasive::unreached(),
    }
}

/// The failures of what happens around a request.
#[derive(Debug, Clone, Copy, PartialEq, Eq, Structural)]
pub enum Trouble {
    RequestRead,
    RequestParse,
    StoreRead,
    StoreWrite,
}

impl Trouble {
    pub open spec fn said(self) -> Seq<char> {
        match self {
            Trouble::RequestRead => "REQUEST_READ_FAILED"@,
            Trouble::RequestParse => "REQUEST_INVALID"@,
            Trouble::StoreRead => "STORE_READ_FAILED"@,
            Trouble::StoreWrite => "STORE_WRITE_FAILED"@,
        }
    }

    pub fn failure(self, reason: &str) -> (r: RemoteFailure)
        ensures
            r@ == failure(self.said(), reason@),
    {
        match self {
            Trouble::RequestRead => RemoteFailure::new("REQUEST_READ_FAILED", reason),
            Trouble::RequestParse => RemoteFailure::new("REQUEST_INVALID", reason),
            Trouble::StoreRead => RemoteFailure::new("STORE_READ_FAILED", reason),
            Trouble::StoreWrite => RemoteFailure::new("STORE_WRITE_FAILED", reason),
        }
    }
}

/// The failure of a window for temporary secrets that could not be opened.
pub fn secrets_window_failure(code: &'static str) -> (r: RemoteFailure)
    ensures
        r@ == failure(
            code@,
            "Temporary secret window unavailable or invalid field names."@,
        ),
{
    RemoteFailure::new(code, "Temporary secret window unavailable or invalid field names.")
}

/// The failure of a session for temporary secrets that does not answer.
pub fn secrets_session_failure(code: &'static str) -> (r: RemoteFailure)
    ensures
        r@ == failure(
            code@,
            "Temporary session unavailable; open a new window if it was closed."@,
        ),
{
    RemoteFailure::new(code, "Temporary session unavailable; open a new window if it was closed.")
}

/// The answer of the window for temporary secrets shows which session answers, which fields are
/// ready, and how every operation stands.
pub proof fn secret_answers_show_the_state(response: ResponseModel, i: int, k: int)
    ensures
        says(secrets_json(response), "status"@, quoted(response.status)),
        says(secrets_json(response), "session"@, quoted(uuid_text(response.session.value))),
        response.code matches Some(code) ==> says(secrets_json(response), "code"@, quoted(code)),
        response.operation_id matches Some(id) ==> says(
            secrets_json(response),
            "operation_id"@,
            quoted(uuid_text(id.value)),
        ),
        0 <= i < response.fields.len() ==> has_part(
            secrets_json(response),
            field_json(2, response.fields[i]),
        ),
        0 <= k < response.operations.len() ==> has_part(
            secrets_json(response),
            operation_json(2, response.operations[k]),
        ),
{
    let base = seq![
        member(0, "schema_version"@, decimal(response.schema_version as nat)),
        member(0, "status"@, quoted(response.status)),
        member(0, "session"@, quoted(uuid_text(response.session.value))),
    ];
    let code = optional(0, "code"@, response.code);
    let fields = Seq::new(response.fields.len(), |i: int| field_json(2, response.fields[i]));
    let operations = Seq::new(
        response.operations.len(),
        |i: int| operation_json(2, response.operations[i]),
    );
    let lists = seq![
        member(0, "fields"@, list(1, fields)),
        member(0, "operations"@, list(1, operations)),
    ];
    let own = id_member("operation_id"@, response.operation_id);
    let whole = base + code + lists + own;
    let at = 3 + code.len() as int;
    lemma_says_at(0, whole, 1, "status"@, quoted(response.status));
    lemma_says_at(0, whole, 2, "session"@, quoted(uuid_text(response.session.value)));
    lemma_says_at(0, whole, at, "fields"@, list(1, fields));
    lemma_says_at(0, whole, at + 1, "operations"@, list(1, operations));
    if response.code is Some {
        assert(whole =~= base + code + (lists + own));
        lemma_says_optional(0, base, "code"@, response.code, lists + own);
    }
    if let Some(id) = response.operation_id {
        lemma_says_at(0, whole, at + 2, "operation_id"@, quoted(uuid_text(id.value)));
    }
    if 0 <= i < response.fields.len() {
        lists_show_their_items(1, fields, i);
        lemma_says_within(secrets_json(response), "fields"@, list(1, fields), fields[i]);
    }
    if 0 <= k < response.operations.len() {
        lists_show_their_items(1, operations, k);
        lemma_says_within(
            secrets_json(response),
            "operations"@,
            list(1, operations),
            operations[k],
        );
    }
}

/// A field is shown with its name and whether it is ready, an operation with its identity, its
/// state and its exit code.
pub proof fn fields_and_operations_are_shown(
    level: nat,
    field: FieldStatusModel,
    operation: OperationStatus,
)
    ensures
        says(field_json(level, field), "name"@, quoted(field.name)),
        says(field_json(level, field), "ready"@, truth(field.ready)),
        says(operation_json(level, operation), "id"@, quoted(uuid_text(operation.id.value))),
        says(operation_json(level, operation), "status"@, quoted(operation.status.name())),
        operation.exit_code matches Some(code) ==> says(
            operation_json(level, operation),
            "exit_code"@,
            crate::json::signed(code as int),
        ),
{
    let names = seq![
        member(level, "name"@, quoted(field.name)),
        member(level, "ready"@, truth(field.ready)),
    ];
    lemma_says_at(level, names, 0, "name"@, quoted(field.name));
    lemma_says_at(level, names, 1, "ready"@, truth(field.ready));
    let whole = seq![
        member(level, "id"@, quoted(uuid_text(operation.id.value))),
        member(level, "status"@, quoted(operation.status.name())),
    ] + exit_member(level, operation.exit_code);
    lemma_says_at(level, whole, 0, "id"@, quoted(uuid_text(operation.id.value)));
    lemma_says_at(level, whole, 1, "status"@, quoted(operation.status.name()));
    if let Some(code) = operation.exit_code {
        lemma_says_at(level, whole, 2, "exit_code"@, crate::json::signed(code as int));
    }
}

/// A command is run on the host of its alias, as it was given, with the input that came with it
/// and within the time that was asked for.
pub proof fn requests_are_carried_out_as_asked(
    request: ToolRequest,
    hosts: Seq<ProfileModel>,
    step: ToolStep,
)
    requires
        is_step(request, hosts, step),
    ensures
        request matches ToolRequest::Exec { alias, command, stdin, timeouts } ==> {
            &&& step matches ToolStep::Exec { host, command: run, stdin: input, limits }
            &&& host == owner_of(hosts, alias@)
            &&& run == command
            &&& input == stdin
            &&& limits.output_bytes is None
            &&& timeouts.command_timeout_ms is Some && timeouts.command_timeout_ms->0 <= 86_400_000
                ==> limits.command_timeout == timeouts.command_timeout_ms
            &&& timeouts.connect_timeout_ms is Some && timeouts.connect_timeout_ms->0 <= 86_400_000
                ==> limits.connect_timeout == timeouts.connect_timeout_ms
        },
        request matches ToolRequest::Probe { alias, timeouts } ==> {
            &&& step matches ToolStep::Probe { host, limits }
            &&& host == owner_of(hosts, alias@)
        },
        request matches ToolRequest::ExecMany { alias, commands, .. } ==> {
            &&& step matches ToolStep::ExecMany { host, commands: run, concurrency, limits }
            &&& host == owner_of(hosts, alias@)
            &&& run == commands
            &&& 1 <= concurrency
            &&& limits.output_bytes == Some(8_388_608usize)
        },
        request matches ToolRequest::ListHosts { tags } ==> step matches ToolStep::List {
            tags: wanted,
        } && wanted == tags,
        request matches ToolRequest::BatchProbe { aliases, options } ==> step matches
            ToolStep::BatchProbe { aliases: named, options: asked } && named == aliases && asked
            == options,
        request matches ToolRequest::BatchExec { aliases, command, options, .. } ==> step matches
            ToolStep::BatchExec { aliases: named, command: run, options: asked } && named == aliases
            && run == command && asked == options,
{
}

/// A request is refused exactly where its host cannot be found or is not valid, or its commands
/// are not; listing and batches are not refused here.
pub proof fn requests_are_refused_for_their_host(request: ToolRequest, hosts: Seq<ProfileModel>)
    ensures
        request matches ToolRequest::Exec { alias, .. } ==> (step_fault(request, hosts) is None
            <==> lookup_fault(hosts, alias@) is None && profile_fault(
            hosts[owner_of(hosts, alias@)],
        ) is None),
        request matches ToolRequest::Probe { alias, .. } ==> (step_fault(request, hosts) is None
            <==> lookup_fault(hosts, alias@) is None && profile_fault(
            hosts[owner_of(hosts, alias@)],
        ) is None),
        request matches ToolRequest::Exec { alias, .. } ==> lookup_fault(hosts, alias@) is Some
            ==> step_fault(request, hosts) == lookup_fault(hosts, alias@),
        request matches ToolRequest::ExecMany { alias, commands, .. } ==> (step_fault(
            request,
            hosts,
        ) is None <==> commands_fault(texts(commands@)) is None && lookup_fault(hosts, alias@)
            is None && profile_fault(hosts[owner_of(hosts, alias@)]) is None),
        request is ListHosts ==> step_fault(request, hosts) is None,
        request is BatchProbe ==> step_fault(request, hosts) is None,
        request is BatchExec ==> step_fault(request, hosts) is None,
{
}

/// The store is read for a request exactly where the request speaks of stored hosts.
pub proof fn stored_hosts_are_read_where_needed(request: ToolRequest)
    ensures
        early(request) == EarlyStep::Store <==> request is ListHosts || request is Probe
            || request is Exec || request is ExecMany || request is BatchProbe || request
            is BatchExec,
        request is Capabilities ==> early(request) == EarlyStep::Capabilities,
        request is AgentIdentities ==> early(request) == EarlyStep::AgentIdentities,
        request is FidoIdentities ==> early(request) == EarlyStep::FidoIdentities,
        request is TemporarySecretsOpen ==> early(request) == EarlyStep::OpenSecrets,
        request is TemporarySecrets ==> early(request) == EarlyStep::CallSecrets,
{
}

/// A run of the tool fails where the request itself failed, and not where a command or a host did.
pub proof fn failing_commands_are_no_failing_requests(response: ToolResponse)
    ensures
        response is Failure ==> response.fails(),
        response is Remote || response is RemoteMany || response is Batch || response is List
            ==> !response.fails(),
        response matches ToolResponse::TemporarySecrets(answer) ==> (response.fails()
            <==> answer.status@ == "error"@),
        response matches ToolResponse::Remote(result) ==> response.written() == result_json(
            0,
            result@,
        ),
        response matches ToolResponse::Failure(error) ==> response.written() == failure_json(
            0,
            error@,
        ),
{
}

} // verus!
