//! The window that holds temporary secrets: requests that reach it, programs that wait for
//! approval, and the one program that may run.
use vstd::prelude::*;

use crate::id::{is_random_id, Id};
use crate::secret::Secret;
use crate::temporary_secrets::{
    all_saved, emptied, env_values, environment_of, has_field, names_valid, readiness,
    status_models, with_names, EnvValue, Execution, ExecutionModel, FieldModel, FieldStatus,
    FieldStatusModel, Request, Vault, APPROVAL_MS, LAUNCH_MS, MAX_FIELDS, MAX_OPERATIONS,
};
use crate::text::{optional_text, same_text, texts};

verus! {

/// What became of an operation.
#[derive(Debug, Clone, Copy, PartialEq, Eq, Structural)]
pub enum OperationState {
    Pending,
    Running,
    Completed,
    Failed,
    Cancelled,
    TimedOut,
    SpawnFailed,
    WaitFailed,
    WorkerFailed,
    SecretMissing,
    Expired,
}

impl OperationState {
    pub open spec fn name(self) -> Seq<char> {
        match self {
            OperationState::Pending => "pending"@,
            OperationState::Running => "running"@,
            OperationState::Completed => "completed"@,
            OperationState::Failed => "failed"@,
            OperationState::Cancelled => "cancelled"@,
            OperationState::TimedOut => "timed_out"@,
            OperationState::SpawnFailed => "spawn_failed"@,
            OperationState::WaitFailed => "wait_failed"@,
            OperationState::WorkerFailed => "worker_failed"@,
            OperationState::SecretMissing => "secret_missing"@,
            OperationState::Expired => "expired"@,
        }
    }

    /// The word under which the state is reported and translated.
    pub fn word(self) -> (r: &'static str)
        ensures
            r@ == self.name(),
    {
        match self {
            Self::Pending => "pending",
            Self::Running => "running",
            Self::Completed => "completed",
            Self::Failed => "failed",
            Self::Cancelled => "cancelled",
            Self::TimedOut => "timed_out",
            Self::SpawnFailed => "spawn_failed",
            Self::WaitFailed => "wait_failed",
            Self::WorkerFailed => "worker_failed",
            Self::SecretMissing => "secret_missing",
            Self::Expired => "expired",
        }
    }

    /// The state that a word stands for, if it stands for one.
    pub fn parse(word: &str) -> (r: Option<Self>)
        ensures
            match r {
                Some(state) => state.name() == word@,
                None => forall|state: OperationState| #[trigger] state.name() != word@,
            },
    {
        if same_text(word, "pending") {
            Some(Self::Pending)
        } else if same_text(word, "running") {
            Some(Self::Running)
        } else if same_text(word, "completed") {
            Some(Self::Completed)
        } else if same_text(word, "failed") {
            Some(Self::Failed)
        } else if same_text(word, "cancelled") {
            Some(Self::Cancelled)
        } else if same_text(word, "timed_out") {
            Some(Self::TimedOut)
        } else if same_text(word, "spawn_failed") {
            Some(Self::SpawnFailed)
        } else if same_text(word, "wait_failed") {
            Some(Self::WaitFailed)
        } else if same_text(word, "worker_failed") {
            Some(Self::WorkerFailed)
        } else if same_text(word, "secret_missing") {
            Some(Self::SecretMissing)
        } else if same_text(word, "expired") {
            Some(Self::Expired)
        } else {
            None
        }
    }

    /// The operation waits or runs.
    pub open spec fn is_open(self) -> bool {
        self == OperationState::Pending || self == OperationState::Running
    }

    pub fn open(self) -> (r: bool)
        ensures
            r == self.is_open(),
    {
        self == OperationState::Pending || self == OperationState::Running
    }
}

/// What is told of an operation.
#[derive(Debug, Clone, Copy, PartialEq, Eq, Structural)]
pub struct OperationStatus {
    pub id: Id,
    pub status: OperationState,
    pub exit_code: Option<i32>,
}

pub struct Operation {
    pub result: OperationStatus,
    pub execution: Execution,
    pub requested: u64,
}

pub struct OperationModel {
    pub result: OperationStatus,
    pub execution: ExecutionModel,
    pub requested: u64,
}

impl View for Operation {
    type V = OperationModel;

    open spec fn view(&self) -> OperationModel {
        OperationModel {
            result: self.result,
            execution: self.execution@,
            requested: self.requested,
        }
    }
}

/// The answer to a request.
#[derive(Debug, PartialEq, Eq)]
pub struct Response {
    pub schema_version: u32,
    pub status: String,
    pub session: Id,
    pub code: Option<String>,
    pub fields: Vec<FieldStatus>,
    pub operations: Vec<OperationStatus>,
    pub operation_id: Option<Id>,
}

#[verifier::ext_equal]
pub struct ResponseModel {
    pub schema_version: u32,
    pub status: Seq<char>,
    pub session: Id,
    pub code: Option<Seq<char>>,
    pub fields: Seq<FieldStatusModel>,
    pub operations: Seq<OperationStatus>,
    pub operation_id: Option<Id>,
}

impl View for Response {
    type V = ResponseModel;

    open spec fn view(&self) -> ResponseModel {
        ResponseModel {
            schema_version: self.schema_version,
            status: self.status@,
            session: self.session,
            code: optional_text(self.code),
            fields: status_models(self.fields@),
            operations: self.operations@,
            operation_id: self.operation_id,
        }
    }
}

/// The answer to a request that failed.
pub open spec fn refusal(session: Id, code: Seq<char>) -> ResponseModel {
    ResponseModel {
        schema_version: 1,
        status: "error"@,
        session,
        code: Some(code),
        fields: Seq::empty(),
        operations: Seq::empty(),
        operation_id: None,
    }
}

impl Response {
    pub fn error(session: Id, code: &'static str) -> (r: Self)
        ensures
            r@ == refusal(session, code@),
    {
        let r = Response {
            schema_version: 1,
            status: "error".to_owned(),
            session,
            code: Some(code.to_owned()),
            fields: Vec::new(),
            operations: Vec::new(),
            operation_id: None,
        };
        assert(r@ =~= refusal(session, code@));
        r
    }
}

/// What was last done by hand: nothing of note, or a value was saved.
#[derive(Debug, Clone, Copy, PartialEq, Eq, Structural)]
pub enum InputStatus {
    Idle,
    Saved,
}

impl InputStatus {
    pub open spec fn name(self) -> Seq<char> {
        match self {
            InputStatus::Idle => "ok"@,
            InputStatus::Saved => "saved"@,
        }
    }

    pub fn word(self) -> (r: &'static str)
        ensures
            r@ == self.name(),
    {
        match self {
            Self::Idle => "ok",
            Self::Saved => "saved",
        }
    }
}

/// A hint below the entry line.
#[derive(Debug, Clone, Copy, PartialEq, Eq, Structural)]
pub enum Notice {
    InvalidField,
    InvalidValue,
}

pub struct SecretsApp {
    pub session: Id,
    pub vault: Vault,
    pub visible: bool,
    pub restore_requested: bool,
    pub operations: Vec<Operation>,
    /// The operation whose program runs.
    pub running: Option<Id>,
    pub new_name: String,
    pub notice: Option<Notice>,
    pub input_status: InputStatus,
}

#[verifier::ext_equal]
pub struct AppModel {
    pub session: Id,
    pub fields: Seq<FieldModel>,
    pub visible: bool,
    pub restore_requested: bool,
    pub operations: Seq<OperationModel>,
    pub running: Option<Id>,
    pub new_name: Seq<char>,
    pub notice: Option<Notice>,
    pub input_status: InputStatus,
}

impl View for SecretsApp {
    type V = AppModel;

    open spec fn view(&self) -> AppModel {
        AppModel {
            session: self.session,
            fields: self.vault.model(),
            visible: self.visible,
            restore_requested: self.restore_requested,
            operations: Seq::new(self.operations@.len(), |i: int| self.operations@[i]@),
            running: self.running,
            new_name: self.new_name@,
            notice: self.notice,
            input_status: self.input_status,
        }
    }
}

/// The operation with another state.
pub open spec fn in_state(operation: OperationModel, state: OperationState) -> OperationModel {
    OperationModel {
        result: OperationStatus { status: state, ..operation.result },
        ..operation
    }
}

/// The operations with every one that waits revoked.
pub open spec fn revoked(operations: Seq<OperationModel>) -> Seq<OperationModel> {
    Seq::new(
        operations.len(),
        |i: int|
            if operations[i].result.status == OperationState::Pending {
                in_state(operations[i], OperationState::Cancelled)
            } else {
                operations[i]
            },
    )
}

/// The operations with every one that waited too long expired.
pub open spec fn aged(operations: Seq<OperationModel>, now: u64) -> Seq<OperationModel> {
    Seq::new(
        operations.len(),
        |i: int|
            if operations[i].result.status == OperationState::Pending && now
                - operations[i].requested > APPROVAL_MS {
                in_state(operations[i], OperationState::Expired)
            } else {
                operations[i]
            },
    )
}

/// Position of the first operation that is over; the number of operations when none is.
pub open spec fn first_over(operations: Seq<OperationModel>) -> int
    decreases operations.len(),
{
    if operations.len() == 0 || !operations[0].result.status.is_open() {
        0
    } else {
        1 + first_over(operations.skip(1))
    }
}

/// The list is full of operations that wait or run.
pub open spec fn no_room(operations: Seq<OperationModel>) -> bool {
    operations.len() >= MAX_OPERATIONS && first_over(operations) == operations.len()
}

/// The operations once room was made for another one: where the list is full, the first one that
/// is over leaves.
pub open spec fn with_room(operations: Seq<OperationModel>) -> Seq<OperationModel> {
    if operations.len() >= MAX_OPERATIONS {
        operations.remove(first_over(operations))
    } else {
        operations
    }
}

/// A new operation, which waits.
pub open spec fn waiting(id: Id, execution: ExecutionModel, now: u64) -> OperationModel {
    OperationModel {
        result: OperationStatus { id, status: OperationState::Pending, exit_code: None },
        execution,
        requested: now,
    }
}

/// What is told of the operations.
pub open spec fn results_of(operations: Seq<OperationModel>) -> Seq<OperationStatus> {
    Seq::new(operations.len(), |i: int| operations[i].result)
}

impl AppModel {
    /// The state in words, for a request that went well.
    pub open spec fn report(self, operation_id: Option<Id>) -> ResponseModel {
        ResponseModel {
            schema_version: 1,
            status: self.input_status.name(),
            session: self.session,
            code: None,
            fields: readiness(self.fields),
            operations: results_of(self.operations),
            operation_id,
        }
    }

    /// Fields are in order, and there are not too many operations.
    pub open spec fn inv(self) -> bool {
        &&& crate::temporary_secrets::fields_ok(self.fields)
        &&& self.operations.len() <= MAX_OPERATIONS
    }

    /// What a request does, `id` being the identity that a new operation is given: the state after
    /// it, or the code of a refusal.
    pub open spec fn after(self, request: Request, id: Id, now: u64) -> Result<
        AppModel,
        Seq<char>,
    > {
        match request {
            Request::Status => Ok(self),
            Request::Show { temporary } => Ok(
                AppModel {
                    visible: self.visible || temporary,
                    restore_requested: true,
                    ..self
                },
            ),
            Request::Declare { fields } => {
                let wanted = with_names(self.fields, texts(fields@));
                if !names_valid(texts(fields@), false) {
                    Err("FIELD_NAMES_INVALID"@)
                } else if wanted.len() > MAX_FIELDS {
                    Err("FIELD_LIMIT"@)
                } else {
                    Ok(
                        AppModel {
                            fields: wanted,
                            visible: true,
                            restore_requested: true,
                            input_status: InputStatus::Idle,
                            ..self
                        },
                    )
                }
            },
            Request::Clear { fields } => {
                if !names_valid(texts(fields@), true) {
                    Err("FIELD_NAMES_INVALID"@)
                } else if exists|i: int|
                    0 <= i < fields@.len() && !has_field(
                        self.fields,
                        #[trigger] texts(fields@)[i],
                    ) {
                    Err("FIELD_NOT_FOUND"@)
                } else {
                    Ok(
                        AppModel {
                            fields: emptied(self.fields, texts(fields@)),
                            operations: revoked(self.operations),
                            input_status: InputStatus::Idle,
                            ..self
                        },
                    )
                }
            },
            Request::Execute(execution) => {
                if !execution@.valid() {
                    Err(execution@.fault())
                } else if !all_saved(self.fields, execution@) {
                    Err("SECRET_MISSING"@)
                } else if no_room(self.operations) {
                    Err("OPERATION_LIMIT"@)
                } else {
                    Ok(
                        AppModel {
                            operations: with_room(self.operations).push(
                                waiting(id, execution@, now),
                            ),
                            visible: true,
                            restore_requested: true,
                            input_status: InputStatus::Idle,
                            ..self
                        },
                    )
                }
            },
        }
    }

    /// The state after a refused request: what was last saved by hand is no longer reported.
    pub open spec fn refused(self, request: Request) -> AppModel {
        match request {
            Request::Status => self,
            Request::Show { .. } => self,
            _ => AppModel { input_status: InputStatus::Idle, ..self },
        }
    }
}

proof fn lemma_first_over(operations: Seq<OperationModel>, at: int)
    requires
        0 <= at <= operations.len(),
        forall|i: int| 0 <= i < at ==> (#[trigger] operations[i]).result.status.is_open(),
        at < operations.len() ==> !operations[at].result.status.is_open(),
    ensures
        first_over(operations) == at,
    decreases operations.len(),
{
    if operations.len() > 0 && at > 0 {
        let rest = operations.skip(1);
        assert(operations[0].result.status.is_open());
        assert forall|i: int| 0 <= i < at - 1 implies (
        #[trigger] rest[i]).result.status.is_open() by {
            assert(rest[i] == operations[i + 1]);
        }
        lemma_first_over(rest, at - 1);
    }
}

/// The operation that has the identity and waits; the first of several.
pub open spec fn waits_at(operations: Seq<OperationModel>, id: Id, at: int) -> bool {
    &&& 0 <= at < operations.len()
    &&& operations[at].result.id == id
    &&& operations[at].result.status == OperationState::Pending
    &&& forall|i: int|
        0 <= i < at ==> (#[trigger] operations[i]).result.id != id || operations[i].result.status
            != OperationState::Pending
}

pub open spec fn is_waiting(operations: Seq<OperationModel>, id: Id) -> bool {
    exists|at: int| waits_at(operations, id, at)
}

/// The first operation with the identity.
pub open spec fn stands_at(operations: Seq<OperationModel>, id: Id, at: int) -> bool {
    &&& 0 <= at < operations.len()
    &&& operations[at].result.id == id
    &&& forall|i: int| 0 <= i < at ==> (#[trigger] operations[i]).result.id != id
}

/// The operation with the identity of the result has that result, and nothing runs any more.
pub open spec fn finished(before: AppModel, result: OperationStatus, after: AppModel) -> bool {
    &&& after == (AppModel { operations: after.operations, running: None, ..before })
    &&& after.operations.len() == before.operations.len()
    &&& forall|at: int|
        stands_at(before.operations, result.id, at) ==> after.operations[at] == (OperationModel {
            result,
            ..before.operations[at]
        })
    &&& forall|i: int|
        0 <= i < before.operations.len() && !stands_at(before.operations, result.id, i)
            ==> (#[trigger] after.operations[i]) == before.operations[i]
}

/// A program to start, with its environment.
pub struct Launch {
    pub id: Id,
    pub execution: Execution,
    pub environment: Vec<EnvValue>,
}

impl SecretsApp {
    /// An empty session with a fresh identity.
    pub fn new() -> (r: Self)
        ensures
            r@.inv(),
            is_random_id(r.session.value),
            r@ == (AppModel {
                session: r.session,
                fields: Seq::empty(),
                visible: false,
                restore_requested: false,
                operations: Seq::empty(),
                running: None,
                new_name: Seq::empty(),
                notice: None,
                input_status: InputStatus::Idle,
            }),
    {
        let r = SecretsApp {
            session: Id::new_v4(),
            vault: Vault::new(),
            visible: false,
            restore_requested: false,
            operations: Vec::new(),
            running: None,
            new_name: String::new(),
            notice: None,
            input_status: InputStatus::Idle,
        };
        assert(r@.operations =~= Seq::empty());
        r
    }

    /// What is told of the session.
    pub fn response(&self) -> (r: Response)
        ensures
            r@ == self@.report(None),
    {
        let mut operations: Vec<OperationStatus> = Vec::new();
        let mut i: usize = 0;
        while i < self.operations.len()
            invariant
                i <= self.operations@.len(),
                operations@ == results_of(self@.operations).take(i as int),
            decreases self.operations@.len() - i,
        {
            operations.push(self.operations[i].result);
            assert(results_of(self@.operations).take(i + 1) =~= results_of(self@.operations).take(
                i as int,
            ).push(self.operations@[i as int].result));
            i = i + 1;
        }
        assert(operations@ =~= results_of(self@.operations));
        Response {
            schema_version: 1,
            status: self.input_status.word().to_owned(),
            session: self.session,
            code: None,
            fields: self.vault.status(),
            operations,
            operation_id: None,
        }
    }

    /// Revokes every operation that waits.
    pub fn cancel_pending(&mut self)
        ensures
            final(self)@ == (AppModel { operations: revoked(old(self)@.operations), ..old(self)@ }),
    {
        let ghost start = self@.operations;
        let mut i: usize = 0;
        while i < self.operations.len()
            invariant
                i <= self.operations@.len() == start.len(),
                self@ == (AppModel { operations: self@.operations, ..old(self)@ }),
                forall|j: int| 0 <= j < i ==> (#[trigger] self@.operations[j]) == revoked(start)[j],
                forall|j: int| i <= j < start.len() ==> (#[trigger] self@.operations[j]) == start[j],
            decreases self.operations@.len() - i,
        {
            let ghost before = self@.operations;
            if self.operations[i].result.status == OperationState::Pending {
                self.operations[i].result.status = OperationState::Cancelled;
            }
            assert(forall|j: int|
                0 <= j < start.len() && j != i ==> (#[trigger] self@.operations[j]) == before[j]);
            assert(before[i as int] == start[i as int]);
            assert(self@.operations[i as int] == revoked(start)[i as int]);
            i = i + 1;
        }
        assert(self@.operations =~= revoked(start));
    }

    /// Lets operations expire that waited for too long.
    pub fn expire(&mut self, now: u64)
        ensures
            final(self)@ == (AppModel { operations: aged(old(self)@.operations, now), ..old(self)@ }),
    {
        let ghost start = self@.operations;
        let mut i: usize = 0;
        while i < self.operations.len()
            invariant
                i <= self.operations@.len() == start.len(),
                self@ == (AppModel { operations: self@.operations, ..old(self)@ }),
                forall|j: int|
                    0 <= j < i ==> (#[trigger] self@.operations[j]) == aged(start, now)[j],
                forall|j: int| i <= j < start.len() ==> (#[trigger] self@.operations[j]) == start[j],
            decreases self.operations@.len() - i,
        {
            let ghost before = self@.operations;
            let requested: u64 = self.operations[i].requested;
            if self.operations[i].result.status == OperationState::Pending && now >= requested && now
                - requested > APPROVAL_MS {
                self.operations[i].result.status = OperationState::Expired;
            }
            assert(forall|j: int|
                0 <= j < start.len() && j != i ==> (#[trigger] self@.operations[j]) == before[j]);
            assert(before[i as int] == start[i as int]);
            assert(self@.operations[i as int] == aged(start, now)[i as int]);
            i = i + 1;
        }
        assert(self@.operations =~= aged(start, now));
    }

    /// Handles a request. An operation is only noted here: nothing starts without an approval.
    pub fn handle(&mut self, request: Request, now: u64) -> (r: Response)
        requires
            old(self)@.inv(),
        ensures
            final(self)@.inv(),
            exists|id: Id| #[trigger]
                handled(old(self)@, request, id, now, final(self)@, r@),
            r.operation_id matches Some(id) ==> is_random_id(id.value),
            final(self)@.running == old(self)@.running,
    {
        let ghost start = self@;
        let ghost asked = request;
        match request {
            Request::Status => {
                let response = self.response();
                assert(handled(start, asked, self.session, now, self@, response@));
                response
            },
            Request::Show { temporary } => {
                if temporary {
                    self.visible = true;
                }
                self.restore_requested = true;
                let response = self.response();
                assert(handled(start, asked, self.session, now, self@, response@));
                response
            },
            Request::Declare { fields } => {
                self.input_status = InputStatus::Idle;
                match self.vault.request(&fields) {
                    Ok(()) => {
                        self.visible = true;
                        self.restore_requested = true;
                    },
                    Err(code) => {
                        let response = Response::error(self.session, code);
                        assert(handled(start, asked, self.session, now, self@, response@));
                        return response;
                    },
                }
                let response = self.response();
                assert(handled(start, asked, self.session, now, self@, response@));
                response
            },
            Request::Clear { fields } => {
                self.input_status = InputStatus::Idle;
                match self.vault.clear(&fields) {
                    Ok(()) => self.cancel_pending(),
                    Err(code) => {
                        let response = Response::error(self.session, code);
                        assert(handled(start, asked, self.session, now, self@, response@));
                        return response;
                    },
                }
                let response = self.response();
                assert(handled(start, asked, self.session, now, self@, response@));
                response
            },
            Request::Execute(execution) => {
                self.input_status = InputStatus::Idle;
                if let Err(code) = self.vault.check(&execution) {
                    let response = Response::error(self.session, code);
                    assert(handled(start, asked, self.session, now, self@, response@));
                    return response;
                }
                if self.operations.len() >= MAX_OPERATIONS {
                    match self.find_over() {
                        Some(at) => {
                            self.operations.remove(at);
                            assert(self@.operations =~= with_room(start.operations));
                        },
                        None => {
                            let response = Response::error(self.session, "OPERATION_LIMIT");
                            assert(handled(start, asked, self.session, now, self@, response@));
                            return response;
                        },
                    }
                }
                let id = Id::new_v4();
                self.visible = true;
                self.restore_requested = true;
                let ghost noted = execution@;
                self.operations.push(
                    Operation {
                        result: OperationStatus {
                            id,
                            status: OperationState::Pending,
                            exit_code: None,
                        },
                        execution,
                        requested: now,
                    },
                );
                proof {
                    assert(self@.operations =~= with_room(start.operations).push(
                        waiting(id, noted, now),
                    ));
                }
                let mut response = self.response();
                response.operation_id = Some(id);
                assert(handled(start, asked, id, now, self@, response@));
                response
            },
        }
    }

    fn find_over(&self) -> (r: Option<usize>)
        ensures
            match r {
                Some(at) => at < self.operations@.len() && at == first_over(self@.operations),
                None => first_over(self@.operations) == self.operations@.len(),
            },
    {
        let mut i: usize = 0;
        while i < self.operations.len()
            invariant
                i <= self.operations@.len(),
                forall|j: int|
                    0 <= j < i ==> (#[trigger] self@.operations[j]).result.status.is_open(),
            decreases self.operations@.len() - i,
        {
            if !self.operations[i].result.status.open() {
                proof {
                    lemma_first_over(self@.operations, i as int);
                }
                return Some(i);
            }
            i = i + 1;
        }
        proof {
            lemma_first_over(self@.operations, i as int);
        }
        None
    }

    /// Notes what was done by hand; whatever waits for approval is revoked.
    pub fn record_input_status(&mut self, status: InputStatus)
        ensures
            final(self)@ == (AppModel {
                operations: revoked(old(self)@.operations),
                input_status: status,
                ..old(self)@
            }),
    {
        self.input_status = status;
        self.cancel_pending();
    }

    /// Saves what was typed into a field.
    pub fn save_field(&mut self, index: usize) -> (r: Result<(), &'static str>)
        requires
            old(self)@.inv(),
        ensures
            final(self)@.inv(),
            ({
                let before = old(self)@;
                let after = final(self)@;
                if index >= before.fields.len() {
                    (r matches Err(code) && code@ == "FIELD_NOT_FOUND"@) && after == before
                } else if !crate::temporary_secrets::is_secret_value(
                    before.fields[index as int].draft,
                ) {
                    (r matches Err(code) && code@ == "SECRET_VALUE_INVALID"@) && after == (
                    AppModel { notice: Some(Notice::InvalidValue), ..before })
                } else {
                    r is Ok && after == (AppModel {
                        fields: before.fields.update(
                            index as int,
                            FieldModel {
                                name: before.fields[index as int].name,
                                draft: Seq::empty(),
                                value: Some(before.fields[index as int].draft),
                            },
                        ),
                        operations: revoked(before.operations),
                        notice: None,
                        input_status: InputStatus::Saved,
                        ..before
                    })
                }
            }),
    {
        if index >= self.vault.fields.len() {
            return Err("FIELD_NOT_FOUND");
        }
        let ghost start = self@.fields;
        let outcome = self.vault.fields[index].save();
        proof {
            assert forall|i: int| 0 <= i < start.len() && i != index implies (
            #[trigger] self@.fields[i]) == start[i] by {}
        }
        match outcome {
            Ok(()) => {
                proof {
                    let saved = FieldModel {
                        name: start[index as int].name,
                        draft: Seq::empty(),
                        value: Some(start[index as int].draft),
                    };
                    assert(self@.fields =~= start.update(index as int, saved));
                    lemma_update_ok(start, index as int, saved);
                }
                self.notice = None;
                self.record_input_status(InputStatus::Saved);
                Ok(())
            },
            Err(code) => {
                assert(self@.fields =~= start);
                self.notice = Some(Notice::InvalidValue);
                Err(code)
            },
        }
    }

    /// Something was typed into a field: the draft changes, and approvals are revoked.
    pub fn edit_field(&mut self, index: usize, draft: Secret)
        requires
            old(self)@.inv(),
            index < old(self)@.fields.len(),
        ensures
            final(self)@.inv(),
            final(self)@ == (AppModel {
                fields: old(self)@.fields.update(
                    index as int,
                    FieldModel { draft: draft@, ..old(self)@.fields[index as int] },
                ),
                operations: revoked(old(self)@.operations),
                input_status: InputStatus::Idle,
                ..old(self)@
            }),
    {
        let ghost start = self@.fields;
        let ghost edited = FieldModel { draft: draft@, ..start[index as int] };
        self.vault.fields[index].draft = draft;
        proof {
            assert(self@.fields =~= start.update(index as int, edited));
            lemma_update_ok(start, index as int, edited);
        }
        self.record_input_status(InputStatus::Idle);
    }

    /// Empties a field by hand.
    pub fn clear_field(&mut self, index: usize)
        requires
            old(self)@.inv(),
            index < old(self)@.fields.len(),
        ensures
            final(self)@.inv(),
            final(self)@ == (AppModel {
                fields: old(self)@.fields.update(
                    index as int,
                    FieldModel {
                        name: old(self)@.fields[index as int].name,
                        draft: Seq::empty(),
                        value: None,
                    },
                ),
                operations: revoked(old(self)@.operations),
                input_status: InputStatus::Idle,
                ..old(self)@
            }),
    {
        let ghost start = self@.fields;
        let ghost blank = FieldModel {
            name: start[index as int].name,
            draft: Seq::empty(),
            value: None,
        };
        self.vault.fields[index].clear();
        proof {
            assert(self@.fields =~= start.update(index as int, blank));
            lemma_update_ok(start, index as int, blank);
        }
        self.record_input_status(InputStatus::Idle);
    }

    /// Adds the field whose name was typed.
    pub fn add_field(&mut self)
        requires
            old(self)@.inv(),
        ensures
            final(self)@.inv(),
            ({
                let before = old(self)@;
                let names = seq![before.new_name];
                let wanted = with_names(before.fields, names);
                if names_valid(names, false) && wanted.len() <= MAX_FIELDS {
                    final(self)@ == (AppModel {
                        fields: wanted,
                        new_name: Seq::empty(),
                        notice: None,
                        input_status: InputStatus::Idle,
                        ..before
                    })
                } else {
                    final(self)@ == (AppModel { notice: Some(Notice::InvalidField), ..before })
                }
            }),
    {
        let mut names: Vec<String> = Vec::new();
        names.push(self.new_name.clone());
        assert(texts(names@) =~= seq![self.new_name@]);
        match self.vault.request(&names) {
            Ok(()) => {
                self.new_name = String::new();
                self.notice = None;
                self.input_status = InputStatus::Idle;
            },
            Err(_) => {
                self.notice = Some(Notice::InvalidField);
            },
        }
    }

    /// Empties every field by hand.
    pub fn clear_all(&mut self)
        requires
            old(self)@.inv(),
        ensures
            final(self)@.inv(),
            final(self)@ == (AppModel {
                fields: emptied(old(self)@.fields, Seq::empty()),
                operations: revoked(old(self)@.operations),
                input_status: InputStatus::Idle,
                ..old(self)@
            }),
    {
        let names: Vec<String> = Vec::new();
        assert(texts(names@) =~= Seq::empty());
        let _ = self.vault.clear(&names);
        self.input_status = InputStatus::Idle;
        self.cancel_pending();
    }

    /// The user refuses an operation.
    pub fn reject(&mut self, id: Id)
        requires
            old(self)@.inv(),
        ensures
            final(self)@.inv(),
            if is_waiting(old(self)@.operations, id) {
                exists|at: int| #[trigger]
                    waits_at(old(self)@.operations, id, at) && final(self)@ == (AppModel {
                        operations: old(self)@.operations.update(
                            at,
                            in_state(old(self)@.operations[at], OperationState::Cancelled),
                        ),
                        ..old(self)@
                    })
            } else {
                final(self)@ == old(self)@
            },
    {
        let ghost start = self@.operations;
        if let Some(at) = self.find_waiting(id) {
            self.operations[at].result.status = OperationState::Cancelled;
            assert(self@.operations =~= start.update(
                at as int,
                in_state(start[at as int], OperationState::Cancelled),
            ));
        }
    }

    fn find_waiting(&self, id: Id) -> (r: Option<usize>)
        ensures
            match r {
                Some(at) => waits_at(self@.operations, id, at as int),
                None => !is_waiting(self@.operations, id),
            },
    {
        let mut i: usize = 0;
        while i < self.operations.len()
            invariant
                i <= self.operations@.len(),
                forall|j: int|
                    0 <= j < i ==> (#[trigger] self@.operations[j]).result.id != id
                        || self@.operations[j].result.status != OperationState::Pending,
            decreases self.operations@.len() - i,
        {
            if self.operations[i].result.id == id && self.operations[i].result.status
                == OperationState::Pending {
                return Some(i);
            }
            i = i + 1;
        }
        None
    }

    /// The user approves an operation. Its program starts only if it still waits, nothing else
    /// runs, and every value that it needs is there at this moment.
    pub fn approve(&mut self, id: Id) -> (r: Option<Launch>)
        requires
            old(self)@.inv(),
        ensures
            final(self)@.inv(),
            approved(old(self)@, id, final(self)@, r),
    {
        if self.running.is_some() {
            return None;
        }
        let at = match self.find_waiting(id) {
            Some(at) => at,
            None => {
                return None;
            },
        };
        let ghost start = self@.operations;
        let environment = match self.vault.environment(&self.operations[at].execution) {
            Ok(environment) => environment,
            Err(_) => {
                self.operations[at].result.status = OperationState::SecretMissing;
                proof {
                    assert(self@.operations =~= start.update(
                        at as int,
                        in_state(start[at as int], OperationState::SecretMissing),
                    ));
                    assert(waits_at(start, id, at as int));
                }
                return None;
            },
        };
        let execution = self.operations[at].execution.copy();
        self.operations[at].result.status = OperationState::Running;
        self.running = Some(id);
        proof {
            assert(self@.operations =~= start.update(
                at as int,
                in_state(start[at as int], OperationState::Running),
            ));
            assert(waits_at(start, id, at as int));
        }
        Some(Launch { id, execution, environment })
    }

    /// The program that ran is over, or its worker was lost.
    pub fn finish(&mut self, result: OperationStatus)
        requires
            old(self)@.inv(),
        ensures
            final(self)@.inv(),
            finished(old(self)@, result, final(self)@),
    {
        let ghost start = self@.operations;
        self.running = None;
        let mut i: usize = 0;
        while i < self.operations.len()
            invariant
                i <= self.operations@.len(),
                start == self@.operations,
                self@ == (AppModel { running: None, ..old(self)@ }),
                old(self)@.inv(),
                forall|j: int| 0 <= j < i ==> (#[trigger] start[j]).result.id != result.id,
            decreases self.operations@.len() - i,
        {
            if self.operations[i].result.id == result.id {
                self.operations[i].result = result;
                assert(self@.operations =~= start.update(
                    i as int,
                    OperationModel { result, ..start[i as int] },
                ));
                return;
            }
            i = i + 1;
        }
    }

    /// The worker of the running program disappeared without a result.
    pub fn worker_lost(&mut self)
        requires
            old(self)@.inv(),
        ensures
            final(self)@.inv(),
            match old(self)@.running {
                Some(id) => finished(
                    old(self)@,
                    OperationStatus { id, status: OperationState::WorkerFailed, exit_code: None },
                    final(self)@,
                ),
                None => final(self)@ == old(self)@,
            },
    {
        if let Some(id) = self.running {
            self.finish(
                OperationStatus { id, status: OperationState::WorkerFailed, exit_code: None },
            );
        }
    }

    /// Whether the window asked to be brought to the front; the wish is then granted.
    pub fn take_restore_request(&mut self) -> (r: bool)
        ensures
            r == old(self)@.restore_requested,
            final(self)@ == (AppModel { restore_requested: false, ..old(self)@ }),
    {
        let wanted = self.restore_requested;
        self.restore_requested = false;
        wanted
    }

    /// Whether the window has to be drawn again soon: a program runs, or something waits.
    pub fn needs_refresh(&self) -> (r: bool)
        ensures
            r == (self@.running is Some || exists|i: int|
                0 <= i < self@.operations.len() && (#[trigger] self@.operations[i]).result.status
                    == OperationState::Pending),
    {
        if self.running.is_some() {
            return true;
        }
        let mut i: usize = 0;
        while i < self.operations.len()
            invariant
                i <= self.operations@.len(),
                forall|j: int|
                    0 <= j < i ==> (#[trigger] self@.operations[j]).result.status
                        != OperationState::Pending,
            decreases self.operations@.len() - i,
        {
            if self.operations[i].result.status == OperationState::Pending {
                assert(self@.operations[i as int].result.status == OperationState::Pending);
                return true;
            }
            i = i + 1;
        }
        false
    }
}

proof fn lemma_update_ok(fields: Seq<FieldModel>, at: int, field: FieldModel)
    requires
        crate::temporary_secrets::fields_ok(fields),
        0 <= at < fields.len(),
        field.name == fields[at].name,
    ensures
        crate::temporary_secrets::fields_ok(fields.update(at, field)),
{
    let after = fields.update(at, field);
    assert forall|i: int, j: int| 0 <= i < j < after.len() implies (#[trigger] after[i]).name != (
    #[trigger] after[j]).name by {
        assert(fields[i].name != fields[j].name);
    }
    assert forall|i: int| 0 <= i < after.len() implies crate::temporary_secrets::is_field_name(
        (#[trigger] after[i]).name,
    ) by {
        assert(crate::temporary_secrets::is_field_name(fields[i].name));
    }
}

/// A request was handled: the state and the answer are those that it calls for.
pub open spec fn handled(
    before: AppModel,
    request: Request,
    id: Id,
    now: u64,
    after: AppModel,
    answer: ResponseModel,
) -> bool {
    match before.after(request, id, now) {
        Ok(state) => after == state && answer == state.report(
            if request is Execute {
                Some(id)
            } else {
                None
            },
        ),
        Err(code) => after == before.refused(request) && answer == refusal(before.session, code),
    }
}

/// What an approval comes to.
pub open spec fn approved(
    before: AppModel,
    id: Id,
    after: AppModel,
    launch: Option<Launch>,
) -> bool {
    if before.running is Some || !is_waiting(before.operations, id) {
        launch is None && after == before
    } else {
        exists|at: int| #[trigger]
            waits_at(before.operations, id, at) && {
                let operation = before.operations[at];
                if operation.execution.valid() && all_saved(before.fields, operation.execution) {
                    &&& launch matches Some(start)
                    &&& start.id == id
                    &&& start.execution@ == operation.execution
                    &&& env_values(start.environment@) == environment_of(
                        before.fields,
                        operation.execution,
                    )
                    &&& after == (AppModel {
                        operations: before.operations.update(
                            at,
                            in_state(operation, OperationState::Running),
                        ),
                        running: Some(id),
                        ..before
                    })
                } else {
                    &&& launch is None
                    &&& after == (AppModel {
                        operations: before.operations.update(
                            at,
                            in_state(operation, OperationState::SecretMissing),
                        ),
                        ..before
                    })
                }
            }
    }
}

/// A program starts only through an approval of an operation that waited, and only while no other
/// program runs.
pub proof fn nothing_starts_without_an_approval(
    before: AppModel,
    id: Id,
    after: AppModel,
    launch: Option<Launch>,
)
    requires
        approved(before, id, after, launch),
        launch is Some,
    ensures
        before.running is None,
        is_waiting(before.operations, id),
        after.running == Some(id),
{
}

/// Whatever a request is, it starts no program and ends none.
pub proof fn requests_do_not_run_programs(
    before: AppModel,
    request: Request,
    id: Id,
    now: u64,
    after: AppModel,
    answer: ResponseModel,
)
    requires
        handled(before, request, id, now, after, answer),
    ensures
        after.running == before.running,
{
}

/// After a clearing that went well nothing waits for approval any more.
pub proof fn clearing_revokes_approvals(
    before: AppModel,
    fields: Vec<String>,
    id: Id,
    now: u64,
    other: Id,
)
    requires
        before.after(Request::Clear { fields }, id, now) is Ok,
    ensures
        !is_waiting(before.after(Request::Clear { fields }, id, now)->Ok_0.operations, other),
{
}

/// The number of operations stays bounded whatever is asked.
pub proof fn operations_stay_bounded(before: AppModel, request: Request, id: Id, now: u64)
    requires
        before.inv(),
        before.after(request, id, now) is Ok,
    ensures
        before.after(request, id, now)->Ok_0.operations.len() <= MAX_OPERATIONS,
{
    if request is Execute {
        lemma_first_over_range(before.operations);
    }
}

proof fn lemma_first_over_range(operations: Seq<OperationModel>)
    ensures
        0 <= first_over(operations) <= operations.len(),
    decreases operations.len(),
{
    if operations.len() > 0 {
        lemma_first_over_range(operations.skip(1));
    }
}

/// Two states that differ in nothing but the texts that were typed and saved.
pub open spec fn same_but_for_values(a: AppModel, b: AppModel) -> bool {
    &&& a == (AppModel { fields: a.fields, ..b })
    &&& readiness(a.fields) == readiness(b.fields)
}

/// What is answered does not depend on the values: sessions that differ only in them give the
/// same answer to every request, and still differ only in them afterwards.
pub proof fn answers_do_not_depend_on_values(
    a: AppModel,
    b: AppModel,
    request: Request,
    id: Id,
    now: u64,
)
    requires
        same_but_for_values(a, b),
    ensures
        match (a.after(request, id, now), b.after(request, id, now)) {
            (Ok(x), Ok(y)) => x.report(None) == y.report(None) && same_but_for_values(x, y),
            (Err(x), Err(y)) => x == y,
            _ => false,
        },
{
    lemma_same_names(a.fields, b.fields);
    match request {
        Request::Declare { fields } => lemma_same_with_names(a.fields, b.fields, texts(fields@)),
        Request::Clear { fields } => {
            let names = texts(fields@);
            assert forall|i: int| 0 <= i < fields@.len() implies has_field(
                a.fields,
                #[trigger] names[i],
            ) == has_field(b.fields, names[i]) by {
                lemma_same_has_field(a.fields, b.fields, names[i]);
            }
            assert(readiness(emptied(a.fields, names)) =~= readiness(emptied(b.fields, names)));
        },
        Request::Execute(execution) => {
            assert forall|i: int| 0 <= i < execution@.env.len() implies (
            crate::temporary_secrets::value_of(a.fields, (#[trigger] execution@.env[i]).1) is Some)
                == (crate::temporary_secrets::value_of(b.fields, execution@.env[i].1) is Some) by {
                lemma_same_value_of(a.fields, b.fields, execution@.env[i].1);
            }
        },
        _ => {},
    }
}

proof fn lemma_same_names(a: Seq<FieldModel>, b: Seq<FieldModel>)
    requires
        readiness(a) == readiness(b),
    ensures
        a.len() == b.len(),
        forall|i: int|
            0 <= i < a.len() ==> (#[trigger] a[i]).name == b[i].name && (a[i].value is Some) == (
            b[i].value is Some),
{
    assert(readiness(a).len() == a.len());
    assert(readiness(b).len() == b.len());
    assert forall|i: int| 0 <= i < a.len() implies (#[trigger] a[i]).name == b[i].name && (
    a[i].value is Some) == (b[i].value is Some) by {
        assert(readiness(a)[i].name == a[i].name && readiness(a)[i].ready == (a[i].value is Some));
        assert(readiness(b)[i].name == b[i].name && readiness(b)[i].ready == (b[i].value is Some));
    }
}

proof fn lemma_same_has_field(a: Seq<FieldModel>, b: Seq<FieldModel>, name: Seq<char>)
    requires
        readiness(a) == readiness(b),
    ensures
        has_field(a, name) == has_field(b, name),
{
    lemma_same_names(a, b);
    if has_field(a, name) {
        let k = choose|k: int| 0 <= k < a.len() && (#[trigger] a[k]).name == name;
        assert(b[k].name == name);
    }
    if has_field(b, name) {
        let k = choose|k: int| 0 <= k < b.len() && (#[trigger] b[k]).name == name;
        assert(a[k].name == name);
    }
}

proof fn lemma_same_with_names(a: Seq<FieldModel>, b: Seq<FieldModel>, names: Seq<Seq<char>>)
    requires
        readiness(a) == readiness(b),
    ensures
        readiness(with_names(a, names)) == readiness(with_names(b, names)),
        with_names(a, names).len() == with_names(b, names).len(),
    decreases names.len(),
{
    lemma_same_names(a, b);
    if names.len() > 0 {
        let fewer = names.drop_last();
        lemma_same_with_names(a, b, fewer);
        let x = with_names(a, fewer);
        let y = with_names(b, fewer);
        lemma_same_names(x, y);
        lemma_same_has_field(x, y, names.last());
        assert(readiness(with_names(a, names)) =~= readiness(with_names(b, names)));
    }
}

proof fn lemma_same_value_of(a: Seq<FieldModel>, b: Seq<FieldModel>, name: Seq<char>)
    requires
        readiness(a) == readiness(b),
    ensures
        (crate::temporary_secrets::value_of(a, name) is Some) == (
        crate::temporary_secrets::value_of(b, name) is Some),
    decreases a.len(),
{
    lemma_same_names(a, b);
    if a.len() > 0 && a[0].name != name {
        assert(readiness(a.skip(1)) =~= readiness(b.skip(1))) by {
            assert forall|i: int| 0 <= i < a.len() - 1 implies readiness(a.skip(1))[i] == readiness(
                b.skip(1),
            )[i] by {
                assert(readiness(a)[i + 1] == readiness(b)[i + 1]);
            }
        }
        lemma_same_value_of(a.skip(1), b.skip(1), name);
    }
}

/// What a running program looks like from outside.
#[derive(Debug, Clone, Copy, PartialEq, Eq, Structural)]
pub enum ChildPoll {
    Running,
    Exited { success: bool, code: Option<i32> },
    WaitFailed,
}

/// What to do with a running program.
#[derive(Debug, Clone, Copy, PartialEq, Eq, Structural)]
pub enum ChildStep {
    /// Look again a little later.
    Wait,
    /// End the program, then report.
    Kill(OperationStatus),
    Report(OperationStatus),
}

/// Whether a program may be given more time; being cancelled counts before being late.
pub fn child_deadline(id: Id, cancelled: bool, elapsed_ms: u64, timeout_ms: u64) -> (r: Option<
    OperationStatus,
>)
    ensures
        r == if cancelled {
            Some(OperationStatus { id, status: OperationState::Cancelled, exit_code: None })
        } else if elapsed_ms >= timeout_ms {
            Some(OperationStatus { id, status: OperationState::TimedOut, exit_code: None })
        } else {
            None
        },
{
    if cancelled {
        Some(OperationStatus { id, status: OperationState::Cancelled, exit_code: None })
    } else if elapsed_ms >= timeout_ms {
        Some(OperationStatus { id, status: OperationState::TimedOut, exit_code: None })
    } else {
        None
    }
}

/// One look at a running program.
pub fn child_step(
    id: Id,
    cancelled: bool,
    elapsed_ms: u64,
    timeout_ms: u64,
    poll: ChildPoll,
) -> (r: ChildStep)
    ensures
        r == if cancelled {
            ChildStep::Kill(
                OperationStatus { id, status: OperationState::Cancelled, exit_code: None },
            )
        } else if elapsed_ms >= timeout_ms {
            ChildStep::Kill(
                OperationStatus { id, status: OperationState::TimedOut, exit_code: None },
            )
        } else {
            match poll {
                ChildPoll::Running => ChildStep::Wait,
                ChildPoll::WaitFailed => ChildStep::Kill(
                    OperationStatus { id, status: OperationState::WaitFailed, exit_code: None },
                ),
                ChildPoll::Exited { success, code } => ChildStep::Report(
                    OperationStatus {
                        id,
                        status: if success {
                            OperationState::Completed
                        } else {
                            OperationState::Failed
                        },
                        exit_code: code,
                    },
                ),
            }
        },
{
    if let Some(status) = child_deadline(id, cancelled, elapsed_ms, timeout_ms) {
        return ChildStep::Kill(status);
    }
    match poll {
        ChildPoll::Running => ChildStep::Wait,
        ChildPoll::WaitFailed => ChildStep::Kill(
            OperationStatus { id, status: OperationState::WaitFailed, exit_code: None },
        ),
        ChildPoll::Exited { success, code } => ChildStep::Report(
            OperationStatus {
                id,
                status: if success {
                    OperationState::Completed
                } else {
                    OperationState::Failed
                },
                exit_code: code,
            },
        ),
    }
}

/// What to do while a window that was launched does not answer yet.
pub fn launch_wait(elapsed_ms: u64) -> (r: Result<(), &'static str>)
    ensures
        r is Ok <==> elapsed_ms < LAUNCH_MS,
        r matches Err(code) ==> code@ == "TEMPORARY_WINDOW_TIMEOUT"@,
{
    if elapsed_ms >= LAUNCH_MS {
        Err("TEMPORARY_WINDOW_TIMEOUT")
    } else {
        Ok(())
    }
}

/// A request to run a program, if nothing is wrong with it, is noted behind the others as it is and
/// waits for an approval.
pub proof fn requests_wait_for_approval(
    before: AppModel,
    execution: Execution,
    id: Id,
    now: u64,
)
    requires
        before.after(Request::Execute(execution), id, now) is Ok,
    ensures
        ({
            let after = before.after(Request::Execute(execution), id, now)->Ok_0;
            &&& after.operations.len() > 0
            &&& after.operations.last().result.id == id
            &&& after.operations.last().result.status == OperationState::Pending
            &&& after.operations.last().execution == execution@
            &&& after.operations.last().requested == now
            &&& after.fields == before.fields
            &&& after.visible
            &&& before.operations.len() < 16 ==> after.operations == before.operations.push(
                after.operations.last(),
            )
        }),
        execution@.valid(),
        all_saved(before.fields, execution@),
{
}

/// A request is refused for what is wrong with it, and accepted where nothing is.
pub proof fn requests_are_refused_for_a_reason(
    before: AppModel,
    execution: Execution,
    id: Id,
    now: u64,
)
    ensures
        execution@.valid() && all_saved(before.fields, execution@) && before.operations.len() < 16
            ==> before.after(Request::Execute(execution), id, now) is Ok,
        !execution@.valid() ==> before.after(Request::Execute(execution), id, now) is Err,
        execution@.valid() && !all_saved(before.fields, execution@) ==> before.after(
            Request::Execute(execution),
            id,
            now,
        ) == Err::<AppModel, Seq<char>>("SECRET_MISSING"@),
        before.after(Request::Status, id, now) == Ok::<AppModel, Seq<char>>(before),
{
}

/// An approved program starts as it was asked for, with the saved values in its environment; the
/// operation counts as running, and the others stay as they are.
pub proof fn approved_programs_start_as_asked(
    before: AppModel,
    id: Id,
    after: AppModel,
    launch: Option<Launch>,
    at: int,
)
    requires
        approved(before, id, after, launch),
        before.running is None,
        waits_at(before.operations, id, at),
        before.operations[at].execution.valid(),
        all_saved(before.fields, before.operations[at].execution),
    ensures
        launch is Some,
        launch->0.id == id,
        launch->0.execution@ == before.operations[at].execution,
        env_values(launch->0.environment@) == environment_of(
            before.fields,
            before.operations[at].execution,
        ),
        after.running == Some(id),
        after.operations.len() == before.operations.len(),
        after.operations[at].result.status == OperationState::Running,
        forall|i: int|
            0 <= i < before.operations.len() && i != at ==> #[trigger] after.operations[i]
                == before.operations[i],
        after.fields == before.fields,
{
    let found = choose|found: int| #[trigger]
        waits_at(before.operations, id, found) && {
            let operation = before.operations[found];
            if operation.execution.valid() && all_saved(before.fields, operation.execution) {
                &&& launch matches Some(start)
                &&& start.id == id
                &&& start.execution@ == operation.execution
                &&& env_values(start.environment@) == environment_of(
                    before.fields,
                    operation.execution,
                )
                &&& after == (AppModel {
                    operations: before.operations.update(
                        found,
                        in_state(operation, OperationState::Running),
                    ),
                    running: Some(id),
                    ..before
                })
            } else {
                &&& launch is None
                &&& after == (AppModel {
                    operations: before.operations.update(
                        found,
                        in_state(operation, OperationState::SecretMissing),
                    ),
                    ..before
                })
            }
        };
    assert(found == at) by {
        if found < at {
            assert(before.operations[found].result.id != id
                || before.operations[found].result.status != OperationState::Pending);
        } else if at < found {
            assert(before.operations[at].result.id != id || before.operations[at].result.status
                != OperationState::Pending);
        }
    }
}

/// An approval that nobody gives within five minutes expires; until then it waits on, and what does
/// not wait is not touched.
pub proof fn approvals_expire(operations: Seq<OperationModel>, now: u64, i: int)
    requires
        0 <= i < operations.len(),
    ensures
        aged(operations, now).len() == operations.len(),
        operations[i].result.status == OperationState::Pending && now - operations[i].requested
            > 300_000 ==> aged(operations, now)[i].result.status == OperationState::Expired,
        operations[i].result.status == OperationState::Pending && now - operations[i].requested
            <= 300_000 ==> aged(operations, now)[i] == operations[i],
        operations[i].result.status != OperationState::Pending ==> aged(operations, now)[i]
            == operations[i],
        aged(operations, now)[i].result.id == operations[i].result.id,
        aged(operations, now)[i].execution == operations[i].execution,
{
}

/// Revoking cancels what waits, and nothing else.
pub proof fn revoking_cancels_what_waits(operations: Seq<OperationModel>, i: int)
    requires
        0 <= i < operations.len(),
    ensures
        revoked(operations).len() == operations.len(),
        operations[i].result.status == OperationState::Pending ==> revoked(
            operations,
        )[i].result.status == OperationState::Cancelled,
        operations[i].result.status != OperationState::Pending ==> revoked(operations)[i]
            == operations[i],
        revoked(operations)[i].result.id == operations[i].result.id,
{
}

/// What is answered tells of every field whether it is ready and of every operation how it stands,
/// under the session that answers.
pub proof fn answers_tell_the_state(app: AppModel, operation_id: Option<Id>, i: int)
    ensures
        app.report(operation_id).session == app.session,
        app.report(operation_id).operation_id == operation_id,
        app.report(operation_id).code is None,
        app.report(operation_id).fields.len() == app.fields.len(),
        app.report(operation_id).operations.len() == app.operations.len(),
        0 <= i < app.fields.len() ==> app.report(operation_id).fields[i].name == app.fields[i].name
            && app.report(operation_id).fields[i].ready == app.fields[i].value is Some,
        0 <= i < app.operations.len() ==> app.report(operation_id).operations[i]
            == app.operations[i].result,
{
}

/// A program that ended is reported with the result that it had, and the next one may start.
pub proof fn results_are_recorded(
    before: AppModel,
    result: OperationStatus,
    after: AppModel,
    at: int,
)
    requires
        finished(before, result, after),
        stands_at(before.operations, result.id, at),
    ensures
        after.running is None,
        after.operations[at].result == result,
        after.operations[at].execution == before.operations[at].execution,
        after.fields == before.fields,
{
}

/// While there is room every operation is kept; where there is none, the first that is over leaves,
/// and one that waits or runs never does.
pub proof fn open_operations_are_kept(operations: Seq<OperationModel>, i: int)
    requires
        0 <= i < operations.len(),
        !no_room(operations),
    ensures
        operations.len() < 16 ==> with_room(operations) == operations,
        operations.len() >= 16 ==> with_room(operations).len() == operations.len() - 1,
        operations[i].result.status == OperationState::Pending || operations[i].result.status
            == OperationState::Running ==> with_room(operations).contains(operations[i]),
{
    lemma_first_is_over(operations);
    if operations.len() >= 16 {
        let at = first_over(operations);
        let left = with_room(operations);
        if operations[i].result.status.is_open() {
            if i < at {
                assert(left[i] == operations[i]);
            } else {
                assert(left[i - 1] == operations[i]);
            }
        }
    } else {
        assert(with_room(operations)[i] == operations[i]);
    }
}

proof fn lemma_first_is_over(operations: Seq<OperationModel>)
    ensures
        0 <= first_over(operations) <= operations.len(),
        first_over(operations) < operations.len() ==> !operations[first_over(
            operations,
        )].result.status.is_open(),
    decreases operations.len(),
{
    if operations.len() > 0 && operations[0].result.status.is_open() {
        lemma_first_is_over(operations.skip(1));
        if first_over(operations) < operations.len() {
            assert(operations.skip(1)[first_over(operations.skip(1))] == operations[first_over(
                operations,
            )]);
        }
    }
}

/// A refusal names the code, shows no field and no operation, and changes neither.
pub proof fn refusals_tell_only_the_code(
    app: AppModel,
    request: Request,
    session: Id,
    code: Seq<char>,
)
    ensures
        refusal(session, code).code == Some(code),
        refusal(session, code).status == "error"@,
        refusal(session, code).session == session,
        refusal(session, code).fields.len() == 0,
        refusal(session, code).operations.len() == 0,
        app.refused(request).fields == app.fields,
        app.refused(request).operations == app.operations,
        app.refused(request).running == app.running,
{
}

} // verus!
