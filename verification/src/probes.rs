//! Tests of connections that the window runs: which of them run, which wait, and what came out.
use vstd::prelude::*;

use crate::execute::{is_interactive, profile_may_require_interaction};
use crate::failure::RemoteFailure;
use crate::id::Id;
use crate::model::{find_id, host_with_id, is_chain, models, HostProfile, ProfileModel, Protocol};
use crate::pool::holds_id;
use crate::remote::{OperationLimits, RemoteResult};

verus! {

/// How long a test may take, in milliseconds.
pub const GUI_TEST_TIMEOUT: u64 = 10_000;

/// How long a test may take during which a person is asked for something, in milliseconds.
pub const GUI_INTERACTIVE_TEST_TIMEOUT: u64 = 60_000;

pub const MAX_CONCURRENT_TESTS: usize = 8;

#[derive(Debug, Clone, Copy, PartialEq, Eq, Structural)]
pub enum HostTestState {
    Testing,
    Succeeded,
    Failed,
}

/// A test that runs.
#[derive(Debug, Clone, Copy, PartialEq, Eq, Structural)]
pub struct TestOperation {
    pub id: Id,
    pub started_at: u64,
    pub timeout: u64,
}

/// What the last test of a host found.
#[derive(Debug, Clone, Copy, PartialEq, Eq, Structural)]
pub struct TestEntry {
    pub id: Id,
    pub state: HostTestState,
}

pub fn test_timed_out(elapsed: u64, timeout: u64) -> (r: bool)
    ensures
        r == (elapsed >= timeout),
{
    elapsed >= timeout
}

/// How long a test of the host may take.
pub open spec fn timeout_for(
    profile: ProfileModel,
    hosts: Seq<ProfileModel>,
    security_keys: Seq<Id>,
) -> u64 {
    if profile.protocol == Protocol::Ssh && exists|chain: Seq<ProfileModel>, i: int|
        #![trigger is_chain(profile, hosts, chain), chain[i]]
        is_chain(profile, hosts, chain) && 0 <= i < chain.len() && is_interactive(
            chain[i],
            security_keys,
        ) {
        GUI_INTERACTIVE_TEST_TIMEOUT
    } else {
        GUI_TEST_TIMEOUT
    }
}

pub fn gui_test_timeout(
    profile: &HostProfile,
    hosts: &[HostProfile],
    security_keys: &Vec<Id>,
) -> (r: u64)
    ensures
        r == timeout_for(profile@, models(hosts@), security_keys@),
{
    if profile_may_require_interaction(profile, hosts, security_keys) {
        GUI_INTERACTIVE_TEST_TIMEOUT
    } else {
        GUI_TEST_TIMEOUT
    }
}

/// A test opens a connection of its own, and every part of it may take as long as the whole.
pub fn gui_test_limits(timeout: u64) -> (r: OperationLimits)
    ensures
        r == (OperationLimits {
            total_timeout: Some(timeout),
            connect_timeout: Some(timeout),
            command_timeout: Some(timeout),
            output_bytes: None,
            batch_scope: None,
            retain_sessions: false,
        }),
{
    OperationLimits {
        total_timeout: Some(timeout),
        connect_timeout: Some(timeout),
        command_timeout: Some(timeout),
        output_bytes: None,
        batch_scope: None,
        retain_sessions: false,
    }
}

/// What was heard of a test that runs.
#[derive(Debug)]
pub enum TestEvent {
    /// It ended at a moment.
    Finished { at: u64, result: Result<RemoteResult, RemoteFailure> },
    /// It will not be heard of again.
    Disconnected,
    Nothing,
}

fn timeout_failure() -> (r: RemoteFailure)
    ensures
        is_timeout_failure(r),
{
    RemoteFailure::new("TEST_TIMEOUT", "The connection test exceeded its configured time limit.")
}

pub open spec fn is_timeout_failure(failure: RemoteFailure) -> bool {
    failure@ == crate::failure::failure(
        "TEST_TIMEOUT"@,
        "The connection test exceeded its configured time limit."@,
    )
}

pub open spec fn is_stopped_failure(failure: RemoteFailure) -> bool {
    failure@ == crate::failure::failure(
        "TEST_WORKER_STOPPED"@,
        "The connection test worker stopped unexpectedly."@,
    )
}

/// The time from one moment to a later one; none where they stand the other way round.
pub open spec fn elapsed(from: u64, to: u64) -> int {
    if to >= from {
        to - from
    } else {
        0
    }
}

/// What a test came to, as far as it has. A test that took too long failed, whatever it found.
pub fn judge(operation: &TestOperation, event: TestEvent, now: u64) -> (r: Option<
    Result<RemoteResult, RemoteFailure>,
>)
    ensures
        match event {
            TestEvent::Finished { at, result } => if elapsed(operation.started_at, at)
                >= operation.timeout {
                r is Some && r->0 is Err && is_timeout_failure(r->0->Err_0)
            } else {
                r == Some(result)
            },
            TestEvent::Disconnected => r is Some && r->0 is Err && is_stopped_failure(
                r->0->Err_0,
            ),
            TestEvent::Nothing => if elapsed(operation.started_at, now) >= operation.timeout {
                r is Some && r->0 is Err && is_timeout_failure(r->0->Err_0)
            } else {
                r is None
            },
        },
{
    match event {
        TestEvent::Finished { at, result } => {
            let took: u64 = if at >= operation.started_at {
                at - operation.started_at
            } else {
                0
            };
            if test_timed_out(took, operation.timeout) {
                Some(Err(timeout_failure()))
            } else {
                Some(result)
            }
        },
        TestEvent::Disconnected => Some(
            Err(
                RemoteFailure::new(
                    "TEST_WORKER_STOPPED",
                    "The connection test worker stopped unexpectedly.",
                ),
            ),
        ),
        TestEvent::Nothing => {
            let took: u64 = if now >= operation.started_at {
                now - operation.started_at
            } else {
                0
            };
            if test_timed_out(took, operation.timeout) {
                Some(Err(timeout_failure()))
            } else {
                None
            }
        },
    }
}

/// Where the entry of a host stands; the number of entries when it has none.
pub open spec fn entry_index(states: Seq<TestEntry>, id: Id) -> int
    decreases states.len(),
{
    if states.len() == 0 || states[0].id == id {
        0
    } else {
        1 + entry_index(states.skip(1), id)
    }
}

/// What the last test of a host found.
pub open spec fn state_of(states: Seq<TestEntry>, id: Id) -> Option<HostTestState> {
    if entry_index(states, id) < states.len() {
        Some(states[entry_index(states, id)].state)
    } else {
        None
    }
}

/// The entries with one set.
pub open spec fn with_state(
    states: Seq<TestEntry>,
    id: Id,
    state: HostTestState,
) -> Seq<TestEntry> {
    let at = entry_index(states, id);
    if at < states.len() {
        states.update(at, TestEntry { id, state })
    } else {
        states.push(TestEntry { id, state })
    }
}

proof fn lemma_entry_index(states: Seq<TestEntry>, id: Id, at: int)
    requires
        0 <= at <= states.len(),
        forall|i: int| 0 <= i < at ==> (#[trigger] states[i]).id != id,
        at < states.len() ==> states[at].id == id,
    ensures
        entry_index(states, id) == at,
    decreases states.len(),
{
    if states.len() > 0 && at > 0 {
        let rest = states.skip(1);
        assert(states[0].id != id);
        assert forall|i: int| 0 <= i < at - 1 implies (#[trigger] rest[i]).id != id by {
            assert(rest[i] == states[i + 1]);
        }
        lemma_entry_index(rest, id, at - 1);
    }
}

fn find_entry(states: &Vec<TestEntry>, id: Id) -> (r: usize)
    ensures
        r == entry_index(states@, id),
        r <= states@.len(),
{
    let mut i: usize = 0;
    while i < states.len()
        invariant
            i <= states@.len(),
            forall|j: int| 0 <= j < i ==> (#[trigger] states@[j]).id != id,
        decreases states@.len() - i,
    {
        if states[i].id == id {
            proof {
                lemma_entry_index(states@, id, i as int);
            }
            return i;
        }
        i = i + 1;
    }
    proof {
        lemma_entry_index(states@, id, i as int);
    }
    i
}

/// Tests of all kinds.
#[derive(Debug)]
pub struct TestBoard {
    /// Tests that run.
    pub operations: Vec<TestOperation>,
    /// Hosts whose test waits for its turn.
    pub pending: Vec<Id>,
    /// What the last tests found.
    pub states: Vec<TestEntry>,
    /// The hosts as they were when a test of all of them began.
    pub snapshot: Option<Vec<HostProfile>>,
    pub testing_all: bool,
    /// The tests of all hosts found something that has to be saved.
    pub dirty: bool,
}

#[verifier::ext_equal]
pub struct BoardModel {
    pub operations: Seq<TestOperation>,
    pub pending: Seq<Id>,
    pub states: Seq<TestEntry>,
    pub snapshot: Option<Seq<ProfileModel>>,
    pub testing_all: bool,
    pub dirty: bool,
}

pub open spec fn snapshot_models(snapshot: Option<Vec<HostProfile>>) -> Option<Seq<ProfileModel>> {
    match snapshot {
        Some(hosts) => Some(models(hosts@)),
        None => None,
    }
}

impl View for TestBoard {
    type V = BoardModel;

    open spec fn view(&self) -> BoardModel {
        BoardModel {
            operations: self.operations@,
            pending: self.pending@,
            states: self.states@,
            snapshot: snapshot_models(self.snapshot),
            testing_all: self.testing_all,
            dirty: self.dirty,
        }
    }
}

pub open spec fn runs(operations: Seq<TestOperation>, id: Id) -> bool {
    exists|i: int| 0 <= i < operations.len() && (#[trigger] operations[i]).id == id
}

/// The operations without those of a host.
pub open spec fn without(operations: Seq<TestOperation>, id: Id) -> Seq<TestOperation> {
    operations.filter(|operation: TestOperation| operation.id != id)
}

pub open spec fn entries_without(states: Seq<TestEntry>, id: Id) -> Seq<TestEntry> {
    states.filter(|entry: TestEntry| entry.id != id)
}

pub open spec fn other_than(id: Id) -> spec_fn(Id) -> bool {
    |other: Id| other != id
}

pub open spec fn ids_without(ids: Seq<Id>, id: Id) -> Seq<Id> {
    ids.filter(other_than(id))
}

/// Tests of the hosts, none of which has begun.
pub open spec fn all_testing(hosts: Seq<ProfileModel>) -> Seq<TestEntry>
    decreases hosts.len(),
{
    if hosts.len() == 0 {
        Seq::empty()
    } else {
        with_state(all_testing(hosts.drop_last()), hosts.last().id, HostTestState::Testing)
    }
}

pub open spec fn host_ids(hosts: Seq<ProfileModel>) -> Seq<Id> {
    Seq::new(hosts.len(), |i: int| hosts[i].id)
}

/// How many hosts a test found in a state.
pub open spec fn count_of(states: Seq<TestEntry>, state: HostTestState) -> nat {
    states.filter(|entry: TestEntry| entry.state == state).len()
}

impl BoardModel {
    pub open spec fn empty() -> BoardModel {
        BoardModel {
            operations: Seq::empty(),
            pending: Seq::empty(),
            states: Seq::empty(),
            snapshot: None,
            testing_all: false,
            dirty: false,
        }
    }

    /// No test runs or waits.
    pub open spec fn idle(self) -> bool {
        self.operations.len() == 0 && self.pending.len() == 0
    }

    pub open spec fn with_state(self, id: Id, state: HostTestState) -> BoardModel {
        BoardModel { states: with_state(self.states, id, state), ..self }
    }

    /// The board once a test was started, if the host is known.
    pub open spec fn started(
        self,
        id: Id,
        hosts: Seq<ProfileModel>,
        security_keys: Seq<Id>,
        now: u64,
    ) -> BoardModel {
        match host_with_id(hosts, id) {
            Some(profile) => BoardModel {
                operations: without(self.operations, id).push(
                    TestOperation {
                        id,
                        started_at: now,
                        timeout: timeout_for(profile, hosts, security_keys),
                    },
                ),
                states: with_state(self.states, id, HostTestState::Testing),
                ..self
            },
            None => self,
        }
    }

    /// A test of the host alone may begin.
    pub open spec fn may_start(self, id: Id) -> bool {
        !self.testing_all && !runs(self.operations, id) && !self.pending.contains(id)
    }

    /// The board once as many waiting tests were started as may run at once.
    pub open spec fn filled(
        self,
        hosts: Seq<ProfileModel>,
        security_keys: Seq<Id>,
        now: u64,
    ) -> BoardModel
        decreases self.pending.len(),
    {
        if self.operations.len() >= MAX_CONCURRENT_TESTS || self.pending.len() == 0 {
            self
        } else {
            let id = self.pending[0];
            let rest = BoardModel { pending: self.pending.skip(1), ..self };
            rest.started(id, hosts, security_keys, now).filled(hosts, security_keys, now)
        }
    }

    /// The tests that are started then, in their order.
    pub open spec fn newly_started(
        self,
        hosts: Seq<ProfileModel>,
        security_keys: Seq<Id>,
        now: u64,
    ) -> Seq<TestOperation>
        decreases self.pending.len(),
    {
        if self.operations.len() >= MAX_CONCURRENT_TESTS || self.pending.len() == 0 {
            Seq::empty()
        } else {
            let id = self.pending[0];
            let rest = BoardModel { pending: self.pending.skip(1), ..self };
            let then = rest.started(id, hosts, security_keys, now);
            let first = if host_with_id(hosts, id) is Some {
                seq![then.operations.last()]
            } else {
                Seq::empty()
            };
            first + then.newly_started(hosts, security_keys, now)
        }
    }

    /// The board once a test of all hosts begins.
    pub open spec fn all_begun(self, hosts: Seq<ProfileModel>) -> BoardModel {
        BoardModel {
            states: all_testing(hosts),
            pending: host_ids(hosts),
            snapshot: Some(hosts),
            testing_all: true,
            ..self
        }
    }

    /// The board once a host was removed.
    pub open spec fn forgotten(self, id: Id) -> BoardModel {
        BoardModel {
            operations: without(self.operations, id),
            pending: ids_without(self.pending, id),
            states: entries_without(self.states, id),
            ..self
        }
    }
}

impl TestBoard {
    pub fn new() -> (r: Self)
        ensures
            r@ == BoardModel::empty(),
    {
        TestBoard {
            operations: Vec::new(),
            pending: Vec::new(),
            states: Vec::new(),
            snapshot: None,
            testing_all: false,
            dirty: false,
        }
    }

    pub fn tests_idle(&self) -> (r: bool)
        ensures
            r == self@.idle(),
    {
        self.operations.len() == 0 && self.pending.len() == 0
    }

    pub fn is_running(&self, id: Id) -> (r: bool)
        ensures
            r == runs(self@.operations, id),
    {
        let mut i: usize = 0;
        while i < self.operations.len()
            invariant
                i <= self.operations@.len(),
                forall|j: int| 0 <= j < i ==> (#[trigger] self.operations@[j]).id != id,
            decreases self.operations@.len() - i,
        {
            if self.operations[i].id == id {
                assert(self.operations@[i as int].id == id);
                return true;
            }
            i = i + 1;
        }
        false
    }

    /// What the last test of a host found.
    pub fn state(&self, id: Id) -> (r: Option<HostTestState>)
        ensures
            r == state_of(self@.states, id),
    {
        let at = find_entry(&self.states, id);
        if at < self.states.len() {
            Some(self.states[at].state)
        } else {
            None
        }
    }

    /// Notes what a test of a host found.
    pub fn set_state(&mut self, id: Id, state: HostTestState)
        ensures
            final(self)@ == old(self)@.with_state(id, state),
    {
        let at = find_entry(&self.states, id);
        if at < self.states.len() {
            self.states.set(at, TestEntry { id, state });
        } else {
            self.states.push(TestEntry { id, state });
        }
    }

    /// Takes a test off the list of those that run.
    pub fn drop_operation(&mut self, id: Id)
        ensures
            final(self)@ == (BoardModel {
                operations: without(old(self)@.operations, id),
                ..old(self)@
            }),
    {
        let ghost keep = |operation: TestOperation| operation.id != id;
        let mut out: Vec<TestOperation> = Vec::new();
        let mut i: usize = 0;
        assert(out@ =~= self.operations@.take(0).filter(keep)) by {
            reveal(Seq::filter);
        }
        while i < self.operations.len()
            invariant
                i <= self.operations@.len(),
                self@ == old(self)@,
                keep == (|operation: TestOperation| operation.id != id),
                out@ == self.operations@.take(i as int).filter(keep),
            decreases self.operations@.len() - i,
        {
            assert(self.operations@.take(i + 1).drop_last() =~= self.operations@.take(i as int));
            reveal(Seq::filter);
            if self.operations[i].id != id {
                out.push(self.operations[i]);
            }
            i = i + 1;
        }
        assert(self.operations@.take(i as int) =~= self.operations@);
        self.operations = out;
    }

    fn drop_pending(&mut self, id: Id)
        ensures
            final(self)@ == (BoardModel {
                pending: ids_without(old(self)@.pending, id),
                ..old(self)@
            }),
    {
        let ghost keep = other_than(id);
        let mut out: Vec<Id> = Vec::new();
        let mut i: usize = 0;
        assert(out@ =~= self.pending@.take(0).filter(keep)) by {
            reveal(Seq::filter);
        }
        while i < self.pending.len()
            invariant
                i <= self.pending@.len(),
                self@ == old(self)@,
                keep == other_than(id),
                out@ == self.pending@.take(i as int).filter(keep),
            decreases self.pending@.len() - i,
        {
            assert(self.pending@.take(i + 1).drop_last() =~= self.pending@.take(i as int));
            reveal(Seq::filter);
            if self.pending[i] != id {
                out.push(self.pending[i]);
            }
            i = i + 1;
        }
        assert(self.pending@.take(i as int) =~= self.pending@);
        self.pending = out;
    }

    /// Forgets what the last test of a host found.
    pub fn drop_state(&mut self, id: Id)
        ensures
            final(self)@ == (BoardModel {
                states: entries_without(old(self)@.states, id),
                ..old(self)@
            }),
    {
        let ghost keep = |entry: TestEntry| entry.id != id;
        let mut out: Vec<TestEntry> = Vec::new();
        let mut i: usize = 0;
        assert(out@ =~= self.states@.take(0).filter(keep)) by {
            reveal(Seq::filter);
        }
        while i < self.states.len()
            invariant
                i <= self.states@.len(),
                self@ == old(self)@,
                keep == (|entry: TestEntry| entry.id != id),
                out@ == self.states@.take(i as int).filter(keep),
            decreases self.states@.len() - i,
        {
            assert(self.states@.take(i + 1).drop_last() =~= self.states@.take(i as int));
            reveal(Seq::filter);
            if self.states[i].id != id {
                out.push(self.states[i]);
            }
            i = i + 1;
        }
        assert(self.states@.take(i as int) =~= self.states@);
        self.states = out;
    }

    /// Forgets a host that was removed.
    pub fn forget(&mut self, id: Id)
        ensures
            final(self)@ == old(self)@.forgotten(id),
    {
        self.drop_operation(id);
        self.drop_pending(id);
        self.drop_state(id);
    }

    /// Starts a test of a host, if it is known. The test that is to run is returned.
    pub fn start_test_worker(
        &mut self,
        id: Id,
        hosts: &[HostProfile],
        security_keys: &Vec<Id>,
        now: u64,
    ) -> (r: Option<TestOperation>)
        ensures
            final(self)@ == old(self)@.started(id, models(hosts@), security_keys@, now),
            r is Some == host_with_id(models(hosts@), id) is Some,
            r is Some ==> r->0 == final(self)@.operations.last() && final(self)@.operations.len()
                > 0,
    {
        match find_id(hosts, id) {
            None => None,
            Some(at) => {
                let timeout = gui_test_timeout(&hosts[at], hosts, security_keys);
                let operation = TestOperation { id, started_at: now, timeout };
                self.drop_operation(id);
                self.operations.push(operation);
                self.set_state(id, HostTestState::Testing);
                assert(hosts@[at as int]@ == models(hosts@)[at as int]);
                Some(operation)
            },
        }
    }

    /// Starts a test of one host, unless it is tested or about to be.
    pub fn start_test_host(
        &mut self,
        id: Id,
        hosts: &[HostProfile],
        security_keys: &Vec<Id>,
        now: u64,
    ) -> (r: Option<TestOperation>)
        ensures
            final(self)@ == if old(self)@.may_start(id) {
                old(self)@.started(id, models(hosts@), security_keys@, now)
            } else {
                old(self)@
            },
            r is Some == (old(self)@.may_start(id) && host_with_id(models(hosts@), id) is Some),
            r is Some ==> r->0 == final(self)@.operations.last() && final(self)@.operations.len()
                > 0,
    {
        if self.testing_all || self.is_running(id) || holds_id(&self.pending, id) {
            return None;
        }
        self.start_test_worker(id, hosts, security_keys, now)
    }

    /// Begins a test of all hosts.
    pub fn begin_all(&mut self, hosts: Vec<HostProfile>)
        ensures
            final(self)@ == old(self)@.all_begun(models(hosts@)),
    {
        let ghost all = models(hosts@);
        self.states = Vec::new();
        let mut pending: Vec<Id> = Vec::new();
        let mut i: usize = 0;
        assert(self.states@ =~= all_testing(all.take(0)));
        while i < hosts.len()
            invariant
                i <= hosts@.len(),
                all == models(hosts@),
                pending@ == host_ids(all.take(i as int)),
                self@ == (BoardModel { states: all_testing(all.take(i as int)), ..old(self)@ }),
            decreases hosts@.len() - i,
        {
            assert(all.take(i + 1).drop_last() =~= all.take(i as int));
            assert(all.take(i + 1).last() == hosts@[i as int]@);
            pending.push(hosts[i].id);
            assert(pending@ =~= host_ids(all.take(i + 1)));
            self.set_state(hosts[i].id, HostTestState::Testing);
            i = i + 1;
        }
        assert(all.take(i as int) =~= all);
        self.pending = pending;
        self.snapshot = Some(hosts);
        self.testing_all = true;
    }

    /// Starts as many waiting tests as may run at once. The tests that are to run are returned.
    pub fn start_pending_tests(&mut self, security_keys: &Vec<Id>, now: u64) -> (r: Vec<
        TestOperation,
    >)
        ensures
            match old(self)@.snapshot {
                Some(hosts) => final(self)@ == old(self)@.filled(hosts, security_keys@, now)
                    && r@ == old(self)@.newly_started(hosts, security_keys@, now),
                None => final(self)@ == old(self)@ && r@.len() == 0,
            },
    {
        let mut started: Vec<TestOperation> = Vec::new();
        let hosts = match &self.snapshot {
            None => {
                return started;
            },
            Some(hosts) => crate::storage::copy_hosts(hosts.as_slice()),
        };
        let ghost all = models(hosts@);
        let ghost goal = self@.filled(all, security_keys@, now);
        let ghost wanted = self@.newly_started(all, security_keys@, now);
        assert(started@ + wanted =~= wanted);
        while self.operations.len() < MAX_CONCURRENT_TESTS && self.pending.len() > 0
            invariant
                all == models(hosts@),
                self@.filled(all, security_keys@, now) == goal,
                started@ + self@.newly_started(all, security_keys@, now) == wanted,
            decreases self.pending@.len(),
        {
            let ghost before = self@;
            let ghost so_far = started@;
            let id = self.pending.remove(0);
            assert(self.pending@ =~= before.pending.skip(1));
            assert(self@ =~= (BoardModel { pending: before.pending.skip(1), ..before }));
            let operation = self.start_test_worker(id, hosts.as_slice(), security_keys, now);
            if let Some(operation) = operation {
                started.push(operation);
            }
            assert(so_far + before.newly_started(all, security_keys@, now) =~= started@
                + self@.newly_started(all, security_keys@, now));
        }
        assert(self@.newly_started(all, security_keys@, now) =~= Seq::empty());
        assert(started@ =~= wanted);
        started
    }

    /// How many hosts a test found in a state.
    pub fn count(&self, state: HostTestState) -> (r: usize)
        ensures
            r == count_of(self@.states, state),
    {
        let ghost keep = |entry: TestEntry| entry.state == state;
        let mut n: usize = 0;
        let mut i: usize = 0;
        assert(self.states@.take(0).filter(keep).len() == 0) by {
            reveal(Seq::filter);
        }
        while i < self.states.len()
            invariant
                n <= i <= self.states@.len(),
                keep == (|entry: TestEntry| entry.state == state),
                n == self.states@.take(i as int).filter(keep).len(),
            decreases self.states@.len() - i,
        {
            assert(self.states@.take(i + 1).drop_last() =~= self.states@.take(i as int));
            reveal(Seq::filter);
            if self.states[i].state == state {
                n = n + 1;
            }
            i = i + 1;
        }
        assert(self.states@.take(i as int) =~= self.states@);
        n
    }
}

/// Starting waiting tests never lets more run than may run at once.
pub proof fn tests_stay_bounded(
    board: BoardModel,
    hosts: Seq<ProfileModel>,
    security_keys: Seq<Id>,
    now: u64,
)
    requires
        board.operations.len() <= MAX_CONCURRENT_TESTS,
    ensures
        board.filled(hosts, security_keys, now).operations.len() <= MAX_CONCURRENT_TESTS,
        board.filled(hosts, security_keys, now).pending.len() == 0 || board.filled(
            hosts,
            security_keys,
            now,
        ).operations.len() == MAX_CONCURRENT_TESTS,
    decreases board.pending.len(),
{
    if board.operations.len() < MAX_CONCURRENT_TESTS && board.pending.len() > 0 {
        let id = board.pending[0];
        let rest = BoardModel { pending: board.pending.skip(1), ..board };
        let then = rest.started(id, hosts, security_keys, now);
        board.operations.lemma_filter_len(|operation: TestOperation| operation.id != id);
        tests_stay_bounded(then, hosts, security_keys, now);
    }
}

proof fn lemma_entry_place(states: Seq<TestEntry>, id: Id)
    ensures
        0 <= entry_index(states, id) <= states.len(),
        entry_index(states, id) < states.len() ==> states[entry_index(states, id)].id == id,
        forall|i: int| 0 <= i < entry_index(states, id) ==> (#[trigger] states[i]).id != id,
    decreases states.len(),
{
    if states.len() > 0 && states[0].id != id {
        let rest = states.skip(1);
        lemma_entry_place(rest, id);
        assert forall|i: int| 0 <= i < entry_index(states, id) implies (#[trigger] states[i]).id
            != id by {
            if i > 0 {
                assert(rest[i - 1] == states[i]);
            }
        }
    }
}

/// What a test found of a host is what is shown of it, and of no other host.
pub proof fn states_are_kept_by_host(
    states: Seq<TestEntry>,
    id: Id,
    state: HostTestState,
    other: Id,
)
    ensures
        state_of(with_state(states, id, state), id) == Some(state),
        other != id ==> state_of(with_state(states, id, state), other) == state_of(states, other),
        state_of(Seq::empty(), id) is None,
{
    lemma_entry_place(states, id);
    lemma_entry_place(states, other);
    let after = with_state(states, id, state);
    let at = entry_index(states, id);
    lemma_entry_index(after, id, at);
    if other != id {
        let k = entry_index(states, other);
        if k < states.len() {
            assert(k != at);
            assert forall|i: int| 0 <= i < k implies (#[trigger] after[i]).id != other by {
                if i != at {
                    assert(after[i] == states[i]);
                }
            }
            lemma_entry_index(after, other, k);
        } else {
            assert forall|i: int| 0 <= i < after.len() implies (#[trigger] after[i]).id
                != other by {
                if i < states.len() && i != at {
                    assert(after[i] == states[i]);
                }
            }
            lemma_entry_index(after, other, after.len() as int);
        }
    }
}

/// A test that starts runs from now on, for its host, within the time for it: a minute more where a
/// person may have to touch a key.
pub proof fn started_tests_run(
    board: BoardModel,
    profile: ProfileModel,
    hosts: Seq<ProfileModel>,
    security_keys: Seq<Id>,
    now: u64,
)
    requires
        host_with_id(hosts, profile.id) == Some(profile),
    ensures
        ({
            let after = board.started(profile.id, hosts, security_keys, now);
            &&& after.operations.len() > 0
            &&& after.operations.last().id == profile.id
            &&& after.operations.last().started_at == now
            &&& after.operations.last().timeout == GUI_TEST_TIMEOUT
                || after.operations.last().timeout == GUI_INTERACTIVE_TEST_TIMEOUT
            &&& profile.protocol == Protocol::Telnet ==> after.operations.last().timeout
                == GUI_TEST_TIMEOUT
            &&& state_of(after.states, profile.id) == Some(HostTestState::Testing)
            &&& after.pending == board.pending
        }),
{
    states_are_kept_by_host(board.states, profile.id, HostTestState::Testing, profile.id);
    let after = board.started(profile.id, hosts, security_keys, now);
    assert(after.operations.last().id == profile.id);
}

/// A test of all hosts asks every host, in the order of the store.
pub proof fn all_hosts_are_tested(board: BoardModel, hosts: Seq<ProfileModel>, i: int)
    requires
        0 <= i < hosts.len(),
    ensures
        board.all_begun(hosts).pending.len() == hosts.len(),
        board.all_begun(hosts).pending[i] == hosts[i].id,
        board.all_begun(hosts).testing_all,
        board.all_begun(hosts).snapshot == Some(hosts),
        state_of(board.all_begun(hosts).states, hosts[i].id) == Some(HostTestState::Testing),
{
    lemma_all_testing(hosts, i);
}

proof fn lemma_all_testing(hosts: Seq<ProfileModel>, i: int)
    requires
        0 <= i < hosts.len(),
    ensures
        state_of(all_testing(hosts), hosts[i].id) == Some(HostTestState::Testing),
    decreases hosts.len(),
{
    let short = hosts.drop_last();
    states_are_kept_by_host(
        all_testing(short),
        hosts.last().id,
        HostTestState::Testing,
        hosts[i].id,
    );
    if i < short.len() {
        assert(short[i] == hosts[i]);
        lemma_all_testing(short, i);
    }
}

/// A test may take longer where some host on the way waits for a person.
pub proof fn people_are_given_more_time(
    profile: ProfileModel,
    hosts: Seq<ProfileModel>,
    security_keys: Seq<Id>,
    chain: Seq<ProfileModel>,
    i: int,
)
    requires
        is_chain(profile, hosts, chain),
        0 <= i < chain.len(),
    ensures
        profile.protocol == Protocol::Ssh && is_interactive(chain[i], security_keys)
            ==> timeout_for(profile, hosts, security_keys) == GUI_INTERACTIVE_TEST_TIMEOUT,
        profile.protocol == Protocol::Telnet ==> timeout_for(profile, hosts, security_keys)
            == GUI_TEST_TIMEOUT,
        GUI_TEST_TIMEOUT < GUI_INTERACTIVE_TEST_TIMEOUT,
{
}

/// A test of a host may begin while none of it waits or runs and not all hosts are tested.
pub proof fn a_host_is_tested_once_at_a_time(board: BoardModel, id: Id)
    ensures
        board.testing_all ==> !board.may_start(id),
        runs(board.operations, id) ==> !board.may_start(id),
        board.pending.contains(id) ==> !board.may_start(id),
        !board.testing_all && !runs(board.operations, id) && !board.pending.contains(id)
            ==> board.may_start(id),
{
}

/// Time goes on only forwards.
pub proof fn time_goes_forwards(from: u64, to: u64)
    ensures
        to >= from ==> elapsed(from, to) == to - from,
        to < from ==> elapsed(from, to) == 0,
{
}

/// A host that was removed waits for no test and runs none, and the tests of others go on.
pub proof fn removed_hosts_are_forgotten(board: BoardModel, id: Id, other: Id)
    ensures
        board.forgotten(id).pending.contains(other) <==> board.pending.contains(other) && other
            != id,
        board.forgotten(id).testing_all == board.testing_all,
{
    lemma_ids_left(board.pending, id, other);
}

proof fn lemma_ids_left(ids: Seq<Id>, id: Id, other: Id)
    ensures
        ids_without(ids, id).contains(other) <==> ids.contains(other) && other != id,
    decreases ids.len(),
{
    reveal(Seq::filter);
    if ids.len() > 0 {
        let short = ids.drop_last();
        let before = ids_without(short, id);
        let all = ids_without(ids, id);
        lemma_ids_left(short, id, other);
        if all.contains(other) {
            let k = choose|k: int| 0 <= k < all.len() && all[k] == other;
            if k < before.len() {
                assert(before[k] == other);
                let j = choose|j: int| 0 <= j < short.len() && short[j] == other;
                assert(ids[j] == other);
            } else {
                assert(ids[ids.len() - 1] == other);
            }
        }
        if ids.contains(other) && other != id {
            let j = choose|j: int| 0 <= j < ids.len() && ids[j] == other;
            if j < short.len() {
                assert(short[j] == other);
                let k = choose|k: int| 0 <= k < before.len() && before[k] == other;
                assert(all[k] == other);
            } else {
                assert(all[before.len() as int] == other);
            }
        }
    }
}

} // verus!
