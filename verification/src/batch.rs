//! One action on several hosts: who starts when, what is kept of the answers, and how the whole
//! is cut down to size.
use vstd::prelude::*;

use crate::execute::moves_on;
use crate::failure::{FailureModel, RemoteFailure};
use crate::id::Id;
use crate::model::{models, HostProfile};
use crate::remote::{
    copy_verified, verified_models, OperationLimits, RemoteResult, ResultModel, VerifiedHostKey,
    VerifiedModel,
};
use crate::text::{
    byte_len, cut, cutting_keeps_what_fits, same_text, texts, truncate_utf8, utf8_len,
};
use crate::tool::{
    batch_alias_fault, batch_resolves, batch_size_fault, capped, concurrency, failure_for_alias,
    failure_of, first_fault, limited, limits, resolve_batch_hosts, timeout_duration, workers,
    BatchOptions, MAX_BATCH_CONCURRENCY, MAX_BATCH_HOSTS, MAX_BATCH_OUTPUT_BYTES,
    MAX_SINGLE_RESULT_OUTPUT_BYTES, MAX_TOOL_TIMEOUT_MS, SCHEMA_VERSION,
};

verus! {

/// What a batch does on every host.
#[derive(Debug)]
pub enum BatchAction {
    Probe,
    Exec(String),
}

impl BatchAction {
    pub open spec fn said(self) -> Seq<char> {
        match self {
            BatchAction::Probe => "batch_probe"@,
            BatchAction::Exec(_) => "batch_exec"@,
        }
    }

    pub fn name(&self) -> (r: &'static str)
        ensures
            r@ == self.said(),
            self is Probe ==> r@ == "batch_probe"@,
            self is Exec ==> r@ == "batch_exec"@,
    {
        match self {
            BatchAction::Probe => "batch_probe",
            BatchAction::Exec(_) => "batch_exec",
        }
    }
}

/// What became of one host.
#[derive(Debug)]
pub enum BatchItem {
    Success(RemoteResult),
    Failure(RemoteFailure),
}

pub enum ItemModel {
    Success(ResultModel),
    Failure(FailureModel),
}

impl View for BatchItem {
    type V = ItemModel;

    open spec fn view(&self) -> ItemModel {
        match self {
            BatchItem::Success(result) => ItemModel::Success(result@),
            BatchItem::Failure(error) => ItemModel::Failure(error@),
        }
    }
}

impl ItemModel {
    pub open spec fn status(self) -> Seq<char> {
        match self {
            ItemModel::Success(result) => result.status,
            ItemModel::Failure(error) => error.status,
        }
    }
}

impl BatchItem {
    pub fn status(&self) -> (r: &'static str)
        ensures
            r@ == self@.status(),
    {
        match self {
            BatchItem::Success(result) => result.status,
            BatchItem::Failure(error) => error.status,
        }
    }
}

pub open spec fn items(list: Seq<BatchItem>) -> Seq<ItemModel> {
    Seq::new(list.len(), |i: int| list[i]@)
}

/// How many hosts ended how.
#[derive(Debug, Clone, Copy, PartialEq, Eq, Structural)]
pub struct BatchSummary {
    pub requested: usize,
    pub succeeded: usize,
    pub remote_errors: usize,
    pub failed: usize,
    pub cancelled: usize,
}

#[derive(Debug)]
pub struct BatchResult {
    pub schema_version: u32,
    pub status: &'static str,
    pub action: &'static str,
    pub duration_ms: u64,
    pub results: Vec<BatchItem>,
    pub summary: BatchSummary,
}

#[verifier::ext_equal]
pub struct BatchModel {
    pub schema_version: u32,
    pub status: Seq<char>,
    pub action: Seq<char>,
    pub duration_ms: u64,
    pub results: Seq<ItemModel>,
    pub summary: BatchSummary,
}

impl View for BatchResult {
    type V = BatchModel;

    open spec fn view(&self) -> BatchModel {
        BatchModel {
            schema_version: self.schema_version,
            status: self.status@,
            action: self.action@,
            duration_ms: self.duration_ms,
            results: items(self.results@),
            summary: self.summary,
        }
    }
}

/// The result with its output cut to so many bytes: what was printed goes before what was
/// complained.
pub open spec fn within(result: ResultModel, limit: nat) -> ResultModel {
    let stdout = cut(result.stdout, limit);
    let stderr = cut(result.stderr, (limit - utf8_len(stdout)) as nat);
    ResultModel {
        stdout,
        stderr,
        output_truncated: result.output_truncated || utf8_len(stdout) < utf8_len(result.stdout)
            || utf8_len(stderr) < utf8_len(result.stderr),
        ..result
    }
}

pub fn limit_result_output(result: &mut RemoteResult, limit: usize)
    ensures
        final(result)@ == within(old(result)@, limit as nat),
        utf8_len(final(result)@.stdout) + utf8_len(final(result)@.stderr) <= limit,
        utf8_len(old(result).stdout@) + utf8_len(old(result).stderr@) <= limit ==> {
            &&& final(result).stdout@ == old(result).stdout@
            &&& final(result).stderr@ == old(result).stderr@
            &&& final(result).output_truncated == old(result).output_truncated
        },
        final(result).exit_code == old(result).exit_code,
        final(result).status == old(result).status,
        final(result).alias == old(result).alias,
{
    let printed: usize = byte_len(result.stdout.as_str());
    let complained: usize = byte_len(result.stderr.as_str());
    proof {
        cutting_keeps_what_fits(result.stdout@, limit as nat);
    }
    truncate_utf8(&mut result.stdout, limit);
    let kept: usize = byte_len(result.stdout.as_str());
    let left: usize = limit - kept;
    proof {
        cutting_keeps_what_fits(result.stderr@, left as nat);
    }
    truncate_utf8(&mut result.stderr, left);
    let shortened = kept < printed || byte_len(result.stderr.as_str()) < complained;
    if shortened {
        result.output_truncated = true;
    }
}

/// What was got from a host.
#[derive(Debug)]
pub struct BatchWork {
    pub item: BatchItem,
    pub verified_host_keys: Vec<VerifiedHostKey>,
}

pub struct WorkModel {
    pub item: ItemModel,
    pub keys: Seq<VerifiedModel>,
}

impl View for BatchWork {
    type V = WorkModel;

    open spec fn view(&self) -> WorkModel {
        WorkModel { item: self.item@, keys: verified_models(self.verified_host_keys@) }
    }
}

pub open spec fn works(slots: Seq<Option<BatchWork>>) -> Seq<Option<WorkModel>> {
    Seq::new(
        slots.len(),
        |i: int|
            match slots[i] {
                Some(work) => Some(work@),
                None => None,
            },
    )
}

/// What is kept of a host's answer: its output is bounded, and a failure names its host.
pub open spec fn kept(
    outcome: Result<RemoteResult, RemoteFailure>,
    alias: Seq<char>,
    output_bytes: nat,
) -> WorkModel {
    match outcome {
        Ok(result) => WorkModel {
            item: ItemModel::Success(within(result@, output_bytes)),
            keys: verified_models(result.verified_host_keys@),
        },
        Err(error) => WorkModel {
            item: ItemModel::Failure(
                FailureModel {
                    host_alias: if error@.host_alias is None {
                        Some(alias)
                    } else {
                        error@.host_alias
                    },
                    ..error@
                },
            ),
            keys: Seq::empty(),
        },
    }
}

/// The failure of a host whose turn came after the deadline.
pub open spec fn too_late(alias: Seq<char>) -> WorkModel {
    WorkModel {
        item: ItemModel::Failure(
            failure_of(
                alias,
                "BATCH_TIMEOUT"@,
                "The whole-batch deadline expired before this host started."@,
            ),
        ),
        keys: Seq::empty(),
    }
}

/// The failure of a host whose turn never came.
pub open spec fn never_started(alias: Seq<char>) -> ItemModel {
    ItemModel::Failure(
        failure_of(
            alias,
            "BATCH_CANCELLED"@,
            "The batch stopped before this host started."@,
        ),
    )
}

/// A batch that runs: its hosts take their turns in order, a bounded number at a time.
pub struct Batch {
    pub hosts: Vec<HostProfile>,
    pub aliases: Vec<String>,
    pub action: BatchAction,
    pub options: BatchOptions,
    pub retain_sessions: bool,
    pub scope: Id,
    /// How many hosts may be busy at a time.
    pub concurrency: usize,
    /// Bytes of output that each host may contribute.
    pub output_bytes: usize,
    /// The moment after which no host starts, in milliseconds.
    pub deadline: Option<u64>,
    /// The host whose turn is next.
    pub next: usize,
    /// No further host starts.
    pub stop: bool,
    pub results: Vec<Option<BatchWork>>,
}

/// The host to start, or the one that came too late.
#[derive(Debug, Clone, Copy, PartialEq, Eq, Structural)]
pub enum BatchTurn {
    Run { index: usize, limits: OperationLimits },
    Expired { index: usize },
}

/// The host whose turn it is.
pub open spec fn host_of(turn: Option<BatchTurn>) -> Option<usize> {
    match turn {
        Some(BatchTurn::Run { index, .. }) => Some(index),
        Some(BatchTurn::Expired { index }) => Some(index),
        None => None,
    }
}

/// Bytes that each of so many hosts may contribute.
pub open spec fn output_share(hosts: nat) -> int {
    let share = MAX_BATCH_OUTPUT_BYTES as int / hosts as int;
    if share > MAX_SINGLE_RESULT_OUTPUT_BYTES {
        MAX_SINGLE_RESULT_OUTPUT_BYTES as int
    } else {
        share
    }
}

/// How many of so many hosts are busy at a time.
pub open spec fn batch_workers(max_concurrency: Option<usize>, hosts: nat) -> int {
    if workers(max_concurrency) > hosts {
        hosts as int
    } else {
        workers(max_concurrency)
    }
}

impl Batch {
    pub open spec fn inv(self) -> bool {
        &&& self.hosts@.len() == self.aliases@.len() == self.results@.len()
        &&& 0 < self.hosts@.len() <= MAX_BATCH_HOSTS
        &&& self.next <= self.hosts@.len()
        &&& 1 <= self.concurrency <= MAX_BATCH_CONCURRENCY
        &&& self.stop ==> !self.options.continue_on_error
        &&& forall|i: int|
            self.next <= i < self.results@.len() ==> (#[trigger] self.results@[i]) is None
    }

    /// Everything but the progress.
    pub open spec fn same_plan(self, other: Batch) -> bool {
        &&& self.hosts == other.hosts
        &&& self.aliases == other.aliases
        &&& self.action == other.action
        &&& self.options == other.options
        &&& self.retain_sessions == other.retain_sessions
        &&& self.scope == other.scope
        &&& self.concurrency == other.concurrency
        &&& self.output_bytes == other.output_bytes
        &&& self.deadline == other.deadline
    }

    /// What is left of the time, if it is limited.
    pub open spec fn time_left(self, now: u64) -> Option<u64> {
        match self.deadline {
            Some(end) => Some(
                if end > now {
                    (end - now) as u64
                } else {
                    0
                },
            ),
            None => None,
        }
    }

    /// The limits of a host that starts now.
    pub open spec fn host_limits(self, now: u64) -> OperationLimits {
        OperationLimits {
            output_bytes: Some(self.output_bytes),
            batch_scope: Some(self.scope),
            retain_sessions: self.retain_sessions,
            ..limited(self.options.timeouts, self.time_left(now))
        }
    }

    /// Plans a batch. Everything is checked before any host starts.
    pub fn start(
        known: &[HostProfile],
        aliases: Vec<String>,
        action: BatchAction,
        options: BatchOptions,
        retain_sessions: bool,
        scope: Id,
        now: u64,
    ) -> (r: Result<Batch, RemoteFailure>)
        requires
            now <= u64::MAX - MAX_TOOL_TIMEOUT_MS,
        ensures
            match r {
                Ok(batch) => {
                    &&& batch.inv()
                    &&& batch_resolves(models(known@), texts(aliases@), models(batch.hosts@))
                    &&& batch.aliases == aliases
                    &&& batch.action == action
                    &&& batch.options == options
                    &&& batch.retain_sessions == retain_sessions
                    &&& batch.scope == scope
                    &&& batch.concurrency == batch_workers(
                        options.max_concurrency,
                        aliases@.len(),
                    )
                    &&& batch.output_bytes == output_share(aliases@.len())
                    &&& batch.deadline == match options.batch_timeout_ms {
                        Some(value) => Some((now + capped(value)) as u64),
                        None => None,
                    }
                    &&& batch.next == 0
                    &&& !batch.stop
                },
                Err(error) => match batch_size_fault(aliases@.len()) {
                    Some(fault) => error@ == fault,
                    None => exists|i: int| #[trigger]
                        first_fault(models(known@), texts(aliases@), i) && error@
                            == batch_alias_fault(models(known@), texts(aliases@), i)->0,
                },
            },
    {
        let hosts = match resolve_batch_hosts(known, &aliases) {
            Ok(hosts) => hosts,
            Err(error) => {
                return Err(error);
            },
        };
        assert(hosts@.len() == models(hosts@).len());
        let count: usize = hosts.len();
        let wanted: usize = concurrency(options.max_concurrency);
        let share: usize = MAX_BATCH_OUTPUT_BYTES / count;
        let mut results: Vec<Option<BatchWork>> = Vec::new();
        let mut i: usize = 0;
        while i < count
            invariant
                i <= count,
                results@.len() == i,
                forall|j: int| 0 <= j < i ==> (#[trigger] results@[j]) is None,
            decreases count - i,
        {
            results.push(None);
            i = i + 1;
        }
        Ok(
            Batch {
                hosts,
                aliases,
                action,
                options,
                retain_sessions,
                scope,
                concurrency: if wanted > count {
                    count
                } else {
                    wanted
                },
                output_bytes: if share > MAX_SINGLE_RESULT_OUTPUT_BYTES {
                    MAX_SINGLE_RESULT_OUTPUT_BYTES
                } else {
                    share
                },
                deadline: match options.batch_timeout_ms {
                    Some(value) => Some(now + timeout_duration(value)),
                    None => None,
                },
                next: 0,
                stop: false,
                results,
            },
        )
    }

    /// Gives the next host its turn. After a failure in a batch that must not go on, no host
    /// gets one; after the deadline, a host fails without being started.
    pub fn take_next(&mut self, now: u64) -> (r: Option<BatchTurn>)
        requires
            old(self).inv(),
        ensures
            final(self).inv(),
            final(self).same_plan(*old(self)),
            moves_on(old(self).next, final(self).next, host_of(r)),
            r is None <==> old(self).stop || old(self).next == old(self).hosts@.len(),
            r is None ==> final(self).stop == old(self).stop && works(final(self).results@) == works(old(self).results@),
            r matches Some(turn) ==> match turn {
                BatchTurn::Run { index, limits } => {
                    &&& old(self).time_left(now) != Some(0u64)
                    &&& limits == old(self).host_limits(now)
                    &&& works(final(self).results@) == works(old(self).results@)
                    &&& final(self).stop == old(self).stop
                },
                BatchTurn::Expired { index } => {
                    &&& old(self).time_left(now) == Some(0u64)
                    &&& works(final(self).results@) == works(old(self).results@).update(
                        index as int,
                        Some(too_late(old(self).hosts@[index as int]@.alias)),
                    )
                    &&& final(self).stop == (old(self).stop
                        || !old(self).options.continue_on_error)
                },
            },
    {
        if self.stop || self.next >= self.hosts.len() {
            return None;
        }
        let index: usize = self.next;
        self.next = index + 1;
        let left: Option<u64> = match self.deadline {
            Some(end) => Some(
                if end > now {
                    end - now
                } else {
                    0
                },
            ),
            None => None,
        };
        if left.is_some() && left.unwrap() == 0 {
            let error = failure_for_alias(
                self.hosts[index].alias.as_str(),
                "BATCH_TIMEOUT",
                "The whole-batch deadline expired before this host started.",
            );
            let ghost before = works(self.results@);
            let keys: Vec<VerifiedHostKey> = Vec::new();
            assert(verified_models(keys@) =~= Seq::empty());
            let work = BatchWork { item: BatchItem::Failure(error), verified_host_keys: keys };
            let ghost model = work@;
            self.results.set(index, Some(work));
            assert(works(self.results@) =~= before.update(index as int, Some(model)));
            if !self.options.continue_on_error {
                self.stop = true;
            }
            return Some(BatchTurn::Expired { index });
        }
        let mut limits = limits(self.options.timeouts, left);
        limits.output_bytes = Some(self.output_bytes);
        limits.batch_scope = Some(self.scope);
        limits.retain_sessions = self.retain_sessions;
        Some(BatchTurn::Run { index, limits })
    }

    /// A host that was started has answered.
    pub fn finish(&mut self, index: usize, outcome: Result<RemoteResult, RemoteFailure>)
        requires
            old(self).inv(),
            index < old(self).next,
        ensures
            final(self).inv(),
            final(self).same_plan(*old(self)),
            moves_on(old(self).next, final(self).next, None),
            works(final(self).results@) == works(old(self).results@).update(
                index as int,
                Some(
                    kept(
                        outcome,
                        old(self).hosts@[index as int]@.alias,
                        old(self).output_bytes as nat,
                    ),
                ),
            ),
            final(self).stop == (old(self).stop || (outcome is Err
                && !old(self).options.continue_on_error)),
    {
        let ghost before = works(self.results@);
        let work = match outcome {
            Ok(result) => {
                let mut result = result;
                let keys = copy_verified(&result.verified_host_keys);
                limit_result_output(&mut result, self.output_bytes);
                BatchWork { item: BatchItem::Success(result), verified_host_keys: keys }
            },
            Err(error) => {
                let mut error = error;
                if error.host_alias.is_none() {
                    error.host_alias = Some(self.hosts[index].alias.clone());
                }
                if !self.options.continue_on_error {
                    self.stop = true;
                }
                let keys: Vec<VerifiedHostKey> = Vec::new();
                assert(verified_models(keys@) =~= Seq::empty());
                BatchWork { item: BatchItem::Failure(error), verified_host_keys: keys }
            },
        };
        let ghost model = work@;
        self.results.set(index, Some(work));
        assert(works(self.results@) =~= before.update(index as int, Some(model)));
    }

    /// Puts the answers together, in the order of the aliases.
    pub fn conclude(self, duration_ms: u64) -> (r: (BatchResult, Vec<VerifiedHostKey>))
        requires
            self.inv(),
        ensures
            r.0@ == concluded(
                works(self.results@),
                texts(self.aliases@),
                self.action.said(),
                duration_ms,
            ),
            verified_models(r.1@) == keys_seen(works(self.results@)),
            r.0.duration_ms == duration_ms,
            r.0.results@.len() == self.aliases@.len(),
            r.0.summary.requested == self.aliases@.len(),
            self.action is Probe ==> r.0.action@ == "batch_probe"@,
            self.action is Exec ==> r.0.action@ == "batch_exec"@,
    {
        let ghost slots = works(self.results@);
        let ghost names = texts(self.aliases@);
        let action = self.action.name();
        let aliases = self.aliases;
        let mut pending = self.results;
        let mut keys: Vec<VerifiedHostKey> = Vec::new();
        let mut values: Vec<BatchItem> = Vec::new();
        let total: usize = aliases.len();
        let mut summary = BatchSummary {
            requested: total,
            succeeded: 0,
            remote_errors: 0,
            failed: 0,
            cancelled: 0,
        };
        let mut i: usize = 0;
        assert(verified_models(keys@) =~= Seq::empty());
        while i < total
            invariant
                i <= total,
                total == aliases@.len(),
                total <= MAX_BATCH_HOSTS,
                slots.len() == total,
                names == texts(aliases@),
                pending@.len() == total - i,
                works(pending@) == slots.skip(i as int),
                items(values@) == outcomes(slots, names).take(i as int),
                verified_models(keys@) == keys_seen(slots.take(i as int)),
                summary == (BatchSummary { requested: total, ..tally(slots.take(i as int)) }),
                tally(slots.take(i as int)).requested == i,
                summary.succeeded + summary.remote_errors + summary.failed + summary.cancelled == i,
            decreases total - i,
        {
            let ghost more = slots.take(i + 1);
            assert(more.drop_last() =~= slots.take(i as int));
            assert(more.last() == slots[i as int]);
            assert(works(pending@)[0] == slots[i as int]);
            let ghost waiting = pending@;
            let slot = pending.remove(0);
            proof {
                assert forall|k: int| 0 <= k < pending@.len() implies works(pending@)[k]
                    == slots.skip(i + 1)[k] by {
                    assert(pending@[k] == waiting[k + 1]);
                    assert(works(waiting)[k + 1] == slots.skip(i as int)[k + 1]);
                }
                assert(works(pending@) =~= slots.skip(i + 1));
            }
            let ghost before = items(values@);
            match slot {
                None => {
                    summary.cancelled = summary.cancelled + 1;
                    values.push(
                        BatchItem::Failure(
                            failure_for_alias(
                                aliases[i].as_str(),
                                "BATCH_CANCELLED",
                                "The batch stopped before this host started.",
                            ),
                        ),
                    );
                },
                Some(work) => {
                    let status = work.item.status();
                    if same_text(status, "ok") {
                        summary.succeeded = summary.succeeded + 1;
                    } else if same_text(status, "remote_error") {
                        summary.remote_errors = summary.remote_errors + 1;
                    } else {
                        summary.failed = summary.failed + 1;
                    }
                    append_keys(&mut keys, &work.verified_host_keys);
                    values.push(work.item);
                },
            }
            assert(items(values@) =~= before.push(outcomes(slots, names)[i as int]));
            assert(outcomes(slots, names).take(i + 1) =~= outcomes(slots, names).take(
                i as int,
            ).push(outcomes(slots, names)[i as int]));
            i = i + 1;
        }
        assert(slots.take(i as int) =~= slots);
        assert(outcomes(slots, names).take(i as int) =~= outcomes(slots, names));
        let status = if summary.failed == 0 && summary.cancelled == 0 {
            if summary.remote_errors == 0 {
                "ok"
            } else {
                "completed_with_remote_errors"
            }
        } else {
            "completed_with_errors"
        };
        assert(items(values@).len() == values@.len());
        let result = BatchResult {
            schema_version: SCHEMA_VERSION,
            status,
            action,
            duration_ms,
            results: values,
            summary,
        };
        (result, keys)
    }
}

fn append_keys(keys: &mut Vec<VerifiedHostKey>, more: &Vec<VerifiedHostKey>)
    ensures
        verified_models(final(keys)@) == verified_models(old(keys)@) + verified_models(more@),
{
    let mut i: usize = 0;
    while i < more.len()
        invariant
            i <= more@.len(),
            verified_models(keys@) == verified_models(old(keys)@) + verified_models(more@).take(
                i as int,
            ),
        decreases more@.len() - i,
    {
        let ghost before = verified_models(keys@);
        keys.push(more[i].clone());
        assert(verified_models(keys@) =~= before.push(more@[i as int]@));
        assert(verified_models(keys@) =~= verified_models(old(keys)@) + verified_models(
            more@,
        ).take(i + 1));
        i = i + 1;
    }
    assert(verified_models(more@).take(i as int) =~= verified_models(more@));
}

/// What is reported of each host.
pub open spec fn outcomes(slots: Seq<Option<WorkModel>>, aliases: Seq<Seq<char>>) -> Seq<ItemModel> {
    Seq::new(
        slots.len(),
        |i: int|
            match slots[i] {
                Some(work) => work.item,
                None => never_started(aliases[i]),
            },
    )
}

/// The host keys that were accepted, host by host.
pub open spec fn keys_seen(slots: Seq<Option<WorkModel>>) -> Seq<VerifiedModel>
    decreases slots.len(),
{
    if slots.len() == 0 {
        Seq::empty()
    } else {
        let before = keys_seen(slots.drop_last());
        match slots.last() {
            Some(work) => before + work.keys,
            None => before,
        }
    }
}

/// How many hosts ended how.
pub open spec fn tally(slots: Seq<Option<WorkModel>>) -> BatchSummary
    decreases slots.len(),
{
    if slots.len() == 0 {
        BatchSummary { requested: 0, succeeded: 0, remote_errors: 0, failed: 0, cancelled: 0 }
    } else {
        let before = tally(slots.drop_last());
        let counted = BatchSummary { requested: (before.requested + 1) as usize, ..before };
        match slots.last() {
            None => BatchSummary { cancelled: (before.cancelled + 1) as usize, ..counted },
            Some(work) => if work.item.status() == "ok"@ {
                BatchSummary { succeeded: (before.succeeded + 1) as usize, ..counted }
            } else if work.item.status() == "remote_error"@ {
                BatchSummary { remote_errors: (before.remote_errors + 1) as usize, ..counted }
            } else {
                BatchSummary { failed: (before.failed + 1) as usize, ..counted }
            },
        }
    }
}

/// How the batch went as a whole.
pub open spec fn batch_status(summary: BatchSummary) -> Seq<char> {
    if summary.failed == 0 && summary.cancelled == 0 {
        if summary.remote_errors == 0 {
            "ok"@
        } else {
            "completed_with_remote_errors"@
        }
    } else {
        "completed_with_errors"@
    }
}

/// The result of a batch.
pub open spec fn concluded(
    slots: Seq<Option<WorkModel>>,
    aliases: Seq<Seq<char>>,
    action: Seq<char>,
    duration_ms: u64,
) -> BatchModel {
    BatchModel {
        schema_version: SCHEMA_VERSION,
        status: batch_status(tally(slots)),
        action,
        duration_ms,
        results: outcomes(slots, aliases),
        summary: tally(slots),
    }
}

/// Every host of a batch is counted once.
pub proof fn every_host_is_counted(slots: Seq<Option<WorkModel>>)
    requires
        slots.len() <= MAX_BATCH_HOSTS,
    ensures
        ({
            let summary = tally(slots);
            &&& summary.requested == slots.len()
            &&& summary.succeeded + summary.remote_errors + summary.failed + summary.cancelled
                == summary.requested
        }),
    decreases slots.len(),
{
    if slots.len() > 0 {
        every_host_is_counted(slots.drop_last());
    }
}

proof fn lemma_nothing_cancelled(slots: Seq<Option<WorkModel>>)
    requires
        slots.len() <= MAX_BATCH_HOSTS,
        forall|i: int| 0 <= i < slots.len() ==> (#[trigger] slots[i]) is Some,
    ensures
        tally(slots).cancelled == 0,
    decreases slots.len(),
{
    if slots.len() > 0 {
        let short = slots.drop_last();
        assert forall|i: int| 0 <= i < short.len() implies (#[trigger] short[i]) is Some by {
            assert(slots[i] is Some);
        }
        lemma_nothing_cancelled(short);
        assert(slots[slots.len() - 1] is Some);
    }
}

/// A batch that goes on after errors cancels nothing: when no host gets a turn any more and all
/// that had one are done, every host has its own outcome.
pub proof fn going_on_cancels_nothing(batch: Batch)
    requires
        batch.inv(),
        batch.options.continue_on_error,
        batch.stop || batch.next == batch.hosts@.len(),
        forall|i: int| 0 <= i < batch.next ==> (#[trigger] batch.results@[i]) is Some,
    ensures
        forall|i: int|
            0 <= i < batch.hosts@.len() ==> (#[trigger] works(batch.results@)[i]) is Some,
        tally(works(batch.results@)).cancelled == 0,
{
    let slots = works(batch.results@);
    assert forall|i: int| 0 <= i < slots.len() implies (#[trigger] slots[i]) is Some by {
        assert(batch.results@[i] is Some);
    }
    lemma_nothing_cancelled(slots);
}

/// The longest part from the front of a text, in whole characters, that fits into so many bytes.
pub open spec fn is_longest_front(part: Seq<char>, whole: Seq<char>, limit: int) -> bool {
    &&& part.is_prefix_of(whole)
    &&& utf8_len(part) <= limit
    &&& part.len() < whole.len() ==> utf8_len(whole.take(part.len() as int + 1)) > limit
}

/// A result that fits comes back as it is. Of one that does not, what was printed keeps as much
/// as fits, what was complained keeps as much as fits into the bytes that are left, and it is
/// told that something was dropped; nothing else about it changes.
pub proof fn output_is_cut_only_where_it_must_be(result: ResultModel, limit: nat)
    ensures
        utf8_len(result.stdout) + utf8_len(result.stderr) <= limit ==> within(result, limit)
            == result,
        utf8_len(result.stdout) + utf8_len(result.stderr) > limit ==> within(
            result,
            limit,
        ).output_truncated,
        is_longest_front(within(result, limit).stdout, result.stdout, limit as int),
        is_longest_front(
            within(result, limit).stderr,
            result.stderr,
            limit - utf8_len(within(result, limit).stdout),
        ),
        within(result, limit) == (ResultModel {
            stdout: within(result, limit).stdout,
            stderr: within(result, limit).stderr,
            output_truncated: within(result, limit).output_truncated,
            ..result
        }),
{
    let stdout = cut(result.stdout, limit);
    cutting_keeps_what_fits(result.stdout, limit);
    let left = (limit - utf8_len(stdout)) as nat;
    cutting_keeps_what_fits(result.stderr, left);
    let after = within(result, limit);
    assert(stdout.len() == crate::text::fitting(result.stdout, limit));
    assert(after.stderr == cut(result.stderr, left));
    assert(after.stderr.len() == crate::text::fitting(result.stderr, left));
    assert(stdout.is_prefix_of(result.stdout));
    assert(after.stderr.is_prefix_of(result.stderr));
    if utf8_len(result.stdout) + utf8_len(result.stderr) <= limit {
        assert(after =~= result);
    }
}

/// What is kept of a host's answer is that answer: its status, its exit code and, as far as there
/// is room, what it printed; or its failure, which names the host.
pub proof fn answers_are_kept_under_their_host(
    outcome: Result<RemoteResult, RemoteFailure>,
    alias: Seq<char>,
    output_bytes: nat,
)
    ensures
        outcome matches Ok(result) ==> {
            let work = kept(outcome, alias, output_bytes);
            &&& work.item matches ItemModel::Success(answer) && answer.status == result.status@
                && answer.exit_code == result.exit_code && answer.alias == result.alias@ && (
            utf8_len(result.stdout@) + utf8_len(result.stderr@) <= output_bytes ==> answer.stdout
                == result.stdout@ && answer.stderr == result.stderr@ && answer.output_truncated
                == result.output_truncated)
            &&& work.keys.len() == result.verified_host_keys@.len()
            &&& forall|i: int|
                0 <= i < work.keys.len() ==> (#[trigger] work.keys[i]).fingerprint
                    == result.verified_host_keys@[i].fingerprint@ && work.keys[i].host_id
                    == result.verified_host_keys@[i].host_id
        },
        outcome matches Err(error) ==> {
            let work = kept(outcome, alias, output_bytes);
            &&& work.item matches ItemModel::Failure(answer) && answer.code == error.code@
                && answer.message == error.message@ && answer.host_alias == Some(
                match error.host_alias {
                    Some(named) => named@,
                    None => alias,
                },
            )
            &&& work.keys.len() == 0
        },
{
    if outcome is Ok {
        let result = outcome->Ok_0;
        output_is_cut_only_where_it_must_be(result@, output_bytes);
        assert(result@.status == result.status@ && result@.alias == result.alias@);
        assert(result@.stdout == result.stdout@ && result@.stderr == result.stderr@);
        assert forall|i: int| 0 <= i < result.verified_host_keys@.len() implies (
        #[trigger] verified_models(result.verified_host_keys@)[i]).fingerprint
            == result.verified_host_keys@[i].fingerprint@ by {
            assert(result.verified_host_keys@[i]@.fingerprint
                == result.verified_host_keys@[i].fingerprint@);
        }
    } else {
        let error = outcome->Err_0;
        assert(error@.code == error.code@ && error@.message == error.message@);
    }
}

/// What is reported of the host in a place is what was got from that host; a host that got no
/// turn is reported as cancelled, under its own alias.
pub proof fn answers_stand_in_the_order_of_the_hosts(
    slots: Seq<Option<WorkModel>>,
    aliases: Seq<Seq<char>>,
    action: Seq<char>,
    duration_ms: u64,
    i: int,
)
    requires
        slots.len() == aliases.len(),
        0 <= i < slots.len(),
    ensures
        ({
            let results = concluded(slots, aliases, action, duration_ms).results;
            &&& results.len() == aliases.len()
            &&& slots[i] is Some ==> results[i] == slots[i]->0.item
            &&& slots[i] is None ==> (results[i] matches ItemModel::Failure(error) && error.code
                == "BATCH_CANCELLED"@ && error.host_alias == Some(aliases[i]))
        }),
        concluded(slots, aliases, action, duration_ms).action == action,
        concluded(slots, aliases, action, duration_ms).duration_ms == duration_ms,
{
}

/// The host answered, and its command ended with zero.
pub open spec fn is_fine(slot: Option<WorkModel>) -> bool {
    slot matches Some(work) && (work.item matches ItemModel::Success(result) && result.status
        == "ok"@)
}

/// The host answered, and its command ended with something else.
pub open spec fn is_remote_error(slot: Option<WorkModel>) -> bool {
    slot matches Some(work) && (work.item matches ItemModel::Success(result) && result.status
        == "remote_error"@)
}

/// The host could not be asked.
pub open spec fn is_failed(slot: Option<WorkModel>) -> bool {
    slot matches Some(work) && work.item is Failure
}

/// An answer of a host: an ended command with one of the two words for it, or a failure.
pub open spec fn is_answer(slot: Option<WorkModel>) -> bool {
    slot matches Some(work) ==> match work.item {
        ItemModel::Success(result) => result.status == "ok"@ || result.status == "remote_error"@,
        ItemModel::Failure(error) => error.status == "error"@,
    }
}

proof fn lemma_words()
    ensures
        "ok"@ != "error"@,
        "ok"@ != "remote_error"@,
        "error"@ != "remote_error"@,
        "ok"@ != "completed_with_errors"@,
        "ok"@ != "completed_with_remote_errors"@,
        "completed_with_errors"@ != "completed_with_remote_errors"@,
{
    reveal_strlit("ok");
    reveal_strlit("error");
    reveal_strlit("remote_error");
    reveal_strlit("completed_with_errors");
    reveal_strlit("completed_with_remote_errors");
    assert("ok"@.len() == 2 && "error"@.len() == 5 && "remote_error"@.len() == 12);
    assert("completed_with_errors"@.len() == 21 && "completed_with_remote_errors"@.len() == 28);
}

/// The summary counts the answers by their kind.
pub proof fn the_summary_counts_the_answers(slots: Seq<Option<WorkModel>>)
    requires
        slots.len() <= MAX_BATCH_HOSTS,
        forall|i: int| 0 <= i < slots.len() ==> is_answer(#[trigger] slots[i]),
    ensures
        tally(slots).requested == slots.len(),
        tally(slots).succeeded == slots.filter(|s: Option<WorkModel>| is_fine(s)).len(),
        tally(slots).remote_errors == slots.filter(
            |s: Option<WorkModel>| is_remote_error(s),
        ).len(),
        tally(slots).failed == slots.filter(|s: Option<WorkModel>| is_failed(s)).len(),
        tally(slots).cancelled == slots.filter(|s: Option<WorkModel>| s is None).len(),
    decreases slots.len(),
{
    reveal(Seq::filter);
    lemma_words();
    if slots.len() > 0 {
        let short = slots.drop_last();
        assert forall|i: int| 0 <= i < short.len() implies is_answer(#[trigger] short[i]) by {
            assert(short[i] == slots[i]);
        }
        the_summary_counts_the_answers(short);
        every_host_is_counted(short);
        assert(is_answer(slots[slots.len() - 1]));
    }
}

/// A batch is `ok` exactly where every host answered with `ok`, and `completed_with_errors`
/// exactly where some host failed or got no turn.
pub proof fn a_batch_is_ok_when_all_hosts_are(
    slots: Seq<Option<WorkModel>>,
    aliases: Seq<Seq<char>>,
    action: Seq<char>,
    duration_ms: u64,
)
    requires
        slots.len() <= MAX_BATCH_HOSTS,
        forall|i: int| 0 <= i < slots.len() ==> is_answer(#[trigger] slots[i]),
    ensures
        concluded(slots, aliases, action, duration_ms).status == "ok"@ <==> forall|i: int|
            0 <= i < slots.len() ==> is_fine(#[trigger] slots[i]),
        concluded(slots, aliases, action, duration_ms).status == "completed_with_errors"@
            <==> exists|i: int|
            0 <= i < slots.len() && ((#[trigger] slots[i]) is None || is_failed(slots[i])),
        concluded(slots, aliases, action, duration_ms).status == "ok"@ || concluded(
            slots,
            aliases,
            action,
            duration_ms,
        ).status == "completed_with_errors"@ || concluded(
            slots,
            aliases,
            action,
            duration_ms,
        ).status == "completed_with_remote_errors"@,
{
    lemma_words();
    lemma_tally_kinds(slots);
}

proof fn lemma_tally_kinds(slots: Seq<Option<WorkModel>>)
    requires
        slots.len() <= MAX_BATCH_HOSTS,
        forall|i: int| 0 <= i < slots.len() ==> is_answer(#[trigger] slots[i]),
    ensures
        tally(slots).failed > 0 || tally(slots).cancelled > 0 <==> exists|i: int|
            0 <= i < slots.len() && ((#[trigger] slots[i]) is None || is_failed(slots[i])),
        tally(slots).failed == 0 && tally(slots).cancelled == 0 && tally(slots).remote_errors == 0
            <==> forall|i: int| 0 <= i < slots.len() ==> is_fine(#[trigger] slots[i]),
    decreases slots.len(),
{
    lemma_words();
    if slots.len() > 0 {
        let short = slots.drop_last();
        assert forall|i: int| 0 <= i < short.len() implies is_answer(#[trigger] short[i]) by {
            assert(short[i] == slots[i]);
        }
        lemma_tally_kinds(short);
        every_host_is_counted(short);
        every_host_is_counted(slots);
        let last = slots[slots.len() - 1];
        assert(is_answer(last));
        assert(forall|i: int| 0 <= i < short.len() ==> short[i] == slots[i]);
        if exists|i: int|
            0 <= i < slots.len() && ((#[trigger] slots[i]) is None || is_failed(slots[i])) {
            let i = choose|i: int|
                0 <= i < slots.len() && ((#[trigger] slots[i]) is None || is_failed(slots[i]));
            if i < short.len() {
                assert(short[i] is None || is_failed(short[i]));
            }
        }
        if exists|i: int|
            0 <= i < short.len() && ((#[trigger] short[i]) is None || is_failed(short[i])) {
            let i = choose|i: int|
                0 <= i < short.len() && ((#[trigger] short[i]) is None || is_failed(short[i]));
            assert(slots[i] is None || is_failed(slots[i]));
        }
        if forall|i: int| 0 <= i < slots.len() ==> is_fine(#[trigger] slots[i]) {
            assert forall|i: int| 0 <= i < short.len() implies is_fine(#[trigger] short[i]) by {
                assert(is_fine(slots[i]));
            }
            assert(is_fine(last));
        }
        if (forall|i: int| 0 <= i < short.len() ==> is_fine(#[trigger] short[i])) && is_fine(last) {
            assert forall|i: int| 0 <= i < slots.len() implies is_fine(#[trigger] slots[i]) by {
                if i < short.len() {
                    assert(is_fine(short[i]));
                }
            }
        }
    }
}

/// Every key that some host showed is reported, and none that no host showed.
pub proof fn all_host_keys_are_reported(slots: Seq<Option<WorkModel>>, key: VerifiedModel)
    ensures
        keys_seen(slots).contains(key) <==> exists|i: int|
            0 <= i < slots.len() && (#[trigger] slots[i]) is Some && slots[i]->0.keys.contains(key),
    decreases slots.len(),
{
    if slots.len() > 0 {
        let short = slots.drop_last();
        all_host_keys_are_reported(short, key);
        let before = keys_seen(short);
        let last = slots[slots.len() - 1];
        if keys_seen(slots).contains(key) {
            let k = choose|k: int| 0 <= k < keys_seen(slots).len() && keys_seen(slots)[k] == key;
            if k < before.len() {
                assert(before[k] == key);
                let i = choose|i: int|
                    0 <= i < short.len() && (#[trigger] short[i]) is Some && short[i]->0.keys.contains(
                        key,
                    );
                assert(slots[i]->0.keys.contains(key));
            } else {
                assert(last->0.keys[k - before.len()] == key);
                assert(slots[slots.len() - 1]->0.keys.contains(key));
            }
        }
        if exists|i: int|
            0 <= i < slots.len() && (#[trigger] slots[i]) is Some && slots[i]->0.keys.contains(
                key,
            ) {
            let i = choose|i: int|
                0 <= i < slots.len() && (#[trigger] slots[i]) is Some && slots[i]->0.keys.contains(
                    key,
                );
            if i < short.len() {
                assert(short[i]->0.keys.contains(key));
                let k = choose|k: int| 0 <= k < before.len() && before[k] == key;
                assert(keys_seen(slots)[k] == key);
            } else {
                let k = choose|k: int| 0 <= k < last->0.keys.len() && last->0.keys[k] == key;
                assert(keys_seen(slots)[before.len() + k] == key);
            }
        }
    }
}

/// The hosts share the output of the batch: together they stay within eight mebibytes, none gets
/// more than two, and a byte more for each would be too much.
pub proof fn hosts_share_the_output(hosts: nat)
    requires
        0 < hosts <= MAX_BATCH_HOSTS,
    ensures
        output_share(hosts) * hosts <= 8 * 1024 * 1024,
        0 < output_share(hosts) <= 2 * 1024 * 1024,
        output_share(hosts) == 2 * 1024 * 1024 || (output_share(hosts) + 1) * hosts > 8 * 1024 * 1024,
{
    let total: int = 8_388_608;
    let n = hosts as int;
    let share = total / n;
    vstd::arithmetic::div_mod::lemma_fundamental_div_mod(total, n);
    assert(share * n <= total && (share + 1) * n > total) by (nonlinear_arith)
        requires
            total == n * share + total % n,
            0 <= total % n < n,
    ;
    assert(share > 0) by (nonlinear_arith)
        requires
            (share + 1) * n > total,
            n <= 256,
            n > 0,
            total == 8388608,
    ;
    let given = output_share(hosts);
    assert(given * n <= total) by (nonlinear_arith)
        requires
            given <= share,
            share * n <= total,
            n > 0,
    ;
}

/// A host that starts has the time that the batch has left, and no more; one that would start
/// after the deadline does not.
pub proof fn the_deadline_bounds_every_host(batch: Batch, start: u64, timeout: u64, now: u64)
    requires
        start <= u64::MAX - MAX_TOOL_TIMEOUT_MS,
        batch.deadline == Some((start + capped(timeout)) as u64),
    ensures
        now < start + capped(timeout) ==> batch.host_limits(now).total_timeout == Some(
            (start + capped(timeout) - now) as u64,
        ),
        now >= start + capped(timeout) <==> batch.time_left(now) == Some(0u64),
        batch.host_limits(now).output_bytes == Some(batch.output_bytes),
        batch.host_limits(now).batch_scope == Some(batch.scope),
        batch.host_limits(now).retain_sessions == batch.retain_sessions,
{
}

/// Without a deadline no host is limited in the time of the whole operation.
pub proof fn without_a_deadline_no_host_expires(batch: Batch, now: u64)
    requires
        batch.deadline is None,
    ensures
        batch.host_limits(now).total_timeout is None,
        batch.time_left(now) is None,
{
}

/// As many hosts are busy at a time as were asked for: eight where nothing was, never more than
/// sixteen, and never more than there are.
pub proof fn workers_are_as_asked(max_concurrency: Option<usize>, hosts: nat)
    requires
        hosts > 0,
    ensures
        1 <= batch_workers(max_concurrency, hosts) <= hosts,
        batch_workers(max_concurrency, hosts) <= 16,
        max_concurrency is None && hosts >= 8 ==> batch_workers(max_concurrency, hosts) == 8,
        max_concurrency matches Some(n) ==> (1 <= n <= 16 && n <= hosts ==> batch_workers(
            max_concurrency,
            hosts,
        ) == n),
        max_concurrency matches Some(n) ==> (n >= 1 ==> batch_workers(max_concurrency, hosts) <= n),
        max_concurrency matches Some(n) ==> (n > 16 && hosts >= 16 ==> batch_workers(
            max_concurrency,
            hosts,
        ) == 16),
{
}

/// A host whose turn came too late, or never, is reported under its alias with a code of its own.
pub proof fn hosts_that_never_ran_are_reported(alias: Seq<char>)
    ensures
        too_late(alias).item matches ItemModel::Failure(error) && error.host_alias == Some(alias)
            && error.code == "BATCH_TIMEOUT"@ && error.status == "error"@,
        too_late(alias).keys.len() == 0,
        never_started(alias) matches ItemModel::Failure(error) && error.host_alias == Some(alias)
            && error.code == "BATCH_CANCELLED"@,
{
}

} // verus!
