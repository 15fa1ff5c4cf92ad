//! Results are cut until their JSON fits: the longest output is shortened first.
use vstd::prelude::*;

use crate::batch::{items, BatchItem, BatchModel, BatchResult, BatchSummary, ItemModel};
use crate::failure::{failure, FailureModel, RemoteFailure};
use crate::json::{
    has_part, lemma_says_at, lemma_says_within, list, lists_show_their_items, member, object, pad,
    quoted, says, Lines,
};
use crate::remote::{
    command_models, CommandModel, ManyModel, RemoteCommandResult, RemoteManyResult, ResultModel,
};
use crate::report::{
    failure_json, failures_say_what_went_wrong, many_json, result_json, results_say_what_happened,
    write_failure, write_many, write_result,
};
use crate::text::{
    byte_len, cut, cutting_keeps_what_fits, decimal, fitting, lemma_utf8_len, truncate_utf8,
    utf8_len,
};

verus! {

pub open spec fn summary_json(level: nat, summary: BatchSummary) -> Seq<char> {
    object(
        level,
        seq![
            member(level, "requested"@, decimal(summary.requested as nat)),
            member(level, "succeeded"@, decimal(summary.succeeded as nat)),
            member(level, "remote_errors"@, decimal(summary.remote_errors as nat)),
            member(level, "failed"@, decimal(summary.failed as nat)),
            member(level, "cancelled"@, decimal(summary.cancelled as nat)),
        ],
    )
}

fn write_summary(level: usize, summary: &BatchSummary) -> (r: String)
    requires
        level < 900,
    ensures
        r@ == summary_json(level as nat, *summary),
{
    let ghost l = level as nat;
    let mut lines = Lines::new(level);
    lines.put_number("requested", summary.requested as u64);
    lines.put_number("succeeded", summary.succeeded as u64);
    lines.put_number("remote_errors", summary.remote_errors as u64);
    lines.put_number("failed", summary.failed as u64);
    lines.put_number("cancelled", summary.cancelled as u64);
    assert(lines@ =~= seq![
        member(l, "requested"@, decimal(summary.requested as nat)),
        member(l, "succeeded"@, decimal(summary.succeeded as nat)),
        member(l, "remote_errors"@, decimal(summary.remote_errors as nat)),
        member(l, "failed"@, decimal(summary.failed as nat)),
        member(l, "cancelled"@, decimal(summary.cancelled as nat)),
    ]);
    lines.into_object()
}

/// What became of a host, as JSON: a result or a failure, with nothing around it.
pub open spec fn item_json(level: nat, item: ItemModel) -> Seq<char> {
    match item {
        ItemModel::Success(result) => result_json(level, result),
        ItemModel::Failure(error) => failure_json(level, error),
    }
}

fn write_item(level: usize, item: &BatchItem) -> (r: String)
    requires
        level < 900,
    ensures
        r@ == item_json(level as nat, item@),
{
    match item {
        BatchItem::Success(result) => write_result(level, result),
        BatchItem::Failure(error) => write_failure(level, error),
    }
}

/// A batch as it is written.
pub open spec fn batch_json(result: BatchModel) -> Seq<char> {
    object(
        0,
        seq![
            member(0, "schema_version"@, decimal(result.schema_version as nat)),
            member(0, "status"@, quoted(result.status)),
            member(0, "action"@, quoted(result.action)),
            member(0, "duration_ms"@, decimal(result.duration_ms as nat)),
            member(
                0,
                "results"@,
                list(
                    1,
                    Seq::new(result.results.len(), |i: int| item_json(2, result.results[i])),
                ),
            ),
            member(0, "summary"@, summary_json(1, result.summary)),
        ],
    )
}

fn write_items(results: &Vec<BatchItem>) -> (r: String)
    ensures
        r@ == list(1, Seq::new(results@.len(), |i: int| item_json(2, items(results@)[i]))),
{
    let ghost texts = Seq::new(results@.len(), |i: int| item_json(2, items(results@)[i]));
    let ghost whole = Seq::new(texts.len(), |i: int| pad(2) + texts[i]);
    let mut lines = Lines::new(1);
    let mut i: usize = 0;
    while i < results.len()
        invariant
            i <= results@.len(),
            lines.inv(),
            lines.level == 1,
            texts == Seq::new(results@.len(), |i: int| item_json(2, items(results@)[i])),
            whole == Seq::new(texts.len(), |i: int| pad(2) + texts[i]),
            lines@ == whole.take(i as int),
        decreases results@.len() - i,
    {
        let item = write_item(2, &results[i]);
        assert(item@ == texts[i as int]);
        lines.item(item.as_str());
        assert(lines@ =~= whole.take(i + 1));
        i = i + 1;
    }
    assert(whole.take(i as int) =~= whole);
    assert(Seq::new(texts.len(), |i: int| pad(1 + 1) + texts[i]) =~= whole);
    lines.into_list()
}

impl BatchResult {
    pub fn json(&self) -> (r: String)
        ensures
            r@ == batch_json(self@),
    {
        let mut lines = Lines::new(0);
        lines.put_number("schema_version", self.schema_version as u64);
        lines.put_text("status", self.status);
        lines.put_text("action", self.action);
        lines.put_number("duration_ms", self.duration_ms);
        lines.put("results", write_items(&self.results).as_str());
        lines.put("summary", write_summary(1, &self.summary).as_str());
        proof {
            let texts = Seq::new(self@.results.len(), |i: int| item_json(2, self@.results[i]));
            assert(texts =~= Seq::new(
                self.results@.len(),
                |i: int| item_json(2, items(self.results@)[i]),
            ));
            assert(lines@ =~= seq![
                member(0, "schema_version"@, decimal(self@.schema_version as nat)),
                member(0, "status"@, quoted(self@.status)),
                member(0, "action"@, quoted(self@.action)),
                member(0, "duration_ms"@, decimal(self@.duration_ms as nat)),
                member(0, "results"@, list(1, texts)),
                member(0, "summary"@, summary_json(1, self@.summary)),
            ]);
        }
        lines.into_object()
    }
}

/// The sum of some lengths.
pub open spec fn total(lengths: Seq<nat>) -> nat
    decreases lengths.len(),
{
    if lengths.len() == 0 {
        0
    } else {
        total(lengths.drop_last()) + lengths.last()
    }
}

/// Position of the greatest of some lengths; the first of several.
pub open spec fn largest(lengths: Seq<nat>) -> int
    decreases lengths.len(),
{
    if lengths.len() <= 1 {
        0
    } else {
        let best = largest(lengths.drop_last());
        if lengths.last() > lengths[best] {
            lengths.len() - 1
        } else {
            best
        }
    }
}

/// No output is longer than the one that is cut, and those before it are shorter.
pub proof fn the_longest_output_is_cut(lengths: Seq<nat>)
    requires
        lengths.len() > 0,
    ensures
        0 <= largest(lengths) < lengths.len(),
        forall|i: int|
            0 <= i < lengths.len() ==> (#[trigger] lengths[i]) <= lengths[largest(lengths)],
        forall|i: int|
            0 <= i < largest(lengths) ==> (#[trigger] lengths[i]) < lengths[largest(lengths)],
    decreases lengths.len(),
{
    if lengths.len() > 1 {
        let short = lengths.drop_last();
        the_longest_output_is_cut(short);
        assert(forall|i: int| 0 <= i < short.len() ==> (#[trigger] lengths[i]) == short[i]);
    }
}

proof fn lemma_total_update(lengths: Seq<nat>, at: int, value: nat)
    requires
        0 <= at < lengths.len(),
    ensures
        total(lengths.update(at, value)) == total(lengths) - lengths[at] + value,
    decreases lengths.len(),
{
    let after = lengths.update(at, value);
    if at == lengths.len() - 1 {
        assert(after.drop_last() =~= lengths.drop_last());
    } else {
        lemma_total_update(lengths.drop_last(), at, value);
        assert(after.drop_last() =~= lengths.drop_last().update(at, value));
    }
}

/// The lengths of what every host printed and complained, one after the other.
pub open spec fn batch_lengths(results: Seq<ItemModel>) -> Seq<nat> {
    Seq::new(
        2 * results.len(),
        |k: int|
            match results[k / 2] {
                ItemModel::Success(result) => if k % 2 == 0 {
                    utf8_len(result.stdout)
                } else {
                    utf8_len(result.stderr)
                },
                ItemModel::Failure(_) => 0,
            },
    )
}

/// What is left of a length when so much is to go.
pub open spec fn left_of(length: nat, requested: nat) -> nat {
    if requested >= length {
        0
    } else {
        (length - requested) as nat
    }
}

/// A result with one of its outputs shortened.
pub open spec fn shortened(item: ItemModel, on_stderr: bool, requested: nat) -> ItemModel {
    match item {
        ItemModel::Success(result) => ItemModel::Success(
            if on_stderr {
                ResultModel {
                    stderr: cut(result.stderr, left_of(utf8_len(result.stderr), requested)),
                    output_truncated: true,
                    ..result
                }
            } else {
                ResultModel {
                    stdout: cut(result.stdout, left_of(utf8_len(result.stdout), requested)),
                    output_truncated: true,
                    ..result
                }
            },
        ),
        ItemModel::Failure(error) => item,
    }
}

/// Some host printed or complained something.
pub open spec fn batch_has_output(results: Seq<ItemModel>) -> bool {
    results.len() > 0 && batch_lengths(results)[largest(batch_lengths(results))] > 0
}

/// The results with the longest output shortened.
pub open spec fn batch_trimmed(results: Seq<ItemModel>, requested: nat) -> Seq<ItemModel> {
    let at = largest(batch_lengths(results));
    results.update(at / 2, shortened(results[at / 2], at % 2 == 1, requested))
}

/// Every cut makes the output of a batch shorter.
pub proof fn cutting_a_batch_makes_progress(results: Seq<ItemModel>, requested: nat)
    requires
        batch_has_output(results),
        requested > 0,
    ensures
        total(batch_lengths(batch_trimmed(results, requested))) < total(batch_lengths(results)),
        batch_trimmed(results, requested).len() == results.len(),
{
    let lengths = batch_lengths(results);
    the_longest_output_is_cut(lengths);
    let at = largest(lengths);
    let after = batch_trimmed(results, requested);
    let limit = left_of(lengths[at], requested);
    match results[at / 2] {
        ItemModel::Success(result) => {
            cutting_keeps_what_fits(result.stdout, limit);
            cutting_keeps_what_fits(result.stderr, limit);
            let value = batch_lengths(after)[at];
            assert(value <= limit);
            assert forall|k: int| 0 <= k < lengths.len() implies batch_lengths(after)[k]
                == lengths.update(at, value)[k] by {
                if k / 2 != at / 2 {
                    assert(after[k / 2] == results[k / 2]);
                }
            }
            assert(batch_lengths(after) =~= lengths.update(at, value));
            lemma_total_update(lengths, at, value);
        },
        ItemModel::Failure(_) => {},
    }
}

pub open spec fn batch_too_large() -> FailureModel {
    failure(
        "BATCH_RESULT_TOO_LARGE"@,
        "Batch metadata exceeded the final serialized-output budget."@,
    )
}

/// A text is the front of another, perhaps all of it.
pub open spec fn is_front(part: Seq<char>, whole: Seq<char>) -> bool {
    part.len() <= whole.len() && part == whole.take(part.len() as int)
}

/// Nothing changed but that output was cut, and where it was, the result says so.
pub open spec fn result_only_cut(before: ResultModel, after: ResultModel) -> bool {
    &&& after == (ResultModel {
        stdout: after.stdout,
        stderr: after.stderr,
        output_truncated: after.output_truncated,
        ..before
    })
    &&& is_front(after.stdout, before.stdout)
    &&& is_front(after.stderr, before.stderr)
    &&& after.output_truncated == (before.output_truncated || after.stdout != before.stdout
        || after.stderr != before.stderr)
}

pub open spec fn item_only_cut(before: ItemModel, after: ItemModel) -> bool {
    match (before, after) {
        (ItemModel::Success(old), ItemModel::Success(new)) => result_only_cut(old, new),
        _ => before == after,
    }
}

/// Nothing in a batch changed but that output was cut.
pub open spec fn batch_only_cut(before: BatchModel, after: BatchModel) -> bool {
    &&& after == (BatchModel { results: after.results, ..before })
    &&& after.results.len() == before.results.len()
    &&& forall|i: int|
        0 <= i < after.results.len() ==> item_only_cut(before.results[i], #[trigger] after.results[i])
}

/// No host has output left.
pub open spec fn batch_is_bare(results: Seq<ItemModel>) -> bool {
    forall|i: int|
        0 <= i < results.len() ==> (#[trigger] results[i] matches ItemModel::Success(result)
            ==> result.stdout.len() == 0 && result.stderr.len() == 0)
}

proof fn lemma_no_bytes(s: Seq<char>)
    ensures
        utf8_len(s) == 0 <==> s.len() == 0,
{
    lemma_utf8_len(s);
}

proof fn lemma_cut_is_front(whole: Seq<char>, part: Seq<char>, requested: nat)
    requires
        is_front(part, whole),
        utf8_len(part) > 0,
        requested > 0,
    ensures
        is_front(cut(part, left_of(utf8_len(part), requested)), whole),
        cut(part, left_of(utf8_len(part), requested)) != part,
        cut(part, left_of(utf8_len(part), requested)) != whole,
{
    let limit = left_of(utf8_len(part), requested);
    cutting_keeps_what_fits(part, limit);
    let n = fitting(part, limit) as int;
    assert(whole.take(part.len() as int).take(n) =~= whole.take(n));
    if n == part.len() {
        assert(part.take(n) =~= part);
    }
}

proof fn lemma_trimming_only_cuts(before: BatchModel, now: BatchModel, requested: nat)
    requires
        batch_only_cut(before, now),
        batch_has_output(now.results),
        requested > 0,
    ensures
        batch_only_cut(
            before,
            BatchModel { results: batch_trimmed(now.results, requested), ..now },
        ),
{
    let lengths = batch_lengths(now.results);
    the_longest_output_is_cut(lengths);
    let at = largest(lengths);
    let after = batch_trimmed(now.results, requested);
    assert forall|i: int| 0 <= i < after.len() implies item_only_cut(
        before.results[i],
        #[trigger] after[i],
    ) by {
        assert(item_only_cut(before.results[i], now.results[i]));
        if i == at / 2 {
            match (before.results[i], now.results[i]) {
                (ItemModel::Success(old), ItemModel::Success(new)) => {
                    if at % 2 == 1 {
                        lemma_cut_is_front(old.stderr, new.stderr, requested);
                    } else {
                        lemma_cut_is_front(old.stdout, new.stdout, requested);
                    }
                },
                _ => {},
            }
        }
    }
}

proof fn lemma_bare(results: Seq<ItemModel>)
    requires
        !batch_has_output(results),
    ensures
        batch_is_bare(results),
{
    let lengths = batch_lengths(results);
    if results.len() > 0 {
        the_longest_output_is_cut(lengths);
        assert forall|i: int| 0 <= i < results.len() implies (#[trigger] results[i] matches
            ItemModel::Success(result) ==> result.stdout.len() == 0 && result.stderr.len() == 0) by {
            assert((2 * i) / 2 == i && (2 * i) % 2 == 0);
            assert((2 * i + 1) / 2 == i && (2 * i + 1) % 2 == 1);
            assert(lengths[2 * i] == 0);
            assert(lengths[2 * i + 1] == 0);
            if let ItemModel::Success(result) = results[i] {
                lemma_no_bytes(result.stdout);
                lemma_no_bytes(result.stderr);
            }
        }
    }
}

/// The batch cut down until it fits or nothing is left to cut.
pub open spec fn batch_fitted(result: BatchModel, limit: nat) -> BatchModel
    decreases total(batch_lengths(result.results)),
{
    let size = utf8_len(batch_json(result));
    if size <= limit || !batch_has_output(result.results) {
        result
    } else {
        proof {
            cutting_a_batch_makes_progress(result.results, (size - limit) as nat);
        }
        batch_fitted(
            BatchModel {
                results: batch_trimmed(result.results, (size - limit) as nat),
                ..result
            },
            limit,
        )
    }
}

/// The number of bytes that a batch takes as JSON.
pub fn batch_size(result: &BatchResult) -> (r: usize)
    ensures
        r == utf8_len(batch_json(result@)),
{
    byte_len(result.json().as_str())
}

impl BatchItem {
    fn output_length(&self, on_stderr: bool) -> (r: usize)
        ensures
            r == match self@ {
                ItemModel::Success(result) => if on_stderr {
                    utf8_len(result.stderr)
                } else {
                    utf8_len(result.stdout)
                },
                ItemModel::Failure(_) => 0,
            },
    {
        match self {
            BatchItem::Success(result) => if on_stderr {
                byte_len(result.stderr.as_str())
            } else {
                byte_len(result.stdout.as_str())
            },
            BatchItem::Failure(_) => 0,
        }
    }

    fn shorten(&mut self, on_stderr: bool, requested: usize)
        ensures
            final(self)@ == shortened(old(self)@, on_stderr, requested as nat),
    {
        match self {
            BatchItem::Success(result) => {
                if on_stderr {
                    let length: usize = byte_len(result.stderr.as_str());
                    let left: usize = if requested >= length {
                        0
                    } else {
                        length - requested
                    };
                    truncate_utf8(&mut result.stderr, left);
                } else {
                    let length: usize = byte_len(result.stdout.as_str());
                    let left: usize = if requested >= length {
                        0
                    } else {
                        length - requested
                    };
                    truncate_utf8(&mut result.stdout, left);
                }
                result.output_truncated = true;
            },
            BatchItem::Failure(_) => {},
        }
    }
}

/// Shortens the longest output of a batch by so many bytes, if there is any.
pub fn trim_largest_batch_output(result: &mut BatchResult, requested: usize) -> (r: bool)
    ensures
        r == batch_has_output(old(result)@.results),
        final(result)@ == if r {
            BatchModel {
                results: batch_trimmed(old(result)@.results, requested as nat),
                ..old(result)@
            }
        } else {
            old(result)@
        },
{
    let ghost models = result@.results;
    let ghost lengths = batch_lengths(models);
    let count: usize = result.results.len();
    if count == 0 {
        return false;
    }
    let mut index: usize = 0;
    let mut on_stderr = false;
    let mut length: usize = result.results[0].output_length(false);
    assert(lengths[0] == length);
    assert(largest(lengths.take(1)) == 0);
    let mut i: usize = 0;
    let ghost mut at: int = 0;
    while i < count
        invariant
            i <= count,
            count == result.results@.len(),
            count > 0,
            result@ == old(result)@,
            models == items(result.results@),
            lengths == batch_lengths(models),
            at == 2 * index + (if on_stderr {
                1int
            } else {
                0int
            }),
            index < count,
            0 <= at < lengths.len(),
            length == lengths[at],
            at == largest(
                lengths.take(
                    if i == 0 {
                        1
                    } else {
                        2 * i
                    },
                ),
            ),
            at < (if i == 0 {
                1
            } else {
                2 * i
            }),
        decreases count - i,
    {
        let printed: usize = result.results[i].output_length(false);
        proof {
            assert(printed == lengths[2 * i]) by {
                assert(models[i as int] == result.results@[i as int]@);
                assert((2 * i) / 2 == i && (2 * i) % 2 == 0);
            }
            let more = lengths.take(2 * i + 1);
            if i > 0 {
                assert(more.drop_last() =~= lengths.take(2 * i));
                assert(more.last() == lengths[2 * i]);
            }
        }
        if printed > length {
            index = i;
            on_stderr = false;
            length = printed;
            proof {
                at = 2 * i;
            }
        }
        assert(at == largest(lengths.take(2 * i + 1)));
        let complained: usize = result.results[i].output_length(true);
        proof {
            assert(complained == lengths[2 * i + 1]) by {
                assert(models[i as int] == result.results@[i as int]@);
                assert((2 * i + 1) / 2 == i && (2 * i + 1) % 2 == 1);
            }
            let more = lengths.take(2 * i + 2);
            assert(more.drop_last() =~= lengths.take(2 * i + 1));
            assert(more.last() == lengths[2 * i + 1]);
        }
        if complained > length {
            index = i;
            on_stderr = true;
            length = complained;
            proof {
                at = 2 * i + 1;
            }
        }
        assert(at == largest(lengths.take(2 * i + 2)));
        i = i + 1;
    }
    assert(lengths.take(2 * i) =~= lengths);
    if length == 0 {
        return false;
    }
    assert(at / 2 == index && (at % 2 == 1) == on_stderr);
    result.results[index].shorten(on_stderr, requested);
    assert(items(result.results@) =~= batch_trimmed(models, requested as nat));
    true
}

/// Cuts a batch down until its JSON fits.
pub fn fit_batch_result_budget(result: &mut BatchResult, limit: usize) -> (r: Result<
    (),
    RemoteFailure,
>)
    ensures
        final(result)@ == batch_fitted(old(result)@, limit as nat),
        batch_only_cut(old(result)@, final(result)@),
        match r {
            Ok(_) => utf8_len(batch_json(final(result)@)) <= limit,
            Err(error) => {
                &&& error@ == batch_too_large()
                &&& utf8_len(batch_json(final(result)@)) > limit
                &&& batch_is_bare(final(result)@.results)
            },
        },
{
    proof {
        assert forall|i: int| 0 <= i < result@.results.len() implies item_only_cut(
            result@.results[i],
            #[trigger] result@.results[i],
        ) by {
            if let ItemModel::Success(item) = result@.results[i] {
                assert(item.stdout.take(item.stdout.len() as int) =~= item.stdout);
                assert(item.stderr.take(item.stderr.len() as int) =~= item.stderr);
            }
        }
    }
    loop
        invariant
            batch_fitted(result@, limit as nat) == batch_fitted(old(result)@, limit as nat),
            batch_only_cut(old(result)@, result@),
        decreases total(batch_lengths(result@.results)),
    {
        let size: usize = batch_size(result);
        if size <= limit {
            return Ok(());
        }
        let ghost before = result@;
        if !trim_largest_batch_output(result, size - limit) {
            proof {
                lemma_bare(before.results);
            }
            return Err(
                RemoteFailure::new(
                    "BATCH_RESULT_TOO_LARGE",
                    "Batch metadata exceeded the final serialized-output budget.",
                ),
            );
        }
        proof {
            cutting_a_batch_makes_progress(before.results, (size - limit) as nat);
            lemma_trimming_only_cuts(old(result)@, before, (size - limit) as nat);
        }
    }
}

/// The lengths of what every command printed and complained, one after the other.
pub open spec fn many_lengths(results: Seq<CommandModel>) -> Seq<nat> {
    Seq::new(
        2 * results.len(),
        |k: int|
            if k % 2 == 0 {
                utf8_len(results[k / 2].stdout)
            } else {
                utf8_len(results[k / 2].stderr)
            },
    )
}

/// The result of a command with one of its outputs shortened.
pub open spec fn command_shortened(
    result: CommandModel,
    on_stderr: bool,
    requested: nat,
) -> CommandModel {
    if on_stderr {
        CommandModel {
            stderr: cut(result.stderr, left_of(utf8_len(result.stderr), requested)),
            output_truncated: true,
            ..result
        }
    } else {
        CommandModel {
            stdout: cut(result.stdout, left_of(utf8_len(result.stdout), requested)),
            output_truncated: true,
            ..result
        }
    }
}

pub open spec fn many_has_output(results: Seq<CommandModel>) -> bool {
    results.len() > 0 && many_lengths(results)[largest(many_lengths(results))] > 0
}

pub open spec fn many_trimmed(results: Seq<CommandModel>, requested: nat) -> Seq<CommandModel> {
    let at = largest(many_lengths(results));
    results.update(at / 2, command_shortened(results[at / 2], at % 2 == 1, requested))
}

/// Every cut makes the output of the commands shorter.
pub proof fn cutting_commands_makes_progress(results: Seq<CommandModel>, requested: nat)
    requires
        many_has_output(results),
        requested > 0,
    ensures
        total(many_lengths(many_trimmed(results, requested))) < total(many_lengths(results)),
        many_trimmed(results, requested).len() == results.len(),
{
    let lengths = many_lengths(results);
    the_longest_output_is_cut(lengths);
    let at = largest(lengths);
    let after = many_trimmed(results, requested);
    let limit = left_of(lengths[at], requested);
    cutting_keeps_what_fits(results[at / 2].stdout, limit);
    cutting_keeps_what_fits(results[at / 2].stderr, limit);
    let value = many_lengths(after)[at];
    assert(value <= limit);
    assert forall|k: int| 0 <= k < lengths.len() implies many_lengths(after)[k] == lengths.update(
        at,
        value,
    )[k] by {
        if k / 2 != at / 2 {
            assert(after[k / 2] == results[k / 2]);
        }
    }
    assert(many_lengths(after) =~= lengths.update(at, value));
    lemma_total_update(lengths, at, value);
}

pub open spec fn many_too_large() -> FailureModel {
    failure(
        "EXEC_MANY_RESULT_TOO_LARGE"@,
        "Multi-command metadata exceeded the final serialized-output budget."@,
    )
}

/// Nothing changed but that output was cut, and where it was, the result says so.
pub open spec fn command_only_cut(before: CommandModel, after: CommandModel) -> bool {
    &&& after == (CommandModel {
        stdout: after.stdout,
        stderr: after.stderr,
        output_truncated: after.output_truncated,
        ..before
    })
    &&& is_front(after.stdout, before.stdout)
    &&& is_front(after.stderr, before.stderr)
    &&& after.output_truncated == (before.output_truncated || after.stdout != before.stdout
        || after.stderr != before.stderr)
}

/// Nothing in the results of several commands changed but that output was cut.
pub open spec fn many_only_cut(before: ManyModel, after: ManyModel) -> bool {
    &&& after == (ManyModel { results: after.results, ..before })
    &&& after.results.len() == before.results.len()
    &&& forall|i: int|
        0 <= i < after.results.len() ==> command_only_cut(
            before.results[i],
            #[trigger] after.results[i],
        )
}

/// No command has output left.
pub open spec fn many_is_bare(results: Seq<CommandModel>) -> bool {
    forall|i: int|
        0 <= i < results.len() ==> (#[trigger] results[i]).stdout.len() == 0
            && results[i].stderr.len() == 0
}

proof fn lemma_trimming_commands_only_cuts(before: ManyModel, now: ManyModel, requested: nat)
    requires
        many_only_cut(before, now),
        many_has_output(now.results),
        requested > 0,
    ensures
        many_only_cut(before, ManyModel { results: many_trimmed(now.results, requested), ..now }),
{
    let lengths = many_lengths(now.results);
    the_longest_output_is_cut(lengths);
    let at = largest(lengths);
    let after = many_trimmed(now.results, requested);
    assert forall|i: int| 0 <= i < after.len() implies command_only_cut(
        before.results[i],
        #[trigger] after[i],
    ) by {
        assert(command_only_cut(before.results[i], now.results[i]));
        if i == at / 2 {
            if at % 2 == 1 {
                lemma_cut_is_front(before.results[i].stderr, now.results[i].stderr, requested);
            } else {
                lemma_cut_is_front(before.results[i].stdout, now.results[i].stdout, requested);
            }
        }
    }
}

proof fn lemma_bare_commands(results: Seq<CommandModel>)
    requires
        !many_has_output(results),
    ensures
        many_is_bare(results),
{
    let lengths = many_lengths(results);
    if results.len() > 0 {
        the_longest_output_is_cut(lengths);
        assert forall|i: int| 0 <= i < results.len() implies (#[trigger] results[i]).stdout.len()
            == 0 && results[i].stderr.len() == 0 by {
            assert((2 * i) / 2 == i && (2 * i) % 2 == 0);
            assert((2 * i + 1) / 2 == i && (2 * i + 1) % 2 == 1);
            assert(lengths[2 * i] == 0);
            assert(lengths[2 * i + 1] == 0);
            lemma_no_bytes(results[i].stdout);
            lemma_no_bytes(results[i].stderr);
        }
    }
}

/// The results cut down until they fit or nothing is left to cut.
pub open spec fn many_fitted(result: ManyModel, limit: nat) -> ManyModel
    decreases total(many_lengths(result.results)),
{
    let size = utf8_len(many_json(0, result));
    if size <= limit || !many_has_output(result.results) {
        result
    } else {
        proof {
            cutting_commands_makes_progress(result.results, (size - limit) as nat);
        }
        many_fitted(
            ManyModel { results: many_trimmed(result.results, (size - limit) as nat), ..result },
            limit,
        )
    }
}

impl RemoteCommandResult {
    fn output_length(&self, on_stderr: bool) -> (r: usize)
        ensures
            r == if on_stderr {
                utf8_len(self@.stderr)
            } else {
                utf8_len(self@.stdout)
            },
    {
        if on_stderr {
            byte_len(self.stderr.as_str())
        } else {
            byte_len(self.stdout.as_str())
        }
    }

    fn shorten(&mut self, on_stderr: bool, requested: usize)
        ensures
            final(self)@ == command_shortened(old(self)@, on_stderr, requested as nat),
    {
        if on_stderr {
            let length: usize = byte_len(self.stderr.as_str());
            let left: usize = if requested >= length {
                0
            } else {
                length - requested
            };
            truncate_utf8(&mut self.stderr, left);
        } else {
            let length: usize = byte_len(self.stdout.as_str());
            let left: usize = if requested >= length {
                0
            } else {
                length - requested
            };
            truncate_utf8(&mut self.stdout, left);
        }
        self.output_truncated = true;
    }
}

/// Shortens the longest output of several commands by so many bytes, if there is any.
pub fn trim_largest_many_output(result: &mut RemoteManyResult, requested: usize) -> (r: bool)
    ensures
        r == many_has_output(old(result)@.results),
        final(result)@ == if r {
            ManyModel {
                results: many_trimmed(old(result)@.results, requested as nat),
                ..old(result)@
            }
        } else {
            old(result)@
        },
{
    let ghost models = result@.results;
    let ghost lengths = many_lengths(models);
    let count: usize = result.results.len();
    if count == 0 {
        return false;
    }
    let mut index: usize = 0;
    let mut on_stderr = false;
    let mut length: usize = result.results[0].output_length(false);
    assert(lengths[0] == length);
    assert(largest(lengths.take(1)) == 0);
    let mut i: usize = 0;
    let ghost mut at: int = 0;
    while i < count
        invariant
            i <= count,
            count == result.results@.len(),
            count > 0,
            result@ == old(result)@,
            models == command_models(result.results@),
            lengths == many_lengths(models),
            at == 2 * index + (if on_stderr {
                1int
            } else {
                0int
            }),
            index < count,
            0 <= at < lengths.len(),
            length == lengths[at],
            at == largest(
                lengths.take(
                    if i == 0 {
                        1
                    } else {
                        2 * i
                    },
                ),
            ),
            at < (if i == 0 {
                1
            } else {
                2 * i
            }),
        decreases count - i,
    {
        let printed: usize = result.results[i].output_length(false);
        proof {
            assert(printed == lengths[2 * i]) by {
                assert(models[i as int] == result.results@[i as int]@);
                assert((2 * i) / 2 == i && (2 * i) % 2 == 0);
            }
            let more = lengths.take(2 * i + 1);
            if i > 0 {
                assert(more.drop_last() =~= lengths.take(2 * i));
                assert(more.last() == lengths[2 * i]);
            }
        }
        if printed > length {
            index = i;
            on_stderr = false;
            length = printed;
            proof {
                at = 2 * i;
            }
        }
        assert(at == largest(lengths.take(2 * i + 1)));
        let complained: usize = result.results[i].output_length(true);
        proof {
            assert(complained == lengths[2 * i + 1]) by {
                assert(models[i as int] == result.results@[i as int]@);
                assert((2 * i + 1) / 2 == i && (2 * i + 1) % 2 == 1);
            }
            let more = lengths.take(2 * i + 2);
            assert(more.drop_last() =~= lengths.take(2 * i + 1));
            assert(more.last() == lengths[2 * i + 1]);
        }
        if complained > length {
            index = i;
            on_stderr = true;
            length = complained;
            proof {
                at = 2 * i + 1;
            }
        }
        assert(at == largest(lengths.take(2 * i + 2)));
        i = i + 1;
    }
    assert(lengths.take(2 * i) =~= lengths);
    if length == 0 {
        return false;
    }
    assert(at / 2 == index && (at % 2 == 1) == on_stderr);
    result.results[index].shorten(on_stderr, requested);
    assert(command_models(result.results@) =~= many_trimmed(models, requested as nat));
    true
}

/// Cuts the results of several commands down until their JSON fits.
pub fn fit_many_result_budget(result: &mut RemoteManyResult, limit: usize) -> (r: Result<
    (),
    RemoteFailure,
>)
    ensures
        final(result)@ == many_fitted(old(result)@, limit as nat),
        many_only_cut(old(result)@, final(result)@),
        match r {
            Ok(_) => utf8_len(many_json(0, final(result)@)) <= limit,
            Err(error) => {
                &&& error@ == many_too_large()
                &&& utf8_len(many_json(0, final(result)@)) > limit
                &&& many_is_bare(final(result)@.results)
            },
        },
{
    proof {
        assert forall|i: int| 0 <= i < result@.results.len() implies command_only_cut(
            result@.results[i],
            #[trigger] result@.results[i],
        ) by {
            let item = result@.results[i];
            assert(item.stdout.take(item.stdout.len() as int) =~= item.stdout);
            assert(item.stderr.take(item.stderr.len() as int) =~= item.stderr);
        }
    }
    loop
        invariant
            many_fitted(result@, limit as nat) == many_fitted(old(result)@, limit as nat),
            many_only_cut(old(result)@, result@),
        decreases total(many_lengths(result@.results)),
    {
        let text = write_many(0, result);
        let size: usize = byte_len(text.as_str());
        if size <= limit {
            return Ok(());
        }
        let ghost before = result@;
        if !trim_largest_many_output(result, size - limit) {
            proof {
                lemma_bare_commands(before.results);
            }
            return Err(
                RemoteFailure::new(
                    "EXEC_MANY_RESULT_TOO_LARGE",
                    "Multi-command metadata exceeded the final serialized-output budget.",
                ),
            );
        }
        proof {
            cutting_commands_makes_progress(before.results, (size - limit) as nat);
            lemma_trimming_commands_only_cuts(old(result)@, before, (size - limit) as nat);
        }
    }
}

/// A batch as it is written shows the answer of every host and counts them under their names.
pub proof fn batches_show_every_answer(result: BatchModel, i: int)
    requires
        0 <= i < result.results.len(),
    ensures
        says(batch_json(result), "status"@, quoted(result.status)),
        says(batch_json(result), "action"@, quoted(result.action)),
        says(batch_json(result), "duration_ms"@, decimal(result.duration_ms as nat)),
        has_part(batch_json(result), item_json(2, result.results[i])),
        has_part(batch_json(result), summary_json(1, result.summary)),
{
    let items = Seq::new(result.results.len(), |i: int| item_json(2, result.results[i]));
    let members = seq![
        member(0, "schema_version"@, decimal(result.schema_version as nat)),
        member(0, "status"@, quoted(result.status)),
        member(0, "action"@, quoted(result.action)),
        member(0, "duration_ms"@, decimal(result.duration_ms as nat)),
        member(0, "results"@, list(1, items)),
        member(0, "summary"@, summary_json(1, result.summary)),
    ];
    let none = Seq::<char>::empty();
    let summary = summary_json(1, result.summary);
    lemma_says_at(0, members, 1, "status"@, quoted(result.status));
    lemma_says_at(0, members, 2, "action"@, quoted(result.action));
    lemma_says_at(0, members, 3, "duration_ms"@, decimal(result.duration_ms as nat));
    lemma_says_at(0, members, 4, "results"@, list(1, items));
    lemma_says_at(0, members, 5, "summary"@, summary);
    lists_show_their_items(1, items, i);
    lemma_says_within(batch_json(result), "results"@, list(1, items), items[i]);
    assert(summary =~= none + summary + none);
    lemma_says_within(batch_json(result), "summary"@, summary, summary);
}

/// The counts of a batch stand under their names.
pub proof fn counts_are_shown(level: nat, summary: BatchSummary)
    ensures
        says(summary_json(level, summary), "requested"@, decimal(summary.requested as nat)),
        says(summary_json(level, summary), "succeeded"@, decimal(summary.succeeded as nat)),
        says(summary_json(level, summary), "remote_errors"@, decimal(summary.remote_errors as nat)),
        says(summary_json(level, summary), "failed"@, decimal(summary.failed as nat)),
        says(summary_json(level, summary), "cancelled"@, decimal(summary.cancelled as nat)),
{
    let members = seq![
        member(level, "requested"@, decimal(summary.requested as nat)),
        member(level, "succeeded"@, decimal(summary.succeeded as nat)),
        member(level, "remote_errors"@, decimal(summary.remote_errors as nat)),
        member(level, "failed"@, decimal(summary.failed as nat)),
        member(level, "cancelled"@, decimal(summary.cancelled as nat)),
    ];
    lemma_says_at(level, members, 0, "requested"@, decimal(summary.requested as nat));
    lemma_says_at(level, members, 1, "succeeded"@, decimal(summary.succeeded as nat));
    lemma_says_at(level, members, 2, "remote_errors"@, decimal(summary.remote_errors as nat));
    lemma_says_at(level, members, 3, "failed"@, decimal(summary.failed as nat));
    lemma_says_at(level, members, 4, "cancelled"@, decimal(summary.cancelled as nat));
}

/// A host's answer is written as a result where it is one and as a failure where it is one.
pub proof fn answers_say_which_host(level: nat, item: ItemModel)
    ensures
        item matches ItemModel::Success(result) ==> says(
            item_json(level, item),
            "alias"@,
            quoted(result.alias),
        ) && says(item_json(level, item), "stdout"@, quoted(result.stdout)),
        item matches ItemModel::Failure(error) ==> says(
            item_json(level, item),
            "code"@,
            quoted(error.code),
        ) && says(item_json(level, item), "message"@, quoted(error.message)),
{
    match item {
        ItemModel::Success(result) => results_say_what_happened(level, result),
        ItemModel::Failure(error) => failures_say_what_went_wrong(level, error),
    }
}

/// Shortening an output takes at least what was asked for off its end, or all of it, and says so;
/// the other output and everything else stays.
pub proof fn shortening_takes_off_the_end(result: ResultModel, requested: nat)
    ensures
        ({
            let out = shortened(ItemModel::Success(result), false, requested);
            &&& out matches ItemModel::Success(after) && {
                &&& utf8_len(after.stdout) + requested <= utf8_len(result.stdout) || utf8_len(
                    after.stdout,
                ) == 0
                &&& is_front(after.stdout, result.stdout)
                &&& after.stderr == result.stderr
                &&& after.output_truncated
                &&& after.exit_code == result.exit_code && after.alias == result.alias
            }
        }),
        ({
            let out = shortened(ItemModel::Success(result), true, requested);
            &&& out matches ItemModel::Success(after) && {
                &&& utf8_len(after.stderr) + requested <= utf8_len(result.stderr) || utf8_len(
                    after.stderr,
                ) == 0
                &&& is_front(after.stderr, result.stderr)
                &&& after.stdout == result.stdout
                &&& after.output_truncated
            }
        }),
{
    lemma_cut_fits(result.stdout, left_of(utf8_len(result.stdout), requested));
    lemma_cut_fits(result.stderr, left_of(utf8_len(result.stderr), requested));
}

proof fn lemma_cut_fits(text: Seq<char>, limit: nat)
    ensures
        utf8_len(cut(text, limit)) <= limit,
        is_front(cut(text, limit), text),
{
    cutting_keeps_what_fits(text, limit);
    assert(cut(text, limit) =~= text.take(cut(text, limit).len() as int));
}

/// A batch that fits is not cut at all.
pub proof fn fitting_batches_are_not_cut(result: BatchModel, limit: nat)
    ensures
        utf8_len(batch_json(result)) <= limit ==> batch_fitted(result, limit) == result,
{
}

/// Results of several commands that fit are not cut at all.
pub proof fn fitting_commands_are_not_cut(result: ManyModel, limit: nat)
    ensures
        utf8_len(many_json(0, result)) <= limit ==> many_fitted(result, limit) == result,
{
}

/// So it is with the outputs of one command of several.
pub proof fn shortening_a_command_takes_off_the_end(result: CommandModel, requested: nat)
    ensures
        ({
            let after = command_shortened(result, false, requested);
            &&& utf8_len(after.stdout) + requested <= utf8_len(result.stdout) || utf8_len(
                after.stdout,
            ) == 0
            &&& is_front(after.stdout, result.stdout)
            &&& after.stderr == result.stderr
            &&& after.output_truncated
            &&& after.index == result.index && after.exit_code == result.exit_code
        }),
        ({
            let after = command_shortened(result, true, requested);
            &&& utf8_len(after.stderr) + requested <= utf8_len(result.stderr) || utf8_len(
                after.stderr,
            ) == 0
            &&& is_front(after.stderr, result.stderr)
            &&& after.stdout == result.stdout
            &&& after.output_truncated
        }),
{
    lemma_cut_fits(result.stdout, left_of(utf8_len(result.stdout), requested));
    lemma_cut_fits(result.stderr, left_of(utf8_len(result.stderr), requested));
}

} // verus!
