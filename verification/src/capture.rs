//! Bounded capture of what remote commands print.
use vstd::prelude::*;

use crate::text::{lossy_text, read_lossy};

verus! {

/// Bytes that a single command may print before the rest is dropped.
pub const MAX_CAPTURE_BYTES: usize = 1024 * 1024;

/// Bytes that the streams of an operation may still capture together.
#[derive(Debug)]
pub struct CaptureBudget {
    pub remaining: usize,
}

pub open spec fn smaller(a: int, b: int) -> int {
    if a <= b {
        a
    } else {
        b
    }
}

impl CaptureBudget {
    pub fn new(bytes: usize) -> (r: Self)
        ensures
            r.remaining == bytes,
    {
        CaptureBudget { remaining: bytes }
    }

    /// Takes as much of the request as is left.
    pub fn take(&mut self, requested: usize) -> (r: usize)
        ensures
            r == smaller(old(self).remaining as int, requested as int),
            final(self).remaining == old(self).remaining - r,
            r <= requested,
            r == requested || final(self).remaining == 0,
    {
        let taken: usize = if self.remaining <= requested {
            self.remaining
        } else {
            requested
        };
        self.remaining = self.remaining - taken;
        taken
    }
}

/// Appends as many of the bytes as the budget allows; tells whether some were dropped.
pub fn append_limited(output: &mut Vec<u8>, data: &[u8], budget: &mut CaptureBudget) -> (r: bool)
    ensures
        ({
            let taken = smaller(old(budget).remaining as int, data@.len() as int);
            &&& final(output)@ == old(output)@ + data@.take(taken)
            &&& final(budget).remaining == old(budget).remaining - taken
            &&& r == (taken < data@.len())
        }),
        data@.len() <= old(budget).remaining ==> final(output)@ == old(output)@ + data@ && !r,
{
    let taken: usize = budget.take(data.len());
    assert(data@.take(data@.len() as int) =~= data@);
    let mut i: usize = 0;
    while i < taken
        invariant
            i <= taken <= data@.len(),
            output@ == old(output)@ + data@.take(i as int),
        decreases taken - i,
    {
        output.push(data[i]);
        assert(data@.take(i + 1) =~= data@.take(i as int).push(data@[i as int]));
        assert(output@ =~= old(output)@ + data@.take(i + 1));
        i = i + 1;
    }
    taken < data.len()
}

/// What a finished command left behind.
#[derive(Debug)]
pub struct CommandResult {
    pub exit_code: i32,
    pub stdout: String,
    pub stderr: String,
    pub output_truncated: bool,
}

/// The exit status as a signed number; one that does not fit reads as minus one.
pub open spec fn exit_code_of(status: u32) -> int {
    if status <= 0x7fff_ffff {
        status as int
    } else {
        -1
    }
}

/// The output of a running command, and how much more of it is kept.
#[derive(Debug)]
pub struct CommandCapture {
    pub stdout: Vec<u8>,
    pub stderr: Vec<u8>,
    pub exit_code: i32,
    pub output_truncated: bool,
    pub room: usize,
}

/// Number of bytes that are kept of a piece: as many as the command and the operation have room
/// for.
pub open spec fn kept(room: int, shared: int, printed: int) -> int {
    smaller(room, smaller(shared, printed))
}

/// Appends as much of a piece as there is room for; tells how many bytes that were.
fn keep(output: &mut Vec<u8>, data: &[u8], room: usize, budget: &mut CaptureBudget) -> (r: usize)
    ensures
        r == kept(room as int, old(budget).remaining as int, data@.len() as int),
        final(output)@ == old(output)@ + data@.take(r as int),
        final(budget).remaining == old(budget).remaining - r,
{
    let before: usize = budget.remaining;
    if data.len() <= room {
        append_limited(output, data, budget);
    } else {
        let piece = vstd::slice::slice_subrange(data, 0, room);
        append_limited(output, piece, budget);
        assert(forall|n: int|
            0 <= n <= room ==> #[trigger] piece@.take(n) =~= data@.take(n));
    }
    before - budget.remaining
}

impl CommandCapture {
    /// A command never keeps more than `MAX_CAPTURE_BYTES`.
    pub open spec fn inv(self) -> bool {
        self.stdout@.len() + self.stderr@.len() + self.room <= MAX_CAPTURE_BYTES
    }

    /// Nothing was printed, and no exit status came. As many bytes may be kept as the operation
    /// may capture, but never more than `MAX_CAPTURE_BYTES`.
    pub fn new(limit: usize) -> (r: Self)
        ensures
            r.inv(),
            r.stdout@.len() == 0,
            r.stderr@.len() == 0,
            r.exit_code == -1,
            !r.output_truncated,
            r.room == smaller(limit as int, MAX_CAPTURE_BYTES as int),
    {
        CommandCapture {
            stdout: Vec::new(),
            stderr: Vec::new(),
            exit_code: -1,
            output_truncated: false,
            room: if limit <= MAX_CAPTURE_BYTES {
                limit
            } else {
                MAX_CAPTURE_BYTES
            },
        }
    }

    /// Bytes on the standard output.
    pub fn data(&mut self, data: &[u8], budget: &mut CaptureBudget)
        ensures
            ({
                let taken = kept(
                    old(self).room as int,
                    old(budget).remaining as int,
                    data@.len() as int,
                );
                &&& final(self).stdout@ == old(self).stdout@ + data@.take(taken)
                &&& final(self).room == old(self).room - taken
                &&& final(budget).remaining == old(budget).remaining - taken
                &&& final(self).output_truncated == (old(self).output_truncated || taken
                    < data@.len())
            }),
            final(self).stderr == old(self).stderr,
            final(self).exit_code == old(self).exit_code,
            old(self).inv() ==> final(self).inv(),
            data@.len() <= old(self).room && data@.len() <= old(budget).remaining ==> final(self).stdout@
                == old(self).stdout@ + data@,
    {
        assert(data@.take(data@.len() as int) =~= data@);
        let taken = keep(&mut self.stdout, data, self.room, budget);
        self.room = self.room - taken;
        self.output_truncated = self.output_truncated || taken < data.len();
    }

    /// Bytes on the standard error.
    pub fn extended_data(&mut self, data: &[u8], budget: &mut CaptureBudget)
        ensures
            ({
                let taken = kept(
                    old(self).room as int,
                    old(budget).remaining as int,
                    data@.len() as int,
                );
                &&& final(self).stderr@ == old(self).stderr@ + data@.take(taken)
                &&& final(self).room == old(self).room - taken
                &&& final(budget).remaining == old(budget).remaining - taken
                &&& final(self).output_truncated == (old(self).output_truncated || taken
                    < data@.len())
            }),
            final(self).stdout == old(self).stdout,
            final(self).exit_code == old(self).exit_code,
            old(self).inv() ==> final(self).inv(),
            data@.len() <= old(self).room && data@.len() <= old(budget).remaining ==> final(self).stderr@
                == old(self).stderr@ + data@,
    {
        assert(data@.take(data@.len() as int) =~= data@);
        let taken = keep(&mut self.stderr, data, self.room, budget);
        self.room = self.room - taken;
        self.output_truncated = self.output_truncated || taken < data.len();
    }

    /// The command ended; the last status that came counts.
    pub fn exit_status(&mut self, status: u32)
        ensures
            final(self).exit_code == exit_code_of(status),
            status <= i32::MAX ==> final(self).exit_code == status,
            status == 0 <==> final(self).exit_code == 0,
            final(self).stdout == old(self).stdout,
            final(self).stderr == old(self).stderr,
            final(self).output_truncated == old(self).output_truncated,
            final(self).room == old(self).room,
    {
        self.exit_code = if status <= 0x7fff_ffff {
            status as i32
        } else {
            -1
        };
    }

    pub fn finish(self) -> (r: CommandResult)
        ensures
            r.exit_code == self.exit_code,
            r.stdout@ == lossy_text(self.stdout@),
            r.stderr@ == lossy_text(self.stderr@),
            vstd::utf8::valid_utf8(self.stdout@) ==> vstd::utf8::encode_utf8(r.stdout@)
                == self.stdout@,
            vstd::utf8::valid_utf8(self.stderr@) ==> vstd::utf8::encode_utf8(r.stderr@)
                == self.stderr@,
            r.output_truncated == self.output_truncated,
    {
        CommandResult {
            exit_code: self.exit_code,
            stdout: read_lossy(self.stdout.as_slice()),
            stderr: read_lossy(self.stderr.as_slice()),
            output_truncated: self.output_truncated,
        }
    }
}

/// One piece of output and the stream it belongs to.
pub struct Piece {
    pub on_stderr: bool,
    pub bytes: Seq<u8>,
}

/// Number of bytes that a budget lets through of a row of pieces.
pub open spec fn captured(pieces: Seq<Piece>, budget: int) -> int
    decreases pieces.len(),
{
    if pieces.len() == 0 {
        0
    } else {
        let before = captured(pieces.drop_last(), budget);
        before + smaller(budget - before, pieces.last().bytes.len() as int)
    }
}

/// Number of bytes in a row of pieces.
pub open spec fn printed(pieces: Seq<Piece>) -> int
    decreases pieces.len(),
{
    if pieces.len() == 0 {
        0
    } else {
        printed(pieces.drop_last()) + pieces.last().bytes.len()
    }
}

/// However the output is cut into pieces and spread over the streams, what is captured is the
/// smaller of what was printed and the budget.
pub proof fn streams_share_the_budget(pieces: Seq<Piece>, budget: int)
    requires
        budget >= 0,
    ensures
        captured(pieces, budget) == smaller(printed(pieces), budget),
    decreases pieces.len(),
{
    if pieces.len() > 0 {
        streams_share_the_budget(pieces.drop_last(), budget);
    }
}

/// Number of bytes that a command keeps of a row of pieces, where `shared[i]` bytes were left for
/// the whole operation when piece `i` came.
pub open spec fn kept_of(pieces: Seq<Piece>, limit: int, shared: Seq<int>) -> int
    decreases pieces.len(),
{
    if pieces.len() == 0 {
        0
    } else {
        let before = kept_of(pieces.drop_last(), limit, shared.drop_last());
        before + kept(limit - before, shared.last(), pieces.last().bytes.len() as int)
    }
}

/// Some piece of a row was not kept whole.
pub open spec fn some_dropped(pieces: Seq<Piece>, limit: int, shared: Seq<int>) -> bool
    decreases pieces.len(),
{
    if pieces.len() == 0 {
        false
    } else {
        let before = kept_of(pieces.drop_last(), limit, shared.drop_last());
        some_dropped(pieces.drop_last(), limit, shared.drop_last()) || kept(
            limit - before,
            shared.last(),
            pieces.last().bytes.len() as int,
        ) < pieces.last().bytes.len()
    }
}

/// A command keeps no more than its own limit, however much is left for the operation, and
/// output that is not kept is reported.
pub proof fn a_command_keeps_at_most_its_limit(pieces: Seq<Piece>, limit: int, shared: Seq<int>)
    requires
        limit >= 0,
        shared.len() == pieces.len(),
        forall|i: int| 0 <= i < shared.len() ==> #[trigger] shared[i] >= 0,
    ensures
        0 <= kept_of(pieces, limit, shared) <= limit,
        kept_of(pieces, limit, shared) <= printed(pieces),
        some_dropped(pieces, limit, shared) == (kept_of(pieces, limit, shared) < printed(pieces)),
        printed(pieces) > limit ==> some_dropped(pieces, limit, shared),
    decreases pieces.len(),
{
    if pieces.len() > 0 {
        a_command_keeps_at_most_its_limit(pieces.drop_last(), limit, shared.drop_last());
    }
}

/// A piece of output is kept whole where the command and the operation have room for it; else as
/// much as fits into what is left, and no more.
pub proof fn pieces_are_kept_as_far_as_there_is_room(room: int, shared: int, printed: int)
    requires
        room >= 0,
        shared >= 0,
        printed >= 0,
    ensures
        printed <= room && printed <= shared ==> kept(room, shared, printed) == printed,
        kept(room, shared, printed) <= room,
        kept(room, shared, printed) <= shared,
        kept(room, shared, printed) < printed ==> kept(room, shared, printed) == room || kept(
            room,
            shared,
            printed,
        ) == shared,
        kept(room, shared, printed) >= 0,
{
}

/// An exit status is reported as the number that it is, as far as that is an exit code; zero, and
/// nothing else, is success.
pub proof fn exit_codes_are_what_they_are(status: u32)
    ensures
        status <= i32::MAX ==> exit_code_of(status) == status,
        status > i32::MAX ==> exit_code_of(status) == -1,
        exit_code_of(status) == 0 <==> status == 0,
{
}

} // verus!
