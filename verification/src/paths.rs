//! Paths as Windows takes them apart: a prefix, the root, and the parts behind it.
use vstd::prelude::*;
use vstd::slice::slice_subrange;

use crate::text::{ascii_upper_char, chars_of, string_of, to_ascii_upper_char};

verus! {

/// A slash of either kind separates the parts of a path.
pub open spec fn is_separator(c: char) -> bool {
    c == '/' || c == '\\'
}

/// A verbatim path is separated by backslashes only.
pub open spec fn splits(c: char, verbatim: bool) -> bool {
    c == '\\' || (c == '/' && !verbatim)
}

fn separator(c: char) -> (r: bool)
    ensures
        r == is_separator(c),
{
    c == '/' || c == '\\'
}

fn does_split(c: char, verbatim: bool) -> (r: bool)
    ensures
        r == splits(c, verbatim),
{
    c == '\\' || (c == '/' && !verbatim)
}

/// Where the part that begins at `from` ends.
pub open spec fn part_end(path: Seq<char>, from: int, verbatim: bool) -> int
    decreases path.len() - from,
{
    if from >= path.len() || splits(path[from], verbatim) {
        from
    } else {
        part_end(path, from + 1, verbatim)
    }
}

proof fn lemma_part_end(path: Seq<char>, from: int, verbatim: bool)
    requires
        0 <= from <= path.len(),
    ensures
        from <= part_end(path, from, verbatim) <= path.len(),
    decreases path.len() - from,
{
    if from < path.len() && !splits(path[from], verbatim) {
        lemma_part_end(path, from + 1, verbatim);
    }
}

fn find_part_end(path: &Vec<char>, from: usize, verbatim: bool) -> (r: usize)
    requires
        from <= path@.len(),
    ensures
        r == part_end(path@, from as int, verbatim),
        from <= r <= path@.len(),
{
    let mut end: usize = from;
    while end < path.len() && !does_split(path[end], verbatim)
        invariant
            from <= end <= path@.len(),
            part_end(path@, end as int, verbatim) == part_end(path@, from as int, verbatim),
        decreases path@.len() - end,
    {
        end = end + 1;
    }
    end
}

/// A letter and a colon, which name a drive.
pub open spec fn drive_at(path: Seq<char>, at: int) -> bool {
    path.len() >= at + 2 && (('a' <= path[at] <= 'z') || ('A' <= path[at] <= 'Z')) && path[at + 1]
        == ':'
}

/// The path begins with `\\?\`, in which a slash does not stand for a backslash.
pub open spec fn is_verbatim(path: Seq<char>) -> bool {
    path.len() >= 4 && path[0] == '\\' && path[1] == '\\' && path[2] == '?' && path[3] == '\\'
}

/// A verbatim path with a server: `\\?\UNC\`.
pub open spec fn is_verbatim_share(path: Seq<char>) -> bool {
    is_verbatim(path) && path.len() >= 8 && path[4] == 'U' && path[5] == 'N' && path[6] == 'C'
        && is_separator(path[7])
}

/// A verbatim path with nothing but a drive in its first part.
pub open spec fn is_verbatim_drive(path: Seq<char>) -> bool {
    is_verbatim(path) && drive_at(path, 4) && (path.len() == 6 || is_separator(path[6]))
}

/// The path begins with `\\.\`, which names a device.
pub open spec fn names_device(path: Seq<char>) -> bool {
    path.len() >= 4 && is_separator(path[0]) && is_separator(path[1]) && path[2] == '.'
        && is_separator(path[3])
}

/// The path begins with two separators, a server and a share, neither of them empty.
pub open spec fn names_share(path: Seq<char>) -> bool {
    let server = part_end(path, 2, false);
    path.len() >= 2 && is_separator(path[0]) && is_separator(path[1]) && 2 < server < path.len()
        && server + 1 < part_end(path, server + 1, false)
}

/// What a path begins with, in the order in which such paths sort.
#[derive(Debug, Clone, Copy, PartialEq, Eq, Structural)]
pub enum Kind {
    Verbatim,
    VerbatimShare,
    VerbatimDrive,
    Device,
    Share,
    Drive,
    Plain,
}

pub open spec fn kind_of(path: Seq<char>) -> Kind {
    if is_verbatim_share(path) {
        Kind::VerbatimShare
    } else if is_verbatim_drive(path) {
        Kind::VerbatimDrive
    } else if is_verbatim(path) {
        Kind::Verbatim
    } else if names_device(path) {
        Kind::Device
    } else if names_share(path) {
        Kind::Share
    } else if drive_at(path, 0) {
        Kind::Drive
    } else {
        Kind::Plain
    }
}

fn find_kind(path: &Vec<char>) -> (r: Kind)
    ensures
        r == kind_of(path@),
{
    let length: usize = path.len();
    if length >= 4 && path[0] == '\\' && path[1] == '\\' && path[2] == '?' && path[3] == '\\' {
        if length >= 8 && path[4] == 'U' && path[5] == 'N' && path[6] == 'C' && separator(
            path[7],
        ) {
            return Kind::VerbatimShare;
        }
        if length >= 6 && has_drive(path, 4) && (length == 6 || separator(path[6])) {
            return Kind::VerbatimDrive;
        }
        return Kind::Verbatim;
    }
    if length >= 2 && separator(path[0]) && separator(path[1]) {
        if length >= 4 && path[2] == '.' && separator(path[3]) {
            return Kind::Device;
        }
        let server = find_part_end(path, 2, false);
        if 2 < server && server < length && server + 1 < find_part_end(path, server + 1, false) {
            return Kind::Share;
        }
        return Kind::Plain;
    }
    if has_drive(path, 0) {
        Kind::Drive
    } else {
        Kind::Plain
    }
}

fn has_drive(path: &Vec<char>, at: usize) -> (r: bool)
    requires
        at <= 4,
    ensures
        r == drive_at(path@, at as int),
{
    if path.len() < at + 2 {
        return false;
    }
    let letter: char = path[at];
    (('a' <= letter && letter <= 'z') || ('A' <= letter && letter <= 'Z')) && path[at + 1] == ':'
}

impl Kind {
    pub open spec fn verbatim(self) -> bool {
        self is Verbatim || self is VerbatimShare || self is VerbatimDrive
    }

    fn is_verbatim(self) -> (r: bool)
        ensures
            r == self.verbatim(),
    {
        match self {
            Kind::Verbatim | Kind::VerbatimShare | Kind::VerbatimDrive => true,
            _ => false,
        }
    }
}

/// Where the prefix of a path ends; it is no part of the path.
pub open spec fn prefix_end(path: Seq<char>) -> int {
    match kind_of(path) {
        Kind::Verbatim => part_end(path, 4, true),
        Kind::VerbatimShare => {
            let server = part_end(path, 8, true);
            if server < path.len() && server + 1 < part_end(path, server + 1, true) {
                part_end(path, server + 1, true)
            } else {
                server
            }
        },
        Kind::VerbatimDrive => 6,
        Kind::Device => part_end(path, 4, false),
        Kind::Share => part_end(path, part_end(path, 2, false) + 1, false),
        Kind::Drive => 2,
        Kind::Plain => 0,
    }
}

fn find_prefix_end(path: &Vec<char>) -> (r: usize)
    ensures
        r == prefix_end(path@),
        r <= path@.len(),
{
    match find_kind(path) {
        Kind::Verbatim => find_part_end(path, 4, true),
        Kind::VerbatimShare => {
            let server = find_part_end(path, 8, true);
            if server < path.len() {
                let share = find_part_end(path, server + 1, true);
                if server + 1 < share {
                    return share;
                }
            }
            server
        },
        Kind::VerbatimDrive => 6,
        Kind::Device => find_part_end(path, 4, false),
        Kind::Share => {
            let server = find_part_end(path, 2, false);
            if server < path.len() {
                find_part_end(path, server + 1, false)
            } else {
                server
            }
        },
        Kind::Drive => 2,
        Kind::Plain => 0,
    }
}

/// Where the parts of a path are looked for: behind its prefix and, in a verbatim path, behind the
/// separator that stands for its root, which may be a slash.
pub open spec fn parts_begin(path: Seq<char>) -> int {
    let from = prefix_end(path);
    if kind_of(path).verbatim() && from < path.len() && is_separator(path[from]) {
        from + 1
    } else {
        from
    }
}

fn find_parts_begin(path: &Vec<char>) -> (r: usize)
    ensures
        r == parts_begin(path@),
        r <= path@.len(),
{
    let from = find_prefix_end(path);
    if find_kind(path).is_verbatim() && from < path.len() && separator(path[from]) {
        from + 1
    } else {
        from
    }
}

/// The path has a root: a separator behind its prefix, or a prefix that stands for one.
pub open spec fn is_rooted(path: Seq<char>) -> bool {
    let from = prefix_end(path);
    match kind_of(path) {
        Kind::Drive | Kind::Plain => from < path.len() && is_separator(path[from]),
        _ => true,
    }
}

/// A path from the root of a drive or of a share, or one with a verbatim or a device prefix.
pub open spec fn is_absolute_path(path: Seq<char>) -> bool {
    kind_of(path) != Kind::Plain && is_rooted(path)
}

pub fn is_absolute(path: &str) -> (r: bool)
    ensures
        r == is_absolute_path(path@),
{
    let chars = chars_of(path);
    match find_kind(&chars) {
        Kind::Plain => false,
        Kind::Drive => chars.len() > 2 && separator(chars[2]),
        _ => true,
    }
}

/// Where the last part of the characters from `from` to `end` begins.
pub open spec fn part_start(path: Seq<char>, from: int, end: int, verbatim: bool) -> int
    decreases end - from,
{
    if end <= from || splits(path[end - 1], verbatim) {
        end
    } else {
        part_start(path, from, end - 1, verbatim)
    }
}

proof fn lemma_part_start(path: Seq<char>, from: int, end: int, verbatim: bool)
    requires
        0 <= from <= end <= path.len(),
    ensures
        from <= part_start(path, from, end, verbatim) <= end,
        end > from && !splits(path[end - 1], verbatim) ==> part_start(path, from, end, verbatim)
            < end,
    decreases end - from,
{
    if end > from && !splits(path[end - 1], verbatim) {
        lemma_part_start(path, from, end - 1, verbatim);
    }
}

fn find_part_start(path: &Vec<char>, from: usize, end: usize, verbatim: bool) -> (r: usize)
    requires
        from <= end <= path@.len(),
    ensures
        r == part_start(path@, from as int, end as int, verbatim),
        from <= r <= end,
        end > from && !splits(path@[end - 1], verbatim) ==> r < end,
{
    let mut start: usize = end;
    while start > from && !does_split(path[start - 1], verbatim)
        invariant
            from <= start <= end <= path@.len(),
            part_start(path@, from as int, start as int, verbatim) == part_start(
                path@,
                from as int,
                end as int,
                verbatim,
            ),
        decreases start,
    {
        start = start - 1;
    }
    proof {
        lemma_part_start(path@, from as int, end as int, verbatim);
    }
    start
}

/// The last part of a path that is a name; separators at the end and, but in a verbatim path, parts
/// that are a single dot do not count.
pub open spec fn last_name(path: Seq<char>, from: int, end: int, verbatim: bool) -> Seq<char>
    decreases end - from,
{
    if end <= from {
        Seq::empty()
    } else if splits(path[end - 1], verbatim) {
        last_name(path, from, end - 1, verbatim)
    } else {
        let start = part_start(path, from, end, verbatim);
        let part = path.subrange(start, end);
        if part == seq!['.'] && !verbatim && from < start < end {
            last_name(path, from, start, verbatim)
        } else if part == seq!['.'] || part == seq!['.', '.'] {
            Seq::empty()
        } else {
            part
        }
    }
}

/// The file name in a path; empty where the path has none.
pub open spec fn file_name_of(path: Seq<char>) -> Seq<char> {
    last_name(path, parts_begin(path), path.len() as int, kind_of(path).verbatim())
}

fn is_dot(path: &Vec<char>, start: usize, end: usize) -> (r: bool)
    requires
        start < end <= path@.len(),
    ensures
        r == (path@.subrange(start as int, end as int) == seq!['.']),
{
    let found = end - start == 1 && path[start] == '.';
    let ghost part = path@.subrange(start as int, end as int);
    proof {
        if found {
            assert(part =~= seq!['.']);
        } else if part == seq!['.'] {
            assert(part.len() == 1 && part[0] == '.');
        }
    }
    found
}

fn is_parent(path: &Vec<char>, start: usize, end: usize) -> (r: bool)
    requires
        start < end <= path@.len(),
    ensures
        r == (path@.subrange(start as int, end as int) == seq!['.', '.']),
{
    let found = end - start == 2 && path[start] == '.' && path[start + 1] == '.';
    let ghost part = path@.subrange(start as int, end as int);
    proof {
        if found {
            assert(part =~= seq!['.', '.']);
        } else if part == seq!['.', '.'] {
            assert(part.len() == 2 && part[0] == '.' && part[1] == '.');
        }
    }
    found
}

/// The file name in a path.
pub fn file_name(path: &str) -> (r: String)
    ensures
        r@ == file_name_of(path@),
{
    let chars = chars_of(path);
    let verbatim = find_kind(&chars).is_verbatim();
    let from = find_parts_begin(&chars);
    let mut end: usize = chars.len();
    while end > from
        invariant
            chars@ == path@,
            verbatim == kind_of(path@).verbatim(),
            from == parts_begin(path@),
            from <= end <= chars@.len(),
            last_name(path@, from as int, end as int, verbatim) == file_name_of(path@),
        decreases end,
    {
        if does_split(chars[end - 1], verbatim) {
            end = end - 1;
        } else {
            let start = find_part_start(&chars, from, end, verbatim);
            let dot = is_dot(&chars, start, end);
            if dot && !verbatim && start > from {
                end = start;
            } else if dot || is_parent(&chars, start, end) {
                proof {
                    reveal_strlit("");
                }
                return String::new();
            } else {
                return string_of(slice_subrange(chars.as_slice(), start, end));
            }
        }
    }
    String::new()
}

/// Characters as numbers above those that stand between them.
pub open spec fn name_key(name: Seq<char>) -> Seq<u32> {
    Seq::new(name.len(), |i: int| (name[i] as u32 + 4) as u32)
}

/// The prefix of a path as numbers that sort as prefixes do: by their kind, then by the name or the
/// letter in them. Those of drives sort without case.
pub open spec fn prefix_key(path: Seq<char>) -> Seq<u32> {
    let end = prefix_end(path);
    match kind_of(path) {
        Kind::Verbatim => seq![0u32, 0, 0] + name_key(path.subrange(4, end)),
        Kind::VerbatimShare => {
            let server = part_end(path, 8, true);
            let share = if server < end {
                path.subrange(server + 1, end)
            } else {
                Seq::empty()
            };
            seq![0u32, 0, 1] + name_key(path.subrange(8, server)) + seq![1u32] + name_key(share)
        },
        Kind::VerbatimDrive => seq![0u32, 0, 2] + name_key(seq![ascii_upper_char(path[4])]),
        Kind::Device => seq![0u32, 0, 3] + name_key(path.subrange(4, end)),
        Kind::Share => {
            let server = part_end(path, 2, false);
            seq![0u32, 0, 4] + name_key(path.subrange(2, server)) + seq![1u32] + name_key(
                path.subrange(server + 1, end),
            )
        },
        Kind::Drive => seq![0u32, 0, 5] + name_key(seq![ascii_upper_char(path[0])]),
        Kind::Plain => Seq::empty(),
    }
}

/// The root as numbers; a verbatim path has one only where it is written.
pub open spec fn root_key(path: Seq<char>) -> Seq<u32> {
    let from = prefix_end(path);
    let written = from < path.len() && is_separator(path[from]);
    if written || kind_of(path) is Device || kind_of(path) is Share {
        seq![0u32, 1]
    } else {
        Seq::empty()
    }
}

/// A part of a path as numbers that sort as parts do: a zero in front, then `.` before `..` before
/// any name.
pub open spec fn part_key(part: Seq<char>, dot_counts: bool) -> Seq<u32> {
    if part == seq!['.'] {
        if dot_counts {
            seq![0u32, 2]
        } else {
            Seq::empty()
        }
    } else if part == seq!['.', '.'] {
        seq![0u32, 3]
    } else {
        seq![0u32] + name_key(part)
    }
}

/// The parts from `from` to `end`; repeated separators do not count, and a single dot does only at
/// the front and in a verbatim path.
pub open spec fn parts_key(path: Seq<char>, from: int, end: int, verbatim: bool) -> Seq<u32>
    decreases end - from,
{
    if end <= from {
        Seq::empty()
    } else if splits(path[end - 1], verbatim) {
        parts_key(path, from, end - 1, verbatim)
    } else {
        let start = part_start(path, from, end, verbatim);
        if from <= start < end {
            parts_key(path, from, start, verbatim) + part_key(
                path.subrange(start, end),
                start == from || verbatim,
            )
        } else {
            Seq::empty()
        }
    }
}

/// A path as numbers that sort as paths do, part by part; the prefix stands before the root, and
/// the root before every part.
pub open spec fn path_key(path: Seq<char>) -> Seq<u32> {
    prefix_key(path) + root_key(path) + parts_key(
        path,
        parts_begin(path),
        path.len() as int,
        kind_of(path).verbatim(),
    )
}

/// Numbers stand before others: where they first differ they are smaller, or they end there.
pub open spec fn key_before(a: Seq<u32>, b: Seq<u32>) -> bool
    decreases a.len(),
{
    if b.len() == 0 {
        false
    } else if a.len() == 0 {
        true
    } else if a[0] != b[0] {
        a[0] < b[0]
    } else {
        key_before(a.skip(1), b.skip(1))
    }
}

/// A path stands before another, compared part by part.
pub open spec fn path_before(a: Seq<char>, b: Seq<char>) -> bool {
    key_before(path_key(a), path_key(b))
}

proof fn lemma_char_range(c: char)
    ensures
        c as u32 <= 0x10ffff,
{
}

fn push_char(key: &mut Vec<u32>, c: char)
    ensures
        final(key)@ == old(key)@ + name_key(seq![c]),
{
    proof {
        lemma_char_range(c);
    }
    key.push(c as u32 + 4);
    assert(key@ =~= old(key)@ + name_key(seq![c]));
}

fn push_name(key: &mut Vec<u32>, path: &Vec<char>, start: usize, end: usize)
    requires
        start <= end <= path@.len(),
    ensures
        final(key)@ == old(key)@ + name_key(path@.subrange(start as int, end as int)),
{
    let ghost name = path@.subrange(start as int, end as int);
    let ghost numbers = name_key(name);
    let mut i: usize = start;
    assert(key@ =~= old(key)@ + numbers.take(0));
    while i < end
        invariant
            start <= i <= end <= path@.len(),
            name == path@.subrange(start as int, end as int),
            numbers == name_key(name),
            key@ == old(key)@ + numbers.take(i - start),
        decreases end - i,
    {
        let ghost before = key@;
        push_char(key, path[i]);
        proof {
            assert(name[i - start] == path@[i as int]);
            assert(numbers.take(i + 1 - start) =~= numbers.take(i - start) + name_key(
                seq![path@[i as int]],
            ));
            assert(key@ =~= old(key)@ + numbers.take(i + 1 - start));
        }
        i = i + 1;
    }
    assert(numbers.take(i - start) =~= numbers);
}

fn start_prefix(kind: u32) -> (r: Vec<u32>)
    ensures
        r@ == seq![0u32, 0, kind],
{
    let mut key: Vec<u32> = Vec::new();
    key.push(0);
    key.push(0);
    key.push(kind);
    assert(key@ =~= seq![0u32, 0, kind]);
    key
}

fn key_of_prefix(path: &Vec<char>) -> (r: Vec<u32>)
    ensures
        r@ == prefix_key(path@),
{
    let end = find_prefix_end(path);
    match find_kind(path) {
        Kind::Verbatim => {
            let mut key = start_prefix(0);
            proof {
                lemma_part_end(path@, 4, true);
            }
            push_name(&mut key, path, 4, end);
            key
        },
        Kind::VerbatimShare => {
            let mut key = start_prefix(1);
            let server = find_part_end(path, 8, true);
            push_name(&mut key, path, 8, server);
            key.push(1);
            let ghost so_far = key@;
            if server < end {
                push_name(&mut key, path, server + 1, end);
            }
            proof {
                let name = name_key(path@.subrange(8, server as int));
                assert(so_far =~= seq![0u32, 0, 1] + name + seq![1u32]);
                assert(so_far + name_key(Seq::empty()) =~= so_far);
            }
            key
        },
        Kind::VerbatimDrive => {
            let mut key = start_prefix(2);
            push_char(&mut key, to_ascii_upper_char(path[4]));
            key
        },
        Kind::Device => {
            let mut key = start_prefix(3);
            proof {
                lemma_part_end(path@, 4, false);
            }
            push_name(&mut key, path, 4, end);
            key
        },
        Kind::Share => {
            let mut key = start_prefix(4);
            let server = find_part_end(path, 2, false);
            push_name(&mut key, path, 2, server);
            key.push(1);
            proof {
                let name = name_key(path@.subrange(2, server as int));
                assert(key@ =~= seq![0u32, 0, 4] + name + seq![1u32]);
            }
            push_name(&mut key, path, server + 1, end);
            key
        },
        Kind::Drive => {
            let mut key = start_prefix(5);
            push_char(&mut key, to_ascii_upper_char(path[0]));
            key
        },
        Kind::Plain => Vec::new(),
    }
}

fn push_part(key: &mut Vec<u32>, path: &Vec<char>, start: usize, end: usize, dot_counts: bool)
    requires
        start < end <= path@.len(),
    ensures
        final(key)@ == old(key)@ + part_key(path@.subrange(start as int, end as int), dot_counts),
{
    let ghost part = path@.subrange(start as int, end as int);
    if is_dot(path, start, end) {
        if dot_counts {
            key.push(0);
            key.push(2);
        }
        assert(key@ =~= old(key)@ + part_key(part, dot_counts));
    } else if is_parent(path, start, end) {
        key.push(0);
        key.push(3);
        assert(key@ =~= old(key)@ + part_key(part, dot_counts));
    } else {
        key.push(0);
        push_name(key, path, start, end);
        assert(key@ =~= old(key)@ + part_key(part, dot_counts));
    }
}

fn push_parts(key: &mut Vec<u32>, path: &Vec<char>, from: usize, end: usize, verbatim: bool)
    requires
        from <= end <= path@.len(),
    ensures
        final(key)@ == old(key)@ + parts_key(path@, from as int, end as int, verbatim),
    decreases end,
{
    if end == from {
        assert(key@ =~= old(key)@ + parts_key(path@, from as int, end as int, verbatim));
    } else if does_split(path[end - 1], verbatim) {
        push_parts(key, path, from, end - 1, verbatim);
    } else {
        let start = find_part_start(path, from, end, verbatim);
        push_parts(key, path, from, start, verbatim);
        push_part(key, path, start, end, start == from || verbatim);
        assert(key@ =~= old(key)@ + parts_key(path@, from as int, end as int, verbatim));
    }
}

fn key_of_path(path: &str) -> (r: Vec<u32>)
    ensures
        r@ == path_key(path@),
{
    let chars = chars_of(path);
    let kind = find_kind(&chars);
    let verbatim = kind.is_verbatim();
    let from = find_prefix_end(&chars);
    let mut key = key_of_prefix(&chars);
    let rooted = match kind {
        Kind::Device | Kind::Share => true,
        _ => from < chars.len() && separator(chars[from]),
    };
    if rooted {
        key.push(0);
        key.push(1);
    }
    assert(key@ =~= prefix_key(path@) + root_key(path@));
    let begin = find_parts_begin(&chars);
    push_parts(&mut key, &chars, begin, chars.len(), verbatim);
    key
}

pub fn is_path_before(a: &str, b: &str) -> (r: bool)
    ensures
        r == path_before(a@, b@),
{
    let left = key_of_path(a);
    let right = key_of_path(b);
    let mut i: usize = 0;
    assert(left@.skip(0) =~= left@);
    assert(right@.skip(0) =~= right@);
    while i < left.len() && i < right.len() && left[i] == right[i]
        invariant
            i <= left@.len(),
            i <= right@.len(),
            key_before(left@.skip(i as int), right@.skip(i as int)) == key_before(left@, right@),
        decreases left@.len() - i,
    {
        assert(left@.skip(i as int).skip(1) =~= left@.skip(i + 1));
        assert(right@.skip(i as int).skip(1) =~= right@.skip(i + 1));
        i = i + 1;
    }
    if i >= right.len() {
        false
    } else if i >= left.len() {
        true
    } else {
        left[i] < right[i]
    }
}

/// No path stands before one that it stands behind, and the order is that of a list.
pub proof fn lemma_key_order(a: Seq<u32>, b: Seq<u32>, c: Seq<u32>)
    ensures
        !(key_before(a, b) && key_before(b, a)),
        !key_before(b, a) && !key_before(c, b) ==> !key_before(c, a),
    decreases a.len(), b.len(), c.len(),
{
    if a.len() > 0 && b.len() > 0 && c.len() > 0 {
        lemma_key_order(a.skip(1), b.skip(1), c.skip(1));
    } else if a.len() > 0 && b.len() > 0 {
        lemma_key_order(a.skip(1), b.skip(1), c);
    }
}

/// A path is absolute from the root of a drive, and not where only the drive is named, nor where
/// it begins with a name.
pub proof fn drives_are_absolute_with_their_root(letter: char, rest: Seq<char>)
    requires
        ('a' <= letter <= 'z') || ('A' <= letter <= 'Z'),
    ensures
        is_absolute_path(seq![letter, ':', '\\'] + rest),
        is_absolute_path(seq![letter, ':', '/'] + rest),
        rest.len() == 0 || !is_separator(rest[0]) ==> !is_absolute_path(seq![letter, ':'] + rest),
{
    let a = seq![letter, ':', '\\'] + rest;
    let b = seq![letter, ':', '/'] + rest;
    let c = seq![letter, ':'] + rest;
    assert(a[0] == letter && a[1] == ':' && a[2] == '\\');
    assert(b[0] == letter && b[1] == ':' && b[2] == '/');
    assert(c[0] == letter && c[1] == ':');
    assert(drive_at(a, 0) && drive_at(b, 0) && drive_at(c, 0));
    if rest.len() > 0 {
        assert(c[2] == rest[0]);
    }
}

/// A path that begins with neither a separator nor a drive is not absolute, and neither is an
/// empty one.
pub proof fn names_alone_are_relative(path: Seq<char>)
    ensures
        path.len() == 0 ==> !is_absolute_path(path),
        path.len() > 0 && !is_separator(path[0]) && !drive_at(path, 0) ==> !is_absolute_path(path),
        path.len() == 1 ==> !is_absolute_path(path),
{
}

/// The file name is what stands behind the last separator.
pub proof fn file_names_stand_last(path: Seq<char>, at: int)
    requires
        0 <= parts_begin(path) <= at < path.len(),
        at > parts_begin(path) ==> splits(path[at - 1], kind_of(path).verbatim()),
        forall|i: int|
            at <= i < path.len() ==> !splits(#[trigger] path[i], kind_of(path).verbatim()),
        path.skip(at) != seq!['.'],
        path.skip(at) != seq!['.', '.'],
    ensures
        file_name_of(path) == path.skip(at),
{
    let verbatim = kind_of(path).verbatim();
    let from = parts_begin(path);
    let end = path.len() as int;
    assert(!splits(path[end - 1], verbatim));
    lemma_start_at(path, from, end, verbatim, at);
    assert(path.subrange(at, end) =~= path.skip(at));
}

proof fn lemma_start_at(path: Seq<char>, from: int, end: int, verbatim: bool, at: int)
    requires
        0 <= from <= at <= end <= path.len(),
        at > from ==> splits(path[at - 1], verbatim),
        forall|i: int| at <= i < end ==> !splits(#[trigger] path[i], verbatim),
    ensures
        part_start(path, from, end, verbatim) == at,
    decreases end - at,
{
    if end > at {
        assert(!splits(path[end - 1], verbatim));
        lemma_start_at(path, from, end - 1, verbatim, at);
    }
}

/// A separator at the end of a path does not change its file name, as long as it stands behind the
/// prefix.
pub proof fn trailing_separators_do_not_count(path: Seq<char>, from: int, end: int, verbatim: bool)
    requires
        0 <= from < end <= path.len(),
        splits(path[end - 1], verbatim),
    ensures
        last_name(path, from, end, verbatim) == last_name(path, from, end - 1, verbatim),
{
}

} // verus!
