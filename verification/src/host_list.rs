//! The list of hosts: what a row shows, and the filter above the list.
use vstd::prelude::*;

use crate::id::Id;
use crate::model::{
    models, normalize_tags, normalized, AuthPersistence, HostFilter, HostProfile, ProfileModel,
};
use crate::pool::holds_id;
use crate::probes::HostTestState;
use crate::selection::visible_ids;
use crate::text::{
    chars_of, decimal, decimal_string, join, joined, lowercase, lowercase_text, same_text,
    string_of, texts, to_ascii_upper, ascii_upper,
};

verus! {

pub const TEST_SUCCESS_FILL_DARK: u32 = 0x24_6943;

pub const TEST_FAILURE_FILL_DARK: u32 = 0x84_3035;

pub const TEST_SUCCESS_FILL_LIGHT: u32 = 0xc6_e8ce;

pub const TEST_FAILURE_FILL_LIGHT: u32 = 0xf6_c8cb;

/// The background of a row in red, green and blue, where a test of its host gave it one. Dark fills sit under light
/// text, light ones under dark text.
pub fn host_row_fill(state: Option<HostTestState>, dark_mode: bool) -> (r: Option<u32>)
    ensures
        r == match (state, dark_mode) {
            (Some(HostTestState::Succeeded), true) => Some(TEST_SUCCESS_FILL_DARK),
            (Some(HostTestState::Succeeded), false) => Some(TEST_SUCCESS_FILL_LIGHT),
            (Some(HostTestState::Failed), true) => Some(TEST_FAILURE_FILL_DARK),
            (Some(HostTestState::Failed), false) => Some(TEST_FAILURE_FILL_LIGHT),
            _ => None,
        },
{
    match (state, dark_mode) {
        (Some(HostTestState::Succeeded), true) => Some(TEST_SUCCESS_FILL_DARK),
        (Some(HostTestState::Succeeded), false) => Some(TEST_SUCCESS_FILL_LIGHT),
        (Some(HostTestState::Failed), true) => Some(TEST_FAILURE_FILL_DARK),
        (Some(HostTestState::Failed), false) => Some(TEST_FAILURE_FILL_LIGHT),
        _ => None,
    }
}

#[derive(Debug, Clone, Copy, PartialEq, Eq, Structural)]
pub enum RowMarker {
    Verified,
    Testing,
}

/// Stands behind the endpoint of hosts that keep their authenticated session between calls, so
/// that the relaxed hosts stand out in the list.
pub const RETAINED_GLYPH: &'static str = "∞";

/// What a row shows.
#[derive(Debug)]
pub struct HostRowModel<'a> {
    pub alias: &'a str,
    pub detail: String,
    pub marker: Option<RowMarker>,
    pub retained: bool,
    /// Tags when there are any, otherwise the first line of the description.
    pub secondary: String,
    pub test_state: Option<HostTestState>,
    pub selected: bool,
    pub checked: Option<bool>,
}

/// Where the first line feed stands; the length of the text when it has none.
pub open spec fn line_end(text: Seq<char>) -> int
    decreases text.len(),
{
    if text.len() == 0 || text[0] == '\n' {
        0
    } else {
        1 + line_end(text.skip(1))
    }
}

/// The first line of a text, without its line ending.
pub open spec fn first_line(text: Seq<char>) -> Seq<char> {
    let end = line_end(text);
    if 0 < end < text.len() && text[end - 1] == '\r' {
        text.take(end - 1)
    } else {
        text.take(end)
    }
}

proof fn lemma_line_end(text: Seq<char>, at: int)
    requires
        0 <= at <= text.len(),
        forall|i: int| 0 <= i < at ==> text[i] != '\n',
        at < text.len() ==> text[at] == '\n',
    ensures
        line_end(text) == at,
    decreases text.len(),
{
    if text.len() > 0 && at > 0 {
        let rest = text.skip(1);
        assert(text[0] != '\n');
        assert forall|i: int| 0 <= i < at - 1 implies rest[i] != '\n' by {
            assert(rest[i] == text[i + 1]);
        }
        lemma_line_end(rest, at - 1);
    }
}

pub fn line_of(text: &str) -> (r: String)
    ensures
        r@ == first_line(text@),
{
    let chars = chars_of(text);
    let mut end: usize = 0;
    while end < chars.len() && chars[end] != '\n'
        invariant
            end <= chars@.len(),
            forall|i: int| 0 <= i < end ==> chars@[i] != '\n',
        decreases chars@.len() - end,
    {
        end = end + 1;
    }
    proof {
        lemma_line_end(chars@, end as int);
    }
    let cut: usize = if end > 0 && end < chars.len() && chars[end - 1] == '\r' {
        end - 1
    } else {
        end
    };
    let line = vstd::slice::slice_subrange(chars.as_slice(), 0, cut);
    assert(line@ =~= first_line(text@));
    string_of(line)
}

/// What marks a row: a host that was verified, by the last test or before, or that is tested.
pub open spec fn marker_of(state: Option<HostTestState>, verified: bool) -> Option<RowMarker> {
    match state {
        Some(HostTestState::Succeeded) => Some(RowMarker::Verified),
        Some(HostTestState::Testing) => Some(RowMarker::Testing),
        Some(HostTestState::Failed) => None,
        None => if verified {
            Some(RowMarker::Verified)
        } else {
            None
        },
    }
}

/// How a host is reached, in a line.
pub open spec fn endpoint(host: ProfileModel) -> Seq<char> {
    ascii_upper(host.protocol.name()) + " · "@ + host.address + ":"@ + decimal(host.port as nat)
}

/// The line of small print.
pub open spec fn small_print(host: ProfileModel) -> Seq<char> {
    if host.tags.len() == 0 {
        first_line(host.description)
    } else {
        joined(host.tags, " · "@)
    }
}

impl<'a> HostRowModel<'a> {
    pub fn from_profile(
        host: &'a HostProfile,
        test_state: Option<HostTestState>,
        selected: bool,
        checked: Option<bool>,
    ) -> (r: Self)
        ensures
            r.alias@ == host@.alias,
            r.detail@ == endpoint(host@),
            r.marker == marker_of(test_state, host@.verified),
            r.retained == (host@.persistence() != AuthPersistence::PerCall),
            r.secondary@ == small_print(host@),
            r.test_state == test_state,
            r.selected == selected,
            r.checked == checked,
    {
        let marker = match test_state {
            Some(HostTestState::Succeeded) => Some(RowMarker::Verified),
            Some(HostTestState::Testing) => Some(RowMarker::Testing),
            Some(HostTestState::Failed) => None,
            None => if host.verified {
                Some(RowMarker::Verified)
            } else {
                None
            },
        };
        let secondary = if host.tags.len() == 0 {
            line_of(host.description.as_str())
        } else {
            join(&host.tags, " · ")
        };
        let mut detail = to_ascii_upper(host.protocol.stable_name());
        detail.append(" · ");
        detail.append(host.address.as_str());
        detail.append(":");
        detail.append(decimal_string(host.port as u64).as_str());
        HostRowModel {
            alias: host.alias.as_str(),
            detail,
            marker,
            retained: host.effective_auth_persistence() != AuthPersistence::PerCall,
            secondary,
            test_state,
            selected,
            checked,
        }
    }
}

/// Chooses a host or takes the choice back.
pub fn set_checked(selected: &mut Vec<Id>, id: Id, checked: bool)
    ensures
        final(selected)@ == if !checked {
            crate::probes::ids_without(old(selected)@, id)
        } else if old(selected)@.contains(id) {
            old(selected)@
        } else {
            old(selected)@.push(id)
        },
{
    if checked {
        if !holds_id(selected, id) {
            selected.push(id);
        }
        return;
    }
    let ghost keep = crate::probes::other_than(id);
    let mut out: Vec<Id> = Vec::new();
    let mut i: usize = 0;
    assert(out@ =~= selected@.take(0).filter(keep)) by {
        reveal(Seq::filter);
    }
    while i < selected.len()
        invariant
            i <= selected@.len(),
            selected@ == old(selected)@,
            keep == crate::probes::other_than(id),
            out@ == selected@.take(i as int).filter(keep),
        decreases selected@.len() - i,
    {
        assert(selected@.take(i + 1).drop_last() =~= selected@.take(i as int));
        reveal(Seq::filter);
        if selected[i] != id {
            out.push(selected[i]);
        }
        i = i + 1;
    }
    assert(selected@.take(i as int) =~= selected@);
    *selected = out;
}

/// A text stands before another in the order of their characters.
pub open spec fn text_before(a: Seq<char>, b: Seq<char>) -> bool
    decreases a.len(),
{
    if b.len() == 0 {
        false
    } else if a.len() == 0 {
        true
    } else if a[0] != b[0] {
        a[0] < b[0]
    } else {
        text_before(a.skip(1), b.skip(1))
    }
}

fn is_before(a: &str, b: &str) -> (r: bool)
    ensures
        r == text_before(a@, b@),
{
    let left = chars_of(a);
    let right = chars_of(b);
    let mut i: usize = 0;
    assert(a@.skip(0) =~= a@);
    assert(b@.skip(0) =~= b@);
    while i < left.len() && i < right.len() && left[i] == right[i]
        invariant
            left@ == a@,
            right@ == b@,
            i <= a@.len(),
            i <= b@.len(),
            text_before(a@.skip(i as int), b@.skip(i as int)) == text_before(a@, b@),
        decreases a@.len() - i,
    {
        assert(a@.skip(i as int).skip(1) =~= a@.skip(i + 1));
        assert(b@.skip(i as int).skip(1) =~= b@.skip(i + 1));
        i = i + 1;
    }
    if i >= right.len() {
        false
    } else if i >= left.len() {
        true
    } else {
        left[i] < right[i]
    }
}

/// Two texts are in the same place of the order only if they are the same.
proof fn lemma_order(a: Seq<char>, b: Seq<char>, c: Seq<char>)
    ensures
        !(text_before(a, b) && text_before(b, a)),
        a == b || text_before(a, b) || text_before(b, a),
        text_before(a, b) && text_before(b, c) ==> text_before(a, c),
    decreases a.len(),
{
    if a.len() > 0 && b.len() > 0 && a[0] == b[0] {
        let (x, y) = (a.skip(1), b.skip(1));
        if c.len() > 0 {
            lemma_order(x, y, c.skip(1));
        } else {
            lemma_order(x, y, c);
        }
        if x == y {
            assert(a =~= seq![a[0]] + x);
            assert(b =~= seq![b[0]] + y);
        }
    } else if a.len() == 0 && b.len() == 0 {
        assert(a =~= b);
    }
}

/// The tags stand in the order of their lower-case forms.
pub open spec fn in_order(tags: Seq<Seq<char>>) -> bool {
    forall|i: int, j: int|
        0 <= i < j < tags.len() ==> !text_before(
            lowercase_text(#[trigger] tags[j]),
            lowercase_text(#[trigger] tags[i]),
        )
}

/// Puts a tag where it belongs.
fn insert_tag(sorted: &mut Vec<String>, tag: String)
    requires
        in_order(texts(old(sorted)@)),
    ensures
        in_order(texts(final(sorted)@)),
        texts(final(sorted)@).to_multiset() == texts(old(sorted)@).to_multiset().insert(tag@),
{
    let key = lowercase(tag.as_str());
    let ghost before = texts(sorted@);
    let mut at: usize = sorted.len();
    while at > 0 && is_before(key.as_str(), lowercase(sorted[at - 1].as_str()).as_str())
        invariant
            at <= sorted@.len(),
            before == texts(sorted@),
            key@ == lowercase_text(tag@),
            forall|i: int|
                at <= i < before.len() ==> text_before(key@, lowercase_text(#[trigger] before[i])),
        decreases at,
    {
        assert(before[at - 1] == sorted@[at - 1]@);
        at = at - 1;
    }
    proof {
        if at > 0 {
            assert(before[at - 1] == sorted@[at - 1]@);
        }
    }
    sorted.insert(at, tag);
    let ghost after = texts(sorted@);
    proof {
        assert(after =~= before.insert(at as int, tag@));
        vstd::seq_lib::to_multiset_insert(before, at as int, tag@);
        assert forall|i: int, j: int| 0 <= i < j < after.len() implies !text_before(
            lowercase_text(#[trigger] after[j]),
            lowercase_text(#[trigger] after[i]),
        ) by {
            let x = lowercase_text(after[i]);
            let y = lowercase_text(after[j]);
            lemma_order(y, x, y);
            if j == at {
                // Everything in front stands no later than its neighbour.
                let neighbour = lowercase_text(before[at - 1]);
                assert(after[i] == before[i]);
                lemma_order(y, neighbour, x);
                lemma_order(y, x, neighbour);
                lemma_order(neighbour, x, y);
                if i < at - 1 {
                    assert(!text_before(neighbour, x));
                    lemma_order(neighbour, x, neighbour);
                    lemma_order(x, neighbour, y);
                    lemma_order(y, x, neighbour);
                }
            } else if i == at {
                assert(after[j] == before[j - 1]);
                lemma_order(x, y, x);
            } else {
                let p = if i < at {
                    i
                } else {
                    i - 1
                };
                let q = if j < at {
                    j
                } else {
                    j - 1
                };
                assert(after[i] == before[p]);
                assert(after[j] == before[q]);
            }
        }
    }
}

/// All tags of the hosts, and those the filter asks for.
pub open spec fn tags_of(hosts: Seq<ProfileModel>) -> Seq<Seq<char>>
    decreases hosts.len(),
{
    if hosts.len() == 0 {
        Seq::empty()
    } else {
        tags_of(hosts.drop_last()) + hosts.last().tags
    }
}

fn collect_tags(hosts: &[HostProfile], filter: &HostFilter) -> (r: Vec<String>)
    ensures
        texts(r@) == tags_of(models(hosts@)) + texts(filter.tags@),
{
    let ghost all = models(hosts@);
    let mut out: Vec<String> = Vec::new();
    let mut i: usize = 0;
    assert(texts(out@) =~= tags_of(all.take(0)));
    while i < hosts.len()
        invariant
            i <= hosts@.len(),
            all == models(hosts@),
            texts(out@) == tags_of(all.take(i as int)),
        decreases hosts@.len() - i,
    {
        let ghost before = texts(out@);
        let mut more = crate::text::copy_texts(&hosts[i].tags);
        let ghost added = texts(more@);
        out.append(&mut more);
        assert(texts(out@) =~= before + added);
        assert(all.take(i + 1).drop_last() =~= all.take(i as int));
        assert(all.take(i + 1).last() == hosts@[i as int]@);
        i = i + 1;
    }
    assert(all.take(i as int) =~= all);
    let ghost before = texts(out@);
    let mut more = crate::text::copy_texts(&filter.tags);
    let ghost added = texts(more@);
    out.append(&mut more);
    assert(texts(out@) =~= before + added);
    out
}

/// The tags that the filter offers, each once, in order.
pub fn available_tags(hosts: &[HostProfile], filter: &HostFilter) -> (r: Vec<String>)
    ensures
        in_order(texts(r@)),
        texts(r@).to_multiset() == normalized(
            tags_of(models(hosts@)) + texts(filter.tags@),
        ).to_multiset(),
{
    let all = normalize_tags(&collect_tags(hosts, filter));
    let ghost wanted = texts(all@);
    let mut sorted: Vec<String> = Vec::new();
    let mut i: usize = 0;
    proof {
        assert(texts(sorted@) =~= wanted.take(0));
    }
    while i < all.len()
        invariant
            i <= all@.len(),
            wanted == texts(all@),
            in_order(texts(sorted@)),
            texts(sorted@).to_multiset() == wanted.take(i as int).to_multiset(),
        decreases all@.len() - i,
    {
        proof {
            let so_far = wanted.take(i as int);
            assert(wanted.take(i + 1) =~= so_far.push(wanted[i as int]));
            so_far.to_multiset_ensures();
            assert(so_far.push(wanted[i as int]).to_multiset() =~= so_far.to_multiset().insert(
                wanted[i as int],
            ));
        }
        insert_tag(&mut sorted, all[i].clone());
        i = i + 1;
    }
    assert(wanted.take(i as int) =~= wanted);
    sorted
}

/// Both tags are the same but for letter case.
pub open spec fn same_tag(a: Seq<char>, b: Seq<char>) -> bool {
    lowercase_text(a) == lowercase_text(b)
}

/// The filter asks for the tag.
pub open spec fn asks_for(tags: Seq<Seq<char>>, tag: Seq<char>) -> bool {
    exists|i: int| 0 <= i < tags.len() && same_tag(#[trigger] tags[i], tag)
}

pub open spec fn tags_without(tags: Seq<Seq<char>>, tag: Seq<char>) -> Seq<Seq<char>> {
    tags.filter(|other: Seq<char>| !same_tag(other, tag))
}

/// Whether the filter asks for a tag.
pub fn filter_has_tag(filter: &HostFilter, tag: &str) -> (r: bool)
    ensures
        r == asks_for(texts(filter.tags@), tag@),
{
    let wanted = lowercase(tag);
    let ghost all = texts(filter.tags@);
    let mut i: usize = 0;
    while i < filter.tags.len()
        invariant
            i <= filter.tags@.len(),
            all == texts(filter.tags@),
            wanted@ == lowercase_text(tag@),
            forall|j: int| 0 <= j < i ==> !same_tag(#[trigger] all[j], tag@),
        decreases filter.tags@.len() - i,
    {
        let folded = lowercase(filter.tags[i].as_str());
        if same_text(folded.as_str(), wanted.as_str()) {
            assert(same_tag(all[i as int], tag@));
            return true;
        }
        i = i + 1;
    }
    false
}

/// Has the filter ask for a tag, or no longer.
pub fn set_filter_tag(filter: &mut HostFilter, tag: &str, checked: bool)
    ensures
        final(filter).search == old(filter).search,
        texts(final(filter).tags@) == if checked {
            texts(old(filter).tags@).push(tag@)
        } else {
            tags_without(texts(old(filter).tags@), tag@)
        },
{
    if checked {
        let text = tag.to_owned();
        filter.tags.push(text);
        assert(texts(filter.tags@) =~= texts(old(filter).tags@).push(tag@));
        return;
    }
    let wanted = lowercase(tag);
    let ghost all = texts(filter.tags@);
    let ghost keep = |other: Seq<char>| !same_tag(other, tag@);
    let mut out: Vec<String> = Vec::new();
    let mut i: usize = 0;
    assert(texts(out@) =~= all.take(0).filter(keep)) by {
        reveal(Seq::filter);
    }
    while i < filter.tags.len()
        invariant
            i <= filter.tags@.len(),
            all == texts(filter.tags@),
            *filter == *old(filter),
            wanted@ == lowercase_text(tag@),
            keep == (|other: Seq<char>| !same_tag(other, tag@)),
            texts(out@) == all.take(i as int).filter(keep),
        decreases filter.tags@.len() - i,
    {
        assert(all.take(i + 1).drop_last() =~= all.take(i as int));
        assert(all.take(i + 1).last() == filter.tags@[i as int]@);
        reveal(Seq::filter);
        let folded = lowercase(filter.tags[i].as_str());
        if !same_text(folded.as_str(), wanted.as_str()) {
            let ghost so_far = texts(out@);
            out.push(filter.tags[i].clone());
            assert(texts(out@) =~= so_far.push(filter.tags@[i as int]@));
        }
        i = i + 1;
    }
    assert(all.take(i as int) =~= all);
    filter.tags = out;
}

/// A tag that was checked is asked for, and one that was unchecked is not.
pub proof fn checking_a_tag_decides(tags: Seq<Seq<char>>, tag: Seq<char>)
    ensures
        asks_for(tags.push(tag), tag),
        !asks_for(tags_without(tags, tag), tag),
{
    let more = tags.push(tag);
    assert(same_tag(more[tags.len() as int], tag));
    let keep = |other: Seq<char>| !same_tag(other, tag);
    let left = tags_without(tags, tag);
    assert forall|i: int| 0 <= i < left.len() implies !same_tag(#[trigger] left[i], tag) by {
        tags.lemma_filter_pred(keep, i);
    }
}

/// The bar above the list while hosts are chosen: how many are visible, and whether all of them
/// are chosen.
#[derive(Debug, Clone, Copy, PartialEq, Eq, Structural)]
pub struct SelectionBar {
    pub visible: usize,
    pub all_selected: bool,
    pub count: usize,
}

pub fn selection_bar(hosts: &[HostProfile], filter: &HostFilter, selected: &Vec<Id>) -> (r:
    SelectionBar)
    ensures
        r.visible == visible_ids(models(hosts@), *filter).len(),
        r.count == selected@.len(),
        r.all_selected == (r.visible > 0 && crate::selection::all_within(
            visible_ids(models(hosts@), *filter),
            selected@,
        )),
{
    let ghost all = models(hosts@);
    let mut visible: usize = 0;
    let mut chosen = true;
    let mut i: usize = 0;
    while i < hosts.len()
        invariant
            visible <= i <= hosts@.len(),
            all == models(hosts@),
            visible == visible_ids(all.take(i as int), *filter).len(),
            chosen == crate::selection::all_within(
                visible_ids(all.take(i as int), *filter),
                selected@,
            ),
        decreases hosts@.len() - i,
    {
        let ghost before = visible_ids(all.take(i as int), *filter);
        assert(all.take(i + 1).drop_last() =~= all.take(i as int));
        assert(all.take(i + 1).last() == hosts@[i as int]@);
        if filter.matches(&hosts[i]) {
            visible = visible + 1;
            let held = holds_id(selected, hosts[i].id);
            proof {
                let now = visible_ids(all.take(i + 1), *filter);
                assert(now == before.push(hosts@[i as int].id));
                let last = before.len() as int;
                assert(now[last] == hosts@[i as int].id);
                if chosen && held {
                    assert(crate::selection::all_within(now, selected@));
                } else if !chosen {
                    let k = choose|k: int|
                        0 <= k < before.len() && !selected@.contains(#[trigger] before[k]);
                    assert(now[k] == before[k]);
                }
            }
            if !held {
                chosen = false;
            }
        }
        i = i + 1;
    }
    assert(all.take(i as int) =~= all);
    SelectionBar { visible, all_selected: visible > 0 && chosen, count: selected.len() }
}

/// A row is marked as the last test says, and as the host is stored where there was none.
pub proof fn rows_are_marked_by_the_last_test(state: Option<HostTestState>, verified: bool)
    ensures
        state == Some(HostTestState::Succeeded) ==> marker_of(state, verified) == Some(
            RowMarker::Verified,
        ),
        state == Some(HostTestState::Testing) ==> marker_of(state, verified) == Some(
            RowMarker::Testing,
        ),
        state == Some(HostTestState::Failed) ==> marker_of(state, verified) is None,
        state is None ==> (marker_of(state, verified) == Some(RowMarker::Verified) <==> verified),
{
}

/// The first line of a text is what stands before its first line feed.
pub proof fn first_lines_end_at_the_line_feed(line: Seq<char>, rest: Seq<char>)
    requires
        forall|i: int| 0 <= i < line.len() ==> (#[trigger] line[i]) != '\n' && line[i] != '\r',
    ensures
        first_line(line) == line,
        first_line(line + seq!['\n'] + rest) == line,
        first_line(line + seq!['\r', '\n'] + rest) == line,
{
    lemma_line_end(line, line.len() as int);
    assert(first_line(line) =~= line);
    let unix = line + seq!['\n'] + rest;
    let n = line.len() as int;
    assert forall|i: int| 0 <= i < n implies unix[i] != '\n' by {
        assert(unix[i] == line[i]);
    }
    assert(unix[n] == '\n');
    lemma_line_end(unix, n);
    if n > 0 {
        assert(unix[n - 1] == line[n - 1]);
    }
    assert(first_line(unix) =~= line);
    let other = line + seq!['\r', '\n'] + rest;
    assert forall|i: int| 0 <= i < n + 1 implies other[i] != '\n' by {
        if i < n {
            assert(other[i] == line[i]);
        } else {
            assert(other[i] == '\r');
        }
    }
    assert(other[n + 1] == '\n' && other[n] == '\r');
    lemma_line_end(other, n + 1);
    assert(first_line(other) =~= line);
}

/// A row tells the protocol, the address and the port of its host, and its tags or else the first
/// line of its description.
pub proof fn rows_tell_the_endpoint(host: ProfileModel)
    ensures
        endpoint(host) == ascii_upper(host.protocol.name()) + " · "@ + host.address + ":"@
            + decimal(host.port as nat),
        host.tags.len() == 0 ==> small_print(host) == first_line(host.description),
        host.tags.len() == 1 ==> small_print(host) == host.tags[0],
{
}

/// Every tag of every host is offered.
pub proof fn every_tag_is_collected(hosts: Seq<ProfileModel>, i: int, k: int)
    requires
        0 <= i < hosts.len(),
        0 <= k < hosts[i].tags.len(),
    ensures
        tags_of(hosts).contains(hosts[i].tags[k]),
    decreases hosts.len(),
{
    let before = tags_of(hosts.drop_last());
    let all = tags_of(hosts);
    if i < hosts.len() - 1 {
        every_tag_is_collected(hosts.drop_last(), i, k);
        let j = choose|j: int| 0 <= j < before.len() && before[j] == hosts[i].tags[k];
        assert(all[j] == hosts[i].tags[k]);
    } else {
        assert(all[before.len() + k] == hosts[i].tags[k]);
    }
}

/// Taking a tag out of the filter leaves the other tags in it.
pub proof fn other_tags_stay(tags: Seq<Seq<char>>, tag: Seq<char>, other: Seq<char>)
    ensures
        tags_without(tags, tag).contains(other) <==> tags.contains(other) && !same_tag(other, tag),
    decreases tags.len(),
{
    reveal(Seq::filter);
    if tags.len() > 0 {
        let short = tags.drop_last();
        let before = tags_without(short, tag);
        let all = tags_without(tags, tag);
        other_tags_stay(short, tag, other);
        if all.contains(other) {
            let k = choose|k: int| 0 <= k < all.len() && all[k] == other;
            if k < before.len() {
                assert(before[k] == other);
                let j = choose|j: int| 0 <= j < short.len() && short[j] == other;
                assert(tags[j] == other);
            } else {
                assert(tags[tags.len() - 1] == other);
            }
        }
        if tags.contains(other) && !same_tag(other, tag) {
            let j = choose|j: int| 0 <= j < tags.len() && tags[j] == other;
            if j < short.len() {
                assert(short[j] == other);
                let k = choose|k: int| 0 <= k < before.len() && before[k] == other;
                assert(all[k] == other);
            } else {
                assert(all[before.len() as int] == other);
            }
        }
    }
}

} // verus!
