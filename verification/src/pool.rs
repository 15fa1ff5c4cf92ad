//! Authenticated SSH sessions that are shared between operations: which one serves a key, which
//! ones are closed to make room, and which may not be opened again within a batch.
use vstd::prelude::*;

use crate::failure::{failure, FailureModel, RemoteFailure};
use crate::id::Id;
use crate::model::{
    at_most_as_long, chain_retention, chain_retention_is_the_strictest, models_of, strictest,
    HostProfile, ProfileModel, Retention, SshAuth,
};
use crate::remote::{OperationLimits, VerifiedHostKey, VerifiedModel};
use crate::text::{copy_optional, optional_text, same_optional, same_text, trim, trimmed};

verus! {

/// The pool closes sessions that nobody holds and no host asked to keep, the longest unused first,
/// to stay below this number.
pub const DEFAULT_RETAINED_CONNECTIONS: usize = 16;

/// No more sessions than this exist at a time.
pub const MAX_RETAINED_CONNECTIONS: usize = 32;

/// A session that no host asked to keep is closed when nobody used it for this long, in
/// milliseconds.
pub const CONNECTION_IDLE_TIMEOUT: u64 = 300_000;

/// How one host of a chain is reached and authenticated.
#[derive(Debug, PartialEq, Eq)]
pub struct HopKey {
    pub host_id: Id,
    pub address: String,
    pub port: u16,
    pub username: String,
    pub auth: SshAuth,
    pub private_key_path: String,
    pub private_key_version: Option<(u64, u64)>,
    pub agent_key_fingerprint: String,
    pub host_fingerprint: Option<String>,
    pub host_key_algorithm: Option<String>,
}

pub struct HopModel {
    pub host_id: Id,
    pub address: Seq<char>,
    pub port: u16,
    pub username: Seq<char>,
    pub auth: SshAuth,
    pub private_key_path: Seq<char>,
    pub private_key_version: Option<(u64, u64)>,
    pub agent_key_fingerprint: Seq<char>,
    pub host_fingerprint: Option<Seq<char>>,
    pub host_key_algorithm: Option<Seq<char>>,
}

impl View for HopKey {
    type V = HopModel;

    open spec fn view(&self) -> HopModel {
        HopModel {
            host_id: self.host_id,
            address: self.address@,
            port: self.port,
            username: self.username@,
            auth: self.auth,
            private_key_path: self.private_key_path@,
            private_key_version: self.private_key_version,
            agent_key_fingerprint: self.agent_key_fingerprint@,
            host_fingerprint: optional_text(self.host_fingerprint),
            host_key_algorithm: optional_text(self.host_key_algorithm),
        }
    }
}

/// The key of a host; the version of the key file counts only where a key file is used.
pub open spec fn hop_of(host: ProfileModel, key_file: Option<(u64, u64)>) -> HopModel {
    HopModel {
        host_id: host.id,
        address: trimmed(host.address),
        port: host.port,
        username: trimmed(host.username),
        auth: host.ssh_auth,
        private_key_path: trimmed(host.private_key_path),
        private_key_version: if host.ssh_auth == SshAuth::PrivateKey {
            key_file
        } else {
            None
        },
        agent_key_fingerprint: trimmed(host.agent_key_fingerprint),
        host_fingerprint: host.host_fingerprint,
        host_key_algorithm: host.host_key_algorithm,
    }
}

impl HopKey {
    fn copy(&self) -> (r: Self)
        ensures
            r@ == self@,
    {
        HopKey {
            host_id: self.host_id,
            address: self.address.clone(),
            port: self.port,
            username: self.username.clone(),
            auth: self.auth,
            private_key_path: self.private_key_path.clone(),
            private_key_version: self.private_key_version,
            agent_key_fingerprint: self.agent_key_fingerprint.clone(),
            host_fingerprint: copy_optional(&self.host_fingerprint),
            host_key_algorithm: copy_optional(&self.host_key_algorithm),
        }
    }

    fn same(&self, other: &Self) -> (r: bool)
        ensures
            r == (self@ == other@),
    {
        let version_same = match (self.private_key_version, other.private_key_version) {
            (Some(a), Some(b)) => a.0 == b.0 && a.1 == b.1,
            (None, None) => true,
            _ => false,
        };
        version_same && self.host_id == other.host_id && same_text(
            self.address.as_str(),
            other.address.as_str(),
        ) && self.port == other.port && same_text(
            self.username.as_str(),
            other.username.as_str(),
        ) && self.auth == other.auth && same_text(
            self.private_key_path.as_str(),
            other.private_key_path.as_str(),
        ) && same_text(
            self.agent_key_fingerprint.as_str(),
            other.agent_key_fingerprint.as_str(),
        ) && same_optional(&self.host_fingerprint, &other.host_fingerprint) && same_optional(
            &self.host_key_algorithm,
            &other.host_key_algorithm,
        )
    }
}

/// What makes two sessions interchangeable: every hop of the chain, outermost first.
#[derive(Debug, PartialEq, Eq)]
pub struct SessionKey {
    pub hops: Vec<HopKey>,
}

impl View for SessionKey {
    type V = Seq<HopModel>;

    open spec fn view(&self) -> Seq<HopModel> {
        Seq::new(self.hops@.len(), |i: int| self.hops@[i]@)
    }
}

/// The hops of the session that a new one is opened through.
pub open spec fn parent_hops(parent: Option<&SessionKey>) -> Seq<HopModel> {
    match parent {
        Some(key) => key@,
        None => Seq::empty(),
    }
}

impl Clone for SessionKey {
    fn clone(&self) -> (r: Self)
        ensures
            r@ == self@,
    {
        let mut hops: Vec<HopKey> = Vec::new();
        let mut i: usize = 0;
        while i < self.hops.len()
            invariant
                i <= self.hops@.len(),
                hops@.len() == i,
                forall|j: int| 0 <= j < i ==> (#[trigger] hops@[j])@ == self.hops@[j]@,
            decreases self.hops@.len() - i,
        {
            hops.push(self.hops[i].copy());
            i = i + 1;
        }
        let r = SessionKey { hops };
        assert(r@ =~= self@);
        r
    }
}

impl SessionKey {
    /// The key of a host behind its parent. `key_file` is the size and the modification time of
    /// the host's private key file, where it could be read.
    pub fn new(
        host: &HostProfile,
        parent: Option<&SessionKey>,
        key_file: Option<(u64, u64)>,
    ) -> (r: Self)
        ensures
            r@ == parent_hops(parent).push(hop_of(host@, key_file)),
    {
        let mut key = match parent {
            Some(parent) => parent.clone(),
            None => SessionKey { hops: Vec::new() },
        };
        let ghost before = key@;
        let hop = HopKey {
            host_id: host.id,
            address: trim(host.address.as_str()).to_owned(),
            port: host.port,
            username: trim(host.username.as_str()).to_owned(),
            auth: host.ssh_auth,
            private_key_path: trim(host.private_key_path.as_str()).to_owned(),
            private_key_version: if host.ssh_auth == SshAuth::PrivateKey {
                key_file
            } else {
                None
            },
            agent_key_fingerprint: trim(host.agent_key_fingerprint.as_str()).to_owned(),
            host_fingerprint: copy_optional(&host.host_fingerprint),
            host_key_algorithm: copy_optional(&host.host_key_algorithm),
        };
        key.hops.push(hop);
        assert(before =~= parent_hops(parent));
        assert(key@ =~= before.push(hop_of(host@, key_file)));
        key
    }

    pub fn same(&self, other: &Self) -> (r: bool)
        ensures
            r == (self@ == other@),
    {
        if self.hops.len() != other.hops.len() {
            assert(self@.len() != other@.len());
            return false;
        }
        let mut i: usize = 0;
        while i < self.hops.len()
            invariant
                i <= self.hops@.len(),
                self.hops@.len() == other.hops@.len(),
                forall|j: int| 0 <= j < i ==> (#[trigger] self@[j]) == other@[j],
            decreases self.hops@.len() - i,
        {
            if !self.hops[i].same(&other.hops[i]) {
                assert(self@[i as int] != other@[i as int]);
                return false;
            }
            i = i + 1;
        }
        assert(self@ =~= other@);
        true
    }
}

/// An authenticated session. The handle stands for the connection itself; no two sessions share
/// one.
#[derive(Debug, PartialEq, Eq)]
pub struct PooledSession {
    pub key: SessionKey,
    pub handle: u64,
    pub verified_host_key: VerifiedHostKey,
    pub auth_key_fingerprint: Option<String>,
    pub chain_ids: Vec<Id>,
}

#[verifier::ext_equal]
pub struct SessionModel {
    pub key: Seq<HopModel>,
    pub handle: u64,
    pub verified_host_key: VerifiedModel,
    pub auth_key_fingerprint: Option<Seq<char>>,
    pub chain_ids: Seq<Id>,
}

impl View for PooledSession {
    type V = SessionModel;

    open spec fn view(&self) -> SessionModel {
        SessionModel {
            key: self.key@,
            handle: self.handle,
            verified_host_key: self.verified_host_key@,
            auth_key_fingerprint: optional_text(self.auth_key_fingerprint),
            chain_ids: self.chain_ids@,
        }
    }
}

/// A copy of a list of identities.
pub fn copy_ids(ids: &Vec<Id>) -> (r: Vec<Id>)
    ensures
        r@ == ids@,
{
    let mut out: Vec<Id> = Vec::new();
    let mut i: usize = 0;
    while i < ids.len()
        invariant
            i <= ids@.len(),
            out@ == ids@.take(i as int),
        decreases ids@.len() - i,
    {
        out.push(ids[i]);
        assert(ids@.take(i + 1) =~= ids@.take(i as int).push(ids@[i as int]));
        i = i + 1;
    }
    assert(ids@.take(ids@.len() as int) =~= ids@);
    out
}

impl Clone for PooledSession {
    fn clone(&self) -> (r: Self)
        ensures
            r@ == self@,
    {
        PooledSession {
            key: self.key.clone(),
            handle: self.handle,
            verified_host_key: self.verified_host_key.clone(),
            auth_key_fingerprint: copy_optional(&self.auth_key_fingerprint),
            chain_ids: copy_ids(&self.chain_ids),
        }
    }
}

/// The models of a list of sessions.
pub open spec fn session_models(sessions: Seq<PooledSession>) -> Seq<SessionModel> {
    Seq::new(sessions.len(), |i: int| sessions[i]@)
}

/// A session with the time of its last use, in milliseconds, and how long its hosts keep it.
#[derive(Debug)]
pub struct PoolEntry {
    pub session: PooledSession,
    pub last_used: u64,
    pub retention: Option<Retention>,
}

pub struct EntryModel {
    pub session: SessionModel,
    pub last_used: u64,
    pub retention: Option<Retention>,
}

impl View for PoolEntry {
    type V = EntryModel;

    open spec fn view(&self) -> EntryModel {
        EntryModel {
            session: self.session@,
            last_used: self.last_used,
            retention: self.retention,
        }
    }
}

/// A batch and a key within it.
#[derive(Debug)]
pub struct ScopedKey {
    pub scope: Id,
    pub key: SessionKey,
}

pub struct ScopedModel {
    pub scope: Id,
    pub key: Seq<HopModel>,
}

impl View for ScopedKey {
    type V = ScopedModel;

    open spec fn view(&self) -> ScopedModel {
        ScopedModel { scope: self.scope, key: self.key@ }
    }
}

/// What a list of marks holds, in whatever order.
pub open spec fn marked(marks: Seq<ScopedKey>) -> Set<ScopedModel> {
    Set::new(|m: ScopedModel| exists|i: int| 0 <= i < marks.len() && (#[trigger] marks[i])@ == m)
}

/// Sessions by key, connections being opened, and the marks of running batches.
#[derive(Debug)]
pub struct SessionPool {
    pub entries: Vec<PoolEntry>,
    pub pending_connections: usize,
    pub blocked_reconnects: Vec<ScopedKey>,
    pub batch_connections: Vec<ScopedKey>,
    pub connection_locks: Vec<SessionKey>,
}

#[verifier::ext_equal]
pub struct PoolModel {
    pub entries: Seq<EntryModel>,
    pub pending: usize,
    pub blocked: Set<ScopedModel>,
    pub batch: Set<ScopedModel>,
    pub locks: Seq<Seq<HopModel>>,
}

impl View for SessionPool {
    type V = PoolModel;

    open spec fn view(&self) -> PoolModel {
        PoolModel {
            entries: Seq::new(self.entries@.len(), |i: int| self.entries@[i]@),
            pending: self.pending_connections,
            blocked: marked(self.blocked_reconnects@),
            batch: marked(self.batch_connections@),
            locks: Seq::new(self.connection_locks@.len(), |i: int| self.connection_locks@[i]@),
        }
    }
}

/// Position of the session for a key; the number of sessions when there is none.
pub open spec fn entry_index(entries: Seq<EntryModel>, key: Seq<HopModel>) -> int
    decreases entries.len(),
{
    if entries.len() == 0 || entries[0].session.key == key {
        0
    } else {
        1 + entry_index(entries.skip(1), key)
    }
}

pub open spec fn has_entry(entries: Seq<EntryModel>, key: Seq<HopModel>) -> bool {
    entry_index(entries, key) < entries.len()
}

proof fn lemma_entry_index(entries: Seq<EntryModel>, key: Seq<HopModel>, at: int)
    requires
        0 <= at <= entries.len(),
        forall|i: int| 0 <= i < at ==> (#[trigger] entries[i]).session.key != key,
        at < entries.len() ==> entries[at].session.key == key,
    ensures
        entry_index(entries, key) == at,
    decreases entries.len(),
{
    if entries.len() > 0 && at > 0 {
        let rest = entries.skip(1);
        assert(entries[0].session.key != key);
        assert forall|i: int| 0 <= i < at - 1 implies (#[trigger] rest[i]).session.key != key by {
            assert(rest[i] == entries[i + 1]);
        }
        lemma_entry_index(rest, key, at - 1);
    }
}

impl PoolModel {
    /// No key has two sessions, and no key two creation locks.
    pub open spec fn well_formed(self) -> bool {
        &&& forall|i: int, j: int|
            0 <= i < j < self.entries.len() ==> (#[trigger] self.entries[i]).session.key != (
            #[trigger] self.entries[j]).session.key
        &&& self.locks.no_duplicates()
    }
}

/// The failure of a batch whose shared connection broke.
pub open spec fn reconnect_blocked() -> FailureModel {
    failure(
        "SSH_BATCH_RECONNECT_BLOCKED"@,
        "The shared SSH connection was lost; this batch will not reconnect automatically."@,
    )
}

fn reconnect_blocked_failure() -> (r: RemoteFailure)
    ensures
        r@ == reconnect_blocked(),
{
    RemoteFailure::new(
        "SSH_BATCH_RECONNECT_BLOCKED",
        "The shared SSH connection was lost; this batch will not reconnect automatically.",
    )
}

/// Whether the batch has marked the key.
pub open spec fn marked_in(marks: Set<ScopedModel>, scope: Option<Id>, key: Seq<HopModel>) -> bool {
    scope matches Some(scope) && marks.contains(ScopedModel { scope, key })
}

/// The marks, with the key added for the batch if there is one.
pub open spec fn marked_too(
    marks: Set<ScopedModel>,
    scope: Option<Id>,
    key: Seq<HopModel>,
) -> Set<ScopedModel> {
    match scope {
        Some(scope) => marks.insert(ScopedModel { scope, key }),
        None => marks,
    }
}

/// What asking for a session comes to.
pub enum Ready {
    Blocked,
    Absent,
    Found(SessionModel),
}

impl PoolModel {
    /// The answer to a request for a key. `closed` tells whether the connection behind the
    /// session of that key has broken.
    pub open spec fn answer(self, key: Seq<HopModel>, scope: Option<Id>, closed: bool) -> Ready {
        if marked_in(self.blocked, scope, key) {
            Ready::Blocked
        } else if !has_entry(self.entries, key) {
            Ready::Absent
        } else if !closed {
            Ready::Found(self.entries[entry_index(self.entries, key)].session)
        } else if marked_in(self.batch, scope, key) {
            Ready::Blocked
        } else {
            Ready::Absent
        }
    }

    /// The pool after such a request: a broken session is dropped, and a batch that had used it
    /// may not open it again; a usable one counts as used now, by the batch too, and is kept for
    /// as long as its hosts ask for now.
    pub open spec fn asked(
        self,
        key: Seq<HopModel>,
        scope: Option<Id>,
        closed: bool,
        retention: Option<Retention>,
        now: u64,
    ) -> PoolModel {
        let at = entry_index(self.entries, key);
        if marked_in(self.blocked, scope, key) || !has_entry(self.entries, key) {
            self
        } else if closed {
            PoolModel {
                entries: self.entries.remove(at),
                blocked: if marked_in(self.batch, scope, key) {
                    marked_too(self.blocked, scope, key)
                } else {
                    self.blocked
                },
                ..self
            }
        } else {
            PoolModel {
                entries: self.entries.update(
                    at,
                    EntryModel { last_used: now, retention, ..self.entries[at] },
                ),
                batch: marked_too(self.batch, scope, key),
                ..self
            }
        }
    }

    /// The pool with a session that was just opened, in place of an older one with its key.
    pub open spec fn opened(
        self,
        session: SessionModel,
        retention: Option<Retention>,
        now: u64,
    ) -> PoolModel {
        let fresh = EntryModel { session, last_used: now, retention };
        PoolModel {
            entries: if has_entry(self.entries, session.key) {
                self.entries.update(entry_index(self.entries, session.key), fresh)
            } else {
                self.entries.push(fresh)
            },
            ..self
        }
    }

    /// The pool at the end of a call: what no operation holds and no host asked to keep is gone.
    pub open spec fn released(self, busy: Seq<u64>) -> PoolModel {
        PoolModel {
            entries: kept(self.entries, |e: EntryModel| in_use(e, busy) || e.retention is Some),
            ..self
        }
    }

    /// The pool without the marks of a batch.
    pub open spec fn batch_over(self, scope: Id) -> PoolModel {
        PoolModel {
            blocked: self.blocked.filter(|m: ScopedModel| m.scope != scope),
            batch: self.batch.filter(|m: ScopedModel| m.scope != scope),
            ..self
        }
    }
}

/// The entries that satisfy a condition, in order.
pub open spec fn kept(
    entries: Seq<EntryModel>,
    condition: spec_fn(EntryModel) -> bool,
) -> Seq<EntryModel>
    decreases entries.len(),
{
    if entries.len() == 0 {
        Seq::empty()
    } else if condition(entries.last()) {
        kept(entries.drop_last(), condition).push(entries.last())
    } else {
        kept(entries.drop_last(), condition)
    }
}

/// The sessions of a list of entries.
pub open spec fn sessions_of(entries: Seq<EntryModel>) -> Seq<SessionModel> {
    Seq::new(entries.len(), |i: int| entries[i].session)
}

/// Some operation holds the session.
pub open spec fn in_use(entry: EntryModel, busy: Seq<u64>) -> bool {
    busy.contains(entry.session.handle)
}

/// Nobody holds the session, and nobody used it for as long as it may wait: without end where its
/// hosts keep it, for their time where they set one, and else for the usual time.
pub open spec fn is_idle(entry: EntryModel, busy: Seq<u64>, now: u64) -> bool {
    !in_use(entry, busy) && match entry.retention {
        Some(Retention::Session) => false,
        Some(Retention::Idle(seconds)) => now - entry.last_used >= seconds * 1000,
        None => now - entry.last_used >= CONNECTION_IDLE_TIMEOUT,
    }
}

/// How long the session at the end of a chain is kept: as the strictest of the hosts up to it
/// asks, where the operation may keep sessions at all.
pub open spec fn retained(retain_sessions: bool, chain: Seq<ProfileModel>) -> Option<Retention> {
    if retain_sessions {
        strictest(chain)
    } else {
        None
    }
}

/// How long an operation keeps the session at the end of a chain.
pub fn session_retention(limits: &OperationLimits, chain: &Vec<&HostProfile>) -> (r: Option<
    Retention,
>)
    ensures
        r == retained(limits.retain_sessions, models_of(chain@)),
{
    if limits.retain_sessions {
        chain_retention(chain)
    } else {
        None
    }
}

/// The sessions that are not idle.
pub open spec fn active(entries: Seq<EntryModel>, busy: Seq<u64>, now: u64) -> Seq<EntryModel> {
    kept(entries, |e: EntryModel| !is_idle(e, busy, now))
}

/// The sessions that are idle.
pub open spec fn idle(entries: Seq<EntryModel>, busy: Seq<u64>, now: u64) -> Seq<EntryModel> {
    kept(entries, |e: EntryModel| is_idle(e, busy, now))
}

/// The sessions that reach the host, be it as their target or on the way.
pub open spec fn touching(entries: Seq<EntryModel>, host: Id) -> Seq<EntryModel> {
    kept(entries, |e: EntryModel| e.session.chain_ids.contains(host))
}

/// The sessions that do not reach the host.
pub open spec fn untouched(entries: Seq<EntryModel>, host: Id) -> Seq<EntryModel> {
    kept(entries, |e: EntryModel| !e.session.chain_ids.contains(host))
}

/// The session may be closed to make room: nobody holds it, and no host asked to keep it unless
/// `kept_too` says that this does not count.
pub open spec fn can_leave(entry: EntryModel, busy: Seq<u64>, kept_too: bool) -> bool {
    !in_use(entry, busy) && (kept_too || entry.retention is None)
}

/// The session that can leave and whose last use is longest ago; the first of several.
pub open spec fn oldest(entries: Seq<EntryModel>, busy: Seq<u64>, kept_too: bool) -> Option<int>
    decreases entries.len(),
{
    if entries.len() == 0 {
        None
    } else {
        let last = entries.len() - 1;
        match oldest(entries.drop_last(), busy, kept_too) {
            None => if can_leave(entries.last(), busy, kept_too) {
                Some(last)
            } else {
                None
            },
            Some(at) => if can_leave(entries.last(), busy, kept_too) && entries.last().last_used
                < entries[at].last_used {
                Some(last)
            } else {
                Some(at)
            },
        }
    }
}

/// What `oldest` finds is there, can leave, and no session that can was used before it.
pub proof fn lemma_oldest(entries: Seq<EntryModel>, busy: Seq<u64>, kept_too: bool)
    ensures
        match oldest(entries, busy, kept_too) {
            Some(at) => 0 <= at < entries.len() && can_leave(entries[at], busy, kept_too)
                && forall|i: int|
                0 <= i < entries.len() && can_leave(#[trigger] entries[i], busy, kept_too)
                    ==> entries[at].last_used <= entries[i].last_used,
            None => forall|i: int|
                0 <= i < entries.len() ==> !can_leave(#[trigger] entries[i], busy, kept_too),
        },
    decreases entries.len(),
{
    if entries.len() > 0 {
        let before = entries.drop_last();
        lemma_oldest(before, busy, kept_too);
        assert(forall|i: int| 0 <= i < before.len() ==> before[i] == entries[i]);
        match oldest(entries, busy, kept_too) {
            Some(at) => {
                assert forall|i: int|
                    0 <= i < entries.len() && can_leave(
                        #[trigger] entries[i],
                        busy,
                        kept_too,
                    ) implies entries[at].last_used <= entries[i].last_used by {
                    if i < before.len() {
                        assert(can_leave(before[i], busy, kept_too));
                    }
                }
            },
            None => {
                assert forall|i: int| 0 <= i < entries.len() implies !can_leave(
                    #[trigger] entries[i],
                    busy,
                    kept_too,
                ) by {
                    if i < before.len() {
                        assert(!can_leave(before[i], busy, kept_too));
                    }
                }
            },
        }
    }
}

/// How room is made: which sessions can leave, and below which number there is room.
pub struct Room {
    pub busy: Seq<u64>,
    pub kept_too: bool,
    pub limit: int,
}

/// Room for another connection at the usual size, for which no kept session is closed.
pub open spec fn usual_room(busy: Seq<u64>) -> Room {
    Room { busy, kept_too: false, limit: DEFAULT_RETAINED_CONNECTIONS as int }
}

/// Room for another connection at all, for which kept sessions are closed too.
pub open spec fn last_room(busy: Seq<u64>) -> Room {
    Room { busy, kept_too: true, limit: MAX_RETAINED_CONNECTIONS as int }
}

/// Sessions that can leave do, the longest unused first, while there are too many.
pub open spec fn thinned(entries: Seq<EntryModel>, pending: int, room: Room) -> Seq<EntryModel>
    decreases entries.len(),
{
    match oldest(entries, room.busy, room.kept_too) {
        Some(at) => if entries.len() + pending >= room.limit && 0 <= at < entries.len() {
            thinned(entries.remove(at), pending, room)
        } else {
            entries
        },
        None => entries,
    }
}

/// The sessions that leave while thinning, in the order in which they do.
pub open spec fn evicted(entries: Seq<EntryModel>, pending: int, room: Room) -> Seq<EntryModel>
    decreases entries.len(),
{
    match oldest(entries, room.busy, room.kept_too) {
        Some(at) => if entries.len() + pending >= room.limit && 0 <= at < entries.len() {
            seq![entries[at]] + evicted(entries.remove(at), pending, room)
        } else {
            Seq::empty()
        },
        None => Seq::empty(),
    }
}

/// The sessions that stay when room is made for a connection.
pub open spec fn roomy(entries: Seq<EntryModel>, pending: int, busy: Seq<u64>) -> Seq<EntryModel> {
    thinned(thinned(entries, pending, usual_room(busy)), pending, last_room(busy))
}

/// The sessions that leave when room is made for a connection.
pub open spec fn displaced(
    entries: Seq<EntryModel>,
    pending: int,
    busy: Seq<u64>,
) -> Seq<EntryModel> {
    evicted(entries, pending, usual_room(busy)) + evicted(
        thinned(entries, pending, usual_room(busy)),
        pending,
        last_room(busy),
    )
}

/// The failure of a pool in which no more connections fit.
pub open spec fn pool_full() -> FailureModel {
    failure(
        "SSH_CONNECTION_POOL_FULL"@,
        "All 32 SSH connection slots are currently in use."@,
    )
}

fn holds_handle(list: &Vec<u64>, handle: u64) -> (r: bool)
    ensures
        r == list@.contains(handle),
{
    let mut i: usize = 0;
    while i < list.len()
        invariant
            i <= list@.len(),
            forall|j: int| 0 <= j < i ==> list@[j] != handle,
        decreases list@.len() - i,
    {
        if list[i] == handle {
            return true;
        }
        i = i + 1;
    }
    false
}

pub(crate) fn holds_id(list: &Vec<Id>, id: Id) -> (r: bool)
    ensures
        r == list@.contains(id),
{
    let mut i: usize = 0;
    while i < list.len()
        invariant
            i <= list@.len(),
            forall|j: int| 0 <= j < i ==> list@[j] != id,
        decreases list@.len() - i,
    {
        if list[i] == id {
            return true;
        }
        i = i + 1;
    }
    false
}

fn is_marked(marks: &Vec<ScopedKey>, scope: Option<Id>, key: &SessionKey) -> (r: bool)
    ensures
        r == marked_in(marked(marks@), scope, key@),
{
    let wanted = match scope {
        Some(scope) => scope,
        None => {
            return false;
        },
    };
    let mut i: usize = 0;
    while i < marks.len()
        invariant
            i <= marks@.len(),
            scope == Some(wanted),
            forall|j: int|
                0 <= j < i ==> (#[trigger] marks@[j])@ != (ScopedModel { scope: wanted, key: key@ }),
        decreases marks@.len() - i,
    {
        if marks[i].scope == wanted && marks[i].key.same(key) {
            assert(marks@[i as int]@ == (ScopedModel { scope: wanted, key: key@ }));
            return true;
        }
        i = i + 1;
    }
    false
}

fn mark(marks: &mut Vec<ScopedKey>, scope: Option<Id>, key: &SessionKey)
    ensures
        marked(final(marks)@) == marked_too(marked(old(marks)@), scope, key@),
{
    if let Some(scope) = scope {
        if !is_marked(marks, Some(scope), key) {
            marks.push(ScopedKey { scope, key: key.clone() });
            let ghost m = ScopedModel { scope, key: key@ };
            proof {
                let before = old(marks)@;
                let after = marks@;
                assert forall|x: ScopedModel| marked(after).contains(x) == marked(before).insert(
                    m,
                ).contains(x) by {
                    if marked(before).contains(x) {
                        let i = choose|i: int| 0 <= i < before.len() && (#[trigger] before[i])@ == x;
                        assert(after[i]@ == x);
                    }
                    if x == m {
                        assert(after[before.len() as int]@ == x);
                    }
                }
            }
        }
        assert(marked(marks@) =~= marked_too(marked(old(marks)@), Some(scope), key@));
    }
}

fn unmark(marks: &mut Vec<ScopedKey>, scope: Id)
    ensures
        marked(final(marks)@) == marked(old(marks)@).filter(|m: ScopedModel| m.scope != scope),
{
    let mut left: Vec<ScopedKey> = Vec::new();
    let mut i: usize = 0;
    while i < marks.len()
        invariant
            marks@ == old(marks)@,
            i <= marks@.len(),
            forall|j: int|
                0 <= j < left@.len() ==> (#[trigger] left@[j]).scope != scope && marked(
                    marks@,
                ).contains(left@[j]@),
            forall|j: int|
                0 <= j < i && marks@[j].scope != scope ==> marked(left@).contains(
                    (#[trigger] marks@[j])@,
                ),
        decreases marks@.len() - i,
    {
        if marks[i].scope != scope {
            let ghost before = left@;
            left.push(ScopedKey { scope: marks[i].scope, key: marks[i].key.clone() });
            proof {
                assert(left@[before.len() as int]@ == marks@[i as int]@);
                assert(marked(marks@).contains(marks@[i as int]@));
                assert forall|x: ScopedModel| marked(before).contains(x) implies marked(
                    left@,
                ).contains(x) by {
                    let k = choose|k: int| 0 <= k < before.len() && (#[trigger] before[k])@ == x;
                    assert(left@[k]@ == x);
                }
            }
        }
        i = i + 1;
    }
    proof {
        let wanted = marked(marks@).filter(|m: ScopedModel| m.scope != scope);
        assert forall|x: ScopedModel| marked(left@).contains(x) == wanted.contains(x) by {
            if wanted.contains(x) {
                let k = choose|k: int| 0 <= k < marks@.len() && (#[trigger] marks@[k])@ == x;
                assert(marks@[k].scope != scope);
            }
        }
        assert(marked(left@) =~= wanted);
    }
    *marks = left;
}

impl SessionPool {
    pub fn new() -> (r: Self)
        ensures
            r@ == (PoolModel {
                entries: Seq::empty(),
                pending: 0,
                blocked: Set::empty(),
                batch: Set::empty(),
                locks: Seq::empty(),
            }),
            r@.well_formed(),
    {
        let r = SessionPool {
            entries: Vec::new(),
            pending_connections: 0,
            blocked_reconnects: Vec::new(),
            batch_connections: Vec::new(),
            connection_locks: Vec::new(),
        };
        assert(r@.entries =~= Seq::empty());
        assert(r@.locks =~= Seq::empty());
        assert(r@.blocked =~= Set::empty());
        assert(r@.batch =~= Set::empty());
        r
    }

    fn find(&self, key: &SessionKey) -> (r: Option<usize>)
        ensures
            match r {
                Some(at) => at == entry_index(self@.entries, key@) && at < self.entries@.len(),
                None => !has_entry(self@.entries, key@),
            },
    {
        let mut i: usize = 0;
        while i < self.entries.len()
            invariant
                i <= self.entries@.len(),
                forall|j: int| 0 <= j < i ==> (#[trigger] self@.entries[j]).session.key != key@,
            decreases self.entries@.len() - i,
        {
            if self.entries[i].session.key.same(key) {
                proof {
                    lemma_entry_index(self@.entries, key@, i as int);
                }
                return Some(i);
            }
            i = i + 1;
        }
        proof {
            lemma_entry_index(self@.entries, key@, i as int);
        }
        None
    }

    /// The handle of the session for a key, so that its connection can be looked at.
    pub fn handle_of(&self, key: &SessionKey) -> (r: Option<u64>)
        ensures
            match r {
                Some(handle) => has_entry(self@.entries, key@) && handle
                    == self@.entries[entry_index(self@.entries, key@)].session.handle,
                None => !has_entry(self@.entries, key@),
            },
    {
        match self.find(key) {
            Some(at) => Some(self.entries[at].session.handle),
            None => None,
        }
    }

    /// The number of the lock under which a session for the key is opened: the same one for the
    /// same key, another one for every other key.
    pub fn connection_lock(&mut self, key: &SessionKey) -> (r: usize)
        requires
            old(self)@.well_formed(),
        ensures
            r < final(self)@.locks.len(),
            final(self)@.locks[r as int] == key@,
            final(self)@.locks == if old(self)@.locks.contains(key@) {
                old(self)@.locks
            } else {
                old(self)@.locks.push(key@)
            },
            final(self)@ == (PoolModel { locks: final(self)@.locks, ..old(self)@ }),
            final(self)@.well_formed(),
    {
        let mut i: usize = 0;
        while i < self.connection_locks.len()
            invariant
                self == old(self),
                old(self)@.well_formed(),
                i <= self.connection_locks@.len(),
                forall|j: int| 0 <= j < i ==> (#[trigger] self@.locks[j]) != key@,
            decreases self.connection_locks@.len() - i,
        {
            if self.connection_locks[i].same(key) {
                assert(self@.locks[i as int] == key@);
                return i;
            }
            i = i + 1;
        }
        self.connection_locks.push(key.clone());
        assert(self@.locks =~= old(self)@.locks.push(key@));
        assert(self@.entries =~= old(self)@.entries);
        i
    }

    /// The session for a key, if there is one that can be used. `retention` is how long it is kept
    /// from now on.
    pub fn ready(
        &mut self,
        key: &SessionKey,
        batch_scope: Option<Id>,
        closed: bool,
        retention: Option<Retention>,
        now: u64,
    ) -> (r: Result<Option<PooledSession>, RemoteFailure>)
        requires
            old(self)@.well_formed(),
        ensures
            match old(self)@.answer(key@, batch_scope, closed) {
                Ready::Blocked => r matches Err(error) && error@ == reconnect_blocked(),
                Ready::Absent => r matches Ok(session) && session is None,
                Ready::Found(found) => r matches Ok(Some(session)) && session@ == found,
            },
            final(self)@ == old(self)@.asked(key@, batch_scope, closed, retention, now),
            final(self)@.well_formed(),
    {
        if is_marked(&self.blocked_reconnects, batch_scope, key) {
            return Err(reconnect_blocked_failure());
        }
        let at = match self.find(key) {
            Some(at) => at,
            None => {
                return Ok(None);
            },
        };
        if closed {
            self.entries.remove(at);
            assert(self@.entries =~= old(self)@.entries.remove(at as int));
            if is_marked(&self.batch_connections, batch_scope, key) {
                mark(&mut self.blocked_reconnects, batch_scope, key);
                assert(self@.entries =~= old(self)@.entries.remove(at as int));
                assert(self@.locks =~= old(self)@.locks);
                return Err(reconnect_blocked_failure());
            }
            return Ok(None);
        }
        let session = self.entries[at].session.clone();
        let fresh = PoolEntry {
            session: self.entries[at].session.clone(),
            last_used: now,
            retention,
        };
        self.entries.set(at, fresh);
        mark(&mut self.batch_connections, batch_scope, key);
        proof {
            assert(self@.entries =~= old(self)@.entries.update(
                at as int,
                EntryModel { last_used: now, retention, ..old(self)@.entries[at as int] },
            ));
            assert(self@.locks =~= old(self)@.locks);
            assert forall|i: int, j: int| 0 <= i < j < self@.entries.len() implies (
            #[trigger] self@.entries[i]).session.key != (#[trigger] self@.entries[j]).session.key by {
                assert(old(self)@.entries[i].session.key != old(self)@.entries[j].session.key);
            }
        }
        Ok(Some(session))
    }

    /// Makes room and reserves a place for a connection that is about to be opened. The sessions
    /// that had to leave are returned, so that their connections can be closed.
    pub fn begin_connection(&mut self, busy: &Vec<u64>, now: u64) -> (r: Result<
        Vec<PooledSession>,
        RemoteFailure,
    >)
        requires
            old(self)@.well_formed(),
        ensures
            ({
                let before = old(self)@;
                let usable = active(before.entries, busy@, now);
                let left = roomy(usable, before.pending as int, busy@);
                if left.len() + before.pending >= MAX_RETAINED_CONNECTIONS {
                    &&& r matches Err(error) && error@ == pool_full()
                    &&& final(self)@ == (PoolModel { entries: left, ..before })
                } else {
                    &&& r matches Ok(closing) && session_models(closing@) == sessions_of(
                        idle(before.entries, busy@, now) + displaced(
                            usable,
                            before.pending as int,
                            busy@,
                        ),
                    )
                    &&& final(self)@ == (PoolModel {
                        entries: left,
                        pending: (before.pending + 1) as usize,
                        ..before
                    })
                }
            }),
            final(self)@.well_formed(),
    {
        let ghost start = self@.entries;
        let ghost usable = active(start, busy@, now);
        let ghost stale = idle(start, busy@, now);
        let mut closing = self.idle_sessions(busy, now);
        let ghost pending = self.pending_connections as int;
        proof {
            lemma_kept(start, |e: EntryModel| !is_idle(e, busy@, now));
            assert(self@.entries == usable);
        }
        let ghost first = evicted(usable, pending, usual_room(busy@));
        let ghost second = evicted(
            thinned(usable, pending, usual_room(busy@)),
            pending,
            last_room(busy@),
        );
        self.make_room(busy, false, DEFAULT_RETAINED_CONNECTIONS, &mut closing);
        self.make_room(busy, true, MAX_RETAINED_CONNECTIONS, &mut closing);
        proof {
            lemma_thinned(usable, pending, usual_room(busy@));
            lemma_thinned(
                thinned(usable, pending, usual_room(busy@)),
                pending,
                last_room(busy@),
            );
            assert(sessions_of(stale + (first + second)) =~= sessions_of(stale) + sessions_of(first)
                + sessions_of(second));
            assert(session_models(closing@) == sessions_of(
                stale + displaced(usable, pending, busy@),
            ));
        }
        if self.entries.len() >= MAX_RETAINED_CONNECTIONS || self.pending_connections
            >= MAX_RETAINED_CONNECTIONS - self.entries.len() {
            return Err(
                RemoteFailure::new(
                    "SSH_CONNECTION_POOL_FULL",
                    "All 32 SSH connection slots are currently in use.",
                ),
            );
        }
        self.pending_connections = self.pending_connections + 1;
        assert(self@.entries =~= roomy(usable, pending, busy@));
        Ok(closing)
    }

    /// Moves the marked sessions out of the pool.
    fn take_out(
        &mut self,
        marks: &Vec<bool>,
        Ghost(gone): Ghost<spec_fn(EntryModel) -> bool>,
        Ghost(left): Ghost<spec_fn(EntryModel) -> bool>,
    ) -> (r: Vec<PooledSession>)
        requires
            old(self)@.well_formed(),
            marks@.len() == old(self)@.entries.len(),
            forall|i: int|
                0 <= i < marks@.len() ==> #[trigger] marks@[i] == gone(old(self)@.entries[i]),
            forall|e: EntryModel| #[trigger] left(e) == !gone(e),
        ensures
            final(self)@ == (PoolModel { entries: kept(old(self)@.entries, left), ..old(self)@ }),
            session_models(r@) == sessions_of(kept(old(self)@.entries, gone)),
            final(self)@.well_formed(),
    {
        let mut closing: Vec<PooledSession> = Vec::new();
        let ghost start = self@.entries;
        let mut seen: usize = 0;
        let mut i: usize = 0;
        assert(start.skip(0) =~= start);
        assert(session_models(closing@) =~= sessions_of(kept(start.take(0), gone)));
        while seen < marks.len()
            invariant
                seen <= start.len(),
                start == old(self)@.entries,
                marks@.len() == start.len(),
                forall|k: int| 0 <= k < marks@.len() ==> #[trigger] marks@[k] == gone(start[k]),
                forall|e: EntryModel| #[trigger] left(e) == !gone(e),
                i == kept(start.take(seen as int), left).len(),
                self@ == (PoolModel {
                    entries: kept(start.take(seen as int), left) + start.skip(seen as int),
                    ..old(self)@
                }),
                session_models(closing@) == sessions_of(kept(start.take(seen as int), gone)),
                i <= seen,
                self.entries@.len() == i + start.len() - seen,
            decreases marks@.len() - seen,
        {
            let ghost more = start.take(seen + 1);
            let ghost before = self@.entries;
            proof {
                assert(before[i as int] == start.skip(seen as int)[0]);
                assert(more.drop_last() =~= start.take(seen as int));
                assert(more.last() == before[i as int]);
                assert(start[seen as int] == before[i as int]);
                assert(left(more.last()) == !gone(more.last()));
            }
            if marks[seen] {
                let ghost so_far = closing@;
                let out = self.entries.remove(i);
                closing.push(out.session);
                proof {
                    assert(session_models(closing@) =~= session_models(so_far).push(
                        before[i as int].session,
                    ));
                    assert(sessions_of(kept(more, gone)) =~= sessions_of(
                        kept(start.take(seen as int), gone),
                    ).push(before[i as int].session));
                    assert(self@.entries =~= before.remove(i as int));
                    assert(start.skip(seen as int).remove(0) =~= start.skip(seen + 1));
                    assert(self@.entries =~= kept(more, left) + start.skip(seen + 1));
                    assert(self@.locks =~= old(self)@.locks);
                }
            } else {
                assert(kept(more, left) == kept(start.take(seen as int), left).push(more.last()));
                assert(self@.entries =~= kept(more, left) + start.skip(seen + 1));
                i = i + 1;
            }
            seen = seen + 1;
        }
        proof {
            assert(start.take(seen as int) =~= start);
            assert(self@.entries =~= kept(start, left));
            lemma_kept_keys(start, left);
        }
        closing
    }

    /// Moves the longest unused sessions out of the pool while there are too many.
    fn make_room(
        &mut self,
        busy: &Vec<u64>,
        kept_too: bool,
        limit: usize,
        closing: &mut Vec<PooledSession>,
    )
        requires
            old(self)@.well_formed(),
        ensures
            final(self)@ == (PoolModel {
                entries: thinned(
                    old(self)@.entries,
                    old(self)@.pending as int,
                    Room { busy: busy@, kept_too, limit: limit as int },
                ),
                ..old(self)@
            }),
            session_models(final(closing)@) == session_models(old(closing)@) + sessions_of(
                evicted(
                    old(self)@.entries,
                    old(self)@.pending as int,
                    Room { busy: busy@, kept_too, limit: limit as int },
                ),
            ),
            final(self)@.well_formed(),
    {
        let ghost start = self@.entries;
        let ghost pending = self@.pending as int;
        let ghost room = Room { busy: busy@, kept_too, limit: limit as int };
        assert(session_models(closing@) + sessions_of(evicted(start, pending, room))
            =~= session_models(old(closing)@) + sessions_of(evicted(start, pending, room)));
        while self.entries.len() >= limit || self.pending_connections >= limit - self.entries.len()
            invariant_except_break
                thinned(self@.entries, pending, room) == thinned(start, pending, room),
                session_models(closing@) + sessions_of(evicted(self@.entries, pending, room))
                    == session_models(old(closing)@) + sessions_of(evicted(start, pending, room)),
            invariant
                pending == self.pending_connections,
                room == (Room { busy: busy@, kept_too, limit: limit as int }),
                self@ == (PoolModel { entries: self@.entries, ..old(self)@ }),
                self@.well_formed(),
            ensures
                self@.entries == thinned(start, pending, room),
                session_models(closing@) == session_models(old(closing)@) + sessions_of(
                    evicted(start, pending, room),
                ),
            decreases self.entries@.len(),
        {
            let ghost now_here = self@.entries;
            let at = match self.find_oldest(busy, kept_too) {
                Some(at) => at,
                None => {
                    assert(sessions_of(evicted(self@.entries, pending, room)) =~= Seq::empty());
                    assert(session_models(closing@) =~= session_models(closing@) + sessions_of(
                        evicted(self@.entries, pending, room),
                    ));
                    break;
                },
            };
            let ghost so_far = closing@;
            let gone = self.entries.remove(at);
            closing.push(gone.session);
            proof {
                let rest = now_here.remove(at as int);
                assert(self@.entries =~= rest);
                assert(self@.locks =~= old(self)@.locks);
                let out = evicted(rest, pending, room);
                assert(session_models(closing@) =~= session_models(so_far).push(
                    now_here[at as int].session,
                ));
                assert(session_models(closing@) + sessions_of(out) =~= session_models(so_far)
                    + sessions_of(seq![now_here[at as int]] + out));
            }
        }
        proof {
            if self.entries@.len() + pending < limit {
                assert(evicted(self@.entries, pending, room) =~= Seq::empty());
                assert(sessions_of(evicted(self@.entries, pending, room)) =~= Seq::empty());
                assert(session_models(closing@) + sessions_of(
                    evicted(self@.entries, pending, room),
                ) =~= session_models(closing@));
            }
        }
    }

    fn find_oldest(&self, busy: &Vec<u64>, kept_too: bool) -> (r: Option<usize>)
        ensures
            match r {
                Some(at) => oldest(self@.entries, busy@, kept_too) == Some(at as int) && at
                    < self.entries@.len(),
                None => oldest(self@.entries, busy@, kept_too) is None,
            },
    {
        let ghost all = self@.entries;
        let mut best: Option<usize> = None;
        let mut i: usize = 0;
        while i < self.entries.len()
            invariant
                i <= self.entries@.len(),
                all == self@.entries,
                match best {
                    Some(at) => oldest(all.take(i as int), busy@, kept_too) == Some(at as int)
                        && at < i,
                    None => oldest(all.take(i as int), busy@, kept_too) is None,
                },
            decreases self.entries@.len() - i,
        {
            let ghost more = all.take(i + 1);
            assert(more.drop_last() =~= all.take(i as int));
            assert(more.last() == all[i as int]);
            let held = holds_handle(busy, self.entries[i].session.handle);
            let free = !held && (kept_too || self.entries[i].retention.is_none());
            best = match best {
                None => if free {
                    Some(i)
                } else {
                    None
                },
                Some(at) => if free && self.entries[i].last_used < self.entries[at].last_used {
                    Some(i)
                } else {
                    Some(at)
                },
            };
            i = i + 1;
        }
        assert(all.take(self.entries@.len() as int) =~= all);
        best
    }

    /// Gives back the place of a connection that was opened or failed.
    pub fn release_reservation(&mut self)
        ensures
            final(self)@ == (PoolModel {
                pending: if old(self)@.pending > 0 {
                    (old(self)@.pending - 1) as usize
                } else {
                    0
                },
                ..old(self)@
            }),
    {
        if self.pending_connections > 0 {
            self.pending_connections = self.pending_connections - 1;
        }
    }

    /// Takes in a session that was just opened, in place of an older one with the same key.
    pub fn finish_connection(
        &mut self,
        session: &PooledSession,
        retention: Option<Retention>,
        now: u64,
    )
        requires
            old(self)@.well_formed(),
        ensures
            final(self)@ == old(self)@.opened(session@, retention, now),
            final(self)@.well_formed(),
    {
        let fresh = PoolEntry { session: session.clone(), last_used: now, retention };
        let ghost before = self@.entries;
        match self.find(&session.key) {
            Some(at) => {
                proof {
                    lemma_entry_at(before, session@.key);
                }
                self.entries.set(at, fresh);
                assert(self@.entries =~= before.update(
                    at as int,
                    EntryModel { session: session@, last_used: now, retention },
                ));
                assert forall|i: int, j: int| 0 <= i < j < self@.entries.len() implies (
                #[trigger] self@.entries[i]).session.key != (
                #[trigger] self@.entries[j]).session.key by {
                    assert(before[i].session.key != before[j].session.key);
                }
            },
            None => {
                proof {
                    lemma_entry_at(before, session@.key);
                }
                self.entries.push(fresh);
                assert(self@.entries =~= before.push(
                    EntryModel { session: session@, last_used: now, retention },
                ));
            },
        }
        assert(self@.locks =~= old(self)@.locks);
    }

    /// Drops a session that failed, unless another one took its place.
    pub fn remove(&mut self, session: &PooledSession)
        requires
            old(self)@.well_formed(),
        ensures
            ({
                let at = entry_index(old(self)@.entries, session@.key);
                final(self)@ == (PoolModel {
                    entries: if has_entry(old(self)@.entries, session@.key)
                        && old(self)@.entries[at].session.handle == session@.handle {
                        old(self)@.entries.remove(at)
                    } else {
                        old(self)@.entries
                    },
                    ..old(self)@
                })
            }),
            final(self)@.well_formed(),
    {
        if let Some(at) = self.find(&session.key) {
            if self.entries[at].session.handle == session.handle {
                self.entries.remove(at);
                assert(self@.entries =~= old(self)@.entries.remove(at as int));
            }
        }
        assert(self@.locks =~= old(self)@.locks);
    }

    /// Keeps the batch from opening the key again.
    pub fn block_reconnect(&mut self, scope: Option<Id>, key: &SessionKey)
        ensures
            final(self)@ == (PoolModel {
                blocked: marked_too(old(self)@.blocked, scope, key@),
                ..old(self)@
            }),
    {
        mark(&mut self.blocked_reconnects, scope, key);
        assert(self@.entries =~= old(self)@.entries);
        assert(self@.locks =~= old(self)@.locks);
    }

    /// Notes that the batch uses the key.
    pub fn record_batch_connection(&mut self, scope: Option<Id>, key: &SessionKey)
        ensures
            final(self)@ == (PoolModel {
                batch: marked_too(old(self)@.batch, scope, key@),
                ..old(self)@
            }),
    {
        mark(&mut self.batch_connections, scope, key);
        assert(self@.entries =~= old(self)@.entries);
        assert(self@.locks =~= old(self)@.locks);
    }

    /// Forgets everything that was noted for a batch.
    pub fn finish_batch_scope(&mut self, scope: Id)
        ensures
            final(self)@ == old(self)@.batch_over(scope),
    {
        unmark(&mut self.blocked_reconnects, scope);
        unmark(&mut self.batch_connections, scope);
        assert(self@.entries =~= old(self)@.entries);
        assert(self@.locks =~= old(self)@.locks);
    }

    /// Takes out every session that leads to or through the host.
    pub fn invalidate_host(&mut self, host_id: Id) -> (r: Vec<PooledSession>)
        requires
            old(self)@.well_formed(),
        ensures
            final(self)@ == (PoolModel {
                entries: untouched(old(self)@.entries, host_id),
                ..old(self)@
            }),
            session_models(r@) == sessions_of(touching(old(self)@.entries, host_id)),
            final(self)@.well_formed(),
    {
        let ghost gone = |e: EntryModel| e.session.chain_ids.contains(host_id);
        let ghost left = |e: EntryModel| !e.session.chain_ids.contains(host_id);
        let mut marks: Vec<bool> = Vec::new();
        let mut i: usize = 0;
        while i < self.entries.len()
            invariant
                i <= self.entries@.len(),
                marks@.len() == i,
                gone == (|e: EntryModel| e.session.chain_ids.contains(host_id)),
                forall|k: int|
                    0 <= k < marks@.len() ==> #[trigger] marks@[k] == gone(self@.entries[k]),
            decreases self.entries@.len() - i,
        {
            marks.push(holds_id(&self.entries[i].session.chain_ids, host_id));
            i = i + 1;
        }
        self.take_out(&marks, Ghost(gone), Ghost(left))
    }

    /// Takes out the sessions that nobody used for as long as they may wait.
    pub fn idle_sessions(&mut self, busy: &Vec<u64>, now: u64) -> (r: Vec<PooledSession>)
        requires
            old(self)@.well_formed(),
        ensures
            final(self)@ == (PoolModel {
                entries: active(old(self)@.entries, busy@, now),
                ..old(self)@
            }),
            session_models(r@) == sessions_of(idle(old(self)@.entries, busy@, now)),
            final(self)@.well_formed(),
    {
        let ghost gone = |e: EntryModel| is_idle(e, busy@, now);
        let ghost left = |e: EntryModel| !is_idle(e, busy@, now);
        let mut marks: Vec<bool> = Vec::new();
        let mut i: usize = 0;
        while i < self.entries.len()
            invariant
                i <= self.entries@.len(),
                marks@.len() == i,
                gone == (|e: EntryModel| is_idle(e, busy@, now)),
                forall|k: int|
                    0 <= k < marks@.len() ==> #[trigger] marks@[k] == gone(self@.entries[k]),
            decreases self.entries@.len() - i,
        {
            marks.push(self.entries[i].has_waited(busy, now));
            i = i + 1;
        }
        self.take_out(&marks, Ghost(gone), Ghost(left))
    }

    /// Ends a call: takes out the sessions that no operation holds and no host asked to keep, so
    /// that the next call authenticates again.
    pub fn release_unused(&mut self, busy: &Vec<u64>) -> (r: Vec<PooledSession>)
        requires
            old(self)@.well_formed(),
        ensures
            final(self)@ == old(self)@.released(busy@),
            session_models(r@) == sessions_of(
                kept(
                    old(self)@.entries,
                    |e: EntryModel| !in_use(e, busy@) && e.retention is None,
                ),
            ),
            final(self)@.well_formed(),
    {
        let ghost gone = |e: EntryModel| !in_use(e, busy@) && e.retention is None;
        let ghost left = |e: EntryModel| in_use(e, busy@) || e.retention is Some;
        let mut marks: Vec<bool> = Vec::new();
        let mut i: usize = 0;
        while i < self.entries.len()
            invariant
                i <= self.entries@.len(),
                marks@.len() == i,
                gone == (|e: EntryModel| !in_use(e, busy@) && e.retention is None),
                forall|k: int|
                    0 <= k < marks@.len() ==> #[trigger] marks@[k] == gone(self@.entries[k]),
            decreases self.entries@.len() - i,
        {
            let held = holds_handle(busy, self.entries[i].session.handle);
            marks.push(!held && self.entries[i].retention.is_none());
            i = i + 1;
        }
        self.take_out(&marks, Ghost(gone), Ghost(left))
    }

    /// Takes out all sessions.
    pub fn take_all(&mut self) -> (r: Vec<PooledSession>)
        ensures
            final(self)@ == (PoolModel { entries: Seq::empty(), ..old(self)@ }),
            session_models(r@) == sessions_of(old(self)@.entries),
            old(self)@.well_formed() ==> final(self)@.well_formed(),
    {
        let mut closing: Vec<PooledSession> = Vec::new();
        let mut i: usize = 0;
        while i < self.entries.len()
            invariant
                i <= self.entries@.len(),
                closing@.len() == i,
                forall|k: int|
                    0 <= k < i ==> (#[trigger] closing@[k])@ == self.entries@[k].session@,
            decreases self.entries@.len() - i,
        {
            closing.push(self.entries[i].session.clone());
            i = i + 1;
        }
        assert(session_models(closing@) =~= sessions_of(self@.entries));
        self.entries = Vec::new();
        assert(self@.entries =~= Seq::empty());
        assert(self@.locks =~= old(self)@.locks);
        closing
    }
}

impl PoolEntry {
    fn has_waited(&self, busy: &Vec<u64>, now: u64) -> (r: bool)
        ensures
            r == is_idle(self@, busy@, now),
    {
        if holds_handle(busy, self.session.handle) || now < self.last_used {
            return false;
        }
        let waited: u64 = now - self.last_used;
        match self.retention {
            Some(Retention::Session) => false,
            Some(Retention::Idle(seconds)) => waited / 1000 >= seconds,
            None => waited >= CONNECTION_IDLE_TIMEOUT,
        }
    }
}

proof fn lemma_entry_at(entries: Seq<EntryModel>, key: Seq<HopModel>)
    ensures
        0 <= entry_index(entries, key) <= entries.len(),
        has_entry(entries, key) ==> entries[entry_index(entries, key)].session.key == key,
        forall|i: int|
            0 <= i < entry_index(entries, key) ==> (#[trigger] entries[i]).session.key != key,
    decreases entries.len(),
{
    if entries.len() > 0 && entries[0].session.key != key {
        let rest = entries.skip(1);
        lemma_entry_at(rest, key);
        assert forall|i: int| 0 <= i < entry_index(entries, key) implies (
        #[trigger] entries[i]).session.key != key by {
            if i > 0 {
                assert(rest[i - 1] == entries[i]);
            }
        }
    }
}

/// What is kept satisfies the condition and comes from the list; what satisfies it is kept.
proof fn lemma_kept(entries: Seq<EntryModel>, condition: spec_fn(EntryModel) -> bool)
    ensures
        kept(entries, condition).len() <= entries.len(),
        forall|i: int|
            0 <= i < kept(entries, condition).len() ==> condition(
                #[trigger] kept(entries, condition)[i],
            ) && entries.contains(kept(entries, condition)[i]),
        forall|i: int|
            0 <= i < entries.len() && condition(#[trigger] entries[i]) ==> kept(
                entries,
                condition,
            ).contains(entries[i]),
    decreases entries.len(),
{
    if entries.len() > 0 {
        let before = entries.drop_last();
        lemma_kept(before, condition);
        let result = kept(entries, condition);
        let earlier = kept(before, condition);
        assert forall|i: int| 0 <= i < result.len() implies condition(#[trigger] result[i])
            && entries.contains(result[i]) by {
            if i < earlier.len() {
                assert(result[i] == earlier[i]);
                let k = choose|k: int| 0 <= k < before.len() && before[k] == earlier[i];
                assert(entries[k] == result[i]);
            } else {
                assert(entries[entries.len() - 1] == result[i]);
            }
        }
        assert forall|i: int| 0 <= i < entries.len() && condition(#[trigger] entries[i]) implies result.contains(
        entries[i]) by {
            if i < before.len() {
                assert(before[i] == entries[i]);
                let k = choose|k: int| 0 <= k < earlier.len() && earlier[k] == before[i];
                assert(result[k] == entries[i]);
            } else {
                assert(result[result.len() - 1] == entries[i]);
            }
        }
    }
}

/// Keys that differ keep differing.
proof fn lemma_kept_keys(entries: Seq<EntryModel>, condition: spec_fn(EntryModel) -> bool)
    requires
        forall|i: int, j: int|
            0 <= i < j < entries.len() ==> (#[trigger] entries[i]).session.key != (
            #[trigger] entries[j]).session.key,
    ensures
        forall|i: int, j: int|
            0 <= i < j < kept(entries, condition).len() ==> (#[trigger] kept(
                entries,
                condition,
            )[i]).session.key != (#[trigger] kept(entries, condition)[j]).session.key,
    decreases entries.len(),
{
    if entries.len() > 0 {
        let before = entries.drop_last();
        assert forall|i: int, j: int| 0 <= i < j < before.len() implies (
        #[trigger] before[i]).session.key != (#[trigger] before[j]).session.key by {
            assert(entries[i].session.key != entries[j].session.key);
        }
        lemma_kept_keys(before, condition);
        lemma_kept(before, condition);
        let result = kept(entries, condition);
        let earlier = kept(before, condition);
        assert forall|i: int, j: int| 0 <= i < j < result.len() implies (
        #[trigger] result[i]).session.key != (#[trigger] result[j]).session.key by {
            assert(result[i] == earlier[i]);
            if j < earlier.len() {
                assert(result[j] == earlier[j]);
            } else {
                let k = choose|k: int| 0 <= k < before.len() && before[k] == earlier[i];
                assert(entries[k].session.key != entries[entries.len() - 1].session.key);
            }
        }
    }
}

/// Thinning keeps what cannot leave, and ends below the limit or with nothing but such sessions;
/// below the limit it keeps everything.
proof fn lemma_thinned(entries: Seq<EntryModel>, pending: int, room: Room)
    ensures
        thinned(entries, pending, room).len() <= entries.len(),
        entries.len() + pending < room.limit ==> thinned(entries, pending, room) == entries,
        forall|i: int|
            0 <= i < entries.len() && !can_leave(#[trigger] entries[i], room.busy, room.kept_too)
                ==> thinned(entries, pending, room).contains(entries[i]),
        thinned(entries, pending, room).len() + pending < room.limit || forall|i: int|
            0 <= i < thinned(entries, pending, room).len() ==> !can_leave(
                #[trigger] thinned(entries, pending, room)[i],
                room.busy,
                room.kept_too,
            ),
    decreases entries.len(),
{
    lemma_oldest(entries, room.busy, room.kept_too);
    match oldest(entries, room.busy, room.kept_too) {
        Some(at) => {
            if entries.len() + pending >= room.limit {
                let rest = entries.remove(at);
                lemma_thinned(rest, pending, room);
                assert forall|i: int|
                    0 <= i < entries.len() && !can_leave(
                        #[trigger] entries[i],
                        room.busy,
                        room.kept_too,
                    ) implies thinned(entries, pending, room).contains(entries[i]) by {
                    let k = if i < at {
                        i
                    } else {
                        i - 1
                    };
                    assert(i != at);
                    assert(rest[k] == entries[i]);
                }
            }
        },
        None => {},
    }
}

/// Making room never closes a session that an operation holds.
pub proof fn sessions_in_use_are_not_closed(pool: PoolModel, busy: Seq<u64>, now: u64, i: int)
    requires
        0 <= i < pool.entries.len(),
        in_use(pool.entries[i], busy),
    ensures
        roomy(active(pool.entries, busy, now), pool.pending as int, busy).contains(
            pool.entries[i],
        ),
{
    let usable = active(pool.entries, busy, now);
    let live = |e: EntryModel| !is_idle(e, busy, now);
    let pending = pool.pending as int;
    lemma_kept(pool.entries, live);
    assert(live(pool.entries[i]));
    let k = choose|k: int| 0 <= k < usable.len() && usable[k] == pool.entries[i];
    assert(!can_leave(usable[k], busy, false));
    lemma_thinned(usable, pending, usual_room(busy));
    let first = thinned(usable, pending, usual_room(busy));
    let j = choose|j: int| 0 <= j < first.len() && first[j] == usable[k];
    assert(!can_leave(first[j], busy, true));
    lemma_thinned(first, pending, last_room(busy));
}

/// Making room closes no session that its hosts keep, unless so many are in use or kept that no
/// other connection fits.
pub proof fn kept_sessions_make_room_last(pool: PoolModel, busy: Seq<u64>, now: u64, i: int)
    requires
        0 <= i < pool.entries.len(),
        pool.entries[i].retention is Some,
        !is_idle(pool.entries[i], busy, now),
        thinned(
            active(pool.entries, busy, now),
            pool.pending as int,
            usual_room(busy),
        ).len() + pool.pending < MAX_RETAINED_CONNECTIONS,
    ensures
        roomy(active(pool.entries, busy, now), pool.pending as int, busy).contains(
            pool.entries[i],
        ),
{
    let usable = active(pool.entries, busy, now);
    let live = |e: EntryModel| !is_idle(e, busy, now);
    let pending = pool.pending as int;
    lemma_kept(pool.entries, live);
    assert(live(pool.entries[i]));
    let k = choose|k: int| 0 <= k < usable.len() && usable[k] == pool.entries[i];
    assert(!can_leave(usable[k], busy, false));
    lemma_thinned(usable, pending, usual_room(busy));
    lemma_thinned(thinned(usable, pending, usual_room(busy)), pending, last_room(busy));
}

/// Once room was made, the pool is below its usual size unless operations hold, or hosts keep, all
/// of it.
pub proof fn only_sessions_in_use_or_kept_exceed_the_usual_size(
    pool: PoolModel,
    busy: Seq<u64>,
    now: u64,
)
    ensures
        ({
            let usable = active(pool.entries, busy, now);
            let left = thinned(usable, pool.pending as int, usual_room(busy));
            left.len() + pool.pending < DEFAULT_RETAINED_CONNECTIONS || forall|i: int|
                0 <= i < left.len() ==> in_use(#[trigger] left[i], busy) || left[i].retention
                    is Some
        }),
        ({
            let left = roomy(active(pool.entries, busy, now), pool.pending as int, busy);
            left.len() + pool.pending < MAX_RETAINED_CONNECTIONS || forall|i: int|
                0 <= i < left.len() ==> in_use(#[trigger] left[i], busy)
        }),
{
    let usable = active(pool.entries, busy, now);
    let left = thinned(usable, pool.pending as int, usual_room(busy));
    lemma_thinned(usable, pool.pending as int, usual_room(busy));
    lemma_thinned(left, pool.pending as int, last_room(busy));
    let end = roomy(usable, pool.pending as int, busy);
    if !(left.len() + pool.pending < DEFAULT_RETAINED_CONNECTIONS) {
        assert forall|i: int| 0 <= i < left.len() implies in_use(#[trigger] left[i], busy)
            || left[i].retention is Some by {
            assert(!can_leave(left[i], busy, false));
        }
    }
    if !(end.len() + pool.pending < MAX_RETAINED_CONNECTIONS) {
        assert forall|i: int| 0 <= i < end.len() implies in_use(#[trigger] end[i], busy) by {
            assert(!can_leave(end[i], busy, true));
        }
    }
}

/// A batch that was kept from reconnecting stays so: asking for a session again changes nothing
/// and is refused, until the batch is over; then the key can be opened anew.
pub proof fn a_lost_connection_stays_lost_for_its_batch(
    pool: PoolModel,
    scope: Id,
    key: Seq<HopModel>,
    closed: bool,
    retention: Option<Retention>,
    now: u64,
)
    ensures
        ({
            let blocked = PoolModel {
                blocked: marked_too(pool.blocked, Some(scope), key),
                ..pool
            };
            &&& blocked.answer(key, Some(scope), closed) is Blocked
            &&& blocked.asked(key, Some(scope), closed, retention, now) == blocked
            &&& !has_entry(pool.entries, key) ==> blocked.batch_over(scope).answer(
                key,
                Some(scope),
                closed,
            ) is Absent
        }),
{
}

/// Marks of one batch neither block nor free another batch.
pub proof fn batches_do_not_block_each_other(
    pool: PoolModel,
    scope: Id,
    other: Id,
    key: Seq<HopModel>,
    closed: bool,
)
    requires
        scope != other,
    ensures
        ({
            let blocked = PoolModel {
                blocked: marked_too(pool.blocked, Some(scope), key),
                ..pool
            };
            blocked.answer(key, Some(other), closed) == pool.answer(key, Some(other), closed)
        }),
        pool.batch_over(scope).answer(key, Some(other), closed) == pool.answer(
            key,
            Some(other),
            closed,
        ),
{
}

/// After a host was invalidated no session leads to it or through it.
pub proof fn an_invalidated_host_has_no_session(entries: Seq<EntryModel>, host: Id, i: int)
    requires
        0 <= i < untouched(entries, host).len(),
    ensures
        !untouched(entries, host)[i].session.chain_ids.contains(host),
{
    let other = |e: EntryModel| !e.session.chain_ids.contains(host);
    lemma_kept(entries, other);
    assert(other(untouched(entries, host)[i]));
}

/// Once a call is over and no operation holds anything, only sessions that their hosts asked to
/// keep are found again.
pub proof fn only_kept_sessions_outlive_a_call(
    pool: PoolModel,
    key: Seq<HopModel>,
    scope: Option<Id>,
    closed: bool,
)
    requires
        pool.released(Seq::empty()).answer(key, scope, closed) is Found,
    ensures
        exists|i: int|
            0 <= i < pool.entries.len() && (#[trigger] pool.entries[i]).session.key == key
                && pool.entries[i].retention is Some,
{
    let after = pool.released(Seq::empty()).entries;
    let left = |e: EntryModel| in_use(e, Seq::empty()) || e.retention is Some;
    lemma_kept(pool.entries, left);
    lemma_entry_at(after, key);
    let found = after[entry_index(after, key)];
    assert(left(found));
    let i = choose|i: int| 0 <= i < pool.entries.len() && pool.entries[i] == found;
    assert(pool.entries[i].session.key == key);
}

/// The session of a chain in which some host authenticates on every call, and every session that is
/// not to be kept at all, is gone after the call that opened or used it: the next call
/// authenticates again.
pub proof fn a_call_authenticates_again(
    pool: PoolModel,
    session: SessionModel,
    retain_sessions: bool,
    chain: Seq<ProfileModel>,
    hop: int,
    scope: Option<Id>,
    later_scope: Option<Id>,
    closed: bool,
    now: u64,
)
    requires
        pool.well_formed(),
        retain_sessions ==> 0 <= hop < chain.len() && chain[hop].persistence().kept_for() is None,
    ensures
        ({
            let retention = retained(retain_sessions, chain);
            let opened = pool.opened(session, retention, now);
            let used = pool.asked(session.key, scope, false, retention, now);
            &&& !(opened.released(Seq::empty()).answer(session.key, later_scope, closed) is Found)
            &&& pool.answer(session.key, scope, false) is Found ==> !(used.released(
                Seq::empty(),
            ).answer(session.key, later_scope, closed) is Found)
        }),
{
    let retention = retained(retain_sessions, chain);
    if retain_sessions {
        chain_retention_is_the_strictest(chain);
        assert(at_most_as_long(strictest(chain), chain[hop].persistence().kept_for()));
    }
    assert(retention is None);
    lemma_entry_at(pool.entries, session.key);
    let opened = pool.opened(session, retention, now);
    if opened.released(Seq::empty()).answer(session.key, later_scope, closed) is Found {
        only_kept_sessions_outlive_a_call(opened, session.key, later_scope, closed);
    }
    let used = pool.asked(session.key, scope, false, retention, now);
    if pool.answer(session.key, scope, false) is Found && used.released(Seq::empty()).answer(
        session.key,
        later_scope,
        closed,
    ) is Found {
        only_kept_sessions_outlive_a_call(used, session.key, later_scope, closed);
        let i = choose|i: int|
            0 <= i < used.entries.len() && (#[trigger] used.entries[i]).session.key == session.key
                && used.entries[i].retention is Some;
        let at = entry_index(pool.entries, session.key);
        assert(pool.entries[at].session.key == session.key);
        assert(pool.entries[i].session.key == session.key);
    }
}

/// A session that its hosts keep stays when a call ends, and does not become idle; one that they
/// keep for a time stays when a call ends, and until nobody used it for that time.
pub proof fn kept_sessions_stay(entries: Seq<EntryModel>, i: int, busy: Seq<u64>, now: u64)
    requires
        0 <= i < entries.len(),
        entries[i].retention is Some,
    ensures
        kept(entries, |e: EntryModel| in_use(e, busy) || e.retention is Some).contains(entries[i]),
        entries[i].retention == Some(Retention::Session) ==> active(entries, busy, now).contains(
            entries[i],
        ),
        (entries[i].retention matches Some(Retention::Idle(seconds)) && now - entries[i].last_used
            < seconds * 1000) ==> active(entries, busy, now).contains(entries[i]),
{
    lemma_kept(entries, |e: EntryModel| in_use(e, busy) || e.retention is Some);
    lemma_kept(entries, |e: EntryModel| !is_idle(e, busy, now));
}

/// A session that its hosts keep for a time, and that no operation holds, is closed once nobody
/// used it for that time.
pub proof fn timed_sessions_end(entries: Seq<EntryModel>, busy: Seq<u64>, now: u64, i: int)
    requires
        0 <= i < active(entries, busy, now).len(),
        !in_use(active(entries, busy, now)[i], busy),
    ensures
        active(entries, busy, now)[i].retention matches Some(Retention::Idle(seconds)) ==> now
            - active(entries, busy, now)[i].last_used < seconds * 1000,
{
    lemma_kept(entries, |e: EntryModel| !is_idle(e, busy, now));
}

/// A session that its hosts ask to keep, and whose link has not broken, serves the next call: when
/// the call that opened it ends, and as long as it is not idle, asking for its key finds it.
pub proof fn a_kept_session_serves_the_next_call(
    pool: PoolModel,
    session: SessionModel,
    retention: Retention,
    busy: Seq<u64>,
    opened_at: u64,
    now: u64,
    scope: Option<Id>,
)
    requires
        pool.well_formed(),
        !marked_in(pool.blocked, scope, session.key),
        match retention {
            Retention::Session => true,
            Retention::Idle(seconds) => now - opened_at < seconds * 1000,
        },
    ensures
        ({
            let after = pool.opened(session, Some(retention), opened_at).released(busy);
            let later = PoolModel { entries: active(after.entries, busy, now), ..after };
            &&& after.answer(session.key, scope, false) == Ready::Found(session)
            &&& later.answer(session.key, scope, false) == Ready::Found(session)
        }),
{
    let opened = pool.opened(session, Some(retention), opened_at);
    let entries = opened.entries;
    let at = entry_index(pool.entries, session.key);
    lemma_entry_at(pool.entries, session.key);
    let fresh = entries[at];
    assert(fresh == (EntryModel { session, last_used: opened_at, retention: Some(retention) }));
    assert forall|i: int, j: int| 0 <= i < j < entries.len() implies (
    #[trigger] entries[i]).session.key != (#[trigger] entries[j]).session.key by {
        if j < pool.entries.len() {
            assert(pool.entries[i].session.key != pool.entries[j].session.key);
        } else {
            assert(pool.entries[i].session.key != session.key);
        }
    }
    let left = |e: EntryModel| in_use(e, busy) || e.retention is Some;
    let after = kept(entries, left);
    lemma_kept(entries, left);
    lemma_kept_keys(entries, left);
    assert(left(entries[at]));
    let k = choose|k: int| 0 <= k < after.len() && after[k] == fresh;
    lemma_only_entry(after, k);
    let live = |e: EntryModel| !is_idle(e, busy, now);
    lemma_kept(after, live);
    lemma_kept_keys(after, live);
    assert(live(after[k]));
    let later = kept(after, live);
    let m = choose|m: int| 0 <= m < later.len() && later[m] == fresh;
    lemma_only_entry(later, m);
}

proof fn lemma_only_entry(entries: Seq<EntryModel>, at: int)
    requires
        0 <= at < entries.len(),
        forall|i: int, j: int|
            0 <= i < j < entries.len() ==> (#[trigger] entries[i]).session.key != (
            #[trigger] entries[j]).session.key,
    ensures
        entry_index(entries, entries[at].session.key) == at,
{
    lemma_entry_index(entries, entries[at].session.key, at);
}

/// Two hosts share a session only where everything agrees by which they are reached and logged
/// into, the key that is trusted among it.
pub proof fn sessions_are_shared_only_where_all_agrees(
    a: ProfileModel,
    b: ProfileModel,
    file_a: Option<(u64, u64)>,
    file_b: Option<(u64, u64)>,
)
    ensures
        hop_of(a, file_a) == hop_of(b, file_b) ==> {
            &&& a.id == b.id
            &&& trimmed(a.address) == trimmed(b.address)
            &&& a.port == b.port
            &&& trimmed(a.username) == trimmed(b.username)
            &&& a.ssh_auth == b.ssh_auth
            &&& trimmed(a.private_key_path) == trimmed(b.private_key_path)
            &&& trimmed(a.agent_key_fingerprint) == trimmed(b.agent_key_fingerprint)
            &&& a.host_fingerprint == b.host_fingerprint
            &&& a.host_key_algorithm == b.host_key_algorithm
            &&& a.ssh_auth == SshAuth::PrivateKey ==> file_a == file_b
        },
        a.ssh_auth != SshAuth::PrivateKey ==> hop_of(a, file_a) == hop_of(a, file_b),
        hop_of(a, file_a).address == trimmed(a.address),
        hop_of(a, file_a).username == trimmed(a.username),
        hop_of(a, file_a).host_fingerprint == a.host_fingerprint,
{
}

/// Whoever asks for a key gets the session of that key while it is usable, and no other session.
pub proof fn keys_get_their_own_session(
    pool: PoolModel,
    key: Seq<HopModel>,
    scope: Option<Id>,
    closed: bool,
    at: int,
)
    requires
        pool.well_formed(),
    ensures
        pool.answer(key, scope, closed) matches Ready::Found(found) ==> found.key == key && !closed,
        0 <= at < pool.entries.len() && pool.entries[at].session.key == key && !closed
            && !marked_in(pool.blocked, scope, key) ==> pool.answer(key, scope, closed)
            == Ready::Found(pool.entries[at].session),
        closed ==> !(pool.answer(key, scope, closed) is Found),
        scope is None ==> !(pool.answer(key, scope, closed) is Blocked),
        (forall|i: int| 0 <= i < pool.entries.len() ==> (#[trigger] pool.entries[i]).session.key
            != key) && !marked_in(pool.blocked, scope, key) ==> pool.answer(key, scope, closed)
            is Absent,
{
    lemma_entry_at(pool.entries, key);
    if 0 <= at < pool.entries.len() && pool.entries[at].session.key == key {
        let found = entry_index(pool.entries, key);
        if found < at {
            assert(pool.entries[found].session.key != pool.entries[at].session.key);
        }
    }
}

/// A session that is used counts as used now and is kept as its hosts ask for now; nothing else in
/// the pool changes, and a broken session is gone.
pub proof fn use_is_noted(
    pool: PoolModel,
    key: Seq<HopModel>,
    scope: Option<Id>,
    closed: bool,
    retention: Option<Retention>,
    now: u64,
    i: int,
)
    requires
        pool.well_formed(),
        0 <= i < pool.entries.len(),
        !marked_in(pool.blocked, scope, key),
    ensures
        !closed ==> pool.asked(key, scope, closed, retention, now).entries.len()
            == pool.entries.len(),
        !closed && pool.entries[i].session.key == key ==> pool.asked(
            key,
            scope,
            closed,
            retention,
            now,
        ).entries[i] == (EntryModel { session: pool.entries[i].session, last_used: now, retention }),
        !closed && pool.entries[i].session.key != key ==> pool.asked(
            key,
            scope,
            closed,
            retention,
            now,
        ).entries[i] == pool.entries[i],
        closed && pool.entries[i].session.key == key ==> pool.asked(
            key,
            scope,
            closed,
            retention,
            now,
        ).entries == pool.entries.remove(i),
        pool.asked(key, scope, closed, retention, now).pending == pool.pending,
{
    lemma_entry_at(pool.entries, key);
    if pool.entries[i].session.key == key {
        let found = entry_index(pool.entries, key);
        if found < i {
            assert(pool.entries[found].session.key != pool.entries[i].session.key);
        }
    }
}

/// A session that was opened is there for its key, with the time of its opening.
pub proof fn opened_sessions_are_found(
    pool: PoolModel,
    session: SessionModel,
    retention: Option<Retention>,
    now: u64,
)
    requires
        pool.well_formed(),
    ensures
        pool.opened(session, retention, now).entries.contains(
            EntryModel { session, last_used: now, retention },
        ),
        pool.opened(session, retention, now).answer(session.key, None, false) == Ready::Found(
            session,
        ),
        pool.opened(session, retention, now).entries.len() <= pool.entries.len() + 1,
        pool.opened(session, retention, now).blocked == pool.blocked,
{
    let after = pool.opened(session, retention, now);
    let fresh = EntryModel { session, last_used: now, retention };
    lemma_entry_at(pool.entries, session.key);
    let at = entry_index(pool.entries, session.key);
    assert(after.entries[at] == fresh);
    assert forall|i: int| 0 <= i < at implies (#[trigger] after.entries[i]).session.key
        != session.key by {
        assert(after.entries[i] == pool.entries[i]);
    }
    lemma_entry_index(after.entries, session.key, at);
}

/// While room is made, every session either stays or is handed over to be closed, and none twice.
pub proof fn sessions_stay_or_are_closed(entries: Seq<EntryModel>, pending: int, room: Room)
    ensures
        thinned(entries, pending, room).len() + evicted(entries, pending, room).len()
            == entries.len(),
        forall|i: int|
            0 <= i < evicted(entries, pending, room).len() ==> can_leave(
                #[trigger] evicted(entries, pending, room)[i],
                room.busy,
                room.kept_too,
            ),
        entries.len() + pending < room.limit ==> thinned(entries, pending, room) == entries,
    decreases entries.len(),
{
    lemma_oldest(entries, room.busy, room.kept_too);
    if let Some(at) = oldest(entries, room.busy, room.kept_too) {
        if entries.len() + pending >= room.limit && 0 <= at < entries.len() {
            let rest = entries.remove(at);
            sessions_stay_or_are_closed(rest, pending, room);
            let gone = evicted(entries, pending, room);
            assert forall|i: int| 0 <= i < gone.len() implies can_leave(
                #[trigger] gone[i],
                room.busy,
                room.kept_too,
            ) by {
                if i == 0 {
                    assert(gone[0] == entries[at]);
                } else {
                    assert(gone[i] == evicted(rest, pending, room)[i - 1]);
                }
            }
        }
    }
}

/// A session that nobody asked to keep waits five minutes; one that is kept for some seconds waits
/// for those; one that is kept waits without end; and none that is held is idle.
pub proof fn sessions_wait_as_long_as_they_may(entry: EntryModel, busy: Seq<u64>, now: u64)
    ensures
        busy.contains(entry.session.handle) ==> !is_idle(entry, busy, now),
        !busy.contains(entry.session.handle) && entry.retention is None ==> (is_idle(
            entry,
            busy,
            now,
        ) <==> now - entry.last_used >= 300_000),
        !busy.contains(entry.session.handle) && (entry.retention matches Some(
            Retention::Idle(seconds),
        )) ==> (is_idle(entry, busy, now) <==> now - entry.last_used
            >= entry.retention->0->Idle_0 * 1000),
        entry.retention == Some(Retention::Session) ==> !is_idle(entry, busy, now),
{
}

/// Sessions are kept beyond a call only where the operation may keep them, and then as the
/// strictest host asks.
pub proof fn sessions_are_kept_where_they_may_be(chain: Seq<ProfileModel>)
    ensures
        retained(false, chain) is None,
        retained(true, chain) == strictest(chain),
{
}

/// The marks of a batch are gone once it is over, and those of others stay.
pub proof fn marks_end_with_their_batch(pool: PoolModel, scope: Id, mark: ScopedModel)
    ensures
        pool.batch_over(scope).blocked.contains(mark) <==> pool.blocked.contains(mark)
            && mark.scope != scope,
        pool.batch_over(scope).batch.contains(mark) <==> pool.batch.contains(mark) && mark.scope
            != scope,
        pool.batch_over(scope).entries == pool.entries,
{
}

} // verus!
