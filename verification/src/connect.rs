//! Opening one hop of a chain: the steps of a connection, in the order in which they are taken.
use vstd::prelude::*;

use crate::failure::{
    check_host_key, failure, host_key_accepted, host_key_failure, ObservedHostKey, RemoteFailure,
};
use crate::id::Id;
use crate::model::HostProfile;
use crate::pool::{copy_ids, HopModel, PooledSession, SessionKey};
use crate::remote::{OperationLimits, VerifiedHostKey, VerifiedModel};
use crate::text::optional_text;

verus! {

/// What is to be done next. Time limits are in milliseconds.
#[derive(Debug)]
pub enum ConnectAction {
    OpenJumpChannel { address: String, port: u16, timeout: Option<u64> },
    OpenTcp { address: String, port: u16, timeout: Option<u64> },
    Handshake { timeout: Option<u64> },
    Authenticate { timeout: Option<u64> },
    /// Close the session because its host key is not trusted, then report the failure.
    Reject(RemoteFailure),
    Fail(RemoteFailure),
    Done(PooledSession),
}

/// What came of an action.
#[derive(Debug)]
pub enum ConnectEvent {
    Opened,
    /// The handshake is over; the key that the server presented, if any.
    ShookHands(Option<ObservedHostKey>),
    /// The key that the server presented cannot be read.
    KeyUnreadable,
    /// The server accepted; the key that was used, the handle of the session and the time.
    Authenticated { auth_key_fingerprint: Option<String>, handle: u64, now_unix: u64 },
    AuthFailed(RemoteFailure),
    Failed(String),
    TimedOut,
}

/// How far the connection has come.
#[derive(Debug)]
pub enum ConnectPhase {
    Opening,
    Handshaking,
    Authenticating(ObservedHostKey),
    Over,
}

/// One hop that is being opened, through a parent session if there is one.
#[derive(Debug)]
pub struct Connecting<'a> {
    pub host: &'a HostProfile,
    pub parent: Option<&'a PooledSession>,
    pub limits: OperationLimits,
    pub phase: ConnectPhase,
}

/// The hosts on the way to the parent.
pub open spec fn parent_ids(parent: Option<&PooledSession>) -> Seq<Id> {
    match parent {
        Some(session) => session@.chain_ids,
        None => Seq::empty(),
    }
}

/// The event is one that the current phase can bring.
pub open spec fn event_fits(phase: ConnectPhase, event: ConnectEvent) -> bool {
    match (phase, event) {
        (ConnectPhase::Opening, ConnectEvent::Opened) => true,
        (ConnectPhase::Opening, ConnectEvent::Failed(_)) => true,
        (ConnectPhase::Opening, ConnectEvent::TimedOut) => true,
        (ConnectPhase::Handshaking, ConnectEvent::ShookHands(_)) => true,
        (ConnectPhase::Handshaking, ConnectEvent::KeyUnreadable) => true,
        (ConnectPhase::Handshaking, ConnectEvent::Failed(_)) => true,
        (ConnectPhase::Handshaking, ConnectEvent::TimedOut) => true,
        (ConnectPhase::Authenticating(_), ConnectEvent::Authenticated { .. }) => true,
        (ConnectPhase::Authenticating(_), ConnectEvent::AuthFailed(_)) => true,
        (ConnectPhase::Authenticating(_), ConnectEvent::TimedOut) => true,
        _ => false,
    }
}

/// The action reports this failure.
pub open spec fn fails_with(action: ConnectAction, code: Seq<char>, message: Seq<char>) -> bool {
    action matches ConnectAction::Fail(error) && error@ == failure(code, message)
}

/// The message of a connection that took too long, by what was going on.
pub open spec fn timeout_message(phase: ConnectPhase, through_jump: bool) -> Seq<char> {
    match phase {
        ConnectPhase::Opening => if through_jump {
            "Opening the SSH jump-host channel timed out."@
        } else {
            "The TCP connection timed out."@
        },
        _ => if through_jump {
            "The SSH handshake through the jump host timed out."@
        } else {
            "The SSH handshake timed out."@
        },
    }
}

/// What a step of a connection comes to.
pub open spec fn steps_to(
    before: Connecting,
    event: ConnectEvent,
    key: Seq<HopModel>,
    after: Connecting,
    action: ConnectAction,
) -> bool {
    match (before.phase, event) {
        (ConnectPhase::Opening, ConnectEvent::Opened) => after.phase is Handshaking
            && action == (ConnectAction::Handshake {
            timeout: before.limits.connect_timeout,
        }),
        (ConnectPhase::Opening, ConnectEvent::Failed(text)) => after.phase is Over
            && fails_with(
            action,
            if before.parent is Some {
                "JUMP_CHANNEL_FAILED"@
            } else {
                "CONNECT_FAILED"@
            },
            text@,
        ),
        (ConnectPhase::Handshaking, ConnectEvent::Failed(text)) => after.phase is Over && fails_with(action, "HANDSHAKE_FAILED"@, text@),
        (ConnectPhase::Handshaking, ConnectEvent::KeyUnreadable) => after.phase is Over && fails_with(
            action,
            "HOSTKEY_MISSING"@,
            "Cannot read the SSH host key."@,
        ),
        (ConnectPhase::Handshaking, ConnectEvent::ShookHands(None)) => after.phase is Over && fails_with(
            action,
            "HOSTKEY_MISSING"@,
            "The server did not provide a host key."@,
        ),
        (ConnectPhase::Handshaking, ConnectEvent::ShookHands(Some(seen))) => if host_key_accepted(
            before.host@,
            seen.fingerprint@,
        ) {
            after.phase == ConnectPhase::Authenticating(seen) && action == (
            ConnectAction::Authenticate { timeout: before.limits.connect_timeout })
        } else {
            after.phase is Over && (action matches ConnectAction::Reject(error)
                && error@ == host_key_failure(
                before.host@,
                seen.fingerprint@,
                seen.algorithm@,
            ))
        },
        (ConnectPhase::Authenticating(_), ConnectEvent::AuthFailed(error)) => after.phase is Over && action == ConnectAction::Fail(error),
        (ConnectPhase::Authenticating(_), ConnectEvent::TimedOut) => after.phase is Over && fails_with(
            action,
            "AUTH_TIMEOUT"@,
            "SSH authentication timed out."@,
        ),
        (
            ConnectPhase::Authenticating(seen),
            ConnectEvent::Authenticated { auth_key_fingerprint, handle, now_unix },
        ) => after.phase is Over && (action matches ConnectAction::Done(session)
            && session@.key == key && session@.handle == handle
            && session@.auth_key_fingerprint == optional_text(auth_key_fingerprint)
            && session@.chain_ids == parent_ids(before.parent).push(before.host@.id)
            && session@.verified_host_key == (VerifiedModel {
            host_id: before.host@.id,
            alias: before.host@.alias,
            fingerprint: seen.fingerprint@,
            algorithm: seen.algorithm@,
            verified_at_unix: now_unix,
        }) && before.host@.host_fingerprint == Some(
            session@.verified_host_key.fingerprint,
        )),
        (phase, ConnectEvent::TimedOut) => after.phase is Over && fails_with(
            action,
            "CONNECT_TIMEOUT"@,
            timeout_message(phase, before.parent is Some),
        ),
        _ => false,
    }
}

impl<'a> Connecting<'a> {
    /// Beyond the handshake only the trusted key is in play.
    pub open spec fn inv(self) -> bool {
        self.phase matches ConnectPhase::Authenticating(key) ==> host_key_accepted(
            self.host@,
            key.fingerprint@,
        )
    }

    /// The first thing to do is to reach the host, directly or from the parent.
    pub fn start(
        host: &'a HostProfile,
        parent: Option<&'a PooledSession>,
        limits: OperationLimits,
    ) -> (r: (Connecting<'a>, ConnectAction))
        ensures
            r.0 == (Connecting { host, parent, limits, phase: ConnectPhase::Opening }),
            r.0.inv(),
            match (parent, r.1) {
                (Some(_), ConnectAction::OpenJumpChannel { address, port, timeout }) => address@
                    == host@.address && port == host@.port && timeout == limits.connect_timeout,
                (None, ConnectAction::OpenTcp { address, port, timeout }) => address@
                    == host@.address && port == host@.port && timeout == limits.connect_timeout,
                _ => false,
            },
    {
        let address = host.address.clone();
        let port: u16 = host.port;
        let timeout = limits.connect_timeout;
        let action = if parent.is_some() {
            ConnectAction::OpenJumpChannel { address, port, timeout }
        } else {
            ConnectAction::OpenTcp { address, port, timeout }
        };
        (Connecting { host, parent, limits, phase: ConnectPhase::Opening }, action)
    }

    /// Takes the connection one step further. The server is asked to authenticate the user only
    /// once its key was found to be the trusted one.
    pub fn step(&mut self, event: ConnectEvent, key: &SessionKey) -> (action: ConnectAction)
        requires
            old(self).inv(),
            event_fits(old(self).phase, event),
        ensures
            final(self).inv(),
            final(self).host == old(self).host,
            final(self).parent == old(self).parent,
            final(self).limits == old(self).limits,
            action is Authenticate ==> (event matches ConnectEvent::ShookHands(Some(seen))
                && host_key_accepted(old(self).host@, seen.fingerprint@)),
            steps_to(*old(self), event, key@, *final(self), action),
    {
        let mut phase = ConnectPhase::Over;
        std::mem::swap(&mut self.phase, &mut phase);
        let through_jump = self.parent.is_some();
        match event {
            ConnectEvent::Opened => {
                self.phase = ConnectPhase::Handshaking;
                ConnectAction::Handshake { timeout: self.limits.connect_timeout }
            },
            ConnectEvent::ShookHands(observed) => {
                let seen = observed.is_some();
                match check_host_key(self.host, observed) {
                    Ok(key) => {
                        self.phase = ConnectPhase::Authenticating(key);
                        ConnectAction::Authenticate { timeout: self.limits.connect_timeout }
                    },
                    Err(error) => if seen {
                        ConnectAction::Reject(error)
                    } else {
                        ConnectAction::Fail(error)
                    },
                }
            },
            ConnectEvent::KeyUnreadable => ConnectAction::Fail(
                RemoteFailure::new("HOSTKEY_MISSING", "Cannot read the SSH host key."),
            ),
            ConnectEvent::AuthFailed(error) => ConnectAction::Fail(error),
            ConnectEvent::Failed(text) => {
                let code: &'static str = match phase {
                    ConnectPhase::Opening => if through_jump {
                        "JUMP_CHANNEL_FAILED"
                    } else {
                        "CONNECT_FAILED"
                    },
                    _ => "HANDSHAKE_FAILED",
                };
                ConnectAction::Fail(RemoteFailure::new(code, text.as_str()))
            },
            ConnectEvent::TimedOut => match phase {
                ConnectPhase::Authenticating(_) => ConnectAction::Fail(
                    RemoteFailure::new("AUTH_TIMEOUT", "SSH authentication timed out."),
                ),
                ConnectPhase::Opening => ConnectAction::Fail(
                    RemoteFailure::new(
                        "CONNECT_TIMEOUT",
                        if through_jump {
                            "Opening the SSH jump-host channel timed out."
                        } else {
                            "The TCP connection timed out."
                        },
                    ),
                ),
                _ => ConnectAction::Fail(
                    RemoteFailure::new(
                        "CONNECT_TIMEOUT",
                        if through_jump {
                            "The SSH handshake through the jump host timed out."
                        } else {
                            "The SSH handshake timed out."
                        },
                    ),
                ),
            },
            ConnectEvent::Authenticated { auth_key_fingerprint, handle, now_unix } => {
                let seen = match phase {
                    ConnectPhase::Authenticating(key) => key,
                    _ => ObservedHostKey { fingerprint: String::new(), algorithm: String::new() },
                };
                let mut chain_ids = match self.parent {
                    Some(parent) => copy_ids(&parent.chain_ids),
                    None => Vec::new(),
                };
                chain_ids.push(self.host.id);
                assert(chain_ids@ =~= parent_ids(self.parent).push(self.host@.id));
                ConnectAction::Done(
                    PooledSession {
                        key: key.clone(),
                        handle,
                        verified_host_key: VerifiedHostKey {
                            host_id: self.host.id,
                            alias: self.host.alias.clone(),
                            fingerprint: seen.fingerprint,
                            algorithm: seen.algorithm,
                            verified_at_unix: now_unix,
                        },
                        auth_key_fingerprint,
                        chain_ids,
                    },
                )
            },
        }
    }
}

/// Nobody is authenticated to a server before it has shown the key that is trusted for the host.
pub proof fn authentication_follows_the_trusted_key(
    before: Connecting,
    event: ConnectEvent,
    key: Seq<HopModel>,
    after: Connecting,
    action: ConnectAction,
)
    requires
        steps_to(before, event, key, after, action),
    ensures
        action is Authenticate ==> before.phase is Handshaking && (event matches
            ConnectEvent::ShookHands(Some(seen)) && before.host.host_fingerprint is Some
            && before.host.host_fingerprint->0@ == seen.fingerprint@),
        after.phase is Authenticating ==> action is Authenticate,
        event matches ConnectEvent::ShookHands(Some(seen)) ==> before.phase is Handshaking
            && !host_key_accepted(before.host@, seen.fingerprint@) ==> action is Reject,
        action matches ConnectAction::Authenticate { timeout } ==> timeout
            == before.limits.connect_timeout,
{
}

/// A connection in which nothing fails is opened, shakes hands, authenticates and is done, in this
/// order.
pub proof fn connections_go_on_step_by_step(
    before: Connecting,
    event: ConnectEvent,
    key: Seq<HopModel>,
    after: Connecting,
    action: ConnectAction,
)
    requires
        steps_to(before, event, key, after, action),
    ensures
        before.phase is Opening && event is Opened ==> action is Handshake && after.phase
            is Handshaking,
        before.phase is Authenticating && event is Authenticated ==> action is Done,
        action is Done ==> before.phase is Authenticating && event is Authenticated,
        event is TimedOut || event is Failed || event is AuthFailed || event is KeyUnreadable
            ==> action is Fail && after.phase is Over,
{
}

/// The session that a connection ends in is that of the host: with the handle that was given, the
/// key of the chain, the host key that was seen, and the hosts on the way.
pub proof fn sessions_belong_to_their_host(
    before: Connecting,
    event: ConnectEvent,
    key: Seq<HopModel>,
    after: Connecting,
    action: ConnectAction,
    session: PooledSession,
)
    requires
        steps_to(before, event, key, after, action),
        action == ConnectAction::Done(session),
    ensures
        session.key@ == key,
        event matches ConnectEvent::Authenticated { auth_key_fingerprint, handle, now_unix } && {
            &&& session.handle == handle
            &&& optional_text(session.auth_key_fingerprint) == optional_text(auth_key_fingerprint)
            &&& session.verified_host_key.verified_at_unix == now_unix
        },
        session.verified_host_key.host_id == before.host.id,
        session.verified_host_key.alias@ == before.host.alias@,
        before.phase matches ConnectPhase::Authenticating(seen)
            && session.verified_host_key.fingerprint@ == seen.fingerprint@
            && session.verified_host_key.algorithm@ == seen.algorithm@,
        session.chain_ids@.len() > 0,
        session.chain_ids@.last() == before.host.id,
        before.parent matches Some(parent) ==> session.chain_ids@.drop_last() == parent.chain_ids@,
        before.parent is None ==> session.chain_ids@.len() == 1,
{
    assert(session@.chain_ids == parent_ids(before.parent).push(before.host@.id));
    if before.parent is Some {
        assert(session.chain_ids@.drop_last() =~= before.parent->0.chain_ids@);
    }
}

/// A failure carries the text that came with it, under the code of the step that failed.
pub proof fn failed_connections_say_where(
    before: Connecting,
    event: ConnectEvent,
    key: Seq<HopModel>,
    after: Connecting,
    action: ConnectAction,
)
    requires
        steps_to(before, event, key, after, action),
    ensures
        event matches ConnectEvent::Failed(text) ==> action->Fail_0@.message == text@,
        event is Failed && before.phase is Opening && before.parent is None
            ==> action->Fail_0@.code == "CONNECT_FAILED"@,
        event is Failed && before.phase is Opening && before.parent is Some
            ==> action->Fail_0@.code == "JUMP_CHANNEL_FAILED"@,
        event is Failed && before.phase is Handshaking ==> action->Fail_0@.code
            == "HANDSHAKE_FAILED"@,
        event is TimedOut && before.phase is Authenticating ==> action->Fail_0@.code
            == "AUTH_TIMEOUT"@,
        event is TimedOut && !(before.phase is Authenticating) ==> action->Fail_0@.code
            == "CONNECT_TIMEOUT"@,
        event matches ConnectEvent::AuthFailed(error) ==> action == ConnectAction::Fail(error),
{
}

} // verus!
