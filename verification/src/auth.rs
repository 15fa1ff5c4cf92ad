//! Authenticating a user on a connected SSH server: by password, by key file or through an agent.
use vstd::prelude::*;

use crate::failure::{failure, FailureModel, RemoteFailure};
use crate::model::{HostProfile, SshAuth};
use crate::remote::MAX_AGENT_IDENTITIES;
use crate::secret::{secret_text, Secret};
use crate::text::{same_text, trim, trimmed};

verus! {

/// Rounds of keyboard-interactive prompts that are answered.
pub const MAX_INTERACTIVE_ROUNDS: usize = 8;

/// What came of reading the stored password of a host.
pub open spec fn password_outcome(
    alias: Seq<char>,
    loaded: Result<Option<Secret>, String>,
) -> Result<Seq<char>, FailureModel> {
    match loaded {
        Ok(Some(password)) => Ok(password@),
        Ok(None) => Err(
            failure("CREDENTIAL_MISSING"@, "No password is saved for "@ + alias + "."@),
        ),
        Err(text) => Err(failure("CREDENTIAL_READ_FAILED"@, text@)),
    }
}

/// The password to log in with. `loaded` is what the credential store answered.
pub fn stored_password(host: &HostProfile, loaded: Result<Option<Secret>, String>) -> (r: Result<
    Secret,
    RemoteFailure,
>)
    ensures
        match password_outcome(host@.alias, loaded) {
            Ok(password) => r matches Ok(text) && text@ == password,
            Err(expected) => r matches Err(error) && error@ == expected,
        },
{
    match loaded {
        Ok(Some(password)) => Ok(password),
        Ok(None) => {
            let mut message = "No password is saved for ".to_owned();
            message.append(host.alias.as_str());
            message.append(".");
            Err(RemoteFailure::new("CREDENTIAL_MISSING", message.as_str()))
        },
        Err(text) => Err(RemoteFailure::new("CREDENTIAL_READ_FAILED", text.as_str())),
    }
}

/// What a password login does next.
pub enum PasswordAction {
    TryPassword,
    StartInteractive,
    /// Answer each of the prompts with the password.
    Answer { answers: Vec<Secret> },
    Accepted,
    Fail(RemoteFailure),
}

/// What came of an action of a password login.
#[derive(Debug)]
pub enum PasswordEvent {
    /// The server accepted the password, or did not, or the attempt failed.
    Tried(bool),
    /// The server asks this many prompts.
    Prompts(usize),
    InteractiveSuccess,
    InteractiveFailure,
    Failed(String),
}

/// A password login: the plain method first, then prompts of the server.
pub struct PasswordLogin {
    pub password: Secret,
    pub interactive: bool,
    pub rounds: usize,
}

/// The failure of a password login.
pub open spec fn auth_failed(message: Seq<char>) -> FailureModel {
    failure("AUTH_FAILED"@, message)
}

/// The list holds `count` copies of the text.
pub open spec fn repeats(list: Seq<Secret>, text: Seq<char>, count: int) -> bool {
    list.len() == count && forall|i: int| 0 <= i < count ==> (#[trigger] list[i])@ == text
}

/// What a step of a login with a password comes to.
pub open spec fn password_steps_to(
    before: PasswordLogin,
    event: PasswordEvent,
    after: PasswordLogin,
    action: PasswordAction,
) -> bool {
    match event {
        PasswordEvent::Tried(accepted) => after.rounds == before.rounds && if accepted {
            action is Accepted
        } else {
            action is StartInteractive
        },
        PasswordEvent::Failed(text) => action matches PasswordAction::Fail(error) && error@
            == auth_failed(text@),
        _ => if before.rounds == MAX_INTERACTIVE_ROUNDS {
            action matches PasswordAction::Fail(error) && error@ == auth_failed(
                "The server sent too many keyboard-interactive prompts."@,
            )
        } else {
            match event {
                PasswordEvent::Prompts(count) => after.rounds == before.rounds + 1
                    && (action matches PasswordAction::Answer { answers } && repeats(
                    answers@,
                    before.password@,
                    count as int,
                )),
                PasswordEvent::InteractiveSuccess => action is Accepted,
                _ => action matches PasswordAction::Fail(error) && error@ == auth_failed(
                    "The server rejected password authentication."@,
                ),
            }
        },
    }
}

impl PasswordLogin {
    pub open spec fn inv(self) -> bool {
        self.rounds <= MAX_INTERACTIVE_ROUNDS
    }

    pub fn start(password: Secret) -> (r: (PasswordLogin, PasswordAction))
        ensures
            r.0 == (PasswordLogin { password, interactive: false, rounds: 0 }),
            r.0.inv(),
            r.1 is TryPassword,
    {
        (PasswordLogin { password, interactive: false, rounds: 0 }, PasswordAction::TryPassword)
    }

    /// One step of the login. Every prompt is answered with the password, for at most
    /// `MAX_INTERACTIVE_ROUNDS` rounds.
    pub fn step(&mut self, event: PasswordEvent) -> (action: PasswordAction)
        requires
            old(self).inv(),
            event is Tried <==> !old(self).interactive,
        ensures
            final(self).inv(),
            final(self).password == old(self).password,
            final(self).interactive,
            password_steps_to(*old(self), event, *final(self), action),
    {
        self.interactive = true;
        match event {
            PasswordEvent::Tried(accepted) => if accepted {
                PasswordAction::Accepted
            } else {
                PasswordAction::StartInteractive
            },
            PasswordEvent::Failed(text) => PasswordAction::Fail(
                RemoteFailure::new("AUTH_FAILED", text.as_str()),
            ),
            other => {
                if self.rounds == MAX_INTERACTIVE_ROUNDS {
                    return PasswordAction::Fail(
                        RemoteFailure::new(
                            "AUTH_FAILED",
                            "The server sent too many keyboard-interactive prompts.",
                        ),
                    );
                }
                match other {
                    PasswordEvent::Prompts(count) => {
                        self.rounds = self.rounds + 1;
                        let mut answers: Vec<Secret> = Vec::new();
                        let mut i: usize = 0;
                        while i < count
                            invariant
                                i <= count,
                                repeats(answers@, self.password@, i as int),
                            decreases count - i,
                        {
                            answers.push(self.password.clone());
                            i = i + 1;
                        }
                        PasswordAction::Answer { answers }
                    },
                    PasswordEvent::InteractiveSuccess => PasswordAction::Accepted,
                    _ => PasswordAction::Fail(
                        RemoteFailure::new(
                            "AUTH_FAILED",
                            "The server rejected password authentication.",
                        ),
                    ),
                }
            },
        }
    }
}

/// What a login with a key file does next.
pub enum KeyAction {
    LoadPassphrase,
    LoadKey { path: String, passphrase: Option<Secret> },
    /// Take the hardware locks, then let the security key sign.
    SignWithSecurityKey,
    /// Ask which hash the server supports for RSA keys, then offer the key.
    OfferKey,
    Accepted { fingerprint: String },
    Fail(RemoteFailure),
}

/// What came of an action of a login with a key file.
pub enum KeyEvent {
    Passphrase(Option<Secret>),
    PassphraseUnreadable(String),
    KeyLoaded { fingerprint: String, security_key: bool },
    KeyUnreadable(String),
    /// The hardware locks could not be taken.
    LockFailed(RemoteFailure),
    /// The security key cannot sign at all.
    SignerInvalid(String),
    /// The attempt itself failed.
    Failed(String),
    Answered(bool),
}

#[derive(Debug)]
pub enum KeyPhase {
    Passphrase,
    Loading,
    Signing { fingerprint: String },
    Offering { fingerprint: String },
    Over,
}

/// A login with a key file or a security-key handle.
#[derive(Debug)]
pub struct KeyLogin<'a> {
    pub host: &'a HostProfile,
    pub phase: KeyPhase,
}

/// The event is one that the phase can bring.
pub open spec fn key_event_fits(phase: KeyPhase, event: KeyEvent) -> bool {
    match phase {
        KeyPhase::Passphrase => event is Passphrase || event is PassphraseUnreadable,
        KeyPhase::Loading => event is KeyLoaded || event is KeyUnreadable,
        KeyPhase::Signing { .. } => event is LockFailed || event is SignerInvalid || event is Failed
            || event is Answered,
        KeyPhase::Offering { .. } => event is Failed || event is Answered,
        KeyPhase::Over => false,
    }
}

pub open spec fn key_fails_with(action: KeyAction, code: Seq<char>, message: Seq<char>) -> bool {
    action matches KeyAction::Fail(error) && error@ == failure(code, message)
}

pub open spec fn key_unreadable(text: Seq<char>) -> Seq<char> {
    "Could not read the selected OpenSSH key or FIDO handle: "@ + text
        + ". Use the file-passphrase field only for an encrypted file; enter a hardware PIN only in the FIDO create/recover window."@
}

pub open spec fn security_key_rejected(alias: Seq<char>) -> Seq<char> {
    "The server did not accept the FIDO SSH public key for "@ + alias
        + ". Authorize the matching public key on that server, then retry."@
}

pub open spec fn key_rejected(alias: Seq<char>) -> Seq<char> {
    "The server did not accept the selected OpenSSH public key for "@ + alias
        + ". Authorize the matching public key on that server, then retry."@
}

fn three(first: &str, middle: &str, last: &str) -> (r: String)
    ensures
        r@ == first@ + middle@ + last@,
{
    let mut text = first.to_owned();
    text.append(middle);
    text.append(last);
    text
}

/// What a step of a login with a key file comes to.
pub open spec fn key_steps_to(
    before: KeyLogin,
    event: KeyEvent,
    after: KeyLogin,
    action: KeyAction,
) -> bool {
    match (before.phase, event) {
        (KeyPhase::Passphrase, KeyEvent::Passphrase(found)) => after.phase is Loading
            && (action matches KeyAction::LoadKey { path, passphrase } && path@ == trimmed(
            before.host@.private_key_path,
        ) && secret_text(passphrase) == secret_text(found)),
        (KeyPhase::Passphrase, KeyEvent::PassphraseUnreadable(text)) => key_fails_with(
            action,
            "CREDENTIAL_READ_FAILED"@,
            text@,
        ),
        (KeyPhase::Loading, KeyEvent::KeyUnreadable(text)) => key_fails_with(
            action,
            "PRIVATE_KEY_LOAD_FAILED"@,
            key_unreadable(text@),
        ),
        (KeyPhase::Loading, KeyEvent::KeyLoaded { fingerprint, security_key }) => if security_key {
            after.phase == (KeyPhase::Signing { fingerprint })
                && action is SignWithSecurityKey
        } else {
            after.phase == (KeyPhase::Offering { fingerprint })
                && action is OfferKey
        },
        (KeyPhase::Signing { .. }, KeyEvent::LockFailed(error)) => action
            == KeyAction::Fail(error),
        (KeyPhase::Signing { .. }, KeyEvent::SignerInvalid(text)) => key_fails_with(
            action,
            "FIDO_KEY_INVALID"@,
            text@,
        ),
        (KeyPhase::Signing { .. }, KeyEvent::Failed(text)) => key_fails_with(
            action,
            "FIDO_SIGNING_FAILED"@,
            text@,
        ),
        (KeyPhase::Signing { fingerprint }, KeyEvent::Answered(accepted)) => if accepted {
            action == (KeyAction::Accepted { fingerprint })
        } else {
            key_fails_with(
                action,
                "FIDO_AUTH_REJECTED"@,
                security_key_rejected(before.host@.alias),
            )
        },
        (KeyPhase::Offering { .. }, KeyEvent::Failed(text)) => key_fails_with(
            action,
            "AUTH_FAILED"@,
            text@,
        ),
        (KeyPhase::Offering { fingerprint }, KeyEvent::Answered(accepted)) => if accepted {
            action == (KeyAction::Accepted { fingerprint })
        } else {
            key_fails_with(action, "AUTH_FAILED"@, key_rejected(before.host@.alias))
        },
        _ => false,
    }
}

impl<'a> KeyLogin<'a> {
    pub fn start(host: &'a HostProfile) -> (r: (KeyLogin<'a>, KeyAction))
        ensures
            r.0 == (KeyLogin { host, phase: KeyPhase::Passphrase }),
            r.1 is LoadPassphrase,
    {
        (KeyLogin { host, phase: KeyPhase::Passphrase }, KeyAction::LoadPassphrase)
    }

    /// One step of the login. The fingerprint that is reported is that of the loaded key.
    pub fn step(&mut self, event: KeyEvent) -> (action: KeyAction)
        requires
            key_event_fits(old(self).phase, event),
        ensures
            final(self).host == old(self).host,
            key_steps_to(*old(self), event, *final(self), action),
            (action is Accepted || action is Fail) ==> final(self).phase is Over,
    {
        let mut phase = KeyPhase::Over;
        std::mem::swap(&mut self.phase, &mut phase);
        let hardware = match &phase {
            KeyPhase::Signing { .. } => true,
            _ => false,
        };
        match event {
            KeyEvent::Passphrase(passphrase) => {
                self.phase = KeyPhase::Loading;
                KeyAction::LoadKey {
                    path: trim(self.host.private_key_path.as_str()).to_owned(),
                    passphrase,
                }
            },
            KeyEvent::PassphraseUnreadable(text) => KeyAction::Fail(
                RemoteFailure::new("CREDENTIAL_READ_FAILED", text.as_str()),
            ),
            KeyEvent::KeyUnreadable(text) => {
                let message = three(
                    "Could not read the selected OpenSSH key or FIDO handle: ",
                    text.as_str(),
                    ". Use the file-passphrase field only for an encrypted file; enter a hardware PIN only in the FIDO create/recover window.",
                );
                KeyAction::Fail(RemoteFailure::new("PRIVATE_KEY_LOAD_FAILED", message.as_str()))
            },
            KeyEvent::KeyLoaded { fingerprint, security_key } => if security_key {
                self.phase = KeyPhase::Signing { fingerprint };
                KeyAction::SignWithSecurityKey
            } else {
                self.phase = KeyPhase::Offering { fingerprint };
                KeyAction::OfferKey
            },
            KeyEvent::LockFailed(error) => KeyAction::Fail(error),
            KeyEvent::SignerInvalid(text) => KeyAction::Fail(
                RemoteFailure::new("FIDO_KEY_INVALID", text.as_str()),
            ),
            KeyEvent::Failed(text) => KeyAction::Fail(
                RemoteFailure::new(
                    if hardware {
                        "FIDO_SIGNING_FAILED"
                    } else {
                        "AUTH_FAILED"
                    },
                    text.as_str(),
                ),
            ),
            KeyEvent::Answered(accepted) => {
                if !accepted {
                    let message = three(
                        if hardware {
                            "The server did not accept the FIDO SSH public key for "
                        } else {
                            "The server did not accept the selected OpenSSH public key for "
                        },
                        self.host.alias.as_str(),
                        ". Authorize the matching public key on that server, then retry.",
                    );
                    return KeyAction::Fail(
                        RemoteFailure::new(
                            if hardware {
                                "FIDO_AUTH_REJECTED"
                            } else {
                                "AUTH_FAILED"
                            },
                            message.as_str(),
                        ),
                    );
                }
                let fingerprint = match phase {
                    KeyPhase::Signing { fingerprint } => fingerprint,
                    KeyPhase::Offering { fingerprint } => fingerprint,
                    _ => String::new(),
                };
                KeyAction::Accepted { fingerprint }
            },
        }
    }
}

/// An identity that an agent offers.
#[derive(Debug, PartialEq, Eq)]
pub struct AgentIdentity {
    pub fingerprint: String,
    pub rsa: bool,
}

/// An identity to try: which one of which agent.
#[derive(Debug, Clone, Copy, PartialEq, Eq, Structural)]
pub struct Candidate {
    pub agent: usize,
    pub identity: usize,
}

/// The identities of an agent that are looked at.
pub open spec fn looked_at(identities: int) -> int {
    if identities <= MAX_AGENT_IDENTITIES {
        identities
    } else {
        MAX_AGENT_IDENTITIES as int
    }
}

/// The candidate is one that is looked at.
pub open spec fn in_view(agents: Seq<Vec<AgentIdentity>>, c: Candidate) -> bool {
    c.agent < agents.len() && c.identity < looked_at(agents[c.agent as int]@.len() as int)
}

pub open spec fn fingerprint_of(agents: Seq<Vec<AgentIdentity>>, c: Candidate) -> Seq<char> {
    agents[c.agent as int]@[c.identity as int].fingerprint@
}

/// `a` comes before `b`: an earlier agent, or an earlier identity of the same agent.
pub open spec fn comes_before(a: Candidate, b: Candidate) -> bool {
    a.agent < b.agent || (a.agent == b.agent && a.identity < b.identity)
}

/// The identity is tried: it is the one that was asked for, if one was, and no earlier identity
/// has the same fingerprint.
pub open spec fn is_tried(
    agents: Seq<Vec<AgentIdentity>>,
    requested: Seq<char>,
    c: Candidate,
) -> bool {
    &&& in_view(agents, c)
    &&& requested.len() > 0 ==> fingerprint_of(agents, c) == requested
    &&& forall|d: Candidate|
        in_view(agents, d) && #[trigger] comes_before(d, c) ==> fingerprint_of(agents, d)
            != fingerprint_of(agents, c)
}

/// The plan lists exactly the identities that are tried, in their order.
pub open spec fn is_plan(
    agents: Seq<Vec<AgentIdentity>>,
    requested: Seq<char>,
    plan: Seq<Candidate>,
) -> bool {
    &&& forall|i: int| 0 <= i < plan.len() ==> is_tried(agents, requested, #[trigger] plan[i])
    &&& forall|i: int, j: int|
        0 <= i < j < plan.len() ==> comes_before(#[trigger] plan[i], #[trigger] plan[j])
    &&& forall|c: Candidate| #[trigger] is_tried(agents, requested, c) ==> plan.contains(c)
}

/// No agent offers anything.
pub open spec fn no_identities(agents: Seq<Vec<AgentIdentity>>) -> bool {
    forall|i: int| 0 <= i < agents.len() ==> (#[trigger] agents[i])@.len() == 0
}

pub open spec fn no_agent_keys() -> FailureModel {
    failure(
        "SSH_AGENT_NO_KEYS"@,
        "Neither the running Windows OpenSSH Agent nor Pageant provided an identity."@,
    )
}

fn seen_before(agents: &Vec<Vec<AgentIdentity>>, agent: usize, identity: usize) -> (r: bool)
    requires
        in_view(agents@, (Candidate { agent, identity })),
    ensures
        r == exists|d: Candidate|
            in_view(agents@, d) && #[trigger] comes_before(d, (Candidate { agent, identity }))
                && fingerprint_of(agents@, d) == fingerprint_of(
                agents@,
                (Candidate { agent, identity }),
            ),
{
    let ghost here = Candidate { agent, identity };
    let mut a: usize = 0;
    while a <= agent
        invariant
            a <= agent + 1,
            in_view(agents@, here),
            here == (Candidate { agent, identity }),
            forall|d: Candidate|
                in_view(agents@, d) && #[trigger] comes_before(d, here) && d.agent < a
                    ==> fingerprint_of(agents@, d) != fingerprint_of(agents@, here),
        decreases agent + 1 - a,
    {
        let mut i: usize = 0;
        let bound: usize = if a == agent {
            identity
        } else if agents[a].len() <= MAX_AGENT_IDENTITIES {
            agents[a].len()
        } else {
            MAX_AGENT_IDENTITIES
        };
        while i < bound
            invariant
                a <= agent,
                in_view(agents@, here),
                here == (Candidate { agent, identity }),
                i <= bound,
                bound <= looked_at(agents@[a as int]@.len() as int),
                forall|d: Candidate|
                    in_view(agents@, d) && #[trigger] comes_before(d, here) ==> (d.agent < a || (
                    d.agent == a && d.identity < i) ==> fingerprint_of(agents@, d)
                        != fingerprint_of(agents@, here)),
                a == agent ==> bound == identity,
            decreases bound - i,
        {
            if same_text(
                agents[a][i].fingerprint.as_str(),
                agents[agent][identity].fingerprint.as_str(),
            ) {
                assert(comes_before(Candidate { agent: a, identity: i }, here));
                return true;
            }
            i = i + 1;
        }
        if a == agent {
            return false;
        }
        a = a + 1;
    }
    false
}

/// The identities to try, in order.
pub fn agent_plan(host: &HostProfile, agents: &Vec<Vec<AgentIdentity>>) -> (r: Result<
    Vec<Candidate>,
    RemoteFailure,
>)
    ensures
        if no_identities(agents@) {
            r matches Err(error) && error@ == no_agent_keys()
        } else {
            r matches Ok(plan) && is_plan(
                agents@,
                trimmed(host@.agent_key_fingerprint),
                plan@,
            )
        },
{
    let requested = trim(host.agent_key_fingerprint.as_str());
    let ghost wanted = requested@;
    let mut plan: Vec<Candidate> = Vec::new();
    let mut some = false;
    let mut a: usize = 0;
    while a < agents.len()
        invariant
            a <= agents@.len(),
            requested@ == wanted,
            some == !(forall|i: int| 0 <= i < a ==> (#[trigger] agents@[i])@.len() == 0),
            forall|k: int|
                0 <= k < plan@.len() ==> is_tried(agents@, wanted, #[trigger] plan@[k])
                    && plan@[k].agent < a,
            forall|i: int, j: int|
                0 <= i < j < plan@.len() ==> comes_before(#[trigger] plan@[i], #[trigger] plan@[j]),
            forall|c: Candidate|
                #[trigger] is_tried(agents@, wanted, c) && c.agent < a ==> plan@.contains(c),
        decreases agents@.len() - a,
    {
        if agents[a].len() > 0 {
            assert(agents@[a as int]@.len() != 0);
            some = true;
        }
        let bound: usize = if agents[a].len() <= MAX_AGENT_IDENTITIES {
            agents[a].len()
        } else {
            MAX_AGENT_IDENTITIES
        };
        let mut i: usize = 0;
        while i < bound
            invariant
                a < agents@.len(),
                i <= bound,
                bound == looked_at(agents@[a as int]@.len() as int),
                requested@ == wanted,
                forall|k: int|
                    0 <= k < plan@.len() ==> is_tried(agents@, wanted, #[trigger] plan@[k]) && (
                    plan@[k].agent < a || (plan@[k].agent == a && plan@[k].identity < i)),
                forall|i: int, j: int|
                    0 <= i < j < plan@.len() ==> comes_before(
                        #[trigger] plan@[i],
                        #[trigger] plan@[j],
                    ),
                forall|c: Candidate|
                    #[trigger] is_tried(agents@, wanted, c) && (c.agent < a || (c.agent == a
                        && c.identity < i)) ==> plan@.contains(c),
            decreases bound - i,
        {
            let here = Candidate { agent: a, identity: i };
            let repeated = seen_before(agents, a, i);
            let wrong = !requested.is_empty() && !same_text(
                requested,
                agents[a][i].fingerprint.as_str(),
            );
            assert(is_tried(agents@, wanted, here) == (!repeated && !wrong));
            let ghost before = plan@;
            if !repeated && !wrong {
                plan.push(here);
                assert(plan@[before.len() as int] == here);
            }
            assert forall|c: Candidate|
                #[trigger] is_tried(agents@, wanted, c) && (c.agent < a || (c.agent == a
                    && c.identity < i + 1)) implies plan@.contains(c) by {
                if c.agent < a || c.identity < i {
                    let k = choose|k: int| 0 <= k < before.len() && before[k] == c;
                    assert(plan@[k] == c);
                } else {
                    assert(c == here);
                }
            }
            i = i + 1;
        }
        a = a + 1;
    }
    if !some {
        return Err(
            RemoteFailure::new(
                "SSH_AGENT_NO_KEYS",
                "Neither the running Windows OpenSSH Agent nor Pageant provided an identity.",
            ),
        );
    }
    Ok(plan)
}

/// The failure once every identity of the plan was refused.
pub fn agent_refused(host: &HostProfile, tried: usize) -> (r: RemoteFailure)
    ensures
        r@ == if trimmed(host@.agent_key_fingerprint).len() > 0 && tried == 0 {
            failure(
                "SSH_AGENT_KEY_NOT_FOUND"@,
                "The selected SSH Agent/Pageant identity is not currently exposed for "@
                    + host@.alias + "."@,
            )
        } else {
            failure(
                "SSH_AGENT_AUTH_REJECTED"@,
                "The server did not accept any identity exposed by SSH Agent/Pageant for "@
                    + host@.alias + "."@,
            )
        },
{
    let requested = trim(host.agent_key_fingerprint.as_str());
    if !requested.is_empty() && tried == 0 {
        let message = three(
            "The selected SSH Agent/Pageant identity is not currently exposed for ",
            host.alias.as_str(),
            ".",
        );
        RemoteFailure::new("SSH_AGENT_KEY_NOT_FOUND", message.as_str())
    } else {
        let message = three(
            "The server did not accept any identity exposed by SSH Agent/Pageant for ",
            host.alias.as_str(),
            ".",
        );
        RemoteFailure::new("SSH_AGENT_AUTH_REJECTED", message.as_str())
    }
}

/// What a login through agents does next.
#[derive(Debug)]
pub enum AgentAction {
    /// Offer the identity; for an RSA key the server's hash is asked for first.
    Offer { candidate: Candidate, rsa: bool },
    Accepted { fingerprint: String },
    Fail(RemoteFailure),
}

/// What came of offering an identity.
#[derive(Debug)]
pub enum AgentEvent {
    HashUnknown(String),
    SigningRejected(String),
    Answered(bool),
}

/// A login through the identities that agents offer.
#[derive(Debug)]
pub struct AgentLogin<'a> {
    pub host: &'a HostProfile,
    pub agents: &'a Vec<Vec<AgentIdentity>>,
    pub plan: Vec<Candidate>,
    pub next: usize,
}

impl<'a> AgentLogin<'a> {
    /// The plan is the right one, and the identities before `next` were offered.
    pub open spec fn inv(self) -> bool {
        &&& is_plan(self.agents@, trimmed(self.host@.agent_key_fingerprint), self.plan@)
        &&& self.next <= self.plan@.len()
    }

    /// The action offers the next identity, or gives up when there is none.
    pub open spec fn offers_next(before: Self, after: Self, action: AgentAction) -> bool {
        if before.next < before.plan@.len() {
            &&& after.next == before.next + 1
            &&& action matches AgentAction::Offer { candidate, rsa }
            &&& candidate == before.plan@[before.next as int]
            &&& rsa
                == before.agents@[candidate.agent as int]@[candidate.identity as int].rsa
        } else {
            &&& after.next == before.next
            &&& action matches AgentAction::Fail(error)
            &&& error@ == if trimmed(before.host@.agent_key_fingerprint).len() > 0
                && before.plan@.len() == 0 {
                failure(
                    "SSH_AGENT_KEY_NOT_FOUND"@,
                    "The selected SSH Agent/Pageant identity is not currently exposed for "@
                        + before.host@.alias + "."@,
                )
            } else {
                failure(
                    "SSH_AGENT_AUTH_REJECTED"@,
                    "The server did not accept any identity exposed by SSH Agent/Pageant for "@
                        + before.host@.alias + "."@,
                )
            }
        }
    }

    fn advance(&mut self) -> (action: AgentAction)
        requires
            old(self).inv(),
        ensures
            final(self).inv(),
            final(self).host == old(self).host,
            final(self).agents == old(self).agents,
            final(self).plan == old(self).plan,
            Self::offers_next(*old(self), *final(self), action),
    {
        if self.next < self.plan.len() {
            let candidate = self.plan[self.next];
            assert(is_tried(
                self.agents@,
                trimmed(self.host@.agent_key_fingerprint),
                self.plan@[self.next as int],
            ));
            let rsa = self.agents[candidate.agent][candidate.identity].rsa;
            self.next = self.next + 1;
            AgentAction::Offer { candidate, rsa }
        } else {
            AgentAction::Fail(agent_refused(self.host, self.plan.len()))
        }
    }

    pub fn start(host: &'a HostProfile, agents: &'a Vec<Vec<AgentIdentity>>) -> (r: Result<
        (AgentLogin<'a>, AgentAction),
        RemoteFailure,
    >)
        ensures
            match r {
                Ok((login, action)) => {
                    &&& !no_identities(agents@)
                    &&& login.inv()
                    &&& login.host == host
                    &&& login.agents == agents
                    &&& exists|before: Self| before.next == 0 && before.host == host
                        && before.agents == agents && before.plan == login.plan
                        && #[trigger] Self::offers_next(before, login, action)
                },
                Err(error) => no_identities(agents@) && error@ == no_agent_keys(),
            },
    {
        let plan = match agent_plan(host, agents) {
            Ok(plan) => plan,
            Err(error) => {
                return Err(error);
            },
        };
        let mut login = AgentLogin { host, agents, plan, next: 0 };
        let ghost before = login;
        let action = login.advance();
        assert(Self::offers_next(before, login, action));
        Ok((login, action))
    }

    /// One step: an identity was offered, and the server answered or the attempt broke off.
    pub fn step(&mut self, event: AgentEvent) -> (action: AgentAction)
        requires
            old(self).inv(),
            old(self).next > 0,
        ensures
            final(self).inv(),
            final(self).host == old(self).host,
            final(self).agents == old(self).agents,
            final(self).plan == old(self).plan,
            match event {
                AgentEvent::HashUnknown(text) => action matches AgentAction::Fail(error) && error@
                    == failure("SSH_AGENT_AUTH_FAILED"@, text@),
                AgentEvent::SigningRejected(text) => action matches AgentAction::Fail(error)
                    && error@ == failure("SSH_AGENT_SIGNING_REJECTED"@, text@),
                AgentEvent::Answered(accepted) => if accepted {
                    action matches AgentAction::Accepted { fingerprint } && fingerprint@
                        == fingerprint_of(
                        old(self).agents@,
                        old(self).plan@[old(self).next - 1],
                    )
                } else {
                    Self::offers_next(*old(self), *final(self), action)
                },
            },
    {
        match event {
            AgentEvent::HashUnknown(text) => AgentAction::Fail(
                RemoteFailure::new("SSH_AGENT_AUTH_FAILED", text.as_str()),
            ),
            AgentEvent::SigningRejected(text) => AgentAction::Fail(
                RemoteFailure::new("SSH_AGENT_SIGNING_REJECTED", text.as_str()),
            ),
            AgentEvent::Answered(accepted) => {
                if accepted {
                    let offered = self.plan[self.next - 1];
                    assert(is_tried(
                        self.agents@,
                        trimmed(self.host@.agent_key_fingerprint),
                        self.plan@[self.next - 1],
                    ));
                    let fingerprint =
                        self.agents[offered.agent][offered.identity].fingerprint.clone();
                    AgentAction::Accepted { fingerprint }
                } else {
                    self.advance()
                }
            },
        }
    }
}

/// How a host authenticates.
#[derive(Debug, Clone, Copy, PartialEq, Eq, Structural)]
pub enum AuthRoute {
    Password,
    KeyFile,
    /// Agent identities may be backed by a hardware key, so the hardware locks are taken.
    Agent,
}

/// The way to authenticate that the profile asks for.
pub fn auth_route(host: &HostProfile) -> (r: AuthRoute)
    ensures
        r == match host@.ssh_auth {
            SshAuth::Password => AuthRoute::Password,
            SshAuth::PrivateKey => AuthRoute::KeyFile,
            SshAuth::SshAgent => AuthRoute::Agent,
        },
{
    match host.ssh_auth {
        SshAuth::Password => AuthRoute::Password,
        SshAuth::PrivateKey => AuthRoute::KeyFile,
        SshAuth::SshAgent => AuthRoute::Agent,
    }
}

/// An agent login that asks for one identity offers no other.
pub proof fn only_the_requested_identity_is_offered(
    agents: Seq<Vec<AgentIdentity>>,
    requested: Seq<char>,
    plan: Seq<Candidate>,
    i: int,
)
    requires
        is_plan(agents, requested, plan),
        requested.len() > 0,
        0 <= i < plan.len(),
    ensures
        fingerprint_of(agents, plan[i]) == requested,
        plan.len() == 1,
{
    assert(is_tried(agents, requested, plan[i]));
    if plan.len() > 1 {
        assert(is_tried(agents, requested, plan[0]));
        assert(is_tried(agents, requested, plan[1]));
        assert(comes_before(plan[0], plan[1]));
    }
}

/// A stored password is used as it is; without one, or where it cannot be read, the login fails
/// and says which.
pub proof fn stored_passwords_are_used(alias: Seq<char>, loaded: Result<Option<Secret>, String>)
    ensures
        password_outcome(alias, loaded) is Ok <==> loaded is Ok && loaded->Ok_0 is Some,
        loaded is Ok && loaded->Ok_0 is Some ==> password_outcome(alias, loaded) == Ok::<
            Seq<char>,
            FailureModel,
        >(loaded->Ok_0->0@),
        loaded is Ok && loaded->Ok_0 is None ==> password_outcome(alias, loaded)->Err_0.code
            == "CREDENTIAL_MISSING"@,
        loaded is Err ==> password_outcome(alias, loaded)->Err_0.code == "CREDENTIAL_READ_FAILED"@
            && password_outcome(alias, loaded)->Err_0.message == loaded->Err_0@,
{
}

/// Every prompt is answered, each with the password.
pub proof fn every_prompt_is_answered(answers: Seq<Secret>, password: Seq<char>, prompts: int)
    requires
        repeats(answers, password, prompts),
    ensures
        answers.len() == prompts,
        forall|i: int| 0 <= i < answers.len() ==> (#[trigger] answers[i])@ == password,
{
}

proof fn lemma_some_offer(
    agents: Seq<Vec<AgentIdentity>>,
    requested: Seq<char>,
    plan: Seq<Candidate>,
    c: Candidate,
) -> (i: int)
    requires
        is_plan(agents, requested, plan),
        c.agent < agents.len(),
        c.identity < agents[c.agent as int]@.len(),
        c.identity < 32,
        requested.len() > 0 ==> agents[c.agent as int]@[c.identity as int].fingerprint@ == requested,
    ensures
        0 <= i < plan.len(),
        agents[plan[i].agent as int]@[plan[i].identity as int].fingerprint@
            == agents[c.agent as int]@[c.identity as int].fingerprint@,
    decreases c.agent, c.identity,
{
    assert(in_view(agents, c));
    if is_tried(agents, requested, c) {
        choose|i: int| 0 <= i < plan.len() && plan[i] == c
    } else {
        let d = choose|d: Candidate|
            in_view(agents, d) && #[trigger] comes_before(d, c) && fingerprint_of(agents, d)
                == fingerprint_of(agents, c);
        lemma_some_offer(agents, requested, plan, d)
    }
}

/// Every identity that an agent offers, of its first thirty-two, is tried, once for each key: where
/// one is asked for, that one.
pub proof fn every_identity_is_offered(
    agents: Seq<Vec<AgentIdentity>>,
    requested: Seq<char>,
    plan: Seq<Candidate>,
    c: Candidate,
)
    requires
        is_plan(agents, requested, plan),
        c.agent < agents.len(),
        c.identity < agents[c.agent as int]@.len(),
        c.identity < 32,
        requested.len() > 0 ==> agents[c.agent as int]@[c.identity as int].fingerprint@ == requested,
    ensures
        exists|i: int|
            0 <= i < plan.len() && #[trigger] agents[plan[i].agent as int]@[plan[i].identity as int].fingerprint@
                == agents[c.agent as int]@[c.identity as int].fingerprint@,
        forall|i: int, j: int|
            0 <= i < j < plan.len() ==> fingerprint_of(agents, #[trigger] plan[i])
                != fingerprint_of(agents, #[trigger] plan[j]),
{
    let i = lemma_some_offer(agents, requested, plan, c);
    assert(agents[plan[i].agent as int]@[plan[i].identity as int].fingerprint@
        == agents[c.agent as int]@[c.identity as int].fingerprint@);
    assert forall|i: int, j: int| 0 <= i < j < plan.len() implies fingerprint_of(
        agents,
        #[trigger] plan[i],
    ) != fingerprint_of(agents, #[trigger] plan[j]) by {
        assert(is_tried(agents, requested, plan[i]));
        assert(is_tried(agents, requested, plan[j]));
        assert(comes_before(plan[i], plan[j]));
    }
}

/// Identities are tried agent by agent, in the order in which an agent offers them.
pub proof fn identities_are_offered_in_order(
    agents: Seq<Vec<AgentIdentity>>,
    requested: Seq<char>,
    plan: Seq<Candidate>,
    i: int,
    j: int,
)
    requires
        is_plan(agents, requested, plan),
        0 <= i < j < plan.len(),
    ensures
        plan[i].agent < plan[j].agent || (plan[i].agent == plan[j].agent && plan[i].identity
            < plan[j].identity),
        plan[i].agent < agents.len(),
        plan[i].identity < agents[plan[i].agent as int]@.len(),
        plan[i].identity < 32,
{
    assert(is_tried(agents, requested, plan[i]));
    assert(comes_before(plan[i], plan[j]));
}

/// Every prompt of the server is answered with the password and nothing else, for eight rounds at
/// most; a login counts as accepted only where the server said so.
pub proof fn passwords_answer_their_prompts(
    before: PasswordLogin,
    event: PasswordEvent,
    after: PasswordLogin,
    action: PasswordAction,
)
    requires
        password_steps_to(before, event, after, action),
    ensures
        action is Accepted ==> event == PasswordEvent::Tried(true) || event is InteractiveSuccess,
        event == PasswordEvent::Tried(true) ==> action is Accepted,
        event == PasswordEvent::Tried(false) ==> action is StartInteractive,
        event is InteractiveSuccess && before.rounds < 8 ==> action is Accepted,
        event matches PasswordEvent::Prompts(count) ==> before.rounds < 8 ==> {
            &&& action matches PasswordAction::Answer { answers }
            &&& answers@.len() == count
            &&& forall|i: int| 0 <= i < answers@.len() ==> (#[trigger] answers@[i])@
                == before.password@
        },
        event is Prompts && before.rounds == 8 ==> action is Fail,
        event matches PasswordEvent::Failed(text) ==> action is Fail
            && action->Fail_0@.message == text@ && action->Fail_0@.code == "AUTH_FAILED"@,
{
}

/// A login with a key loads the file of the host with the passphrase that was found, signs with the
/// hardware where the key is one of it, and counts as accepted only where the server said so, under
/// the fingerprint of the key that was loaded.
pub proof fn keys_are_offered_as_loaded(
    before: KeyLogin,
    event: KeyEvent,
    after: KeyLogin,
    action: KeyAction,
)
    requires
        key_steps_to(before, event, after, action),
    ensures
        event matches KeyEvent::Passphrase(found) ==> {
            &&& action matches KeyAction::LoadKey { path, passphrase }
            &&& path@ == trimmed(before.host.private_key_path@)
            &&& secret_text(passphrase) == secret_text(found)
            &&& after.phase is Loading
        },
        event matches KeyEvent::KeyLoaded { fingerprint, security_key } ==> {
            &&& security_key ==> action is SignWithSecurityKey && after.phase
                == (KeyPhase::Signing { fingerprint })
            &&& !security_key ==> action is OfferKey && after.phase == (KeyPhase::Offering {
                fingerprint,
            })
        },
        action matches KeyAction::Accepted { fingerprint } ==> {
            &&& event == KeyEvent::Answered(true)
            &&& before.phase == (KeyPhase::Signing { fingerprint }) || before.phase
                == (KeyPhase::Offering { fingerprint })
        },
        event == KeyEvent::Answered(true) ==> action is Accepted,
        event == KeyEvent::Answered(false) ==> action is Fail,
        event is Failed || event is PassphraseUnreadable || event is KeyUnreadable || event
            is LockFailed || event is SignerInvalid ==> action is Fail,
{
}

/// Failures of a login with a key carry the code of what failed.
pub proof fn failed_keys_say_why(
    before: KeyLogin,
    event: KeyEvent,
    after: KeyLogin,
    action: KeyAction,
)
    requires
        key_steps_to(before, event, after, action),
    ensures
        event matches KeyEvent::PassphraseUnreadable(text) ==> action->Fail_0@.code
            == "CREDENTIAL_READ_FAILED"@ && action->Fail_0@.message == text@,
        event is KeyUnreadable ==> action->Fail_0@.code == "PRIVATE_KEY_LOAD_FAILED"@,
        event is SignerInvalid ==> action->Fail_0@.code == "FIDO_KEY_INVALID"@,
        event is Failed && before.phase is Signing ==> action->Fail_0@.code
            == "FIDO_SIGNING_FAILED"@,
        event is Failed && before.phase is Offering ==> action->Fail_0@.code == "AUTH_FAILED"@,
        event == KeyEvent::Answered(false) && before.phase is Signing ==> action->Fail_0@.code
            == "FIDO_AUTH_REJECTED"@,
        event == KeyEvent::Answered(false) && before.phase is Offering ==> action->Fail_0@.code
            == "AUTH_FAILED"@,
        event matches KeyEvent::LockFailed(error) ==> action == KeyAction::Fail(error),
{
}

/// The identities of the plan are offered one after the other, and the login fails once none is
/// left.
pub proof fn the_next_identity_is_offered(
    before: AgentLogin,
    after: AgentLogin,
    action: AgentAction,
)
    requires
        AgentLogin::offers_next(before, after, action),
    ensures
        before.next < before.plan@.len() ==> {
            &&& action matches AgentAction::Offer { candidate, rsa }
            &&& candidate == before.plan@[before.next as int]
            &&& rsa == before.agents@[candidate.agent as int]@[candidate.identity as int].rsa
            &&& after.next == before.next + 1
        },
        before.next >= before.plan@.len() ==> action is Fail,
        before.next >= before.plan@.len() && before.plan@.len() > 0 ==> action->Fail_0@.code
            == "SSH_AGENT_AUTH_REJECTED"@,
{
}

} // verus!
