//! What is known of host keys: keys that were confirmed by a connection, and keys that the user
//! chooses to trust.
use vstd::prelude::*;

use crate::model::{find_id, host_with_id, index_of_id, models, HostProfile, ProfileModel};
use crate::remote::{verified_models, VerifiedHostKey, VerifiedModel};
use crate::text::{copy_optional, optional_text, same_text};

verus! {

/// The later of two moments; none is the beginning of time.
pub open spec fn later(known: Option<u64>, seen: u64) -> u64 {
    match known {
        Some(at) => if at > seen {
            at
        } else {
            seen
        },
        None => seen,
    }
}

/// The host once its key was confirmed.
pub open spec fn confirmed(host: ProfileModel, key: VerifiedModel) -> ProfileModel {
    ProfileModel {
        verified: true,
        host_key_algorithm: Some(key.algorithm),
        host_key_first_seen_unix: match host.host_key_first_seen_unix {
            Some(at) => Some(at),
            None => Some(key.verified_at_unix),
        },
        host_key_last_verified_unix: Some(
            later(host.host_key_last_verified_unix, key.verified_at_unix),
        ),
        ..host
    }
}

/// The key is the trusted key of this host.
pub open spec fn confirms(host: ProfileModel, key: VerifiedModel) -> bool {
    host.id == key.host_id && host.host_fingerprint == Some(key.fingerprint)
}

fn trusts(host: &HostProfile, fingerprint: &str) -> (r: bool)
    ensures
        r == (host@.host_fingerprint == Some(fingerprint@)),
{
    match &host.host_fingerprint {
        Some(text) => same_text(text.as_str(), fingerprint),
        None => false,
    }
}

/// Notes in the host that its key was confirmed.
fn confirm(host: &mut HostProfile, key: &VerifiedHostKey)
    ensures
        final(host)@ == confirmed(old(host)@, key@),
{
    host.verified = true;
    host.host_key_algorithm = Some(key.algorithm.clone());
    if host.host_key_first_seen_unix.is_none() {
        host.host_key_first_seen_unix = Some(key.verified_at_unix);
    }
    host.host_key_last_verified_unix = Some(
        match host.host_key_last_verified_unix {
            Some(at) => if at > key.verified_at_unix {
                at
            } else {
                key.verified_at_unix
            },
            None => key.verified_at_unix,
        },
    );
}

/// Notes that a key was confirmed, if it is the trusted key of this host. Whether anything
/// changed is returned.
pub fn apply_verified_host_key(host: &mut HostProfile, verified: &VerifiedHostKey) -> (r: bool)
    ensures
        final(host)@ == if confirms(old(host)@, verified@) {
            confirmed(old(host)@, verified@)
        } else {
            old(host)@
        },
        r == (final(host)@ != old(host)@),
{
    if host.id != verified.host_id || !trusts(host, verified.fingerprint.as_str()) {
        return false;
    }
    let known = match &host.host_key_algorithm {
        Some(text) => same_text(text.as_str(), verified.algorithm.as_str()),
        None => false,
    };
    let seen = host.host_key_first_seen_unix.is_some();
    let recent = match host.host_key_last_verified_unix {
        Some(at) => at >= verified.verified_at_unix,
        None => false,
    };
    let changed = !host.verified || !known || !seen || !recent;
    confirm(host, verified);
    proof {
        let before = old(host)@;
        let after = host@;
        if !changed {
            assert(after =~= before);
        } else if !before.verified {
            assert(after.verified != before.verified);
        } else if !known {
            assert(after.host_key_algorithm != before.host_key_algorithm);
        } else if !seen {
            assert(after.host_key_first_seen_unix != before.host_key_first_seen_unix);
        } else {
            assert(after.host_key_last_verified_unix != before.host_key_last_verified_unix);
        }
    }
    changed
}

/// Confirming a key again, or an earlier confirmation, changes nothing.
pub proof fn confirming_is_idempotent(host: ProfileModel, key: VerifiedModel, earlier: u64)
    requires
        confirms(host, key),
        earlier <= key.verified_at_unix,
    ensures
        confirms(confirmed(host, key), key),
        confirmed(confirmed(host, key), VerifiedModel { verified_at_unix: earlier, ..key })
            == confirmed(host, key),
{
}

/// Nothing that a connection reports changes which key a host trusts, or how it is reached.
pub proof fn confirming_keeps_the_trusted_key(host: ProfileModel, key: VerifiedModel)
    ensures
        confirmed(host, key).host_fingerprint == host.host_fingerprint,
        confirmed(host, key).same_connection(host),
        confirmed(host, key).id == host.id,
{
}

/// The key may be noted for the current host: it is still reached as it was when the call began,
/// and still trusts this key.
pub open spec fn mergeable(current: ProfileModel, old: ProfileModel, key: VerifiedModel) -> bool {
    current.same_connection(old) && current.host_fingerprint == Some(key.fingerprint)
}

/// The hosts once one confirmed key is noted. Hosts that were removed or edited meanwhile are
/// left alone.
pub open spec fn merged_one(
    fresh: Seq<ProfileModel>,
    snapshot: Seq<ProfileModel>,
    key: VerifiedModel,
) -> Seq<ProfileModel> {
    let at = index_of_id(fresh, key.host_id);
    if merges(fresh, snapshot, key) {
        fresh.update(at, confirmed(fresh[at], key))
    } else {
        fresh
    }
}

/// One confirmed key is noted.
pub open spec fn merges(
    fresh: Seq<ProfileModel>,
    snapshot: Seq<ProfileModel>,
    key: VerifiedModel,
) -> bool {
    match (host_with_id(snapshot, key.host_id), host_with_id(fresh, key.host_id)) {
        (Some(old), Some(current)) => mergeable(current, old, key),
        _ => false,
    }
}

/// The hosts once all confirmed keys are noted, in their order.
pub open spec fn merged(
    fresh: Seq<ProfileModel>,
    snapshot: Seq<ProfileModel>,
    keys: Seq<VerifiedModel>,
) -> Seq<ProfileModel>
    decreases keys.len(),
{
    if keys.len() == 0 {
        fresh
    } else {
        merged_one(merged(fresh, snapshot, keys.drop_last()), snapshot, keys.last())
    }
}

/// Some confirmed key is noted.
pub open spec fn any_merges(
    fresh: Seq<ProfileModel>,
    snapshot: Seq<ProfileModel>,
    keys: Seq<VerifiedModel>,
) -> bool
    decreases keys.len(),
{
    if keys.len() == 0 {
        false
    } else {
        any_merges(fresh, snapshot, keys.drop_last()) || merges(
            merged(fresh, snapshot, keys.drop_last()),
            snapshot,
            keys.last(),
        )
    }
}

pub(crate) proof fn lemma_index_bounds(hosts: Seq<ProfileModel>, id: crate::id::Id)
    ensures
        0 <= index_of_id(hosts, id) <= hosts.len(),
    decreases hosts.len(),
{
    if hosts.len() > 0 && hosts[0].id != id {
        lemma_index_bounds(hosts.skip(1), id);
    }
}

/// Notes the keys that a call confirmed in the hosts as they are stored by now; `snapshot` are
/// the hosts as they were when the call began. Whether anything has to be saved is returned.
pub fn merge_verified_host_keys(
    snapshot: &[HostProfile],
    fresh: &mut Vec<HostProfile>,
    verified_host_keys: &Vec<VerifiedHostKey>,
) -> (r: bool)
    ensures
        models(final(fresh)@) == merged(
            models(old(fresh)@),
            models(snapshot@),
            verified_models(verified_host_keys@),
        ),
        r == any_merges(
            models(old(fresh)@),
            models(snapshot@),
            verified_models(verified_host_keys@),
        ),
{
    let ghost start = models(fresh@);
    let ghost known = models(snapshot@);
    let ghost keys = verified_models(verified_host_keys@);
    let mut changed = false;
    let mut i: usize = 0;
    while i < verified_host_keys.len()
        invariant
            i <= verified_host_keys@.len(),
            known == models(snapshot@),
            keys == verified_models(verified_host_keys@),
            models(fresh@) == merged(start, known, keys.take(i as int)),
            changed == any_merges(start, known, keys.take(i as int)),
        decreases verified_host_keys@.len() - i,
    {
        let key = &verified_host_keys[i];
        let ghost now = models(fresh@);
        proof {
            assert(keys.take(i + 1).drop_last() =~= keys.take(i as int));
            assert(keys.take(i + 1).last() == key@);
            lemma_index_bounds(known, key@.host_id);
            lemma_index_bounds(now, key@.host_id);
        }
        match (find_id(snapshot, key.host_id), find_id(fresh.as_slice(), key.host_id)) {
            (Some(old_at), Some(at)) => {
                if fresh[at].connection_details_equal(&snapshot[old_at]) && trusts(
                    &fresh[at],
                    key.fingerprint.as_str(),
                ) {
                    confirm(&mut fresh[at], key);
                    changed = true;
                    assert(models(fresh@) =~= now.update(at as int, confirmed(now[at as int], key@)));
                }
            },
            _ => {},
        }
        i = i + 1;
    }
    assert(keys.take(i as int) =~= keys);
    changed
}

/// Noting confirmed keys keeps every host, its identity, its connection and the key it trusts.
pub proof fn merging_keeps_hosts(
    fresh: Seq<ProfileModel>,
    snapshot: Seq<ProfileModel>,
    keys: Seq<VerifiedModel>,
    i: int,
)
    requires
        0 <= i < fresh.len(),
    ensures
        merged(fresh, snapshot, keys).len() == fresh.len(),
        merged(fresh, snapshot, keys)[i].id == fresh[i].id,
        merged(fresh, snapshot, keys)[i].alias == fresh[i].alias,
        merged(fresh, snapshot, keys)[i].host_fingerprint == fresh[i].host_fingerprint,
        merged(fresh, snapshot, keys)[i].same_connection(fresh[i]),
    decreases keys.len(),
{
    if keys.len() > 0 {
        merging_keeps_hosts(fresh, snapshot, keys.drop_last(), i);
        let before = merged(fresh, snapshot, keys.drop_last());
        lemma_index_bounds(before, keys.last().host_id);
    }
}

/// The host once the user trusts a key that was seen. Everything that was known of the previous
/// key is forgotten, and the host has to be tested again.
pub open spec fn trusting(
    host: ProfileModel,
    fingerprint: Seq<char>,
    algorithm: Option<Seq<char>>,
) -> ProfileModel {
    ProfileModel {
        host_fingerprint: Some(fingerprint),
        host_key_algorithm: algorithm,
        host_key_first_seen_unix: None,
        host_key_last_verified_unix: None,
        verified: false,
        ..host
    }
}

pub fn trust_host_key(host: &mut HostProfile, fingerprint: &str, algorithm: &Option<String>)
    ensures
        final(host)@ == trusting(old(host)@, fingerprint@, optional_text(*algorithm)),
{
    host.host_fingerprint = Some(fingerprint.to_owned());
    host.host_key_algorithm = copy_optional(algorithm);
    host.host_key_first_seen_unix = None;
    host.host_key_last_verified_unix = None;
    host.verified = false;
}

/// The host with the trust state of another.
pub open spec fn with_trust_of(host: ProfileModel, stored: ProfileModel) -> ProfileModel {
    ProfileModel {
        verified: stored.verified,
        host_fingerprint: stored.host_fingerprint,
        host_key_algorithm: stored.host_key_algorithm,
        host_key_first_seen_unix: stored.host_key_first_seen_unix,
        host_key_last_verified_unix: stored.host_key_last_verified_unix,
        ..host
    }
}

pub fn copy_trust(host: &mut HostProfile, stored: &HostProfile)
    ensures
        final(host)@ == with_trust_of(old(host)@, stored@),
{
    host.verified = stored.verified;
    host.host_fingerprint = copy_optional(&stored.host_fingerprint);
    host.host_key_algorithm = copy_optional(&stored.host_key_algorithm);
    host.host_key_first_seen_unix = stored.host_key_first_seen_unix;
    host.host_key_last_verified_unix = stored.host_key_last_verified_unix;
}

/// A key that a connection saw is noted with the host that it belongs to, and only where it is the
/// key that the host trusts: the host counts as verified, with the algorithm of the key, the first
/// moment it was seen at and the last; nothing else about it changes.
pub proof fn confirmed_keys_are_noted(host: ProfileModel, key: VerifiedModel)
    ensures
        confirms(host, key) <==> host.id == key.host_id && host.host_fingerprint is Some
            && host.host_fingerprint->0 == key.fingerprint,
        ({
            let after = confirmed(host, key);
            &&& after.verified
            &&& after.host_key_algorithm == Some(key.algorithm)
            &&& host.host_key_first_seen_unix is Some ==> after.host_key_first_seen_unix
                == host.host_key_first_seen_unix
            &&& host.host_key_first_seen_unix is None ==> after.host_key_first_seen_unix == Some(
                key.verified_at_unix,
            )
            &&& after.host_key_last_verified_unix is Some
            &&& after.host_key_last_verified_unix->0 >= key.verified_at_unix
            &&& host.host_key_last_verified_unix is None ==> after.host_key_last_verified_unix
                == Some(key.verified_at_unix)
            &&& host.host_key_last_verified_unix matches Some(at) ==> (
            after.host_key_last_verified_unix->0 >= at && (after.host_key_last_verified_unix->0
                == at || after.host_key_last_verified_unix->0 == key.verified_at_unix))
            &&& after.alias == host.alias && after.tags == host.tags && after.advanced
                == host.advanced
        }),
{
}

/// A key that was confirmed during a call is noted in the store where the host is still reached as
/// it was and still trusts that key; a host that was removed, edited or given another key meanwhile
/// is left alone, and so is every other host.
pub proof fn keys_are_noted_with_unchanged_hosts(
    fresh: Seq<ProfileModel>,
    snapshot: Seq<ProfileModel>,
    key: VerifiedModel,
    before: ProfileModel,
    current: ProfileModel,
    at: int,
)
    requires
        0 <= at < fresh.len(),
        fresh[at] == current,
        current.id == key.host_id,
        forall|i: int| 0 <= i < at ==> (#[trigger] fresh[i]).id != key.host_id,
        host_with_id(snapshot, key.host_id) == Some(before),
    ensures
        current.same_connection(before) && current.host_fingerprint == Some(key.fingerprint)
            ==> merged(fresh, snapshot, seq![key]) == fresh.update(at, confirmed(current, key)),
        !current.same_connection(before) || current.host_fingerprint != Some(key.fingerprint)
            ==> merged(fresh, snapshot, seq![key]) == fresh,
        any_merges(fresh, snapshot, seq![key]) <==> current.same_connection(before)
            && current.host_fingerprint == Some(key.fingerprint),
{
    let keys = seq![key];
    assert(keys.drop_last() =~= Seq::empty());
    assert(keys.last() == key);
    crate::model::lemma_index_of_id(fresh, key.host_id, at);
    assert(merged(fresh, snapshot, keys.drop_last()) == fresh);
    assert(!any_merges(fresh, snapshot, keys.drop_last()));
    assert(host_with_id(fresh, key.host_id) == Some(current));
}

/// A host that the call did not know, or that is gone, is not touched.
pub proof fn unknown_hosts_are_not_touched(
    fresh: Seq<ProfileModel>,
    snapshot: Seq<ProfileModel>,
    key: VerifiedModel,
)
    requires
        host_with_id(snapshot, key.host_id) is None || host_with_id(fresh, key.host_id) is None,
    ensures
        merged(fresh, snapshot, seq![key]) == fresh,
        !any_merges(fresh, snapshot, seq![key]),
{
    let keys = seq![key];
    assert(keys.drop_last() =~= Seq::empty());
    assert(keys.last() == key);
    assert(merged(fresh, snapshot, keys.drop_last()) == fresh);
    assert(!any_merges(fresh, snapshot, keys.drop_last()));
}

/// Trusting a key makes it the one that the host trusts, and calls for a new test; how the host is
/// reached stays as it is.
pub proof fn trusting_replaces_the_key(
    host: ProfileModel,
    fingerprint: Seq<char>,
    algorithm: Option<Seq<char>>,
)
    ensures
        trusting(host, fingerprint, algorithm).host_fingerprint == Some(fingerprint),
        trusting(host, fingerprint, algorithm).host_key_algorithm == algorithm,
        !trusting(host, fingerprint, algorithm).verified,
        trusting(host, fingerprint, algorithm).host_key_last_verified_unix is None,
        trusting(host, fingerprint, algorithm).host_key_first_seen_unix is None,
        trusting(host, fingerprint, algorithm).same_connection(host),
        trusting(host, fingerprint, algorithm).id == host.id,
        trusting(host, fingerprint, algorithm).alias == host.alias,
        crate::failure::host_key_accepted(trusting(host, fingerprint, algorithm), fingerprint),
{
}

/// A host that takes over the trust of another one trusts what that one does, and is reached as
/// before.
pub proof fn trust_is_taken_over(host: ProfileModel, stored: ProfileModel)
    ensures
        with_trust_of(host, stored).host_fingerprint == stored.host_fingerprint,
        with_trust_of(host, stored).host_key_algorithm == stored.host_key_algorithm,
        with_trust_of(host, stored).verified == stored.verified,
        with_trust_of(host, stored).host_key_first_seen_unix == stored.host_key_first_seen_unix,
        with_trust_of(host, stored).host_key_last_verified_unix
            == stored.host_key_last_verified_unix,
        with_trust_of(host, stored).same_connection(host),
        with_trust_of(host, stored).alias == host.alias,
        with_trust_of(host, stored).id == host.id,
{
}

} // verus!
