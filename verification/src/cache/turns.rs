//! Who leads, who follows, and what a request is answered with.
use crate::cache::coordination::{
    answers, followed, new_lease, publish_outcome, tells, CoordinatedResponse, CoordinationError,
    CoordinationPolicy, FlightObservations, FollowerStep, LeaseAcquisition, LeaseRecord, LeaseView,
    PublishOutcome,
};
use vstd::prelude::*;

verus! {

/// A leader holds its lease for the policy's time from when it was taken, and
/// not completed yet: until then it may publish under its own token and
/// generation, and after that it may not.
pub proof fn leaders_may_publish_in_time(
    existing: Option<LeaseView>,
    now: u64,
    policy: CoordinationPolicy,
    owner: Seq<u8>,
    prefix: Seq<char>,
    later: u64,
)
    requires
        now + policy.lease_ttl_ms <= u64::MAX,
    ensures
        ({
            let lease = new_lease(existing, now, policy, owner, prefix);
            let outcome = publish_outcome(Some(lease), owner, lease.generation, later);
            &&& lease.owner == owner
            &&& lease.acquired_at == now
            &&& lease.expires_at == now + policy.lease_ttl_ms
            &&& !lease.is_completed
            &&& outcome == PublishOutcome::Published <==> later <= now + policy.lease_ttl_ms
        }),
{
}

/// Whoever is not the leader cannot publish: another token, another generation,
/// or no lease at all is superseded, and told whose turn it is.
pub proof fn only_leaders_publish(
    lease: Option<LeaseView>,
    owner: Seq<u8>,
    generation: crate::cache::coordination::FencingGeneration,
    now: u64,
)
    requires
        lease is None || lease->0.owner != owner || lease->0.generation != generation || now
            > lease->0.expires_at,
    ensures
        publish_outcome(lease, owner, generation, now) is Superseded,
        publish_outcome(lease, owner, generation, now)->expected_generation == generation,
        lease matches Some(held) ==> publish_outcome(
            lease,
            owner,
            generation,
            now,
        )->current_generation == Some(held.generation),
        lease is None ==> publish_outcome(lease, owner, generation, now)->current_generation
            is None,
{
}

/// A request is led exactly where nobody has led it yet, or the last leader let
/// its lease expire without completing. Otherwise it is followed, under the
/// leader's generation and until the leader's lease ends, or it is over.
pub proof fn requests_are_led_followed_or_over(
    acquisition: LeaseAcquisition,
    key: Seq<u8>,
    existing: Option<LeaseView>,
    now: u64,
    policy: CoordinationPolicy,
    owner: Seq<u8>,
    prefix: Seq<char>,
)
    requires
        tells(
            acquisition,
            key,
            existing,
            new_lease(existing, now, policy, owner, prefix),
            now,
        ),
    ensures
        acquisition is Leading <==> existing is None || (!existing->0.is_completed
            && existing->0.expires_at <= now),
        acquisition is AlreadyCompleted <==> existing is Some && existing->0.is_completed,
        acquisition is Following <==> existing is Some && !existing->0.is_completed && now
            < existing->0.expires_at,
        acquisition matches LeaseAcquisition::Leading(leader) ==> leader.key@ == key
            && leader.owner_token@ == owner,
        acquisition matches LeaseAcquisition::Leading(leader) ==> (existing is None
            ==> leader.fencing_generation.0 == 1),
        acquisition matches LeaseAcquisition::Following(follower) ==> follower.key@ == key
            && follower.leader_generation == existing->0.generation
            && follower.lease_expires_at_unix_ms == existing->0.expires_at,
{
}

/// Two requests for one thing are never both led: once one leads, the other
/// follows it until its lease ends or it completes; then the other finds it
/// completed, or leads under a higher generation.
pub proof fn one_leads_at_a_time(
    acquisition: LeaseAcquisition,
    key: Seq<u8>,
    existing: Option<LeaseView>,
    now: u64,
    policy: CoordinationPolicy,
    first: Seq<u8>,
    second: Seq<u8>,
    prefix: Seq<char>,
    completed: bool,
    later: u64,
)
    requires
        now + policy.lease_ttl_ms <= u64::MAX,
        existing is Some ==> existing->0.generation.0 + 1 < u64::MAX,
        ({
            let held = LeaseView {
                is_completed: completed,
                ..new_lease(existing, now, policy, first, prefix)
            };
            tells(
                acquisition,
                key,
                Some(held),
                new_lease(Some(held), later, policy, second, prefix),
                later,
            )
        }),
    ensures
        completed ==> acquisition is AlreadyCompleted,
        !completed && later < now + policy.lease_ttl_ms ==> acquisition is Following,
        !completed && later >= now + policy.lease_ttl_ms ==> acquisition is Leading
            && acquisition->Leading_0.fencing_generation.0 == new_lease(
            existing,
            now,
            policy,
            first,
            prefix,
        ).generation.0 + 1,
{
}

/// A follower waits only while there is time and a leader is at work: never past
/// its own deadline, never longer than the interval at which it looks again,
/// and it looks into the cache as soon as the leader is done or gone.
pub proof fn followers_wait_for_working_leaders(
    now: u64,
    deadline: u64,
    lease: Option<LeaseRecord>,
    poll_interval: u64,
)
    ensures
        ({
            let step = followed(now, deadline, lease, poll_interval);
            let done = lease is None || lease->0.is_completed;
            &&& step is DeadlineExceeded <==> deadline <= now
            &&& step is InspectCache <==> now < deadline && done
            &&& step is LeaseExpired <==> now < deadline && !done && lease->0.expires_at_unix_ms
                <= now
            &&& step is Wait <==> now < deadline && !done && now < lease->0.expires_at_unix_ms
            &&& step matches FollowerStep::Wait(ms) ==> {
                &&& now + ms <= deadline
                &&& ms <= poll_interval
                &&& ms == poll_interval || now + ms == deadline
            }
        }),
{
}

/// Whatever a request is answered with was either found in the cache, for
/// nothing, or is the leader's own response, for exactly one request and the
/// tokens that the provider counted.
pub proof fn answers_come_from_somewhere<T>(
    r: Result<CoordinatedResponse<T>, CoordinationError>,
    policy: CoordinationPolicy,
    seen: FlightObservations<T>,
)
    requires
        answers(r, policy, seen),
        r is Ok,
    ensures
        r->Ok_0.served_from_cache ==> {
            &&& policy.cache_enabled
            &&& r->Ok_0.new_requests == 0 && r->Ok_0.new_tokens == 0
            &&& r->Ok_0.attempt_id is None
            &&& !r->Ok_0.is_follower ==> seen.initial == Ok::<Option<T>, CoordinationError>(
                Some(r->Ok_0.entry),
            )
            &&& r->Ok_0.is_follower ==> seen.late == Ok::<Option<T>, CoordinationError>(
                Some(r->Ok_0.entry),
            )
        },
        !r->Ok_0.served_from_cache ==> {
            &&& seen.acquisition is Ok && seen.acquisition->Ok_0 is Leading
            &&& seen.provider is Ok
            &&& r->Ok_0.entry == seen.provider->Ok_0.0
            &&& r->Ok_0.new_tokens == seen.provider->Ok_0.1
            &&& r->Ok_0.new_requests == 1
            &&& r->Ok_0.attempt_id == Some(seen.acquisition->Ok_0->Leading_0.attempt_id)
            &&& seen.publication == Ok::<PublishOutcome, CoordinationError>(
                PublishOutcome::Published,
            )
        },
{
}

/// A request is answered wherever it can be: from the cache where it is there,
/// from the provider where the request leads, is answered and is published, and
/// from the cache again where another leader has put it there.
pub proof fn possible_answers_are_given<T>(
    r: Result<CoordinatedResponse<T>, CoordinationError>,
    policy: CoordinationPolicy,
    seen: FlightObservations<T>,
)
    requires
        answers(r, policy, seen),
    ensures
        policy.cache_enabled && seen.initial is Ok && seen.initial->Ok_0 is Some ==> r is Ok
            && r->Ok_0.served_from_cache,
        (!policy.cache_enabled || seen.initial == Ok::<Option<T>, CoordinationError>(None))
            && seen.acquisition is Ok && seen.acquisition->Ok_0 is Leading && seen.provider is Ok
            && seen.publication == Ok::<PublishOutcome, CoordinationError>(
            PublishOutcome::Published,
        ) && seen.stored is Ok ==> r is Ok && !r->Ok_0.served_from_cache,
        policy.cache_enabled && seen.initial == Ok::<Option<T>, CoordinationError>(None)
            && seen.acquisition is Ok && (seen.acquisition->Ok_0 is AlreadyCompleted || (
        seen.acquisition->Ok_0 is Following && seen.wait == Ok::<FollowerStep, CoordinationError>(
            FollowerStep::InspectCache,
        ))) && seen.late is Ok && seen.late->Ok_0 is Some ==> r is Ok
            && r->Ok_0.served_from_cache && r->Ok_0.is_follower,
{
}

} // verus!
