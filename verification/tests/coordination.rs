use skillranker::cache::coordination::{
    build_coordination_message, decide_complete, follower_step, CacheNamespace,
    CoordinateRequestQuery, CoordinationError, CoordinationKey, CoordinationPolicy,
    FencingGeneration, FlightObservations, FlightReadings, FollowerStep, LeaseAcquisition, LeaseCoordinator, MemoryCoordinator, OwnerToken, PublishOutcome,
    SingleFlightCoordinator,
};

fn token(n: u8) -> OwnerToken {
    OwnerToken::from_bytes([n; 16])
}

fn key(n: u8) -> CoordinationKey {
    CoordinationKey::from_bytes([n; 32])
}

fn namespace() -> CacheNamespace {
    CacheNamespace {
        harness_id: "h".to_string(),
        key_generation: 3,
        workspace_id: Some("w".to_string()),
        session_id: None,
        branch_id: None,
        context_epoch: None,
        adapter_id: None,
        adapter_version: None,
    }
}

#[test]
fn keys_are_keyed_hashes_of_their_message() {
    let secret = [7u8; 32];
    let message = build_coordination_message(&namespace(), &[1, 2, 3]);
    let mut expected = b"SR_COORDINATION_KEY_V1\0".to_vec();
    expected.extend_from_slice(&1u64.to_le_bytes());
    expected.extend_from_slice(b"h");
    expected.extend_from_slice(&3u64.to_le_bytes());
    expected.push(1);
    expected.extend_from_slice(&1u64.to_le_bytes());
    expected.extend_from_slice(b"w");
    expected.extend_from_slice(&[0; 5]);
    expected.extend_from_slice(b"\x01\x02\x03");
    assert_eq!(message, expected);
    let computed = CoordinationKey::compute(&secret, &namespace(), &[1, 2, 3]);
    assert_eq!(
        computed.as_bytes(),
        blake3::keyed_hash(&secret, &message).as_bytes()
    );
    let other = CoordinationKey::compute(&secret, &namespace(), &[1, 2, 4]);
    assert!(!computed.same(&other));
}

#[test]
fn one_leader_holds_a_lease_until_it_expires() {
    let policy = CoordinationPolicy::default();
    let mut leases = MemoryCoordinator::new();
    let first = match leases.acquire(key(1), 1_000, &policy, Ok(token(1))).unwrap() {
        LeaseAcquisition::Leading(leader) => leader,
        _ => panic!("the first request leads"),
    };
    assert_eq!(first.fencing_generation.as_u64(), 1);
    assert_eq!(first.attempt_id, "att-inmem-1");
    assert_eq!(first.lease_expires_at_unix_ms, 6_000);
    assert!(matches!(
        leases.acquire(key(1), 5_999, &policy, Ok(token(2))).unwrap(),
        LeaseAcquisition::Following(f) if f.lease_expires_at_unix_ms == 6_000
    ));
    let second = match leases.acquire(key(1), 6_000, &policy, Ok(token(3))).unwrap() {
        LeaseAcquisition::Leading(leader) => leader,
        _ => panic!("an expired lease is taken over"),
    };
    assert_eq!(second.fencing_generation.as_u64(), 2);
    assert!(matches!(
        leases.complete(key(1), first.owner_token, first.fencing_generation, 6_001),
        PublishOutcome::Superseded { current_generation: Some(g), .. } if g.as_u64() == 2
    ));
    assert!(matches!(
        leases.complete(key(1), second.owner_token, second.fencing_generation, 6_002),
        PublishOutcome::Published
    ));
    assert!(matches!(
        leases.acquire(key(1), 6_003, &policy, Ok(token(4))).unwrap(),
        LeaseAcquisition::AlreadyCompleted
    ));
    assert!(leases.check_lease(key(1)).unwrap().is_completed);
    assert!(leases.check_lease(key(2)).is_none());
}

#[test]
fn a_leader_without_a_token_is_a_storage_error() {
    let mut leases = MemoryCoordinator::new();
    let error = leases
        .acquire(key(1), 1, &CoordinationPolicy::default(), Err("no entropy".to_string()))
        .err()
        .unwrap();
    assert!(matches!(error, CoordinationError::StorageError(reason) if reason == "no entropy"));
    assert!(leases.check_lease(key(1)).is_none());
}

#[test]
fn publishing_without_a_lease_is_superseded() {
    assert!(matches!(
        decide_complete(&None, token(1), FencingGeneration::initial(), 5),
        PublishOutcome::Superseded { current_generation: None, .. }
    ));
}

#[test]
fn followers_wait_within_their_deadline() {
    let policy = CoordinationPolicy::default();
    let mut leases = MemoryCoordinator::new();
    leases.acquire(key(1), 0, &policy, Ok(token(1))).unwrap();
    let lease = leases.check_lease(key(1));
    assert_eq!(follower_step(10, 10, &lease, 25), FollowerStep::DeadlineExceeded);
    assert_eq!(follower_step(10, 20, &lease, 25), FollowerStep::Wait(10));
    assert_eq!(follower_step(10, 200, &lease, 25), FollowerStep::Wait(25));
    assert_eq!(follower_step(5_000, 9_000, &lease, 25), FollowerStep::LeaseExpired);
    assert_eq!(follower_step(10, 200, &None, 25), FollowerStep::InspectCache);
}

fn seen(acquisition: LeaseAcquisition) -> FlightObservations<&'static str> {
    FlightObservations {
        initial: Ok(None),
        acquisition: Ok(acquisition),
        provider: Ok(("fresh", 30)),
        publication: Ok(PublishOutcome::Published),
        stored: Ok(()),
        wait: Ok(FollowerStep::InspectCache),
        late: Ok(Some("shared")),
    }
}

#[test]
fn the_leader_alone_is_charged() {
    let flight = SingleFlightCoordinator::memory_only(CoordinationPolicy::default());
    let mut leases = MemoryCoordinator::new();
    let policy = flight.policy();
    let leading = leases.acquire(key(1), 0, &policy, Ok(token(1))).unwrap();
    let own = flight.answer_request(seen(leading)).unwrap();
    assert_eq!(own.entry, "fresh");
    assert_eq!((own.new_requests, own.new_tokens), (1, 30));
    assert!(!own.is_follower && !own.served_from_cache);
    assert_eq!(own.attempt_id.as_deref(), Some("att-inmem-1"));
    let following = leases.acquire(key(1), 1, &policy, Ok(token(2))).unwrap();
    let shared = flight.answer_request(seen(following)).unwrap();
    assert_eq!(shared.entry, "shared");
    assert_eq!((shared.new_requests, shared.new_tokens), (0, 0));
    assert!(shared.served_from_cache && shared.attempt_id.is_none());
}

#[test]
fn a_superseded_leader_publishes_nothing() {
    let flight = SingleFlightCoordinator::memory_only(CoordinationPolicy::default());
    let mut leases = MemoryCoordinator::new();
    let leading = leases.acquire(key(1), 0, &flight.policy(), Ok(token(1))).unwrap();
    let mut observed = seen(leading);
    observed.publication = Ok(PublishOutcome::Superseded {
        expected_generation: FencingGeneration::initial(),
        current_generation: None,
    });
    assert!(flight.answer_request(observed).is_err());
    assert!(!CoordinationPolicy::no_cache().cache_enabled);
    assert_eq!(FencingGeneration::initial().next().as_u64(), 2);
}

#[test]
fn failing_stores_and_waits_are_passed_on() {
    let lost = || CoordinationError::StorageError("lost".to_string());
    let cached = SingleFlightCoordinator::memory_only(CoordinationPolicy::default());
    let uncached = SingleFlightCoordinator::memory_only(CoordinationPolicy::no_cache());
    let mut leases = MemoryCoordinator::new();
    let policy = cached.policy();
    let leading = leases.acquire(key(1), 0, &policy, Ok(token(1))).unwrap();
    let following = leases.acquire(key(1), 1, &policy, Ok(token(2))).unwrap();
    let message = |flight: &SingleFlightCoordinator, observed| {
        flight.answer_request(observed).err().map(|error| error.message())
    };
    let mut unread = seen(leading.clone());
    unread.initial = Err(lost());
    assert_eq!(
        message(&cached, unread).as_deref(),
        Some("coordination storage error: lost")
    );
    let mut unread = seen(leading.clone());
    unread.initial = Err(lost());
    assert!(uncached.answer_request(unread).is_ok());
    let mut unstored = seen(leading.clone());
    unstored.stored = Err(lost());
    assert!(cached.answer_request(unstored).is_err());
    let mut unstored = seen(leading);
    unstored.stored = Err(lost());
    assert!(uncached.answer_request(unstored).is_ok());
    let mut timed_out = seen(following.clone());
    timed_out.wait = Ok(FollowerStep::DeadlineExceeded);
    assert_eq!(
        message(&cached, timed_out).as_deref(),
        Some("coordination storage error: follower deadline exceeded; quiet fallback")
    );
    assert_eq!(
        message(&uncached, seen(following.clone())).as_deref(),
        Some("coordination storage error: --no-cache disables response sharing; coordination stores no bodies")
    );
    let mut missing = seen(following);
    missing.late = Ok(None);
    assert_eq!(
        message(&cached, missing).as_deref(),
        Some("coordination storage error: leader completed but no cached response found")
    );
    let mut done = seen(LeaseAcquisition::AlreadyCompleted);
    done.late = Ok(None);
    assert_eq!(
        message(&cached, done).as_deref(),
        Some("coordination storage error: cache disabled; cannot share response body")
    );
}

#[test]
fn keys_bind_the_namespace_field_by_field() {
    let secret = [7u8; 32];
    let workspace = namespace();
    let mut session = namespace();
    session.workspace_id = None;
    session.session_id = Some("w".to_string());
    let mut split = namespace();
    split.harness_id = "hw".to_string();
    split.workspace_id = None;
    let mut empty = namespace();
    empty.session_id = Some(String::new());
    let keys: Vec<CoordinationKey> = [workspace, session, split, empty]
        .iter()
        .map(|n| CoordinationKey::compute(&secret, n, &[1]))
        .collect();
    for (i, a) in keys.iter().enumerate() {
        for (j, b) in keys.iter().enumerate() {
            assert_eq!(a == b, i == j);
        }
    }
}

#[test]
fn a_single_flight_keeps_its_own_leases() {
    let mut flight = SingleFlightCoordinator::memory_only(CoordinationPolicy::default());
    let policy = flight.policy();
    assert!(flight.check_lease(key(1)).is_none());
    let leading = flight.acquire(key(1), 0, &policy, Ok(token(1))).unwrap();
    assert!(matches!(leading, LeaseAcquisition::Leading(_)));
    let following = flight.acquire(key(1), 1, &policy, Ok(token(2))).unwrap();
    assert!(matches!(following, LeaseAcquisition::Following(_)));
    let published = flight.complete(key(1), token(1), FencingGeneration::initial(), 2);
    assert_eq!(published, PublishOutcome::Published);
    assert!(flight.check_lease(key(1)).unwrap().is_completed);
    assert!(FencingGeneration::initial() < FencingGeneration::initial().next());
}

fn readings(now_unix_ms: u64, finish_unix_ms: u64, n: u8) -> FlightReadings<&'static str> {
    FlightReadings {
        now_unix_ms,
        initial: Ok(None),
        fresh_token: Ok(token(n)),
        provider: Ok(("fresh", 30)),
        finish_unix_ms,
        stored: Ok(()),
        wait: Ok(FollowerStep::InspectCache),
        late: Ok(Some("shared")),
    }
}

#[test]
fn a_leader_publishes_under_its_own_lease() {
    let flight = SingleFlightCoordinator::memory_only(CoordinationPolicy::default());
    let mut leases = MemoryCoordinator::new();
    let secret = [7u8; 32];
    let scope = namespace();
    let query = CoordinateRequestQuery {
        key: &secret,
        namespace: &scope,
        request_fingerprint: &[1, 2, 3],
        deadline_unix_ms: 9_000,
        active_model: "m",
        active_revision: None,
    };
    let own = CoordinationKey::compute(&secret, &scope, &[1, 2, 3]);
    let led = flight.coordinate_request(&mut leases, &query, readings(0, 10, 1)).unwrap();
    assert_eq!((led.entry, led.new_requests, led.new_tokens), ("fresh", 1, 30));
    assert_eq!(led.attempt_id.as_deref(), Some("att-inmem-1"));
    let lease = leases.check_lease(own).unwrap();
    assert!(lease.is_completed && lease.owner_token.same(&token(1)));
    let again = flight.coordinate_request(&mut leases, &query, readings(20, 30, 2)).unwrap();
    assert_eq!((again.entry, again.new_requests), ("shared", 0));
    let lookup = query.lookup(5);
    assert_eq!((lookup.now_unix_ms, lookup.active_model), (5, "m"));
}

#[test]
fn late_leaders_and_failed_providers_publish_nothing() {
    let flight = SingleFlightCoordinator::memory_only(CoordinationPolicy::default());
    let secret = [7u8; 32];
    let scope = namespace();
    let query = CoordinateRequestQuery {
        key: &secret,
        namespace: &scope,
        request_fingerprint: &[1],
        deadline_unix_ms: 9_000,
        active_model: "m",
        active_revision: None,
    };
    let own = CoordinationKey::compute(&secret, &scope, &[1]);
    let mut leases = MemoryCoordinator::new();
    assert!(flight.coordinate_request(&mut leases, &query, readings(0, 5_001, 1)).is_err());
    assert!(!leases.check_lease(own).unwrap().is_completed);
    // The expired lease is taken over by a successor of the next generation.
    let mut failing = readings(6_000, 6_001, 2);
    failing.provider = Err("down".to_string());
    let failed = flight.coordinate_request(&mut leases, &query, failing).err().unwrap();
    assert_eq!(
        failed.message(),
        "coordination storage error: provider execution failed: down"
    );
    let lease = leases.check_lease(own).unwrap();
    assert_eq!(lease.fencing_generation.as_u64(), 2);
    assert!(!lease.is_completed);
    let mut hit = readings(6_002, 0, 3);
    hit.initial = Ok(Some("cached"));
    assert_eq!(
        flight.coordinate_request(&mut leases, &query, hit).unwrap().entry,
        "cached"
    );
    let mut tokenless = readings(20_000, 0, 3);
    tokenless.fresh_token = Err("no entropy".to_string());
    assert!(flight.coordinate_request(&mut leases, &query, tokenless).is_err());
}
