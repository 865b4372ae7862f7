//! Single-flight response coordination with fenced bounded leases.
//!
//! A request is coordinated by a key derived from its namespace and exact
//! fingerprint. Lease ownership is tracked by an owner token and a fencing
//! generation that only grows. A leader whose lease expired cannot publish
//! once a successor holds it. The request owner alone accounts for provider
//! use; followers and cache hits add none. Leases hold no response bodies.
use crate::text::{
    byte_len, byte_length, copy_text, decimal, decimal_text, encoding_is_injective, join,
    optional_text,
};
use vstd::bytes::{
    lemma_auto_spec_u64_to_from_le_bytes, spec_u64_from_le_bytes, spec_u64_to_le_bytes,
    u64_to_le_bytes,
};
use vstd::prelude::*;
use vstd::string::*;
use vstd::utf8::*;

verus! {

/// Default lease TTL in milliseconds.
pub const DEFAULT_LEASE_TTL_MS: u64 = 5_000;

/// What went wrong during coordination.
#[derive(Clone, Debug)]
pub enum CoordinationError {
    LockPoisoned,
    StorageError(String),
    CacheError(String),
    InvalidTimestamp,
}

impl CoordinationError {
    pub open spec fn text(self) -> Seq<char> {
        match self {
            CoordinationError::LockPoisoned => "coordination synchronization lock was poisoned"@,
            CoordinationError::StorageError(e) => "coordination storage error: "@ + e@,
            CoordinationError::CacheError(e) => "response cache error: "@ + e@,
            CoordinationError::InvalidTimestamp =>
                "invalid or rolling-back timestamp during coordination"@,
        }
    }

    pub fn message(&self) -> (text: String)
        ensures
            text@ == self.text(),
    {
        match self {
            CoordinationError::LockPoisoned => copy_text(
                "coordination synchronization lock was poisoned",
            ),
            CoordinationError::StorageError(e) => join("coordination storage error: ", e.as_str()),
            CoordinationError::CacheError(e) => join("response cache error: ", e.as_str()),
            CoordinationError::InvalidTimestamp => copy_text(
                "invalid or rolling-back timestamp during coordination",
            ),
        }
    }
}

/// A secret that names the owner of a lease.
#[derive(Clone, Copy)]
pub struct OwnerToken(pub [u8; 16]);

impl View for OwnerToken {
    type V = Seq<u8>;

    open spec fn view(&self) -> Seq<u8> {
        self.0@
    }
}

impl OwnerToken {
    pub fn from_bytes(bytes: [u8; 16]) -> (token: OwnerToken)
        ensures
            token@ == bytes@,
    {
        OwnerToken(bytes)
    }

    pub fn as_bytes(&self) -> (bytes: &[u8; 16])
        ensures
            bytes@ == self@,
    {
        &self.0
    }

    pub fn same(&self, other: &OwnerToken) -> (r: bool)
        ensures
            r == (self@ == other@),
    {
        let mut i: usize = 0;
        while i < 16
            invariant
                i <= 16,
                self@.len() == 16,
                other@.len() == 16,
                forall|j: int| 0 <= j < i ==> self@[j] == other@[j],
            decreases 16 - i,
        {
            if self.0[i] != other.0[i] {
                return false;
            }
            i += 1;
        }
        assert(self@ =~= other@);
        true
    }
}

/// The fencing generation of a lease's leadership.
#[derive(Clone, Copy, Debug, PartialEq, Eq, PartialOrd, Ord, Hash, Structural)]
pub struct FencingGeneration(pub u64);

impl FencingGeneration {
    pub fn initial() -> (generation: FencingGeneration)
        ensures
            generation.0 == 1,
    {
        FencingGeneration(1)
    }

    pub open spec fn succ(self) -> FencingGeneration {
        if self.0 < u64::MAX {
            FencingGeneration((self.0 + 1) as u64)
        } else {
            self
        }
    }

    /// The next generation; the largest one is its own successor.
    pub fn next(self) -> (generation: FencingGeneration)
        ensures
            generation == self.succ(),
    {
        if self.0 < u64::MAX {
            FencingGeneration(self.0 + 1)
        } else {
            self
        }
    }

    pub fn as_u64(self) -> (n: u64)
        ensures
            n == self.0,
    {
        self.0
    }
}

/// The key under which one exact request is coordinated.
#[derive(Clone, Copy, Debug, PartialEq, Eq, PartialOrd, Ord, Hash)]
pub struct CoordinationKey(pub [u8; 32]);

impl View for CoordinationKey {
    type V = Seq<u8>;

    open spec fn view(&self) -> Seq<u8> {
        self.0@
    }
}

/// The scope within which responses may be shared.
#[derive(Clone, Debug)]
pub struct CacheNamespace {
    pub harness_id: String,
    pub key_generation: u64,
    pub workspace_id: Option<String>,
    pub session_id: Option<String>,
    pub branch_id: Option<String>,
    pub context_epoch: Option<String>,
    pub adapter_id: Option<String>,
    pub adapter_version: Option<String>,
}

/// A text behind its length in bytes.
pub open spec fn framed_text(text: Seq<char>) -> Seq<u8> {
    spec_u64_to_le_bytes(byte_length(text) as u64) + encode_utf8(text)
}

/// A text that may be absent, behind a mark that tells whether it is there.
pub open spec fn optional_frame(text: Option<Seq<char>>) -> Seq<u8> {
    match text {
        Some(s) => seq![1u8] + framed_text(s),
        None => seq![0u8],
    }
}

/// What the coordination key of a request is a keyed hash of. Every field is
/// marked off, so that the message binds the namespace field by field.
pub open spec fn coordination_message(namespace: CacheNamespace, fingerprint: Seq<u8>) -> Seq<u8> {
    encode_utf8("SR_COORDINATION_KEY_V1\0"@) + framed_text(namespace.harness_id@)
        + spec_u64_to_le_bytes(namespace.key_generation) + optional_frame(
        optional_text(namespace.workspace_id),
    ) + optional_frame(optional_text(namespace.session_id)) + optional_frame(
        optional_text(namespace.branch_id),
    ) + optional_frame(optional_text(namespace.context_epoch)) + optional_frame(
        optional_text(namespace.adapter_id),
    ) + optional_frame(optional_text(namespace.adapter_version)) + fingerprint
}

fn append_framed(message: &mut Vec<u8>, text: &str)
    ensures
        final(message)@ == old(message)@ + framed_text(text@),
{
    let ghost before = message@;
    let size: Vec<u8> = u64_to_le_bytes(byte_len(text) as u64);
    message.extend_from_slice(size.as_slice());
    message.extend_from_slice(text.as_bytes());
    assert(message@ =~= before + framed_text(text@));
}

fn append_optional(message: &mut Vec<u8>, text: &Option<String>)
    ensures
        final(message)@ == old(message)@ + optional_frame(optional_text(*text)),
{
    let ghost before = message@;
    match text {
        Some(s) => {
            message.push(1);
            append_framed(message, s.as_str());
        },
        None => {
            message.push(0);
        },
    }
    assert(message@ =~= before + optional_frame(optional_text(*text)));
}

/// The message that a request's coordination key is a hash of.
pub fn build_coordination_message(namespace: &CacheNamespace, fingerprint: &[u8]) -> (message: Vec<
    u8,
>)
    ensures
        message@ == coordination_message(*namespace, fingerprint@),
{
    let mut message: Vec<u8> = Vec::new();
    message.extend_from_slice("SR_COORDINATION_KEY_V1\0".as_bytes());
    assert(message@ =~= encode_utf8("SR_COORDINATION_KEY_V1\0"@));
    append_framed(&mut message, namespace.harness_id.as_str());
    let generation: Vec<u8> = u64_to_le_bytes(namespace.key_generation);
    message.extend_from_slice(generation.as_slice());
    append_optional(&mut message, &namespace.workspace_id);
    append_optional(&mut message, &namespace.session_id);
    append_optional(&mut message, &namespace.branch_id);
    append_optional(&mut message, &namespace.context_epoch);
    append_optional(&mut message, &namespace.adapter_id);
    append_optional(&mut message, &namespace.adapter_version);
    message.extend_from_slice(fingerprint);
    message
}

/// A text whose length a frame can carry.
pub open spec fn frame_fits(text: Option<Seq<char>>) -> bool {
    text is Some ==> byte_length(text->0) <= u64::MAX
}

impl CacheNamespace {
    pub open spec fn fits(self) -> bool {
        &&& frame_fits(Some(self.harness_id@))
        &&& frame_fits(optional_text(self.workspace_id))
        &&& frame_fits(optional_text(self.session_id))
        &&& frame_fits(optional_text(self.branch_id))
        &&& frame_fits(optional_text(self.context_epoch))
        &&& frame_fits(optional_text(self.adapter_id))
        &&& frame_fits(optional_text(self.adapter_version))
    }

    /// The two namespaces agree field by field.
    pub open spec fn agrees_with(self, other: CacheNamespace) -> bool {
        &&& self.harness_id@ == other.harness_id@
        &&& self.key_generation == other.key_generation
        &&& optional_text(self.workspace_id) == optional_text(other.workspace_id)
        &&& optional_text(self.session_id) == optional_text(other.session_id)
        &&& optional_text(self.branch_id) == optional_text(other.branch_id)
        &&& optional_text(self.context_epoch) == optional_text(other.context_epoch)
        &&& optional_text(self.adapter_id) == optional_text(other.adapter_id)
        &&& optional_text(self.adapter_version) == optional_text(other.adapter_version)
    }
}

/// A framed text can be told from what follows it.
proof fn frames_are_marked_off(a: Seq<char>, x: Seq<u8>, b: Seq<char>, y: Seq<u8>)
    requires
        byte_length(a) <= u64::MAX,
        byte_length(b) <= u64::MAX,
        framed_text(a) + x == framed_text(b) + y,
    ensures
        a == b,
        x == y,
{
    lemma_auto_spec_u64_to_from_le_bytes();
    let whole = framed_text(a) + x;
    let p = spec_u64_to_le_bytes(byte_length(a) as u64);
    let q = spec_u64_to_le_bytes(byte_length(b) as u64);
    assert(whole.take(8) =~= p);
    assert(whole.take(8) =~= q);
    assert(spec_u64_from_le_bytes(p) == byte_length(a) as u64);
    assert(spec_u64_from_le_bytes(q) == byte_length(b) as u64);
    let n = byte_length(a) as int;
    assert(whole.subrange(8, 8 + n) =~= encode_utf8(a));
    assert(whole.subrange(8, 8 + n) =~= encode_utf8(b));
    encoding_is_injective(a, b);
    assert(whole.skip(8 + n) =~= x);
    assert(whole.skip(8 + n) =~= y);
}

proof fn optional_frames_are_marked_off(
    a: Option<Seq<char>>,
    x: Seq<u8>,
    b: Option<Seq<char>>,
    y: Seq<u8>,
)
    requires
        frame_fits(a),
        frame_fits(b),
        optional_frame(a) + x == optional_frame(b) + y,
    ensures
        a == b,
        x == y,
{
    let whole = optional_frame(a) + x;
    assert(whole[0] == (if a is Some {
        1u8
    } else {
        0u8
    }));
    assert(whole[0] == (if b is Some {
        1u8
    } else {
        0u8
    }));
    match (a, b) {
        (Some(s), Some(t)) => {
            assert(whole.skip(1) =~= framed_text(s) + x);
            assert(whole.skip(1) =~= framed_text(t) + y);
            frames_are_marked_off(s, x, t, y);
        },
        _ => {
            assert(whole.skip(1) =~= x);
            assert(whole.skip(1) =~= y);
        },
    }
}

/// The fields of a namespace behind its generation, and the fingerprint.
spec fn scope_bytes(n: CacheNamespace, fingerprint: Seq<u8>) -> Seq<u8> {
    optional_frame(optional_text(n.workspace_id)) + (optional_frame(optional_text(n.session_id)) + (
    optional_frame(optional_text(n.branch_id)) + (optional_frame(optional_text(n.context_epoch)) + (
    optional_frame(optional_text(n.adapter_id)) + (optional_frame(
        optional_text(n.adapter_version),
    ) + fingerprint)))))
}

proof fn scopes_are_told_apart(a: CacheNamespace, f: Seq<u8>, b: CacheNamespace, g: Seq<u8>)
    requires
        a.fits(),
        b.fits(),
        scope_bytes(a, f) == scope_bytes(b, g),
    ensures
        optional_text(a.workspace_id) == optional_text(b.workspace_id),
        optional_text(a.session_id) == optional_text(b.session_id),
        optional_text(a.branch_id) == optional_text(b.branch_id),
        optional_text(a.context_epoch) == optional_text(b.context_epoch),
        optional_text(a.adapter_id) == optional_text(b.adapter_id),
        optional_text(a.adapter_version) == optional_text(b.adapter_version),
        f == g,
{
    let a6 = optional_frame(optional_text(a.adapter_version)) + f;
    let b6 = optional_frame(optional_text(b.adapter_version)) + g;
    let a5 = optional_frame(optional_text(a.adapter_id)) + a6;
    let b5 = optional_frame(optional_text(b.adapter_id)) + b6;
    let a4 = optional_frame(optional_text(a.context_epoch)) + a5;
    let b4 = optional_frame(optional_text(b.context_epoch)) + b5;
    let a3 = optional_frame(optional_text(a.branch_id)) + a4;
    let b3 = optional_frame(optional_text(b.branch_id)) + b4;
    let a2 = optional_frame(optional_text(a.session_id)) + a3;
    let b2 = optional_frame(optional_text(b.session_id)) + b3;
    optional_frames_are_marked_off(
        optional_text(a.workspace_id),
        a2,
        optional_text(b.workspace_id),
        b2,
    );
    optional_frames_are_marked_off(optional_text(a.session_id), a3, optional_text(b.session_id), b3);
    optional_frames_are_marked_off(optional_text(a.branch_id), a4, optional_text(b.branch_id), b4);
    optional_frames_are_marked_off(
        optional_text(a.context_epoch),
        a5,
        optional_text(b.context_epoch),
        b5,
    );
    optional_frames_are_marked_off(optional_text(a.adapter_id), a6, optional_text(b.adapter_id), b6);
    optional_frames_are_marked_off(
        optional_text(a.adapter_version),
        f,
        optional_text(b.adapter_version),
        g,
    );
}

proof fn regroup(x: Seq<u8>, y: Seq<u8>, z: Seq<u8>)
    ensures
        (x + y) + z == x + (y + z),
{
    assert((x + y) + z =~= x + (y + z));
}

/// A message by its start, its harness, its generation and the rest.
proof fn message_parts(n: CacheNamespace, f: Seq<u8>)
    ensures
        coordination_message(n, f) == encode_utf8("SR_COORDINATION_KEY_V1\0"@) + (framed_text(
            n.harness_id@,
        ) + (spec_u64_to_le_bytes(n.key_generation) + scope_bytes(n, f))),
{
    let start = encode_utf8("SR_COORDINATION_KEY_V1\0"@);
    let name = framed_text(n.harness_id@);
    let generation = spec_u64_to_le_bytes(n.key_generation);
    let o1 = optional_frame(optional_text(n.workspace_id));
    let o2 = optional_frame(optional_text(n.session_id));
    let o3 = optional_frame(optional_text(n.branch_id));
    let o4 = optional_frame(optional_text(n.context_epoch));
    let o5 = optional_frame(optional_text(n.adapter_id));
    let o6 = optional_frame(optional_text(n.adapter_version));
    let head = start + name + generation;
    regroup(head + o1 + o2 + o3 + o4 + o5, o6, f);
    regroup(head + o1 + o2 + o3 + o4, o5, o6 + f);
    regroup(head + o1 + o2 + o3, o4, o5 + (o6 + f));
    regroup(head + o1 + o2, o3, o4 + (o5 + (o6 + f)));
    regroup(head + o1, o2, o3 + (o4 + (o5 + (o6 + f))));
    regroup(head, o1, o2 + (o3 + (o4 + (o5 + (o6 + f)))));
    regroup(start + name, generation, scope_bytes(n, f));
    regroup(start, name, generation + scope_bytes(n, f));
}

/// A coordination message binds the namespace and the request: messages are
/// equal only where both agree, field by field.
pub proof fn messages_bind_their_namespace(
    a: CacheNamespace,
    f: Seq<u8>,
    b: CacheNamespace,
    g: Seq<u8>,
)
    requires
        a.fits(),
        b.fits(),
    ensures
        coordination_message(a, f) == coordination_message(b, g) <==> a.agrees_with(b) && f == g,
{
    if coordination_message(a, f) == coordination_message(b, g) {
        lemma_auto_spec_u64_to_from_le_bytes();
        let start = encode_utf8("SR_COORDINATION_KEY_V1\0"@);
        let x = scope_bytes(a, f);
        let y = scope_bytes(b, g);
        let p = spec_u64_to_le_bytes(a.key_generation);
        let q = spec_u64_to_le_bytes(b.key_generation);
        message_parts(a, f);
        message_parts(b, g);
        let whole = coordination_message(a, f).skip(start.len() as int);
        assert(whole =~= framed_text(a.harness_id@) + (p + x));
        assert(whole =~= framed_text(b.harness_id@) + (q + y));
        frames_are_marked_off(a.harness_id@, p + x, b.harness_id@, q + y);
        assert((p + x).take(8) =~= p);
        assert((p + x).take(8) =~= q);
        assert(spec_u64_from_le_bytes(p) == a.key_generation);
        assert(spec_u64_from_le_bytes(q) == b.key_generation);
        assert((p + x).skip(8) =~= x);
        assert((p + x).skip(8) =~= y);
        scopes_are_told_apart(a, f, b, g);
    }
}

/// The keyed BLAKE3 hash of a message.
pub uninterp spec fn keyed_blake3(key: Seq<u8>, message: Seq<u8>) -> Seq<u8>;

/// `blake3::keyed_hash`: the 32-byte keyed hash of the whole input, a function
/// of the key and the input alone.
#[verifier::external_body]
fn keyed_hash(key: &[u8; 32], message: &[u8]) -> (hash: [u8; 32])
    ensures
        hash@ == keyed_blake3(key@, message@),
{
    *blake3::keyed_hash(key, message).as_bytes()
}

impl CoordinationKey {
    pub fn from_bytes(bytes: [u8; 32]) -> (key: CoordinationKey)
        ensures
            key@ == bytes@,
    {
        CoordinationKey(bytes)
    }

    pub fn as_bytes(&self) -> (bytes: &[u8; 32])
        ensures
            bytes@ == self@,
    {
        &self.0
    }

    /// The keyed hash that binds a namespace and a request fingerprint.
    pub fn compute(key: &[u8; 32], namespace: &CacheNamespace, fingerprint: &[u8]) -> (r:
        CoordinationKey)
        ensures
            r@ == keyed_blake3(key@, coordination_message(*namespace, fingerprint@)),
    {
        let message: Vec<u8> = build_coordination_message(namespace, fingerprint);
        CoordinationKey(keyed_hash(key, message.as_slice()))
    }

    pub fn same(&self, other: &CoordinationKey) -> (r: bool)
        ensures
            r == (self@ == other@),
    {
        let mut i: usize = 0;
        while i < 32
            invariant
                i <= 32,
                self@.len() == 32,
                other@.len() == 32,
                forall|j: int| 0 <= j < i ==> self@[j] == other@[j],
            decreases 32 - i,
        {
            if self.0[i] != other.0[i] {
                return false;
            }
            i += 1;
        }
        assert(self@ =~= other@);
        true
    }
}

/// Metadata of an active or completed lease. It holds no response body.
#[derive(Clone)]
pub struct LeaseRecord {
    pub owner_token: OwnerToken,
    pub fencing_generation: FencingGeneration,
    pub acquired_at_unix_ms: u64,
    pub expires_at_unix_ms: u64,
    pub attempt_id: String,
    pub is_completed: bool,
}

pub struct LeaseView {
    pub owner: Seq<u8>,
    pub generation: FencingGeneration,
    pub acquired_at: u64,
    pub expires_at: u64,
    pub attempt_id: Seq<char>,
    pub is_completed: bool,
}

impl View for LeaseRecord {
    type V = LeaseView;

    open spec fn view(&self) -> LeaseView {
        LeaseView {
            owner: self.owner_token@,
            generation: self.fencing_generation,
            acquired_at: self.acquired_at_unix_ms,
            expires_at: self.expires_at_unix_ms,
            attempt_id: self.attempt_id@,
            is_completed: self.is_completed,
        }
    }
}

impl LeaseRecord {
    fn copied(&self) -> (copy: LeaseRecord)
        ensures
            copy@ == self@,
    {
        LeaseRecord {
            owner_token: self.owner_token,
            fencing_generation: self.fencing_generation,
            acquired_at_unix_ms: self.acquired_at_unix_ms,
            expires_at_unix_ms: self.expires_at_unix_ms,
            attempt_id: copy_text(self.attempt_id.as_str()),
            is_completed: self.is_completed,
        }
    }
}

/// Policy governing single-flight lease coordination.
#[derive(Clone, Copy, Debug, PartialEq, Eq, Structural)]
pub struct CoordinationPolicy {
    /// Whether the response cache is enabled. If not, nothing is shared
    /// across processes.
    pub cache_enabled: bool,
    /// Whether cross-process persistence is allowed.
    pub cross_process_allowed: bool,
    /// Lease duration in milliseconds.
    pub lease_ttl_ms: u64,
}

impl Default for CoordinationPolicy {
    fn default() -> (policy: CoordinationPolicy)
        ensures
            policy == (CoordinationPolicy {
                cache_enabled: true,
                cross_process_allowed: true,
                lease_ttl_ms: DEFAULT_LEASE_TTL_MS,
            }),
    {
        CoordinationPolicy {
            cache_enabled: true,
            cross_process_allowed: true,
            lease_ttl_ms: DEFAULT_LEASE_TTL_MS,
        }
    }
}

impl CoordinationPolicy {
    pub fn stateless() -> (policy: CoordinationPolicy)
        ensures
            policy == (CoordinationPolicy {
                cache_enabled: false,
                cross_process_allowed: false,
                lease_ttl_ms: DEFAULT_LEASE_TTL_MS,
            }),
    {
        CoordinationPolicy {
            cache_enabled: false,
            cross_process_allowed: false,
            lease_ttl_ms: DEFAULT_LEASE_TTL_MS,
        }
    }

    pub fn no_cache() -> (policy: CoordinationPolicy)
        ensures
            policy == (CoordinationPolicy {
                cache_enabled: false,
                cross_process_allowed: false,
                lease_ttl_ms: DEFAULT_LEASE_TTL_MS,
            }),
    {
        CoordinationPolicy {
            cache_enabled: false,
            cross_process_allowed: false,
            lease_ttl_ms: DEFAULT_LEASE_TTL_MS,
        }
    }
}

/// What the leader of a lease was given.
#[derive(Clone)]
pub struct LeaderContext {
    pub key: CoordinationKey,
    pub owner_token: OwnerToken,
    pub fencing_generation: FencingGeneration,
    pub lease_expires_at_unix_ms: u64,
    pub attempt_id: String,
}

/// What a follower of an active leader knows.
#[derive(Clone, Copy, Debug)]
pub struct FollowerContext {
    pub key: CoordinationKey,
    pub leader_generation: FencingGeneration,
    pub lease_expires_at_unix_ms: u64,
}

/// Outcome of attempting to acquire a lease.
#[derive(Clone)]
pub enum LeaseAcquisition {
    /// The caller won the lease and must make the provider call.
    Leading(LeaderContext),
    /// Another leader holds an unexpired lease.
    Following(FollowerContext),
    /// The request was completed and published by an earlier leader.
    AlreadyCompleted,
}

/// Outcome of a leader's attempt to publish.
#[derive(Clone, Copy, Debug, PartialEq, Eq, Structural)]
pub enum PublishOutcome {
    /// The response may be committed.
    Published,
    /// The lease expired, or a successor holds it: the response is dropped.
    Superseded {
        expected_generation: FencingGeneration,
        current_generation: Option<FencingGeneration>,
    },
}

/// The end of a lease acquired at `now`: never past the largest time.
pub open spec fn lease_end(now: u64, ttl: u64) -> u64 {
    if now + ttl > u64::MAX {
        u64::MAX
    } else {
        (now + ttl) as u64
    }
}

/// The lease that a new leader holds.
pub open spec fn new_lease(
    existing: Option<LeaseView>,
    now: u64,
    policy: CoordinationPolicy,
    owner: Seq<u8>,
    attempt_prefix: Seq<char>,
) -> LeaseView {
    let generation = match existing {
        Some(lease) => lease.generation.succ(),
        None => FencingGeneration(1),
    };
    LeaseView {
        owner,
        generation,
        acquired_at: now,
        expires_at: lease_end(now, policy.lease_ttl_ms),
        attempt_id: attempt_prefix + decimal(generation.0 as nat),
        is_completed: false,
    }
}

/// May a caller at `now` take the lease?
pub open spec fn is_free(existing: Option<LeaseView>, now: u64) -> bool {
    match existing {
        None => true,
        Some(lease) => !lease.is_completed && now >= lease.expires_at,
    }
}

/// The acquisition tells of the lease what the caller may know of it.
pub open spec fn tells(
    acquisition: LeaseAcquisition,
    key: Seq<u8>,
    existing: Option<LeaseView>,
    taken: LeaseView,
    now: u64,
) -> bool {
    match acquisition {
        LeaseAcquisition::AlreadyCompleted => existing is Some && existing->0.is_completed,
        LeaseAcquisition::Following(follower) => existing is Some && !existing->0.is_completed
            && now < existing->0.expires_at && follower.key@ == key && follower.leader_generation
            == existing->0.generation && follower.lease_expires_at_unix_ms == existing->0.expires_at,
        LeaseAcquisition::Leading(leader) => is_free(existing, now) && leader.key@ == key
            && leader.owner_token@ == taken.owner && leader.fencing_generation == taken.generation
            && leader.lease_expires_at_unix_ms == taken.expires_at && leader.attempt_id@
            == taken.attempt_id,
    }
}

/// What acquiring a lease leads to: the outcome, and the lease to store where
/// the caller leads.
#[derive(Clone)]
pub struct AcquireDecision {
    pub acquisition: LeaseAcquisition,
    pub store: Option<LeaseRecord>,
}

/// Decide an acquisition. `fresh_token` is a newly drawn owner token, or why
/// none could be drawn; it is used only where the caller becomes the leader.
pub fn decide_acquire(
    key: CoordinationKey,
    existing: &Option<LeaseRecord>,
    now_unix_ms: u64,
    policy: &CoordinationPolicy,
    fresh_token: Result<OwnerToken, String>,
    attempt_prefix: &str,
) -> (r: Result<AcquireDecision, CoordinationError>)
    ensures
        ({
            let lease = match *existing {
                Some(record) => Some(record@),
                None => None,
            };
            match r {
                Ok(decision) => {
                    let taken = new_lease(
                        lease,
                        now_unix_ms,
                        *policy,
                        fresh_token->Ok_0@,
                        attempt_prefix@,
                    );
                    &&& tells(decision.acquisition, key@, lease, taken, now_unix_ms)
                    &&& is_free(lease, now_unix_ms) ==> fresh_token is Ok && decision.store is Some
                        && decision.store->0@ == taken
                    &&& !is_free(lease, now_unix_ms) ==> decision.store is None
                },
                Err(error) => is_free(lease, now_unix_ms) && fresh_token is Err && error
                    == CoordinationError::StorageError(fresh_token->Err_0),
            }
        }),
{
    let generation: FencingGeneration = match existing {
        Some(lease) => {
            if lease.is_completed {
                return Ok(
                    AcquireDecision { acquisition: LeaseAcquisition::AlreadyCompleted, store: None },
                );
            }
            if now_unix_ms < lease.expires_at_unix_ms {
                let follower = FollowerContext {
                    key,
                    leader_generation: lease.fencing_generation,
                    lease_expires_at_unix_ms: lease.expires_at_unix_ms,
                };
                return Ok(
                    AcquireDecision {
                        acquisition: LeaseAcquisition::Following(follower),
                        store: None,
                    },
                );
            }
            lease.fencing_generation.next()
        },
        None => FencingGeneration::initial(),
    };
    let token: OwnerToken = match fresh_token {
        Ok(token) => token,
        Err(reason) => {
            return Err(CoordinationError::StorageError(reason));
        },
    };
    let expires_at: u64 = if policy.lease_ttl_ms > u64::MAX - now_unix_ms {
        u64::MAX
    } else {
        now_unix_ms + policy.lease_ttl_ms
    };
    let number: String = decimal_text(generation.as_u64());
    let attempt_id: String = join(attempt_prefix, number.as_str());
    let record = LeaseRecord {
        owner_token: token,
        fencing_generation: generation,
        acquired_at_unix_ms: now_unix_ms,
        expires_at_unix_ms: expires_at,
        attempt_id: copy_text(attempt_id.as_str()),
        is_completed: false,
    };
    let leader = LeaderContext {
        key,
        owner_token: token,
        fencing_generation: generation,
        lease_expires_at_unix_ms: expires_at,
        attempt_id,
    };
    Ok(AcquireDecision { acquisition: LeaseAcquisition::Leading(leader), store: Some(record) })
}

/// May the holder of this token and generation publish at `now`?
pub open spec fn may_publish(
    existing: Option<LeaseView>,
    owner: Seq<u8>,
    generation: FencingGeneration,
    now: u64,
) -> bool {
    existing is Some && existing->0.owner == owner && existing->0.generation == generation && now
        <= existing->0.expires_at
}

/// The outcome of an attempt to publish.
pub open spec fn publish_outcome(
    existing: Option<LeaseView>,
    owner: Seq<u8>,
    generation: FencingGeneration,
    now: u64,
) -> PublishOutcome {
    if may_publish(existing, owner, generation, now) {
        PublishOutcome::Published
    } else {
        PublishOutcome::Superseded {
            expected_generation: generation,
            current_generation: match existing {
                Some(lease) => Some(lease.generation),
                None => None,
            },
        }
    }
}

/// Decide whether a leader may publish. A published lease is then marked
/// completed.
pub fn decide_complete(
    existing: &Option<LeaseRecord>,
    owner_token: OwnerToken,
    generation: FencingGeneration,
    now_unix_ms: u64,
) -> (outcome: PublishOutcome)
    ensures
        outcome == publish_outcome(
            match *existing {
                Some(record) => Some(record@),
                None => None,
            },
            owner_token@,
            generation,
            now_unix_ms,
        ),
{
    match existing {
        None => PublishOutcome::Superseded {
            expected_generation: generation,
            current_generation: None,
        },
        Some(lease) => {
            if !lease.owner_token.same(&owner_token) || lease.fencing_generation != generation
                || now_unix_ms > lease.expires_at_unix_ms {
                PublishOutcome::Superseded {
                    expected_generation: generation,
                    current_generation: Some(lease.fencing_generation),
                }
            } else {
                PublishOutcome::Published
            }
        },
    }
}

/// The contract for lease coordination.
pub trait LeaseCoordinator {
    /// The lease stored under a key.
    spec fn lease_of(&self, key: Seq<u8>) -> Option<LeaseView>;

    /// What the attempts of this coordinator's leaders are named after.
    spec fn attempt_prefix(&self) -> Seq<char>;

    /// Attempt to acquire the lease for a key.
    fn acquire(
        &mut self,
        key: CoordinationKey,
        now_unix_ms: u64,
        policy: &CoordinationPolicy,
        fresh_token: Result<OwnerToken, String>,
    ) -> (r: Result<LeaseAcquisition, CoordinationError>)
        ensures
            final(self).attempt_prefix() == old(self).attempt_prefix(),
            forall|other: Seq<u8>|
                other != key@ ==> #[trigger] final(self).lease_of(other) == old(self).lease_of(
                    other,
                ),
            ({
                let before = old(self).lease_of(key@);
                match r {
                    Ok(acquisition) => {
                        let taken = new_lease(
                            before,
                            now_unix_ms,
                            *policy,
                            fresh_token->Ok_0@,
                            old(self).attempt_prefix(),
                        );
                        &&& tells(acquisition, key@, before, taken, now_unix_ms)
                        &&& is_free(before, now_unix_ms) ==> fresh_token is Ok && final(self).lease_of(key@) == Some(taken)
                        &&& !is_free(before, now_unix_ms) ==> final(self).lease_of(key@) == before
                    },
                    Err(error) => is_free(before, now_unix_ms) && fresh_token is Err && error
                        == CoordinationError::StorageError(fresh_token->Err_0) && final(self).lease_of(key@) == before,
                }
            }),
    ;

    /// Complete a lease if its owner and fencing generation match and it has
    /// not expired.
    fn complete(
        &mut self,
        key: CoordinationKey,
        owner_token: OwnerToken,
        generation: FencingGeneration,
        now_unix_ms: u64,
    ) -> (outcome: PublishOutcome)
        ensures
            final(self).attempt_prefix() == old(self).attempt_prefix(),
            forall|other: Seq<u8>|
                other != key@ ==> #[trigger] final(self).lease_of(other) == old(self).lease_of(
                    other,
                ),
            outcome == publish_outcome(
                old(self).lease_of(key@),
                owner_token@,
                generation,
                now_unix_ms,
            ),
            final(self).lease_of(key@) == (if outcome is Published {
                Some(LeaseView { is_completed: true, ..old(self).lease_of(key@)->0 })
            } else {
                old(self).lease_of(key@)
            }),
    ;

    /// The current lease of a key.
    fn check_lease(&self, key: CoordinationKey) -> (lease: Option<LeaseRecord>)
        ensures
            match lease {
                Some(record) => self.lease_of(key@) == Some(record@),
                None => self.lease_of(key@) is None,
            },
    ;
}

/// A lease and its key.
struct LeaseEntry {
    key: CoordinationKey,
    record: LeaseRecord,
}

/// Leases within one process.
pub struct MemoryCoordinator {
    entries: Vec<LeaseEntry>,
}

/// The record of the first entry with this key.
spec fn find_lease(entries: Seq<LeaseEntry>, key: Seq<u8>) -> Option<LeaseView>
    decreases entries.len(),
{
    if entries.len() == 0 {
        None
    } else if entries[0].key@ == key {
        Some(entries[0].record@)
    } else {
        find_lease(entries.drop_first(), key)
    }
}

proof fn find_lease_at(entries: Seq<LeaseEntry>, key: Seq<u8>, i: int)
    requires
        0 <= i <= entries.len(),
        forall|j: int| 0 <= j < i ==> (#[trigger] entries[j]).key@ != key,
    ensures
        i < entries.len() && entries[i].key@ == key ==> find_lease(entries, key) == Some(
            entries[i].record@,
        ),
        i == entries.len() ==> find_lease(entries, key) is None,
    decreases i,
{
    if i > 0 {
        let rest = entries.drop_first();
        assert forall|j: int| 0 <= j < i - 1 implies (#[trigger] rest[j]).key@ != key by {
            assert(rest[j] == entries[j + 1]);
        }
        if i < entries.len() {
            assert(rest[i - 1] == entries[i]);
        }
        assert(entries[0].key@ != key);
        find_lease_at(rest, key, i - 1);
    }
}

/// Changing one entry leaves the leases of other keys as they were.
proof fn other_leases_stay(
    before: Seq<LeaseEntry>,
    after: Seq<LeaseEntry>,
    key: Seq<u8>,
    i: int,
    other: Seq<u8>,
)
    requires
        other != key,
        0 <= i < after.len(),
        after[i].key@ == key,
        after.len() == before.len() && before[i].key@ == key || after.len() == before.len() + 1 && i
            == before.len(),
        forall|j: int| 0 <= j < before.len() && j != i ==> (#[trigger] after[j]) == before[j],
    ensures
        find_lease(after, other) == find_lease(before, other),
    decreases after.len(),
{
    if i == 0 {
        if after.len() == before.len() {
            assert(after.drop_first() =~= before.drop_first());
        } else {
            assert(after.drop_first() =~= before);
        }
    } else {
        assert(after[0] == before[0]);
        let a = after.drop_first();
        let b = before.drop_first();
        assert forall|j: int| 0 <= j < b.len() && j != i - 1 implies (#[trigger] a[j]) == b[j] by {
            assert(after[j + 1] == before[j + 1]);
        }
        assert(a[i - 1] == after[i]);
        if after.len() == before.len() {
            assert(b[i - 1] == before[i]);
        }
        other_leases_stay(b, a, key, i - 1, other);
    }
}

impl MemoryCoordinator {
    pub fn new() -> (coordinator: MemoryCoordinator)
        ensures
            forall|key: Seq<u8>| #[trigger] coordinator.lease_of(key) is None,
            coordinator.attempt_prefix() == "att-inmem-"@,
    {
        MemoryCoordinator { entries: Vec::new() }
    }

    /// The place of a key, or the number of entries.
    fn place(&self, key: &CoordinationKey) -> (i: usize)
        ensures
            i <= self.entries@.len(),
            forall|j: int| 0 <= j < i ==> (#[trigger] self.entries@[j]).key@ != key@,
            i < self.entries@.len() ==> self.entries@[i as int].key@ == key@ && self.lease_of(key@)
                == Some(self.entries@[i as int].record@),
            i == self.entries@.len() ==> self.lease_of(key@) is None,
    {
        let mut i: usize = 0;
        while i < self.entries.len()
            invariant
                i <= self.entries@.len(),
                forall|j: int| 0 <= j < i ==> (#[trigger] self.entries@[j]).key@ != key@,
            decreases self.entries@.len() - i,
        {
            if self.entries[i].key.same(key) {
                proof {
                    find_lease_at(self.entries@, key@, i as int);
                }
                return i;
            }
            i += 1;
        }
        proof {
            find_lease_at(self.entries@, key@, i as int);
        }
        i
    }

    fn store(&mut self, key: CoordinationKey, record: LeaseRecord)
        ensures
            final(self).lease_of(key@) == Some(record@),
            forall|other: Seq<u8>|
                other != key@ ==> #[trigger] final(self).lease_of(other) == old(self).lease_of(
                    other,
                ),
    {
        let ghost before = self.entries@;
        let i: usize = self.place(&key);
        let entry = LeaseEntry { key, record };
        if i < self.entries.len() {
            self.entries.set(i, entry);
        } else {
            self.entries.push(entry);
        }
        proof {
            assert forall|j: int| 0 <= j < i implies (#[trigger] self.entries@[j]).key@ != key@ by {
                assert(before[j].key@ != key@);
            }
            find_lease_at(self.entries@, key@, i as int);
            assert forall|other: Seq<u8>| other != key@ implies #[trigger] self.lease_of(other)
                == find_lease(before, other) by {
                other_leases_stay(before, self.entries@, key@, i as int, other);
            }
        }
    }
}

impl LeaseCoordinator for MemoryCoordinator {
    closed spec fn lease_of(&self, key: Seq<u8>) -> Option<LeaseView> {
        find_lease(self.entries@, key)
    }

    open spec fn attempt_prefix(&self) -> Seq<char> {
        "att-inmem-"@
    }

    fn acquire(
        &mut self,
        key: CoordinationKey,
        now_unix_ms: u64,
        policy: &CoordinationPolicy,
        fresh_token: Result<OwnerToken, String>,
    ) -> (r: Result<LeaseAcquisition, CoordinationError>) {
        let existing: Option<LeaseRecord> = self.check_lease(key);
        match decide_acquire(key, &existing, now_unix_ms, policy, fresh_token, "att-inmem-") {
            Ok(decision) => {
                match decision.store {
                    Some(record) => {
                        self.store(key, record);
                    },
                    None => {},
                }
                Ok(decision.acquisition)
            },
            Err(error) => Err(error),
        }
    }

    fn complete(
        &mut self,
        key: CoordinationKey,
        owner_token: OwnerToken,
        generation: FencingGeneration,
        now_unix_ms: u64,
    ) -> (outcome: PublishOutcome) {
        let existing: Option<LeaseRecord> = self.check_lease(key);
        let outcome: PublishOutcome = decide_complete(
            &existing,
            owner_token,
            generation,
            now_unix_ms,
        );
        match (outcome, existing) {
            (PublishOutcome::Published, Some(lease)) => {
                let mut record: LeaseRecord = lease;
                record.is_completed = true;
                self.store(key, record);
            },
            _ => {},
        }
        outcome
    }

    fn check_lease(&self, key: CoordinationKey) -> (lease: Option<LeaseRecord>) {
        let i: usize = self.place(&key);
        if i < self.entries.len() {
            Some(self.entries[i].record.copied())
        } else {
            None
        }
    }
}

/// A new leader's generation is above that of the lease that it succeeds.
pub proof fn succession_raises_the_generation(
    existing: LeaseView,
    now: u64,
    policy: CoordinationPolicy,
    owner: Seq<u8>,
    prefix: Seq<char>,
)
    requires
        existing.generation.0 < u64::MAX,
    ensures
        new_lease(Some(existing), now, policy, owner, prefix).generation.0
            > existing.generation.0,
{
}

/// Once a successor has taken a lease, its former leader can no longer
/// publish, at any time.
pub proof fn superseded_leader_cannot_publish(
    existing: LeaseView,
    now: u64,
    policy: CoordinationPolicy,
    owner: Seq<u8>,
    prefix: Seq<char>,
    later: u64,
)
    requires
        existing.generation.0 < u64::MAX,
    ensures
        !may_publish(
            Some(new_lease(Some(existing), now, policy, owner, prefix)),
            existing.owner,
            existing.generation,
            later,
        ),
{
}

/// Nobody leads a completed request again, and nobody takes a lease before it
/// expires.
pub proof fn held_leases_are_not_taken(lease: LeaseView, now: u64)
    requires
        lease.is_completed || now < lease.expires_at,
    ensures
        !is_free(Some(lease), now),
{
}

/// At one time at most one token may publish under a key.
pub proof fn one_token_may_publish(
    lease: Option<LeaseView>,
    a: Seq<u8>,
    b: Seq<u8>,
    g: FencingGeneration,
    h: FencingGeneration,
    now: u64,
)
    requires
        may_publish(lease, a, g, now),
        may_publish(lease, b, h, now),
    ensures
        a == b,
        g == h,
{
}

/// How a follower's wait ended, or for how long it goes on.
#[derive(Clone, Copy, Debug, PartialEq, Eq, Structural)]
pub enum FollowerStep {
    /// The follower's deadline was reached before completion.
    DeadlineExceeded,
    /// The leader's lease expired without publication.
    LeaseExpired,
    /// The lease is completed or gone: the cache tells whether there is a
    /// response.
    InspectCache,
    /// Wait this many milliseconds, then look again.
    Wait(u64),
}

/// How a follower goes on at `now`.
pub open spec fn followed(
    now: u64,
    deadline: u64,
    lease: Option<LeaseRecord>,
    poll_interval: u64,
) -> FollowerStep {
    if now >= deadline {
        FollowerStep::DeadlineExceeded
    } else if lease is None || lease->0.is_completed {
        FollowerStep::InspectCache
    } else if now >= lease->0.expires_at_unix_ms {
        FollowerStep::LeaseExpired
    } else if deadline - now < poll_interval {
        FollowerStep::Wait((deadline - now) as u64)
    } else {
        FollowerStep::Wait(poll_interval)
    }
}

/// Decide how a follower goes on at `now`.
pub fn follower_step(
    now_unix_ms: u64,
    deadline_unix_ms: u64,
    lease: &Option<LeaseRecord>,
    poll_interval_ms: u64,
) -> (step: FollowerStep)
    ensures
        step == followed(now_unix_ms, deadline_unix_ms, *lease, poll_interval_ms),
        step is Wait ==> now_unix_ms + step->Wait_0 <= deadline_unix_ms,
{
    if now_unix_ms >= deadline_unix_ms {
        return FollowerStep::DeadlineExceeded;
    }
    match lease {
        None => FollowerStep::InspectCache,
        Some(record) => if record.is_completed {
            FollowerStep::InspectCache
        } else if now_unix_ms >= record.expires_at_unix_ms {
            FollowerStep::LeaseExpired
        } else {
            let remaining: u64 = deadline_unix_ms - now_unix_ms;
            if remaining < poll_interval_ms {
                FollowerStep::Wait(remaining)
            } else {
                FollowerStep::Wait(poll_interval_ms)
            }
        },
    }
}

/// Final outcome of a coordinated request.
#[derive(Clone, Debug)]
pub struct CoordinatedResponse<T> {
    pub entry: T,
    pub served_from_cache: bool,
    pub new_requests: u64,
    pub new_tokens: u64,
    pub attempt_id: Option<String>,
    pub is_follower: bool,
}

impl<T> CoordinatedResponse<T> {
    /// The request caused no provider work: it was served by the work of
    /// another.
    pub open spec fn is_free_of_charge(self) -> bool {
        self.served_from_cache && self.new_requests == 0 && self.new_tokens == 0
            && self.attempt_id is None
    }

    /// The request was answered by its own single provider attempt.
    pub open spec fn is_own_attempt(self) -> bool {
        !self.served_from_cache && self.new_requests == 1 && self.attempt_id is Some
            && !self.is_follower
    }
}

/// A response from the cache, at no cost.
fn served<T>(entry: T, is_follower: bool) -> (response: CoordinatedResponse<T>)
    ensures
        response.is_free_of_charge(),
        response.entry == entry,
        response.is_follower == is_follower,
{
    CoordinatedResponse {
        entry,
        served_from_cache: true,
        new_requests: 0,
        new_tokens: 0,
        attempt_id: None,
        is_follower,
    }
}

/// Why a coordinated request fell back.
#[derive(Clone, Debug)]
pub enum FlightFailure {
    CompletedElsewhere,
    SharingDisabled,
    ProviderFailed(String),
    Superseded {
        expected_generation: FencingGeneration,
        current_generation: Option<FencingGeneration>,
    },
    DeadlineExceeded,
    LeaseExpired,
    NoCachedResponse,
}

/// A generation as diagnostics show it.
pub open spec fn generation_text(generation: FencingGeneration) -> Seq<char> {
    "FencingGeneration("@ + decimal(generation.0 as nat) + ")"@
}

fn show_generation(generation: FencingGeneration) -> (text: String)
    ensures
        text@ == generation_text(generation),
{
    let number: String = decimal_text(generation.as_u64());
    join("FencingGeneration(", number.as_str()).concat(")")
}

impl FlightFailure {
    pub open spec fn text(self) -> Seq<char> {
        match self {
            FlightFailure::CompletedElsewhere => "cache disabled; cannot share response body"@,
            FlightFailure::SharingDisabled =>
                "--no-cache disables response sharing; coordination stores no bodies"@,
            FlightFailure::ProviderFailed(e) => "provider execution failed: "@ + e@,
            FlightFailure::Superseded { expected_generation, current_generation } =>
                "leader superseded (gen "@ + generation_text(expected_generation) + ", current "@ + (
                match current_generation {
                    Some(generation) => "Some("@ + generation_text(generation) + ")"@,
                    None => "None"@,
                }) + "); quiet fallback"@,
            FlightFailure::DeadlineExceeded => "follower deadline exceeded; quiet fallback"@,
            FlightFailure::LeaseExpired => "leader lease expired without completion"@,
            FlightFailure::NoCachedResponse => "leader completed but no cached response found"@,
        }
    }

    /// The failure as a coordination error.
    pub fn into_error(self) -> (error: CoordinationError)
        ensures
            error is StorageError,
            error->StorageError_0@ == self.text(),
    {
        let text: String = match self {
            FlightFailure::CompletedElsewhere => copy_text(
                "cache disabled; cannot share response body",
            ),
            FlightFailure::SharingDisabled => copy_text(
                "--no-cache disables response sharing; coordination stores no bodies",
            ),
            FlightFailure::ProviderFailed(e) => join("provider execution failed: ", e.as_str()),
            FlightFailure::Superseded { expected_generation, current_generation } => {
                let expected: String = show_generation(expected_generation);
                let current: String = match current_generation {
                    Some(generation) => {
                        let shown: String = show_generation(generation);
                        join("Some(", shown.as_str()).concat(")")
                    },
                    None => copy_text("None"),
                };
                join("leader superseded (gen ", expected.as_str()).concat(", current ").concat(
                    current.as_str(),
                ).concat("); quiet fallback")
            },
            FlightFailure::DeadlineExceeded => copy_text(
                "follower deadline exceeded; quiet fallback",
            ),
            FlightFailure::LeaseExpired => copy_text("leader lease expired without completion"),
            FlightFailure::NoCachedResponse => copy_text(
                "leader completed but no cached response found",
            ),
        };
        CoordinationError::StorageError(text)
    }
}

/// Which cache lookup of a coordinated request is made.
#[derive(Clone, Copy, Debug, PartialEq, Eq, Structural)]
pub enum LookupPoint {
    Initial,
    Completed,
    Follower,
}

/// What a coordinated request does next.
pub enum FlightNext<T> {
    Lookup(LookupPoint),
    Acquire,
    Execute(LeaderContext),
    AwaitLeader,
    /// Answer, after storing the response where it is to be shared.
    Respond { response: CoordinatedResponse<T>, store: bool },
    Fail(FlightFailure),
}

/// The decisions of a coordinated request, and the leases of this process.
/// Where a database is named, leases are shared through it instead.
pub struct SingleFlightCoordinator {
    policy: CoordinationPolicy,
    memory: MemoryCoordinator,
    db_path: Option<String>,
}

impl LeaseCoordinator for SingleFlightCoordinator {
    closed spec fn lease_of(&self, key: Seq<u8>) -> Option<LeaseView> {
        self.memory.lease_of(key)
    }

    closed spec fn attempt_prefix(&self) -> Seq<char> {
        self.memory.attempt_prefix()
    }

    fn acquire(
        &mut self,
        key: CoordinationKey,
        now_unix_ms: u64,
        policy: &CoordinationPolicy,
        fresh_token: Result<OwnerToken, String>,
    ) -> (r: Result<LeaseAcquisition, CoordinationError>)
        ensures
            final(self).policy_spec() == old(self).policy_spec(),
            final(self).database() == old(self).database(),
    {
        self.memory.acquire(key, now_unix_ms, policy, fresh_token)
    }

    fn complete(
        &mut self,
        key: CoordinationKey,
        owner_token: OwnerToken,
        generation: FencingGeneration,
        now_unix_ms: u64,
    ) -> (outcome: PublishOutcome)
        ensures
            final(self).policy_spec() == old(self).policy_spec(),
            final(self).database() == old(self).database(),
    {
        self.memory.complete(key, owner_token, generation, now_unix_ms)
    }

    fn check_lease(&self, key: CoordinationKey) -> (lease: Option<LeaseRecord>) {
        self.memory.check_lease(key)
    }
}

impl SingleFlightCoordinator {
    pub closed spec fn policy_spec(self) -> CoordinationPolicy {
        self.policy
    }

    /// The database of cross-process leases, where one is used.
    pub closed spec fn database(self) -> Option<Seq<char>> {
        optional_text(self.db_path)
    }

    /// Coordinate within this process only.
    pub fn memory_only(policy: CoordinationPolicy) -> (coordinator: SingleFlightCoordinator)
        ensures
            coordinator.policy_spec() == policy,
            coordinator.database() is None,
            coordinator.attempt_prefix() == "att-inmem-"@,
            forall|key: Seq<u8>| #[trigger] coordinator.lease_of(key) is None,
    {
        let coordinator = SingleFlightCoordinator {
            policy,
            memory: MemoryCoordinator::new(),
            db_path: None,
        };
        assert forall|key: Seq<u8>| #[trigger] coordinator.lease_of(key) is None by {
            assert(coordinator.memory.lease_of(key) is None);
        }
        coordinator
    }

    /// Coordinate across processes where the policy allows it and a database
    /// is named.
    pub fn new(policy: CoordinationPolicy, db_path: Option<String>) -> (coordinator:
        SingleFlightCoordinator)
        ensures
            coordinator.policy_spec() == policy,
            coordinator.database() == (if policy.cross_process_allowed {
                optional_text(db_path)
            } else {
                None
            }),
            coordinator.attempt_prefix() == "att-inmem-"@,
            forall|key: Seq<u8>| #[trigger] coordinator.lease_of(key) is None,
    {
        let db_path: Option<String> = if policy.cross_process_allowed {
            db_path
        } else {
            None
        };
        let coordinator = SingleFlightCoordinator {
            policy,
            memory: MemoryCoordinator::new(),
            db_path,
        };
        assert forall|key: Seq<u8>| #[trigger] coordinator.lease_of(key) is None by {
            assert(coordinator.memory.lease_of(key) is None);
        }
        coordinator
    }

    pub fn policy(&self) -> (policy: CoordinationPolicy)
        ensures
            policy == self.policy_spec(),
    {
        self.policy
    }

    pub fn db_path(&self) -> (path: Option<&str>)
        ensures
            match path {
                Some(p) => self.database() == Some(p@),
                None => self.database() is None,
            },
    {
        match &self.db_path {
            Some(path) => Some(path.as_str()),
            None => None,
        }
    }

    /// Begin: look into the cache where it is enabled, else contend for the
    /// lease at once.
    pub fn begin<T>(&self) -> (next: FlightNext<T>)
        ensures
            next == (if self.policy_spec().cache_enabled {
                FlightNext::<T>::Lookup(LookupPoint::Initial)
            } else {
                FlightNext::<T>::Acquire
            }),
    {
        if self.policy.cache_enabled {
            FlightNext::Lookup(LookupPoint::Initial)
        } else {
            FlightNext::Acquire
        }
    }

    /// Go on after a cache lookup.
    pub fn after_lookup<T>(&self, point: LookupPoint, hit: Option<T>) -> (next: FlightNext<T>)
        ensures
            match hit {
                Some(entry) => next is Respond && !next->store && next->response.entry == entry
                    && next->response.is_free_of_charge() && next->response.is_follower == (point
                    != LookupPoint::Initial),
                None => next == (match point {
                    LookupPoint::Initial => FlightNext::<T>::Acquire,
                    LookupPoint::Completed => FlightNext::<T>::Fail(
                        FlightFailure::CompletedElsewhere,
                    ),
                    LookupPoint::Follower => FlightNext::<T>::Fail(FlightFailure::NoCachedResponse),
                }),
            },
    {
        match hit {
            Some(entry) => FlightNext::Respond {
                response: served(entry, point != LookupPoint::Initial),
                store: false,
            },
            None => match point {
                LookupPoint::Initial => FlightNext::Acquire,
                LookupPoint::Completed => FlightNext::Fail(FlightFailure::CompletedElsewhere),
                LookupPoint::Follower => FlightNext::Fail(FlightFailure::NoCachedResponse),
            },
        }
    }

    /// Go on after contending for the lease. Without a cache nothing that
    /// another leader publishes can be shared.
    pub fn after_acquire<T>(&self, acquisition: LeaseAcquisition) -> (next: FlightNext<T>)
        ensures
            next == (match acquisition {
                LeaseAcquisition::Leading(leader) => FlightNext::<T>::Execute(leader),
                LeaseAcquisition::AlreadyCompleted => if self.policy_spec().cache_enabled {
                    FlightNext::<T>::Lookup(LookupPoint::Completed)
                } else {
                    FlightNext::<T>::Fail(FlightFailure::CompletedElsewhere)
                },
                LeaseAcquisition::Following(_) => if self.policy_spec().cache_enabled {
                    FlightNext::<T>::AwaitLeader
                } else {
                    FlightNext::<T>::Fail(FlightFailure::SharingDisabled)
                },
            }),
    {
        match acquisition {
            LeaseAcquisition::Leading(leader) => FlightNext::Execute(leader),
            LeaseAcquisition::AlreadyCompleted => if self.policy.cache_enabled {
                FlightNext::Lookup(LookupPoint::Completed)
            } else {
                FlightNext::Fail(FlightFailure::CompletedElsewhere)
            },
            LeaseAcquisition::Following(_) => if self.policy.cache_enabled {
                FlightNext::AwaitLeader
            } else {
                FlightNext::Fail(FlightFailure::SharingDisabled)
            },
        }
    }

    /// Go on after the leader's attempt to publish what the provider answered.
    pub fn after_publish<T>(
        &self,
        outcome: PublishOutcome,
        attempt_id: String,
        entry: T,
        total_tokens: u64,
    ) -> (next: FlightNext<T>)
        ensures
            match outcome {
                PublishOutcome::Published => next is Respond && next->store
                    == self.policy_spec().cache_enabled && next->response.entry == entry
                    && next->response.is_own_attempt() && next->response.new_tokens == total_tokens
                    && next->response.attempt_id == Some(attempt_id),
                PublishOutcome::Superseded { expected_generation, current_generation } => next
                    == FlightNext::<T>::Fail(
                    FlightFailure::Superseded { expected_generation, current_generation },
                ),
            },
    {
        match outcome {
            PublishOutcome::Published => FlightNext::Respond {
                response: CoordinatedResponse {
                    entry,
                    served_from_cache: false,
                    new_requests: 1,
                    new_tokens: total_tokens,
                    attempt_id: Some(attempt_id),
                    is_follower: false,
                },
                store: self.policy.cache_enabled,
            },
            PublishOutcome::Superseded { expected_generation, current_generation } =>
                FlightNext::Fail(
                FlightFailure::Superseded { expected_generation, current_generation },
            ),
        }
    }

    /// Go on after a follower's step; nothing while it still waits.
    pub fn after_wait<T>(&self, step: FollowerStep) -> (next: Option<FlightNext<T>>)
        ensures
            next == (match step {
                FollowerStep::Wait(_) => None::<FlightNext<T>>,
                FollowerStep::DeadlineExceeded => Some(
                    FlightNext::<T>::Fail(FlightFailure::DeadlineExceeded),
                ),
                FollowerStep::LeaseExpired => Some(
                    FlightNext::<T>::Fail(FlightFailure::LeaseExpired),
                ),
                FollowerStep::InspectCache => Some(FlightNext::<T>::Lookup(LookupPoint::Follower)),
            }),
    {
        match step {
            FollowerStep::Wait(_) => None,
            FollowerStep::DeadlineExceeded => Some(
                FlightNext::Fail(FlightFailure::DeadlineExceeded),
            ),
            FollowerStep::LeaseExpired => Some(FlightNext::Fail(FlightFailure::LeaseExpired)),
            FollowerStep::InspectCache => Some(FlightNext::Lookup(LookupPoint::Follower)),
        }
    }
}

/// What the outside world answered to a coordinated request, as far as it was
/// asked.
pub struct FlightObservations<T> {
    /// What the first look into the cache found.
    pub initial: Result<Option<T>, CoordinationError>,
    pub acquisition: Result<LeaseAcquisition, CoordinationError>,
    /// The provider's response with its total tokens, or its failure.
    pub provider: Result<(T, u64), String>,
    pub publication: Result<PublishOutcome, CoordinationError>,
    /// How storing the published response ended.
    pub stored: Result<(), CoordinationError>,
    /// How the wait for another leader ended.
    pub wait: Result<FollowerStep, CoordinationError>,
    /// What the second look into the cache found.
    pub late: Result<Option<T>, CoordinationError>,
}

/// The error says what this failure says.
pub open spec fn reports<T>(
    r: Result<CoordinatedResponse<T>, CoordinationError>,
    failure: FlightFailure,
) -> bool {
    r is Err && r->Err_0 is StorageError && r->Err_0->StorageError_0@ == failure.text()
}

/// The response was served from the cache.
pub open spec fn serves_cached<T>(
    r: Result<CoordinatedResponse<T>, CoordinationError>,
    entry: T,
    is_follower: bool,
) -> bool {
    r is Ok && r->Ok_0.is_free_of_charge() && r->Ok_0.entry == entry && r->Ok_0.is_follower
        == is_follower
}

/// The answer of a request that found its response published by another.
pub open spec fn served_late<T>(
    r: Result<CoordinatedResponse<T>, CoordinationError>,
    found: Result<Option<T>, CoordinationError>,
    failure: FlightFailure,
) -> bool {
    match found {
        Ok(Some(entry)) => serves_cached(r, entry, true),
        Ok(None) => reports(r, failure),
        Err(error) => passes_on(r, error),
    }
}

/// The error is the one that was met.
pub open spec fn passes_on<T>(
    r: Result<CoordinatedResponse<T>, CoordinationError>,
    error: CoordinationError,
) -> bool {
    r == Err::<CoordinatedResponse<T>, CoordinationError>(error)
}

/// The answer to a coordinated request, for every course of events.
pub open spec fn answers<T>(
    r: Result<CoordinatedResponse<T>, CoordinationError>,
    policy: CoordinationPolicy,
    seen: FlightObservations<T>,
) -> bool {
    if policy.cache_enabled && seen.initial is Err {
        passes_on(r, seen.initial->Err_0)
    } else if policy.cache_enabled && seen.initial->Ok_0 is Some {
        serves_cached(r, seen.initial->Ok_0->0, false)
    } else {
        match seen.acquisition {
            Err(error) => passes_on(r, error),
            Ok(LeaseAcquisition::AlreadyCompleted) => if policy.cache_enabled {
                served_late(r, seen.late, FlightFailure::CompletedElsewhere)
            } else {
                reports(r, FlightFailure::CompletedElsewhere)
            },
            Ok(LeaseAcquisition::Leading(leader)) => match (seen.provider, seen.publication) {
                (Err(reason), _) => reports(r, FlightFailure::ProviderFailed(reason)),
                (Ok(_), Err(error)) => passes_on(r, error),
                (Ok((entry, tokens)), Ok(PublishOutcome::Published)) => if policy.cache_enabled
                    && seen.stored is Err {
                    passes_on(r, seen.stored->Err_0)
                } else {
                    r is Ok && r->Ok_0.is_own_attempt() && r->Ok_0.entry == entry
                        && r->Ok_0.new_tokens == tokens && r->Ok_0.attempt_id == Some(
                        leader.attempt_id,
                    )
                },
                (
                    Ok(_),
                    Ok(PublishOutcome::Superseded { expected_generation, current_generation }),
                ) => reports(
                    r,
                    FlightFailure::Superseded { expected_generation, current_generation },
                ),
            },
            Ok(LeaseAcquisition::Following(_)) => if !policy.cache_enabled {
                reports(r, FlightFailure::SharingDisabled)
            } else {
                match seen.wait {
                    Err(error) => passes_on(r, error),
                    Ok(FollowerStep::DeadlineExceeded) => reports(
                        r,
                        FlightFailure::DeadlineExceeded,
                    ),
                    Ok(FollowerStep::LeaseExpired) => reports(r, FlightFailure::LeaseExpired),
                    Ok(_) => served_late(r, seen.late, FlightFailure::NoCachedResponse),
                }
            },
        }
    }
}

impl SingleFlightCoordinator {
    /// Answer one exact request, given what was seen of it, whatever holds the
    /// leases. Only a validated response is shared: a request that did no
    /// provider work of its own is free of charge, and a leader accounts for
    /// exactly one.
    pub fn answer_request<T>(&self, seen: FlightObservations<T>) -> (r: Result<
        CoordinatedResponse<T>,
        CoordinationError,
    >)
        requires
            !(seen.wait is Ok && seen.wait->Ok_0 is Wait),
        ensures
            answers(r, self.policy_spec(), seen),
            r is Ok ==> r->Ok_0.is_free_of_charge() || r->Ok_0.is_own_attempt(),
    {
        let first: FlightNext<T> = match self.begin() {
            FlightNext::Lookup(point) => match seen.initial {
                Ok(hit) => self.after_lookup(point, hit),
                Err(error) => {
                    return Err(error);
                },
            },
            other => other,
        };
        let second: FlightNext<T> = match first {
            FlightNext::Acquire => match seen.acquisition {
                Ok(acquisition) => self.after_acquire(acquisition),
                Err(error) => {
                    return Err(error);
                },
            },
            other => other,
        };
        let third: FlightNext<T> = match second {
            FlightNext::Execute(leader) => {
                let (entry, total_tokens): (T, u64) = match seen.provider {
                    Ok(answer) => answer,
                    Err(reason) => {
                        return Err(FlightFailure::ProviderFailed(reason).into_error());
                    },
                };
                match seen.publication {
                    Ok(outcome) => self.after_publish(
                        outcome,
                        leader.attempt_id,
                        entry,
                        total_tokens,
                    ),
                    Err(error) => {
                        return Err(error);
                    },
                }
            },
            FlightNext::AwaitLeader => {
                let step: FollowerStep = match seen.wait {
                    Ok(step) => step,
                    Err(error) => {
                        return Err(error);
                    },
                };
                match self.after_wait(step) {
                    Some(FlightNext::Lookup(point)) => match seen.late {
                        Ok(hit) => self.after_lookup(point, hit),
                        Err(error) => {
                            return Err(error);
                        },
                    },
                    Some(other) => other,
                    None => FlightNext::Fail(FlightFailure::NoCachedResponse),
                }
            },
            FlightNext::Lookup(point) => match seen.late {
                Ok(hit) => self.after_lookup(point, hit),
                Err(error) => {
                    return Err(error);
                },
            },
            other => other,
        };
        match third {
            FlightNext::Respond { response, store } => {
                if store {
                    match seen.stored {
                        Ok(_) => {},
                        Err(error) => {
                            return Err(error);
                        },
                    }
                }
                Ok(response)
            },
            FlightNext::Fail(failure) => Err(failure.into_error()),
            _ => Err(FlightFailure::NoCachedResponse.into_error()),
        }
    }
}

/// What a leader hands over to publish its response.
#[derive(Clone, Copy)]
pub struct PublishRequest {
    pub key: CoordinationKey,
    pub owner_token: OwnerToken,
    pub generation: FencingGeneration,
}

impl LeaderContext {
    /// A leader publishes under the key that it leads, with its own token and
    /// the generation of its acquisition.
    pub fn publish_request(&self) -> (request: PublishRequest)
        ensures
            request.key@ == self.key@,
            request.owner_token@ == self.owner_token@,
            request.generation == self.fencing_generation,
    {
        PublishRequest {
            key: self.key,
            owner_token: self.owner_token,
            generation: self.fencing_generation,
        }
    }
}

/// Publish: complete the lease that the request names.
pub fn publish<C: LeaseCoordinator>(
    leases: &mut C,
    request: PublishRequest,
    now_unix_ms: u64,
) -> (outcome: PublishOutcome)
    ensures
        outcome == publish_outcome(
            old(leases).lease_of(request.key@),
            request.owner_token@,
            request.generation,
            now_unix_ms,
        ),
        final(leases).lease_of(request.key@) == (if outcome is Published {
            Some(LeaseView { is_completed: true, ..old(leases).lease_of(request.key@)->0 })
        } else {
            old(leases).lease_of(request.key@)
        }),
        final(leases).attempt_prefix() == old(leases).attempt_prefix(),
        forall|other: Seq<u8>|
            other != request.key@ ==> #[trigger] final(leases).lease_of(other) == old(
                leases,
            ).lease_of(other),
{
    leases.complete(request.key, request.owner_token, request.generation, now_unix_ms)
}

/// An exact provider request to coordinate.
#[derive(Clone, Copy)]
pub struct CoordinateRequestQuery<'a> {
    pub key: &'a [u8; 32],
    pub namespace: &'a CacheNamespace,
    pub request_fingerprint: &'a [u8],
    pub deadline_unix_ms: u64,
    pub active_model: &'a str,
    pub active_revision: Option<&'a str>,
}

/// What the cache is asked for a wide answer.
#[derive(Clone, Copy)]
pub struct CacheLookup<'a> {
    pub key: &'a [u8; 32],
    pub namespace: &'a CacheNamespace,
    pub fingerprint: &'a [u8],
    pub now_unix_ms: u64,
    pub active_model: &'a str,
    pub active_revision: Option<&'a str>,
}

impl<'a> CoordinateRequestQuery<'a> {
    /// The key under which the request is coordinated.
    pub open spec fn coordination_key(self) -> Seq<u8> {
        keyed_blake3(
            self.key@,
            coordination_message(*self.namespace, self.request_fingerprint@),
        )
    }

    /// The look-up of the request's own answer at `now_unix_ms`.
    pub fn lookup(&self, now_unix_ms: u64) -> (lookup: CacheLookup<'a>)
        ensures
            lookup == (CacheLookup {
                key: self.key,
                namespace: self.namespace,
                fingerprint: self.request_fingerprint,
                now_unix_ms,
                active_model: self.active_model,
                active_revision: self.active_revision,
            }),
    {
        CacheLookup {
            key: self.key,
            namespace: self.namespace,
            fingerprint: self.request_fingerprint,
            now_unix_ms,
            active_model: self.active_model,
            active_revision: self.active_revision,
        }
    }
}

/// What the clock, the cache, the provider and the wait gave for a request, as
/// far as they were asked.
pub struct FlightReadings<T> {
    pub now_unix_ms: u64,
    /// What the first look into the cache found.
    pub initial: Result<Option<T>, CoordinationError>,
    /// A newly drawn owner token, or why none could be drawn.
    pub fresh_token: Result<OwnerToken, String>,
    /// The provider's response with its total tokens, or its failure.
    pub provider: Result<(T, u64), String>,
    /// The clock once the provider answered.
    pub finish_unix_ms: u64,
    /// How storing the published response ended.
    pub stored: Result<(), CoordinationError>,
    /// How the wait for another leader ended.
    pub wait: Result<FollowerStep, CoordinationError>,
    /// What the second look into the cache found.
    pub late: Result<Option<T>, CoordinationError>,
}

/// The answer of a leader, and the lease that it leaves behind.
pub open spec fn leads<T>(
    r: Result<CoordinatedResponse<T>, CoordinationError>,
    policy: CoordinationPolicy,
    taken: LeaseView,
    after: Option<LeaseView>,
    seen: FlightReadings<T>,
) -> bool {
    match seen.provider {
        Err(reason) => reports(r, FlightFailure::ProviderFailed(reason)) && after == Some(taken),
        Ok((entry, tokens)) => match publish_outcome(
            Some(taken),
            taken.owner,
            taken.generation,
            seen.finish_unix_ms,
        ) {
            PublishOutcome::Published => {
                &&& after == Some(LeaseView { is_completed: true, ..taken })
                &&& if policy.cache_enabled && seen.stored is Err {
                    passes_on(r, seen.stored->Err_0)
                } else {
                    r is Ok && r->Ok_0.is_own_attempt() && r->Ok_0.entry == entry
                        && r->Ok_0.new_tokens == tokens && r->Ok_0.attempt_id->0@
                        == taken.attempt_id
                }
            },
            PublishOutcome::Superseded { expected_generation, current_generation } => {
                &&& reports(
                    r,
                    FlightFailure::Superseded { expected_generation, current_generation },
                )
                &&& after == Some(taken)
            },
        },
    }
}

/// The answer to a coordinated request, and the lease that it leaves behind,
/// from the lease that it found.
pub open spec fn flies<T>(
    r: Result<CoordinatedResponse<T>, CoordinationError>,
    policy: CoordinationPolicy,
    prefix: Seq<char>,
    before: Option<LeaseView>,
    after: Option<LeaseView>,
    seen: FlightReadings<T>,
) -> bool {
    if policy.cache_enabled && seen.initial is Err {
        passes_on(r, seen.initial->Err_0) && after == before
    } else if policy.cache_enabled && seen.initial->Ok_0 is Some {
        serves_cached(r, seen.initial->Ok_0->0, false) && after == before
    } else if is_free(before, seen.now_unix_ms) {
        match seen.fresh_token {
            Err(reason) => passes_on(r, CoordinationError::StorageError(reason)) && after == before,
            Ok(token) => leads(
                r,
                policy,
                new_lease(before, seen.now_unix_ms, policy, token@, prefix),
                after,
                seen,
            ),
        }
    } else if before->0.is_completed {
        after == before && if policy.cache_enabled {
            served_late(r, seen.late, FlightFailure::CompletedElsewhere)
        } else {
            reports(r, FlightFailure::CompletedElsewhere)
        }
    } else {
        after == before && if !policy.cache_enabled {
            reports(r, FlightFailure::SharingDisabled)
        } else {
            match seen.wait {
                Err(error) => passes_on(r, error),
                Ok(FollowerStep::DeadlineExceeded) => reports(r, FlightFailure::DeadlineExceeded),
                Ok(FollowerStep::LeaseExpired) => reports(r, FlightFailure::LeaseExpired),
                Ok(_) => served_late(r, seen.late, FlightFailure::NoCachedResponse),
            }
        }
    }
}

impl SingleFlightCoordinator {
    /// Coordinate one exact request over the given leases. The request's key
    /// is computed, its lease contended for and, where this caller leads,
    /// completed under that key with the leader's own token and generation.
    pub fn coordinate_request<T, C: LeaseCoordinator>(
        &self,
        leases: &mut C,
        query: &CoordinateRequestQuery,
        seen: FlightReadings<T>,
    ) -> (r: Result<CoordinatedResponse<T>, CoordinationError>)
        requires
            !(seen.wait is Ok && seen.wait->Ok_0 is Wait),
        ensures
            flies(
                r,
                self.policy_spec(),
                old(leases).attempt_prefix(),
                old(leases).lease_of(query.coordination_key()),
                final(leases).lease_of(query.coordination_key()),
                seen,
            ),
            forall|other: Seq<u8>|
                other != query.coordination_key() ==> #[trigger] final(leases).lease_of(other)
                    == old(leases).lease_of(other),
            r is Ok ==> r->Ok_0.is_free_of_charge() || r->Ok_0.is_own_attempt(),
    {
        let key: CoordinationKey = CoordinationKey::compute(
            query.key,
            query.namespace,
            query.request_fingerprint,
        );
        if self.policy.cache_enabled {
            match seen.initial {
                Ok(None) => {},
                Ok(Some(entry)) => {
                    return Ok(served(entry, false));
                },
                Err(error) => {
                    return Err(error);
                },
            }
        }
        let acquisition: LeaseAcquisition = match leases.acquire(
            key,
            seen.now_unix_ms,
            &self.policy,
            seen.fresh_token,
        ) {
            Ok(acquisition) => acquisition,
            Err(error) => {
                return Err(error);
            },
        };
        let publication: PublishOutcome = match (&acquisition, &seen.provider) {
            (LeaseAcquisition::Leading(leader), Ok(_)) => publish(
                leases,
                leader.publish_request(),
                seen.finish_unix_ms,
            ),
            _ => PublishOutcome::Published,
        };
        self.answer_request(
            FlightObservations {
                initial: Ok(None),
                acquisition: Ok(acquisition),
                provider: seen.provider,
                publication: Ok(publication),
                stored: seen.stored,
                wait: seen.wait,
                late: seen.late,
            },
        )
    }
}

} // verus!
