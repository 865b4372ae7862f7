//! The identity of a set of evaluated candidates.
use crate::context::branch::lineage::{compare_text, text_standing, Standing};
use crate::names::{before_is_transitive, same_standing};
use crate::text::{byte_length, copy_text, encoding_is_injective};
use vstd::bytes::*;
use vstd::prelude::*;
use vstd::seq_lib::{to_multiset_build, to_multiset_insert};
use vstd::utf8::*;

verus! {

/// The version of the identity.
pub const CANDIDATE_SET_VERSION: &'static str = "skillranker.candidate-set.v1";

/// A member: a skill's stable identity and the hash of its content.
#[derive(Clone, Debug)]
pub struct SetMember {
    pub id: String,
    pub content_hash: String,
}

/// A member as characters.
pub struct MemberView {
    pub id: Seq<char>,
    pub content_hash: Seq<char>,
}

impl View for SetMember {
    type V = MemberView;

    open spec fn view(&self) -> MemberView {
        MemberView { id: self.id@, content_hash: self.content_hash@ }
    }
}

pub open spec fn set_member_views(list: Seq<SetMember>) -> Seq<MemberView> {
    list.map_values(|m: SetMember| m@)
}

/// Members stand by identity, then by content.
pub open spec fn stands_up_to(a: MemberView, b: MemberView) -> bool {
    match text_standing(a.id, b.id) {
        Standing::Before => true,
        Standing::After => false,
        Standing::Same => !(text_standing(a.content_hash, b.content_hash) is After),
    }
}

pub open spec fn in_set_order(list: Seq<MemberView>) -> bool {
    forall|i: int, j: int|
        0 <= i < j < list.len() ==> #[trigger] stands_up_to(list[i], list[j])
}

proof fn set_order_is_total(a: MemberView, b: MemberView)
    ensures
        stands_up_to(a, b) || stands_up_to(b, a),
        stands_up_to(a, b) && stands_up_to(b, a) ==> a == b,
{
    same_standing(a.id, b.id);
    same_standing(b.id, a.id);
    same_standing(a.content_hash, b.content_hash);
    same_standing(b.content_hash, a.content_hash);
}

proof fn text_up_to_is_transitive(a: Seq<char>, b: Seq<char>, c: Seq<char>)
    requires
        !(text_standing(a, b) is After),
        !(text_standing(b, c) is After),
    ensures
        !(text_standing(a, c) is After),
        text_standing(a, c) is Same ==> a == b && b == c,
{
    same_standing(a, b);
    same_standing(b, c);
    same_standing(a, c);
    same_standing(c, a);
    same_standing(b, a);
    if text_standing(a, b) is Before && text_standing(b, c) is Before {
        before_is_transitive(a, b, c);
    }
}

proof fn set_order_is_transitive(a: MemberView, b: MemberView, c: MemberView)
    requires
        stands_up_to(a, b),
        stands_up_to(b, c),
    ensures
        stands_up_to(a, c),
{
    text_up_to_is_transitive(a.id, b.id, c.id);
    same_standing(a.id, b.id);
    same_standing(b.id, c.id);
    same_standing(a.id, c.id);
    if text_standing(a.id, c.id) is Same {
        text_up_to_is_transitive(a.content_hash, b.content_hash, c.content_hash);
    }
}

fn is_up_to(a: &SetMember, b: &SetMember) -> (r: bool)
    ensures
        r == stands_up_to(a@, b@),
{
    match compare_text(a.id.as_str(), b.id.as_str()) {
        Standing::Before => true,
        Standing::After => false,
        Standing::Same => match compare_text(a.content_hash.as_str(), b.content_hash.as_str()) {
            Standing::After => false,
            _ => true,
        },
    }
}

/// Members in set order.
fn sorted_members(members: &Vec<SetMember>) -> (sorted: Vec<SetMember>)
    ensures
        in_set_order(set_member_views(sorted@)),
        set_member_views(sorted@).to_multiset() == set_member_views(members@).to_multiset(),
{
    let ghost all = set_member_views(members@);
    let mut sorted: Vec<SetMember> = Vec::new();
    let mut i: usize = 0;
    assert(set_member_views(sorted@) =~= all.take(0));
    while i < members.len()
        invariant
            i <= members@.len(),
            all == set_member_views(members@),
            in_set_order(set_member_views(sorted@)),
            set_member_views(sorted@).to_multiset() == all.take(i as int).to_multiset(),
        decreases members@.len() - i,
    {
        let ghost before = set_member_views(sorted@);
        let ghost own = all[i as int];
        let mut at: usize = 0;
        while at < sorted.len()
            invariant
                i < members@.len(),
                all == set_member_views(members@),
                own == all[i as int],
                at <= sorted@.len(),
                before == set_member_views(sorted@),
                forall|j: int| 0 <= j < at ==> stands_up_to(#[trigger] before[j], own),
            ensures
                at == before.len() || !stands_up_to(before[at as int], own),
            decreases sorted@.len() - at,
        {
            assert(before[at as int] == sorted@[at as int]@);
            if !is_up_to(&sorted[at], &members[i]) {
                break;
            }
            at += 1;
        }
        sorted.insert(
            at,
            SetMember {
                id: copy_text(members[i].id.as_str()),
                content_hash: copy_text(members[i].content_hash.as_str()),
            },
        );
        proof {
            let after = set_member_views(sorted@);
            assert(after =~= before.insert(at as int, own));
            to_multiset_insert(before, at as int, own);
            assert(all.take(i + 1) =~= all.take(i as int).push(own));
            to_multiset_build(all.take(i as int), own);
            assert forall|a: int, b: int| 0 <= a < b < after.len() implies #[trigger] stands_up_to(
                after[a],
                after[b],
            ) by {
                let x = if a < at {
                    a
                } else {
                    a - 1
                };
                let y = if b < at {
                    b
                } else {
                    b - 1
                };
                if a != at && b != at {
                    assert(stands_up_to(before[x], before[y]));
                } else if b == at {
                    assert(stands_up_to(before[x], own));
                } else {
                    set_order_is_total(before[at as int], own);
                    if y > at {
                        assert(stands_up_to(before[at as int], before[y]));
                        set_order_is_transitive(own, before[at as int], before[y]);
                    }
                }
            }
        }
        i += 1;
    }
    assert(all.take(i as int) =~= all);
    sorted
}

/// Parts of a message, each behind its length.
pub open spec fn framed(parts: Seq<Seq<char>>) -> Seq<u8>
    decreases parts.len(),
{
    if parts.len() == 0 {
        Seq::empty()
    } else {
        spec_u64_to_le_bytes(byte_length(parts[0]) as u64) + encode_utf8(parts[0]) + framed(
            parts.skip(1),
        )
    }
}

/// The texts of the members, in order.
pub open spec fn member_parts(members: Seq<MemberView>) -> Seq<Seq<char>>
    decreases members.len(),
{
    if members.len() == 0 {
        Seq::empty()
    } else {
        seq![members[0].id, members[0].content_hash] + member_parts(members.skip(1))
    }
}

/// What the identity of a candidate set is a hash of: its stage, the version
/// and its members in set order, each text behind its length.
pub open spec fn set_message(stage: Seq<char>, members: Seq<MemberView>) -> Seq<u8> {
    framed(seq![stage, CANDIDATE_SET_VERSION@] + member_parts(members))
}

fn append_part(message: &mut Vec<u8>, part: &str)
    ensures
        final(message)@ == old(message)@ + (spec_u64_to_le_bytes(byte_length(part@) as u64)
            + encode_utf8(part@)),
{
    let ghost before = message@;
    let bytes: &[u8] = part.as_bytes();
    let length: Vec<u8> = u64_to_le_bytes(bytes.len() as u64);
    message.extend_from_slice(length.as_slice());
    message.extend_from_slice(bytes);
    assert(message@ =~= before + (spec_u64_to_le_bytes(byte_length(part@) as u64) + encode_utf8(
        part@,
    )));
}

proof fn framed_splits(a: Seq<char>, rest: Seq<Seq<char>>)
    ensures
        framed(seq![a] + rest) == spec_u64_to_le_bytes(byte_length(a) as u64) + encode_utf8(a)
            + framed(rest),
{
    assert((seq![a] + rest).skip(1) =~= rest);
}

/// The message of a candidate set, whatever order its members come in.
pub fn candidate_set_message(stage: &str, members: &Vec<SetMember>) -> (message: Vec<u8>)
    ensures
        exists|order: Seq<MemberView>|
            {
                &&& #[trigger] in_set_order(order)
                &&& order.to_multiset() == set_member_views(members@).to_multiset()
                &&& message@ == set_message(stage@, order)
            },
{
    let sorted: Vec<SetMember> = sorted_members(members);
    let ghost order = set_member_views(sorted@);
    let ghost whole = set_message(stage@, order);
    let mut message: Vec<u8> = Vec::new();
    append_part(&mut message, stage);
    append_part(&mut message, CANDIDATE_SET_VERSION);
    proof {
        let rest = member_parts(order);
        framed_splits(CANDIDATE_SET_VERSION@, rest);
        framed_splits(stage@, seq![CANDIDATE_SET_VERSION@] + rest);
        assert(seq![stage@, CANDIDATE_SET_VERSION@] + rest =~= seq![stage@] + (
        seq![CANDIDATE_SET_VERSION@] + rest));
        assert(order.skip(0) =~= order);
        assert(message@ + framed(member_parts(order.skip(0))) =~= whole);
    }
    let mut i: usize = 0;
    while i < sorted.len()
        invariant
            i <= sorted@.len(),
            order == set_member_views(sorted@),
            message@ + framed(member_parts(order.skip(i as int))) == whole,
        decreases sorted@.len() - i,
    {
        let ghost before = message@;
        let ghost own = order[i as int];
        append_part(&mut message, sorted[i].id.as_str());
        append_part(&mut message, sorted[i].content_hash.as_str());
        proof {
            let rest = member_parts(order.skip(i + 1));
            assert(order.skip(i as int)[0] == own);
            assert(order.skip(i as int).skip(1) =~= order.skip(i + 1));
            assert(seq![own.id, own.content_hash] + rest =~= seq![own.id] + (
            seq![own.content_hash] + rest));
            framed_splits(own.content_hash, rest);
            framed_splits(own.id, seq![own.content_hash] + rest);
            assert(message@ + framed(rest) =~= before + framed(
                member_parts(order.skip(i as int)),
            ));
        }
        i += 1;
    }
    assert(order.skip(i as int) =~= Seq::empty());
    assert(message@ + framed(member_parts(order.skip(i as int))) =~= message@);
    message
}

/// Every text has a length that a frame can carry.
pub open spec fn frames_fit(parts: Seq<Seq<char>>) -> bool {
    forall|i: int| 0 <= i < parts.len() ==> byte_length(#[trigger] parts[i]) <= u64::MAX
}

/// Framing loses nothing: two lists of texts with one framing are the same
/// list.
pub proof fn framing_is_injective(a: Seq<Seq<char>>, b: Seq<Seq<char>>)
    requires
        frames_fit(a),
        frames_fit(b),
        framed(a) == framed(b),
    ensures
        a == b,
    decreases a.len(),
{
    lemma_auto_spec_u64_to_from_le_bytes();
    if a.len() == 0 || b.len() == 0 {
        if a.len() > 0 {
            assert(framed(a).len() >= 8);
        }
        if b.len() > 0 {
            assert(framed(b).len() >= 8);
        }
        assert(a =~= b);
    } else {
        let x = spec_u64_to_le_bytes(byte_length(a[0]) as u64);
        let y = spec_u64_to_le_bytes(byte_length(b[0]) as u64);
        let whole = framed(a);
        assert(whole.take(8) =~= x);
        assert(whole.take(8) =~= y);
        let n = byte_length(a[0]) as int;
        assert(n == byte_length(b[0])) by {
            assert(spec_u64_from_le_bytes(x) == byte_length(a[0]) as u64);
            assert(spec_u64_from_le_bytes(y) == byte_length(b[0]) as u64);
        }
        assert(whole.subrange(8, 8 + n) =~= encode_utf8(a[0]));
        assert(whole.subrange(8, 8 + n) =~= encode_utf8(b[0]));
        encoding_is_injective(a[0], b[0]);
        assert(whole.skip(8 + n) =~= framed(a.skip(1)));
        assert(whole.skip(8 + n) =~= framed(b.skip(1)));
        framing_is_injective(a.skip(1), b.skip(1));
        assert(a =~= seq![a[0]] + a.skip(1));
        assert(b =~= seq![b[0]] + b.skip(1));
    }
}

/// Different candidate sets, or the same set at different stages, have
/// different messages.
pub proof fn candidate_sets_are_told_apart(
    stage: Seq<char>,
    members: Seq<MemberView>,
    other_stage: Seq<char>,
    others: Seq<MemberView>,
)
    requires
        frames_fit(seq![stage, CANDIDATE_SET_VERSION@] + member_parts(members)),
        frames_fit(seq![other_stage, CANDIDATE_SET_VERSION@] + member_parts(others)),
        set_message(stage, members) == set_message(other_stage, others),
    ensures
        stage == other_stage,
        members == others,
{
    let a = seq![stage, CANDIDATE_SET_VERSION@] + member_parts(members);
    let b = seq![other_stage, CANDIDATE_SET_VERSION@] + member_parts(others);
    framing_is_injective(a, b);
    assert(a[0] == b[0]);
    assert(a.skip(2) =~= member_parts(members));
    assert(b.skip(2) =~= member_parts(others));
    parts_determine_members(members, others);
}

proof fn parts_determine_members(a: Seq<MemberView>, b: Seq<MemberView>)
    requires
        member_parts(a) == member_parts(b),
    ensures
        a == b,
    decreases a.len(),
{
    if a.len() == 0 || b.len() == 0 {
        if a.len() > 0 {
            assert(member_parts(a).len() >= 2);
        }
        if b.len() > 0 {
            assert(member_parts(b).len() >= 2);
        }
        assert(a =~= b);
    } else {
        let parts = member_parts(a);
        assert(parts[0] == a[0].id && parts[1] == a[0].content_hash);
        assert(parts[0] == b[0].id && parts[1] == b[0].content_hash);
        assert(parts.skip(2) =~= member_parts(a.skip(1)));
        assert(parts.skip(2) =~= member_parts(b.skip(1)));
        parts_determine_members(a.skip(1), b.skip(1));
        assert(a =~= seq![a[0]] + a.skip(1));
        assert(b =~= seq![b[0]] + b.skip(1));
    }
}

/// The order in which members come does not matter: one multiset has one set
/// order.
pub proof fn set_order_is_canonical(a: Seq<MemberView>, b: Seq<MemberView>)
    requires
        in_set_order(a),
        in_set_order(b),
        a.to_multiset() == b.to_multiset(),
    ensures
        a == b,
    decreases a.len(),
{
    a.to_multiset_ensures();
    b.to_multiset_ensures();
    assert(a.len() == b.len());
    if a.len() == 0 {
        assert(a =~= b);
    } else {
        let n = a.len() - 1;
        assert(a.to_multiset().count(b[n]) > 0) by {
            assert(b.contains(b[n]));
        }
        assert(b.to_multiset().count(a[n]) > 0) by {
            assert(a.contains(a[n]));
        }
        let i = choose|i: int| 0 <= i < a.len() && a[i] == b[n];
        let j = choose|j: int| 0 <= j < b.len() && b[j] == a[n];
        set_order_is_total(a[n], b[n]);
        if i < n {
            assert(stands_up_to(a[i], a[n]));
        }
        if j < n {
            assert(stands_up_to(b[j], b[n]));
        }
        assert(a[n] == b[n]);
        let x = a.remove(n);
        let y = b.remove(n);
        assert(x.to_multiset() == a.to_multiset().remove(a[n]));
        assert(y.to_multiset() == b.to_multiset().remove(b[n]));
        assert forall|p: int, q: int| 0 <= p < q < x.len() implies #[trigger] stands_up_to(
            x[p],
            x[q],
        ) by {
            assert(stands_up_to(a[p], a[q]));
        }
        assert forall|p: int, q: int| 0 <= p < q < y.len() implies #[trigger] stands_up_to(
            y[p],
            y[q],
        ) by {
            assert(stands_up_to(b[p], b[q]));
        }
        set_order_is_canonical(x, y);
        assert(a =~= x.push(a[n]));
        assert(b =~= y.push(b[n]));
    }
}

} // verus!
