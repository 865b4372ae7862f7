//! An association key must designate exactly one invocation and one result.
//! Consumed and ambiguous keys are kept, so that later events cannot
//! reinterpret an earlier success.
use crate::context::ToolStatus;
use crate::text::{same_text, texts};
use vstd::prelude::*;

verus! {

/// What is known of the invocation under a key.
#[derive(Clone, Copy, Debug, PartialEq, Eq, Structural)]
pub enum PendingCall {
    Waiting(usize),
    Completed(usize),
    Ambiguous,
}

/// A key with what is known under it.
#[derive(Debug)]
struct PendingEntry {
    key: Vec<String>,
    state: PendingCall,
}

/// The invocations of one pass over a log, by key. A key is a list of texts.
#[derive(Debug)]
pub struct PendingTable {
    entries: Vec<PendingEntry>,
}

fn same_key(a: &Vec<String>, b: &Vec<String>) -> (r: bool)
    ensures
        r == (texts(a@) == texts(b@)),
{
    if a.len() != b.len() {
        assert(texts(a@).len() != texts(b@).len());
        return false;
    }
    let mut i: usize = 0;
    while i < a.len()
        invariant
            i <= a@.len(),
            a@.len() == b@.len(),
            forall|j: int| 0 <= j < i ==> (#[trigger] texts(a@)[j]) == texts(b@)[j],
        decreases a@.len() - i,
    {
        assert(texts(a@)[i as int] == a@[i as int]@ && texts(b@)[i as int] == b@[i as int]@);
        if !same_text(a[i].as_str(), b[i].as_str()) {
            return false;
        }
        i += 1;
    }
    assert(texts(a@) =~= texts(b@));
    true
}

/// The keys and states of a table in order.
spec fn entry_keys(entries: Seq<PendingEntry>) -> Seq<Seq<Seq<char>>> {
    entries.map_values(|e: PendingEntry| texts(e.key@))
}

impl View for PendingTable {
    type V = Map<Seq<Seq<char>>, PendingCall>;

    closed spec fn view(&self) -> Map<Seq<Seq<char>>, PendingCall> {
        Map::new(
            |key: Seq<Seq<char>>| entry_keys(self.entries@).contains(key),
            |key: Seq<Seq<char>>| self.entries@[entry_keys(self.entries@).index_of(key)].state,
        )
    }
}

impl PendingTable {
    /// No key occurs twice.
    pub closed spec fn inv(self) -> bool {
        entry_keys(self.entries@).no_duplicates()
    }

    pub fn new() -> (table: PendingTable)
        ensures
            table.inv(),
            table@ == Map::<Seq<Seq<char>>, PendingCall>::empty(),
    {
        let table = PendingTable { entries: Vec::new() };
        assert(table@ =~= Map::empty());
        table
    }

    /// Where a key stands.
    fn find(&self, key: &Vec<String>) -> (r: Option<usize>)
        requires
            self.inv(),
        ensures
            match r {
                Some(i) => i < self.entries@.len() && entry_keys(self.entries@)[i as int] == texts(
                    key@,
                ) && self@.contains_key(texts(key@)) && self@[texts(key@)]
                    == self.entries@[i as int].state,
                None => !self@.contains_key(texts(key@)),
            },
    {
        let ghost keys = entry_keys(self.entries@);
        let mut i: usize = 0;
        while i < self.entries.len()
            invariant
                i <= self.entries@.len(),
                self.inv(),
                keys == entry_keys(self.entries@),
                forall|j: int| 0 <= j < i ==> (#[trigger] keys[j]) != texts(key@),
            decreases self.entries@.len() - i,
        {
            assert(keys[i as int] == texts(self.entries@[i as int].key@));
            if same_key(&self.entries[i].key, key) {
                assert(keys.contains(texts(key@)));
                assert(keys.index_of(texts(key@)) == i);
                return Some(i);
            }
            i += 1;
        }
        None
    }

    /// Change the state at a place.
    fn set(&mut self, i: usize, state: PendingCall)
        requires
            old(self).inv(),
            i < old(self).entries@.len(),
        ensures
            final(self).inv(),
            final(self)@ == old(self)@.insert(entry_keys(old(self).entries@)[i as int], state),
    {
        let ghost before = self.entries@;
        let ghost keys = entry_keys(before);
        self.entries[i].state = state;
        proof {
            let after = self.entries@;
            assert(entry_keys(after) =~= keys);
            assert(keys.index_of(keys[i as int]) == i);
            assert forall|key: Seq<Seq<char>>| #[trigger] keys.contains(key) implies after[keys.index_of(
                key,
            )].state == (if key == keys[i as int] {
                state
            } else {
                before[keys.index_of(key)].state
            }) by {
                assert(keys[keys.index_of(key)] == key);
            }
            assert(self@ =~= old(self)@.insert(keys[i as int], state));
        }
    }

    /// Add a key that the table does not hold.
    fn insert_new(&mut self, key: Vec<String>, state: PendingCall)
        requires
            old(self).inv(),
            !old(self)@.contains_key(texts(key@)),
        ensures
            final(self).inv(),
            final(self)@ == old(self)@.insert(texts(key@), state),
    {
        let ghost before = self.entries@;
        let ghost keys = entry_keys(before);
        let ghost own = texts(key@);
        self.entries.push(PendingEntry { key, state });
        proof {
            let after = entry_keys(self.entries@);
            assert(after =~= keys.push(own));
            assert(!keys.contains(own));
            assert forall|a: int, b: int|
                0 <= a < after.len() && 0 <= b < after.len() && a != b implies after[a]
                != after[b] by {
                if a < keys.len() {
                    assert(keys.contains(keys[a]));
                }
                if b < keys.len() {
                    assert(keys.contains(keys[b]));
                }
            }
            assert(after.last() == own);
            assert(after.index_of(own) == keys.len());
            assert forall|k: Seq<Seq<char>>| keys.contains(k) implies after.contains(k)
                && after.index_of(k) == keys.index_of(k) by {
                let j = keys.index_of(k);
                assert(after[j] == k);
                assert(after.contains(k));
            }
            assert forall|k: Seq<Seq<char>>| after.contains(k) implies k == own || keys.contains(
                k,
            ) by {
                let j = choose|j: int| 0 <= j < after.len() && after[j] == k;
                if j < keys.len() {
                    assert(keys[j] == k);
                }
            }
            assert(self@ =~= old(self)@.insert(own, state));
        }
    }
}

/// Every invocation that a table names is one of the first `n` calls.
pub open spec fn names_calls(table: Map<Seq<Seq<char>>, PendingCall>, n: nat) -> bool {
    forall|key: Seq<Seq<char>>| #[trigger]
        table.contains_key(key) ==> match table[key] {
            PendingCall::Waiting(i) => i < n,
            PendingCall::Completed(i) => i < n,
            PendingCall::Ambiguous => true,
        }
}

/// The state under a key once another invocation with it is registered.
pub open spec fn registered(
    state: Option<PendingCall>,
    index: usize,
    sequential: bool,
    completed: bool,
) -> PendingCall {
    let next = if completed {
        PendingCall::Completed(index)
    } else {
        PendingCall::Waiting(index)
    };
    match state {
        None => next,
        Some(PendingCall::Completed(_)) => if sequential {
            next
        } else {
            PendingCall::Ambiguous
        },
        Some(_) => PendingCall::Ambiguous,
    }
}

/// The outcomes once another invocation with this key state is registered.
pub open spec fn statuses_registered(
    state: Option<PendingCall>,
    index: usize,
    sequential: bool,
    statuses: Seq<ToolStatus>,
) -> Seq<ToolStatus> {
    match state {
        None => statuses,
        Some(PendingCall::Completed(previous)) => if sequential {
            statuses
        } else {
            statuses.update(previous as int, ToolStatus::Unknown).update(
                index as int,
                ToolStatus::Unknown,
            )
        },
        Some(PendingCall::Waiting(previous)) => statuses.update(
            previous as int,
            ToolStatus::Unknown,
        ).update(index as int, ToolStatus::Unknown),
        Some(PendingCall::Ambiguous) => statuses.update(index as int, ToolStatus::Unknown),
    }
}

pub open spec fn state_of(table: Map<Seq<Seq<char>>, PendingCall>, key: Seq<Seq<char>>) -> Option<
    PendingCall,
> {
    if table.contains_key(key) {
        Some(table[key])
    } else {
        None
    }
}

/// Register an invocation under a key. Matching without an identity is
/// sequential: a name may come back once its call is complete. Otherwise a
/// second invocation makes the key, and both outcomes, unknown.
pub fn register(
    pending: &mut PendingTable,
    key: Vec<String>,
    index: usize,
    statuses: &mut Vec<ToolStatus>,
    sequential: bool,
    completed: bool,
)
    requires
        old(pending).inv(),
        index < old(statuses)@.len(),
        names_calls(old(pending)@, old(statuses)@.len()),
    ensures
        final(pending).inv(),
        final(pending)@ == old(pending)@.insert(
            texts(key@),
            registered(state_of(old(pending)@, texts(key@)), index, sequential, completed),
        ),
        final(statuses)@ == statuses_registered(
            state_of(old(pending)@, texts(key@)),
            index,
            sequential,
            old(statuses)@,
        ),
        names_calls(final(pending)@, final(statuses)@.len()),
{
    let next: PendingCall = if completed {
        PendingCall::Completed(index)
    } else {
        PendingCall::Waiting(index)
    };
    match pending.find(&key) {
        None => {
            pending.insert_new(key, next);
        },
        Some(i) => {
            let state: PendingCall = pending.entries[i].state;
            match state {
                PendingCall::Completed(previous) => {
                    if sequential {
                        pending.set(i, next);
                    } else {
                        statuses.set(previous, ToolStatus::Unknown);
                        statuses.set(index, ToolStatus::Unknown);
                        pending.set(i, PendingCall::Ambiguous);
                    }
                },
                PendingCall::Waiting(previous) => {
                    statuses.set(previous, ToolStatus::Unknown);
                    statuses.set(index, ToolStatus::Unknown);
                    pending.set(i, PendingCall::Ambiguous);
                },
                PendingCall::Ambiguous => {
                    statuses.set(index, ToolStatus::Unknown);
                    pending.set(i, PendingCall::Ambiguous);
                },
            }
        },
    }
}

/// What a result finds under its key.
#[derive(Clone, Copy, Debug, PartialEq, Eq, Structural)]
pub struct TakenCall {
    pub invocation: Option<usize>,
    pub ambiguous: bool,
}

pub open spec fn taken(state: Option<PendingCall>) -> TakenCall {
    match state {
        None => TakenCall { invocation: None, ambiguous: false },
        Some(PendingCall::Waiting(index)) => TakenCall {
            invocation: Some(index),
            ambiguous: false,
        },
        Some(_) => TakenCall { invocation: None, ambiguous: true },
    }
}

/// The table once a result with this key was seen.
pub open spec fn table_taken(
    table: Map<Seq<Seq<char>>, PendingCall>,
    key: Seq<Seq<char>>,
) -> Map<Seq<Seq<char>>, PendingCall> {
    match state_of(table, key) {
        None => table,
        Some(PendingCall::Waiting(index)) => table.insert(key, PendingCall::Completed(index)),
        Some(_) => table.insert(key, PendingCall::Ambiguous),
    }
}

pub open spec fn statuses_taken(state: Option<PendingCall>, statuses: Seq<ToolStatus>) -> Seq<
    ToolStatus,
> {
    match state {
        Some(PendingCall::Completed(index)) => statuses.update(index as int, ToolStatus::Unknown),
        _ => statuses,
    }
}

/// Find the one invocation that a result belongs to, or tell that its key is
/// ambiguous. A second result cannot rewrite an outcome.
pub fn take(pending: &mut PendingTable, key: &Vec<String>, statuses: &mut Vec<ToolStatus>) -> (r:
    TakenCall)
    requires
        old(pending).inv(),
        names_calls(old(pending)@, old(statuses)@.len()),
    ensures
        final(pending).inv(),
        r == taken(state_of(old(pending)@, texts(key@))),
        final(pending)@ == table_taken(old(pending)@, texts(key@)),
        final(statuses)@ == statuses_taken(state_of(old(pending)@, texts(key@)), old(statuses)@),
        names_calls(final(pending)@, final(statuses)@.len()),
{
    match pending.find(key) {
        None => TakenCall { invocation: None, ambiguous: false },
        Some(i) => {
            let state: PendingCall = pending.entries[i].state;
            match state {
                PendingCall::Waiting(index) => {
                    pending.set(i, PendingCall::Completed(index));
                    TakenCall { invocation: Some(index), ambiguous: false }
                },
                PendingCall::Completed(index) => {
                    statuses.set(index, ToolStatus::Unknown);
                    pending.set(i, PendingCall::Ambiguous);
                    TakenCall { invocation: None, ambiguous: true }
                },
                PendingCall::Ambiguous => {
                    pending.set(i, PendingCall::Ambiguous);
                    TakenCall { invocation: None, ambiguous: true }
                },
            }
        },
    }
}

/// A key that was ambiguous once stays so, whatever is registered or taken
/// under any key.
pub proof fn ambiguity_is_final(
    table: Map<Seq<Seq<char>>, PendingCall>,
    key: Seq<Seq<char>>,
    other: Seq<Seq<char>>,
    index: usize,
    sequential: bool,
    completed: bool,
)
    requires
        state_of(table, key) == Some(PendingCall::Ambiguous),
    ensures
        state_of(
            table.insert(other, registered(state_of(table, other), index, sequential, completed)),
            key,
        ) == Some(PendingCall::Ambiguous),
        state_of(table_taken(table, other), key) == Some(PendingCall::Ambiguous),
        taken(state_of(table, key)) == (TakenCall { invocation: None, ambiguous: true }),
{
}

/// An invocation is handed to one result at most: a second result under its
/// key gets none, finds the key ambiguous and makes the outcome unknown.
pub proof fn one_result_per_invocation(
    table: Map<Seq<Seq<char>>, PendingCall>,
    key: Seq<Seq<char>>,
    index: usize,
    statuses: Seq<ToolStatus>,
)
    requires
        taken(state_of(table, key)).invocation == Some(index),
        index < statuses.len(),
    ensures
        ({
            let after = table_taken(table, key);
            &&& taken(state_of(after, key)) == (TakenCall { invocation: None, ambiguous: true })
            &&& statuses_taken(state_of(after, key), statuses)[index as int] == ToolStatus::Unknown
            &&& state_of(table_taken(after, key), key) == Some(PendingCall::Ambiguous)
        }),
{
}

/// Two invocations under one identity leave both outcomes unknown, and no
/// result finds either.
pub proof fn identities_are_not_shared(
    table: Map<Seq<Seq<char>>, PendingCall>,
    key: Seq<Seq<char>>,
    first: usize,
    second: usize,
    completed: bool,
    statuses: Seq<ToolStatus>,
)
    requires
        state_of(table, key) == Some(PendingCall::Waiting(first)) || state_of(table, key) == Some(
            PendingCall::Completed(first),
        ),
        first < statuses.len(),
        second < statuses.len(),
    ensures
        ({
            let state = registered(state_of(table, key), second, false, completed);
            let after = statuses_registered(state_of(table, key), second, false, statuses);
            &&& taken(Some(state)).invocation is None
            &&& after[first as int] == ToolStatus::Unknown
            &&& after[second as int] == ToolStatus::Unknown
        }),
{
}

} // verus!
