//! Ordered sets of names.
use crate::context::branch::laws::{bytes_reverse, bytes_transitive};
use crate::context::branch::lineage::{
    compare_text, same_standing_means_same_key, text_standing, EventKey, Standing,
};
use crate::text::{copy_text, copy_texts, texts};
use vstd::prelude::*;
use vstd::utf8::*;

verus! {

/// Each text before the next, by bytes.
pub open spec fn is_ascending(list: Seq<Seq<char>>) -> bool {
    forall|i: int, j: int|
        0 <= i < j < list.len() ==> #[trigger] text_standing(list[i], list[j]) is Before
}

/// A text stands with itself only.
pub proof fn same_standing(a: Seq<char>, b: Seq<char>)
    ensures
        text_standing(a, b) is Same <==> a == b,
        text_standing(a, b) is Before <==> text_standing(b, a) is After,
{
    same_standing_means_same_key(
        EventKey { agent: None, branch: None, event: a },
        EventKey { agent: None, branch: None, event: b },
    );
    bytes_reverse(encode_utf8(a), encode_utf8(b));
    bytes_reverse(encode_utf8(b), encode_utf8(a));
}

pub proof fn before_is_transitive(a: Seq<char>, b: Seq<char>, c: Seq<char>)
    requires
        text_standing(a, b) is Before,
        text_standing(b, c) is Before,
    ensures
        text_standing(a, c) is Before,
{
    bytes_transitive(encode_utf8(a), encode_utf8(b), encode_utf8(c));
}

/// A set of names in byte order.
#[derive(Debug)]
pub struct NameSet {
    items: Vec<String>,
}

impl View for NameSet {
    type V = Seq<Seq<char>>;

    /// The names in order.
    closed spec fn view(&self) -> Seq<Seq<char>> {
        texts(self.items@)
    }
}

impl NameSet {
    pub open spec fn inv(self) -> bool {
        is_ascending(self@)
    }

    pub fn new() -> (set: NameSet)
        ensures
            set.inv(),
            set@ == Seq::<Seq<char>>::empty(),
    {
        let set = NameSet { items: Vec::new() };
        assert(set@ =~= Seq::empty());
        set
    }

    /// Where a name stands, or would stand.
    fn place(&self, name: &str) -> (r: (usize, bool))
        requires
            self.inv(),
        ensures
            r.0 <= self@.len(),
            r.1 ==> r.0 < self@.len() && self@[r.0 as int] == name@,
            r.1 == self@.contains(name@),
            !r.1 ==> forall|j: int|
                0 <= j < self@.len() ==> if j < r.0 {
                    #[trigger] text_standing(self@[j], name@) is Before
                } else {
                    text_standing(name@, self@[j]) is Before
                },
    {
        let ghost list = self@;
        let mut i: usize = 0;
        while i < self.items.len()
            invariant
                i <= self.items@.len(),
                list == self@,
                list.len() == self.items@.len(),
                is_ascending(list),
                forall|j: int| 0 <= j < i ==> #[trigger] text_standing(list[j], name@) is Before,
            decreases self.items@.len() - i,
        {
            assert(list[i as int] == self.items@[i as int]@);
            proof {
                same_standing(list[i as int], name@);
                same_standing(name@, list[i as int]);
            }
            match compare_text(self.items[i].as_str(), name) {
                Standing::Before => {
                    i += 1;
                },
                Standing::Same => {
                    return (i, true);
                },
                Standing::After => {
                    proof {
                        assert forall|j: int| i <= j < list.len() implies text_standing(
                            name@,
                            #[trigger] list[j],
                        ) is Before by {
                            if j > i {
                                assert(text_standing(list[i as int], list[j]) is Before);
                                before_is_transitive(name@, list[i as int], list[j]);
                            }
                        }
                        absent_by_order(list, name@, i as int);
                    }
                    return (i, false);
                },
            }
        }
        proof {
            absent_by_order(list, name@, i as int);
        }
        (i, false)
    }

    pub fn contains(&self, name: &str) -> (r: bool)
        requires
            self.inv(),
        ensures
            r == self@.contains(name@),
    {
        self.place(name).1
    }

    /// Add a name; whether it is new.
    pub fn insert(&mut self, name: &str) -> (added: bool)
        requires
            old(self).inv(),
        ensures
            final(self).inv(),
            final(self)@.to_set() == old(self)@.to_set().insert(name@),
            added == !old(self)@.contains(name@),
            !added ==> final(self)@ == old(self)@,
    {
        let (at, found) = self.place(name);
        let ghost list = self@;
        if found {
            assert(list.to_set().insert(name@) =~= list.to_set());
            return false;
        }
        self.items.insert(at, copy_text(name));
        proof {
            let more = self@;
            assert(more =~= list.insert(at as int, name@));
            assert forall|i: int, j: int| 0 <= i < j < more.len() implies #[trigger] text_standing(
                more[i],
                more[j],
            ) is Before by {
                let a = if i < at {
                    i
                } else {
                    i - 1
                };
                let b = if j < at {
                    j
                } else {
                    j - 1
                };
                if i != at && j != at {
                    assert(text_standing(list[a], list[b]) is Before);
                } else if i == at {
                    assert(more[j] == list[b]);
                    assert(text_standing(name@, list[b]) is Before) by {
                        let _ = text_standing(list[b], name@);
                    }
                } else {
                    assert(text_standing(list[a], name@) is Before);
                }
            }
            assert forall|t: Seq<char>| more.to_set().contains(t) == list.to_set().insert(
                name@,
            ).contains(t) by {
                if more.contains(t) {
                    let k = choose|k: int| 0 <= k < more.len() && more[k] == t;
                    if k < at {
                        assert(list[k] == t);
                    } else if k > at {
                        assert(list[k - 1] == t);
                    }
                }
                if list.contains(t) {
                    let k = choose|k: int| 0 <= k < list.len() && list[k] == t;
                    if k < at {
                        assert(more[k] == t);
                    } else {
                        assert(more[k + 1] == t);
                    }
                }
                assert(more[at as int] == name@);
            }
            assert(more.to_set() =~= list.to_set().insert(name@));
        }
        true
    }

    pub fn len(&self) -> (n: usize)
        ensures
            n == self@.len(),
    {
        self.items.len()
    }

    pub fn is_empty(&self) -> (r: bool)
        ensures
            r == (self@.len() == 0),
    {
        self.items.len() == 0
    }

    /// The name at a place.
    pub fn at(&self, i: usize) -> (name: &str)
        requires
            i < self@.len(),
        ensures
            name@ == self@[i as int],
    {
        self.items[i].as_str()
    }

    /// The names in order.
    pub fn to_list(&self) -> (list: Vec<String>)
        ensures
            texts(list@) == self@,
    {
        copy_texts(&self.items)
    }
}

proof fn absent_by_order(list: Seq<Seq<char>>, name: Seq<char>, at: int)
    requires
        0 <= at <= list.len(),
        forall|j: int| 0 <= j < at ==> #[trigger] text_standing(list[j], name) is Before,
        forall|j: int| at <= j < list.len() ==> text_standing(name, #[trigger] list[j]) is Before,
    ensures
        !list.contains(name),
{
    if list.contains(name) {
        let k = choose|k: int| 0 <= k < list.len() && list[k] == name;
        same_standing(list[k], name);
        if k < at {
            assert(text_standing(list[k], name) is Before);
        } else {
            assert(text_standing(name, list[k]) is Before);
        }
    }
}

/// A set of names has one order: two ascending lists of the same names are the
/// same list.
pub proof fn order_is_canonical(a: Seq<Seq<char>>, b: Seq<Seq<char>>)
    requires
        is_ascending(a),
        is_ascending(b),
        a.to_set() == b.to_set(),
    ensures
        a == b,
    decreases a.len(),
{
    if a.len() == 0 {
        if b.len() > 0 {
            assert(b.to_set().contains(b[0]));
            assert(a.to_set().contains(b[0]));
        }
        assert(a =~= b);
    } else if b.len() == 0 {
        assert(a.to_set().contains(a[0]));
        assert(b.to_set().contains(a[0]));
    } else {
        last_is_greatest(a, b);
        last_is_greatest(b, a);
        same_standing(a.last(), b.last());
        let x = a.drop_last();
        let y = b.drop_last();
        assert forall|i: int, j: int| 0 <= i < j < x.len() implies #[trigger] text_standing(
            x[i],
            x[j],
        ) is Before by {
            assert(text_standing(a[i], a[j]) is Before);
        }
        assert forall|i: int, j: int| 0 <= i < j < y.len() implies #[trigger] text_standing(
            y[i],
            y[j],
        ) is Before by {
            assert(text_standing(b[i], b[j]) is Before);
        }
        without_last(a);
        without_last(b);
        assert(x.to_set() =~= y.to_set());
        order_is_canonical(x, y);
        assert(a =~= x.push(a.last()));
        assert(b =~= y.push(b.last()));
    }
}

proof fn last_is_greatest(a: Seq<Seq<char>>, b: Seq<Seq<char>>)
    requires
        a.len() > 0,
        b.len() > 0,
        is_ascending(a),
        is_ascending(b),
        a.to_set() == b.to_set(),
    ensures
        a.last() == b.last() || text_standing(b.last(), a.last()) is Before,
{
    assert(b.to_set().contains(b.last()));
    assert(a.to_set().contains(b.last()));
    let k = choose|k: int| 0 <= k < a.len() && a[k] == b.last();
    if k < a.len() - 1 {
        assert(text_standing(a[k], a[a.len() - 1]) is Before);
    }
}

proof fn without_last(a: Seq<Seq<char>>)
    requires
        a.len() > 0,
        is_ascending(a),
    ensures
        a.drop_last().to_set() == a.to_set().remove(a.last()),
{
    let x = a.drop_last();
    assert forall|t: Seq<char>| x.to_set().contains(t) == a.to_set().remove(a.last()).contains(
        t,
    ) by {
        if x.contains(t) {
            let k = choose|k: int| 0 <= k < x.len() && x[k] == t;
            assert(a[k] == t);
            assert(text_standing(a[k], a[a.len() - 1]) is Before);
            same_standing(a[k], a.last());
        }
        if a.contains(t) && t != a.last() {
            let k = choose|k: int| 0 <= k < a.len() && a[k] == t;
            assert(x[k] == t);
        }
    }
    assert(x.to_set() =~= a.to_set().remove(a.last()));
}

} // verus!
