//! The tuple space: a set of tuples, kept in binary order, with insertion,
//! lookup by template and removal by template.
//!
//! Among several tuples that match a template, the one whose binary form
//! comes first in the binary order is found.

use crate::tuple::order::{
    bytes_less, compare_bytes, lemma_less_irreflexive, lemma_less_total, lemma_less_transitive,
    BinaryOrder,
};
use crate::tuple::tuple::{Tuple, TupleView};
use crate::tuple::wire::lemma_encode_injective;
use crate::util::Serializable;
use vstd::prelude::*;

verus! {

/// Whether some member of `s` matches `template`.
pub open spec fn has_match(s: Set<TupleView>, template: TupleView) -> bool {
    exists|m: TupleView| s.contains(m) && #[trigger] m.matches(template)
}

/// Whether `m` is the member of `s` that matches `template` and comes first,
/// in the binary order, among the members that do.
pub open spec fn is_least_match(s: Set<TupleView>, template: TupleView, m: TupleView) -> bool {
    &&& s.contains(m)
    &&& m.matches(template)
    &&& forall|o: TupleView|
        s.contains(o) && #[trigger] o.matches(template) ==> !bytes_less(o.encode(), m.encode())
}

/// Whether `s` can be what a tuple space holds: finitely many tuples, each
/// well formed.
pub open spec fn valid_contents(s: Set<TupleView>) -> bool {
    &&& s.finite()
    &&& forall|t: TupleView| s.contains(t) ==> #[trigger] t.wf()
}

/// What a lookup by `template` finds in `s`: the least match, or `None`
/// where there is none.
pub open spec fn least_match(s: Set<TupleView>, template: TupleView) -> Option<TupleView> {
    if exists|m: TupleView| is_least_match(s, template, m) {
        Some(choose|m: TupleView| is_least_match(s, template, m))
    } else {
        None
    }
}

/// What is left of `s` when the least match of `template` is taken out.
pub open spec fn after_take(s: Set<TupleView>, template: TupleView) -> Set<TupleView> {
    match least_match(s, template) {
        Some(m) => s.remove(m),
        None => s,
    }
}

/// The view of a tuple that may be there.
pub open spec fn found_view(r: Option<Tuple>) -> Option<TupleView> {
    match r {
        Some(t) => Some(t@),
        None => None,
    }
}

/// A stored tuple beside its binary form, by which it is ordered.
#[derive(Debug)]
struct TupleTrieNode {
    key: Vec<u8>,
    value: Tuple,
}

impl TupleTrieNode {
    fn new(value: Tuple) -> (n: TupleTrieNode)
        ensures
            n.value == value,
            n.key@ == value@.encode(),
    {
        let key = value.serialize();
        Self { key, value }
    }
}

/// Whether the node holds a well-formed tuple beside its own binary form.
spec fn node_ok(n: TupleTrieNode) -> bool {
    n.value@.wf() && n.key@ == n.value@.encode()
}

/// Whether the nodes stand in strictly ascending binary order.
spec fn sorted_nodes(ns: Seq<TupleTrieNode>) -> bool {
    &&& forall|i: int| 0 <= i < ns.len() ==> node_ok(#[trigger] ns[i])
    &&& forall|i: int, j: int|
        0 <= i < j < ns.len() ==> bytes_less((#[trigger] ns[i]).key@, (#[trigger] ns[j]).key@)
}

/// The tuples that the nodes hold, in their order.
spec fn node_tuples(ns: Seq<TupleTrieNode>) -> Seq<TupleView> {
    Seq::new(ns.len(), |i: int| ns[i].value@)
}

/// Nodes in strictly ascending order hold pairwise different tuples.
proof fn lemma_nodes_distinct(ns: Seq<TupleTrieNode>)
    requires
        sorted_nodes(ns),
    ensures
        node_tuples(ns).no_duplicates(),
        forall|i: int, j: int|
            0 <= i < ns.len() && 0 <= j < ns.len() && i != j ==> (#[trigger] ns[i]).value@ != (
            #[trigger] ns[j]).value@,
{
    assert forall|i: int, j: int| 0 <= i < ns.len() && 0 <= j < ns.len() && i != j implies (
    #[trigger] ns[i]).value@ != (#[trigger] ns[j]).value@ by {
        assert(node_ok(ns[i]) && node_ok(ns[j]));
        lemma_less_irreflexive(ns[i].key@);
        if i < j {
            assert(bytes_less(ns[i].key@, ns[j].key@));
        } else {
            assert(bytes_less(ns[j].key@, ns[i].key@));
        }
    }
    let ts = node_tuples(ns);
    assert forall|i: int, j: int| 0 <= i < ts.len() && 0 <= j < ts.len() && i != j implies ts[i]
        != ts[j] by {
        assert(ns[i].value@ != ns[j].value@);
    }
}

/// A node put where it belongs keeps the order, and adds its tuple to the
/// tuples held, which did not hold it.
proof fn lemma_insert_node(before: Seq<TupleTrieNode>, at: int, node: TupleTrieNode)
    requires
        sorted_nodes(before),
        node_ok(node),
        0 <= at <= before.len(),
        forall|k: int| 0 <= k < at ==> bytes_less((#[trigger] before[k]).key@, node.key@),
        forall|k: int|
            at <= k < before.len() ==> bytes_less(node.key@, (#[trigger] before[k]).key@),
    ensures
        sorted_nodes(before.insert(at, node)),
        !node_tuples(before).to_set().contains(node.value@),
        node_tuples(before.insert(at, node)).to_set() == node_tuples(before).to_set().insert(
            node.value@,
        ),
{
    let after = before.insert(at, node);
    let t = node.value@;
    assert forall|i: int| 0 <= i < after.len() implies node_ok(#[trigger] after[i]) by {
        if i < at {
            assert(after[i] == before[i]);
        } else if i > at {
            assert(after[i] == before[i - 1]);
        }
    }
    assert forall|i: int, j: int| 0 <= i < j < after.len() implies bytes_less(
        (#[trigger] after[i]).key@,
        (#[trigger] after[j]).key@,
    ) by {
        let bi = if i < at {
            i
        } else {
            i - 1
        };
        let bj = if j < at {
            j
        } else {
            j - 1
        };
        if i != at {
            assert(after[i] == before[bi]);
        }
        if j != at {
            assert(after[j] == before[bj]);
        }
        if i != at && j != at {
            assert(bytes_less(before[bi].key@, before[bj].key@));
        }
    }
    let ts0 = node_tuples(before);
    let ts1 = node_tuples(after);
    assert forall|x: TupleView| ts0.to_set().contains(x) implies x != t by {
        let k = choose|k: int| 0 <= k < ts0.len() && ts0[k] == x;
        assert(node_ok(before[k]));
        lemma_less_irreflexive(node.key@);
        if k < at {
            assert(bytes_less(before[k].key@, node.key@));
        } else {
            assert(bytes_less(node.key@, before[k].key@));
        }
    }
    assert forall|x: TupleView| ts1.to_set().contains(x) <==> ts0.to_set().insert(t).contains(
        x,
    ) by {
        if ts1.to_set().contains(x) {
            let i = choose|i: int| 0 <= i < ts1.len() && ts1[i] == x;
            if i < at {
                assert(ts0[i] == x);
            } else if i > at {
                assert(ts0[i - 1] == x);
            }
        }
        if ts0.to_set().contains(x) {
            let i = choose|i: int| 0 <= i < ts0.len() && ts0[i] == x;
            if i < at {
                assert(ts1[i] == x);
            } else {
                assert(ts1[i + 1] == x);
            }
        }
        if x == t {
            assert(ts1[at] == x);
        }
    }
    assert(ts1.to_set() =~= ts0.to_set().insert(t));
}

/// A node taken out leaves the order as it is, and takes its tuple from
/// the tuples held.
proof fn lemma_remove_node(before: Seq<TupleTrieNode>, at: int)
    requires
        sorted_nodes(before),
        0 <= at < before.len(),
    ensures
        sorted_nodes(before.remove(at)),
        node_tuples(before.remove(at)).to_set() == node_tuples(before).to_set().remove(
            before[at].value@,
        ),
{
    let after = before.remove(at);
    let t = before[at].value@;
    lemma_nodes_distinct(before);
    assert forall|k: int| 0 <= k < after.len() implies node_ok(#[trigger] after[k]) by {
        if k < at {
            assert(after[k] == before[k]);
        } else {
            assert(after[k] == before[k + 1]);
        }
    }
    assert forall|a: int, b: int| 0 <= a < b < after.len() implies bytes_less(
        (#[trigger] after[a]).key@,
        (#[trigger] after[b]).key@,
    ) by {
        let ba = if a < at {
            a
        } else {
            a + 1
        };
        let bb = if b < at {
            b
        } else {
            b + 1
        };
        assert(after[a] == before[ba] && after[b] == before[bb]);
        assert(bytes_less(before[ba].key@, before[bb].key@));
    }
    let ts0 = node_tuples(before);
    let ts1 = node_tuples(after);
    assert forall|x: TupleView| ts1.to_set().contains(x) <==> ts0.to_set().remove(t).contains(
        x,
    ) by {
        if ts1.to_set().contains(x) {
            let k = choose|k: int| 0 <= k < ts1.len() && ts1[k] == x;
            if k < at {
                assert(ts0[k] == x);
                assert(before[k].value@ != before[at].value@);
            } else {
                assert(ts0[k + 1] == x);
                assert(before[k + 1].value@ != before[at].value@);
            }
        }
        if ts0.to_set().contains(x) && x != t {
            let k = choose|k: int| 0 <= k < ts0.len() && ts0[k] == x;
            if k < at {
                assert(ts1[k] == x);
            } else {
                assert(ts1[k - 1] == x);
            }
        }
    }
    assert(ts1.to_set() =~= ts0.to_set().remove(t));
}

/// The ordered index of the tuple space.
#[derive(Debug)]
pub struct TupleTrie {
    nodes: Vec<TupleTrieNode>,
}

impl TupleTrie {
    #[verifier::type_invariant]
    spec fn inv(&self) -> bool {
        sorted_nodes(self.nodes@)
    }

    /// The tuples that the index holds.
    pub closed spec fn contents(&self) -> Set<TupleView> {
        node_tuples(self.nodes@).to_set()
    }

    /// An index that holds nothing.
    pub fn new() -> (t: TupleTrie)
        ensures
            t.contents() == Set::<TupleView>::empty(),
    {
        let t = Self { nodes: Vec::new() };
        assert(t.contents() =~= Set::<TupleView>::empty());
        t
    }

    /// The number of tuples held.
    pub fn size(&self) -> (n: usize)
        ensures
            n == self.contents().len(),
            valid_contents(self.contents()),
    {
        proof {
            use_type_invariant(self);
            self.lemma_contents();
        }
        self.nodes.len()
    }

    /// What the type's invariant says of the contents.
    proof fn lemma_contents(&self)
        requires
            sorted_nodes(self.nodes@),
        ensures
            valid_contents(self.contents()),
            self.contents().len() == self.nodes@.len(),
            forall|i: int|
                0 <= i < self.nodes@.len() ==> self.contents().contains(
                    (#[trigger] self.nodes@[i]).value@,
                ),
            forall|t: TupleView|
                self.contents().contains(t) ==> exists|i: int|
                    0 <= i < self.nodes@.len() && (#[trigger] self.nodes@[i]).value@ == t,
    {
        let ns = self.nodes@;
        let ts = node_tuples(ns);
        lemma_nodes_distinct(ns);
        ts.unique_seq_to_set();
        vstd::seq_lib::seq_to_set_is_finite(ts);
        assert forall|t: TupleView| self.contents().contains(t) implies (exists|i: int|
            0 <= i < ns.len() && (#[trigger] ns[i]).value@ == t) && t.wf() by {
            let i = choose|i: int| 0 <= i < ts.len() && ts[i] == t;
            assert(ns[i].value@ == t);
            assert(node_ok(ns[i]));
        }
        assert forall|i: int| 0 <= i < ns.len() implies self.contents().contains(
            (#[trigger] ns[i]).value@,
        ) by {
            assert(ts[i] == ns[i].value@);
        }
    }

    /// Where `key` stands among the nodes: the position of the first node
    /// that does not come before it, and whether that node holds `key`.
    fn locate(&self, key: &[u8]) -> (r: (usize, bool))
        ensures
            r.0 <= self.nodes@.len(),
            forall|k: int| 0 <= k < r.0 ==> bytes_less((#[trigger] self.nodes@[k]).key@, key@),
            forall|k: int|
                r.0 <= k < self.nodes@.len() ==> !bytes_less(
                    (#[trigger] self.nodes@[k]).key@,
                    key@,
                ),
            r.1 == (r.0 < self.nodes@.len() && self.nodes@[r.0 as int].key@ == key@),
    {
        proof {
            use_type_invariant(self);
        }
        let mut lo: usize = 0;
        let mut hi: usize = self.nodes.len();
        while lo < hi
            invariant
                lo <= hi <= self.nodes@.len(),
                sorted_nodes(self.nodes@),
                forall|k: int| 0 <= k < lo ==> bytes_less((#[trigger] self.nodes@[k]).key@, key@),
                forall|k: int|
                    hi <= k < self.nodes@.len() ==> !bytes_less(
                        (#[trigger] self.nodes@[k]).key@,
                        key@,
                    ),
            decreases hi - lo,
        {
            let mid: usize = lo + (hi - lo) / 2;
            let ghost pivot = self.nodes@[mid as int].key@;
            match compare_bytes(self.nodes[mid].key.as_slice(), key) {
                BinaryOrder::Before => {
                    assert forall|k: int| 0 <= k < mid + 1 implies bytes_less(
                        (#[trigger] self.nodes@[k]).key@,
                        key@,
                    ) by {
                        if k < mid {
                            assert(bytes_less(self.nodes@[k].key@, pivot));
                            lemma_less_transitive(self.nodes@[k].key@, pivot, key@);
                        }
                    }
                    lo = mid + 1;
                },
                _ => {
                    assert forall|k: int| mid <= k < self.nodes@.len() implies !bytes_less(
                        (#[trigger] self.nodes@[k]).key@,
                        key@,
                    ) by {
                        if mid < k && bytes_less(self.nodes@[k].key@, key@) {
                            assert(bytes_less(pivot, self.nodes@[k].key@));
                            lemma_less_transitive(pivot, self.nodes@[k].key@, key@);
                        }
                    }
                    hi = mid;
                },
            }
        }
        let found = lo < self.nodes.len() && compare_bytes(self.nodes[lo].key.as_slice(), key)
            == BinaryOrder::Same;
        proof {
            if lo < self.nodes@.len() {
                lemma_less_total(self.nodes@[lo as int].key@, key@);
            }
        }
        (lo, found)
    }
}

impl TupleTrie {
    /// Puts `tuple` at its place in the order, unless a tuple with the same
    /// binary form is there already. Says whether the tuple went in.
    fn add_internal(&mut self, tuple: Tuple) -> (added: bool)
        requires
            tuple@.wf(),
        ensures
            final(self).contents() == old(self).contents().insert(tuple@),
            added == !old(self).contents().contains(tuple@),
            valid_contents(final(self).contents()),
    {
        proof {
            use_type_invariant(&*self);
            self.lemma_contents();
        }
        let node = TupleTrieNode::new(tuple);
        let (at, found) = self.locate(node.key.as_slice());
        if found {
            proof {
                assert(node_ok(self.nodes@[at as int]));
                lemma_encode_injective(self.nodes@[at as int].value@, tuple@);
                assert(self.contents().insert(tuple@) =~= self.contents());
            }
            false
        } else {
            proof {
                assert forall|k: int| at <= k < self.nodes@.len() implies bytes_less(
                    node.key@,
                    (#[trigger] self.nodes@[k]).key@,
                ) by {
                    lemma_less_total(self.nodes@[k].key@, node.key@);
                    if k > at {
                        assert(bytes_less(self.nodes@[at as int].key@, self.nodes@[k].key@));
                        lemma_less_irreflexive(self.nodes@[k].key@);
                    }
                }
                lemma_insert_node(self.nodes@, at as int, node);
            }
            let mut nodes: Vec<TupleTrieNode> = Vec::new();
            std::mem::swap(&mut nodes, &mut self.nodes);
            nodes.insert(at, node);
            self.nodes = nodes;
            proof {
                self.lemma_contents();
            }
            true
        }
    }

    /// Adds `tuple`, unless the index holds it already.
    pub fn add(&mut self, tuple: Tuple)
        requires
            tuple@.wf(),
        ensures
            final(self).contents() == old(self).contents().insert(tuple@),
            valid_contents(final(self).contents()),
    {
        let _ = self.add_internal(tuple);
    }

    /// The position of the first node, in the binary order, whose tuple
    /// matches `template`.
    fn first_match(&self, template: &Tuple) -> (r: Option<usize>)
        ensures
            valid_contents(self.contents()),
            match r {
                Some(i) => i < self.nodes@.len() && is_least_match(
                    self.contents(),
                    template@,
                    self.nodes@[i as int].value@,
                ),
                None => !has_match(self.contents(), template@),
            },
    {
        proof {
            use_type_invariant(self);
            self.lemma_contents();
        }
        let mut i: usize = 0;
        while i < self.nodes.len()
            invariant
                i <= self.nodes@.len(),
                sorted_nodes(self.nodes@),
                forall|k: int|
                    0 <= k < i ==> !(#[trigger] self.nodes@[k]).value@.matches(template@),
            decreases self.nodes@.len() - i,
        {
            if self.nodes[i].value.matches(template) {
                proof {
                    let m = self.nodes@[i as int];
                    self.lemma_contents();
                    assert forall|o: TupleView|
                        self.contents().contains(o) && #[trigger] o.matches(
                            template@,
                        ) implies !bytes_less(o.encode(), m.value@.encode()) by {
                        let j = choose|j: int|
                            0 <= j < self.nodes@.len() && (#[trigger] self.nodes@[j]).value@ == o;
                        assert(node_ok(self.nodes@[j]) && node_ok(m));
                        lemma_less_total(self.nodes@[j].key@, m.key@);
                        if j > i {
                            assert(bytes_less(m.key@, self.nodes@[j].key@));
                        }
                    }
                }
                return Some(i);
            }
            i += 1;
        }
        proof {
            self.lemma_contents();
            if has_match(self.contents(), template@) {
                let m = choose|m: TupleView|
                    self.contents().contains(m) && #[trigger] m.matches(template@);
                let j = choose|j: int|
                    0 <= j < self.nodes@.len() && (#[trigger] self.nodes@[j]).value@ == m;
                assert(!self.nodes@[j].value@.matches(template@));
            }
        }
        None
    }

    /// A copy of the first tuple, in the binary order, that matches
    /// `tuple_template`; `None` where no tuple matches.
    pub fn find(&self, tuple_template: &Tuple) -> (r: Option<Tuple>)
        ensures
            valid_contents(self.contents()),
            found_view(r) == least_match(self.contents(), tuple_template@),
    {
        match self.first_match(tuple_template) {
            Some(i) => {
                proof {
                    lemma_least_match_is(
                        self.contents(),
                        tuple_template@,
                        self.nodes@[i as int].value@,
                    );
                }
                Some(self.nodes[i].value.duplicate())
            },
            None => None,
        }
    }

    /// Takes out the first tuple, in the binary order, that matches
    /// `tuple_template`, and hands it over; `None`, and nothing changed,
    /// where no tuple matches.
    pub fn withdraw(&mut self, tuple_template: &Tuple) -> (r: Option<Tuple>)
        ensures
            valid_contents(final(self).contents()),
            found_view(r) == least_match(old(self).contents(), tuple_template@),
            final(self).contents() == after_take(old(self).contents(), tuple_template@),
    {
        proof {
            use_type_invariant(&*self);
        }
        match self.first_match(tuple_template) {
            Some(i) => {
                proof {
                    lemma_remove_node(self.nodes@, i as int);
                    lemma_least_match_is(
                        self.contents(),
                        tuple_template@,
                        self.nodes@[i as int].value@,
                    );
                }
                let mut nodes: Vec<TupleTrieNode> = Vec::new();
                std::mem::swap(&mut nodes, &mut self.nodes);
                let node = nodes.remove(i);
                self.nodes = nodes;
                proof {
                    self.lemma_contents();
                }
                Some(node.value)
            },
            None => None,
        }
    }

    /// Takes out the first tuple, in the binary order, that matches
    /// `tuple_template`, if any does.
    pub fn remove(&mut self, tuple_template: &Tuple)
        ensures
            valid_contents(final(self).contents()),
            final(self).contents() == after_take(old(self).contents(), tuple_template@),
    {
        let _ = self.withdraw(tuple_template);
    }
}

impl Default for TupleTrie {
    fn default() -> (t: TupleTrie)
        ensures
            t.contents() == Set::<TupleView>::empty(),
    {
        TupleTrie::new()
    }
}

/// The tuple space.
#[derive(Debug)]
pub struct TupleSpace {
    space: TupleTrie,
}

impl TupleSpace {
    /// The tuples that the space holds.
    pub closed spec fn contents(&self) -> Set<TupleView> {
        self.space.contents()
    }

    /// A space that holds nothing.
    pub fn new() -> (ts: TupleSpace)
        ensures
            ts.contents() == Set::<TupleView>::empty(),
    {
        Self { space: TupleTrie::new() }
    }

    /// Puts `tuple` into the space. A tuple that the space holds already is
    /// not held twice.
    pub fn add(&mut self, tuple: Tuple)
        requires
            tuple@.wf(),
        ensures
            final(self).contents() == old(self).contents().insert(tuple@),
            valid_contents(final(self).contents()),
    {
        self.space.add(tuple)
    }

    /// A copy of the tuple that matches `tuple_template` and comes first in
    /// the binary order among those that do; `None` where none matches. The
    /// space stays as it is.
    pub fn read(&self, tuple_template: &Tuple) -> (r: Option<Tuple>)
        ensures
            valid_contents(self.contents()),
            found_view(r) == least_match(self.contents(), tuple_template@),
    {
        self.space.find(tuple_template)
    }

    /// Takes the tuple that matches `tuple_template` and comes first in the
    /// binary order among those that do out of the space, and hands it
    /// over; `None`, and the space as it was, where none matches.
    pub fn take(&mut self, tuple_template: &Tuple) -> (r: Option<Tuple>)
        ensures
            valid_contents(final(self).contents()),
            found_view(r) == least_match(old(self).contents(), tuple_template@),
            final(self).contents() == after_take(old(self).contents(), tuple_template@),
    {
        self.space.withdraw(tuple_template)
    }

    /// Takes the tuple that [`TupleSpace::take`] would take out of the
    /// space, and drops it.
    pub fn remove(&mut self, tuple_template: &Tuple)
        ensures
            valid_contents(final(self).contents()),
            final(self).contents() == after_take(old(self).contents(), tuple_template@),
    {
        self.space.remove(tuple_template)
    }

    /// The number of tuples in the space.
    pub fn size(&self) -> (n: usize)
        ensures
            n == self.contents().len(),
            valid_contents(self.contents()),
    {
        self.space.size()
    }
}

impl Default for TupleSpace {
    fn default() -> (ts: TupleSpace)
        ensures
            ts.contents() == Set::<TupleView>::empty(),
    {
        TupleSpace::new()
    }
}

/// One operation on a tuple space: adding a tuple, or taking by a template.
pub enum SpaceOp {
    Add(TupleView),
    Take(TupleView),
}

/// What `op` makes of a space that holds `s`.
pub open spec fn apply(s: Set<TupleView>, op: SpaceOp) -> Set<TupleView> {
    match op {
        SpaceOp::Add(t) => s.insert(t),
        SpaceOp::Take(template) => after_take(s, template),
    }
}

/// What the operations `ops`, one after the other, make of a space that
/// holds `s`.
pub open spec fn apply_all(s: Set<TupleView>, ops: Seq<SpaceOp>) -> Set<TupleView>
    decreases ops.len(),
{
    if ops.len() == 0 {
        s
    } else {
        apply(apply_all(s, ops.drop_last()), ops.last())
    }
}

/// Whether `op` adds no tuple that is not well formed.
pub open spec fn adds_valid_tuple(op: SpaceOp) -> bool {
    match op {
        SpaceOp::Add(t) => t.wf(),
        SpaceOp::Take(_) => true,
    }
}

/// Whether every tuple that `ops` adds is well formed.
pub open spec fn adds_valid(ops: Seq<SpaceOp>) -> bool {
    forall|i: int| 0 <= i < ops.len() ==> adds_valid_tuple(#[trigger] ops[i])
}

/// Among well-formed tuples the least match is one tuple.
pub proof fn lemma_least_match_unique(
    s: Set<TupleView>,
    template: TupleView,
    a: TupleView,
    b: TupleView,
)
    requires
        valid_contents(s),
        is_least_match(s, template, a),
        is_least_match(s, template, b),
    ensures
        a == b,
{
    lemma_less_total(a.encode(), b.encode());
    assert(a.wf() && b.wf());
    lemma_encode_injective(a, b);
}

/// A tuple that is the least match is what the lookup finds.
pub proof fn lemma_least_match_is(s: Set<TupleView>, template: TupleView, m: TupleView)
    requires
        valid_contents(s),
        is_least_match(s, template, m),
    ensures
        least_match(s, template) == Some(m),
{
    let found = choose|x: TupleView| is_least_match(s, template, x);
    lemma_least_match_unique(s, template, found, m);
}

/// When several tuples match, the lookup finds the one that comes first
/// in the binary order; it finds nothing only where nothing matches.
pub proof fn lemma_least_match(s: Set<TupleView>, template: TupleView)
    requires
        valid_contents(s),
    ensures
        match least_match(s, template) {
            Some(m) => is_least_match(s, template, m),
            None => !has_match(s, template),
        },
    decreases s.len(),
{
    if has_match(s, template) && least_match(s, template) is None {
        let x = choose|x: TupleView| s.contains(x) && #[trigger] x.matches(template);
        let rest = s.remove(x);
        assert(valid_contents(rest));
        lemma_least_match(rest, template);
        match least_match(rest, template) {
            Some(m) => {
                lemma_less_total(x.encode(), m.encode());
                if bytes_less(x.encode(), m.encode()) {
                    assert forall|o: TupleView|
                        s.contains(o) && #[trigger] o.matches(template) implies !bytes_less(
                        o.encode(),
                        x.encode(),
                    ) by {
                        if o != x {
                            assert(rest.contains(o));
                            lemma_less_total(o.encode(), x.encode());
                            if bytes_less(o.encode(), x.encode()) {
                                lemma_less_transitive(o.encode(), x.encode(), m.encode());
                            }
                        } else {
                            lemma_less_irreflexive(x.encode());
                        }
                    }
                    assert(is_least_match(s, template, x));
                } else {
                    assert forall|o: TupleView|
                        s.contains(o) && #[trigger] o.matches(template) implies !bytes_less(
                        o.encode(),
                        m.encode(),
                    ) by {
                        if o != x {
                            assert(rest.contains(o));
                        }
                    }
                    assert(is_least_match(s, template, m));
                }
            },
            None => {
                assert forall|o: TupleView|
                    s.contains(o) && #[trigger] o.matches(template) implies !bytes_less(
                    o.encode(),
                    x.encode(),
                ) by {
                    if o != x {
                        assert(rest.contains(o));
                    } else {
                        lemma_less_irreflexive(x.encode());
                    }
                }
                assert(is_least_match(s, template, x));
            },
        }
    }
}

/// Every operation leaves a space that holds finitely many tuples, each
/// well formed, as such a space.
pub proof fn lemma_apply_all_valid(s: Set<TupleView>, ops: Seq<SpaceOp>)
    requires
        valid_contents(s),
        adds_valid(ops),
    ensures
        valid_contents(apply_all(s, ops)),
    decreases ops.len(),
{
    if ops.len() > 0 {
        assert forall|i: int| 0 <= i < ops.drop_last().len() implies adds_valid_tuple(
            #[trigger] ops.drop_last()[i],
        ) by {
            assert(ops.drop_last()[i] == ops[i]);
        }
        lemma_apply_all_valid(s, ops.drop_last());
        let last = ops[ops.len() - 1];
        assert(ops.last() == last);
    }
}

/// Adding a tuple a second time changes nothing: the space holds it once.
pub proof fn lemma_add_twice(s: Set<TupleView>, t: TupleView)
    requires
        s.finite(),
    ensures
        apply(apply(s, SpaceOp::Add(t)), SpaceOp::Add(t)) == apply(s, SpaceOp::Add(t)),
        apply(apply(s, SpaceOp::Add(t)), SpaceOp::Add(t)).len() == apply(s, SpaceOp::Add(t)).len(),
        apply(s, SpaceOp::Add(t)).contains(t),
{
    assert(s.insert(t).insert(t) =~= s.insert(t));
}

/// What a space does not hold it does not hold after operations that do
/// not add it.
pub proof fn lemma_stays_absent(s: Set<TupleView>, ops: Seq<SpaceOp>, t: TupleView)
    requires
        !s.contains(t),
        forall|i: int| 0 <= i < ops.len() ==> #[trigger] ops[i] != SpaceOp::Add(t),
    ensures
        !apply_all(s, ops).contains(t),
    decreases ops.len(),
{
    if ops.len() > 0 {
        assert forall|i: int| 0 <= i < ops.drop_last().len() implies #[trigger] ops.drop_last()[i]
            != SpaceOp::Add(t) by {
            assert(ops.drop_last()[i] == ops[i]);
        }
        lemma_stays_absent(s, ops.drop_last(), t);
        let last = ops[ops.len() - 1];
        assert(last != SpaceOp::Add(t));
        match last {
            SpaceOp::Add(u) => {
                assert(u != t);
            },
            SpaceOp::Take(template) => {},
        }
    }
}

/// A tuple that was taken is not found again until it is added again:
/// after any operations that do not add it, whatever a template finds is
/// another tuple.
pub proof fn lemma_taken_is_not_found(
    s: Set<TupleView>,
    template: TupleView,
    taken: TupleView,
    ops: Seq<SpaceOp>,
    next_template: TupleView,
)
    requires
        valid_contents(s),
        least_match(s, template) == Some(taken),
        adds_valid(ops),
        forall|i: int| 0 <= i < ops.len() ==> #[trigger] ops[i] != SpaceOp::Add(taken),
    ensures
        least_match(apply_all(after_take(s, template), ops), next_template) != Some(taken),
{
    let left = after_take(s, template);
    assert(valid_contents(left));
    lemma_stays_absent(left, ops, taken);
    lemma_apply_all_valid(left, ops);
    lemma_least_match(apply_all(left, ops), next_template);
}

} // verus!
