//! A set of pane or plugin ids, held in a `BTreeSet`.
use std::collections::BTreeSet;
use vstd::prelude::*;

verus! {

broadcast use vstd::std_specs::btree::group_btree_axioms, vstd::laws_cmp::group_laws_cmp;

/// Each element is smaller than every later one.
pub open spec fn increasing(s: Seq<u32>) -> bool {
    forall|i: int, j: int| 0 <= i < j < s.len() ==> s[i] < s[j]
}

/// A finite set of ids; it hands its members out in increasing order.
pub struct IdSet {
    ids: BTreeSet<u32>,
}

impl View for IdSet {
    type V = Set<u32>;

    closed spec fn view(&self) -> Set<u32> {
        self.ids@
    }
}

/// A `BTreeSet` of ids hands them out in increasing order.
proof fn lemma_members_increase(m: &BTreeSet<u32>)
    ensures
        increasing(
            vstd::std_specs::iter::IteratorSpec::remaining(&vstd::std_specs::btree::spec_btree_keys_iter(m)).unref(),
        ),
{
    let s = vstd::std_specs::iter::IteratorSpec::remaining(&vstd::std_specs::btree::spec_btree_keys_iter(m));
    assert(vstd::std_specs::btree::increasing_seq(s));
    assert(vstd::laws_cmp::obeys_cmp::<&u32>());
    assert forall|i: int, j: int| 0 <= i < j < s.unref().len() implies s.unref()[i] < s.unref()[j] by {
        assert(vstd::std_specs::cmp::OrdSpec::cmp_spec(&s[i], &s[j]) is Less);
    }
}

impl IdSet {
    /// The empty set.
    pub fn new() -> (r: IdSet)
        ensures
            r@ == Set::<u32>::empty(),
    {
        IdSet { ids: BTreeSet::new() }
    }

    /// The number of members.
    pub fn len(&self) -> (r: usize)
        ensures
            r == self@.len(),
    {
        self.ids.len()
    }

    /// Whether `x` is a member.
    pub fn contains(&self, x: u32) -> (r: bool)
        ensures
            r == self@.contains(x),
    {
        self.ids.contains(&x)
    }

    /// Adds `x`; true when it was not a member before.
    pub fn insert(&mut self, x: u32) -> (r: bool)
        ensures
            final(self)@ == old(self)@.insert(x),
            r == !old(self)@.contains(x),
    {
        self.ids.insert(x)
    }

    /// Takes `x` out; true when it was a member.
    pub fn remove(&mut self, x: u32) -> (r: bool)
        ensures
            final(self)@ == old(self)@.remove(x),
            r == old(self)@.contains(x),
    {
        self.ids.remove(&x)
    }

    /// Keeps only the members that `other` has too.
    pub fn retain_in(&mut self, other: &IdSet)
        ensures
            final(self)@ == old(self)@.intersect(other@),
    {
        let members = self.to_vec();
        let mut kept: BTreeSet<u32> = BTreeSet::new();
        let mut i: usize = 0;
        while i < members.len()
            invariant
                i <= members@.len(),
                kept@ == members@.take(i as int).to_set().intersect(other@),
            decreases members@.len() - i,
        {
            let x = members[i];
            if other.ids.contains(&x) {
                kept.insert(x);
            }
            proof {
                let t0 = members@.take(i as int);
                let t1 = members@.take(i + 1);
                assert(t1 =~= t0.push(x));
                assert(t1.to_set() =~= t0.to_set().insert(x)) by {
                    assert forall|y: u32| #[trigger] t1.to_set().contains(y) <==> t0.to_set().insert(x).contains(y) by {
                        if t1.contains(y) && y != x {
                            let k = choose|k: int| 0 <= k < t1.len() && t1[k] == y;
                            assert(t0[k] == y);
                        }
                        if t0.contains(y) {
                            let k = choose|k: int| 0 <= k < t0.len() && t0[k] == y;
                            assert(t1[k] == y);
                        }
                        if y == x {
                            assert(t1[t0.len() as int] == x);
                        }
                    }
                }
            }
            assert(kept@ =~= members@.take(i + 1).to_set().intersect(other@));
            i = i + 1;
        }
        assert(members@.take(members@.len() as int) =~= members@);
        self.ids = kept;
    }

    /// The members in increasing order.
    pub fn to_vec(&self) -> (r: Vec<u32>)
        ensures
            increasing(r@),
            r@.to_set() == self@,
    {
        let ghost all = vstd::std_specs::iter::IteratorSpec::remaining(&vstd::std_specs::btree::spec_btree_keys_iter(&self.ids)).unref();
        let mut r: Vec<u32> = Vec::new();
        for x in it: self.ids.iter()
            invariant
                r@ == it.seq().take(it.index() as int).unref(),
        {
            r.push(*x);
        }
        assert(r@ =~= all);
        proof {
            lemma_members_increase(&self.ids);
        }
        r
    }

    /// Whether both sets have the same members.
    pub fn same_members(&self, other: &IdSet) -> (r: bool)
        ensures
            r == (self@ == other@),
    {
        let a = self.to_vec();
        let b = other.to_vec();
        proof {
            lemma_same_increasing(a@, b@);
        }
        if a.len() != b.len() {
            assert(a@ != b@);
            return false;
        }
        let mut i: usize = 0;
        while i < a.len()
            invariant
                i <= a@.len(),
                a@.len() == b@.len(),
                a@.to_set() == self@,
                b@.to_set() == other@,
                (a@.to_set() == b@.to_set()) == (a@ == b@),
                forall|k: int| 0 <= k < i ==> a@[k] == b@[k],
            decreases a@.len() - i,
        {
            if a[i] != b[i] {
                assert(a@[i as int] != b@[i as int]);
                assert(a@ != b@);
                return false;
            }
            i = i + 1;
        }
        assert(a@ =~= b@);
        true
    }
}

/// Two increasing sequences with the same members are the same sequence.
proof fn lemma_same_increasing(a: Seq<u32>, b: Seq<u32>)
    requires
        increasing(a),
        increasing(b),
    ensures
        a.to_set() == b.to_set() <==> a == b,
    decreases a.len() + b.len(),
{
    if a.to_set() == b.to_set() {
        if a.len() > 0 && b.len() > 0 {
            // the first elements are both the minimum
            assert(b.to_set().contains(a[0]));
            assert(a.to_set().contains(b[0]));
            let ka = choose|k: int| 0 <= k < b.len() && b[k] == a[0];
            let kb = choose|k: int| 0 <= k < a.len() && a[k] == b[0];
            assert(a[0] == b[0]) by {
                if ka > 0 {
                    assert(b[0] < b[ka]);
                    if kb > 0 {
                        assert(a[0] < a[kb]);
                    }
                }
            }
            assert forall|y: u32| a.drop_first().to_set().contains(y) <==> b.drop_first().to_set().contains(y) by {
                if a.drop_first().contains(y) {
                    let k = choose|k: int| 0 <= k < a.drop_first().len() && a.drop_first()[k] == y;
                    assert(a[k + 1] == y);
                    assert(a.to_set().contains(y));
                    let j = choose|j: int| 0 <= j < b.len() && b[j] == y;
                    assert(a[0] < a[k + 1]);
                    if j == 0 {
                        assert(false);
                    }
                    assert(b.drop_first()[j - 1] == y);
                }
                if b.drop_first().contains(y) {
                    let k = choose|k: int| 0 <= k < b.drop_first().len() && b.drop_first()[k] == y;
                    assert(b[k + 1] == y);
                    assert(b.to_set().contains(y));
                    let j = choose|j: int| 0 <= j < a.len() && a[j] == y;
                    assert(b[0] < b[k + 1]);
                    if j == 0 {
                        assert(false);
                    }
                    assert(a.drop_first()[j - 1] == y);
                }
            }
            assert(a.drop_first().to_set() =~= b.drop_first().to_set());
            lemma_same_increasing(a.drop_first(), b.drop_first());
            assert(a =~= seq![a[0]] + a.drop_first());
            assert(b =~= seq![b[0]] + b.drop_first());
        } else if a.len() > 0 {
            assert(a.to_set().contains(a[0]));
        } else if b.len() > 0 {
            assert(b.to_set().contains(b[0]));
        } else {
            assert(a =~= b);
        }
    }
}

} // verus!
