//! The entity registry: issues unique identifiers and tracks the live set.
use vstd::prelude::*;

verus! {

/// An opaque key naming one simulated object.  It carries no data of its
/// own; stores map it to component values.
#[derive(Clone, Copy, PartialEq, Eq, Structural, Debug)]
pub struct Entity {
    pub id: usize,
}

impl Entity {
    /// The identifier as a plain integer.
    pub fn id(&self) -> (r: usize)
        ensures
            r == self.id,
    {
        self.id
    }
}

/// How many entries of `s` are set.
pub open spec fn count_true(s: Seq<bool>) -> nat
    decreases s.len(),
{
    if s.len() == 0 {
        0
    } else {
        count_true(s.drop_last()) + if s.last() {
            1nat
        } else {
            0nat
        }
    }
}

/// No more entries are set than there are entries.
pub proof fn lemma_count_true_le_len(s: Seq<bool>)
    ensures
        count_true(s) <= s.len(),
    decreases s.len(),
{
    if s.len() > 0 {
        lemma_count_true_le_len(s.drop_last());
    }
}

/// Clearing one set entry lowers the count by one.
pub proof fn lemma_count_true_clear(s: Seq<bool>, i: int)
    requires
        0 <= i < s.len(),
        s[i],
    ensures
        count_true(s.update(i, false)) + 1 == count_true(s),
    decreases s.len(),
{
    if i == s.len() - 1 {
        assert(s.update(i, false).drop_last() =~= s.drop_last());
    } else {
        lemma_count_true_clear(s.drop_last(), i);
        assert(s.update(i, false).drop_last() =~= s.drop_last().update(i, false));
    }
}

/// The set of indices below the sequence's length whose flag is set has
/// exactly as many elements as the count of set flags.
pub proof fn lemma_count_true_is_card(s: Seq<bool>)
    requires
        s.len() <= usize::MAX,
    ensures
        Set::new(|i: usize| i < s.len() && s[i as int]).finite(),
        Set::new(|i: usize| i < s.len() && s[i as int]).len() == count_true(s),
    decreases s.len(),
{
    broadcast use vstd::set::group_set_axioms;

    let full = Set::new(|i: usize| i < s.len() && s[i as int]);
    if s.len() == 0 {
        assert(full =~= Set::<usize>::empty());
    } else {
        let t = s.drop_last();
        lemma_count_true_is_card(t);
        let sub = Set::new(|i: usize| i < t.len() && t[i as int]);
        if s.last() {
            let last = (s.len() - 1) as usize;
            assert(full =~= sub.insert(last));
            assert(!sub.contains(last));
            vstd::set::axiom_set_insert_len(sub, last);
        } else {
            assert(full =~= sub);
        }
    }
}

/// Issues fresh entity identifiers and tracks which are live.  An identifier
/// is never reissued: each call of [`EntityManager::next`] returns an id
/// larger than every id handed out before.
pub struct EntityManager {
    alive: Vec<bool>,
    count: usize,
}

impl EntityManager {
    /// `i` names a live entity.
    pub closed spec fn spec_live(&self, i: usize) -> bool {
        i < self.alive@.len() && self.alive@[i as int]
    }

    /// The set of live identifiers.
    pub open spec fn live_ids(&self) -> Set<usize> {
        Set::new(|i: usize| self.spec_live(i))
    }

    /// Identifiers issued so far; every live id is below this.
    pub closed spec fn issued(&self) -> nat {
        self.alive@.len()
    }

    /// Number of live entities.
    pub closed spec fn spec_len(&self) -> nat {
        count_true(self.alive@)
    }

    /// The registry's books balance: the stored count matches the flags.
    pub closed spec fn wf(&self) -> bool {
        self.count == count_true(self.alive@)
    }

    /// Live ids were issued.
    pub proof fn lemma_live_is_issued(&self, i: usize)
        requires
            self.spec_live(i),
        ensures
            i < self.issued(),
    {
    }

    /// The number of live entities equals the live-id set's size, so a
    /// caller can track `len` through the per-id liveness the systems
    /// state: after a pass that drops a known set of live ids, the count
    /// falls by exactly that set's size.
    pub proof fn lemma_len_is_live_count(&self)
        requires
            self.wf(),
        ensures
            self.live_ids().finite(),
            self.live_ids().len() == self.spec_len(),
    {
        broadcast use vstd::std_specs::vec::axiom_spec_len;

        assert(vstd::std_specs::vec::spec_vec_len(&self.alive) == self.alive@.len());
        lemma_count_true_is_card(self.alive@);
        assert(self.live_ids() =~= Set::new(
            |i: usize| i < self.alive@.len() && self.alive@[i as int],
        ));
    }

    /// A registry with no entities.
    pub fn new() -> (r: EntityManager)
        ensures
            r.wf(),
            r.spec_len() == 0,
            r.issued() == 0,
            forall|i: usize| !r.spec_live(i),
    {
        EntityManager { alive: Vec::new(), count: 0 }
    }

    /// Issues a fresh identifier, distinct from every id issued before,
    /// and adds it to the live set.
    pub fn next(&mut self) -> (e: Entity)
        requires
            old(self).wf(),
            old(self).issued() < usize::MAX,
        ensures
            final(self).wf(),
            e.id == old(self).issued(),
            !old(self).spec_live(e.id),
            final(self).spec_live(e.id),
            final(self).issued() == old(self).issued() + 1,
            final(self).spec_len() == old(self).spec_len() + 1,
            forall|i: usize| i != e.id ==> final(self).spec_live(i) == old(self).spec_live(i),
    {
        let id = self.alive.len();
        proof {
            lemma_count_true_le_len(self.alive@);
            assert(self.alive@.push(true).drop_last() =~= self.alive@);
        }
        self.alive.push(true);
        self.count = self.count + 1;
        Entity { id }
    }

    /// Removes `e` from the live set.  Dropping an id that is not live
    /// changes nothing.
    pub fn drop(&mut self, e: Entity)
        requires
            old(self).wf(),
        ensures
            final(self).wf(),
            !final(self).spec_live(e.id),
            final(self).issued() == old(self).issued(),
            forall|i: usize| i != e.id ==> final(self).spec_live(i) == old(self).spec_live(i),
            final(self).spec_len() == old(self).spec_len() - if old(self).spec_live(e.id) {
                1int
            } else {
                0int
            },
    {
        if e.id < self.alive.len() {
            if self.alive[e.id] {
                proof {
                    lemma_count_true_clear(self.alive@, e.id as int);
                }
                self.alive.set(e.id, false);
                self.count = self.count - 1;
            }
        }
    }

    /// Whether `e` is live.
    pub fn is_live(&self, e: Entity) -> (r: bool)
        ensures
            r == self.spec_live(e.id),
    {
        e.id < self.alive.len() && self.alive[e.id]
    }

    /// Number of live entities.
    pub fn len(&self) -> (r: usize)
        requires
            self.wf(),
        ensures
            r == self.spec_len(),
    {
        self.count
    }
}

} // verus!
