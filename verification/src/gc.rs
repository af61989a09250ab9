//! Reference counting for generated-program heap objects.
//!
//! The code generator registers one record per tracked allocation, keyed by
//! the source-level name that produced it, holding the storage handle and a
//! live reference count. A record whose count would reach zero is removed at
//! once, so the tracker never holds a record with a count of zero or less.

use crate::text::str_eq;
use vstd::prelude::*;

verus! {

/// One tracked heap allocation: its storage handle and live reference count.
#[derive(Debug, Clone)]
pub struct HeapRecord {
    pub name: String,
    pub handle: u64,
    pub count: u32,
}

/// Reference-count bookkeeping for generated heap allocations.
#[derive(Debug)]
pub struct GarbageCollector {
    records: Vec<HeapRecord>,
}

/// The mapping a record list stands for: name to handle and count, with
/// later records taking precedence.
pub open spec fn records_map(rs: Seq<HeapRecord>) -> Map<Seq<char>, (u64, u32)>
    decreases rs.len(),
{
    if rs.len() == 0 {
        Map::empty()
    } else {
        records_map(rs.drop_last()).insert(
            rs.last().name@,
            (rs.last().handle, rs.last().count),
        )
    }
}

/// True when no two records share a name.
pub open spec fn unique_names(rs: Seq<HeapRecord>) -> bool {
    forall|i: int, j: int| 0 <= i < j < rs.len() ==> rs[i].name@ != rs[j].name@
}

/// True when every record holds a strictly positive count.
pub open spec fn positive_counts(rs: Seq<HeapRecord>) -> bool {
    forall|i: int| 0 <= i < rs.len() ==> #[trigger] rs[i].count >= 1
}

proof fn lemma_records_map_props(rs: Seq<HeapRecord>)
    requires
        unique_names(rs),
    ensures
        forall|i: int|
            0 <= i < rs.len() ==> records_map(rs).dom().contains(#[trigger] rs[i].name@),
        forall|i: int|
            0 <= i < rs.len() ==> records_map(rs)[#[trigger] rs[i].name@] == (
                rs[i].handle,
                rs[i].count,
            ),
        forall|n: Seq<char>|
            #[trigger] records_map(rs).dom().contains(n) ==> exists|i: int|
                0 <= i < rs.len() && #[trigger] rs[i].name@ == n,
    decreases rs.len(),
{
    if rs.len() > 0 {
        let prev = rs.drop_last();
        lemma_records_map_props(prev);
        assert forall|i: int| 0 <= i < rs.len() implies records_map(rs).dom().contains(
            #[trigger] rs[i].name@,
        ) by {
            if i < rs.len() - 1 {
                assert(prev[i] == rs[i]);
            }
        }
        assert forall|i: int| 0 <= i < rs.len() implies records_map(rs)[#[trigger] rs[i].name@]
            == (rs[i].handle, rs[i].count) by {
            if i < rs.len() - 1 {
                assert(prev[i] == rs[i]);
                assert(rs[i].name@ != rs.last().name@);
            }
        }
        assert forall|n: Seq<char>| #[trigger]
            records_map(rs).dom().contains(n) implies exists|i: int|
            0 <= i < rs.len() && #[trigger] rs[i].name@ == n by {
            if n == rs.last().name@ {
                assert(rs[rs.len() - 1].name@ == n);
            } else {
                assert(records_map(prev).dom().contains(n));
                let i = choose|i: int| 0 <= i < prev.len() && #[trigger] prev[i].name@ == n;
                assert(rs[i].name@ == n);
            }
        }
    }
}

/// Removing one record from a uniquely named list removes exactly its entry
/// from the mapping.
proof fn lemma_remove_unique(rs: Seq<HeapRecord>, i: int)
    requires
        unique_names(rs),
        0 <= i < rs.len(),
    ensures
        unique_names(rs.remove(i)),
        positive_counts(rs) ==> positive_counts(rs.remove(i)),
        forall|j: int| 0 <= j < rs.len() - 1 ==> (#[trigger] rs.remove(i)[j].name@ != rs[i].name@),
        records_map(rs.remove(i)) == records_map(rs).remove(rs[i].name@),
{
    let rest = rs.remove(i);
    assert forall|j: int, k: int| 0 <= j < k < rest.len() implies rest[j].name@
        != rest[k].name@ by {
        let j0 = if j < i { j } else { j + 1 };
        let k0 = if k < i { k } else { k + 1 };
        assert(rest[j] == rs[j0] && rest[k] == rs[k0]);
    }
    assert forall|j: int| 0 <= j < rest.len() implies #[trigger] rest[j].count >= 1 || !(
    positive_counts(rs)) by {
        let j0 = if j < i { j } else { j + 1 };
        assert(rest[j] == rs[j0]);
    }
    assert forall|j: int| 0 <= j < rest.len() implies (#[trigger] rest[j].name@
        != rs[i].name@) by {
        let j0 = if j < i { j } else { j + 1 };
        assert(rest[j] == rs[j0]);
    }
    lemma_records_map_props(rs);
    lemma_records_map_props(rest);
    let m1 = records_map(rest);
    let m2 = records_map(rs).remove(rs[i].name@);
    assert forall|n: Seq<char>| #[trigger] m1.dom().contains(n) implies m2.dom().contains(n)
        && m1[n] == m2[n] by {
        let j = choose|j: int| 0 <= j < rest.len() && #[trigger] rest[j].name@ == n;
        let j0 = if j < i { j } else { j + 1 };
        assert(rest[j] == rs[j0]);
        assert(rs[j0].name@ == n);
        assert(n != rs[i].name@);
    }
    assert forall|n: Seq<char>| #[trigger] m2.dom().contains(n) implies m1.dom().contains(n) by {
        let j = choose|j: int| 0 <= j < rs.len() && #[trigger] rs[j].name@ == n;
        let j1 = if j < i { j } else { j - 1 };
        assert(rest[j1] == rs[j]);
        assert(rest[j1].name@ == n);
    }
    assert(m1 =~= m2);
}

impl View for GarbageCollector {
    type V = Map<Seq<char>, (u64, u32)>;

    closed spec fn view(&self) -> Map<Seq<char>, (u64, u32)> {
        records_map(self.records@)
    }
}

impl GarbageCollector {
    /// True when the tracker's representation is well formed: one record per
    /// name, every count strictly positive.
    pub closed spec fn wf(&self) -> bool {
        unique_names(self.records@) && positive_counts(self.records@)
    }

    /// Any well-formed tracker maps no name to a count of zero or less.
    pub proof fn lemma_no_dead_records(&self)
        requires
            self.wf(),
        ensures
            forall|n: Seq<char>| self@.dom().contains(n) ==> #[trigger] self@[n].1 >= 1,
    {
        lemma_records_map_props(self.records@);
        assert forall|n: Seq<char>| self@.dom().contains(n) implies #[trigger] self@[n].1
            >= 1 by {
            let i = choose|i: int| 0 <= i < self.records@.len() && #[trigger] self.records@[i].name@
                == n;
        }
    }

    /// Creates an empty tracker.
    pub fn new() -> (r: Self)
        ensures
            r@ == Map::<Seq<char>, (u64, u32)>::empty(),
            r.wf(),
    {
        GarbageCollector { records: Vec::new() }
    }

    /// Finds the index of the record registered under `name`, if any.
    #[verifier::loop_isolation(false)]
    fn find_record(&self, name: &str) -> (r: Option<usize>)
        requires
            self.wf(),
        ensures
            r matches Some(i) ==> i < self.records@.len() && self.records@[i as int].name@
                == name@,
            r is None ==> forall|j: int|
                0 <= j < self.records@.len() ==> #[trigger] self.records@[j].name@ != name@,
            r is None <==> !self@.dom().contains(name@),
            r matches Some(i) ==> self@[name@] == (
                self.records@[i as int].handle,
                self.records@[i as int].count,
            ),
    {
        proof {
            lemma_records_map_props(self.records@);
        }
        let mut i: usize = 0;
        while i < self.records.len()
            invariant
                i <= self.records@.len(),
                forall|j: int| 0 <= j < i ==> #[trigger] self.records@[j].name@ != name@,
            decreases self.records@.len() - i,
        {
            if str_eq(self.records[i].name.as_str(), name) {
                return Some(i);
            }
            i += 1;
        }
        None
    }

    /// Registers an allocation under `name` with the given storage handle,
    /// starting its reference count at one. Registering a name again replaces
    /// its record.
    pub fn alloc_object(&mut self, name: &str, handle: u64)
        requires
            old(self).wf(),
        ensures
            final(self).wf(),
            final(self)@ == old(self)@.insert(name@, (handle, 1u32)),
    {
        let ghost rs0 = self.records@;
        if let Some(i) = self.find_record(name) {
            let _old = self.records.remove(i);
            proof {
                lemma_remove_unique(rs0, i as int);
            }
        }
        let ghost rs1 = self.records@;
        self.records.push(HeapRecord { name: name.to_owned(), handle, count: 1 });
        proof {
            assert(self.records@.drop_last() =~= rs1);
            assert(records_map(self.records@) == records_map(rs1).insert(name@, (handle, 1u32)));
            assert(records_map(rs0).remove(name@).insert(name@, (handle, 1u32)) =~= records_map(
                rs0,
            ).insert(name@, (handle, 1u32)));
            if !records_map(rs0).dom().contains(name@) {
                assert(records_map(rs1).insert(name@, (handle, 1u32)) =~= records_map(
                    rs0,
                ).insert(name@, (handle, 1u32)));
            }
            assert forall|j: int, k: int|
                0 <= j < k < self.records@.len() implies self.records@[j].name@
                != self.records@[k].name@ by {
                if k == self.records@.len() - 1 {
                    assert(rs1[j].name@ != name@);
                }
            }
            assert forall|j: int|
                0 <= j < self.records@.len() implies #[trigger] self.records@[j].count >= 1 by {
                if j < self.records@.len() - 1 {
                    assert(rs1[j].count >= 1);
                }
            }
        }
    }

    /// Decrements the count for `name`. When the count reaches zero the
    /// record is removed and `true` is returned, signalling that the storage
    /// may be reclaimed; otherwise `false` is returned, and an unknown name
    /// leaves the tracker unchanged.
    pub fn decrement_ref(&mut self, name: &str) -> (r: bool)
        requires
            old(self).wf(),
        ensures
            final(self).wf(),
            !old(self)@.dom().contains(name@) ==> final(self)@ == old(self)@ && r == false,
            old(self)@.dom().contains(name@) && old(self)@[name@].1 == 1 ==> final(self)@ == old(
                self,
            )@.remove(name@) && r == true,
            old(self)@.dom().contains(name@) && old(self)@[name@].1 > 1 ==> final(self)@ == old(
                self,
            )@.insert(name@, (old(self)@[name@].0, (old(self)@[name@].1 - 1) as u32)) && r
                == false,
    {
        let ghost rs0 = self.records@;
        match self.find_record(name) {
            None => false,
            Some(i) => {
                let rec = self.records.remove(i);
                proof {
                    lemma_remove_unique(rs0, i as int);
                }
                if rec.count == 1 {
                    true
                } else {
                    let ghost rs1 = self.records@;
                    let updated = HeapRecord {
                        name: rec.name,
                        handle: rec.handle,
                        count: rec.count - 1,
                    };
                    self.records.push(updated);
                    proof {
                        assert(self.records@.drop_last() =~= rs1);
                        assert(records_map(rs0).remove(name@).insert(
                            name@,
                            (rec.handle, (rec.count - 1) as u32),
                        ) =~= records_map(rs0).insert(
                            name@,
                            (rec.handle, (rec.count - 1) as u32),
                        ));
                        assert forall|j: int, k: int|
                            0 <= j < k < self.records@.len() implies self.records@[j].name@
                            != self.records@[k].name@ by {
                            if k == self.records@.len() - 1 {
                                assert(rs1[j].name@ != name@);
                            }
                        }
                        assert forall|j: int|
                            0 <= j < self.records@.len() implies #[trigger] self.records@[j].count
                            >= 1 by {
                            if j < self.records@.len() - 1 {
                                assert(rs1[j].count >= 1);
                            }
                        }
                    }
                    false
                }
            },
        }
    }
}

} // verus!
