//! Registry mapping application versions to per-type struct versions.
//!
//! The registry is an append-only list of slots, one per application
//! version, starting at application version 1 with no overrides.  Each
//! new slot inherits the previous one; overrides apply to the newest
//! slot only.  A type that was never overridden is at struct version 1.

use vstd::prelude::*;

verus! {

/// The struct version a slot assigns to `name`: the first entry with a
/// matching name, or 1 where none is set.
pub open spec fn slot_version(entries: Seq<(String, u16)>, name: Seq<char>) -> u16
    decreases entries.len(),
{
    if entries.len() == 0 {
        1u16
    } else if entries[0].0@ == name {
        entries[0].1
    } else {
        slot_version(entries.skip(1), name)
    }
}

/// Whether a slot holds an entry for `name`.
pub open spec fn slot_has(entries: Seq<(String, u16)>, name: Seq<char>) -> bool {
    exists|i: int| 0 <= i < entries.len() && entries[i].0@ == name
}

/// Whether no two entries of a slot share a name.
pub open spec fn unique_names(entries: Seq<(String, u16)>) -> bool {
    forall|i: int, j: int| 0 <= i < j < entries.len() ==> entries[i].0@ != entries[j].0@
}

proof fn lemma_slot_version_of_match(entries: Seq<(String, u16)>, name: Seq<char>, i: int)
    requires
        0 <= i < entries.len(),
        entries[i].0@ == name,
        forall|j: int| 0 <= j < i ==> entries[j].0@ != name,
    ensures
        slot_version(entries, name) == entries[i].1,
    decreases entries.len(),
{
    if i > 0 {
        assert(forall|j: int|
            0 <= j < entries.skip(1).len() ==> entries.skip(1)[j] == entries[j + 1]);
        lemma_slot_version_of_match(entries.skip(1), name, i - 1);
    }
}

proof fn lemma_slot_version_of_miss(entries: Seq<(String, u16)>, name: Seq<char>)
    requires
        !slot_has(entries, name),
    ensures
        slot_version(entries, name) == 1u16,
    decreases entries.len(),
{
    if entries.len() > 0 {
        assert(entries[0].0@ != name);
        assert(forall|i: int|
            0 <= i < entries.skip(1).len() ==> entries.skip(1)[i] == entries[i + 1]);
        lemma_slot_version_of_miss(entries.skip(1), name);
    }
}

proof fn lemma_slot_version_update(entries: Seq<(String, u16)>, i: int, nv: (String, u16))
    requires
        0 <= i < entries.len(),
        entries[i].0@ == nv.0@,
        unique_names(entries),
    ensures
        slot_version(entries.update(i, nv), nv.0@) == nv.1,
        forall|other: Seq<char>|
            other != nv.0@ ==> slot_version(entries.update(i, nv), other) == slot_version(
                entries,
                other,
            ),
        unique_names(entries.update(i, nv)),
    decreases entries.len(),
{
    let upd = entries.update(i, nv);
    assert(forall|j: int| 0 <= j < entries.len() && j != i ==> upd[j] == entries[j]);
    assert(upd[i] == nv);
    assert(forall|j: int, k: int|
        0 <= j < k < upd.len() ==> upd[j].0@ != upd[k].0@);
    if i == 0 {
        assert forall|other: Seq<char>| other != nv.0@ implies slot_version(upd, other)
            == slot_version(entries, other) by {
            assert(upd.skip(1) =~= entries.skip(1));
            assert(slot_version(upd, other) == slot_version(upd.skip(1), other));
            assert(slot_version(entries, other) == slot_version(entries.skip(1), other));
        }
        assert(slot_version(upd, nv.0@) == nv.1);
    } else {
        assert(entries[0].0@ != nv.0@);
        assert(forall|j: int|
            0 <= j < entries.skip(1).len() ==> entries.skip(1)[j] == entries[j + 1]);
        lemma_slot_version_update(entries.skip(1), i - 1, nv);
        assert(upd.skip(1) =~= entries.skip(1).update(i - 1, nv));
        assert(upd[0] == entries[0]);
        assert(slot_version(upd, nv.0@) == slot_version(upd.skip(1), nv.0@));
        assert forall|other: Seq<char>| other != nv.0@ implies slot_version(upd, other)
            == slot_version(entries, other) by {
            if entries[0].0@ == other {
                assert(slot_version(upd, other) == upd[0].1);
                assert(slot_version(entries, other) == entries[0].1);
            } else {
                assert(slot_version(upd, other) == slot_version(upd.skip(1), other));
                assert(slot_version(entries, other) == slot_version(entries.skip(1), other));
            }
        }
    }
}

proof fn lemma_slot_version_push(entries: Seq<(String, u16)>, nv: (String, u16))
    requires
        !slot_has(entries, nv.0@),
    ensures
        slot_version(entries.push(nv), nv.0@) == nv.1,
        forall|other: Seq<char>|
            other != nv.0@ ==> slot_version(entries.push(nv), other) == slot_version(
                entries,
                other,
            ),
    decreases entries.len(),
{
    let p = entries.push(nv);
    if entries.len() == 0 {
        assert(p[0] == nv);
        assert(slot_version(p, nv.0@) == nv.1);
        assert forall|other: Seq<char>| other != nv.0@ implies slot_version(p, other)
            == slot_version(entries, other) by {
            assert(slot_version(p, other) == slot_version(p.skip(1), other));
            assert(p.skip(1).len() == 0);
            assert(slot_version(p.skip(1), other) == 1u16);
            assert(slot_version(entries, other) == 1u16);
        }
    } else {
        assert(entries[0].0@ != nv.0@);
        assert(p[0] == entries[0]);
        assert(p.skip(1) =~= entries.skip(1).push(nv));
        assert(forall|i: int|
            0 <= i < entries.skip(1).len() ==> entries.skip(1)[i] == entries[i + 1]);
        lemma_slot_version_push(entries.skip(1), nv);
        assert(slot_version(p, nv.0@) == slot_version(p.skip(1), nv.0@));
        assert forall|other: Seq<char>| other != nv.0@ implies slot_version(p, other)
            == slot_version(entries, other) by {
            if entries[0].0@ == other {
                assert(slot_version(p, other) == p[0].1);
                assert(slot_version(entries, other) == entries[0].1);
            } else {
                assert(slot_version(p, other) == slot_version(p.skip(1), other));
                assert(slot_version(entries, other) == slot_version(entries.skip(1), other));
            }
        }
    }
}

/// Ordered registry of application versions, each carrying the set of
/// per-type struct-version overrides in force at that version.
#[derive(Clone)]
pub struct VersionMap {
    versions: Vec<Vec<(String, u16)>>,
}

impl VersionMap {
    /// Well-formedness: at least one slot, a slot count that fits in a
    /// `u16`, and no slot naming a type twice.
    pub closed spec fn wf(self) -> bool {
        &&& 1 <= self.versions@.len() <= u16::MAX
        &&& forall|i: int|
            0 <= i < self.versions@.len() ==> unique_names(#[trigger] self.versions@[i]@)
    }

    /// The highest application version currently defined.
    pub closed spec fn spec_latest(self) -> int {
        self.versions@.len() as int
    }

    /// The slot consulted for application version `app`: `app` clamped
    /// into the defined range.
    pub closed spec fn clamped(self, app: u16) -> int {
        if app < 1 {
            1
        } else if app > self.spec_latest() {
            self.spec_latest()
        } else {
            app as int
        }
    }

    /// The struct version of `name` in force at application version `app`.
    pub closed spec fn spec_type_version(self, app: u16, name: Seq<char>) -> u16 {
        slot_version(self.versions@[self.clamped(app) - 1]@, name)
    }

    /// A registry with a single application version and no overrides.
    pub fn new() -> (r: VersionMap)
        ensures
            r.wf(),
            r.spec_latest() == 1,
            forall|name: Seq<char>| r.spec_type_version(1u16, name) == 1u16,
    {
        let mut versions: Vec<Vec<(String, u16)>> = Vec::new();
        let slot: Vec<(String, u16)> = Vec::new();
        versions.push(slot);
        let r = VersionMap { versions };
        proof {
            assert(r.versions@[0]@.len() == 0);
            assert forall|name: Seq<char>| r.spec_type_version(1u16, name) == 1u16 by {
                assert(slot_version(r.versions@[0]@, name) == 1u16);
            }
        }
        r
    }

    /// Appends a new application version that inherits every override of
    /// the current one; returns the registry again so calls can chain.
    pub fn new_version(&mut self) -> (r: &mut Self)
        requires
            old(self).wf(),
            old(self).spec_latest() < u16::MAX,
        ensures
            r.wf(),
            r.spec_latest() == old(self).spec_latest() + 1,
            forall|app: u16, name: Seq<char>|
                1 <= app <= old(self).spec_latest() ==> #[trigger] r.spec_type_version(app, name)
                    == old(self).spec_type_version(app, name),
            forall|name: Seq<char>|
                #[trigger] r.spec_type_version(((old(self).spec_latest() + 1) as u16), name)
                    == old(self).spec_type_version(old(self).spec_latest() as u16, name),
            *final(self) == *final(r),
    {
        let last_idx: usize = self.versions.len() - 1;
        let ghost old_slot = self.versions@[last_idx as int]@;
        let mut copy: Vec<(String, u16)> = Vec::new();
        let mut i: usize = 0;
        while i < self.versions[last_idx].len()
            invariant
                0 <= i <= old_slot.len(),
                last_idx < self.versions@.len(),
                *self == *old(self),
                old_slot == self.versions@[last_idx as int]@,
                copy@.len() == i,
                forall|j: int| 0 <= j < i ==> copy@[j] == old_slot[j],
            decreases old_slot.len() - i,
        {
            let entry_name: String = self.versions[last_idx][i].0.clone();
            let entry_ver: u16 = self.versions[last_idx][i].1;
            copy.push((entry_name, entry_ver));
            proof {
                // A cloned string equals the original exactly, so the
                // copied pair equals the original pair.
                assert(copy@[i as int].0 == old_slot[i as int].0);
                assert(old_slot[i as int] == (old_slot[i as int].0, old_slot[i as int].1));
                assert(copy@[i as int] == old_slot[i as int]);
            }
            i = i + 1;
        }
        proof {
            assert(copy@ =~= old_slot);
        }
        self.versions.push(copy);
        proof {
            assert(self.versions@.len() == old(self).versions@.len() + 1);
            assert(forall|k: int|
                0 <= k < old(self).versions@.len() ==> self.versions@[k] == old(
                    self,
                ).versions@[k]);
            assert(self.versions@[self.versions@.len() - 1]@ =~= old_slot);
            assert forall|app: u16, name: Seq<char>|
                1 <= app <= old(self).spec_latest() implies #[trigger] self.spec_type_version(
                app,
                name,
            ) == old(self).spec_type_version(app, name) by {
                assert(self.clamped(app) == old(self).clamped(app));
                assert(self.versions@[self.clamped(app) - 1]@ == old(self).versions@[old(
                    self,
                ).clamped(app) - 1]@);
            }
        }
        self
    }

    /// Sets the struct version of `name` in the newest application
    /// version; earlier versions are untouched.  Returns the registry
    /// again so calls can chain.
    pub fn set_type_version(&mut self, name: String, version: u16) -> (r: &mut Self)
        requires
            old(self).wf(),
        ensures
            r.wf(),
            r.spec_latest() == old(self).spec_latest(),
            r.spec_type_version(old(self).spec_latest() as u16, name@) == version,
            forall|other: Seq<char>|
                other != name@ ==> #[trigger] r.spec_type_version(
                    old(self).spec_latest() as u16,
                    other,
                ) == old(self).spec_type_version(old(self).spec_latest() as u16, other),
            forall|app: u16, n: Seq<char>|
                1 <= app < old(self).spec_latest() ==> #[trigger] r.spec_type_version(app, n)
                    == old(self).spec_type_version(app, n),
            *final(self) == *final(r),
    {
        let ghost last = old(self).versions@.len() - 1;
        let mut slot: Vec<(String, u16)> = match self.versions.pop() {
            Some(s) => s,
            None => Vec::new(),
        };
        let ghost old_slot = slot@;
        proof {
            assert(old_slot == old(self).versions@[last]@);
        }
        let slot_len: usize = slot.len();
        let mut i: usize = 0;
        let mut found: bool = false;
        let mut found_at: usize = 0;
        while i < slot_len
            invariant
                0 <= i <= slot_len,
                slot@ == old_slot,
                slot_len == old_slot.len(),
                found ==> found_at < i <= old_slot.len() && old_slot[found_at as int].0@ == name@,
                !found ==> forall|j: int| 0 <= j < i ==> old_slot[j].0@ != name@,
            decreases slot_len - i,
        {
            if !found && slot[i].0 == name {
                found = true;
                found_at = i;
            }
            i = i + 1;
        }
        if found {
            slot.set(found_at, (name, version));
            proof {
                lemma_slot_version_update(old_slot, found_at as int, slot@[found_at as int]);
            }
        } else {
            slot.push((name, version));
            proof {
                assert(!slot_has(old_slot, name@));
                lemma_slot_version_push(old_slot, slot@[old_slot.len() as int]);
                assert(unique_names(slot@));
            }
        }
        self.versions.push(slot);
        proof {
            assert(self.versions@.len() == old(self).versions@.len());
            assert(forall|k: int|
                0 <= k < last ==> self.versions@[k] == old(self).versions@[k]);
            assert forall|app: u16, n: Seq<char>|
                1 <= app < old(self).spec_latest() implies #[trigger] self.spec_type_version(
                app,
                n,
            ) == old(self).spec_type_version(app, n) by {
                assert(self.clamped(app) == old(self).clamped(app));
                assert(self.clamped(app) - 1 < last);
            }
        }
        self
    }

    /// The struct version of `name` in force at application version
    /// `app`; 1 where no override was ever set.
    pub fn get_type_version(&self, app: u16, name: &String) -> (r: u16)
        requires
            self.wf(),
        ensures
            r == self.spec_type_version(app, name@),
    {
        let mut idx: usize = app as usize;
        if idx < 1 {
            idx = 1;
        }
        if idx > self.versions.len() {
            idx = self.versions.len();
        }
        let slot = &self.versions[idx - 1];
        let ghost entries = slot@;
        proof {
            assert(idx - 1 == self.clamped(app) - 1);
        }
        let mut i: usize = 0;
        while i < slot.len()
            invariant
                0 <= i <= entries.len(),
                entries == slot@,
                entries == self.versions@[self.clamped(app) - 1]@,
                forall|j: int| 0 <= j < i ==> entries[j].0@ != name@,
            decreases entries.len() - i,
        {
            if slot[i].0 == *name {
                proof {
                    lemma_slot_version_of_match(entries, name@, i as int);
                }
                return slot[i].1;
            }
            i = i + 1;
        }
        proof {
            lemma_slot_version_of_miss(entries, name@);
        }
        1
    }

    /// The highest application version currently defined.
    pub fn get_latest_version(&self) -> (r: u16)
        requires
            self.wf(),
        ensures
            r == self.spec_latest(),
    {
        self.versions.len() as u16
    }
}

} // verus!
