//! The allocation registry: the table mapping the base address of every
//! live file-backed allocation to its handle.
//!
//! The table itself is a `hashbrown` map whose storage lives in the system
//! allocator, so that growing or shrinking the registry never re-enters the
//! file-backed path.  Its behaviour is taken on trust through the small
//! wrapper functions below; everything layered on top of them is verified.

use vstd::prelude::*;

verus! {

/// One live file-backed allocation, as the registry tracks it.
#[derive(Clone)]
pub struct AllocHandle {
    /// Current byte length of the backing file and of its mapping.
    pub size: usize,
    /// Filesystem location of the backing file.
    pub path: String,
    /// Columns of the graphical view attached to this allocation, if any.
    pub window: Option<usize>,
}

/// The raw registry storage.  The map's own allocations are served by the
/// system allocator, never by the file-backed path, so filling the table
/// cannot recurse into the engine.
#[verifier::external_body]
pub struct RegistryTable {
    inner: hashbrown::HashMap<
        usize,
        AllocHandle,
        hashbrown::DefaultHashBuilder,
        allocator_api2::alloc::System,
    >,
}

/// The bindings the table currently holds.
pub uninterp spec fn table_entries(t: RegistryTable) -> Map<usize, AllocHandle>;

/// Relies on hashbrown::HashMap::with_capacity_in: a fresh, empty table,
/// with room for `capacity` entries pre-reserved from the system allocator.
#[verifier::external_body]
fn table_with_capacity(capacity: usize) -> (r: RegistryTable)
    ensures
        table_entries(r) == (Map::<usize, AllocHandle>::empty()),
{
    RegistryTable {
        inner: hashbrown::HashMap::with_capacity_in(capacity, allocator_api2::alloc::System),
    }
}

/// Relies on hashbrown::HashMap::insert: binds `base` to `handle`,
/// replacing any previous binding of `base`.
#[verifier::external_body]
fn table_insert(t: &mut RegistryTable, base: usize, handle: AllocHandle)
    ensures
        table_entries(*final(t)) == table_entries(*old(t)).insert(base, handle),
{
    t.inner.insert(base, handle);
}

/// Relies on hashbrown::HashMap::remove: unbinds `base` and returns what
/// was bound to it, if anything.
#[verifier::external_body]
fn table_remove(t: &mut RegistryTable, base: usize) -> (r: Option<AllocHandle>)
    ensures
        table_entries(*final(t)) == table_entries(*old(t)).remove(base),
        r == (if table_entries(*old(t)).contains_key(base) {
            Some(table_entries(*old(t))[base])
        } else {
            None::<AllocHandle>
        }),
{
    t.inner.remove(&base)
}

/// Relies on hashbrown::HashMap::get: returns a copy of the handle bound to
/// `base`, if any.
#[verifier::external_body]
fn table_get(t: &RegistryTable, base: usize) -> (r: Option<AllocHandle>)
    ensures
        r == (if table_entries(*t).contains_key(base) {
            Some(table_entries(*t)[base])
        } else {
            None::<AllocHandle>
        }),
{
    t.inner.get(&base).cloned()
}

/// Relies on hashbrown::HashMap::iter: yields every binding exactly once,
/// in unspecified order.
#[verifier::external_body]
fn table_pairs(t: &RegistryTable) -> (r: Vec<(usize, AllocHandle)>)
    ensures
        r@.len() == table_entries(*t).len(),
        forall|i: int|
            0 <= i < r@.len() ==> #[trigger] table_entries(*t).contains_pair(r@[i].0, r@[i].1),
        forall|k: usize|
            #[trigger] table_entries(*t).contains_key(k)
                ==> exists|i: int| 0 <= i < r@.len() && (#[trigger] r@[i]).0 == k,
        forall|i: int, j: int| 0 <= i < j < r@.len() ==> r@[i].0 != r@[j].0,
{
    t.inner.iter().map(|(k, v)| (*k, v.clone())).collect()
}

/// Two byte ranges do not share an address.  An empty range overlaps
/// nothing.
pub open spec fn ranges_disjoint(b1: usize, s1: usize, b2: usize, s2: usize) -> bool {
    s1 == 0 || s2 == 0 || b1 + s1 <= b2 || b2 + s2 <= b1
}

/// The handle registered at `base` covers `addr`.
pub open spec fn handle_contains_addr(base: usize, h: AllocHandle, addr: usize) -> bool {
    base <= addr < base + h.size
}

/// Some registered allocation covers `addr`.
pub open spec fn spec_owns(m: Map<usize, AllocHandle>, addr: usize) -> bool {
    exists|b: usize| #[trigger] m.contains_key(b) && handle_contains_addr(b, m[b], addr)
}

/// The registry's invariant: finitely many entries, every range fits in the
/// address space, and no two live allocations overlap.
pub open spec fn registry_wf(m: Map<usize, AllocHandle>) -> bool {
    &&& m.dom().finite()
    &&& forall|k: usize| #[trigger] m.contains_key(k) ==> k + m[k].size <= usize::MAX
    &&& forall|k1: usize, k2: usize|
        #[trigger] m.contains_key(k1) && #[trigger] m.contains_key(k2) && k1 != k2
            ==> ranges_disjoint(k1, m[k1].size, k2, m[k2].size)
}

/// A new allocation may enter the registry only at a fresh base address,
/// with a range that fits in the address space and overlaps no live one.
pub open spec fn spec_can_insert(m: Map<usize, AllocHandle>, base: usize, h: AllocHandle) -> bool {
    &&& !m.contains_key(base)
    &&& base + h.size <= usize::MAX
    &&& forall|k: usize| #[trigger] m.contains_key(k) ==> ranges_disjoint(base, h.size, k, m[k].size)
}

/// Law: under the registry invariant, at most one live allocation covers a
/// given address, so looking an interior pointer up is unambiguous.
pub proof fn lemma_owner_unique(m: Map<usize, AllocHandle>, addr: usize, b1: usize, b2: usize)
    requires
        registry_wf(m),
        m.contains_key(b1),
        m.contains_key(b2),
        handle_contains_addr(b1, m[b1], addr),
        handle_contains_addr(b2, m[b2], addr),
    ensures
        b1 == b2,
{
}

/// An insertion that satisfies `spec_can_insert` keeps the registry
/// invariant.
pub proof fn lemma_insert_preserves_wf(m: Map<usize, AllocHandle>, base: usize, h: AllocHandle)
    requires
        registry_wf(m),
        spec_can_insert(m, base, h),
    ensures
        registry_wf(m.insert(base, h)),
{
    let m2 = m.insert(base, h);
    assert(m2.dom() == m.dom().insert(base));
    assert forall|k: usize| #[trigger] m2.contains_key(k) implies k + m2[k].size <= usize::MAX by {
        if k != base {
            assert(m.contains_key(k));
        }
    }
    assert forall|k1: usize, k2: usize|
        #[trigger] m2.contains_key(k1) && #[trigger] m2.contains_key(k2) && k1 != k2
        implies ranges_disjoint(k1, m2[k1].size, k2, m2[k2].size) by {
        if k1 == base {
            assert(m.contains_key(k2));
        } else if k2 == base {
            assert(m.contains_key(k1));
        } else {
            assert(m.contains_key(k1) && m.contains_key(k2));
        }
    }
}

/// Decides `ranges_disjoint` for ranges already known to fit in the address
/// space, without overflowing.
fn ranges_disjoint_exec(b1: usize, s1: usize, b2: usize, s2: usize) -> (r: bool)
    requires
        b1 + s1 <= usize::MAX,
        b2 + s2 <= usize::MAX,
    ensures
        r == ranges_disjoint(b1, s1, b2, s2),
{
    s1 == 0 || s2 == 0 || b1 + s1 <= b2 || b2 + s2 <= b1
}

/// The allocation registry: the verified view of the table, maintaining the
/// invariant that live allocations never overlap.
pub struct Registry {
    table: RegistryTable,
}

impl Registry {
    /// The bindings currently held, as a map from base address to handle.
    pub closed spec fn entries(&self) -> Map<usize, AllocHandle> {
        table_entries(self.table)
    }

    /// The registry invariant.
    pub open spec fn wf(&self) -> bool {
        registry_wf(self.entries())
    }

    /// A fresh, empty registry with storage for `capacity` entries already
    /// reserved, so that filling it does not force the table to reallocate
    /// while an operation is underway.
    pub fn new(capacity: usize) -> (r: Registry)
        ensures
            r.entries() == (Map::<usize, AllocHandle>::empty()),
            r.wf(),
    {
        Registry { table: table_with_capacity(capacity) }
    }

    /// Registers `handle` at `base` if the range is fresh, fits in the
    /// address space and overlaps no live allocation; rejects it otherwise.
    pub fn try_insert(&mut self, base: usize, handle: AllocHandle) -> (ok: bool)
        requires
            old(self).wf(),
        ensures
            final(self).wf(),
            ok == spec_can_insert(old(self).entries(), base, handle),
            ok ==> final(self).entries() == old(self).entries().insert(base, handle),
            !ok ==> final(self).entries() == old(self).entries(),
    {
        let ghost m = self.entries();
        if handle.size > usize::MAX - base {
            return false;
        }
        if table_get(&self.table, base).is_some() {
            return false;
        }
        let pairs = table_pairs(&self.table);
        let n = pairs.len();
        let mut i: usize = 0;
        while i < n
            invariant
                self.entries() == m,
                registry_wf(m),
                !m.contains_key(base),
                base + handle.size <= usize::MAX,
                n == pairs@.len(),
                i <= n,
                forall|j: int|
                    0 <= j < n ==> #[trigger] m.contains_pair(pairs@[j].0, pairs@[j].1),
                forall|k: usize|
                    #[trigger] m.contains_key(k)
                        ==> exists|j: int| 0 <= j < n && (#[trigger] pairs@[j]).0 == k,
                forall|j: int|
                    0 <= j < i ==> ranges_disjoint(
                        base,
                        handle.size,
                        (#[trigger] pairs@[j]).0,
                        pairs@[j].1.size,
                    ),
            decreases n - i,
        {
            let b = pairs[i].0;
            let s = pairs[i].1.size;
            proof {
                assert(m.contains_pair(pairs@[i as int].0, pairs@[i as int].1));
                assert(m.contains_key(b));
            }
            if !ranges_disjoint_exec(base, handle.size, b, s) {
                proof {
                    assert(!ranges_disjoint(base, handle.size, b, m[b].size));
                }
                return false;
            }
            i = i + 1;
        }
        proof {
            assert forall|k: usize| #[trigger] m.contains_key(k) implies ranges_disjoint(
                base,
                handle.size,
                k,
                m[k].size,
            ) by {
                let j = choose|j: int| 0 <= j < n && (#[trigger] pairs@[j]).0 == k;
                assert(m.contains_pair(pairs@[j].0, pairs@[j].1));
            }
            assert(spec_can_insert(m, base, handle));
        }
        table_insert(&mut self.table, base, handle);
        proof {
            lemma_insert_preserves_wf(m, base, handle);
        }
        true
    }

    /// Unregisters the allocation at `base`, returning its handle.
    pub fn remove(&mut self, base: usize) -> (r: Option<AllocHandle>)
        requires
            old(self).wf(),
        ensures
            final(self).wf(),
            old(self).entries().contains_key(base) ==> r == Some(
                old(self).entries()[base],
            ) && final(self).entries() == old(self).entries().remove(base),
            !old(self).entries().contains_key(base) ==> r == None::<AllocHandle>
                && final(self).entries() == old(self).entries(),
    {
        let ghost m = self.entries();
        let r = table_remove(&mut self.table, base);
        proof {
            let m2 = self.entries();
            assert(m2 == m.remove(base));
            assert(m2.dom() == m.dom().remove(base));
            if !m.contains_key(base) {
                assert(m2 =~= m);
            }
            assert forall|k: usize| #[trigger] m2.contains_key(k) implies k + m2[k].size
                <= usize::MAX by {
                assert(m.contains_key(k));
            }
            assert forall|k1: usize, k2: usize|
                #[trigger] m2.contains_key(k1) && #[trigger] m2.contains_key(k2) && k1 != k2
                implies ranges_disjoint(k1, m2[k1].size, k2, m2[k2].size) by {
                assert(m.contains_key(k1) && m.contains_key(k2));
            }
        }
        r
    }

    /// Replaces the handle registered at `base` with one of the same size,
    /// leaving every other binding alone.
    pub fn replace(&mut self, base: usize, handle: AllocHandle)
        requires
            old(self).wf(),
            old(self).entries().contains_key(base),
            handle.size == old(self).entries()[base].size,
        ensures
            final(self).wf(),
            final(self).entries() == old(self).entries().insert(base, handle),
    {
        let ghost m = self.entries();
        let _removed = self.remove(base);
        proof {
            let m1 = m.remove(base);
            assert(!m1.contains_key(base));
            assert(base + handle.size <= usize::MAX);
            assert forall|k: usize| #[trigger] m1.contains_key(k) implies ranges_disjoint(
                base,
                handle.size,
                k,
                m1[k].size,
            ) by {
                assert(m.contains_key(k) && k != base);
            }
            assert(spec_can_insert(m1, base, handle));
        }
        let ok = self.try_insert(base, handle);
        proof {
            assert(ok);
            assert(m.remove(base).insert(base, handle) =~= m.insert(base, handle));
        }
    }

    /// Every binding, each base address exactly once, in unspecified order.
    pub fn pairs(&self) -> (r: Vec<(usize, AllocHandle)>)
        ensures
            r@.len() == self.entries().len(),
            forall|i: int|
                0 <= i < r@.len() ==> #[trigger] self.entries().contains_pair(r@[i].0, r@[i].1),
            forall|k: usize|
                #[trigger] self.entries().contains_key(k)
                    ==> exists|i: int| 0 <= i < r@.len() && (#[trigger] r@[i]).0 == k,
            forall|i: int, j: int| 0 <= i < j < r@.len() ==> r@[i].0 != r@[j].0,
    {
        table_pairs(&self.table)
    }

    /// Finds the live allocation whose range covers `addr`, if any: the
    /// linear scan behind interior-pointer lookups.
    pub fn find_containing(&self, addr: usize) -> (r: Option<(usize, AllocHandle)>)
        requires
            self.wf(),
        ensures
            (match r {
                Some(p) => self.entries().contains_key(p.0) && self.entries()[p.0] == p.1
                    && handle_contains_addr(p.0, p.1, addr),
                None => !spec_owns(self.entries(), addr),
            }),
    {
        let ghost m = self.entries();
        let pairs = table_pairs(&self.table);
        let n = pairs.len();
        let mut i: usize = 0;
        while i < n
            invariant
                self.entries() == m,
                registry_wf(m),
                n == pairs@.len(),
                i <= n,
                forall|j: int|
                    0 <= j < n ==> #[trigger] m.contains_pair(pairs@[j].0, pairs@[j].1),
                forall|k: usize|
                    #[trigger] m.contains_key(k)
                        ==> exists|j: int| 0 <= j < n && (#[trigger] pairs@[j]).0 == k,
                forall|j: int|
                    0 <= j < i ==> !handle_contains_addr(
                        (#[trigger] pairs@[j]).0,
                        pairs@[j].1,
                        addr,
                    ),
            decreases n - i,
        {
            let b = pairs[i].0;
            let s = pairs[i].1.size;
            proof {
                assert(m.contains_pair(pairs@[i as int].0, pairs@[i as int].1));
                assert(m.contains_key(b));
            }
            if b <= addr && addr - b < s {
                let h = table_get(&self.table, b);
                return Some((b, h.unwrap()));
            }
            i = i + 1;
        }
        proof {
            assert forall|b: usize| #[trigger] m.contains_key(b) implies !handle_contains_addr(
                b,
                m[b],
                addr,
            ) by {
                let j = choose|j: int| 0 <= j < n && (#[trigger] pairs@[j]).0 == b;
                assert(m.contains_pair(pairs@[j].0, pairs@[j].1));
            }
        }
        None
    }
}

} // verus!
