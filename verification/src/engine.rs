//! The allocation engine: the bookkeeping behind every allocate, resize and
//! deallocate, together with the introspection operations.
//!
//! The engine works in steps.  A `begin_*` call consults the reentrancy
//! guard and, when the file-backed path may be taken, raises it and settles
//! the registry side of the operation.  The embedding program then performs
//! the filesystem and mapping work and reports the outcome to the matching
//! `finish_*` call, which records it and lowers the guard.  Every step says
//! exactly what it does to the engine's state.

use vstd::prelude::*;
use crate::guard::ReentrancyGuard;
use crate::layout::Layout;
use crate::paths::PathProvider;
use crate::paths::spec_alloc_path;
use crate::text::push_char;
use crate::text::push_padded_hex;
use crate::text::push_str;
use crate::text::spec_padded_hex;
use crate::graphics::Message;
use crate::registry::AllocHandle;
use crate::registry::Registry;
use crate::registry::handle_contains_addr;
use crate::registry::lemma_insert_preserves_wf;
use crate::registry::lemma_owner_unique;
use crate::registry::registry_wf;
use crate::registry::spec_can_insert;
use crate::registry::spec_owns;

verus! {

/// The stupid allocator's state: the reentrancy guard, the registry of
/// live allocations, and the provider of backing-file paths.
pub struct StupidAlloc {
    /// Decides whether a request may take the file-backed path.
    pub guard: ReentrancyGuard,
    /// Every live file-backed allocation, keyed by base address.
    pub registry: Registry,
    /// Hands out a fresh backing-file path per allocation.
    pub paths: PathProvider,
}

/// What a `begin_resize` or `begin_deallocate` decided.
pub enum CoreStep {
    /// The guard forbids file-backed work: delegate to the system allocator
    /// and leave the engine alone.
    Fallback,
    /// The pointer was never registered here: a caller mixed allocators,
    /// which the embedding program must treat as fatal.
    NotRegistered,
    /// The operation may proceed on this registered allocation, now removed
    /// from the registry; the guard has been raised.
    Proceed {
        /// The handle that was registered at the given base address.
        handle: AllocHandle,
    },
}

/// A sorted introspection snapshot: one line per live allocation, in
/// ascending base-address order, each carrying its backing path.
pub open spec fn is_snapshot_of(s: Seq<(usize, String)>, m: Map<usize, AllocHandle>) -> bool {
    &&& forall|a: int, b: int| 0 <= a < b < s.len() ==> s[a].0 < s[b].0
    &&& forall|a: int|
        0 <= a < s.len() ==> m.contains_key((#[trigger] s[a]).0) && s[a].1 == m[s[a].0].path
    &&& forall|k: usize|
        #[trigger] m.contains_key(k) ==> exists|a: int| 0 <= a < s.len() && (#[trigger] s[a]).0
            == k
}

/// The heading of the textual state.
pub open spec fn spec_state_heading() -> Seq<char> {
    "Stupid allocation state:\n"@
}

/// One line of the textual state: the base address as eight or more hex
/// digits, then the backing path.
pub open spec fn spec_state_line(base: usize, path: Seq<char>) -> Seq<char> {
    seq!['-', ' ', '0', 'x'] + spec_padded_hex(base as int, 8) + seq![' ', '@', ' '] + path + seq![
        '\n',
    ]
}

/// The lines of the textual state, one per snapshot entry, in order.
pub open spec fn spec_state_text(s: Seq<(usize, String)>) -> Seq<char>
    decreases s.len(),
{
    if s.len() == 0 {
        Seq::empty()
    } else {
        spec_state_text(s.drop_last()) + spec_state_line(s.last().0, s.last().1@)
    }
}

impl StupidAlloc {
    /// The live allocations, keyed by base address.
    pub open spec fn allocations(&self) -> Map<usize, AllocHandle> {
        self.registry.entries()
    }

    /// The engine's invariant: the registry's own.
    pub open spec fn wf(&self) -> bool {
        self.registry.wf()
    }

    /// A fresh engine placing backing files under `dir`, with registry
    /// storage for `capacity` allocations pre-reserved.
    pub fn new(dir: String, capacity: usize) -> (a: StupidAlloc)
        ensures
            a.wf(),
            a.allocations() == (Map::<usize, AllocHandle>::empty()),
            a.guard == (ReentrancyGuard { allocating: 0, deallocating: 0, switched_off: false }),
            a.paths.dir == dir,
            a.paths.counter == 0,
    {
        StupidAlloc {
            guard: ReentrancyGuard::new(),
            registry: Registry::new(capacity),
            paths: PathProvider::new(dir),
        }
    }

    /// Enables (`true`) or disables (`false`) file-backed allocation for
    /// the engine's callers.
    pub fn enable_in_thread(&mut self, value: bool)
        ensures
            *final(self) == (StupidAlloc {
                guard: ReentrancyGuard { switched_off: !value, ..old(self).guard },
                ..*old(self)
            }),
    {
        self.guard.set_enabled(value);
    }

    /// A snapshot of every live allocation: base address and backing path,
    /// sorted by base address.  With no intervening mutation, two
    /// snapshots are identical (see `lemma_state_deterministic`).
    #[verifier::rlimit(100)]
    pub fn state(&self) -> (r: Vec<(usize, String)>)
        ensures
            is_snapshot_of(r@, self.allocations()),
    {
        let ghost m = self.allocations();
        let pairs = self.registry.pairs();
        let n = pairs.len();
        let mut out: Vec<(usize, String)> = Vec::new();
        let mut i: usize = 0;
        while i < n
            invariant
                n == pairs@.len(),
                i <= n,
                forall|t: int|
                    0 <= t < n ==> #[trigger] m.contains_pair(pairs@[t].0, pairs@[t].1),
                forall|t1: int, t2: int| 0 <= t1 < t2 < n ==> pairs@[t1].0 != pairs@[t2].0,
                forall|a: int, b: int| 0 <= a < b < out@.len() ==> out@[a].0 < out@[b].0,
                forall|a: int|
                    0 <= a < out@.len() ==> m.contains_key((#[trigger] out@[a]).0) && out@[a].1
                        == m[out@[a].0].path,
                forall|a: int|
                    0 <= a < out@.len() ==> exists|t: int|
                        0 <= t < i && (#[trigger] out@[a]).0 == pairs@[t].0,
                forall|t: int|
                    0 <= t < i ==> exists|a: int|
                        0 <= a < out@.len() && (#[trigger] pairs@[t]).0 == out@[a].0,
            decreases n - i,
        {
            let key = pairs[i].0;
            let path = pairs[i].1.path.clone();
            proof {
                assert(m.contains_pair(pairs@[i as int].0, pairs@[i as int].1));
            }
            let mut pos: usize = 0;
            while pos < out.len() && out[pos].0 < key
                invariant
                    pos <= out@.len(),
                    forall|a: int| 0 <= a < pos ==> (#[trigger] out@[a]).0 < key,
                decreases out@.len() - pos,
            {
                pos = pos + 1;
            }
            proof {
                assert forall|a: int| 0 <= a < out@.len() implies (#[trigger] out@[a]).0
                    != key by {
                    let t = choose|t: int| 0 <= t < i && (#[trigger] out@[a]).0 == pairs@[t].0;
                    assert(pairs@[t].0 != pairs@[i as int].0);
                }
            }
            let ghost prev = out@;
            out.insert(pos, (key, path));
            proof {
                prev.insert_ensures(pos as int, (key, path));
                assert forall|a: int, b: int| 0 <= a < b < out@.len() implies out@[a].0
                    < out@[b].0 by {
                    if b == pos as int {
                        assert(out@[a] == prev[a]);
                    } else if a == pos as int {
                        assert(out@[b] == prev[b - 1]);
                        assert(pos < prev.len());
                        assert(prev[pos as int].0 != key);
                        assert(prev[pos as int].0 >= key);
                        if b - 1 > pos {
                            assert(prev[pos as int].0 < prev[b - 1].0);
                        }
                    } else if a < pos && b > pos {
                        assert(out@[a] == prev[a] && out@[b] == prev[b - 1]);
                        assert(prev[a].0 < key);
                        assert(pos < prev.len() && prev[pos as int].0 >= key);
                        if b - 1 > pos {
                            assert(prev[pos as int].0 < prev[b - 1].0);
                        }
                    }
                }
                assert forall|a: int|
                    0 <= a < out@.len() implies m.contains_key((#[trigger] out@[a]).0)
                    && out@[a].1 == m[out@[a].0].path by {
                    if a < pos {
                        assert(out@[a] == prev[a]);
                    } else if a == pos as int {
                    } else {
                        assert(out@[a] == prev[a - 1]);
                    }
                }
                assert forall|a: int| 0 <= a < out@.len() implies exists|t: int|
                    0 <= t < i + 1 && (#[trigger] out@[a]).0 == pairs@[t].0 by {
                    if a == pos as int {
                        assert(out@[a].0 == pairs@[i as int].0);
                    } else {
                        let ai = if a < pos {
                            a
                        } else {
                            a - 1
                        };
                        assert(out@[a] == prev[ai]);
                        let t = choose|t: int| 0 <= t < i && prev[ai].0 == pairs@[t].0;
                        assert(out@[a].0 == pairs@[t].0);
                    }
                }
                assert forall|t: int| 0 <= t < i + 1 implies exists|a: int|
                    0 <= a < out@.len() && (#[trigger] pairs@[t]).0 == out@[a].0 by {
                    if t == i as int {
                        assert(pairs@[t].0 == out@[pos as int].0);
                    } else {
                        let a = choose|a: int| 0 <= a < prev.len() && pairs@[t].0 == prev[a].0;
                        if a < pos {
                            assert(pairs@[t].0 == out@[a].0);
                        } else {
                            assert(pairs@[t].0 == out@[a + 1].0);
                        }
                    }
                }
            }
            i = i + 1;
        }
        proof {
            assert forall|k: usize| #[trigger] m.contains_key(k) implies exists|a: int|
                0 <= a < out@.len() && (#[trigger] out@[a]).0 == k by {
                let t = choose|t: int| 0 <= t < pairs@.len() && (#[trigger] pairs@[t]).0 == k;
                let a = choose|a: int| 0 <= a < out@.len() && pairs@[t].0 == out@[a].0;
                assert(out@[a].0 == k);
            }
        }
        out
    }

    /// The textual form of the state: a heading, then one line per live
    /// allocation in snapshot order.
    pub fn state_string(&self) -> (r: String)
        ensures
            exists|s: Seq<(usize, String)>|
                is_snapshot_of(s, self.allocations()) && r@ == spec_state_heading()
                    + spec_state_text(s),
    {
        let snapshot = self.state();
        let mut r = String::new();
        push_str(&mut r, "Stupid allocation state:\n");
        proof {
            assert(r@ =~= spec_state_heading());
        }
        let n = snapshot.len();
        let mut i: usize = 0;
        while i < n
            invariant
                n == snapshot@.len(),
                i <= n,
                r@ == spec_state_heading() + spec_state_text(snapshot@.take(i as int)),
            decreases n - i,
        {
            push_str(&mut r, "- 0x");
            push_padded_hex(&mut r, snapshot[i].0, 8);
            push_str(&mut r, " @ ");
            push_str(&mut r, snapshot[i].1.as_str());
            push_char(&mut r, '\n');
            proof {
                reveal_strlit("- 0x");
                reveal_strlit(" @ ");
                assert("- 0x"@ =~= seq!['-', ' ', '0', 'x']);
                assert(" @ "@ =~= seq![' ', '@', ' ']);
                let t = snapshot@.take(i as int + 1);
                assert(t.drop_last() =~= snapshot@.take(i as int));
                assert(t.last() == snapshot@[i as int]);
                assert(r@ =~= spec_state_heading() + spec_state_text(t));
            }
            i = i + 1;
        }
        proof {
            assert(snapshot@.take(n as int) =~= snapshot@);
        }
        r
    }

    /// The backing path of the allocation whose range covers `addr`, if
    /// any: the interior-pointer lookup.
    pub fn file_of(&self, addr: usize) -> (r: Option<String>)
        requires
            self.wf(),
        ensures
            (match r {
                Some(p) => spec_owns(self.allocations(), addr) && forall|b: usize|
                    #[trigger] self.allocations().contains_key(b) && handle_contains_addr(
                        b,
                        self.allocations()[b],
                        addr,
                    ) ==> p == self.allocations()[b].path,
                None => !spec_owns(self.allocations(), addr),
            }),
    {
        let ghost m = self.allocations();
        match self.registry.find_containing(addr) {
            Some((b, h)) => {
                proof {
                    assert(m.contains_key(b) && handle_contains_addr(b, m[b], addr));
                    assert forall|b2: usize|
                        #[trigger] m.contains_key(b2) && handle_contains_addr(b2, m[b2], addr)
                        implies h.path == m[b2].path by {
                        lemma_owner_unique(m, addr, b, b2);
                    }
                }
                Some(h.path)
            },
            None => None,
        }
    }

    /// Opens (or re-opens) the graphical view of the allocation covering
    /// `addr` with the given column count.  `finished` reports whether the
    /// previously attached view, if any, has already ended; a still-live
    /// view is left alone.  Returns the base address and backing path the
    /// embedding program must open a window over.
    pub fn open_window_of(&mut self, addr: usize, columns: usize, finished: bool) -> (r: Option<
        (usize, String),
    >)
        requires
            old(self).wf(),
        ensures
            final(self).wf(),
            final(self).guard == old(self).guard,
            final(self).paths == old(self).paths,
            (match r {
                Some(t) => old(self).allocations().contains_key(t.0) && handle_contains_addr(
                    t.0,
                    old(self).allocations()[t.0],
                    addr,
                ) && t.1 == old(self).allocations()[t.0].path && (old(self).allocations()[
                    t.0
                ].window == None::<usize> || finished) && final(self).allocations() == old(self).allocations().insert(
                    t.0,
                    (AllocHandle {
                        size: old(self).allocations()[t.0].size,
                        path: old(self).allocations()[t.0].path,
                        window: Some(columns),
                    }),
                ),
                None => final(self).allocations() == old(self).allocations() && (forall|b: usize|
                    #[trigger] old(self).allocations().contains_key(b) && handle_contains_addr(
                        b,
                        old(self).allocations()[b],
                        addr,
                    ) ==> old(self).allocations()[b].window is Some && !finished),
            }),
    {
        let ghost m = self.allocations();
        match self.registry.find_containing(addr) {
            None => None,
            Some((b, h)) => {
                let had_window = match h.window {
                    Some(_) => true,
                    None => false,
                };
                if !had_window || finished {
                    let h2 = AllocHandle {
                        size: h.size,
                        path: h.path.clone(),
                        window: Some(columns),
                    };
                    self.registry.replace(b, h2);
                    Some((b, h.path))
                } else {
                    proof {
                        assert forall|b2: usize|
                            #[trigger] m.contains_key(b2) && handle_contains_addr(
                                b2,
                                m[b2],
                                addr,
                            ) implies m[b2].window is Some && !finished by {
                            lemma_owner_unique(m, addr, b, b2);
                        }
                    }
                    None
                }
            },
        }
    }

    /// If the allocation covering `addr` has a graphical view attached,
    /// records its new column count and returns the base address together
    /// with the message the embedding program must send to that view.
    pub fn set_columns_of(&mut self, addr: usize, columns: usize) -> (r: Option<(usize, Message)>)
        requires
            old(self).wf(),
        ensures
            final(self).wf(),
            final(self).guard == old(self).guard,
            final(self).paths == old(self).paths,
            (match r {
                Some(t) => old(self).allocations().contains_key(t.0) && handle_contains_addr(
                    t.0,
                    old(self).allocations()[t.0],
                    addr,
                ) && old(self).allocations()[t.0].window is Some && t.1 == (Message::Resize {
                    columns,
                }) && final(self).allocations() == old(self).allocations().insert(
                    t.0,
                    (AllocHandle {
                        size: old(self).allocations()[t.0].size,
                        path: old(self).allocations()[t.0].path,
                        window: Some(columns),
                    }),
                ),
                None => final(self).allocations() == old(self).allocations() && (forall|b: usize|
                    #[trigger] old(self).allocations().contains_key(b) && handle_contains_addr(
                        b,
                        old(self).allocations()[b],
                        addr,
                    ) ==> old(self).allocations()[b].window is None),
            }),
    {
        let ghost m = self.allocations();
        match self.registry.find_containing(addr) {
            None => None,
            Some((b, h)) => {
                match h.window {
                    Some(_) => {
                        let h2 = AllocHandle {
                            size: h.size,
                            path: h.path,
                            window: Some(columns),
                        };
                        self.registry.replace(b, h2);
                        Some((b, Message::Resize { columns }))
                    },
                    None => {
                        proof {
                            assert forall|b2: usize|
                                #[trigger] m.contains_key(b2) && handle_contains_addr(
                                    b2,
                                    m[b2],
                                    addr,
                                ) implies m[b2].window is None by {
                                lemma_owner_unique(m, addr, b, b2);
                            }
                        }
                        None
                    },
                }
            },
        }
    }

    /// Detaches the graphical view of the allocation covering `addr`, if
    /// one is attached, and returns its base address so the embedding
    /// program can close the window.
    pub fn close_graphics_of(&mut self, addr: usize) -> (r: Option<usize>)
        requires
            old(self).wf(),
        ensures
            final(self).wf(),
            final(self).guard == old(self).guard,
            final(self).paths == old(self).paths,
            (match r {
                Some(b) => old(self).allocations().contains_key(b) && handle_contains_addr(
                    b,
                    old(self).allocations()[b],
                    addr,
                ) && old(self).allocations()[b].window is Some && final(self).allocations() == old(self).allocations().insert(
                    b,
                    (AllocHandle {
                        size: old(self).allocations()[b].size,
                        path: old(self).allocations()[b].path,
                        window: None::<usize>,
                    }),
                ),
                None => final(self).allocations() == old(self).allocations() && (forall|b: usize|
                    #[trigger] old(self).allocations().contains_key(b) && handle_contains_addr(
                        b,
                        old(self).allocations()[b],
                        addr,
                    ) ==> old(self).allocations()[b].window is None),
            }),
    {
        let ghost m = self.allocations();
        match self.registry.find_containing(addr) {
            None => None,
            Some((b, h)) => {
                match h.window {
                    Some(_) => {
                        let h2 = AllocHandle { size: h.size, path: h.path, window: None };
                        self.registry.replace(b, h2);
                        Some(b)
                    },
                    None => {
                        proof {
                            assert forall|b2: usize|
                                #[trigger] m.contains_key(b2) && handle_contains_addr(
                                    b2,
                                    m[b2],
                                    addr,
                                ) implies m[b2].window is None by {
                                lemma_owner_unique(m, addr, b, b2);
                            }
                        }
                        None
                    },
                }
            },
        }
    }

    /// The default path provider's next backing-file path; `None` once the
    /// counter is exhausted, which a caller reports as an ordinary
    /// allocation failure.
    pub fn get_alloc_file_path(&mut self) -> (r: Option<String>)
        ensures
            final(self).guard == old(self).guard,
            final(self).registry == old(self).registry,
            old(self).paths.counter == u64::MAX ==> r == None::<String> && final(self).paths
                == old(self).paths,
            old(self).paths.counter < u64::MAX ==> (match r {
                Some(p) => p@ == spec_alloc_path(old(self).paths.dir@, old(self).paths.counter),
                None => false,
            }) && final(self).paths.counter == old(self).paths.counter + 1 && final(self).paths.dir == old(self).paths.dir,
    {
        self.paths.next_path()
    }

    /// First step of `allocate` and `allocate_zeroed`: consult the guard.
    /// Returns `false` when the request must be served by the system
    /// allocator, leaving the engine untouched.  Returns `true` when the
    /// file-backed path is taken, with the guard raised; the caller then
    /// asks its confirmation and path providers and hands their answers to
    /// `proceed_allocate`.
    pub fn begin_allocate(&mut self) -> (proceed: bool)
        ensures
            proceed == !old(self).guard.spec_should_use_fallback(),
            !proceed ==> *final(self) == *old(self),
            proceed ==> *final(self) == (StupidAlloc {
                guard: ReentrancyGuard {
                    allocating: (old(self).guard.allocating + 1) as usize,
                    ..old(self).guard
                },
                ..*old(self)
            }),
    {
        if self.guard.should_use_fallback() {
            false
        } else {
            self.guard.enter_allocating();
            true
        }
    }

    /// Second step of an allocation: act on the confirmation provider's
    /// answer and the path provider's path.  A declined or path-less
    /// request ends the operation (the guard is lowered) and yields
    /// nothing: the allocation fails like an exhausted heap.  Otherwise
    /// the returned path is where the embedding program must provision
    /// the backing file before calling `finish_allocate`.
    pub fn proceed_allocate(&mut self, confirmed: bool, path: Option<String>) -> (r: Option<
        String,
    >)
        requires
            old(self).guard.allocating > 0,
        ensures
            confirmed && path is Some ==> r == path && *final(self) == *old(self),
            !(confirmed && path is Some) ==> r == None::<String> && *final(self) == (StupidAlloc {
                guard: ReentrancyGuard {
                    allocating: (old(self).guard.allocating - 1) as usize,
                    ..old(self).guard
                },
                ..*old(self)
            }),
    {
        if confirmed {
            match path {
                Some(p) => {
                    return Some(p);
                },
                None => {},
            }
        }
        self.guard.leave_allocating();
        None
    }

    /// Last step of an allocation: the embedding program provisioned the
    /// backing file at `path` and mapped it at `base`.  Registers the
    /// allocation and lowers the guard.  The registration is rejected
    /// (`false`) if the new range would collide with a live allocation or
    /// overflow the address space; the embedding program must treat that
    /// as fatal, since it means the platform handed out overlapping
    /// mappings.
    pub fn finish_allocate(&mut self, layout: &Layout, path: String, base: usize) -> (ok: bool)
        requires
            old(self).wf(),
            old(self).guard.allocating > 0,
        ensures
            final(self).wf(),
            ok == spec_can_insert(
                old(self).allocations(),
                base,
                (AllocHandle { size: layout.size, path: path, window: None::<usize> }),
            ),
            ok ==> final(self).allocations() == old(self).allocations().insert(
                base,
                (AllocHandle { size: layout.size, path: path, window: None::<usize> }),
            ),
            !ok ==> final(self).allocations() == old(self).allocations(),
            final(self).guard == (ReentrancyGuard {
                allocating: (old(self).guard.allocating - 1) as usize,
                ..old(self).guard
            }),
            final(self).paths == old(self).paths,
    {
        let handle = AllocHandle { size: layout.size, path, window: None };
        let ok = self.registry.try_insert(base, handle);
        self.guard.leave_allocating();
        ok
    }

    /// First step of `grow`, `grow_zeroed` and `shrink`: consult the
    /// guard, then look the pointer up.  On `Proceed` the allocation has
    /// been unregistered, its handle is returned for the embedding program
    /// to resize the backing file and remap it, and the guard is raised
    /// until `finish_resize`.
    pub fn begin_resize(&mut self, addr: usize) -> (r: CoreStep)
        requires
            old(self).wf(),
        ensures
            final(self).wf(),
            old(self).guard.spec_should_use_fallback() ==> r is Fallback && *final(self) == *old(self),
            !old(self).guard.spec_should_use_fallback() && !old(self).allocations().contains_key(
                addr,
            ) ==> r is NotRegistered && final(self).allocations() == old(self).allocations()
                && final(self).guard == old(self).guard && final(self).paths == old(self).paths,
            !old(self).guard.spec_should_use_fallback() && old(self).allocations().contains_key(
                addr,
            ) ==> r == (CoreStep::Proceed { handle: old(self).allocations()[addr] }) && final(self).allocations() == old(self).allocations().remove(addr) && final(self).guard
                == (ReentrancyGuard {
                allocating: (old(self).guard.allocating + 1) as usize,
                ..old(self).guard
            }) && final(self).paths == old(self).paths,
    {
        if self.guard.should_use_fallback() {
            return CoreStep::Fallback;
        }
        match self.registry.remove(addr) {
            None => CoreStep::NotRegistered,
            Some(handle) => {
                self.guard.enter_allocating();
                CoreStep::Proceed { handle }
            },
        }
    }

    /// Last step of a resize: the backing file now has `new_size` bytes
    /// and is mapped at `new_base`.  Re-registers the allocation there,
    /// keeping its backing path and attached view, and lowers the guard.
    /// As with `finish_allocate`, a colliding range is rejected.
    pub fn finish_resize(&mut self, handle: AllocHandle, new_size: usize, new_base: usize) -> (ok:
        bool)
        requires
            old(self).wf(),
            old(self).guard.allocating > 0,
        ensures
            final(self).wf(),
            ok == spec_can_insert(
                old(self).allocations(),
                new_base,
                (AllocHandle { size: new_size, path: handle.path, window: handle.window }),
            ),
            ok ==> final(self).allocations() == old(self).allocations().insert(
                new_base,
                (AllocHandle { size: new_size, path: handle.path, window: handle.window }),
            ),
            !ok ==> final(self).allocations() == old(self).allocations(),
            final(self).guard == (ReentrancyGuard {
                allocating: (old(self).guard.allocating - 1) as usize,
                ..old(self).guard
            }),
            final(self).paths == old(self).paths,
    {
        let moved = AllocHandle { size: new_size, path: handle.path, window: handle.window };
        let ok = self.registry.try_insert(new_base, moved);
        self.guard.leave_allocating();
        ok
    }

    /// First step of `deallocate`: consult the guard, then look the
    /// pointer up.  On `Proceed` the allocation has been unregistered and
    /// the guard's deallocating state raised; the embedding program then
    /// drops the mapping and the file handle, deletes the backing file at
    /// the handle's path — allocations made by that deletion fall back to
    /// the system allocator — and calls `finish_deallocate`.
    pub fn begin_deallocate(&mut self, addr: usize) -> (r: CoreStep)
        requires
            old(self).wf(),
        ensures
            final(self).wf(),
            old(self).guard.spec_should_use_fallback() ==> r is Fallback && *final(self) == *old(self),
            !old(self).guard.spec_should_use_fallback() && !old(self).allocations().contains_key(
                addr,
            ) ==> r is NotRegistered && final(self).allocations() == old(self).allocations()
                && final(self).guard == old(self).guard && final(self).paths == old(self).paths,
            !old(self).guard.spec_should_use_fallback() && old(self).allocations().contains_key(
                addr,
            ) ==> r == (CoreStep::Proceed { handle: old(self).allocations()[addr] }) && final(self).allocations() == old(self).allocations().remove(addr) && final(self).guard
                == (ReentrancyGuard {
                deallocating: (old(self).guard.deallocating + 1) as usize,
                ..old(self).guard
            }) && final(self).paths == old(self).paths,
    {
        if self.guard.should_use_fallback() {
            return CoreStep::Fallback;
        }
        match self.registry.remove(addr) {
            None => CoreStep::NotRegistered,
            Some(handle) => {
                self.guard.enter_deallocating();
                CoreStep::Proceed { handle }
            },
        }
    }

    /// Last step of a deallocation: the backing resources are gone; lower
    /// the guard's deallocating state.
    pub fn finish_deallocate(&mut self)
        requires
            old(self).guard.deallocating > 0,
        ensures
            *final(self) == (StupidAlloc {
                guard: ReentrancyGuard {
                    deallocating: (old(self).guard.deallocating - 1) as usize,
                    ..old(self).guard
                },
                ..*old(self)
            }),
    {
        self.guard.leave_deallocating();
    }
}

/// The default confirmation provider: every allocation is approved.  An
/// interactive provider's answer is handed to `proceed_allocate` instead.
#[allow(unused_variables)]
pub fn confirm_alloc(layout: &Layout) -> (r: bool)
    ensures
        r,
{
    true
}

/// Law: a completed allocation is observable through the lookup: once a
/// fresh range is registered, every address inside it is owned by that
/// allocation and by it alone, so `file_of` reports its backing path.
pub proof fn lemma_allocate_then_locate(
    m: Map<usize, AllocHandle>,
    base: usize,
    h: AllocHandle,
    addr: usize,
)
    requires
        registry_wf(m),
        spec_can_insert(m, base, h),
        base <= addr < base + h.size,
    ensures
        registry_wf(m.insert(base, h)),
        spec_owns(m.insert(base, h), addr),
        forall|b: usize|
            #[trigger] m.insert(base, h).contains_key(b) && handle_contains_addr(
                b,
                m.insert(base, h)[b],
                addr,
            ) ==> m.insert(base, h)[b].path == h.path,
{
    lemma_insert_preserves_wf(m, base, h);
    let m2 = m.insert(base, h);
    assert(m2.contains_key(base) && handle_contains_addr(base, m2[base], addr));
    assert forall|b: usize|
        #[trigger] m2.contains_key(b) && handle_contains_addr(b, m2[b], addr) implies m2[b].path
        == h.path by {
        lemma_owner_unique(m2, addr, base, b);
    }
}

/// Law: a deallocation removes the allocation from every observation: its
/// base address is no longer registered, and no snapshot taken afterwards
/// names it.
pub proof fn lemma_deallocate_unregisters(
    m: Map<usize, AllocHandle>,
    base: usize,
    s: Seq<(usize, String)>,
)
    requires
        is_snapshot_of(s, m.remove(base)),
    ensures
        !m.remove(base).contains_key(base),
        forall|a: int| 0 <= a < s.len() ==> (#[trigger] s[a]).0 != base,
{
    assert forall|a: int| 0 <= a < s.len() implies (#[trigger] s[a]).0 != base by {
        assert(m.remove(base).contains_key(s[a].0));
    }
}

/// The registry contents after registering a batch of allocations in
/// order.
pub open spec fn spec_insert_all(
    m: Map<usize, AllocHandle>,
    ps: Seq<(usize, AllocHandle)>,
) -> Map<usize, AllocHandle>
    decreases ps.len(),
{
    if ps.len() == 0 {
        m
    } else {
        spec_insert_all(m.insert(ps[0].0, ps[0].1), ps.drop_first())
    }
}

/// Law: registering allocations at pairwise distinct fresh bases loses
/// none and duplicates none: the registry afterwards holds exactly one
/// entry per base, and exactly as many more entries as were registered.
pub proof fn lemma_distinct_allocations_counted(
    m: Map<usize, AllocHandle>,
    ps: Seq<(usize, AllocHandle)>,
)
    requires
        m.dom().finite(),
        forall|i: int, j: int| 0 <= i < j < ps.len() ==> ps[i].0 != ps[j].0,
        forall|i: int| 0 <= i < ps.len() ==> !m.contains_key((#[trigger] ps[i]).0),
    ensures
        spec_insert_all(m, ps).dom().finite(),
        spec_insert_all(m, ps).len() == m.len() + ps.len(),
        forall|k: usize|
            #[trigger] spec_insert_all(m, ps).contains_key(k) <==> m.contains_key(k) || (
            exists|i: int| 0 <= i < ps.len() && (#[trigger] ps[i]).0 == k),
    decreases ps.len(),
{
    if ps.len() == 0 {
    } else {
        let k0 = ps[0].0;
        let h0 = ps[0].1;
        let m1 = m.insert(k0, h0);
        let tail = ps.drop_first();
        assert(m1.dom() == m.dom().insert(k0));
        assert(!m.contains_key(k0));
        assert(m1.len() == m.len() + 1);
        assert forall|i: int, j: int| 0 <= i < j < tail.len() implies tail[i].0 != tail[j].0 by {
            assert(tail[i] == ps[i + 1] && tail[j] == ps[j + 1]);
        }
        assert forall|i: int| 0 <= i < tail.len() implies !m1.contains_key(
            (#[trigger] tail[i]).0,
        ) by {
            assert(tail[i] == ps[i + 1]);
            assert(ps[i + 1].0 != ps[0].0);
            assert(!m.contains_key(ps[i + 1].0));
        }
        lemma_distinct_allocations_counted(m1, tail);
        assert(spec_insert_all(m, ps) == spec_insert_all(m1, tail));
        assert forall|k: usize| #[trigger] spec_insert_all(m, ps).contains_key(k) implies
            m.contains_key(k) || (exists|i: int|
            0 <= i < ps.len() && (#[trigger] ps[i]).0 == k) by {
            if m1.contains_key(k) {
                if k == k0 {
                    assert(ps[0].0 == k);
                }
            } else {
                let i = choose|i: int| 0 <= i < tail.len() && (#[trigger] tail[i]).0 == k;
                assert(tail[i] == ps[i + 1]);
                assert(ps[i + 1].0 == k);
            }
        }
        assert forall|k: usize|
            m.contains_key(k) || (exists|i: int|
            0 <= i < ps.len() && (#[trigger] ps[i]).0 == k) implies #[trigger] spec_insert_all(
            m,
            ps,
        ).contains_key(k) by {
            if m.contains_key(k) {
                assert(m1.contains_key(k));
            } else {
                let i = choose|i: int| 0 <= i < ps.len() && (#[trigger] ps[i]).0 == k;
                if i == 0 {
                    assert(m1.contains_key(k));
                } else {
                    assert(tail[i - 1] == ps[i]);
                    assert(tail[i - 1].0 == k);
                }
            }
        }
    }
}

/// Law: `state` is idempotent: two snapshots of the same allocations,
/// taken with no mutation in between, are identical.
pub proof fn lemma_state_deterministic(
    m: Map<usize, AllocHandle>,
    s1: Seq<(usize, String)>,
    s2: Seq<(usize, String)>,
)
    requires
        is_snapshot_of(s1, m),
        is_snapshot_of(s2, m),
    ensures
        s1 == s2,
    decreases s1.len(),
{
    if s1.len() == 0 {
        if s2.len() > 0 {
            assert(m.contains_key(s2[0].0));
            assert(false);
        }
        assert(s1 =~= s2);
    } else if s2.len() == 0 {
        assert(m.contains_key(s1[0].0));
        assert(false);
    } else {
        let k1 = s1[0].0;
        let k2 = s2[0].0;
        assert(m.contains_key(k1));
        assert(m.contains_key(k2));
        let a2 = choose|a: int| 0 <= a < s2.len() && (#[trigger] s2[a]).0 == k1;
        let a1 = choose|a: int| 0 <= a < s1.len() && (#[trigger] s1[a]).0 == k2;
        assert(a2 == 0 || s2[0].0 < s2[a2].0);
        assert(a1 == 0 || s1[0].0 < s1[a1].0);
        assert(k1 == k2);
        assert(s1[0].1 == m[k1].path && s2[0].1 == m[k1].path);
        let m1 = m.remove(k1);
        let t1 = s1.drop_first();
        let t2 = s2.drop_first();
        assert forall|a: int, b: int| 0 <= a < b < t1.len() implies t1[a].0 < t1[b].0 by {
            assert(t1[a] == s1[a + 1] && t1[b] == s1[b + 1]);
        }
        assert forall|a: int, b: int| 0 <= a < b < t2.len() implies t2[a].0 < t2[b].0 by {
            assert(t2[a] == s2[a + 1] && t2[b] == s2[b + 1]);
        }
        assert forall|a: int| 0 <= a < t1.len() implies m1.contains_key((#[trigger] t1[a]).0)
            && t1[a].1 == m1[t1[a].0].path by {
            assert(t1[a] == s1[a + 1]);
            assert(s1[0].0 < s1[a + 1].0);
        }
        assert forall|a: int| 0 <= a < t2.len() implies m1.contains_key((#[trigger] t2[a]).0)
            && t2[a].1 == m1[t2[a].0].path by {
            assert(t2[a] == s2[a + 1]);
            assert(s2[0].0 < s2[a + 1].0);
        }
        assert forall|k: usize| #[trigger] m1.contains_key(k) implies exists|a: int|
            0 <= a < t1.len() && (#[trigger] t1[a]).0 == k by {
            assert(m.contains_key(k));
            let a = choose|a: int| 0 <= a < s1.len() && (#[trigger] s1[a]).0 == k;
            assert(k != k1);
            assert(a != 0);
            assert(t1[a - 1] == s1[a]);
            assert(t1[a - 1].0 == k);
        }
        assert forall|k: usize| #[trigger] m1.contains_key(k) implies exists|a: int|
            0 <= a < t2.len() && (#[trigger] t2[a]).0 == k by {
            assert(m.contains_key(k));
            let a = choose|a: int| 0 <= a < s2.len() && (#[trigger] s2[a]).0 == k;
            assert(k != k1);
            assert(a != 0);
            assert(t2[a - 1] == s2[a]);
            assert(t2[a - 1].0 == k);
        }
        lemma_state_deterministic(m1, t1, t2);
        assert forall|a: int| 0 <= a < s1.len() implies s1[a] == s2[a] by {
            if a > 0 {
                assert(s1[a] == t1[a - 1] && s2[a] == t2[a - 1]);
            }
        }
        assert(s1 =~= s2);
    }
}

} // verus!
