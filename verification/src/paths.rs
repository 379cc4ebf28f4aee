//! The default path provider: collision-free locations for backing files,
//! built from a fixed directory and a monotonically increasing counter.

use vstd::prelude::*;
use crate::text::push_padded_decimal;
use crate::text::push_str;
use crate::text::spec_padded_decimal;
use crate::text::lemma_padded_decimal_injective;

verus! {

/// The characters `alloc_`.
pub open spec fn spec_name_prefix() -> Seq<char> {
    seq!['a', 'l', 'l', 'o', 'c', '_']
}

/// The characters `.mem`.
pub open spec fn spec_name_suffix() -> Seq<char> {
    seq!['.', 'm', 'e', 'm']
}

/// The file name used for the allocation numbered `n`.
pub open spec fn spec_file_name(n: u64) -> Seq<char> {
    spec_name_prefix() + spec_padded_decimal(n as int, 10) + spec_name_suffix()
}

/// The full path used for the allocation numbered `n` under `dir`.
pub open spec fn spec_alloc_path(dir: Seq<char>, n: u64) -> Seq<char> {
    dir + seq!['/'] + spec_file_name(n)
}

/// Hands out the backing-file path for each new allocation.  The counter
/// only ever grows, so no two allocations of one provider share a path.
pub struct PathProvider {
    /// Directory every backing file is placed under.
    pub dir: String,
    /// Number of the next allocation.
    pub counter: u64,
}

impl PathProvider {
    /// A provider that places its files under `dir`.
    pub fn new(dir: String) -> (p: PathProvider)
        ensures
            p.dir == dir,
            p.counter == 0,
    {
        PathProvider { dir, counter: 0 }
    }

    /// The next backing-file path.  Yields nothing once the counter is
    /// exhausted, which a caller reports as an ordinary allocation failure.
    pub fn next_path(&mut self) -> (r: Option<String>)
        ensures
            old(self).counter == u64::MAX ==> r == None::<String> && *final(self) == *old(self),
            old(self).counter < u64::MAX ==> (match r {
                Some(p) => p@ == spec_alloc_path(old(self).dir@, old(self).counter),
                None => false,
            }) && final(self).counter == old(self).counter + 1 && final(self).dir == old(
                self,
            ).dir,
    {
        if self.counter == u64::MAX {
            return None;
        }
        let mut p = self.dir.clone();
        push_str(&mut p, "/");
        push_str(&mut p, "alloc_");
        push_padded_decimal(&mut p, self.counter, 10);
        push_str(&mut p, ".mem");
        proof {
            reveal_strlit("/");
            reveal_strlit("alloc_");
            reveal_strlit(".mem");
            assert("/"@ =~= seq!['/']);
            assert("alloc_"@ =~= spec_name_prefix());
            assert(".mem"@ =~= spec_name_suffix());
            assert(p@ =~= spec_alloc_path(self.dir@, self.counter));
        }
        self.counter = self.counter + 1;
        Some(p)
    }
}

/// Law: under one directory, allocations with different numbers never share
/// a backing-file path, so the default provider is collision-free.
pub proof fn lemma_alloc_paths_distinct(dir: Seq<char>, n1: u64, n2: u64)
    requires
        n1 != n2,
    ensures
        spec_alloc_path(dir, n1) != spec_alloc_path(dir, n2),
{
    lemma_padded_decimal_injective(n1 as int, n2 as int, 10);
    let p1 = spec_padded_decimal(n1 as int, 10);
    let p2 = spec_padded_decimal(n2 as int, 10);
    if spec_alloc_path(dir, n1) == spec_alloc_path(dir, n2) {
        assert(spec_alloc_path(dir, n1).len() == dir.len() + 1 + 6 + p1.len() + 4);
        assert(spec_alloc_path(dir, n2).len() == dir.len() + 1 + 6 + p2.len() + 4);
        assert(p1.len() == p2.len());
        assert forall|i: int| 0 <= i < p1.len() implies p1[i] == p2[i] by {
            let off = dir.len() + 7;
            assert(spec_alloc_path(dir, n1)[off + i] == p1[i]);
            assert(spec_alloc_path(dir, n2)[off + i] == p2[i]);
        }
        assert(p1 =~= p2);
        assert(false);
    }
}

} // verus!
