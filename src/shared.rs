//! The pool behind a lock that many artists hold at once. The lock carries
//! the pool's well-formedness, so every state that any thread observes or
//! leaves behind has unique names and positive counts.

use crate::pool::{
    entries_view, lemma_index_of_unique, missing_names, names_view, position_of, stock_of, stock_wf,
    SharedResources,
};
use std::sync::Arc;
use vstd::prelude::*;
use vstd::rwlock::{RwLock, RwLockPredicate};

verus! {

/// What the pool lock guarantees of its contents.
pub struct PoolInvariant {}

impl RwLockPredicate<SharedResources> for PoolInvariant {
    open spec fn inv(self, v: SharedResources) -> bool {
        v.wf()
    }
}

/// A handle on the shared pool; each clone refers to the same pool.
pub struct SharedPool {
    pub lock: Arc<RwLock<SharedResources, PoolInvariant>>,
}

impl SharedPool {
    /// Puts a well-formed pool behind its lock.
    pub fn new(resources: SharedResources) -> (r: Self)
        requires
            resources.wf(),
    {
        SharedPool { lock: Arc::new(RwLock::new(resources, Ghost(PoolInvariant {}))) }
    }

    /// Another handle on the same pool.
    pub fn share(&self) -> (r: Self)
        ensures
            r.lock == self.lock,
    {
        SharedPool { lock: self.lock.clone() }
    }

    /// A copy of the tool stock as it stands at the moment of reading. It is
    /// well-formed, but others may withdraw right after.
    pub fn snapshot(&self) -> (r: Vec<(String, usize)>)
        ensures
            stock_wf(entries_view(r@)),
    {
        let handle = self.lock.acquire_read();
        let pool = handle.borrow();
        let mut copy: Vec<(String, usize)> = Vec::new();
        let mut k: usize = 0;
        while k < pool.tools.len()
            invariant
                k <= pool.tools.len(),
                pool.wf(),
                copy@.len() == k,
                forall|i: int|
                    0 <= i < k ==> copy@[i].0@ == pool.tools@[i].0@ && copy@[i].1 == pool.tools@[i].1,
            decreases pool.tools.len() - k,
        {
            let name = pool.tools[k].0.clone();
            copy.push((name, pool.tools[k].1));
            k = k + 1;
        }
        assert(entries_view(copy@) =~= entries_view(pool.tools@));
        handle.release_read();
        copy
    }

    /// Units of the tool left at the moment of reading; zero once exhausted.
    pub fn stock(&self, name: &String) -> (r: usize)
        ensures
            exists|s: Seq<(Seq<char>, nat)>| stock_wf(s) && r as nat == stock_of(s, name@),
    {
        let handle = self.lock.acquire_read();
        let pool = handle.borrow();
        let ghost s = pool.tools_view();
        let r = match position_of(&pool.tools, name) {
            Some(i) => {
                proof {
                    lemma_index_of_unique(s, name@, i as int);
                }
                pool.tools[i].1
            },
            None => 0,
        };
        assert(stock_wf(s) && r as nat == stock_of(s, name@));
        handle.release_read();
        r
    }

    /// Takes the pool's lock and withdraws the tools in turn. The names
    /// handed back are those not present when their turn came, as measured
    /// against the well-formed stock that the lock held.
    pub fn withdraw(&self, tools: Vec<String>) -> (missing: Vec<String>)
        ensures
            exists|s: Seq<(Seq<char>, nat)>|
                stock_wf(s) && names_view(missing@) == missing_names(s, names_view(tools@)),
    {
        let (mut pool, handle) = self.lock.acquire_write();
        let ghost s = pool.tools_view();
        let missing = pool.take_out_resources(tools);
        handle.release_write(pool);
        assert(stock_wf(s) && names_view(missing@) == missing_names(s, names_view(tools@)));
        missing
    }
}

} // verus!
