//! The allocation registry: an append-only log of which tools each artist
//! took and when, committed against the shared pool.

use crate::pool::{
    entries_view, missing_names, names_view, stock_wf, withdraw_all, SharedResources,
};
use crate::selection::{
    drawn_from, pairwise_distinct, tools_usage, MAX_ALLOWED_TOOLS, MIN_REQUIRED_TOOLS,
};
use crate::shared::SharedPool;
use std::sync::Arc;
use vstd::prelude::*;
use vstd::rwlock::{RwLock, RwLockPredicate};

verus! {

/// The lifecycle vocabulary of an inventory item. Allocation only ever
/// records `TakeOut`.
#[derive(Clone, Copy, Debug, PartialEq, Eq, Structural)]
pub enum State {
    TakeOut,
    Return,
    Fill,
    Change,
    New,
    Retire,
    Damage,
    Lost,
    Audit,
    Reserved,
    Repair,
    Expired,
    Sold,
}

/// A UTC instant: whole seconds since the Unix epoch and the nanoseconds past them.
#[derive(Clone, Copy, Debug, PartialEq, Eq, Structural)]
pub struct Timestamp {
    pub secs: i64,
    pub nanos: u32,
}

/// Relies on chrono's `Utc::now`, read back through `DateTime::timestamp` and
/// `DateTime::timestamp_subsec_nanos`. The instant is built from the system
/// clock's offset from the epoch, so the seconds are not negative and the
/// nanoseconds stay below one second. chrono panics when the system clock is
/// set before 1970; that depends on the machine, not on any argument.
#[verifier::external_body]
fn current_timestamp() -> (r: Timestamp)
    ensures
        r.secs >= 0,
        r.nanos < 1_000_000_000,
{
    let now = chrono::Utc::now();
    Timestamp { secs: now.timestamp(), nanos: now.timestamp_subsec_nanos() }
}

/// One artist's allocation: who, which tools, when, and in what state.
pub struct ArtistToolPreferences {
    pub artist_id: usize,
    pub preferred_tools: Vec<String>,
    pub datetime: Option<Timestamp>,
    pub state: Option<State>,
}

impl ArtistToolPreferences {
    /// An empty record: artist 0, no tools, no time, no state.
    pub fn default() -> (r: Self)
        ensures
            r.artist_id == 0,
            r.preferred_tools@.len() == 0,
            r.datetime.is_none(),
            r.state.is_none(),
    {
        Self { artist_id: 0, preferred_tools: vec![], datetime: None, state: None }
    }

    /// A record of a grant: the given artist and tools, stamped, taken out.
    pub open spec fn is_grant(&self, id: usize, tools: Seq<String>) -> bool {
        &&& self.artist_id == id
        &&& names_view(self.preferred_tools@) == names_view(tools)
        &&& self.datetime.is_some()
        &&& self.state == Some(State::TakeOut)
    }

    /// Every record the registry writes is stamped and taken out.
    pub open spec fn is_taken_out(&self) -> bool {
        self.datetime.is_some() && self.state == Some(State::TakeOut)
    }
}

/// The log of allocations, and the pool that grants are withdrawn from.
pub struct ArtistToolRegistry {
    pub artist_tool_preferences: Vec<ArtistToolPreferences>,
    pub shared_resources: SharedPool,
}

impl ArtistToolRegistry {
    /// Every logged record is a stamped `TakeOut`.
    pub open spec fn wf(&self) -> bool {
        forall|i: int|
            0 <= i < self.artist_tool_preferences@.len()
                ==> #[trigger] self.artist_tool_preferences@[i].is_taken_out()
    }

    /// An empty log over the given pool.
    pub fn new(resources: &SharedPool) -> (r: Self)
        ensures
            r.artist_tool_preferences@.len() == 0,
            r.shared_resources.lock == resources.lock,
            r.wf(),
    {
        Self { artist_tool_preferences: vec![], shared_resources: resources.share() }
    }

    /// Logs that artist `id` takes `tools`, stamped now, then withdraws the
    /// tools from the pool under its lock (see `grant`). The record stays
    /// whatever the withdrawal finds. The names handed back are those the
    /// pool no longer held when their turn came.
    pub fn tool_registry(&mut self, id: usize, tools: Vec<String>) -> (missing: Vec<String>)
        ensures
            final(self).artist_tool_preferences@.len() == old(self).artist_tool_preferences@.len()
                + 1,
            final(self).artist_tool_preferences@.drop_last() == old(
                self,
            ).artist_tool_preferences@,
            final(self).artist_tool_preferences@.last().is_grant(id, tools@),
            final(self).shared_resources.lock == old(self).shared_resources.lock,
            old(self).wf() ==> final(self).wf(),
            exists|s: Seq<(Seq<char>, nat)>|
                stock_wf(s) && names_view(missing@) == missing_names(s, names_view(tools@)),
    {
        let stamp = current_timestamp();
        let (mut pool, handle) = self.shared_resources.lock.acquire_write();
        let ghost s = pool.tools_view();
        let ghost before = self.artist_tool_preferences@;
        let missing = grant(&mut self.artist_tool_preferences, &mut pool, id, tools, stamp);
        handle.release_write(pool);
        assert(forall|i: int|
            0 <= i < before.len() ==> self.artist_tool_preferences@[i] == before[i]);
        assert(self.artist_tool_preferences@[before.len() as int].is_taken_out());
        assert(old(self).wf() ==> self.wf()) by {
            if old(self).wf() {
                assert forall|i: int| 0 <= i < self.artist_tool_preferences@.len() implies #[trigger]
                    self.artist_tool_preferences@[i].is_taken_out() by {
                    if i < before.len() {
                        assert(before[i].is_taken_out());
                    }
                }
            }
        }
        assert(stock_wf(s) && names_view(missing@) == missing_names(s, names_view(tools@)));
        missing
    }
}

/// One grant on plain values: appends a `TakeOut` record of `id` taking
/// `tools` at `stamp` to the log, then withdraws exactly those tools, in
/// order, from the pool. Returns the names the pool did not hold when their
/// turn came.
pub fn grant(
    log: &mut Vec<ArtistToolPreferences>,
    pool: &mut SharedResources,
    id: usize,
    tools: Vec<String>,
    stamp: Timestamp,
) -> (missing: Vec<String>)
    requires
        old(pool).wf(),
    ensures
        final(log)@.len() == old(log)@.len() + 1,
        final(log)@.drop_last() == old(log)@,
        final(log)@.last().is_grant(id, tools@),
        final(log)@.last().datetime == Some(stamp),
        final(pool).wf(),
        final(pool).tools_view() == withdraw_all(old(pool).tools_view(), names_view(tools@)),
        final(pool).paints == old(pool).paints,
        names_view(missing@) == missing_names(old(pool).tools_view(), names_view(tools@)),
{
    let mut preferred_tools: Vec<String> = Vec::new();
    let mut k: usize = 0;
    while k < tools.len()
        invariant
            k <= tools.len(),
            preferred_tools@.len() == k,
            forall|i: int| 0 <= i < k ==> preferred_tools@[i]@ == tools@[i]@,
        decreases tools.len() - k,
    {
        preferred_tools.push(tools[k].clone());
        k = k + 1;
    }
    assert(names_view(preferred_tools@) =~= names_view(tools@));
    let ghost before = log@;
    log.push(
        ArtistToolPreferences {
            artist_id: id,
            datetime: Some(stamp),
            state: Some(State::TakeOut),
            preferred_tools,
        },
    );
    assert(log@.drop_last() =~= before);
    pool.take_out_resources(tools)
}

/// What the registry lock guarantees of its contents.
pub struct RegistryInvariant {}

impl RwLockPredicate<ArtistToolRegistry> for RegistryInvariant {
    open spec fn inv(self, v: ArtistToolRegistry) -> bool {
        v.wf()
    }
}

/// A handle on the registry shared by all artists; each clone refers to the
/// same log.
pub struct SharedRegistry {
    pub lock: Arc<RwLock<ArtistToolRegistry, RegistryInvariant>>,
}

impl SharedRegistry {
    /// Puts a well-formed registry behind its lock.
    pub fn new(registry: ArtistToolRegistry) -> (r: Self)
        requires
            registry.wf(),
    {
        SharedRegistry { lock: Arc::new(RwLock::new(registry, Ghost(RegistryInvariant {}))) }
    }

    /// Another handle on the same registry.
    pub fn share(&self) -> (r: Self)
        ensures
            r.lock == self.lock,
    {
        SharedRegistry { lock: self.lock.clone() }
    }

    /// The states of the logged records, in order, as read at this moment.
    /// Every one is `TakeOut`.
    pub fn states(&self) -> (r: Vec<State>)
        ensures
            forall|i: int| 0 <= i < r@.len() ==> r@[i] == State::TakeOut,
    {
        let handle = self.lock.acquire_read();
        let registry = handle.borrow();
        let mut r: Vec<State> = Vec::new();
        let mut k: usize = 0;
        while k < registry.artist_tool_preferences.len()
            invariant
                k <= registry.artist_tool_preferences.len(),
                registry.wf(),
                forall|i: int| 0 <= i < r@.len() ==> r@[i] == State::TakeOut,
            decreases registry.artist_tool_preferences.len() - k,
        {
            assert(registry.artist_tool_preferences@[k as int].is_taken_out());
            match registry.artist_tool_preferences[k].state {
                Some(s) => r.push(s),
                None => {},
            }
            k = k + 1;
        }
        handle.release_read();
        r
    }

    /// Logs the grant to artist `id` under the registry's lock; see
    /// `ArtistToolRegistry::tool_registry`.
    pub fn register(&self, id: usize, tools: Vec<String>) -> (missing: Vec<String>)
        ensures
            exists|s: Seq<(Seq<char>, nat)>|
                stock_wf(s) && names_view(missing@) == missing_names(s, names_view(tools@)),
    {
        let (mut registry, handle) = self.lock.acquire_write();
        let missing = registry.tool_registry(id, tools);
        handle.release_write(registry);
        missing
    }
}

/// One artist's run: choose tools from a snapshot of the pool read under its
/// lock, then register the grant. Returns the artist's id, the tools chosen,
/// and those the pool no longer held at withdrawal.
pub fn artis_task(artist_tool_registry: SharedRegistry, id: usize, resources: SharedPool) -> (r: (
    usize,
    Vec<String>,
    Vec<String>,
))
    ensures
        r.0 == id,
        r.1@.len() <= MAX_ALLOWED_TOOLS,
        pairwise_distinct(r.1@),
        exists|t: Seq<(String, usize)>|
            stock_wf(entries_view(t)) && drawn_from(r.1@, t) && (MIN_REQUIRED_TOOLS <= t.len()
                ==> MIN_REQUIRED_TOOLS <= r.1@.len()),
        exists|s: Seq<(Seq<char>, nat)>|
            stock_wf(s) && names_view(r.2@) == missing_names(s, names_view(r.1@)),
{
    let handle = resources.lock.acquire_read();
    let pool = handle.borrow();
    let artist_tools = tools_usage(id, &pool.tools);
    let ghost snapshot = pool.tools@;
    handle.release_read();
    let (artist, chosen) = artist_tools;
    let mut request: Vec<String> = Vec::new();
    let mut k: usize = 0;
    while k < chosen.len()
        invariant
            k <= chosen.len(),
            request@.len() == k,
            forall|i: int| 0 <= i < k ==> request@[i]@ == chosen@[i]@,
        decreases chosen.len() - k,
    {
        request.push(chosen[k].clone());
        k = k + 1;
    }
    assert(names_view(request@) =~= names_view(chosen@));
    let missing = artist_tool_registry.register(artist, request);
    assert(stock_wf(entries_view(snapshot)) && drawn_from(chosen@, snapshot));
    (artist, chosen, missing)
}

} // verus!
