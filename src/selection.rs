//! An artist's choice of tools: a random number of distinct tools, drawn from
//! a snapshot of the pool.

use crate::pool::{entries_view, names_unique};
use rand::seq::SliceRandom;
use rand::Rng;
use vstd::prelude::*;

verus! {

/// The fewest tools an artist asks for.
pub const MIN_REQUIRED_TOOLS: usize = 2;

/// The most tools an artist asks for.
pub const MAX_ALLOWED_TOOLS: usize = 5;

/// Each chosen name is the name of some entry of the snapshot.
pub open spec fn drawn_from(chosen: Seq<String>, tools: Seq<(String, usize)>) -> bool {
    forall|i: int|
        0 <= i < chosen.len() ==> exists|j: int| 0 <= j < tools.len() && #[trigger] chosen[i]@ == tools[j].0@
}

/// No name is chosen twice.
pub open spec fn pairwise_distinct(chosen: Seq<String>) -> bool {
    forall|i: int, j: int| 0 <= i < j < chosen.len() ==> chosen[i]@ != chosen[j]@
}

/// Relies on rand's `Rng::gen_range` over an inclusive range, on the thread's
/// generator: the value lies in the range. It panics on an empty range, which
/// `requires` excludes. The thread's generator panics when the operating
/// system cannot seed it, which depends on the machine, not on the arguments.
#[verifier::external_body]
fn random_count(lo: usize, hi: usize) -> (r: usize)
    requires
        lo <= hi,
    ensures
        lo <= r <= hi,
{
    rand::thread_rng().gen_range(lo..=hi)
}

/// Relies on rand's `SliceRandom::choose_multiple` on the thread's generator:
/// it yields `min(amount, len)` entries taken at distinct positions, so with
/// unique names the chosen names are distinct. Like `random_count`, it panics
/// only when the operating system cannot seed the thread's generator.
#[verifier::external_body]
fn choose_names(tools: &Vec<(String, usize)>, amount: usize) -> (r: Vec<String>)
    requires
        names_unique(entries_view(tools@)),
    ensures
        r@.len() == if amount <= tools@.len() {
            amount as nat
        } else {
            tools@.len()
        },
        drawn_from(r@, tools@),
        pairwise_distinct(r@),
{
    let mut rng = rand::thread_rng();
    tools.choose_multiple(&mut rng, amount).map(|t| t.0.clone()).collect()
}

/// Picks between `MIN_REQUIRED_TOOLS` and `MAX_ALLOWED_TOOLS` distinct tools
/// from the snapshot (all of them when it holds fewer than the number drawn)
/// and returns them with the artist's id.
pub fn tools_usage(id: usize, tools: &Vec<(String, usize)>) -> (r: (usize, Vec<String>))
    requires
        names_unique(entries_view(tools@)),
    ensures
        r.0 == id,
        r.1@.len() <= MAX_ALLOWED_TOOLS,
        r.1@.len() <= tools@.len(),
        MIN_REQUIRED_TOOLS <= r.1@.len() || r.1@.len() == tools@.len(),
        MIN_REQUIRED_TOOLS <= tools@.len() ==> MIN_REQUIRED_TOOLS <= r.1@.len(),
        drawn_from(r.1@, tools@),
        pairwise_distinct(r.1@),
{
    let tool_count = random_count(MIN_REQUIRED_TOOLS, MAX_ALLOWED_TOOLS);
    let selected_tools = choose_names(tools, tool_count);
    (id, selected_tools)
}

} // verus!
