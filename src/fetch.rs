//! The decisions of a fetch batch: which user agent a unit sends, which
//! results reach the pool, and how the batch is reported.

use vstd::prelude::*;
use crate::profile::Profile;

verus! {

/// One entry of the user-agent catalog.
#[derive(Clone, Debug)]
pub struct UserAgent {
    pub user_agent: String,
}

/// The failure of one exchange, with a human-readable description.
#[derive(Clone, Debug)]
pub struct ResError {
    pub desc: String,
}

/// Severity of the report of a batch.
#[derive(Clone, Copy, Debug, PartialEq, Eq, Structural)]
pub enum Level {
    Error,
    Info,
}

/// The aggregate outcome of a batch: `successes` profiles out of `total` units.
#[derive(Clone, Copy, Debug, PartialEq, Eq, Structural)]
pub struct BatchReport {
    pub successes: usize,
    pub total: usize,
    pub level: Level,
}

/// The catalog index chosen at epoch second `now`.
pub open spec fn agent_index_spec(now: u64, n: nat) -> nat
    recommends
        n >= 1,
{
    (now as nat) % n
}

/// The catalog index for epoch second `now`: the second modulo the catalog size.
pub fn agent_index(now: u64, catalog_len: usize) -> (r: usize)
    requires
        catalog_len >= 1,
    ensures
        r == agent_index_spec(now, catalog_len as nat),
        r < catalog_len,
{
    (now % (catalog_len as u64)) as usize
}

/// The user agent that a unit issued at epoch second `now` sends.
pub fn select_agent(now: u64, catalog: &Vec<UserAgent>) -> (r: String)
    requires
        catalog@.len() >= 1,
    ensures
        r@ == catalog@[agent_index_spec(now, catalog@.len()) as int].user_agent@,
{
    let i = agent_index(now, catalog.len());
    catalog[i].user_agent.clone()
}

/// Selection depends on the second alone: two selections whose seconds agree
/// modulo the catalog size, in particular two in the same second, pick the
/// same catalog entry.
pub proof fn lemma_same_second_same_agent(now1: u64, now2: u64, catalog: Seq<UserAgent>)
    requires
        catalog.len() >= 1,
        now1 == now2 || (now1 as nat) % catalog.len() == (now2 as nat) % catalog.len(),
    ensures
        agent_index_spec(now1, catalog.len()) == agent_index_spec(now2, catalog.len()),
        catalog[agent_index_spec(now1, catalog.len()) as int] == catalog[agent_index_spec(now2, catalog.len()) as int],
{
}

/// The outcome of one unit of a batch: `None` when its request could not be
/// built, else the result of its exchange.
pub type Outcome = Option<Result<Profile, ResError>>;

/// The profiles of the successful units, in order.
pub open spec fn successes(rs: Seq<Outcome>) -> Seq<Profile>
    decreases rs.len(),
{
    if rs.len() == 0 {
        Seq::empty()
    } else {
        match rs[0] {
            Some(Ok(p)) => seq![p] + successes(rs.drop_first()),
            _ => successes(rs.drop_first()),
        }
    }
}

/// A batch never yields more profiles than it had results.
pub proof fn lemma_successes_bounded(rs: Seq<Outcome>)
    ensures
        successes(rs).len() <= rs.len(),
    decreases rs.len(),
{
    if rs.len() > 0 {
        lemma_successes_bounded(rs.drop_first());
    }
}

/// Appends the profile of every successful unit to the pool, in order,
/// drops the failures and the units that were never sent, and returns how
/// many were appended.
pub fn collect_results(pool: &mut Vec<Profile>, results: Vec<Outcome>) -> (n: usize)
    ensures
        final(pool)@ == old(pool)@ + successes(results@),
        n == successes(results@).len(),
        n <= results@.len(),
{
    let ghost all = results@;
    let mut rest = results;
    let total = rest.len();
    let mut n: usize = 0;
    let mut k: usize = 0;
    proof {
        assert(all.skip(0) =~= all);
        lemma_successes_bounded(all);
    }
    while rest.len() > 0
        invariant
            k <= all.len() == total,
            rest@ == all.skip(k as int),
            pool@ + successes(rest@) == old(pool)@ + successes(all),
            n + successes(rest@).len() == successes(all).len(),
            successes(all).len() <= all.len(),
        decreases rest@.len(),
    {
        let r = rest.remove(0);
        proof {
            assert(rest@ =~= all.skip(k as int).drop_first());
            assert(all.skip(k as int + 1) =~= all.skip(k as int).drop_first());
        }
        match r {
            Some(Ok(p)) => {
                let ghost tail = successes(rest@);
                pool.push(p);
                proof {
                    lemma_successes_bounded(rest@);
                }
                assert(pool@ + tail =~= old(pool)@ + successes(all)) by {
                    assert(pool@ + tail =~= pool@.drop_last() + (seq![p] + tail));
                }
                n = n + 1;
            },
            _ => {},
        }
        k = k + 1;
    }
    assert(successes(rest@) =~= Seq::<Profile>::empty());
    assert(pool@ =~= old(pool)@ + successes(all));
    n
}

/// The report of a batch: at error severity when nothing succeeded, at
/// informational severity otherwise.
pub fn report(successes: usize, total: usize) -> (r: BatchReport)
    ensures
        r.successes == successes,
        r.total == total,
        r.level == (if successes == 0 { Level::Error } else { Level::Info }),
{
    let level = if successes == 0 { Level::Error } else { Level::Info };
    BatchReport { successes, total, level }
}

/// Ends a batch of `outcomes.len()` units: the successes are appended to the
/// pool and the report counts them against the number of units.
pub fn finish_batch(pool: &mut Vec<Profile>, outcomes: Vec<Outcome>) -> (r: BatchReport)
    ensures
        final(pool)@ == old(pool)@ + successes(outcomes@),
        r.successes == successes(outcomes@).len(),
        r.total == outcomes@.len(),
        r.level == (if r.successes == 0 { Level::Error } else { Level::Info }),
{
    let total = outcomes.len();
    let n = collect_results(pool, outcomes);
    report(n, total)
}

/// However many of a batch's `n` units fail or are never sent, the pool grows
/// by at most `n` profiles, and the count reported is exactly the number of
/// profiles that joined the pool.
pub proof fn lemma_batch_bounded(old_pool: Seq<Profile>, new_pool: Seq<Profile>, outcomes: Seq<Outcome>, r: BatchReport)
    requires
        new_pool == old_pool + successes(outcomes),
        r.successes == successes(outcomes).len(),
        r.total == outcomes.len(),
    ensures
        new_pool.len() - old_pool.len() <= r.total,
        r.successes == new_pool.len() - old_pool.len(),
{
    lemma_successes_bounded(outcomes);
}

} // verus!
