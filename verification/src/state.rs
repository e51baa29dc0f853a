use vstd::prelude::*;

use crate::consumer::{Consumer, ConsumerView, Directory, spec_lookup};
use crate::limiter::LimiterTable;
use crate::tier::{Catalog, Tier, TierView};

verus! {

/// The catalog one poll cycle of the tier source leaves behind: the loaded
/// tiers when the read succeeded, the previous ones when it failed.
pub open spec fn spec_tiers_after_refresh(
    before: Seq<TierView>,
    loaded: Option<Seq<TierView>>,
) -> Seq<TierView> {
    match loaded {
        Some(ts) => ts,
        None => before,
    }
}

/// Law: replacing the Tier Catalog is all-or-nothing. Whatever a poll cycle
/// loaded, the catalog it leaves behind is the full previous one or the full
/// loaded one — a reader never observes a mixture of the two rule sets.
pub proof fn lemma_refresh_all_or_nothing(before: Seq<TierView>, loaded: Option<Seq<TierView>>)
    ensures
        spec_tiers_after_refresh(before, loaded) == before || (loaded matches Some(ts)
            && spec_tiers_after_refresh(before, loaded) == ts),
{
}

/// The one structure every in-flight request reads: the Tenant Directory,
/// the Tier Catalog, the Limiter Table and the Upstream Health flag. Each
/// substructure is independently synchronized by the embedding process; the
/// methods here are the short critical sections, and none of them touches
/// more than one substructure per call except the request pipeline's
/// rate-limit step, which reads the catalog while advancing the table.
pub struct State {
    pub consumers: Directory,
    pub tiers: Catalog,
    pub limiter: LimiterTable,
    pub upstream_health: bool,
}

impl State {
    /// A state holding no tenants, no tiers and no counters. The upstream
    /// counts as unhealthy until the first probe reports otherwise.
    pub fn new() -> (r: State)
        ensures
            r.consumers@ =~= Seq::<ConsumerView>::empty(),
            r.tiers@ =~= Seq::<TierView>::empty(),
            r.limiter@ =~= Seq::<crate::limiter::EntryView>::empty(),
            r.upstream_health == false,
    {
        State {
            consumers: Directory::new(),
            tiers: Catalog::new(),
            limiter: LimiterTable::new(),
            upstream_health: false,
        }
    }

    /// Resolves a credential against the current directory snapshot.
    pub fn get_consumer(&self, key: &str) -> (r: Option<Consumer>)
        ensures
            match r {
                Some(c) => spec_lookup(self.consumers@, key@) == Some(c@),
                None => spec_lookup(self.consumers@, key@) is None,
            },
    {
        self.consumers.lookup_consumer(key)
    }

    /// A snapshot of the current Tier Catalog, insulated from any concurrent
    /// replacement: it holds exactly the tiers served right now.
    pub fn current_tiers(&self) -> (r: Catalog)
        ensures
            r@ == self.tiers@,
    {
        self.tiers.clone()
    }

    /// Atomically replaces the Tenant Directory: afterwards it holds exactly
    /// the new entries. Nothing else changes.
    pub fn replace_consumers(&mut self, entries: Vec<Consumer>)
        ensures
            final(self).consumers@ == entries@.map_values(|c: Consumer| c@),
            final(self).tiers@ == old(self).tiers@,
            final(self).limiter@ == old(self).limiter@,
            final(self).upstream_health == old(self).upstream_health,
    {
        self.consumers.replace(entries);
    }

    /// One poll cycle of the Tier Catalog source: a successful read replaces
    /// the catalog atomically — afterwards it holds exactly the new tiers —
    /// while a failed one (nothing loaded) keeps the last known good catalog
    /// serving. A reader thus observes either the full old rule set or the
    /// full new one, never a mix. Nothing else changes.
    pub fn apply_tier_refresh(&mut self, loaded: Option<Vec<Tier>>)
        ensures
            final(self).tiers@ == spec_tiers_after_refresh(
                old(self).tiers@,
                match loaded {
                    Some(ts) => Some(ts@.map_values(|t: Tier| t@)),
                    None => None,
                },
            ),
            final(self).consumers@ == old(self).consumers@,
            final(self).limiter@ == old(self).limiter@,
            final(self).upstream_health == old(self).upstream_health,
    {
        match loaded {
            Some(ts) => self.tiers.replace(ts),
            None => {},
        }
    }

    /// Publishes the latest probe result; the last probe wins. Nothing else
    /// changes.
    pub fn set_upstream_health(&mut self, healthy: bool)
        ensures
            final(self).upstream_health == healthy,
            final(self).consumers@ == old(self).consumers@,
            final(self).tiers@ == old(self).tiers@,
            final(self).limiter@ == old(self).limiter@,
    {
        self.upstream_health = healthy;
    }
}

} // verus!
