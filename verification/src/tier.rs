use vstd::prelude::*;

use crate::strutil::str_eq;

verus! {

/// One limiting constraint: at most `limit` events within any trailing
/// window of `interval_ms` milliseconds.
#[derive(Clone, Copy, Debug, PartialEq, Eq, Structural)]
pub struct RateRule {
    pub interval_ms: u64,
    pub limit: u64,
}

/// A named, ordered set of rate rules. A request of a consumer in this tier
/// is rejected as soon as it exceeds any one rule; a tier with no rules
/// rejects nothing.
#[derive(Debug)]
pub struct Tier {
    pub name: String,
    pub rates: Vec<RateRule>,
}

/// The mathematical image of a tier.
pub struct TierView {
    pub name: Seq<char>,
    pub rates: Seq<RateRule>,
}

impl View for Tier {
    type V = TierView;

    open spec fn view(&self) -> TierView {
        TierView { name: self.name@, rates: self.rates@ }
    }
}

impl Clone for Tier {
    fn clone(&self) -> (r: Self)
        ensures
            r@ == self@,
    {
        Tier { name: self.name.clone(), rates: self.rates.clone() }
    }
}

/// The tier a name resolves to: the first entry carrying that name, or
/// nothing when no entry does.
pub open spec fn spec_find_tier(tiers: Seq<TierView>, name: Seq<char>) -> Option<TierView>
    decreases tiers.len(),
{
    if tiers.len() == 0 {
        None
    } else if tiers[0].name == name {
        Some(tiers[0])
    } else {
        spec_find_tier(tiers.drop_first(), name)
    }
}

proof fn lemma_find_tier_step(tiers: Seq<TierView>, name: Seq<char>, i: int)
    requires
        0 <= i < tiers.len(),
        tiers.skip(i)[0].name != name,
    ensures
        spec_find_tier(tiers.skip(i), name) == spec_find_tier(tiers.skip(i + 1), name),
{
    assert(tiers.skip(i).drop_first() =~= tiers.skip(i + 1));
}

/// The Tier Catalog: the live mapping from tier name to tier. Read by every
/// request's rate check; replaced atomically — never edited in place — by
/// the configuration poll task.
pub struct Catalog {
    pub tiers: Vec<Tier>,
}

impl View for Catalog {
    type V = Seq<TierView>;

    open spec fn view(&self) -> Seq<TierView> {
        self.tiers@.map_values(|t: Tier| t@)
    }
}

impl Clone for Catalog {
    /// A full copy: callers hold a snapshot insulated from concurrent
    /// replacement of the live catalog.
    fn clone(&self) -> (r: Self)
        ensures
            r@ == self@,
    {
        let n = self.tiers.len();
        let mut tiers: Vec<Tier> = Vec::new();
        let mut i: usize = 0;
        while i < n
            invariant
                0 <= i <= n,
                n == self.tiers@.len(),
                tiers@.map_values(|t: Tier| t@) =~= self@.take(i as int),
            decreases n - i,
        {
            tiers.push(self.tiers[i].clone());
            proof {
                assert(self@.take(i as int + 1) =~= self@.take(i as int).push(self@[i as int]));
                assert(tiers@.map_values(|t: Tier| t@) =~= self@.take(i as int + 1));
            }
            i = i + 1;
        }
        proof {
            assert(self@.take(n as int) =~= self@);
        }
        let r = Catalog { tiers };
        proof {
            assert(r@ =~= self@);
        }
        r
    }
}

impl Catalog {
    /// An empty catalog, in which every tier name is unknown.
    pub fn new() -> (r: Catalog)
        ensures
            r@ =~= Seq::<TierView>::empty(),
    {
        Catalog { tiers: Vec::new() }
    }

    /// Resolves a tier name against the current snapshot.
    pub fn find_tier(&self, name: &str) -> (r: Option<&Tier>)
        ensures
            match r {
                Some(t) => spec_find_tier(self@, name@) == Some(t@),
                None => spec_find_tier(self@, name@) is None,
            },
    {
        let n = self.tiers.len();
        let mut i: usize = 0;
        proof {
            assert(self@.skip(0) =~= self@);
        }
        while i < n
            invariant
                0 <= i <= n,
                n == self.tiers@.len(),
                self@.len() == n,
                spec_find_tier(self@, name@) == spec_find_tier(self@.skip(i as int), name@),
            decreases n - i,
        {
            let t = &self.tiers[i];
            if str_eq(t.name.as_str(), name) {
                proof {
                    assert(self@.skip(i as int)[0] == self@[i as int]);
                }
                return Some(t);
            }
            proof {
                assert(self@.skip(i as int)[0] == self@[i as int]);
                lemma_find_tier_step(self@, name@, i as int);
            }
            i = i + 1;
        }
        proof {
            assert(self@.skip(n as int) =~= Seq::<TierView>::empty());
        }
        None
    }

    /// Atomically replaces the whole snapshot: afterwards the catalog holds
    /// exactly the new tiers — a reader never observes a mix of old and new
    /// rule sets.
    pub fn replace(&mut self, tiers: Vec<Tier>)
        ensures
            final(self)@ == tiers@.map_values(|t: Tier| t@),
    {
        self.tiers = tiers;
    }
}

} // verus!
