use vstd::prelude::*;

use crate::strutil::str_eq;

verus! {

/// A resolved tenant identity: the credential it presents, the network its
/// key was provisioned for, which upstream variant it uses, and the name of
/// its rate tier. Having no assigned tier is legal — the name then resolves
/// to nothing in the catalog and the consumer is unlimited. Immutable once
/// constructed; superseded wholesale on each directory refresh.
#[derive(Debug)]
pub struct Consumer {
    pub key: String,
    pub network: String,
    pub pruned: bool,
    pub tier: String,
}

/// The mathematical image of a consumer: its string fields as character
/// sequences.
pub struct ConsumerView {
    pub key: Seq<char>,
    pub network: Seq<char>,
    pub pruned: bool,
    pub tier: Seq<char>,
}

impl View for Consumer {
    type V = ConsumerView;

    open spec fn view(&self) -> ConsumerView {
        ConsumerView { key: self.key@, network: self.network@, pruned: self.pruned, tier: self.tier@ }
    }
}

impl Clone for Consumer {
    fn clone(&self) -> (r: Self)
        ensures
            r@ == self@,
    {
        Consumer {
            key: self.key.clone(),
            network: self.network.clone(),
            pruned: self.pruned,
            tier: self.tier.clone(),
        }
    }
}

impl Default for Consumer {
    /// The "unauthenticated" sentinel: empty credential, empty network,
    /// full variant, no tier.
    fn default() -> (r: Consumer)
        ensures
            r@.key == Seq::<char>::empty(),
            r@.network == Seq::<char>::empty(),
            r@.pruned == false,
            r@.tier == Seq::<char>::empty(),
    {
        Consumer {
            key: String::new(),
            network: String::new(),
            pruned: false,
            tier: String::new(),
        }
    }
}

/// The consumer a credential resolves to: the first entry carrying that key,
/// or nothing when no entry does.
pub open spec fn spec_lookup(entries: Seq<ConsumerView>, key: Seq<char>) -> Option<ConsumerView>
    decreases entries.len(),
{
    if entries.len() == 0 {
        None
    } else if entries[0].key == key {
        Some(entries[0])
    } else {
        spec_lookup(entries.drop_first(), key)
    }
}

proof fn lemma_lookup_step(entries: Seq<ConsumerView>, key: Seq<char>, i: int)
    requires
        0 <= i < entries.len(),
        entries.skip(i)[0].key != key,
    ensures
        spec_lookup(entries.skip(i), key) == spec_lookup(entries.skip(i + 1), key),
{
    assert(entries.skip(i).drop_first() =~= entries.skip(i + 1));
}

/// The Tenant Directory: the live mapping from credential to consumer.
/// Read by every request; replaced wholesale — never edited in place — by
/// the external refresh mechanism.
pub struct Directory {
    pub entries: Vec<Consumer>,
}

impl View for Directory {
    type V = Seq<ConsumerView>;

    open spec fn view(&self) -> Seq<ConsumerView> {
        self.entries@.map_values(|c: Consumer| c@)
    }
}

impl Directory {
    /// An empty directory, in which every credential is unknown.
    pub fn new() -> (r: Directory)
        ensures
            r@ =~= Seq::<ConsumerView>::empty(),
    {
        Directory { entries: Vec::new() }
    }

    /// Resolves a credential against the current snapshot.
    pub fn lookup_consumer(&self, key: &str) -> (r: Option<Consumer>)
        ensures
            match r {
                Some(c) => spec_lookup(self@, key@) == Some(c@),
                None => spec_lookup(self@, key@) is None,
            },
    {
        let n = self.entries.len();
        let mut i: usize = 0;
        proof {
            assert(self@.skip(0) =~= self@);
        }
        while i < n
            invariant
                0 <= i <= n,
                n == self.entries@.len(),
                self@.len() == n,
                spec_lookup(self@, key@) == spec_lookup(self@.skip(i as int), key@),
            decreases n - i,
        {
            let e = &self.entries[i];
            if str_eq(e.key.as_str(), key) {
                proof {
                    assert(self@.skip(i as int)[0] == self@[i as int]);
                }
                return Some(e.clone());
            }
            proof {
                assert(self@.skip(i as int)[0] == self@[i as int]);
                lemma_lookup_step(self@, key@, i as int);
            }
            i = i + 1;
        }
        proof {
            assert(self@.skip(n as int) =~= Seq::<ConsumerView>::empty());
        }
        None
    }

    /// Atomically replaces the whole snapshot: afterwards the directory holds
    /// exactly the new entries — a reader never observes a mix of old and new.
    pub fn replace(&mut self, entries: Vec<Consumer>)
        ensures
            final(self)@ == entries@.map_values(|c: Consumer| c@),
    {
        self.entries = entries;
    }
}

} // verus!
