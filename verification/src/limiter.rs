use vstd::prelude::*;

use crate::consumer::Consumer;
use crate::strutil::str_eq;
use crate::tier::{Catalog, RateRule, Tier, TierView, spec_find_tier};

verus! {

/// Sliding-window state of one (consumer, rule) pair, in fixed space: the
/// count of events in the current window (`curr`), the count in the one
/// before it (`prev`), and when the current window began. Time is a
/// millisecond reading of a monotonic clock, handed in by the caller.
#[derive(Clone, Copy, Debug, PartialEq, Eq, Structural)]
pub struct Counter {
    pub interval_ms: u64,
    pub window_start: u64,
    pub prev: u64,
    pub curr: u64,
}

/// A counter that has seen no events, with its first window opening at `now`.
pub open spec fn fresh_counter(interval_ms: u64, now: u64) -> Counter {
    Counter { interval_ms, window_start: now, prev: 0, curr: 0 }
}

/// The counter advanced to `now` without recording anything: within the
/// current window it is unchanged; one window later the current count
/// becomes the previous one; after that everything has aged out. A reading
/// older than the window start (a clock that did not advance) counts as no
/// elapsed time.
pub open spec fn rolled(c: Counter, now: u64) -> Counter {
    let e: int = now - c.window_start;
    if now < c.window_start || e < c.interval_ms {
        c
    } else if e < 2 * c.interval_ms {
        Counter {
            interval_ms: c.interval_ms,
            window_start: (c.window_start + c.interval_ms) as u64,
            prev: c.curr,
            curr: 0,
        }
    } else {
        Counter { interval_ms: c.interval_ms, window_start: now, prev: 0, curr: 0 }
    }
}

/// One event recorded in the current window; the count stops at the largest
/// representable value rather than wrapping.
pub open spec fn bumped(c: Counter) -> Counter {
    if c.curr == u64::MAX {
        c
    } else {
        Counter { interval_ms: c.interval_ms, window_start: c.window_start, prev: c.prev, curr: (
        c.curr + 1) as u64 }
    }
}

/// The counter after one event observed at `now`.
pub open spec fn observed(c: Counter, now: u64) -> Counter {
    bumped(rolled(c, now))
}

/// The effective rate a counter reports: every event still inside the
/// current or the previous window. Counting the whole previous window
/// overstates the trailing rate but never understates it, so a burst is
/// never missed.
pub open spec fn rate_of(c: Counter) -> int {
    c.prev + c.curr
}

/// The rate a reader would see at `now` without recording an event.
pub open spec fn rate_at(c: Counter, now: u64) -> int {
    rate_of(rolled(c, now))
}

/// The counter after a sequence of events, observed oldest first.
pub open spec fn observed_seq(c: Counter, times: Seq<u64>) -> Counter
    decreases times.len(),
{
    if times.len() == 0 {
        c
    } else {
        observed_seq(observed(c, times[0]), times.drop_first())
    }
}

impl Counter {
    /// A counter that has seen no events, with its first window opening at
    /// `now`.
    pub fn new(interval_ms: u64, now: u64) -> (r: Counter)
        ensures
            r == fresh_counter(interval_ms, now),
    {
        Counter { interval_ms, window_start: now, prev: 0, curr: 0 }
    }

    /// Records one event at `now` and reports the effective rate as of this
    /// event. Recording is unconditional: an event is counted whether or not
    /// the caller goes on to reject it.
    pub fn observe(&mut self, now: u64) -> (rate: u128)
        ensures
            *final(self) == observed(*old(self), now),
            rate == rate_of(observed(*old(self), now)),
    {
        if now >= self.window_start {
            let e = now - self.window_start;
            if e >= self.interval_ms {
                if e - self.interval_ms >= self.interval_ms {
                    self.window_start = now;
                    self.prev = 0;
                    self.curr = 0;
                } else {
                    self.window_start = self.window_start + self.interval_ms;
                    self.prev = self.curr;
                    self.curr = 0;
                }
            }
        }
        if self.curr < u64::MAX {
            self.curr = self.curr + 1;
        }
        self.prev as u128 + self.curr as u128
    }
}

/// With no new events, the rate a counter reports never grows as time
/// passes: what ages out is gone for good.
pub proof fn lemma_rate_monotonic(c: Counter, t1: u64, t2: u64)
    requires
        t1 <= t2,
    ensures
        rate_at(c, t2) <= rate_at(c, t1),
{
}

proof fn lemma_burst_state(interval_ms: u64, t0: u64, k: u64, times: Seq<u64>)
    requires
        k + times.len() <= u64::MAX,
        forall|j: int|
            0 <= j < times.len() ==> t0 <= times[j] && (times[j] as int) < t0 + interval_ms,
    ensures
        observed_seq(
            Counter { interval_ms, window_start: t0, prev: 0, curr: k },
            times,
        ) == (Counter {
            interval_ms,
            window_start: t0,
            prev: 0,
            curr: (k + times.len()) as u64,
        }),
    decreases times.len(),
{
    if times.len() > 0 {
        let c = Counter { interval_ms, window_start: t0, prev: 0, curr: k };
        assert(observed(c, times[0]) == (Counter {
            interval_ms,
            window_start: t0,
            prev: 0,
            curr: (k + 1) as u64,
        }));
        lemma_burst_state(interval_ms, t0, (k + 1) as u64, times.drop_first());
    }
}

/// Law: for a fresh counter, a burst of events all inside the first window
/// is counted exactly — the event at position `i` (counting from zero) sees
/// rate `i + 1`. So with a rule of limit `L`, the events past the first `L`
/// are precisely the ones over the limit: a burst of `L + 1` events within
/// one interval is rejected exactly at its last event.
pub proof fn lemma_burst_rate(interval_ms: u64, t0: u64, times: Seq<u64>, i: int)
    requires
        times.len() <= u64::MAX,
        0 <= i < times.len(),
        forall|j: int|
            0 <= j < times.len() ==> t0 <= times[j] && (times[j] as int) < t0 + interval_ms,
    ensures
        rate_of(observed(observed_seq(fresh_counter(interval_ms, t0), times.take(i)), times[i]))
            == i + 1,
{
    assert(forall|j: int|
        0 <= j < times.take(i).len() ==> t0 <= times.take(i)[j] && (times.take(i)[j] as int) < t0
            + interval_ms);
    lemma_burst_state(interval_ms, t0, 0, times.take(i));
}

/// What holds of a counter once `k` events of a burst confined to
/// `[t0, t0 + interval)` have been recorded: its window has not drifted out
/// of reach of the burst, and the burst is still fully counted — in the
/// current window alone, or spread over both once a single roll has happened.
spec fn burst_inv(c: Counter, t0: u64, k: int) -> bool {
    &&& c.window_start > t0 - c.interval_ms
    &&& (c.curr >= k || (c.window_start > t0 && c.prev + c.curr >= k))
}

proof fn lemma_burst_first(c: Counter, t0: u64, t1: u64)
    requires
        c.interval_ms >= 1,
        t0 <= t1,
        (t1 as int) < t0 + c.interval_ms,
    ensures
        burst_inv(observed(c, t1), t0, 1),
        observed(c, t1).interval_ms == c.interval_ms,
{
}

proof fn lemma_burst_preserve(c: Counter, t0: u64, times: Seq<u64>, k: int)
    requires
        c.interval_ms >= 1,
        burst_inv(c, t0, k),
        1 <= k,
        k + times.len() <= u64::MAX,
        forall|j: int|
            0 <= j < times.len() ==> t0 <= times[j] && (times[j] as int) < t0 + c.interval_ms,
    ensures
        burst_inv(observed_seq(c, times), t0, k + times.len()),
        observed_seq(c, times).interval_ms == c.interval_ms,
    decreases times.len(),
{
    if times.len() > 0 {
        let c1 = observed(c, times[0]);
        assert(burst_inv(c1, t0, k + 1));
        lemma_burst_preserve(c1, t0, times.drop_first(), k + 1);
    }
}

/// Law: whatever a counter has already seen, a burst of more than `limit`
/// events confined to one interval ends over the limit — the event that
/// completes the burst reports a rate above `limit` and is rejected. The
/// two-window rate may overstate the trailing interval, but it never
/// understates a burst.
pub proof fn lemma_burst_over_any_state(c: Counter, t0: u64, times: Seq<u64>, limit: u64)
    requires
        c.interval_ms >= 1,
        1 <= times.len() <= u64::MAX,
        limit < times.len(),
        forall|j: int|
            0 <= j < times.len() ==> t0 <= times[j] && (times[j] as int) < t0 + c.interval_ms,
    ensures
        rate_of(observed_seq(c, times)) > limit,
{
    lemma_burst_first(c, t0, times[0]);
    lemma_burst_preserve(observed(c, times[0]), t0, times.drop_first(), 1);
}

/// One rule of a consumer's tier together with the counter tracking it.
#[derive(Clone, Copy, Debug, PartialEq, Eq, Structural)]
pub struct RuleCounter {
    pub rule: RateRule,
    pub counter: Counter,
}

/// The counters of one consumer, keyed by its credential.
pub struct TableEntry {
    pub key: String,
    pub counters: Vec<RuleCounter>,
}

/// The mathematical image of one consumer's slot in the limiter table.
pub struct EntryView {
    pub key: Seq<char>,
    pub counters: Seq<RuleCounter>,
}

impl View for TableEntry {
    type V = EntryView;

    open spec fn view(&self) -> EntryView {
        EntryView { key: self.key@, counters: self.counters@ }
    }
}

/// The counters a key resolves to: those of the first entry carrying that
/// key, or nothing when no entry does.
pub open spec fn spec_entry(entries: Seq<EntryView>, key: Seq<char>) -> Option<Seq<RuleCounter>>
    decreases entries.len(),
{
    if entries.len() == 0 {
        None
    } else if entries[0].key == key {
        Some(entries[0].counters)
    } else {
        spec_entry(entries.drop_first(), key)
    }
}

/// Fresh counters for every rule of a tier, windows opening at `now`.
pub open spec fn fresh_counters(rates: Seq<RateRule>, now: u64) -> Seq<RuleCounter> {
    rates.map_values(|r: RateRule| RuleCounter { rule: r, counter: fresh_counter(r.interval_ms, now) })
}

/// The counter of the first stored entry carrying exactly this rule, if any.
pub open spec fn find_rule(counters: Seq<RuleCounter>, rule: RateRule) -> Option<Counter>
    decreases counters.len(),
{
    if counters.len() == 0 {
        None
    } else if counters[0].rule == rule {
        Some(counters[0].counter)
    } else {
        find_rule(counters.drop_first(), rule)
    }
}

/// The counter a rule is evaluated against: the one stored for it, or a
/// fresh one opening at `now` where the slot holds none — the consumer's
/// first request, or a rule the catalog introduced or changed since.
pub open spec fn base_counter(counters: Seq<RuleCounter>, rule: RateRule, now: u64) -> Counter {
    match find_rule(counters, rule) {
        Some(c) => c,
        None => fresh_counter(rule.interval_ms, now),
    }
}

/// The slot after one request against the resolved tier's current rules: one
/// counter per rule, each with this request's event recorded — recording is
/// never skipped, not even for rules already over their limit. A rule kept
/// across a catalog reload keeps its counter's history; a rule the tier no
/// longer carries goes, and with it its counter.
pub open spec fn effective_counters(
    counters: Seq<RuleCounter>,
    rates: Seq<RateRule>,
    now: u64,
) -> Seq<RuleCounter> {
    rates.map_values(
        |r: RateRule| RuleCounter { rule: r, counter: observed(base_counter(counters, r, now), now) },
    )
}

/// Whether recording one event at `now` drives any rule of the resolved
/// tier over its limit.
pub open spec fn spec_over(counters: Seq<RuleCounter>, rates: Seq<RateRule>, now: u64) -> bool {
    exists|j: int|
        0 <= j < rates.len() && rate_of(observed(base_counter(counters, rates[j], now), now))
            > rates[j].limit
}

/// The counters stored for a key, or none at all while no slot exists.
pub open spec fn slot_of(entries: Seq<EntryView>, key: Seq<char>) -> Seq<RuleCounter> {
    match spec_entry(entries, key) {
        Some(cs) => cs,
        None => Seq::<RuleCounter>::empty(),
    }
}

/// The engine's verdict for one request of `consumer` at `now` against the
/// given table and catalog: never limited while the tier is unknown
/// (fail-open on missing configuration), otherwise limited exactly when some
/// rule of the resolved tier's current rule set goes over its limit.
pub open spec fn spec_limited(
    entries: Seq<EntryView>,
    tiers: Seq<TierView>,
    consumer: crate::consumer::ConsumerView,
    now: u64,
) -> bool {
    match spec_find_tier(tiers, consumer.tier) {
        None => false,
        Some(t) => spec_over(slot_of(entries, consumer.key), t.rates, now),
    }
}

/// Law: one rate check reads the catalog only through the single tier its
/// consumer's name resolves to, so its verdict is that of one catalog
/// snapshot: two catalogs that resolve the name alike — in particular, a
/// wholly pre-replacement and a wholly post-replacement view that agree on
/// this one tier — decide alike, and no evaluation mixes rules of two
/// catalogs.
pub proof fn lemma_one_snapshot_decides(
    entries: Seq<EntryView>,
    tiers1: Seq<TierView>,
    tiers2: Seq<TierView>,
    consumer: crate::consumer::ConsumerView,
    now: u64,
)
    requires
        spec_find_tier(tiers1, consumer.tier) == spec_find_tier(tiers2, consumer.tier),
    ensures
        spec_limited(entries, tiers1, consumer, now) == spec_limited(entries, tiers2, consumer, now),
{
}

proof fn lemma_entry_append(entries: Seq<EntryView>, e: EntryView, key: Seq<char>)
    ensures
        key != e.key ==> spec_entry(entries + seq![e], key) == spec_entry(entries, key),
        key == e.key && spec_entry(entries, key) is None ==> spec_entry(entries + seq![e], key)
            == Some(e.counters),
    decreases entries.len(),
{
    let appended = entries + seq![e];
    if entries.len() == 0 {
        assert(appended[0] == e);
        assert(appended.drop_first() =~= Seq::<EntryView>::empty());
        if key != e.key {
            assert(spec_entry(appended, key) == spec_entry(appended.drop_first(), key));
            assert(spec_entry(appended.drop_first(), key) is None);
        }
    } else {
        assert(appended[0] == entries[0]);
        assert(appended.drop_first() =~= entries.drop_first() + seq![e]);
        lemma_entry_append(entries.drop_first(), e, key);
        if entries[0].key == key {
            assert(spec_entry(appended, key) == Some(entries[0].counters));
        } else {
            assert(spec_entry(appended, key) == spec_entry(entries.drop_first() + seq![e], key));
            assert(spec_entry(entries, key) == spec_entry(entries.drop_first(), key));
        }
    }
}

proof fn lemma_entry_none_no_key(entries: Seq<EntryView>, key: Seq<char>)
    requires
        spec_entry(entries, key) is None,
    ensures
        forall|j: int| 0 <= j < entries.len() ==> entries[j].key != key,
    decreases entries.len(),
{
    if entries.len() > 0 {
        lemma_entry_none_no_key(entries.drop_first(), key);
        assert(forall|j: int|
            1 <= j < entries.len() ==> entries[j] == entries.drop_first()[j - 1]);
    }
}

proof fn lemma_entry_update_first(entries: Seq<EntryView>, i: int, e2: EntryView, key: Seq<char>)
    requires
        0 <= i < entries.len(),
        e2.key == entries[i].key,
        forall|j: int| 0 <= j < i ==> entries[j].key != entries[i].key,
    ensures
        spec_entry(entries.update(i, e2), entries[i].key) == Some(e2.counters),
        key != entries[i].key ==> spec_entry(entries.update(i, e2), key) == spec_entry(
            entries,
            key,
        ),
    decreases entries.len(),
{
    let up = entries.update(i, e2);
    if i == 0 {
        assert(up[0] == e2);
        assert(up.drop_first() =~= entries.drop_first());
    } else {
        assert(up[0] == entries[0]);
        assert(up.drop_first() =~= entries.drop_first().update(i - 1, e2));
        assert(forall|j: int|
            0 <= j < i - 1 ==> entries.drop_first()[j] == entries[j + 1]);
        lemma_entry_update_first(entries.drop_first(), i - 1, e2, key);
    }
}

proof fn lemma_over_take_step(counters: Seq<RuleCounter>, rates: Seq<RateRule>, now: u64, j: int)
    requires
        0 <= j < rates.len(),
    ensures
        spec_over(counters, rates.take(j + 1), now) == (spec_over(counters, rates.take(j), now)
            || rate_of(observed(base_counter(counters, rates[j], now), now)) > rates[j].limit),
{
    let a = rates.take(j);
    let b = rates.take(j + 1);
    assert(forall|k: int| 0 <= k < j ==> a[k] == rates[k] && b[k] == rates[k]);
    assert(b[j] == rates[j]);
    if spec_over(counters, a, now) {
        let k = choose|k: int|
            0 <= k < a.len() && rate_of(observed(base_counter(counters, a[k], now), now))
                > a[k].limit;
        assert(rate_of(observed(base_counter(counters, b[k], now), now)) > b[k].limit);
    }
    if rate_of(observed(base_counter(counters, rates[j], now), now)) > rates[j].limit {
        assert(rate_of(observed(base_counter(counters, b[j], now), now)) > b[j].limit);
    }
    if spec_over(counters, b, now) {
        let k = choose|k: int|
            0 <= k < b.len() && rate_of(observed(base_counter(counters, b[k], now), now))
                > b[k].limit;
        if k < j {
            assert(rate_of(observed(base_counter(counters, a[k], now), now)) > a[k].limit);
        }
    }
}

/// Law: a consumer with no assigned tier — its tier name resolves to nothing
/// in the catalog — is never rate-limited (missing configuration fails
/// open), and neither is one whose resolved tier currently carries no rules,
/// whatever its slot still holds from earlier rule sets.
pub proof fn lemma_unlimited_consumer(
    entries: Seq<EntryView>,
    tiers: Seq<TierView>,
    consumer: crate::consumer::ConsumerView,
    now: u64,
)
    requires
        match spec_find_tier(tiers, consumer.tier) {
            None => true,
            Some(t) => t.rates.len() == 0,
        },
    ensures
        !spec_limited(entries, tiers, consumer, now),
{
}

proof fn lemma_find_rule_fresh(rates: Seq<RateRule>, rule: RateRule, now: u64)
    ensures
        find_rule(fresh_counters(rates, now), rule) matches Some(c) ==> c == fresh_counter(
            rule.interval_ms,
            now,
        ),
    decreases rates.len(),
{
    if rates.len() > 0 {
        assert(fresh_counters(rates, now)[0] == (RuleCounter {
            rule: rates[0],
            counter: fresh_counter(rates[0].interval_ms, now),
        }));
        assert(fresh_counters(rates, now).drop_first() =~= fresh_counters(
            rates.drop_first(),
            now,
        ));
        lemma_find_rule_fresh(rates.drop_first(), rule, now);
    }
}

proof fn lemma_slot_base_eq(
    cs1: Seq<RuleCounter>,
    cs2: Seq<RuleCounter>,
    rates: Seq<RateRule>,
    now: u64,
)
    requires
        forall|j: int|
            0 <= j < rates.len() ==> base_counter(cs1, rates[j], now) == base_counter(
                cs2,
                rates[j],
                now,
            ),
    ensures
        effective_counters(cs1, rates, now) == effective_counters(cs2, rates, now),
        spec_over(cs1, rates, now) == spec_over(cs2, rates, now),
{
    assert(effective_counters(cs1, rates, now) =~= effective_counters(cs2, rates, now));
    if spec_over(cs1, rates, now) {
        let j = choose|j: int|
            0 <= j < rates.len() && rate_of(observed(base_counter(cs1, rates[j], now), now))
                > rates[j].limit;
        assert(rate_of(observed(base_counter(cs2, rates[j], now), now)) > rates[j].limit);
    }
    if spec_over(cs2, rates, now) {
        let j = choose|j: int|
            0 <= j < rates.len() && rate_of(observed(base_counter(cs2, rates[j], now), now))
                > rates[j].limit;
        assert(rate_of(observed(base_counter(cs1, rates[j], now), now)) > rates[j].limit);
    }
}

/// The Limiter Table: one slot per consumer that has been seen, created
/// lazily on its first request and never removed. Grown by requests, read
/// and advanced by every rate check.
pub struct LimiterTable {
    entries: Vec<TableEntry>,
}

impl View for LimiterTable {
    type V = Seq<EntryView>;

    closed spec fn view(&self) -> Seq<EntryView> {
        self.entries@.map_values(|e: TableEntry| e@)
    }
}

impl LimiterTable {
    /// An empty table: no consumer has been seen yet.
    pub fn new() -> (r: LimiterTable)
        ensures
            r@ =~= Seq::<EntryView>::empty(),
    {
        LimiterTable { entries: Vec::new() }
    }

    /// The index of the first slot carrying `key`, if any.
    fn find_index(&self, key: &str) -> (r: Option<usize>)
        ensures
            match r {
                Some(i) => {
                    &&& 0 <= i < self@.len()
                    &&& self@[i as int].key == key@
                    &&& forall|j: int| 0 <= j < i ==> self@[j].key != key@
                    &&& spec_entry(self@, key@) == Some(self@[i as int].counters)
                },
                None => spec_entry(self@, key@) is None,
            },
    {
        let n = self.entries.len();
        let mut i: usize = 0;
        proof {
            assert(self@.skip(0) =~= self@);
        }
        while i < n
            invariant
                0 <= i <= n,
                n == self.entries@.len(),
                self@.len() == n,
                forall|j: int| 0 <= j < i ==> self@[j].key != key@,
                spec_entry(self@, key@) == spec_entry(self@.skip(i as int), key@),
            decreases n - i,
        {
            proof {
                assert(self@.skip(i as int)[0] == self@[i as int]);
            }
            if str_eq(self.entries[i].key.as_str(), key) {
                return Some(i);
            }
            proof {
                assert(self@.skip(i as int).drop_first() =~= self@.skip(i as int + 1));
            }
            i = i + 1;
        }
        proof {
            assert(self@.skip(n as int) =~= Seq::<EntryView>::empty());
        }
        None
    }

    /// Whether a slot for this credential already exists.
    pub fn has_limiter(&self, key: &str) -> (r: bool)
        ensures
            r == (spec_entry(self@, key@) is Some),
    {
        self.find_index(key).is_some()
    }

    /// Creates the slot for a consumer not seen before: one fresh counter per
    /// rule of its tier, appended without touching any other slot.
    pub fn add_limiter(&mut self, key: &str, tier: &Tier, now: u64)
        requires
            spec_entry(old(self)@, key@) is None,
        ensures
            final(self)@ == old(self)@ + seq![
                EntryView { key: key@, counters: fresh_counters(tier@.rates, now) },
            ],
            spec_entry(final(self)@, key@) == Some(fresh_counters(tier@.rates, now)),
            forall|k: Seq<char>|
                k != key@ ==> spec_entry(final(self)@, k) == spec_entry(old(self)@, k),
    {
        let n = tier.rates.len();
        let mut counters: Vec<RuleCounter> = Vec::new();
        let mut i: usize = 0;
        while i < n
            invariant
                0 <= i <= n,
                n == tier.rates@.len(),
                counters@ =~= fresh_counters(tier.rates@.take(i as int), now),
            decreases n - i,
        {
            let rule = tier.rates[i];
            counters.push(RuleCounter { rule, counter: Counter::new(rule.interval_ms, now) });
            proof {
                assert(tier.rates@.take(i as int + 1) =~= tier.rates@.take(i as int).push(rule));
                assert(counters@ =~= fresh_counters(tier.rates@.take(i as int + 1), now));
            }
            i = i + 1;
        }
        proof {
            assert(tier.rates@.take(n as int) =~= tier.rates@);
        }
        let ghost before = self@;
        let entry = TableEntry { key: key.to_owned(), counters };
        let ghost ev = entry@;
        self.entries.push(entry);
        proof {
            assert(self@ =~= before + seq![ev]);
            lemma_entry_append(before, ev, key@);
            assert forall|k: Seq<char>| k != key@ implies spec_entry(self@, k) == spec_entry(
                before,
                k,
            ) by {
                lemma_entry_append(before, ev, k);
            }
        }
    }

    /// The stored counter of the first slot entry carrying exactly this rule.
    fn find_rule_counter(counters: &Vec<RuleCounter>, rule: RateRule) -> (r: Option<Counter>)
        ensures
            r == find_rule(counters@, rule),
    {
        let n = counters.len();
        let mut i: usize = 0;
        proof {
            assert(counters@.skip(0) =~= counters@);
        }
        while i < n
            invariant
                0 <= i <= n,
                n == counters@.len(),
                find_rule(counters@, rule) == find_rule(counters@.skip(i as int), rule),
            decreases n - i,
        {
            proof {
                assert(counters@.skip(i as int)[0] == counters@[i as int]);
            }
            if counters[i].rule == rule {
                return Some(counters[i].counter);
            }
            proof {
                assert(counters@.skip(i as int).drop_first() =~= counters@.skip(i as int + 1));
            }
            i = i + 1;
        }
        proof {
            assert(counters@.skip(n as int) =~= Seq::<RuleCounter>::empty());
        }
        None
    }

    /// One request of `consumer` observed at `now`: resolves the consumer's
    /// tier in the catalog, creates its slot on first sight, records the
    /// event on the counter of every rule the tier currently carries — over
    /// limit or not — and reports whether any of those rules went over its
    /// limit. The slot's rules follow the resolved tier: a catalog reload
    /// that keeps a rule keeps its counter's history, one that drops or
    /// changes a rule retires its counter. An unknown tier limits nothing
    /// and leaves the table untouched; no other consumer's slot is ever
    /// changed.
    pub fn limiter(&mut self, tiers: &Catalog, consumer: &Consumer, now: u64) -> (limited: bool)
        ensures
            limited == spec_limited(old(self)@, tiers@, consumer@, now),
            spec_find_tier(tiers@, consumer@.tier) is None ==> final(self)@ == old(self)@,
            (match spec_find_tier(tiers@, consumer@.tier) {
                Some(t) => {
                    let slot = slot_of(old(self)@, consumer@.key);
                    &&& spec_entry(final(self)@, consumer@.key) == Some(
                        effective_counters(slot, t.rates, now),
                    )
                    &&& limited == spec_over(slot, t.rates, now)
                },
                None => true,
            }),
            forall|k: Seq<char>|
                k != consumer@.key ==> spec_entry(final(self)@, k) == spec_entry(old(self)@, k),
    {
        let tier = match tiers.find_tier(consumer.tier.as_str()) {
            None => {
                return false;
            },
            Some(t) => t,
        };
        let ghost before_table = self@;
        let ghost slot0 = slot_of(self@, consumer@.key);
        let idx: usize = match self.find_index(consumer.key.as_str()) {
            Some(i) => i,
            None => {
                self.add_limiter(consumer.key.as_str(), tier, now);
                proof {
                    lemma_entry_none_no_key(before_table, consumer@.key);
                }
                self.entries.len() - 1
            },
        };
        let ghost base_cs = self@[idx as int].counters;
        proof {
            assert(self@[idx as int].key == consumer@.key);
            assert(forall|j: int| 0 <= j < idx ==> self@[j].key != consumer@.key);
            if spec_entry(before_table, consumer@.key) is None {
                assert(slot0 =~= Seq::<RuleCounter>::empty());
                assert(base_cs == fresh_counters(tier@.rates, now));
                assert forall|jj: int| 0 <= jj < tier@.rates.len() implies base_counter(
                    base_cs,
                    tier@.rates[jj],
                    now,
                ) == base_counter(slot0, tier@.rates[jj], now) by {
                    lemma_find_rule_fresh(tier@.rates, tier@.rates[jj], now);
                }
            } else {
                assert(base_cs == slot0);
            }
            assert(forall|jj: int|
                0 <= jj < tier@.rates.len() ==> base_counter(base_cs, tier@.rates[jj], now)
                    == base_counter(slot0, tier@.rates[jj], now));
        }
        let ghost mid_table = self@;
        let m = tier.rates.len();
        let mut new_counters: Vec<RuleCounter> = Vec::new();
        let mut limited = false;
        let mut j: usize = 0;
        while j < m
            invariant
                0 <= j <= m,
                0 <= idx < self.entries@.len(),
                self@ == mid_table,
                m == tier@.rates.len(),
                self@[idx as int].counters == base_cs,
                new_counters@ =~= effective_counters(base_cs, tier@.rates.take(j as int), now),
                limited == spec_over(base_cs, tier@.rates.take(j as int), now),
            decreases m - j,
        {
            let rule = tier.rates[j];
            let mut c = match Self::find_rule_counter(&self.entries[idx].counters, rule) {
                Some(stored) => stored,
                None => Counter::new(rule.interval_ms, now),
            };
            let rate = c.observe(now);
            if rate > rule.limit as u128 {
                limited = true;
            }
            new_counters.push(RuleCounter { rule, counter: c });
            proof {
                assert(tier@.rates.take(j as int + 1) =~= tier@.rates.take(j as int).push(rule));
                assert(new_counters@ =~= effective_counters(
                    base_cs,
                    tier@.rates.take(j as int + 1),
                    now,
                ));
                lemma_over_take_step(base_cs, tier@.rates, now, j as int);
            }
            j = j + 1;
        }
        proof {
            assert(tier@.rates.take(m as int) =~= tier@.rates);
        }
        let key2 = self.entries[idx].key.clone();
        let entry2 = TableEntry { key: key2, counters: new_counters };
        let ghost ev2 = entry2@;
        self.entries[idx] = entry2;
        proof {
            assert(self@ =~= mid_table.update(idx as int, ev2));
            lemma_entry_update_first(mid_table, idx as int, ev2, consumer@.key);
            assert forall|k: Seq<char>| k != consumer@.key implies spec_entry(self@, k)
                == spec_entry(before_table, k) by {
                lemma_entry_update_first(mid_table, idx as int, ev2, k);
            }
            lemma_slot_base_eq(base_cs, slot0, tier@.rates, now);
        }
        limited
    }
}

} // verus!
