use vstd::prelude::*;
use vstd::seq_lib::to_multiset_build;

verus! {

/// The value of the counter `key` in `m`: a key that was never touched
/// counts as 0.
pub open spec fn count(m: Map<Seq<char>, i64>, key: Seq<char>) -> i64 {
    if m.contains_key(key) {
        m[key]
    } else {
        0
    }
}

/// The store after one increment of `key`: the key is created at 0 if it
/// is new, then moved up by one.
pub open spec fn inc_spec(m: Map<Seq<char>, i64>, key: Seq<char>) -> Map<Seq<char>, i64> {
    m.insert(key, (count(m, key) + 1) as i64)
}

/// The store after one decrement of `key`: the key is created at 0 if it
/// is new, then moved down by one.
pub open spec fn dec_spec(m: Map<Seq<char>, i64>, key: Seq<char>) -> Map<Seq<char>, i64> {
    m.insert(key, (count(m, key) - 1) as i64)
}

/// One operation on the store, as the history of a store records it.
pub enum Step {
    Inc(Seq<char>),
    Dec(Seq<char>),
}

impl Step {
    /// The key that the operation touches.
    pub open spec fn key(self) -> Seq<char> {
        match self {
            Step::Inc(k) => k,
            Step::Dec(k) => k,
        }
    }

    /// What the operation adds to the counter `key`.
    pub open spec fn delta(self, key: Seq<char>) -> int {
        match self {
            Step::Inc(k) => if k == key { 1 } else { 0 },
            Step::Dec(k) => if k == key { -1 } else { 0 },
        }
    }

    /// The store after the operation.
    pub open spec fn apply(self, m: Map<Seq<char>, i64>) -> Map<Seq<char>, i64> {
        match self {
            Step::Inc(k) => inc_spec(m, k),
            Step::Dec(k) => dec_spec(m, k),
        }
    }
}

/// The store after the operations of `steps`, applied one at a time from
/// the first to the last. Operations that happen at once on several threads
/// take effect one at a time, so every run of the store is such a history.
pub open spec fn run(m: Map<Seq<char>, i64>, steps: Seq<Step>) -> Map<Seq<char>, i64>
    decreases steps.len(),
{
    if steps.len() == 0 {
        m
    } else {
        steps.last().apply(run(m, steps.drop_last()))
    }
}

/// The increments of `key` among `steps`, less its decrements.
pub open spec fn net(steps: Seq<Step>, key: Seq<char>) -> int
    decreases steps.len(),
{
    if steps.len() == 0 {
        0
    } else {
        net(steps.drop_last(), key) + steps.last().delta(key)
    }
}

/// Some operation of `steps` touches `key`.
pub open spec fn touched(steps: Seq<Step>, key: Seq<char>) -> bool {
    exists|i: int| 0 <= i < steps.len() && (#[trigger] steps[i]).key() == key
}

/// The counter `key` stays inside its range all along the history `steps`
/// that starts from `m`.
pub open spec fn in_range(m: Map<Seq<char>, i64>, steps: Seq<Step>, key: Seq<char>) -> bool {
    forall|n: int|
        0 <= n <= steps.len() ==> i64::MIN <= count(m, key) + #[trigger] net(steps.take(n), key)
            <= i64::MAX
}

/// No update is lost: after any history, a counter that stayed inside its
/// range stands at its first value plus its increments less its decrements.
pub proof fn lemma_run_counts(m: Map<Seq<char>, i64>, steps: Seq<Step>, key: Seq<char>)
    requires
        in_range(m, steps, key),
    ensures
        count(run(m, steps), key) == count(m, key) + net(steps, key),
    decreases steps.len(),
{
    if steps.len() > 0 {
        let front = steps.drop_last();
        assert forall|n: int| 0 <= n <= front.len() implies i64::MIN <= count(m, key)
            + #[trigger] net(front.take(n), key) <= i64::MAX by {
            assert(front.take(n) =~= steps.take(n));
        }
        lemma_run_counts(m, front, key);
        assert(steps.take(steps.len() as int) =~= steps);
        assert(front =~= steps.take(steps.len() - 1));
    }
}

/// A history holds exactly the keys that the store began with and those
/// that some operation touched: a key that was never touched is absent.
pub proof fn lemma_run_keys(m: Map<Seq<char>, i64>, steps: Seq<Step>, key: Seq<char>)
    ensures
        run(m, steps).contains_key(key) <==> m.contains_key(key) || touched(steps, key),
    decreases steps.len(),
{
    if steps.len() > 0 {
        let front = steps.drop_last();
        lemma_run_keys(m, front, key);
        if touched(front, key) {
            let i = choose|i: int| 0 <= i < front.len() && (#[trigger] front[i]).key() == key;
            assert(steps[i].key() == key);
        }
        if touched(steps, key) {
            let i = choose|i: int| 0 <= i < steps.len() && (#[trigger] steps[i]).key() == key;
            if i < front.len() {
                assert(front[i].key() == key);
            }
        }
        if steps.last().key() == key {
            assert(steps[steps.len() - 1].key() == key);
        }
    }
}

/// Increments alone: a history of `steps.len()` increments of one key, in
/// whatever way the threads that made them took turns, moves the counter up
/// by exactly that many.
pub proof fn lemma_increments_add_up(m: Map<Seq<char>, i64>, steps: Seq<Step>, key: Seq<char>)
    requires
        forall|i: int| 0 <= i < steps.len() ==> #[trigger] steps[i] == Step::Inc(key),
        count(m, key) + steps.len() <= i64::MAX,
    ensures
        count(run(m, steps), key) == count(m, key) + steps.len(),
{
    assert forall|n: int| 0 <= n <= steps.len() implies i64::MIN <= count(m, key)
        + #[trigger] net(steps.take(n), key) <= i64::MAX by {
        lemma_net_of_increments(steps.take(n), key);
    }
    lemma_net_of_increments(steps, key);
    lemma_run_counts(m, steps, key);
}

proof fn lemma_net_of_increments(steps: Seq<Step>, key: Seq<char>)
    requires
        forall|i: int| 0 <= i < steps.len() ==> #[trigger] steps[i] == Step::Inc(key),
    ensures
        net(steps, key) == steps.len(),
    decreases steps.len(),
{
    if steps.len() > 0 {
        lemma_net_of_increments(steps.drop_last(), key);
    }
}

/// The net movement of a counter depends only on how often each operation
/// occurs in the history, not on where.
pub proof fn lemma_net_by_counting(steps: Seq<Step>, key: Seq<char>)
    ensures
        net(steps, key) == steps.to_multiset().count(Step::Inc(key)) - steps.to_multiset().count(
            Step::Dec(key),
        ),
    decreases steps.len(),
{
    if steps.len() == 0 {
        steps.to_multiset_ensures();
        assert(steps.to_multiset().len() == 0);
        assert(steps.to_multiset().count(Step::Inc(key)) == 0);
        assert(steps.to_multiset().count(Step::Dec(key)) == 0);
    } else {
        let front = steps.drop_last();
        lemma_net_by_counting(front, key);
        to_multiset_build(front, steps.last());
        assert(steps =~= front.push(steps.last()));
    }
}

/// The order in which threads take their turns does not matter: two
/// histories that hold the same operations, each as often as the other,
/// leave a counter that stayed inside its range at the same value.
pub proof fn lemma_order_irrelevant(
    m: Map<Seq<char>, i64>,
    first: Seq<Step>,
    second: Seq<Step>,
    key: Seq<char>,
)
    requires
        first.to_multiset() == second.to_multiset(),
        in_range(m, first, key),
        in_range(m, second, key),
    ensures
        count(run(m, first), key) == count(run(m, second), key),
{
    lemma_net_by_counting(first, key);
    lemma_net_by_counting(second, key);
    lemma_run_counts(m, first, key);
    lemma_run_counts(m, second, key);
}

/// A decrement and then an increment of a key that the store did not hold
/// leave the key in the store, at 0.
pub proof fn lemma_dec_then_inc(m: Map<Seq<char>, i64>, key: Seq<char>)
    requires
        !m.contains_key(key),
    ensures
        inc_spec(dec_spec(m, key), key) == m.insert(key, 0),
{
    assert(inc_spec(dec_spec(m, key), key) =~= m.insert(key, 0));
}

/// No key occurs twice among `entries`.
pub open spec fn distinct_keys(entries: Seq<(String, i64)>) -> bool {
    forall|i: int, j: int|
        0 <= i < entries.len() && 0 <= j < entries.len() && i != j ==> (#[trigger] entries[i]).0@
            != (#[trigger] entries[j]).0@
}

/// The mapping that `entries` lists: every key with the value beside it.
pub open spec fn as_map(entries: Seq<(String, i64)>) -> Map<Seq<char>, i64> {
    Map::new(
        |k: Seq<char>| exists|i: int| 0 <= i < entries.len() && (#[trigger] entries[i]).0@ == k,
        |k: Seq<char>|
            entries[choose|i: int| 0 <= i < entries.len() && (#[trigger] entries[i]).0@ == k].1,
    )
}

/// The first place among `keys` that holds `key`, if one does.
spec fn slot_in(keys: Seq<String>, key: Seq<char>) -> Option<int> {
    if exists|i: int| 0 <= i < keys.len() && (#[trigger] keys[i])@ == key {
        Some(choose|i: int| 0 <= i < keys.len() && (#[trigger] keys[i])@ == key)
    } else {
        None
    }
}

/// A store of named counters. A counter comes into being at 0 the first time
/// its key is incremented or decremented, and is never deleted.
pub struct Metrics {
    keys: Vec<String>,
    counts: Vec<i64>,
}

impl View for Metrics {
    type V = Map<Seq<char>, i64>;

    closed spec fn view(&self) -> Map<Seq<char>, i64> {
        Map::new(
            |k: Seq<char>| self.slot_of(k) is Some,
            |k: Seq<char>| self.counts@[self.slot_of(k)->Some_0],
        )
    }
}

impl Metrics {
    /// Every key has its counter, and no key is held twice.
    pub closed spec fn wf(&self) -> bool {
        &&& self.keys@.len() == self.counts@.len()
        &&& forall|i: int, j: int|
            0 <= i < self.keys@.len() && 0 <= j < self.keys@.len() && i != j ==> (
            #[trigger] self.keys@[i])@ != (#[trigger] self.keys@[j])@
    }

    /// Where `key` is held, if it is.
    spec fn slot_of(&self, key: Seq<char>) -> Option<int> {
        slot_in(self.keys@, key)
    }

    proof fn lemma_slot(&self, i: int)
        requires
            self.wf(),
            0 <= i < self.keys@.len(),
        ensures
            self.slot_of(self.keys@[i]@) == Some(i),
            self@.contains_key(self.keys@[i]@),
            self@[self.keys@[i]@] == self.counts@[i],
    {
    }

    /// An empty store.
    pub fn new() -> (m: Self)
        ensures
            m.wf(),
            m@ == Map::<Seq<char>, i64>::empty(),
    {
        let m = Metrics { keys: Vec::new(), counts: Vec::new() };
        assert(m@ =~= Map::<Seq<char>, i64>::empty());
        m
    }

    /// The slot that holds `key`, if one does.
    fn find(&self, key: &String) -> (r: Option<usize>)
        requires
            self.wf(),
        ensures
            self.slot_of(key@) == match r {
                Some(i) => Some(i as int),
                None => None,
            },
            r is Some ==> r->Some_0 < self.keys@.len(),
    {
        let mut i: usize = 0;
        while i < self.keys.len()
            invariant
                self.wf(),
                i <= self.keys@.len(),
                forall|t: int| 0 <= t < i ==> (#[trigger] self.keys@[t])@ != key@,
            decreases self.keys@.len() - i,
        {
            if self.keys[i] == *key {
                proof {
                    self.lemma_slot(i as int);
                }
                return Some(i);
            }
            i += 1;
        }
        None
    }

    /// The value of the counter `key`, or `None` for a key that was never
    /// touched.
    pub fn get(&self, key: &str) -> (r: Option<i64>)
        requires
            self.wf(),
        ensures
            r == (if self@.contains_key(key@) {
                Some(self@[key@])
            } else {
                None
            }),
    {
        let owned = key.to_owned();
        proof {
            assert(self@.contains_key(key@) <==> self.slot_of(key@) is Some);
        }
        match self.find(&owned) {
            Some(i) => Some(self.counts[i]),
            None => None,
        }
    }

    /// Adds `delta` to the counter `key`, creating it at 0 first if it is new.
    fn shift(&mut self, key: &str, delta: i64)
        requires
            old(self).wf(),
            delta == 1 || delta == -1,
            i64::MIN <= count(old(self)@, key@) + delta <= i64::MAX,
        ensures
            final(self).wf(),
            final(self)@ == old(self)@.insert(key@, (count(old(self)@, key@) + delta) as i64),
    {
        let owned = key.to_owned();
        let ghost before = *self;
        match self.find(&owned) {
            Some(i) => {
                proof {
                    before.lemma_slot(i as int);
                }
                let next: i64 = self.counts[i] + delta;
                self.counts.set(i, next);
                proof {
                    assert(self.keys@ == before.keys@);
                    assert(self@ =~= before@.insert(key@, next));
                }
            },
            None => {
                self.keys.push(owned);
                self.counts.push(delta);
                proof {
                    let n = before.keys@.len() as int;
                    assert forall|k: Seq<char>| k != key@ implies self.slot_of(k) == before.slot_of(
                        k,
                    ) by {
                        if before.slot_of(k) is Some {
                            let i = before.slot_of(k)->Some_0;
                            assert(self.keys@[i]@ == k);
                            let j = self.slot_of(k)->Some_0;
                            assert(j == i);
                        } else {
                            if self.slot_of(k) is Some {
                                let j = self.slot_of(k)->Some_0;
                                assert(j < n);
                                assert(before.keys@[j]@ == k);
                            }
                        }
                    }
                    assert(self.keys@[n]@ == key@);
                    assert(self.slot_of(key@) == Some(n)) by {
                        let j = self.slot_of(key@)->Some_0;
                        if j != n {
                            assert(before.keys@[j]@ == key@);
                        }
                    }
                    assert(self@ =~= before@.insert(key@, delta));
                }
            },
        }
    }

    /// Moves the counter `key` up by one, creating it at 0 first if it is
    /// new. The counter must have room to move.
    pub fn inc(&mut self, key: &str)
        requires
            old(self).wf(),
            count(old(self)@, key@) < i64::MAX,
        ensures
            final(self).wf(),
            final(self)@ == inc_spec(old(self)@, key@),
    {
        self.shift(key, 1)
    }

    /// Moves the counter `key` down by one, creating it at 0 first if it is
    /// new. The counter must have room to move.
    pub fn dec(&mut self, key: &str)
        requires
            old(self).wf(),
            count(old(self)@, key@) > i64::MIN,
        ensures
            final(self).wf(),
            final(self)@ == dec_spec(old(self)@, key@),
    {
        self.shift(key, -1)
    }

    /// A copy of every counter as it stands: each key once, beside its
    /// value.
    pub fn snapshot(&self) -> (entries: Vec<(String, i64)>)
        requires
            self.wf(),
        ensures
            distinct_keys(entries@),
            as_map(entries@) == self@,
    {
        let mut entries: Vec<(String, i64)> = Vec::new();
        let mut i: usize = 0;
        while i < self.keys.len()
            invariant
                self.wf(),
                i <= self.keys@.len(),
                entries@.len() == i,
                forall|t: int|
                    0 <= t < i ==> (#[trigger] entries@[t]).0@ == self.keys@[t]@ && entries@[t].1
                        == self.counts@[t],
            decreases self.keys@.len() - i,
        {
            entries.push((self.keys[i].clone(), self.counts[i]));
            i += 1;
        }
        proof {
            self.lemma_snapshot(entries@);
        }
        entries
    }

    proof fn lemma_snapshot(&self, entries: Seq<(String, i64)>)
        requires
            self.wf(),
            entries.len() == self.keys@.len(),
            forall|t: int|
                0 <= t < entries.len() ==> (#[trigger] entries[t]).0@ == self.keys@[t]@
                    && entries[t].1 == self.counts@[t],
        ensures
            distinct_keys(entries),
            as_map(entries) == self@,
    {
        assert forall|i: int, j: int|
            0 <= i < entries.len() && 0 <= j < entries.len() && i != j implies (
        #[trigger] entries[i]).0@ != (#[trigger] entries[j]).0@ by {
            assert(self.keys@[i]@ != self.keys@[j]@);
        }
        assert forall|k: Seq<char>| as_map(entries).contains_key(k) <==> self@.contains_key(k) by {
            if as_map(entries).contains_key(k) {
                let i = choose|i: int| 0 <= i < entries.len() && (#[trigger] entries[i]).0@ == k;
                self.lemma_slot(i);
            }
            if self@.contains_key(k) {
                let i = self.slot_of(k)->Some_0;
                assert(entries[i].0@ == k);
            }
        }
        assert forall|k: Seq<char>| as_map(entries).contains_key(k) implies as_map(entries)[k]
            == self@[k] by {
            let i = choose|i: int| 0 <= i < entries.len() && (#[trigger] entries[i]).0@ == k;
            self.lemma_slot(i);
        }
        assert(as_map(entries) =~= self@);
    }
}

impl Default for Metrics {
    /// An empty store.
    fn default() -> (m: Self)
        ensures
            m.wf(),
            m@ == Map::<Seq<char>, i64>::empty(),
    {
        Metrics::new()
    }
}

} // verus!
