use vstd::prelude::*;
use crate::dispatch::MsgOutput;
use crate::error::Error;

verus! {

/// The output buffer while results come in: every slot is written at most
/// once, and the buffer is handed over only when every slot has been written.
pub struct Collector<T> {
    slots: Vec<Option<T>>,
}

impl<T> View for Collector<T> {
    type V = Seq<Option<T>>;

    /// Slot by slot: the value written there, or `None` while it is awaited.
    closed spec fn view(&self) -> Seq<Option<T>> {
        self.slots@
    }
}

/// No slot of `slots` is awaited any more.
pub open spec fn complete<T>(slots: Seq<Option<T>>) -> bool {
    forall|i: int| 0 <= i < slots.len() ==> (#[trigger] slots[i]) is Some
}

/// The values that the slots of `slots` hold, where none is awaited.
pub open spec fn contents<T>(slots: Seq<Option<T>>) -> Seq<T> {
    Seq::new(slots.len(), |i: int| slots[i]->Some_0)
}

/// The reply carries a value for a slot of `slots` that is still awaited.
pub open spec fn usable<T>(slots: Seq<Option<T>>, reply: Option<MsgOutput<T>>) -> bool {
    match reply {
        Some(out) => out.idx < slots.len() && slots[out.idx as int] is None,
        None => false,
    }
}

/// The buffer after the replies of `replies` were accepted one after the
/// other, the first one first, or `None` where one of them was refused.
pub open spec fn accept_all<T>(slots: Seq<Option<T>>, replies: Seq<MsgOutput<T>>) -> Option<
    Seq<Option<T>>,
>
    decreases replies.len(),
{
    if replies.len() == 0 {
        Some(slots)
    } else {
        match accept_all(slots, replies.drop_last()) {
            Some(s) => if usable(s, Some(replies.last())) {
                Some(s.update(replies.last().idx as int, Some(replies.last().value)))
            } else {
                None
            },
            None => None,
        }
    }
}

/// A buffer of `n` slots, all of them awaited.
pub open spec fn awaited<T>(n: nat) -> Seq<Option<T>> {
    Seq::new(n, |i: int| None::<T>)
}

/// Every slot of a buffer of `n` slots is named by exactly one reply of
/// `replies`, and no reply names anything else.
pub open spec fn names_each_once<T>(replies: Seq<MsgOutput<T>>, n: nat) -> bool {
    &&& forall|p: int| 0 <= p < replies.len() ==> (#[trigger] replies[p]).idx < n
    &&& forall|p: int, q: int|
        0 <= p < replies.len() && 0 <= q < replies.len() && p != q ==> (#[trigger] replies[p]).idx
            != (#[trigger] replies[q]).idx
    &&& forall|i: int| 0 <= i < n ==> #[trigger] named(replies, i)
}

/// Some reply of `replies` names slot `i`.
pub open spec fn named<T>(replies: Seq<MsgOutput<T>>, i: int) -> bool {
    exists|p: int| names(replies, p, i)
}

/// The reply at position `p` of `replies` names slot `i`.
pub open spec fn names<T>(replies: Seq<MsgOutput<T>>, p: int, i: int) -> bool {
    0 <= p < replies.len() && replies[p].idx == i
}

/// Replies that name every slot exactly once are all accepted, in whatever
/// order they arrive, and leave every slot with the value of the reply that
/// names it.
pub proof fn lemma_arrival_order<T>(replies: Seq<MsgOutput<T>>, n: nat)
    requires
        names_each_once(replies, n),
    ensures
        accept_all(awaited::<T>(n), replies) is Some,
        accept_all(awaited::<T>(n), replies)->Some_0.len() == n,
        complete(accept_all(awaited::<T>(n), replies)->Some_0),
        forall|p: int|
            0 <= p < replies.len() ==> accept_all(awaited::<T>(n), replies)->Some_0[(
            #[trigger] replies[p]).idx as int] == Some(replies[p].value),
{
    lemma_accept_prefix(replies, n, replies.len());
    assert(replies.take(replies.len() as int) =~= replies);
    let s = accept_all(awaited::<T>(n), replies)->Some_0;
    assert forall|i: int| 0 <= i < s.len() implies (#[trigger] s[i]) is Some by {
        assert(named(replies, i));
        let p = choose|p: int| names(replies, p, i);
        assert(names(replies, p, i));
        assert(s[replies[p].idx as int] == Some(replies[p].value));
    }
}

/// Two arrival orders of the same replies fill the buffer alike.
pub proof fn lemma_arrival_order_irrelevant<T>(
    first: Seq<MsgOutput<T>>,
    second: Seq<MsgOutput<T>>,
    n: nat,
)
    requires
        names_each_once(first, n),
        names_each_once(second, n),
        forall|p: int|
            0 <= p < first.len() ==> exists|q: int|
                0 <= q < second.len() && #[trigger] first[p] == #[trigger] second[q],
    ensures
        accept_all(awaited::<T>(n), first) == accept_all(awaited::<T>(n), second),
{
    lemma_arrival_order(first, n);
    lemma_arrival_order(second, n);
    let s1 = accept_all(awaited::<T>(n), first)->Some_0;
    let s2 = accept_all(awaited::<T>(n), second)->Some_0;
    assert forall|i: int| 0 <= i < n implies s1[i] == s2[i] by {
        assert(named(first, i));
        let p = choose|p: int| names(first, p, i);
        assert(names(first, p, i));
        let q = choose|q: int| 0 <= q < second.len() && first[p] == second[q];
        assert(s1[first[p].idx as int] == Some(first[p].value));
        assert(s2[second[q].idx as int] == Some(second[q].value));
    }
    assert(s1 =~= s2);
}

proof fn lemma_accept_prefix<T>(replies: Seq<MsgOutput<T>>, n: nat, k: nat)
    requires
        names_each_once(replies, n),
        k <= replies.len(),
    ensures
        accept_all(awaited::<T>(n), replies.take(k as int)) is Some,
        accept_all(awaited::<T>(n), replies.take(k as int))->Some_0.len() == n,
        forall|i: int|
            0 <= i < n ==> (#[trigger] accept_all(
                awaited::<T>(n),
                replies.take(k as int),
            )->Some_0[i]) == (if exists|p: int| 0 <= p < k && names(replies, p, i) {
                Some(replies[choose|p: int| 0 <= p < k && names(replies, p, i)].value)
            } else {
                None
            }),
    decreases k,
{
    let here = replies.take(k as int);
    if k > 0 {
        let front = replies.take(k - 1);
        lemma_accept_prefix(replies, n, (k - 1) as nat);
        assert(here.drop_last() =~= front);
        let s = accept_all(awaited::<T>(n), front)->Some_0;
        let last = replies[k - 1];
        assert(here.last() == last);
        let target = last.idx as int;
        assert(s[target] is None) by {
            if exists|p: int| 0 <= p < k - 1 && names(replies, p, target) {
                let p = choose|p: int| 0 <= p < k - 1 && names(replies, p, target);
                assert(replies[p].idx == replies[k - 1].idx);
            }
        }
        let t = s.update(target, Some(last.value));
        assert forall|i: int| 0 <= i < n implies (#[trigger] t[i]) == (if exists|p: int|
            0 <= p < k && names(replies, p, i) {
            Some(replies[choose|p: int| 0 <= p < k && names(replies, p, i)].value)
        } else {
            None
        }) by {
            if i == target {
                assert(names(replies, k - 1, i));
                let p = choose|p: int| 0 <= p < k && names(replies, p, i);
                assert(p == k - 1) by {
                    if p != k - 1 {
                        assert(replies[p].idx == replies[k - 1].idx);
                    }
                }
            } else {
                if exists|p: int| 0 <= p < k && names(replies, p, i) {
                    let p = choose|p: int| 0 <= p < k && names(replies, p, i);
                    assert(p != k - 1);
                    assert(0 <= p < k - 1 && names(replies, p, i));
                    let q = choose|q: int| 0 <= q < k - 1 && names(replies, q, i);
                    assert(q == p) by {
                        if q != p {
                            assert(replies[p].idx == replies[q].idx);
                        }
                    }
                } else {
                    if exists|q: int| 0 <= q < k - 1 && names(replies, q, i) {
                        let q = choose|q: int| 0 <= q < k - 1 && names(replies, q, i);
                        assert(0 <= q < k && names(replies, q, i));
                    }
                }
            }
        }
    } else {
        assert(here =~= Seq::<MsgOutput<T>>::empty());
    }
}

impl<T: Copy> Collector<T> {
    /// A buffer of `len` slots, all of them awaited.
    pub fn new(len: usize) -> (c: Self)
        ensures
            c@ == awaited::<T>(len as nat),
    {
        let mut slots: Vec<Option<T>> = Vec::new();
        let mut i: usize = 0;
        while i < len
            invariant
                i <= len,
                slots@.len() == i,
                forall|k: int| 0 <= k < i ==> slots@[k] is None,
            decreases len - i,
        {
            slots.push(None);
            i += 1;
        }
        assert(slots@ =~= Seq::new(len as nat, |i: int| None::<T>));
        Collector { slots }
    }

    /// The number of slots.
    pub fn len(&self) -> (n: usize)
        ensures
            n == self@.len(),
    {
        self.slots.len()
    }

    /// Writes one result into the slot that it names. A result for a slot
    /// outside the buffer, or for one that already holds a value, is refused
    /// and leaves the buffer as it was.
    pub fn store(&mut self, out: MsgOutput<T>) -> (r: Result<(), Error>)
        ensures
            out.idx < old(self)@.len() && old(self)@[out.idx as int] is None ==> r == Ok::<
                (),
                Error,
            >(()) && final(self)@ == old(self)@.update(out.idx as int, Some(out.value)),
            !(out.idx < old(self)@.len() && old(self)@[out.idx as int] is None) ==> r == Err::<
                (),
                Error,
            >(Error::WorkerUnavailable) && final(self)@ == old(self)@,
    {
        if out.idx >= self.slots.len() || self.slots[out.idx].is_some() {
            return Err(Error::WorkerUnavailable);
        }
        self.slots.set(out.idx, Some(out.value));
        Ok(())
    }

    /// Takes what one reply channel yielded. A channel that closed without
    /// a value is fatal; a value goes to the slot that it names.
    pub fn accept(&mut self, reply: Option<MsgOutput<T>>) -> (r: Result<(), Error>)
        ensures
            usable(old(self)@, reply) ==> r == Ok::<(), Error>(()) && final(self)@ == old(
                self,
            )@.update(reply->Some_0.idx as int, Some(reply->Some_0.value)),
            !usable(old(self)@, reply) ==> r == Err::<(), Error>(Error::WorkerUnavailable)
                && final(self)@ == old(self)@,
    {
        match reply {
            Some(out) => self.store(out),
            None => Err(Error::WorkerUnavailable),
        }
    }

    /// Hands the buffer over once every slot has been written; a buffer with
    /// a slot still awaited is refused.
    pub fn finish(self) -> (r: Result<Vec<T>, Error>)
        ensures
            complete(self@) ==> r is Ok && r->Ok_0@ == contents(self@),
            !complete(self@) ==> r == Err::<Vec<T>, Error>(Error::WorkerUnavailable),
    {
        let mut data: Vec<T> = Vec::new();
        let mut i: usize = 0;
        while i < self.slots.len()
            invariant
                i <= self.slots@.len(),
                data@.len() == i,
                forall|k: int| 0 <= k < i ==> self.slots@[k] == Some(#[trigger] data@[k]),
            decreases self.slots@.len() - i,
        {
            match self.slots[i] {
                Some(v) => {
                    data.push(v);
                },
                None => {
                    return Err(Error::WorkerUnavailable);
                },
            }
            i += 1;
        }
        assert forall|k: int| 0 <= k < self@.len() implies (#[trigger] self@[k]) is Some by {
            assert(self.slots@[k] == Some(data@[k]));
        }
        assert(data@ =~= contents(self@));
        Ok(data)
    }
}

} // verus!
