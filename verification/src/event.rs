use vstd::prelude::*;

verus! {

/// Events travel the bus by copy: one send fans a private copy out to every
/// subscriber.  Implementors promise that the copy equals the original, which
/// is what lets the bus contracts speak of the very event that was sent.
pub trait BusEvent: Sized {
    fn dup(&self) -> (r: Self)
        ensures
            r == *self,
    ;
}

impl BusEvent for u32 {
    fn dup(&self) -> (r: u32)
        ensures
            r == *self,
    {
        *self
    }
}

/// An append-only FIFO queue of events.  `poll` drains the whole queue in
/// arrival order, so an event handed to `receive` is observed at most once.
pub struct Receiver<T> {
    events: Vec<T>,
}

impl<T> View for Receiver<T> {
    type V = Seq<T>;

    closed spec fn view(&self) -> Seq<T> {
        self.events@
    }
}

impl<T> Receiver<T> {
    pub fn new() -> (r: Receiver<T>)
        ensures
            r@ == Seq::<T>::empty(),
    {
        Receiver { events: Vec::new() }
    }

    pub fn receive(&mut self, event: T)
        ensures
            final(self)@ == old(self)@.push(event),
    {
        self.events.push(event);
    }

    /// Drain and return every queued event, oldest first, leaving the queue
    /// empty: a second consecutive poll returns nothing.
    pub fn poll(&mut self) -> (out: Vec<T>)
        ensures
            out@ == old(self)@,
            final(self)@ == Seq::<T>::empty(),
    {
        let mut out: Vec<T> = Vec::new();
        core::mem::swap(&mut self.events, &mut out);
        out
    }
}

/// Type-state marker: a sender view that can only register receivers.
pub struct Locked;

/// Type-state marker: a sender with the full send/route interface.
pub struct Unlocked;

/// The hub of one event channel: it owns the broadcast subscriber queues and
/// the table of routed receivers keyed by identifier.  Handing the whole
/// value on as a `Sender<T, Locked>` keeps the same backing queues but drops
/// the `send`/`route` interface.
pub struct Sender<T, State = Unlocked> {
    receivers: Vec<Receiver<T>>,
    routed: Vec<(u128, Receiver<T>)>,
    state: core::marker::PhantomData<State>,
}

impl<T, State> Sender<T, State> {
    /// The broadcast subscriber queues, in order of subscription.
    pub closed spec fn queues(&self) -> Seq<Seq<T>> {
        self.receivers@.map_values(|r: Receiver<T>| r@)
    }

    /// Whether a routed receiver is registered under `id`.
    pub closed spec fn routed_has(&self, id: u128) -> bool {
        exists|i: int| 0 <= i < self.routed@.len() && #[trigger] self.routed@[i].0 == id
    }

    /// The queue of the routed receiver registered under `id`
    /// (the empty sequence if none is).
    pub closed spec fn routed_q(&self, id: u128) -> Seq<T> {
        if self.routed_has(id) {
            let i = choose|i: int|
                0 <= i < self.routed@.len() && #[trigger] self.routed@[i].0 == id;
            self.routed@[i].1@
        } else {
            Seq::<T>::empty()
        }
    }

    /// Well-formed: at most one routed receiver per identifier.
    pub closed spec fn wf(&self) -> bool {
        forall|i: int, j: int|
            0 <= i < j < self.routed@.len() ==> #[trigger] self.routed@[i].0
                != #[trigger] self.routed@[j].0
    }

    pub fn new() -> (s: Sender<T, State>)
        ensures
            s.wf(),
            s.queues() == Seq::<Seq<T>>::empty(),
            forall|k: u128| !s.routed_has(k),
    {
        let s = Sender {
            receivers: Vec::new(),
            routed: Vec::new(),
            state: core::marker::PhantomData,
        };
        proof {
            assert(s.queues() =~= Seq::<Seq<T>>::empty());
        }
        s
    }

    /// Create and register a new broadcast subscriber; its queue starts empty
    /// and is read back through `poll_receiver` with the returned index.
    pub fn new_receiver(&mut self) -> (idx: usize)
        requires
            old(self).wf(),
        ensures
            final(self).wf(),
            idx == old(self).queues().len(),
            final(self).queues() == old(self).queues().push(Seq::<T>::empty()),
            forall|k: u128| final(self).routed_has(k) == old(self).routed_has(k),
            forall|k: u128| final(self).routed_q(k) == old(self).routed_q(k),
    {
        let idx = self.receivers.len();
        self.receivers.push(Receiver::new());
        proof {
            assert(self.queues() =~= old(self).queues().push(Seq::<T>::empty()));
            lemma_same_routed(*old(self), *self);
        }
        idx
    }

    fn find_routed(&self, id: u128) -> (found: Option<usize>)
        requires
            self.wf(),
        ensures
            match found {
                Some(i) => i < self.routed@.len() && self.routed@[i as int].0 == id,
                None => !self.routed_has(id),
            },
    {
        let mut i: usize = 0;
        while i < self.routed.len()
            invariant
                i <= self.routed@.len(),
                forall|j: int| 0 <= j < i ==> #[trigger] self.routed@[j].0 != id,
            decreases self.routed@.len() - i,
        {
            if self.routed[i].0 == id {
                return Some(i);
            }
            i += 1;
        }
        None
    }

    /// Create a routed receiver keyed by `id` (or by a freshly generated
    /// identifier if none is supplied) and register it, replacing any
    /// receiver previously registered under the same identifier.
    pub fn new_routed_receiver(&mut self, id: Option<u128>) -> (rid: u128)
        requires
            old(self).wf(),
        ensures
            final(self).wf(),
            id matches Some(u) ==> rid == u,
            final(self).queues() == old(self).queues(),
            final(self).routed_has(rid),
            final(self).routed_q(rid) == Seq::<T>::empty(),
            forall|k: u128|
                k != rid ==> final(self).routed_has(k) == old(self).routed_has(k)
                    && final(self).routed_q(k) == old(self).routed_q(k),
    {
        let rid = match id {
            Some(u) => u,
            None => crate::fresh_uuid(),
        };
        match self.find_routed(rid) {
            Some(i) => {
                self.routed[i] = (rid, Receiver::new());
                proof {
                    lemma_after_entry_update(*old(self), *self, i as int, rid);
                }
            },
            None => {
                self.routed.push((rid, Receiver::new()));
                proof {
                    lemma_after_push(*old(self), *self, rid);
                }
            },
        }
        rid
    }

    /// Drain the broadcast subscriber queue created as subscriber `idx`.
    pub fn poll_receiver(&mut self, idx: usize) -> (out: Vec<T>)
        requires
            old(self).wf(),
            idx < old(self).queues().len(),
        ensures
            final(self).wf(),
            out@ == old(self).queues()[idx as int],
            final(self).queues() == old(self).queues().update(idx as int, Seq::<T>::empty()),
            forall|k: u128| final(self).routed_has(k) == old(self).routed_has(k),
            forall|k: u128| final(self).routed_q(k) == old(self).routed_q(k),
    {
        let r = &mut self.receivers[idx];
        let out = r.poll();
        proof {
            assert(self.queues() =~= old(self).queues().update(idx as int, Seq::<T>::empty()));
            lemma_same_routed(*old(self), *self);
        }
        out
    }

    /// Drain the routed receiver registered under `id`; an unregistered
    /// identifier yields nothing and changes nothing.
    pub fn poll_routed(&mut self, id: u128) -> (out: Vec<T>)
        requires
            old(self).wf(),
        ensures
            final(self).wf(),
            out@ == old(self).routed_q(id),
            final(self).queues() == old(self).queues(),
            forall|k: u128| final(self).routed_has(k) == old(self).routed_has(k),
            final(self).routed_q(id) == Seq::<T>::empty(),
            forall|k: u128| k != id ==> final(self).routed_q(k) == old(self).routed_q(k),
    {
        match self.find_routed(id) {
            Some(i) => {
                proof {
                    lemma_routed_entry(*old(self), i as int, id);
                }
                let p = &mut self.routed[i];
                let out = p.1.poll();
                proof {
                    lemma_after_entry_update(*old(self), *self, i as int, id);
                }
                out
            },
            None => Vec::new(),
        }
    }
}

/// The entry at a valid index is the one the routed view reports for its key.
proof fn lemma_routed_entry<T, State>(s: Sender<T, State>, i: int, id: u128)
    requires
        s.wf(),
        0 <= i < s.routed@.len(),
        s.routed@[i].0 == id,
    ensures
        s.routed_has(id),
        s.routed_q(id) == s.routed@[i].1@,
{
    assert(s.routed_has(id));
    let j = choose|j: int| 0 <= j < s.routed@.len() && #[trigger] s.routed@[j].0 == id;
    assert(j == i);
}

/// Two senders with equal routed tables resolve every key alike.
proof fn lemma_same_routed<T, S1, S2>(before: Sender<T, S1>, after: Sender<T, S2>)
    requires
        before.wf(),
        after.routed@ == before.routed@,
    ensures
        after.wf(),
        forall|k: u128| after.routed_has(k) == before.routed_has(k),
        forall|k: u128| after.routed_q(k) == before.routed_q(k),
{
    assert forall|k: u128| after.routed_has(k) == before.routed_has(k) by {
        if before.routed_has(k) {
            let j = choose|j: int|
                0 <= j < before.routed@.len() && #[trigger] before.routed@[j].0 == k;
            assert(after.routed@[j].0 == k);
        }
        if after.routed_has(k) {
            let j = choose|j: int|
                0 <= j < after.routed@.len() && #[trigger] after.routed@[j].0 == k;
            assert(before.routed@[j].0 == k);
        }
    }
    assert forall|k: u128| after.routed_q(k) == before.routed_q(k) by {
        if before.routed_has(k) {
            let j = choose|j: int|
                0 <= j < before.routed@.len() && #[trigger] before.routed@[j].0 == k;
            lemma_routed_entry(before, j, k);
            lemma_routed_entry(after, j, k);
        }
    }
}

/// After replacing the entry at index `i` while keeping its key, that key
/// resolves to the new queue and every other key resolves as before.
proof fn lemma_after_entry_update<T, State>(
    before: Sender<T, State>,
    after: Sender<T, State>,
    i: int,
    id: u128,
)
    requires
        before.wf(),
        0 <= i < before.routed@.len(),
        after.routed@.len() == before.routed@.len(),
        forall|j: int|
            0 <= j < before.routed@.len() && j != i ==> #[trigger] after.routed@[j]
                == before.routed@[j],
        before.routed@[i].0 == id,
        after.routed@[i].0 == id,
        after.receivers@ == before.receivers@,
    ensures
        after.wf(),
        after.queues() == before.queues(),
        after.routed_has(id),
        after.routed_q(id) == after.routed@[i].1@,
        forall|k: u128|
            k != id ==> after.routed_has(k) == before.routed_has(k) && after.routed_q(k)
                == before.routed_q(k),
{
    assert forall|p: int, q: int|
        0 <= p < q < after.routed@.len() implies #[trigger] after.routed@[p].0
        != #[trigger] after.routed@[q].0 by {
        assert(after.routed@[p].0 == before.routed@[p].0);
        assert(after.routed@[q].0 == before.routed@[q].0);
    }
    lemma_routed_entry(after, i, id);
    assert forall|k: u128|
        k != id implies after.routed_has(k) == before.routed_has(k) && after.routed_q(k)
        == before.routed_q(k) by {
        if before.routed_has(k) {
            let j = choose|j: int|
                0 <= j < before.routed@.len() && #[trigger] before.routed@[j].0 == k;
            assert(j != i);
            assert(after.routed@[j].0 == k);
            lemma_routed_entry(before, j, k);
            lemma_routed_entry(after, j, k);
        } else {
            if after.routed_has(k) {
                let j = choose|j: int|
                    0 <= j < after.routed@.len() && #[trigger] after.routed@[j].0 == k;
                assert(j != i);
                assert(before.routed@[j].0 == k);
            }
        }
    }
}

/// After appending an entry under a key that was not yet registered, the new
/// key resolves to the appended queue and every other key as before.
proof fn lemma_after_push<T, State>(before: Sender<T, State>, after: Sender<T, State>, id: u128)
    requires
        before.wf(),
        !before.routed_has(id),
        after.routed@.len() == before.routed@.len() + 1,
        forall|j: int|
            0 <= j < before.routed@.len() ==> #[trigger] after.routed@[j] == before.routed@[j],
        after.routed@[before.routed@.len() as int].0 == id,
        after.receivers@ == before.receivers@,
    ensures
        after.wf(),
        after.queues() == before.queues(),
        after.routed_has(id),
        after.routed_q(id) == after.routed@[before.routed@.len() as int].1@,
        forall|k: u128|
            k != id ==> after.routed_has(k) == before.routed_has(k) && after.routed_q(k)
                == before.routed_q(k),
{
    let n = before.routed@.len() as int;
    assert forall|p: int, q: int|
        0 <= p < q < after.routed@.len() implies #[trigger] after.routed@[p].0
        != #[trigger] after.routed@[q].0 by {
        if q < n {
            assert(after.routed@[p].0 == before.routed@[p].0);
            assert(after.routed@[q].0 == before.routed@[q].0);
        } else {
            assert(after.routed@[p].0 == before.routed@[p].0);
            assert(before.routed@[p].0 != id);
        }
    }
    lemma_routed_entry(after, n, id);
    assert forall|k: u128|
        k != id implies after.routed_has(k) == before.routed_has(k) && after.routed_q(k)
        == before.routed_q(k) by {
        if before.routed_has(k) {
            let j = choose|j: int|
                0 <= j < before.routed@.len() && #[trigger] before.routed@[j].0 == k;
            assert(after.routed@[j].0 == k);
            lemma_routed_entry(before, j, k);
            lemma_routed_entry(after, j, k);
        } else {
            if after.routed_has(k) {
                let j = choose|j: int|
                    0 <= j < after.routed@.len() && #[trigger] after.routed@[j].0 == k;
                assert(j != n);
                assert(before.routed@[j].0 == k);
            }
        }
    }
}

impl<T: BusEvent> Sender<T, Unlocked> {
    /// Broadcast: deliver one copy of `event` to every subscriber that exists
    /// at the time of the send, and to nothing else.
    pub fn send(&mut self, event: T)
        requires
            old(self).wf(),
        ensures
            final(self).wf(),
            final(self).queues().len() == old(self).queues().len(),
            forall|i: int|
                0 <= i < old(self).queues().len() ==> final(self).queues()[i] == old(
                    self,
                ).queues()[i].push(event),
            forall|k: u128| final(self).routed_has(k) == old(self).routed_has(k),
            forall|k: u128| final(self).routed_q(k) == old(self).routed_q(k),
    {
        let n = self.receivers.len();
        let mut i: usize = 0;
        while i < n
            invariant
                n == self.receivers@.len(),
                n == old(self).receivers@.len(),
                i <= n,
                old(self).wf(),
                self.routed@ == old(self).routed@,
                forall|j: int|
                    0 <= j < i ==> #[trigger] self.receivers@[j]@ == old(self).receivers@[j]@.push(
                        event,
                    ),
                forall|j: int|
                    i <= j < n ==> #[trigger] self.receivers@[j] == old(self).receivers@[j],
            decreases n - i,
        {
            let copy = event.dup();
            let ghost prev = self.receivers@;
            let r = &mut self.receivers[i];
            r.receive(copy);
            proof {
                assert(self.receivers@[i as int]@ == prev[i as int]@.push(event));
            }
            i += 1;
        }
        proof {
            assert forall|j: int| 0 <= j < old(self).queues().len() implies self.queues()[j]
                == old(self).queues()[j].push(event) by {
                assert(self.queues()[j] == self.receivers@[j]@);
                assert(old(self).queues()[j] == old(self).receivers@[j]@);
            }
            lemma_same_routed(*old(self), *self);
        }
    }

    /// Routed delivery: the event reaches exactly the receiver registered
    /// under `id`; a send to an unregistered identifier is silently dropped.
    pub fn route(&mut self, id: u128, event: T)
        requires
            old(self).wf(),
        ensures
            final(self).wf(),
            final(self).queues() == old(self).queues(),
            forall|k: u128| final(self).routed_has(k) == old(self).routed_has(k),
            old(self).routed_has(id) ==> final(self).routed_q(id) == old(self).routed_q(
                id,
            ).push(event),
            !old(self).routed_has(id) ==> final(self).routed_q(id) == old(self).routed_q(id),
            forall|k: u128| k != id ==> final(self).routed_q(k) == old(self).routed_q(k),
    {
        match self.find_routed(id) {
            Some(i) => {
                proof {
                    lemma_routed_entry(*old(self), i as int, id);
                }
                let p = &mut self.routed[i];
                p.1.receive(event);
                proof {
                    lemma_after_entry_update(*old(self), *self, i as int, id);
                }
            },
            None => {},
        }
    }

    /// Hand the channel on as a read-restricted capability: the same queues
    /// and registrations, with `send` and `route` no longer reachable.
    pub fn lock(self) -> (locked: Sender<T, Locked>)
        requires
            self.wf(),
        ensures
            locked.wf(),
            locked.queues() == self.queues(),
            forall|k: u128| locked.routed_has(k) == self.routed_has(k),
            forall|k: u128| locked.routed_q(k) == self.routed_q(k),
    {
        let ghost orig = self;
        let locked = Sender {
            receivers: self.receivers,
            routed: self.routed,
            state: core::marker::PhantomData,
        };
        proof {
            lemma_same_routed(orig, locked);
            assert(locked.queues() =~= orig.queues());
        }
        locked
    }
}

} // verus!
