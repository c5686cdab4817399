//! A pool of map renderers: which execution slot serves which map
//! definition, the channels that lead to each worker, and when the state
//! that all renderers share may be torn down.
//!
//! A renderer is bound to one thread for its whole life, so the pool hands
//! out channels to workers and never a renderer. The pool keeps the books
//! and makes the channels; the threads and the renderer itself belong to
//! the caller, who also guards the pool with a lock.

use vstd::prelude::*;
use crossbeam_channel::{Receiver, Sender};
use crate::channel::{another_receiver, another_sender, bounded_channel, recv_from, send_on};
use crate::channel::recv_within;
use crate::extent::Extent;
use crate::worker::{arrival_event, render_result, WorkerEvent};

verus! {

/// The capacity of a rendezvous channel: nothing is buffered, every send
/// waits for its receive.
pub const RENDEZVOUS: usize = 0;

/// How long a worker waits for a request before it gives up its slot.
pub const MAP_IDLE_TIMEOUT_SECONDS: u64 = 3600;

/// The slots of a pool: for each, the map definition it serves, if any.
pub type Slots = Seq<Option<Seq<char>>>;

/// The caller's end of the pair of rendezvous channels that leads to the
/// worker of one slot: extents go out on one, images come back on the
/// other. Every clone shares the two channels, so two callers that render
/// on one worker at the same time may get each other's image: callers of
/// one map definition take turns.
#[derive(Debug)]
pub struct MapRenderChannel {
    slot: usize,
    extent_sender: Sender<Extent>,
    img_receiver: Receiver<Vec<u8>>,
}

/// The worker's end of the same pair, with the map definition to build
/// the renderer from and the way to the reaper.
#[derive(Debug)]
pub struct MapWorkerChannel {
    slot: usize,
    key: String,
    extent_receiver: Receiver<Extent>,
    img_sender: Sender<Vec<u8>>,
    exit_sender: Sender<String>,
}

/// The reaper's end of the channel on which workers say that they left.
#[derive(Debug)]
pub struct MapReaper {
    exit_receiver: Receiver<String>,
}

/// What became of a request for a channel.
#[derive(Debug)]
pub enum Acquired {
    /// The map definition already has a worker: use its channel.
    Existing(MapRenderChannel),
    /// The map definition was entered into a free slot: use the channel,
    /// and start a worker on the other end.
    Created(MapRenderChannel, MapWorkerChannel),
}

#[derive(Clone, Copy, Debug, PartialEq, Eq, Structural)]
pub enum PoolError {
    /// Every slot serves another map definition.
    PoolExhausted,
    /// The worker behind a channel has left.
    WorkerUnavailable,
}

/// What a request for a channel comes to, by slot.
pub ghost enum Outcome {
    Existing(int),
    Created(int),
    Exhausted,
}

impl Clone for MapRenderChannel {
    fn clone(&self) -> (other: Self)
        ensures
            other.slot() == self.slot(),
    {
        MapRenderChannel {
            slot: self.slot,
            extent_sender: another_sender(&self.extent_sender),
            img_receiver: another_receiver(&self.img_receiver),
        }
    }
}

impl MapRenderChannel {
    /// The slot whose worker this channel leads to.
    pub closed spec fn spec_slot(&self) -> usize {
        self.slot
    }

    /// The slot whose worker this channel leads to.
    #[verifier::when_used_as_spec(spec_slot)]
    pub fn slot(&self) -> (slot: usize)
        ensures
            slot == self.slot(),
    {
        self.slot
    }

    /// Hands `ext` to the worker and waits for the image. Fails where the
    /// worker has left, before it took the extent or before it replied.
    pub fn render(&self, ext: Extent) -> (res: Result<Vec<u8>, PoolError>)
        ensures
            res is Err ==> res == Err::<Vec<u8>, PoolError>(PoolError::WorkerUnavailable),
    {
        if !send_on(&self.extent_sender, ext) {
            return render_result(false, None);
        }
        let reply = recv_from(&self.img_receiver);
        render_result(true, reply)
    }
}

impl MapWorkerChannel {
    /// The slot that this worker runs in.
    pub closed spec fn spec_slot(&self) -> usize {
        self.slot
    }

    /// The map definition to build the renderer from.
    pub closed spec fn spec_key(&self) -> Seq<char> {
        self.key@
    }

    /// The slot that this worker runs in.
    #[verifier::when_used_as_spec(spec_slot)]
    pub fn slot(&self) -> (slot: usize)
        ensures
            slot == self.slot(),
    {
        self.slot
    }

    /// The map definition to build the renderer from.
    pub fn key(&self) -> (key: &String)
        ensures
            key@ == self.spec_key(),
    {
        &self.key
    }

    /// Waits for the next extent, for at most `idle_seconds`. The event is
    /// a request, with its extent, or the reason why none came.
    pub fn next_request(&self, idle_seconds: u64) -> (next: (WorkerEvent, Option<Extent>))
        ensures
            next.0 == WorkerEvent::Request <==> next.1 is Some,
            next.0 == WorkerEvent::Request || next.0 == WorkerEvent::Disconnected || next.0
                == WorkerEvent::IdleTimeout,
    {
        arrival_event(recv_within(&self.extent_receiver, idle_seconds))
    }

    /// Sends `image` back to the caller whose extent was taken last, and
    /// says whether a caller took it.
    pub fn reply(&self, image: Vec<u8>) -> (sent: bool) {
        send_on(&self.img_sender, image)
    }

    /// Tells the reaper that this worker has left, and says whether the
    /// reaper heard it.
    pub fn leave(self) -> (heard: bool) {
        send_on(&self.exit_sender, self.key)
    }
}

impl MapReaper {
    /// Waits for the next worker to leave and returns its map definition;
    /// `None` once the pool and every worker are gone.
    pub fn next_evicted(&self) -> (key: Option<String>) {
        recv_from(&self.exit_receiver)
    }
}

/// The first index from `from` on at which `slots` holds `want`, or the
/// number of slots where there is none.
pub open spec fn position(slots: Slots, want: Option<Seq<char>>, from: int) -> int
    decreases slots.len() - from,
{
    if from < 0 || from >= slots.len() {
        slots.len() as int
    } else if slots[from] == want {
        from
    } else {
        position(slots, want, from + 1)
    }
}

/// Whether some slot serves `key`.
pub open spec fn holds(slots: Slots, key: Seq<char>) -> bool {
    position(slots, Some(key), 0) < slots.len()
}

/// Whether no slot serves anything.
pub open spec fn idle(slots: Slots) -> bool {
    forall|i: int| 0 <= i < slots.len() ==> slots[i] is None
}

/// No two slots serve the same map definition.
pub open spec fn distinct(slots: Slots) -> bool {
    forall|i: int, j: int|
        0 <= i < j < slots.len() && slots[i] is Some ==> #[trigger] slots[i] != #[trigger] slots[j]
}

/// What a request for the channel of `key` comes to: the slot that serves
/// `key`, else the first free slot, else nothing.
pub open spec fn acquire(slots: Slots, key: Seq<char>) -> Outcome {
    let at = position(slots, Some(key), 0);
    let free = position(slots, None, 0);
    if at < slots.len() {
        Outcome::Existing(at)
    } else if free < slots.len() {
        Outcome::Created(free)
    } else {
        Outcome::Exhausted
    }
}

/// The slots after a request for the channel of `key`.
pub open spec fn after_acquire(slots: Slots, key: Seq<char>) -> Slots {
    let free = position(slots, None, 0);
    if !holds(slots, key) && free < slots.len() {
        slots.update(free, Some(key))
    } else {
        slots
    }
}

/// The slots after the worker of `key` has left.
pub open spec fn after_evict(slots: Slots, key: Seq<char>) -> Slots {
    let at = position(slots, Some(key), 0);
    if at < slots.len() {
        slots.update(at, None)
    } else {
        slots
    }
}

/// The result of `position` lies in range and holds what was looked for;
/// nothing before it does.
pub proof fn lemma_position(slots: Slots, want: Option<Seq<char>>, from: int)
    requires
        0 <= from <= slots.len(),
    ensures
        from <= position(slots, want, from) <= slots.len(),
        position(slots, want, from) < slots.len() ==> slots[position(slots, want, from)] == want,
        forall|i: int| from <= i < position(slots, want, from) ==> slots[i] != want,
    decreases slots.len() - from,
{
    if from < slots.len() && slots[from] != want {
        lemma_position(slots, want, from + 1);
    }
}

/// Where `want` first stands at `at`, counted from `from`, `position` finds it there.
pub proof fn lemma_position_found(slots: Slots, want: Option<Seq<char>>, from: int, at: int)
    requires
        0 <= from <= at <= slots.len(),
        forall|i: int| from <= i < at ==> slots[i] != want,
        at < slots.len() ==> slots[at] == want,
    ensures
        position(slots, want, from) == at,
    decreases at - from,
{
    if from < at {
        lemma_position_found(slots, want, from + 1, at);
    }
}

/// What a slot in use holds: the map definition and a clone of the
/// channel to its worker.
#[derive(Debug)]
pub struct PoolEntry {
    key: String,
    channel: MapRenderChannel,
}

/// A pool of execution slots, each free or serving one map definition.
#[derive(Debug)]
pub struct MapPool {
    lookup: Vec<Option<PoolEntry>>,
    exit_sender: Sender<String>,
}

impl View for MapPool {
    type V = Slots;

    closed spec fn view(&self) -> Slots {
        Seq::new(
            self.lookup@.len(),
            |i: int|
                match self.lookup@[i] {
                    Some(entry) => Some(entry.key@),
                    None => None,
                },
        )
    }
}

impl MapPool {
    /// The pool's invariant: at most one slot per map definition, and in
    /// each slot the channel of that slot.
    pub closed spec fn wf(&self) -> bool {
        &&& distinct(self@)
        &&& forall|i: int|
            0 <= i < self.lookup@.len() && self.lookup@[i] is Some ==> (
            #[trigger] self.lookup@[i])->Some_0.channel.slot == i
    }

    /// In a well-formed pool no two slots serve one map definition.
    pub proof fn lemma_wf_distinct(&self)
        requires
            self.wf(),
        ensures
            distinct(self@),
    {
    }

    /// A pool of `size` free slots, and the reaper's end of the channel on
    /// which its workers will say that they left.
    pub fn create(size: usize) -> (made: (MapPool, MapReaper))
        ensures
            made.0.wf(),
            made.0@.len() == size,
            idle(made.0@),
    {
        let mut lookup: Vec<Option<PoolEntry>> = Vec::new();
        let mut i: usize = 0;
        while i < size
            invariant
                i <= size,
                lookup@.len() == i,
                forall|j: int| 0 <= j < i ==> lookup@[j] is None,
            decreases size - i,
        {
            lookup.push(None);
            i += 1;
        }
        let (exit_sender, exit_receiver) = bounded_channel::<String>(RENDEZVOUS);
        (MapPool { lookup, exit_sender }, MapReaper { exit_receiver })
    }

    /// The number of slots, free or not.
    pub fn capacity(&self) -> (n: usize)
        ensures
            n == self@.len(),
    {
        self.lookup.len()
    }

    /// The slot that serves `key`, or the number of slots where none does.
    fn find(&self, key: &String) -> (at: usize)
        ensures
            at == position(self@, Some(key@), 0),
            at <= self@.len(),
            at < self@.len() ==> self.lookup@[at as int] is Some,
    {
        let mut i: usize = 0;
        while i < self.lookup.len()
            invariant
                i <= self.lookup@.len(),
                self@.len() == self.lookup@.len(),
                forall|j: int| 0 <= j < i ==> self@[j] != Some(key@),
            decreases self.lookup@.len() - i,
        {
            let found = match &self.lookup[i] {
                Some(entry) => entry.key == *key,
                None => false,
            };
            if found {
                proof {
                    assert(self@[i as int] == Some(key@));
                    lemma_position_found(self@, Some(key@), 0, i as int);
                }
                return i;
            }
            i += 1;
        }
        proof {
            lemma_position_found(self@, Some(key@), 0, i as int);
        }
        i
    }

    /// The first free slot, or the number of slots where none is free.
    fn first_free(&self) -> (at: usize)
        ensures
            at == position(self@, None, 0),
            at <= self@.len(),
    {
        let mut i: usize = 0;
        while i < self.lookup.len()
            invariant
                i <= self.lookup@.len(),
                self@.len() == self.lookup@.len(),
                forall|j: int| 0 <= j < i ==> self@[j] != None::<Seq<char>>,
            decreases self.lookup@.len() - i,
        {
            if self.lookup[i].is_none() {
                proof {
                    assert(self@[i as int] == None::<Seq<char>>);
                    lemma_position_found(self@, None, 0, i as int);
                }
                return i;
            }
            i += 1;
        }
        proof {
            lemma_position_found(self@, None, 0, i as int);
        }
        i
    }

    /// Whether a slot serves `key`.
    pub fn contains(&self, key: &String) -> (b: bool)
        ensures
            b == holds(self@, key@),
    {
        self.find(key) < self.lookup.len()
    }

    /// Whether every slot is free.
    pub fn is_empty(&self) -> (b: bool)
        ensures
            b == idle(self@),
    {
        let mut i: usize = 0;
        while i < self.lookup.len()
            invariant
                i <= self.lookup@.len(),
                self@.len() == self.lookup@.len(),
                forall|j: int| 0 <= j < i ==> self@[j] is None,
            decreases self.lookup@.len() - i,
        {
            if self.lookup[i].is_some() {
                proof {
                    assert(self@[i as int] is Some);
                }
                return false;
            }
            i += 1;
        }
        true
    }

    /// The channel to the worker of `key`. Where a slot serves `key`
    /// already, a clone of that slot's channel comes back and nothing
    /// changes. Else `key` is entered into the first free slot with a
    /// fresh pair of channels, and the caller gets both ends: one to
    /// render on, one to start the worker with. Where no slot is free the
    /// request fails and nothing changes.
    pub fn acquire_or_create(&mut self, key: String) -> (res: Result<Acquired, PoolError>)
        requires
            old(self).wf(),
        ensures
            final(self).wf(),
            final(self)@ == after_acquire(old(self)@, key@),
            match acquire(old(self)@, key@) {
                Outcome::Existing(at) => res matches Ok(Acquired::Existing(channel))
                    && channel.slot() == at,
                Outcome::Created(at) => res matches Ok(Acquired::Created(channel, worker))
                    && channel.slot() == at && worker.slot() == at && worker.spec_key() == key@,
                Outcome::Exhausted => res matches Err(e) && e == PoolError::PoolExhausted,
            },
    {
        let at = self.find(&key);
        if at < self.lookup.len() {
            let channel = self.lookup[at].as_ref().unwrap().channel.clone();
            return Ok(Acquired::Existing(channel));
        }
        let free = self.first_free();
        if free < self.lookup.len() {
            proof {
                lemma_position(self@, Some(key@), 0);
                lemma_position(self@, None, 0);
            }
            let (extent_sender, extent_receiver) = bounded_channel::<Extent>(RENDEZVOUS);
            let (img_sender, img_receiver) = bounded_channel::<Vec<u8>>(RENDEZVOUS);
            let channel = MapRenderChannel { slot: free, extent_sender, img_receiver };
            let worker = MapWorkerChannel {
                slot: free,
                key: key.clone(),
                extent_receiver,
                img_sender,
                exit_sender: another_sender(&self.exit_sender),
            };
            let kept = channel.clone();
            self.lookup.set(free, Some(PoolEntry { key, channel: kept }));
            proof {
                assert(self@ =~= old(self)@.update(free as int, Some(key@)));
            }
            return Ok(Acquired::Created(channel, worker));
        }
        Err(PoolError::PoolExhausted)
    }

    /// Frees the slot of `key`, for the worker of `key` that has left, and
    /// says whether the pool is empty now: only then may the state that
    /// all renderers share be cleaned up.
    pub fn evict(&mut self, key: &String) -> (cleanup: bool)
        requires
            old(self).wf(),
            holds(old(self)@, key@),
        ensures
            final(self).wf(),
            final(self)@ == after_evict(old(self)@, key@),
            !holds(final(self)@, key@),
            cleanup == idle(final(self)@),
    {
        let at = self.find(key);
        proof {
            lemma_position(self@, Some(key@), 0);
        }
        self.lookup.set(at, None);
        proof {
            assert(self@ =~= old(self)@.update(at as int, None));
            lemma_evicted_is_gone(old(self)@, key@);
        }
        self.is_empty()
    }
}

/// Once the worker of `key` has left, no slot serves `key`.
pub proof fn lemma_evicted_is_gone(slots: Slots, key: Seq<char>)
    requires
        distinct(slots),
    ensures
        !holds(after_evict(slots, key), key),
        distinct(after_evict(slots, key)),
{
    let at = position(slots, Some(key), 0);
    let left = after_evict(slots, key);
    lemma_position(slots, Some(key), 0);
    assert forall|i: int| 0 <= i < left.len() implies left[i] != Some(key) by {
        if i != at && at < slots.len() {
            if i < at {
                assert(slots[i] != slots[at]);
            } else {
                assert(slots[at] != slots[i]);
            }
        }
    }
    lemma_position_found(left, Some(key), 0, left.len() as int);
}

/// Two requests in a row for one map definition lead to one worker: where
/// the first is answered, the second finds the slot of the first, starts
/// nothing and changes nothing.
pub proof fn law_acquire_twice(slots: Slots, key: Seq<char>)
    requires
        distinct(slots),
        acquire(slots, key) != Outcome::Exhausted,
    ensures
        acquire(after_acquire(slots, key), key) == Outcome::Existing(slot_of(acquire(slots, key))),
        after_acquire(after_acquire(slots, key), key) == after_acquire(slots, key),
{
    let then = after_acquire(slots, key);
    lemma_position(slots, Some(key), 0);
    lemma_position(slots, None, 0);
    if !holds(slots, key) {
        let free = position(slots, None, 0);
        assert forall|i: int| 0 <= i < free implies then[i] != Some(key) by {
            assert(slots[i] != Some(key));
        }
        lemma_position_found(then, Some(key), 0, free);
    }
}

/// The slot that a request was answered with.
pub open spec fn slot_of(outcome: Outcome) -> int {
    match outcome {
        Outcome::Existing(at) => at,
        Outcome::Created(at) => at,
        Outcome::Exhausted => -1,
    }
}

/// Once the worker of a map definition has left, the next request for that
/// definition enters it anew, so that a new worker is started.
pub proof fn law_acquire_after_evict(slots: Slots, key: Seq<char>)
    requires
        distinct(slots),
        holds(slots, key),
    ensures
        !holds(after_evict(slots, key), key),
        acquire(after_evict(slots, key), key) is Created,
        holds(after_acquire(after_evict(slots, key), key), key),
{
    let left = after_evict(slots, key);
    let at = position(slots, Some(key), 0);
    lemma_evicted_is_gone(slots, key);
    lemma_position(slots, Some(key), 0);
    lemma_position(left, None, 0);
    lemma_position(left, Some(key), 0);
    assert(left[at] is None);
    let free = position(left, None, 0);
    if free >= left.len() {
        assert(left[at] != None::<Seq<char>>);
    }
    let then = after_acquire(left, key);
    assert(then[free] == Some(key));
    lemma_position(then, Some(key), 0);
    if position(then, Some(key), 0) >= then.len() {
        assert(then[free] != Some(key));
    }
}

/// A request changes at most the one slot it takes, and no request ever
/// makes two slots serve one map definition.
pub proof fn law_one_slot_per_key(slots: Slots, key: Seq<char>)
    requires
        distinct(slots),
    ensures
        distinct(after_acquire(slots, key)),
        distinct(after_evict(slots, key)),
        after_acquire(slots, key).len() == slots.len(),
        acquire(slots, key) is Exhausted <==> !holds(slots, key) && forall|i: int|
            0 <= i < slots.len() ==> slots[i] is Some,
{
    lemma_position(slots, Some(key), 0);
    lemma_position(slots, None, 0);
    lemma_evicted_is_gone(slots, key);
    let free = position(slots, None, 0);
    if free < slots.len() {
        assert(slots[free] is None);
    }
}

/// Two map definitions never share a slot: a request for another
/// definition is answered with another slot.
pub proof fn law_distinct_keys_distinct_slots(slots: Slots, a: Seq<char>, b: Seq<char>)
    requires
        distinct(slots),
        a != b,
        acquire(slots, a) != Outcome::Exhausted,
        acquire(after_acquire(slots, a), b) != Outcome::Exhausted,
    ensures
        slot_of(acquire(after_acquire(slots, a), b)) != slot_of(acquire(slots, a)),
{
    let then = after_acquire(slots, a);
    law_acquire_twice(slots, a);
    lemma_position(then, Some(a), 0);
    lemma_position(then, Some(b), 0);
    lemma_position(then, None, 0);
    let at = slot_of(acquire(slots, a));
    assert(then[at] == Some(a));
}

} // verus!
