//! A bounded byte queue between a producer and a consumer, such as the
//! keyboard interrupt and the task that reads typed characters.
//!
//! The bytes live in a ring of 64 slots between `tail` (the next byte to
//! take) and `head` (the next slot to fill); one slot stays unused, so the
//! queue holds at most 63 bytes. A consumer that finds the queue empty, or a
//! producer that finds it full, takes the queue's mutex, records itself as
//! the waiter and blocks; the other side wakes it after the next put or get.
//! All of this runs with interrupts disabled.
//!
//! In this model a call that blocks returns the switch it made. The blocked
//! task repeats the call when it runs again; it still holds the mutex then,
//! and releasing it is the first thing the call does, as the kernel's loop
//! does right after the wait.
use crate::isr::EFLAGS_IF;
use crate::semaphore::{blocked_frame, lock_acquire, lock_release, Lock};
use crate::thread::{
    heads_kept, thread_block, thread_unblock, Scheduler, SwitchAction, TASK_BLOCKED, TASK_READY,
};
use vstd::prelude::*;

verus! {

pub const BUF_SIZE: usize = 64;

/// The queue: the waiting producer and consumer (at most one of the two),
/// the mutex a waiter holds, and the ring of bytes.
pub struct IoQueue {
    pub producer: Option<usize>,
    pub consumer: Option<usize>,
    pub mutex: Lock,
    pub buf: [u8; 64],
    pub head: i32,
    pub tail: i32,
}

/// What a get or put came to: done (with the byte taken, for a get), or
/// blocked, with the switch that was made.
#[derive(Clone, Copy, PartialEq, Eq, Debug)]
pub enum IoqStep {
    Done(u8),
    Blocked(SwitchAction),
}

/// Number of bytes held by a ring whose next free slot is `head` and whose
/// next byte is at `tail`.
pub open spec fn ring_count(head: int, tail: int) -> int {
    (head - tail) % 64
}

/// The bytes held by the ring, oldest first.
pub open spec fn ring_contents(buf: Seq<u8>, head: int, tail: int) -> Seq<u8> {
    Seq::new(ring_count(head, tail) as nat, |k: int| buf[(tail + k) % 64])
}

/// The slot after `pos`.
pub open spec fn ring_next(pos: int) -> int {
    (pos + 1) % 64
}

/// Putting `c` into a ring that is not full appends it to the bytes held.
pub proof fn lemma_ring_put(buf: Seq<u8>, head: int, tail: int, c: u8)
    requires
        buf.len() == 64,
        0 <= head < 64,
        0 <= tail < 64,
        ring_next(head) != tail,
    ensures
        ring_contents(buf.update(head, c), ring_next(head), tail) == ring_contents(buf, head, tail).push(c),
{
    let n = ring_count(head, tail);
    assert(ring_count(ring_next(head), tail) == n + 1);
    let b2 = buf.update(head, c);
    assert forall|k: int| 0 <= k < n implies #[trigger] b2[(tail + k) % 64] == buf[(tail + k) % 64] by {
        assert((tail + k) % 64 != head);
    }
    assert((tail + n) % 64 == head);
    assert(ring_contents(b2, ring_next(head), tail) =~= ring_contents(buf, head, tail).push(c));
}

/// Taking from a ring that is not empty removes its oldest byte.
pub proof fn lemma_ring_get(buf: Seq<u8>, head: int, tail: int)
    requires
        buf.len() == 64,
        0 <= head < 64,
        0 <= tail < 64,
        head != tail,
    ensures
        ring_contents(buf, head, tail).len() > 0,
        ring_contents(buf, head, ring_next(tail)) == ring_contents(buf, head, tail).drop_first(),
{
    let n = ring_count(head, tail);
    assert(ring_count(head, ring_next(tail)) == n - 1);
    assert forall|k: int| 0 <= k < n - 1 implies #[trigger] buf[(ring_next(tail) + k) % 64] == buf[(tail + (k + 1)) % 64] by {
        assert((ring_next(tail) + k) % 64 == (tail + (k + 1)) % 64);
    }
    assert(ring_contents(buf, head, ring_next(tail)) =~= ring_contents(buf, head, tail).drop_first());
}

/// What goes into the queue comes out in the same order: putting `c` into a
/// ring that is neither empty nor full and then taking a byte gives back the
/// oldest byte, with `c` now last.
pub proof fn lemma_ring_fifo(buf: Seq<u8>, head: int, tail: int, c: u8)
    requires
        buf.len() == 64,
        0 <= head < 64,
        0 <= tail < 64,
        ring_next(head) != tail,
    ensures
        ring_contents(buf.update(head, c), ring_next(head), tail)[0] == (if head == tail { c } else {
            ring_contents(buf, head, tail)[0]
        }),
        ring_contents(buf.update(head, c), ring_next(head), ring_next(tail)) == (if head == tail {
            Seq::<u8>::empty()
        } else {
            ring_contents(buf, head, tail).drop_first().push(c)
        }),
{
    lemma_ring_put(buf, head, tail, c);
    let b2 = buf.update(head, c);
    lemma_ring_get(b2, ring_next(head), tail);
    if head == tail {
        assert(ring_contents(buf, head, tail).len() == 0);
    } else {
        assert(ring_contents(buf, head, tail).push(c).drop_first() =~= ring_contents(buf, head, tail).drop_first().push(c));
    }
}

/// Two bytes put into an empty ring come out in the order they went in:
/// after putting `c1` and then `c2`, the byte taken is `c1`, and the ring
/// then holds exactly `c2`, its take position one slot further on.
pub proof fn lemma_ring_put_put_get(buf: Seq<u8>, head: int, tail: int, c1: u8, c2: u8)
    requires
        buf.len() == 64,
        0 <= head < 64,
        0 <= tail < 64,
        head == tail,
    ensures
        ({
            let b1 = buf.update(head, c1);
            let h1 = ring_next(head);
            let b2 = b1.update(h1, c2);
            let h2 = ring_next(h1);
            &&& ring_contents(b2, h2, tail).len() == 2
            &&& ring_contents(b2, h2, tail)[0] == c1
            &&& b2[tail] == c1
            &&& ring_contents(b2, h2, ring_next(tail)) == seq![c2]
            &&& ring_count(h2, ring_next(tail)) == 1
        }),
{
    let b1 = buf.update(head, c1);
    let h1 = ring_next(head);
    lemma_ring_put(buf, head, tail, c1);
    assert(ring_contents(buf, head, tail) =~= Seq::<u8>::empty());
    assert(ring_next(h1) != tail);
    lemma_ring_put(b1, h1, tail, c2);
    let b2 = b1.update(h1, c2);
    let h2 = ring_next(h1);
    lemma_ring_get(b2, h2, tail);
    assert(ring_contents(b2, h2, tail) =~= seq![c1, c2]);
    assert(ring_contents(b2, h2, ring_next(tail)) =~= seq![c2]);
}

impl IoQueue {
    /// The bytes the queue holds, oldest first.
    pub open spec fn contents(&self) -> Seq<u8> {
        ring_contents(self.buf@, self.head as int, self.tail as int)
    }

    /// The positions are slots of the ring, the mutex is sound, and a
    /// recorded waiter (at most one) is a blocked task, linked nowhere, that
    /// holds the mutex.
    pub open spec fn wf(&self, s: Scheduler) -> bool {
        &&& 0 <= self.head < 64
        &&& 0 <= self.tail < 64
        &&& self.mutex.wf(s)
        &&& (self.mutex.holder is Some ==> self.mutex.lock_rpt_nr == 1)
        &&& !(self.producer is Some && self.consumer is Some)
        &&& self.producer matches Some(p) ==> waiter_ok(s, p, self.mutex)
        &&& self.consumer matches Some(c) ==> waiter_ok(s, c, self.mutex)
    }

    /// An empty queue with a new mutex.
    pub fn new(sched: &mut Scheduler) -> (q: IoQueue)
        requires
            old(sched).wf(),
            old(sched).lists.nodes.len() < usize::MAX,
        ensures
            final(sched).wf(),
            crate::semaphore::same_frame_but_nodes(*old(sched), *final(sched)),
            final(sched).lists.lists@ == old(sched).lists.lists@.insert(
                q.mutex.semaphore.waiter_head,
                Seq::<usize>::empty(),
            ),
            q.wf(*final(sched)),
            q.contents().len() == 0,
            q.producer is None,
            q.consumer is None,
            q.mutex.holder is None,
    {
        let mutex = Lock::new(sched);
        IoQueue { producer: None, consumer: None, mutex, buf: [0u8; 64], head: 0, tail: 0 }
    }
}

/// Task `t` may be the recorded waiter: it is blocked, linked nowhere, and
/// holds the queue's mutex.
pub open spec fn waiter_ok(s: Scheduler, t: usize, mutex: Lock) -> bool {
    &&& t < s.tasks.len()
    &&& s.tasks@[t as int].status == TASK_BLOCKED
    &&& !s.lists.is_member(s.tasks@[t as int].general_tag)
    &&& mutex.holder == Some(t)
}

/// A recorded waiter stays a sound waiter when the running task blocks
/// elsewhere.
proof fn lemma_waiter_kept(a: Scheduler, b: Scheduler, t: usize, m1: Lock, m2: Lock)
    requires
        a.wf(),
        a.tasks.len() > 0,
        waiter_ok(a, t, m1),
        m2.holder == m1.holder,
        blocked_frame(a, b),
    ensures
        waiter_ok(b, t, m2),
{
    assert(a.task_ok(t as int));
    assert(a.task_ok(a.current as int));
    assert(b.tasks@[t as int] == a.tasks@[t as int]);
}

/// The slot after `pos` in the ring.
pub fn next_pos(pos: i32) -> (r: i32)
    requires
        pos < i32::MAX,
    ensures
        pos + 1 >= 0 ==> r == (pos + 1) % 64,
        pos + 1 < 0 ==> r == -((-(pos + 1)) % 64),
{
    (pos + 1) % BUF_SIZE as i32
}

/// Empties the queue: no waiters, a free mutex with an empty waiter list,
/// all slots zero. Tasks that were waiting on the mutex stay blocked, linked
/// nowhere (see `sema_init`).
pub fn ioq_init(sched: &mut Scheduler, q: &mut IoQueue)
    requires
        old(sched).wf(),
        old(q).mutex.semaphore.wf(*old(sched)),
    ensures
        final(sched).wf(),
        crate::semaphore::waiters_dropped(*old(sched), *final(sched), old(q).mutex.semaphore.waiter_head),
        old(q).mutex.semaphore.waiters(*old(sched)).len() == 0 ==> crate::thread::unchanged(*old(sched), *final(sched)),
        crate::thread::heads_kept(*old(sched), *final(sched)),
        crate::thread::bystanders_kept(*old(sched), *final(sched)),
        forall|k: int|
            0 <= k < old(q).mutex.semaphore.waiters(*old(sched)).len() ==> !#[trigger] final(sched).lists.is_member(
                old(q).mutex.semaphore.waiters(*old(sched))[k],
            ),
        final(q).wf(*final(sched)),
        final(q).contents().len() == 0,
        final(q).producer is None,
        final(q).consumer is None,
        final(q).mutex.holder is None,
        final(q).mutex.lock_rpt_nr == 0,
        final(q).mutex.semaphore.value == 1,
        final(q).mutex.semaphore.waiter_head == old(q).mutex.semaphore.waiter_head,
        final(q).mutex.semaphore.waiters(*final(sched)).len() == 0,
        final(q).head == 0,
        final(q).tail == 0,
        forall|i: int| 0 <= i < 64 ==> final(q).buf@[i] == 0,
{
    q.buf = [0u8; 64];
    q.consumer = None;
    q.producer = None;
    crate::semaphore::lock_init(sched, &mut q.mutex);
    q.head = 0;
    q.tail = 0;
}

/// Whether the queue holds no byte; interrupts must be disabled.
pub fn ioq_is_empty(q: &IoQueue, eflags: u32) -> (r: bool)
    requires
        eflags & EFLAGS_IF == 0,
        0 <= q.head < 64,
        0 <= q.tail < 64,
    ensures
        r == (q.contents().len() == 0),
{
    q.head == q.tail
}

/// Whether the queue holds its maximum of 63 bytes; interrupts must be
/// disabled.
pub fn ioq_is_full(q: &IoQueue, eflags: u32) -> (r: bool)
    requires
        eflags & EFLAGS_IF == 0,
        0 <= q.head < 64,
        0 <= q.tail < 64,
    ensures
        r == (q.contents().len() == 63),
        r == (ring_next(q.head as int) == q.tail),
{
    next_pos(q.head) == q.tail
}

/// Records the running task as the queue's waiter and blocks it, switching to
/// the task at the front of the ready queue.
fn ioq_wait(sched: &mut Scheduler, waiter: &mut Option<usize>) -> (r: SwitchAction)
    requires
        old(sched).wf(),
        old(sched).tasks.len() > 0,
        old(sched).ready().len() > 0,
        *old(waiter) is None,
    ensures
        final(sched).wf(),
        heads_kept(*old(sched), *final(sched)),
        *final(waiter) == Some(old(sched).current),
        final(sched).eflags & EFLAGS_IF == 0,
        final(sched).tasks.len() == old(sched).tasks.len(),
        final(sched).tasks@[old(sched).current as int] == (crate::thread::TaskStruct {
            status: TASK_BLOCKED,
            ..old(sched).tasks@[old(sched).current as int]
        }),
        !final(sched).lists.is_member(old(sched).tasks@[old(sched).current as int].general_tag),
        crate::thread::waiter_heads_kept(*old(sched), *final(sched)),
        final(sched).ready_list == old(sched).ready_list,
        final(sched).all_list == old(sched).all_list,
{
    let ghost a = *sched;
    *waiter = Some(sched.current);
    let sw = thread_block(sched, TASK_BLOCKED);
    proof {
        crate::isr::lemma_if_cleared(a.eflags);
    }
    sw
}

/// Unblocks the queue's recorded waiter and clears the record.
fn ioq_wakeup(sched: &mut Scheduler, waiter: &mut Option<usize>)
    requires
        old(sched).wf(),
        *old(waiter) matches Some(t) && t < old(sched).tasks.len()
            && crate::thread::is_blocked_status(old(sched).tasks@[t as int].status)
            && !old(sched).lists.is_member(old(sched).tasks@[t as int].general_tag),
    ensures
        final(sched).wf(),
        heads_kept(*old(sched), *final(sched)),
        *final(waiter) is None,
        final(sched).ready().len() == old(sched).ready().len() + 1,
        final(sched).eflags == old(sched).eflags,
        final(sched).current == old(sched).current,
        final(sched).tasks@ == old(sched).tasks@.update(
            old(waiter)->0 as int,
            crate::thread::TaskStruct { status: TASK_READY, ..old(sched).tasks@[old(waiter)->0 as int] },
        ),
        crate::thread::waiter_heads_kept(*old(sched), *final(sched)),
        final(sched).ready_list == old(sched).ready_list,
        final(sched).all_list == old(sched).all_list,
{
    let t = match *waiter {
        Some(t) => t,
        None => 0,
    };
    thread_unblock(sched, t);
    *waiter = None;
}

/// The part of a get or put that runs when the running task holds the
/// queue's mutex on entry: it is resuming from a wait and releases the mutex.
/// Afterwards no waiter is recorded and the mutex is not held by the running
/// task.
fn release_if_resuming(sched: &mut Scheduler, q: &mut IoQueue)
    requires
        old(sched).wf(),
        old(sched).tasks.len() > 0,
        old(q).wf(*old(sched)),
    ensures
        final(sched).wf(),
        heads_kept(*old(sched), *final(sched)),
        final(q).wf(*final(sched)),
        final(sched).current == old(sched).current,
        final(sched).eflags == old(sched).eflags,
        final(sched).tasks.len() == old(sched).tasks.len(),
        final(sched).ready().len() >= old(sched).ready().len(),
        final(q).mutex.holder != Some(final(sched).current),
        final(q).buf == old(q).buf,
        final(q).head == old(q).head,
        final(q).tail == old(q).tail,
        old(q).mutex.holder != Some(old(sched).current) ==> *final(q) == *old(q) && *final(sched) == *old(sched),
        final(q).producer is Some ==> final(q).producer == old(q).producer,
        old(q).mutex.holder == Some(old(sched).current) ==> final(q).mutex.holder is None,
        final(sched).tasks@[old(sched).current as int] == old(sched).tasks@[old(sched).current as int],
        final(q).mutex.semaphore.waiter_head == old(q).mutex.semaphore.waiter_head,
{
    let cur = sched.current;
    let ghost a = *sched;
    let resuming = match q.mutex.holder {
        Some(h) => h == cur,
        None => false,
    };
    if resuming {
        proof {
            assert(sched.tasks@[cur as int].status != TASK_BLOCKED);
            let w = q.mutex.semaphore.waiters(a);
            if w.len() > 0 {
                assert(a.lists.loc@.dom().contains(a.lists.lists@[q.mutex.semaphore.waiter_head][0]));
                assert(a.lists.is_member(w[0]));
                assert(a.member_ok(w[0]));
                assert(a.owner@[w[0]] != cur);
            }
        }
        lock_release(sched, &mut q.mutex);
    }
}

/// Takes the oldest byte of the queue, waking a waiting producer. When the
/// queue is empty the running task waits for a producer, holding the mutex,
/// and the switch to the next ready task is returned.
///
/// A task that holds the mutex on entry is resuming from such a wait and
/// first releases it.
pub fn ioq_getchar(sched: &mut Scheduler, q: &mut IoQueue) -> (r: IoqStep)
    requires
        old(sched).wf(),
        old(sched).tasks.len() > 0,
        old(sched).eflags & EFLAGS_IF == 0,
        old(q).wf(*old(sched)),
        old(q).contents().len() == 0 ==> old(sched).ready().len() > 0,
    ensures
        final(sched).wf(),
        heads_kept(*old(sched), *final(sched)),
        final(sched).tasks.len() == old(sched).tasks.len(),
        final(q).wf(*final(sched)),
        final(sched).eflags & EFLAGS_IF == 0,
        old(q).contents().len() > 0 ==> {
            &&& r == IoqStep::Done(old(q).contents()[0])
            &&& final(sched).current == old(sched).current
            &&& final(sched).eflags == old(sched).eflags
            &&& final(sched).ready().len() >= old(sched).ready().len()
            &&& final(q).contents() == old(q).contents().drop_first()
            &&& final(q).producer is None
            &&& old(q).producer matches Some(p) ==> final(sched).tasks@[p as int].status == TASK_READY
        },
        old(q).contents().len() == 0 ==> {
            &&& r is Blocked
            &&& final(q).contents() == old(q).contents()
            &&& final(sched).current != old(sched).current
            &&& final(sched).tasks@[old(sched).current as int].status == TASK_BLOCKED
            &&& (final(q).consumer == Some(old(sched).current) || final(q).mutex.semaphore.waiters(
                *final(sched),
            ).contains(old(sched).tasks@[old(sched).current as int].general_tag))
        },
{
    release_if_resuming(sched, q);
    let cur = sched.current;
    if ioq_is_empty(q, sched.eflags) {
        let ghost a0 = *sched;
        let ghost q0 = *q;
        let got = lock_acquire(sched, &mut q.mutex);
        match got {
            Some(sw) => {
                proof {
                    crate::isr::lemma_if_cleared(a0.eflags);
                    if let Some(w) = q0.producer {
                        lemma_waiter_kept(a0, *sched, w, q0.mutex, q.mutex);
                    }
                    if let Some(w) = q0.consumer {
                        lemma_waiter_kept(a0, *sched, w, q0.mutex, q.mutex);
                    }
                }
                return IoqStep::Blocked(sw);
            },
            None => {},
        }
        let sw = ioq_wait(sched, &mut q.consumer);
        proof {
            assert(q.mutex.semaphore.wf(*sched));
        }
        return IoqStep::Blocked(sw);
    }
    let tail = q.tail;
    let c = q.buf[tail as usize];
    q.tail = next_pos(tail);
    proof {
        lemma_ring_get(old(q).buf@, q.head as int, tail as int);
    }
    if q.producer.is_some() {
        ioq_wakeup(sched, &mut q.producer);
    }
    proof {
        assert(q.mutex.semaphore.wf(*sched));
    }
    IoqStep::Done(c)
}

/// Puts `c` at the back of the queue, waking a waiting consumer. When the
/// queue is full the running task waits for a consumer, holding the mutex,
/// and the switch to the next ready task is returned.
///
/// A task that holds the mutex on entry is resuming from such a wait and
/// first releases it.
pub fn ioq_putchar(sched: &mut Scheduler, q: &mut IoQueue, c: u8) -> (r: IoqStep)
    requires
        old(sched).wf(),
        old(sched).tasks.len() > 0,
        old(sched).eflags & EFLAGS_IF == 0,
        old(q).wf(*old(sched)),
        old(q).contents().len() == 63 ==> old(sched).ready().len() > 0,
    ensures
        final(sched).wf(),
        heads_kept(*old(sched), *final(sched)),
        final(sched).tasks.len() == old(sched).tasks.len(),
        final(q).wf(*final(sched)),
        final(sched).eflags & EFLAGS_IF == 0,
        old(q).contents().len() < 63 ==> {
            &&& r == IoqStep::Done(c)
            &&& final(sched).current == old(sched).current
            &&& final(q).contents() == old(q).contents().push(c)
            &&& final(q).consumer is None
            &&& old(q).consumer matches Some(k) ==> final(sched).tasks@[k as int].status == TASK_READY
        },
        old(q).contents().len() == 63 ==> {
            &&& r is Blocked
            &&& final(q).contents() == old(q).contents()
            &&& final(sched).current != old(sched).current
            &&& final(sched).tasks@[old(sched).current as int].status == TASK_BLOCKED
            &&& (final(q).producer == Some(old(sched).current) || final(q).mutex.semaphore.waiters(
                *final(sched),
            ).contains(old(sched).tasks@[old(sched).current as int].general_tag))
        },
{
    release_if_resuming(sched, q);
    let cur = sched.current;
    if ioq_is_full(q, sched.eflags) {
        let ghost a0 = *sched;
        let ghost q0 = *q;
        let got = lock_acquire(sched, &mut q.mutex);
        match got {
            Some(sw) => {
                proof {
                    crate::isr::lemma_if_cleared(a0.eflags);
                    if let Some(w) = q0.producer {
                        lemma_waiter_kept(a0, *sched, w, q0.mutex, q.mutex);
                    }
                    if let Some(w) = q0.consumer {
                        lemma_waiter_kept(a0, *sched, w, q0.mutex, q.mutex);
                    }
                }
                return IoqStep::Blocked(sw);
            },
            None => {},
        }
        let sw = ioq_wait(sched, &mut q.producer);
        proof {
            assert(q.mutex.semaphore.wf(*sched));
        }
        return IoqStep::Blocked(sw);
    }
    put_and_wake(sched, q, c);
    IoqStep::Done(c)
}

/// Puts `c` at the back of a queue that is not full and wakes the waiting
/// consumer, if any.
pub fn put_and_wake(sched: &mut Scheduler, q: &mut IoQueue, c: u8)
    requires
        old(sched).wf(),
        old(sched).tasks.len() > 0,
        old(q).wf(*old(sched)),
        old(q).contents().len() < 63,
    ensures
        final(sched).wf(),
        heads_kept(*old(sched), *final(sched)),
        final(sched).tasks.len() == old(sched).tasks.len(),
        final(q).wf(*final(sched)),
        final(sched).eflags == old(sched).eflags,
        final(sched).current == old(sched).current,
        final(q).contents() == old(q).contents().push(c),
        final(q).consumer is None,
        final(q).producer == old(q).producer,
        final(q).mutex == old(q).mutex,
        old(q).consumer matches Some(k) ==> final(sched).tasks@[k as int].status == TASK_READY,
        old(q).consumer is None ==> *final(sched) == *old(sched),
{
    let head = q.head;
    proof {
        lemma_ring_put(q.buf@, head as int, q.tail as int, c);
    }
    q.buf[head as usize] = c;
    q.head = next_pos(head);
    if q.consumer.is_some() {
        ioq_wakeup(sched, &mut q.consumer);
    }
    proof {
        assert(q.mutex.semaphore.wf(*sched));
    }
}

} // verus!
