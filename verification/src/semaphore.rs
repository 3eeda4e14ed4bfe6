//! Binary semaphores and reentrant locks built on them.
//!
//! A semaphore's waiters are linked, by their `general_tag`, into a list in
//! the scheduler's arena. A task that finds the semaphore taken is queued
//! there and blocked; `sema_post` wakes the first waiter, which then tries
//! again. In this model a blocking call returns the switch it made; the
//! blocked task repeats the call once it runs again, as the loop in the
//! kernel's `sema_wait` does.
use crate::isr::{intr_disable_c, lemma_disable_restore, set_intr_status, EFLAGS_IF};
use crate::list::{list_alloc, list_init, list_is_empty, list_pop};
use crate::thread::{
    block_current_on, bystanders_kept, is_blocked_status, heads_kept, lemma_wf_same_queues, same_frame_of, same_queues, switch_post, thread_unblock,
    unchanged, Scheduler, SwitchAction, TaskStruct, TASK_BLOCKED, TASK_READY,
};
use vstd::prelude::*;

verus! {

/// A semaphore: its value and the head of its waiter list.
pub struct Semaphore {
    pub value: u8,
    pub waiter_head: usize,
}

/// A reentrant lock: the task holding it, the semaphore it is built on, and
/// how many times the holder has acquired it.
pub struct Lock {
    pub holder: Option<usize>,
    pub semaphore: Semaphore,
    pub lock_rpt_nr: u32,
}

impl Semaphore {
    /// The waiter list is a list of the scheduler's arena other than the
    /// ready queue, the list of all tasks and the lists headed by general tags.
    pub open spec fn wf(&self, s: Scheduler) -> bool {
        &&& s.lists.is_head(self.waiter_head)
        &&& self.waiter_head != s.ready_list
        &&& self.waiter_head != s.all_list
        &&& !s.owner@.dom().contains(self.waiter_head)
    }

    /// The general tags of the waiting tasks, in arrival order.
    pub open spec fn waiters(&self, s: Scheduler) -> Seq<usize> {
        s.lists.members(self.waiter_head)
    }

    /// A semaphore with value `value` and a new, empty waiter list.
    pub fn new(sched: &mut Scheduler, value: u8) -> (r: Semaphore)
        requires
            old(sched).wf(),
            old(sched).lists.nodes.len() < usize::MAX,
        ensures
            final(sched).wf(),
            same_frame_but_nodes(*old(sched), *final(sched)),
            final(sched).lists.lists@ == old(sched).lists.lists@.insert(r.waiter_head, Seq::<usize>::empty()),
            r.wf(*final(sched)),
            r.value == value,
            r.waiters(*final(sched)).len() == 0,
    {
        let ghost a = *sched;
        let h = list_alloc(&mut sched.lists);
        proof {
            lemma_fresh_node_kept(a, *sched, h);
        }
        Semaphore { value, waiter_head: h }
    }
}

/// After the running task of `a` has blocked on a waiter list: a node linked
/// in `b` was linked in `a` or is that task's general tag; the new running
/// task is another one; and every task other than the two that was not ready
/// is as it was.
pub open spec fn blocked_frame(a: Scheduler, b: Scheduler) -> bool {
    &&& b.current != a.current
    &&& b.tasks.len() == a.tasks.len()
    &&& forall|x: usize| #[trigger]
        b.lists.is_member(x) ==> a.lists.is_member(x) || x == a.tasks@[a.current as int].general_tag
    &&& forall|j: int|
        0 <= j < a.tasks.len() && j != a.current && a.tasks@[j].status != TASK_READY ==> #[trigger] b.tasks@[j]
            == a.tasks@[j]
}

/// `b` differs from `a` by one new node in the arena.
pub open spec fn same_frame_but_nodes(a: Scheduler, b: Scheduler) -> bool {
    &&& b.lists.nodes.len() == a.lists.nodes.len() + 1
    &&& b.tasks@ == a.tasks@
    &&& b.ready_list == a.ready_list
    &&& b.all_list == a.all_list
    &&& b.current == a.current
    &&& b.eflags == a.eflags
    &&& b.tss == a.tss
    &&& b.owner@ == a.owner@
    &&& b.lists.loc@ == a.lists.loc@
}

proof fn lemma_fresh_node_kept(a: Scheduler, b: Scheduler, h: usize)
    requires
        a.wf(),
        b.lists.wf(),
        h == a.lists.nodes.len(),
        b.lists.nodes.len() == a.lists.nodes.len() + 1,
        b.lists.lists@ == a.lists.lists@.insert(h, Seq::<usize>::empty()),
        b.lists.loc@ == a.lists.loc@,
        b.tasks@ == a.tasks@,
        b.ready_list == a.ready_list,
        b.all_list == a.all_list,
        b.current == a.current,
        b.owner@ == a.owner@,
    ensures
        b.wf(),
        h != b.ready_list,
        h != b.all_list,
        !b.owner@.dom().contains(h),
{
    assert(a.lists.lists@.dom().contains(a.ready_list));
    assert(a.lists.lists@.dom().contains(a.all_list));
    assert forall|i: int| 0 <= i < b.tasks.len() implies #[trigger] b.task_ok(i) by {
        assert(a.task_ok(i));
    }
    assert forall|m: usize| #[trigger] b.lists.is_member(m) implies b.member_ok(m) by {
        assert(a.lists.is_member(m));
        assert(a.member_ok(m));
    }
    if b.owner@.dom().contains(h) {
        assert(a.task_ok(a.owner@[h]));
    }
    if a.tasks.len() > 0 {
        assert(a.task_ok(a.current as int));
    }
}

/// The scheduler after the waiter list headed by `head` was emptied: the
/// tasks and every other list are as in `a`, and the former waiters are
/// linked nowhere (they stay blocked).
pub open spec fn waiters_dropped(a: Scheduler, b: Scheduler, head: usize) -> bool {
    &&& b.tasks@ == a.tasks@
    &&& b.current == a.current
    &&& b.eflags == a.eflags
    &&& b.tss == a.tss
    &&& b.ready_list == a.ready_list
    &&& b.all_list == a.all_list
    &&& b.owner@ == a.owner@
    &&& b.lists.lists@ == a.lists.lists@.insert(head, Seq::<usize>::empty())
    &&& b.lists.loc@ == crate::list::loc_without(a.lists.loc@, head)
}

/// Resets the semaphore to value `value` with an empty waiter list. Tasks
/// that were waiting on it are dropped from the list and stay blocked,
/// linked nowhere.
pub fn sema_init(sched: &mut Scheduler, sema: &mut Semaphore, value: u8)
    requires
        old(sched).wf(),
        old(sema).wf(*old(sched)),
    ensures
        final(sched).wf(),
        waiters_dropped(*old(sched), *final(sched), old(sema).waiter_head),
        old(sema).waiters(*old(sched)).len() == 0 ==> unchanged(*old(sched), *final(sched)),
        heads_kept(*old(sched), *final(sched)),
        bystanders_kept(*old(sched), *final(sched)),
        forall|k: int|
            0 <= k < old(sema).waiters(*old(sched)).len() ==> !#[trigger] final(sched).lists.is_member(
                old(sema).waiters(*old(sched))[k],
            ),
        final(sema).value == value,
        final(sema).waiter_head == old(sema).waiter_head,
        final(sema).wf(*final(sched)),
        final(sema).waiters(*final(sched)).len() == 0,
{
    let ghost a = *sched;
    sema.value = value;
    let h = sema.waiter_head;
    proof {
        assert(a.lists.lists@.dom().contains(h));
    }
    list_init(&mut sched.lists, h);
    proof {
        let b = *sched;
        assert forall|i: int| 0 <= i < b.tasks.len() implies #[trigger] b.task_ok(i) by {
            assert(a.task_ok(i));
            let t = a.tasks@[i];
            if t.status == TASK_READY {
                assert(a.lists.loc@[t.general_tag].0 == a.ready_list);
            }
            if b.lists.is_head(t.general_tag) {
                assert(t.general_tag != h);
            }
        }
        assert forall|m: usize| #[trigger] b.lists.is_member(m) implies b.member_ok(m) by {
            assert(a.lists.is_member(m));
            assert(a.member_ok(m));
        }
        assert(b.lists.members(b.all_list) == a.lists.members(a.all_list));
        assert(b.queues_ok());
        if a.tasks.len() > 0 {
            assert(a.task_ok(a.current as int));
        }
        assert forall|k: int|
            0 <= k < a.lists.members(h).len() implies !#[trigger] b.lists.is_member(a.lists.members(h)[k]) by {
            assert(a.lists.loc@[a.lists.lists@[h][k]] == (h, k));
        }
        assert forall|j: int|
            0 <= j < a.tasks.len() && is_blocked_status(a.tasks@[j].status) && !a.lists.is_member(
                a.tasks@[j].general_tag,
            ) implies #[trigger] b.tasks@[j] == a.tasks@[j] && !b.lists.is_member(a.tasks@[j].general_tag) by {}
        if a.lists.members(h).len() == 0 {
            assert(a.lists.is_free(h));
            assert(a.lists.lists@[h] =~= Seq::<usize>::empty());
            assert(b.lists.lists@ =~= a.lists.lists@);
            assert(a.lists.nodes@[h as int] == (crate::list::ListHead { next: h, prev: h }));
            assert(b.lists.nodes@ =~= a.lists.nodes@);
        }
    }
}

/// Takes the semaphore. With the value at 1 it drops to 0 and the caller
/// goes on; with the value at 0 the running task is queued on the semaphore,
/// blocked, and the task at the front of the ready queue runs: the switch is
/// returned, and the blocked task repeats the call when it runs again.
pub fn sema_wait(sched: &mut Scheduler, sema: &mut Semaphore) -> (r: Option<SwitchAction>)
    requires
        old(sched).wf(),
        old(sched).tasks.len() > 0,
        old(sema).wf(*old(sched)),
        old(sema).value <= 1,
        old(sema).value == 0 ==> old(sched).ready().len() > 0,
    ensures
        final(sched).wf(),
        heads_kept(*old(sched), *final(sched)),
        bystanders_kept(*old(sched), *final(sched)),
        final(sema).wf(*final(sched)),
        final(sema).waiter_head == old(sema).waiter_head,
        final(sema).value == 0,
        old(sema).value == 1 ==> r is None && *final(sched) == *old(sched),
        old(sema).value == 0 ==> {
            &&& r is Some
            &&& r->0.resume_intr == old(sched).eflags & EFLAGS_IF
            &&& same_frame_of(*old(sched), *final(sched))
            &&& final(sched).eflags == old(sched).eflags & !EFLAGS_IF
            &&& switch_post(
                old(sched).tasks@.update(
                    old(sched).current as int,
                    TaskStruct { status: TASK_BLOCKED, ..old(sched).tasks@[old(sched).current as int] },
                ),
                *old(sched),
                *final(sched),
                r->0,
            )
            &&& final(sema).waiters(*final(sched)) == old(sema).waiters(*old(sched)).push(
                old(sched).tasks@[old(sched).current as int].general_tag,
            )
            &&& blocked_frame(*old(sched), *final(sched))
        },
{
    let ghost a = *sched;
    let old_status = intr_disable_c(&mut sched.eflags);
    proof {
        lemma_wf_same_queues(a, *sched);
    }
    if sema.value == 0 {
        let r = block_current_on(sched, sema.waiter_head, old_status);
        proof {
            crate::isr::lemma_if_cleared(a.eflags);
            assert(!sched.owner@.dom().contains(sema.waiter_head));
        }
        return Some(r);
    }
    sema.value = sema.value - 1;
    proof {
        lemma_disable_restore(a.eflags);
    }
    set_intr_status(&mut sched.eflags, old_status);
    proof {
        assert(sched.eflags == a.eflags);
        assert(*sched == a);
    }
    None
}

/// Releases the semaphore, whose value must be 0: the first waiting task, if
/// any, is unblocked and put at the front of the ready queue, and the value
/// becomes 1.
pub fn sema_post(sched: &mut Scheduler, sema: &mut Semaphore)
    requires
        old(sched).wf(),
        old(sema).wf(*old(sched)),
        old(sema).value == 0,
    ensures
        final(sched).wf(),
        heads_kept(*old(sched), *final(sched)),
        bystanders_kept(*old(sched), *final(sched)),
        final(sema).wf(*final(sched)),
        final(sema).waiter_head == old(sema).waiter_head,
        final(sema).value == 1,
        final(sched).eflags == old(sched).eflags,
        final(sched).current == old(sched).current,
        old(sema).waiters(*old(sched)).len() == 0 ==> *final(sched) == *old(sched),
        old(sema).waiters(*old(sched)).len() > 0 ==> {
            let w = old(sema).waiters(*old(sched));
            let i = old(sched).owner@[w[0]];
            &&& same_frame_of(*old(sched), *final(sched))
            &&& final(sched).tasks@ == old(sched).tasks@.update(
                i,
                TaskStruct { status: TASK_READY, ..old(sched).tasks@[i] },
            )
            &&& final(sched).ready() == seq![w[0]] + old(sched).ready()
            &&& final(sema).waiters(*final(sched)) == w.drop_first()
        },
{
    let ghost a = *sched;
    let old_status = intr_disable_c(&mut sched.eflags);
    proof {
        lemma_wf_same_queues(a, *sched);
    }
    let head = sema.waiter_head;
    if !list_is_empty(&sched.lists, head) {
        let popped = list_pop(&mut sched.lists, head);
        let m = match popped {
            Some(m) => m,
            None => {
                proof {
                    assert(false);
                }
                0
            },
        };
        proof {
            assert(a.lists.loc@.dom().contains(a.lists.lists@[head][0]));
            assert(a.lists.is_member(m));
            assert(a.member_ok(m));
            let b = *sched;
            assert forall|k: int| 0 <= k < b.tasks.len() implies #[trigger] b.task_ok(k) by {
                assert(a.task_ok(k));
                assert(a.tasks@[k].general_tag != head);
                if a.tasks@[k].status == TASK_READY {
                    assert(a.lists.loc@.dom().contains(a.tasks@[k].general_tag));
                }
            }
            assert forall|x: usize| #[trigger] b.lists.is_member(x) implies b.member_ok(x) by {
                assert(a.lists.is_member(x));
                assert(a.member_ok(x));
            }
            assert(b.owner_ok());
            assert(b.lists.members(b.all_list) =~= a.lists.members(a.all_list));
            assert(b.lists.members(b.all_list) =~= Seq::new(
                b.tasks.len() as nat,
                |k: int| b.tasks@[k].all_list_tag,
            ));
            if a.tasks.len() > 0 {
                assert(a.task_ok(a.current as int));
            }
        }
        let t = sched.task_from_general_tag(m);
        proof {
            assert(sched.tasks@[t as int].general_tag == m);
        }
        let ghost b = *sched;
        thread_unblock(sched, t);
        proof {
            assert(b.lists.members(head) =~= a.lists.members(head).drop_first());
            assert(b.lists.lists@.dom().contains(head));
            assert(sched.lists.lists@.dom().contains(head));
            assert forall|j: int|
                0 <= j < a.tasks.len() && crate::thread::is_blocked_status(a.tasks@[j].status)
                    && !a.lists.is_member(a.tasks@[j].general_tag) implies #[trigger] sched.tasks@[j]
                == a.tasks@[j] && !sched.lists.is_member(a.tasks@[j].general_tag) by {
                assert(a.task_ok(j));
            }
        }
    }
    sema.value = sema.value + 1;
    proof {
        lemma_disable_restore(a.eflags);
    }
    let ghost c = *sched;
    set_intr_status(&mut sched.eflags, old_status);
    proof {
        assert(sched.eflags == a.eflags);
        lemma_wf_same_queues(c, *sched);
        if a.lists.members(head).len() == 0 {
            assert(*sched == a);
        }
    }
}

impl Lock {
    /// The lock is free with its semaphore at 1, or held by a task at least
    /// once with its semaphore at 0.
    pub open spec fn wf(&self, s: Scheduler) -> bool {
        &&& self.semaphore.wf(s)
        &&& match self.holder {
            None => self.lock_rpt_nr == 0 && self.semaphore.value == 1,
            Some(_) => self.lock_rpt_nr >= 1 && self.semaphore.value == 0,
        }
    }

    /// A free lock with a new, empty waiter list.
    pub fn new(sched: &mut Scheduler) -> (r: Lock)
        requires
            old(sched).wf(),
            old(sched).lists.nodes.len() < usize::MAX,
        ensures
            final(sched).wf(),
            same_frame_but_nodes(*old(sched), *final(sched)),
            final(sched).lists.lists@ == old(sched).lists.lists@.insert(
                r.semaphore.waiter_head,
                Seq::<usize>::empty(),
            ),
            r.wf(*final(sched)),
            r.holder is None,
            r.semaphore.waiters(*final(sched)).len() == 0,
    {
        let semaphore = Semaphore::new(sched, 1);
        Lock { holder: None, semaphore, lock_rpt_nr: 0 }
    }
}

/// Makes the lock free, with an empty waiter list (see `sema_init`).
pub fn lock_init(sched: &mut Scheduler, plock: &mut Lock)
    requires
        old(sched).wf(),
        old(plock).semaphore.wf(*old(sched)),
    ensures
        waiters_dropped(*old(sched), *final(sched), old(plock).semaphore.waiter_head),
        old(plock).semaphore.waiters(*old(sched)).len() == 0 ==> unchanged(*old(sched), *final(sched)),
        heads_kept(*old(sched), *final(sched)),
        bystanders_kept(*old(sched), *final(sched)),
        forall|k: int|
            0 <= k < old(plock).semaphore.waiters(*old(sched)).len() ==> !#[trigger] final(sched).lists.is_member(
                old(plock).semaphore.waiters(*old(sched))[k],
            ),
        final(sched).wf(),
        final(plock).wf(*final(sched)),
        final(plock).holder is None,
        final(plock).lock_rpt_nr == 0,
        final(plock).semaphore.value == 1,
        final(plock).semaphore.waiter_head == old(plock).semaphore.waiter_head,
        final(plock).semaphore.waiters(*final(sched)).len() == 0,
{
    let ghost a = *sched;
    plock.holder = None;
    plock.lock_rpt_nr = 0;
    sema_init(sched, &mut plock.semaphore, 1);
}

/// Acquires the lock for the running task. The holder acquires it again by
/// counting; a free lock is taken; a lock held by another task blocks the
/// running task on it, and the switch is returned (the task repeats the call
/// when it runs again).
pub fn lock_acquire(sched: &mut Scheduler, plock: &mut Lock) -> (r: Option<SwitchAction>)
    requires
        old(sched).wf(),
        old(sched).tasks.len() > 0,
        old(plock).wf(*old(sched)),
        old(plock).holder == Some(old(sched).current) ==> old(plock).lock_rpt_nr < u32::MAX,
        old(plock).holder matches Some(h) && h != old(sched).current ==> old(sched).ready().len() > 0,
    ensures
        final(sched).wf(),
        heads_kept(*old(sched), *final(sched)),
        bystanders_kept(*old(sched), *final(sched)),
        final(plock).wf(*final(sched)),
        final(plock).semaphore.waiter_head == old(plock).semaphore.waiter_head,
        old(plock).holder == Some(old(sched).current) ==> {
            &&& r is None
            &&& *final(sched) == *old(sched)
            &&& final(plock).holder == old(plock).holder
            &&& final(plock).lock_rpt_nr == old(plock).lock_rpt_nr + 1
        },
        old(plock).holder is None ==> {
            &&& r is None
            &&& *final(sched) == *old(sched)
            &&& final(plock).holder == Some(old(sched).current)
            &&& final(plock).lock_rpt_nr == 1
        },
        old(plock).holder matches Some(h) && h != old(sched).current ==> {
            &&& r is Some
            &&& r->0.resume_intr == old(sched).eflags & EFLAGS_IF
            &&& final(plock).holder == old(plock).holder
            &&& final(plock).lock_rpt_nr == old(plock).lock_rpt_nr
            &&& final(sched).eflags == old(sched).eflags & !EFLAGS_IF
            &&& switch_post(
                old(sched).tasks@.update(
                    old(sched).current as int,
                    TaskStruct { status: TASK_BLOCKED, ..old(sched).tasks@[old(sched).current as int] },
                ),
                *old(sched),
                *final(sched),
                r->0,
            )
            &&& final(plock).semaphore.waiters(*final(sched)) == old(plock).semaphore.waiters(
                *old(sched),
            ).push(old(sched).tasks@[old(sched).current as int].general_tag)
            &&& blocked_frame(*old(sched), *final(sched))
        },
{
    let cur = sched.current;
    let held_by_me = match plock.holder {
        Some(h) => h == cur,
        None => false,
    };
    if !held_by_me {
        let w = sema_wait(sched, &mut plock.semaphore);
        if w.is_some() {
            return w;
        }
        plock.holder = Some(cur);
        plock.lock_rpt_nr = 1;
    } else {
        plock.lock_rpt_nr = plock.lock_rpt_nr + 1;
    }
    None
}

/// Releases the lock, which the running task must hold: one release per
/// acquisition, and the last one frees the lock and posts its semaphore,
/// waking the first waiter.
pub fn lock_release(sched: &mut Scheduler, plock: &mut Lock)
    requires
        old(sched).wf(),
        old(sched).tasks.len() > 0,
        old(plock).wf(*old(sched)),
        old(plock).holder == Some(old(sched).current),
    ensures
        final(sched).wf(),
        heads_kept(*old(sched), *final(sched)),
        bystanders_kept(*old(sched), *final(sched)),
        final(plock).wf(*final(sched)),
        final(plock).semaphore.waiter_head == old(plock).semaphore.waiter_head,
        final(sched).eflags == old(sched).eflags,
        final(sched).current == old(sched).current,
        old(plock).lock_rpt_nr > 1 ==> {
            &&& *final(sched) == *old(sched)
            &&& final(plock).holder == old(plock).holder
            &&& final(plock).lock_rpt_nr == old(plock).lock_rpt_nr - 1
        },
        old(plock).lock_rpt_nr == 1 ==> {
            let w = old(plock).semaphore.waiters(*old(sched));
            &&& final(plock).holder is None
            &&& final(plock).lock_rpt_nr == 0
            &&& w.len() == 0 ==> *final(sched) == *old(sched)
            &&& w.len() > 0 ==> {
                let i = old(sched).owner@[w[0]];
                &&& same_frame_of(*old(sched), *final(sched))
                &&& final(sched).tasks@ == old(sched).tasks@.update(
                    i,
                    TaskStruct { status: TASK_READY, ..old(sched).tasks@[i] },
                )
                &&& final(sched).ready() == seq![w[0]] + old(sched).ready()
                &&& final(plock).semaphore.waiters(*final(sched)) == w.drop_first()
            }
        },
{
    if plock.lock_rpt_nr > 1 {
        plock.lock_rpt_nr = plock.lock_rpt_nr - 1;
        return;
    }
    plock.holder = None;
    plock.lock_rpt_nr = 0;
    sema_post(sched, &mut plock.semaphore);
}

} // verus!
