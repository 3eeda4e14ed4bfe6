//! The console: the text screen shared by all tasks, printed to under a
//! lock so that the output of one call is never interleaved with another's.
//!
//! When the lock is held by another task the caller blocks on it; the switch
//! is returned, nothing is printed, and the task repeats the call when it
//! runs again.
use crate::isr::EFLAGS_IF;
use crate::semaphore::{lock_acquire, lock_init, lock_release, Lock};
use crate::thread::{bystanders_kept, heads_kept, unchanged, Scheduler, SwitchAction, TASK_BLOCKED};
use crate::vga::{
    c_string, chars_step, hex_digits, put_char, put_int_hex, put_str, screen_ok, Screen,
};
use vstd::prelude::*;

verus! {

/// The console lock may be taken by the running task without an overflow of
/// its count, and, when another task holds it, some task is ready to run
/// instead.
pub open spec fn console_callable(sched: Scheduler, lock: Lock) -> bool {
    &&& sched.wf()
    &&& sched.tasks.len() > 0
    &&& lock.wf(sched)
    &&& (lock.holder == Some(sched.current) ==> lock.lock_rpt_nr < u32::MAX)
    &&& (lock.holder matches Some(h) && h != sched.current ==> sched.ready().len() > 0)
}

/// Whether the console lock is free or already held by the running task, so
/// that printing does not block.
pub open spec fn console_available(sched: Scheduler, lock: Lock) -> bool {
    match lock.holder {
        None => true,
        Some(h) => h == sched.current,
    }
}

/// The running task of `s0` has blocked on the lock: another task runs, and
/// the blocked task is last in the lock's waiter list.
pub open spec fn console_blocked(s0: Scheduler, l0: Lock, s1: Scheduler, l1: Lock) -> bool {
    &&& s1.wf()
    &&& l1.wf(s1)
    &&& l1.holder == l0.holder
    &&& s1.current != s0.current
    &&& s1.tasks@[s0.current as int].status == TASK_BLOCKED
    &&& l1.semaphore.waiters(s1) == l0.semaphore.waiters(s0).push(s0.tasks@[s0.current as int].general_tag)
    &&& bystanders_kept(s0, s1)
    &&& heads_kept(s0, s1)
}

/// After a print: the lock is held as before the call, and when the call
/// took it, releasing it may have woken its first waiter.
pub open spec fn console_after(s0: Scheduler, l0: Lock, s1: Scheduler, l1: Lock) -> bool {
    &&& s1.wf()
    &&& l1.wf(s1)
    &&& l1.holder == l0.holder
    &&& l1.lock_rpt_nr == l0.lock_rpt_nr
    &&& l1.semaphore.waiter_head == l0.semaphore.waiter_head
    &&& s1.current == s0.current
    &&& s1.eflags == s0.eflags
    &&& (l0.holder is Some ==> unchanged(s0, s1))
    &&& bystanders_kept(s0, s1)
    &&& heads_kept(s0, s1)
}

/// Makes the console lock free, with an empty waiter list (see `lock_init`).
pub fn console_init(sched: &mut Scheduler, lock: &mut Lock)
    requires
        old(sched).wf(),
        old(lock).semaphore.wf(*old(sched)),
    ensures
        final(sched).wf(),
        crate::semaphore::waiters_dropped(*old(sched), *final(sched), old(lock).semaphore.waiter_head),
        old(lock).semaphore.waiters(*old(sched)).len() == 0 ==> unchanged(*old(sched), *final(sched)),
        crate::thread::heads_kept(*old(sched), *final(sched)),
        crate::thread::bystanders_kept(*old(sched), *final(sched)),
        forall|k: int|
            0 <= k < old(lock).semaphore.waiters(*old(sched)).len() ==> !#[trigger] final(sched).lists.is_member(
                old(lock).semaphore.waiters(*old(sched))[k],
            ),
        final(lock).wf(*final(sched)),
        final(lock).holder is None,
        final(lock).lock_rpt_nr == 0,
        final(lock).semaphore.value == 1,
        final(lock).semaphore.waiter_head == old(lock).semaphore.waiter_head,
        final(lock).semaphore.waiters(*final(sched)).len() == 0,
{
    lock_init(sched, lock);
}

/// Takes the console lock for the running task (see `lock_acquire`).
pub fn console_acquire(sched: &mut Scheduler, lock: &mut Lock) -> (r: Option<SwitchAction>)
    requires
        console_callable(*old(sched), *old(lock)),
    ensures
        final(sched).wf(),
        final(lock).wf(*final(sched)),
        heads_kept(*old(sched), *final(sched)),
        bystanders_kept(*old(sched), *final(sched)),
        final(lock).semaphore.waiter_head == old(lock).semaphore.waiter_head,
        final(lock).holder == Some(old(sched).current) ==> final(lock).lock_rpt_nr == (if old(lock).holder
            is None {
            1
        } else {
            old(lock).lock_rpt_nr + 1
        }),
        console_available(*old(sched), *old(lock)) ==> r is None && *final(sched) == *old(sched)
            && final(lock).holder == Some(old(sched).current),
        !console_available(*old(sched), *old(lock)) ==> r is Some && r->0.resume_intr == old(sched).eflags
            & EFLAGS_IF && r->0.from == old(sched).current && console_blocked(
            *old(sched),
            *old(lock),
            *final(sched),
            *final(lock),
        ),
{
    let r = lock_acquire(sched, lock);
    proof {
        if !console_available(*old(sched), *old(lock)) {
            let c = old(sched).current as int;
            assert(sched.current != old(sched).current);
            assert(sched.tasks@[c].status == TASK_BLOCKED);
        }
    }
    r
}

/// Releases the console lock, which the running task holds (see
/// `lock_release`).
pub fn console_release(sched: &mut Scheduler, lock: &mut Lock)
    requires
        old(sched).wf(),
        old(sched).tasks.len() > 0,
        old(lock).wf(*old(sched)),
        old(lock).holder == Some(old(sched).current),
    ensures
        final(sched).wf(),
        final(lock).wf(*final(sched)),
        heads_kept(*old(sched), *final(sched)),
        bystanders_kept(*old(sched), *final(sched)),
        final(lock).semaphore.waiter_head == old(lock).semaphore.waiter_head,
        final(sched).current == old(sched).current,
        final(sched).eflags == old(sched).eflags,
        old(lock).lock_rpt_nr > 1 ==> final(lock).lock_rpt_nr == old(lock).lock_rpt_nr - 1,
        old(lock).lock_rpt_nr > 1 ==> final(lock).holder == old(lock).holder && *final(sched) == *old(
            sched,
        ),
        old(lock).lock_rpt_nr == 1 ==> final(lock).holder is None,
{
    lock_release(sched, lock);
}

/// Prints the NUL-terminated string held by `s` under the console lock.
pub fn console_put_str(sched: &mut Scheduler, lock: &mut Lock, screen: &mut Screen, s: &[u8]) -> (r: Option<SwitchAction>)
    requires
        console_callable(*old(sched), *old(lock)),
        screen_ok(old(screen)@),
    ensures
        screen_ok(final(screen)@),
        final(sched).wf(),
        final(lock).wf(*final(sched)),
        console_available(*old(sched), *old(lock)) ==> {
            &&& r is None
            &&& final(screen)@ == chars_step(old(screen)@, c_string(s@))
            &&& console_after(*old(sched), *old(lock), *final(sched), *final(lock))
        },
        !console_available(*old(sched), *old(lock)) ==> r is Some && r->0.resume_intr == old(sched).eflags
            & EFLAGS_IF && r->0.from == old(sched).current && final(screen)@ == old(screen)@
            && console_blocked(*old(sched), *old(lock), *final(sched), *final(lock)),
{
    let ghost s0 = *sched;
    let ghost l0 = *lock;
    let w = console_acquire(sched, lock);
    if w.is_some() {
        return w;
    }
    put_str(screen, s);
    console_release(sched, lock);
    proof {
        lemma_console_after(s0, l0, *sched, *lock);
    }
    None
}

/// Prints the character `c` under the console lock.
pub fn console_put_char(sched: &mut Scheduler, lock: &mut Lock, screen: &mut Screen, c: u8) -> (r: Option<SwitchAction>)
    requires
        console_callable(*old(sched), *old(lock)),
        screen_ok(old(screen)@),
    ensures
        screen_ok(final(screen)@),
        final(sched).wf(),
        final(lock).wf(*final(sched)),
        console_available(*old(sched), *old(lock)) ==> {
            &&& r is None
            &&& final(screen)@ == crate::vga::char_step(old(screen)@, c)
            &&& console_after(*old(sched), *old(lock), *final(sched), *final(lock))
        },
        !console_available(*old(sched), *old(lock)) ==> r is Some && r->0.resume_intr == old(sched).eflags
            & EFLAGS_IF && r->0.from == old(sched).current && final(screen)@ == old(screen)@
            && console_blocked(*old(sched), *old(lock), *final(sched), *final(lock)),
{
    let ghost s0 = *sched;
    let ghost l0 = *lock;
    let w = console_acquire(sched, lock);
    if w.is_some() {
        return w;
    }
    put_char(screen, c);
    console_release(sched, lock);
    proof {
        lemma_console_after(s0, l0, *sched, *lock);
    }
    None
}

/// Prints `num` in hexadecimal under the console lock.
pub fn console_put_int(sched: &mut Scheduler, lock: &mut Lock, screen: &mut Screen, num: u32) -> (r: Option<SwitchAction>)
    requires
        console_callable(*old(sched), *old(lock)),
        screen_ok(old(screen)@),
    ensures
        screen_ok(final(screen)@),
        final(sched).wf(),
        final(lock).wf(*final(sched)),
        console_available(*old(sched), *old(lock)) ==> {
            &&& r is None
            &&& final(screen)@ == chars_step(old(screen)@, hex_digits(num as nat))
            &&& console_after(*old(sched), *old(lock), *final(sched), *final(lock))
        },
        !console_available(*old(sched), *old(lock)) ==> r is Some && r->0.resume_intr == old(sched).eflags
            & EFLAGS_IF && r->0.from == old(sched).current && final(screen)@ == old(screen)@
            && console_blocked(*old(sched), *old(lock), *final(sched), *final(lock)),
{
    let ghost s0 = *sched;
    let ghost l0 = *lock;
    let w = console_acquire(sched, lock);
    if w.is_some() {
        return w;
    }
    put_int_hex(screen, num);
    console_release(sched, lock);
    proof {
        lemma_console_after(s0, l0, *sched, *lock);
    }
    None
}

proof fn lemma_console_after(s0: Scheduler, l0: Lock, s1: Scheduler, l1: Lock)
    requires
        s1.wf(),
        l1.wf(s1),
        l1.semaphore.waiter_head == l0.semaphore.waiter_head,
        s1.current == s0.current,
        s1.eflags == s0.eflags,
        l0.wf(s0),
        l0.holder is Some ==> l1.holder == l0.holder && l1.lock_rpt_nr == l0.lock_rpt_nr && s1 == s0,
        l0.holder is None ==> l1.holder is None,
        bystanders_kept(s0, s1),
        heads_kept(s0, s1),
    ensures
        console_after(s0, l0, s1, l1),
{
}

} // verus!
