//! Kernel threads and the round-robin scheduler.
//!
//! Every task owns one 4 KiB page: its control block at the bottom and its
//! kernel stack growing down from the top. The scheduler keeps two intrusive
//! lists in one arena of list nodes: the ready queue, linking the
//! `general_tag` of every ready task, and the list of all tasks, linking every
//! task's `all_list_tag`. A task blocked on a semaphore is linked, by its
//! `general_tag`, into that semaphore's waiter list in the same arena.
//!
//! The context switch itself is machine work: `schedule` decides which task
//! runs next, updates the tasks, the queues and the TSS, and returns a
//! [`SwitchAction`] that says which address space to load and which tasks to
//! switch between.
use crate::isr::{intr_disable_c, set_intr_status, EFLAGS_IF};
use crate::list::{
    list_alloc, list_find, list_is_empty, list_pop, list_pushback, list_pushfront, ListArena,
};
use crate::bitmap::{free_count, has_free_run};
use crate::memory::{page_align_down, page_allocate, run_allocated, same_frame, KernelMemory, PF_KERNEL};
use crate::tss::{set_esp0, GlobalTss, TaskStateSegment};
use crate::memory::{frames_needed, lowest_run, take_lowest};
use crate::messages::{
    init_prefix_msg, init_prefix_text, init_suffix_msg, init_suffix_text, list_done_msg, list_done_text,
    main_done_msg, main_done_text, start_done_msg, start_done_text,
};
use crate::vga::{c_string, chars_step, lemma_c_string_facts, lemma_chars_step_concat, put_bytes, put_str, screen_ok, Screen};
use vstd::prelude::*;

verus! {

/// Sentinel written at the bottom of every task's page to detect a kernel
/// stack that has overflowed into the control block.
pub const MAGIC_NUM: u32 = 0x1994_0625;
/// Size of the page shared by a task's control block and its kernel stack.
pub const PAGE_SIZE: u32 = 4096;
pub const TASK_RUNNING: u32 = 0;
pub const TASK_READY: u32 = 1;
pub const TASK_BLOCKED: u32 = 2;
pub const TASK_WAITING: u32 = 3;
pub const TASK_HANGING: u32 = 4;
pub const TASK_DIED: u32 = 5;
/// Size of the register frame that the interrupt entry pushes.
pub const INTR_STACK_SIZE: u32 = 76;
/// Size of the frame that the context switch restores.
pub const THREAD_STACK_SIZE: u32 = 32;
/// Length of a task's name buffer, terminator included.
pub const TASK_NAME_LEN: usize = 16;
/// Priority, and so time slice, of the boot task.
pub const MAIN_PRIORITY: u8 = 31;

/// A state in which a task waits to be unblocked.
pub open spec fn is_blocked_status(s: u32) -> bool {
    s == TASK_BLOCKED || s == TASK_WAITING || s == TASK_HANGING
}

/// The control block of one task.
#[derive(Clone, Copy)]
pub struct TaskStruct {
    /// Saved kernel stack pointer.
    pub self_kstack: u32,
    /// One of the `TASK_*` states.
    pub status: u32,
    /// Length of the task's time slice, in timer ticks.
    pub priority: u8,
    /// NUL-terminated name.
    pub name: [u8; 16],
    /// Ticks left in the current time slice.
    pub ticks: u8,
    /// Ticks the task has run for in all.
    pub elapsed_ticks: u32,
    /// List node linking the task into the ready queue or a waiter list.
    pub general_tag: usize,
    /// List node linking the task into the list of all tasks.
    pub all_list_tag: usize,
    /// The kernel address of the task's own page directory, or `None` for a
    /// kernel thread, which runs in the kernel's address space.
    pub pgdir: Option<u32>,
    /// Stack overflow sentinel.
    pub stack_magic: u32,
    /// Address of the page holding the control block and kernel stack.
    pub page: u32,
}

/// The frame from which a new thread's first context switch starts it: the
/// callee-saved registers, the entry trampoline and the thread function with
/// its argument.
#[derive(Clone, Copy, PartialEq, Eq, Debug, Structural)]
pub struct ThreadStack {
    pub ebp: u32,
    pub ebx: u32,
    pub edi: u32,
    pub esi: u32,
    pub eip: u32,
    pub unused_retaddr: u32,
    pub function: u32,
    pub func_arg: u32,
}

impl TaskStruct {
    /// The top of the task's kernel stack, the end of its page: the ring-0
    /// stack pointer that the TSS must hold while the task runs.
    pub fn kernel_stack_top(&self) -> (r: u32)
        requires
            self.page <= u32::MAX - PAGE_SIZE,
        ensures
            r == self.page + PAGE_SIZE,
    {
        self.page + PAGE_SIZE
    }
}

/// Whether the interrupt-enable flag is set in the EFLAGS value `eflags`.
pub fn is_enable_interrupts(eflags: u32) -> (r: bool)
    ensures
        r == (eflags & EFLAGS_IF != 0),
{
    assert(1u32 << 9u32 == 0x200) by (bit_vector);
    (eflags & (1u32 << 9u32)) != 0
}

/// The task running on the kernel stack at `esp`: the address of the page
/// that holds that stack.
pub fn running_thread(esp: u32) -> (r: u32)
    ensures
        r == esp - esp % 4096,
{
    page_align_down(esp)
}

/// "main", the name of the boot task.
pub open spec fn main_name() -> Seq<u8> {
    seq![0x6du8, 0x61, 0x69, 0x6e]
}

/// The name buffer of a task named by the NUL-terminated `name`: at most 15
/// of its characters, then zeros.
pub open spec fn thread_name(name: Seq<u8>) -> Seq<u8> {
    let s = c_string(name);
    Seq::new(16, |i: int| if i < s.len() && i < 15 { s[i] } else { 0u8 })
}

/// The priority given to a task asked for with `prio`: clamped to 1..=255.
pub open spec fn clamp_priority(prio: i32) -> u8 {
    if prio < 1 {
        1
    } else if prio > 255 {
        255
    } else {
        prio as u8
    }
}

/// Whether the NUL-terminated strings held by `a` and `b` are equal.
fn streq(a: &[u8], b: &[u8]) -> (r: bool)
    ensures
        r == (c_string(a@) == c_string(b@)),
{
    proof {
        lemma_c_string_facts(a@);
        lemma_c_string_facts(b@);
    }
    let mut i: usize = 0;
    loop
        invariant
            i <= c_string(a@).len(),
            i <= c_string(b@).len(),
            c_string(a@).len() <= a@.len(),
            c_string(b@).len() <= b@.len(),
            forall|j: int| 0 <= j < c_string(a@).len() ==> c_string(a@)[j] == a@[j] && a@[j] != 0,
            forall|j: int| 0 <= j < c_string(b@).len() ==> c_string(b@)[j] == b@[j] && b@[j] != 0,
            c_string(a@).len() < a@.len() ==> a@[c_string(a@).len() as int] == 0,
            c_string(b@).len() < b@.len() ==> b@[c_string(b@).len() as int] == 0,
            forall|j: int| 0 <= j < i ==> a@[j] == b@[j],
        decreases a@.len() - i,
    {
        let ca: u8 = if i < a.len() { a[i] } else { 0 };
        let cb: u8 = if i < b.len() { b[i] } else { 0 };
        if ca == 0 || ca != cb {
            proof {
                let sa = c_string(a@);
                let sb = c_string(b@);
                if sa.len() > i {
                    assert(a@[i as int] != 0);
                    assert(ca == a@[i as int]);
                }
                if sb.len() > i {
                    assert(b@[i as int] != 0);
                    assert(cb == b@[i as int]);
                }
                if ca == 0 && cb == 0 {
                    assert(sa.len() == i);
                    assert(sb.len() == i);
                    assert forall|j: int| 0 <= j < i implies sa[j] == sb[j] by {
                        assert(sa[j] == a@[j]);
                        assert(sb[j] == b@[j]);
                    }
                    assert(sa =~= sb);
                } else if ca == 0 {
                    assert(sa.len() == i);
                    assert(sb.len() > i);
                } else {
                    assert(sa.len() > i);
                    if sb.len() > i {
                        assert(sa[i as int] != sb[i as int]);
                    }
                }
            }
            return ca == cb;
        }
        i += 1;
    }
}

fn main_name_bytes() -> (v: Vec<u8>)
    ensures
        v@ == main_name(),
{
    let v = vec![0x6du8, 0x61, 0x69, 0x6e];
    assert(v@ =~= main_name());
    v
}

/// Copies the name held by `src` into the zeroed buffer `dst`: at most 15
/// characters, always followed by a NUL.
fn copy_thread_name(dst: &mut [u8; 16], src: &[u8])
    requires
        forall|i: int| 0 <= i < 16 ==> old(dst)@[i] == 0,
    ensures
        final(dst)@ == thread_name(src@),
{
    proof {
        lemma_c_string_facts(src@);
    }
    let ghost s = c_string(src@);
    let mut len: usize = 0;
    while len < 15
        invariant
            len <= 15,
            s == c_string(src@),
            len <= s.len(),
            s.len() <= src@.len(),
            forall|j: int| 0 <= j < s.len() ==> s[j] == src@[j] && src@[j] != 0,
            s.len() < src@.len() ==> src@[s.len() as int] == 0,
            forall|j: int| 0 <= j < len ==> dst@[j] == s[j],
            forall|j: int| len <= j < 16 ==> dst@[j] == 0,
        decreases 15 - len,
    {
        let c: u8 = if len < src.len() { src[len] } else { 0 };
        dst[len] = c;
        if c == 0 {
            proof {
                if s.len() > len {
                    assert(len < src@.len());
                    assert(c == src@[len as int]);
                    assert(0 <= len < s.len());
                    assert(s[len as int] == src@[len as int]);
                }
                assert(s.len() == len);
                assert forall|j: int| 0 <= j < 16 implies dst@[j] == thread_name(src@)[j] by {
                    if j < len {
                        assert(dst@[j] == s[j]);
                    } else {
                        assert(dst@[j] == 0);
                    }
                }
            }
            assert(dst@ =~= thread_name(src@));
            return;
        }
        proof {
            if s.len() == len && len < src.len() {
                assert(src@[s.len() as int] == 0);
            }
            assert(s.len() > len);
        }
        len += 1;
    }
    dst[len] = 0;
    assert(dst@ =~= thread_name(src@));
}

/// The line printed when the task named `name` is set up.
pub open spec fn init_line(name: Seq<u8>) -> Seq<u8> {
    init_prefix_msg() + name + init_suffix_msg()
}

/// A new control block for a task on the page at `page`, named by the
/// NUL-terminated `name` and asking for priority `prio`.
///
/// The task named "main" is the boot task and starts running; any other
/// starts ready. Its kernel stack is empty, its time slice is its priority,
/// clamped to 1..=255, it runs in the kernel's address space and carries the
/// stack sentinel. Its list nodes are `general_tag` and `all_list_tag`.
pub fn init_thread(
    screen: &mut Screen,
    page: u32,
    name: &[u8],
    prio: i32,
    general_tag: usize,
    all_list_tag: usize,
) -> (t: TaskStruct)
    requires
        page <= u32::MAX - PAGE_SIZE,
        screen_ok(old(screen)@),
    ensures
        screen_ok(final(screen)@),
        final(screen)@ == chars_step(old(screen)@, init_line(c_string(name@))),
        t.name@ == thread_name(name@),
        t.status == (if c_string(name@) == main_name() { TASK_RUNNING } else { TASK_READY }),
        t.self_kstack == page + PAGE_SIZE,
        t.elapsed_ticks == 0,
        t.priority == clamp_priority(prio),
        t.ticks == clamp_priority(prio),
        t.pgdir is None,
        t.stack_magic == MAGIC_NUM,
        t.page == page,
        t.general_tag == general_tag,
        t.all_list_tag == all_list_tag,
{
    let main = main_name_bytes();
    let is_main = streq(name, main.as_slice());
    proof {
        assert(c_string(main@) == main_name()) by {
            lemma_c_string_facts(main@);
            assert(c_string(main@) =~= main_name());
        }
    }
    let mut buf = [0u8; 16];
    copy_thread_name(&mut buf, name);
    let prefix = init_prefix_text();
    put_bytes(screen, prefix.as_slice());
    put_str(screen, name);
    let suffix = init_suffix_text();
    put_bytes(screen, suffix.as_slice());
    proof {
        lemma_chars_step_concat(old(screen)@, init_prefix_msg(), c_string(name@));
        lemma_chars_step_concat(old(screen)@, init_prefix_msg() + c_string(name@), init_suffix_msg());
    }
    let priority: u8 = if prio < 1 {
        1
    } else if prio > 255 {
        255
    } else {
        prio as u8
    };
    TaskStruct {
        self_kstack: page + PAGE_SIZE,
        status: if is_main { TASK_RUNNING } else { TASK_READY },
        priority,
        name: buf,
        ticks: priority,
        elapsed_ticks: 0,
        general_tag,
        all_list_tag,
        pgdir: None,
        stack_magic: MAGIC_NUM,
        page,
    }
}

/// Prepares the first kernel context of a task that has never run: reserves
/// the interrupt frame and below it the context-switch frame at the top of its
/// kernel stack, and returns the switch frame, which enters the trampoline at
/// `entry` to call `function(func_arg)`.
pub fn thread_create(pthread: &mut TaskStruct, entry: u32, function: u32, func_arg: u32) -> (frame: ThreadStack)
    requires
        old(pthread).self_kstack >= INTR_STACK_SIZE + THREAD_STACK_SIZE,
    ensures
        *final(pthread) == (TaskStruct {
            self_kstack: (old(pthread).self_kstack - INTR_STACK_SIZE - THREAD_STACK_SIZE) as u32,
            ..*old(pthread)
        }),
        frame == (ThreadStack {
            ebp: 0,
            ebx: 0,
            edi: 0,
            esi: 0,
            eip: entry,
            unused_retaddr: 0,
            function,
            func_arg,
        }),
{
    pthread.self_kstack = pthread.self_kstack - INTR_STACK_SIZE;
    pthread.self_kstack = pthread.self_kstack - THREAD_STACK_SIZE;
    ThreadStack { ebp: 0, ebx: 0, edi: 0, esi: 0, eip: entry, unused_retaddr: 0, function, func_arg }
}

/// What the processor has to do once the scheduler has chosen the next task:
/// load the address space of task `to` (its page directory, or the kernel's
/// for `None`) and switch kernel stacks from task `from` to task `to`.
#[derive(Clone, Copy, PartialEq, Eq, Debug)]
pub struct SwitchAction {
    pub from: usize,
    pub to: usize,
    pub pgdir: Option<u32>,
    /// The interrupt status (`EFLAGS_IF` or 0) that task `from` had when it
    /// called the operation that switched away; it is restored, by
    /// `thread_resume`, when `from` runs again.
    pub resume_intr: u32,
}

/// The scheduler's state: the tasks, by index; the arena holding the ready
/// queue, the list of all tasks and every waiter list; the running task; the
/// processor's EFLAGS; and the TSS whose ring-0 stack pointer follows the
/// running task.
pub struct Scheduler {
    pub tasks: Vec<TaskStruct>,
    pub lists: ListArena,
    pub ready_list: usize,
    pub all_list: usize,
    pub current: usize,
    pub eflags: u32,
    pub tss: GlobalTss,
    /// For the `general_tag` node of every task, the task's index.
    pub owner: Ghost<Map<usize, int>>,
}

impl Scheduler {
    /// The general tags of the ready tasks, in queue order.
    pub open spec fn ready(&self) -> Seq<usize> {
        self.lists.members(self.ready_list)
    }

    /// Task `i`'s nodes are its own, it is in the ready queue exactly when it
    /// is ready, and only the current task may be running, linked nowhere.
    pub open spec fn task_ok(&self, i: int) -> bool {
        let t = self.tasks@[i];
        &&& t.general_tag < self.lists.nodes.len()
        &&& t.all_list_tag < self.lists.nodes.len()
        &&& self.owner@.dom().contains(t.general_tag)
        &&& self.owner@[t.general_tag] == i
        &&& !self.owner@.dom().contains(t.all_list_tag)
        &&& t.general_tag != self.ready_list
        &&& t.general_tag != self.all_list
        &&& (self.lists.is_head(t.general_tag) ==> self.lists.members(t.general_tag).len() == 0)
        &&& (t.status == TASK_READY ==> self.lists.is_member(t.general_tag)
            && self.lists.loc@[t.general_tag].0 == self.ready_list)
        &&& (t.status == TASK_RUNNING ==> i == self.current && !self.lists.is_member(t.general_tag))
        &&& t.page <= u32::MAX - PAGE_SIZE
    }

    /// A linked node other than an all-tasks node is the general tag of a
    /// task: a ready one in the ready queue, a blocked one anywhere else.
    pub open spec fn member_ok(&self, m: usize) -> bool {
        let h = self.lists.loc@[m].0;
        h != self.all_list ==> {
            &&& self.owner@.dom().contains(m)
            &&& (h == self.ready_list ==> self.tasks@[self.owner@[m]].status == TASK_READY)
            &&& (h != self.ready_list ==> is_blocked_status(self.tasks@[self.owner@[m]].status))
        }
    }

    /// The recorded owners are exactly the tasks' general tags: every task's
    /// general tag is recorded for it, and for no other task.
    pub open spec fn owner_ok(&self) -> bool {
        &&& forall|m: usize| #[trigger]
            self.owner@.dom().contains(m) ==> 0 <= self.owner@[m] < self.tasks.len()
                && self.tasks@[self.owner@[m]].general_tag == m
        &&& forall|i: int|
            0 <= i < self.tasks.len() ==> self.owner@.dom().contains(#[trigger] self.tasks@[i].general_tag)
                && self.owner@[self.tasks@[i].general_tag] == i
    }

    /// The queues agree with the tasks, whether or not a task is running.
    pub open spec fn queues_ok(&self) -> bool {
        &&& self.lists.wf()
        &&& self.lists.is_head(self.ready_list)
        &&& self.lists.is_head(self.all_list)
        &&& self.ready_list != self.all_list
        &&& (self.tasks.len() > 0 ==> self.current < self.tasks.len())
        &&& forall|i: int| 0 <= i < self.tasks.len() ==> #[trigger] self.task_ok(i)
        &&& self.owner_ok()
        &&& forall|m: usize| #[trigger] self.lists.is_member(m) ==> self.member_ok(m)
        &&& self.lists.members(self.all_list) == Seq::new(
            self.tasks.len() as nat,
            |k: int| self.tasks@[k].all_list_tag,
        )
    }

    /// The queues agree with the tasks and, once there is a task, the current
    /// one is running.
    pub open spec fn wf(&self) -> bool {
        &&& self.queues_ok()
        &&& (self.tasks.len() > 0 ==> self.tasks@[self.current as int].status == TASK_RUNNING)
    }

    /// The index of the task whose general tag is `tag`, found by searching
    /// the tasks (the control block that embeds the node).
    pub fn task_from_general_tag(&self, tag: usize) -> (r: usize)
        requires
            self.owner_ok(),
            self.owner@.dom().contains(tag),
        ensures
            r == self.owner@[tag],
            r < self.tasks.len(),
            self.tasks@[r as int].general_tag == tag,
    {
        let ghost k = self.owner@[tag];
        let mut i: usize = 0;
        while i < self.tasks.len()
            invariant
                self.owner_ok(),
                self.owner@.dom().contains(tag),
                k == self.owner@[tag],
                0 <= k < self.tasks.len(),
                self.tasks@[k].general_tag == tag,
                i <= k,
            decreases self.tasks.len() - i,
        {
            if self.tasks[i].general_tag == tag {
                return i;
            }
            proof {
                if i == k {
                    assert(false);
                }
            }
            i += 1;
        }
        proof {
            assert(false);
        }
        0
    }
}

/// The scheduler before any task exists: an empty ready queue, an empty list
/// of all tasks, interrupts disabled as at boot.
pub fn init_list(screen: &mut Screen) -> (s: Scheduler)
    requires
        screen_ok(old(screen)@),
    ensures
        screen_ok(final(screen)@),
        final(screen)@ == chars_step(old(screen)@, list_done_msg()),
        s.wf(),
        s.tasks.len() == 0,
        s.lists.nodes.len() == 2,
        s.ready().len() == 0,
        s.lists.members(s.all_list).len() == 0,
        s.eflags == 0,
{
    let mut lists = ListArena::new();
    let ready_list = list_alloc(&mut lists);
    let all_list = list_alloc(&mut lists);
    let s = Scheduler {
        tasks: Vec::new(),
        lists,
        ready_list,
        all_list,
        current: 0,
        eflags: 0,
        tss: GlobalTss::new(),
        owner: Ghost(Map::empty()),
    };
    assert(s.lists.members(s.all_list) =~= Seq::new(0, |k: int| s.tasks@[k].all_list_tag));
    let done = list_done_text();
    put_bytes(screen, done.as_slice());
    s
}

/// The scheduler fields that a scheduling step leaves alone.
pub open spec fn same_frame_of(a: Scheduler, b: Scheduler) -> bool {
    &&& b.ready_list == a.ready_list
    &&& b.all_list == a.all_list
    &&& b.owner@ == a.owner@
    &&& b.tasks.len() == a.tasks.len()
    &&& b.lists.nodes.len() == a.lists.nodes.len()
}

/// `b` has the tasks of `a`, and every task of `a` that is blocked and
/// linked into no list is the same in `b`, and still linked nowhere: an
/// operation that does not concern it leaves it alone.
pub open spec fn bystanders_kept(a: Scheduler, b: Scheduler) -> bool {
    &&& b.tasks.len() == a.tasks.len()
    &&& forall|j: int|
        0 <= j < a.tasks.len() && is_blocked_status(a.tasks@[j].status) && !a.lists.is_member(
            a.tasks@[j].general_tag,
        ) ==> #[trigger] b.tasks@[j] == a.tasks@[j] && !b.lists.is_member(a.tasks@[j].general_tag)
}

/// Every list head of `a` that is not a general tag is still such a head in
/// `b`, and the ready queue and the list of all tasks keep their heads: the
/// waiter lists of semaphores and queues survive.
pub open spec fn heads_kept(a: Scheduler, b: Scheduler) -> bool {
    &&& b.ready_list == a.ready_list
    &&& b.all_list == a.all_list
    &&& forall|h: usize|
        #![trigger b.lists.lists@.dom().contains(h)]
        #![trigger a.lists.lists@.dom().contains(h)]
        a.lists.is_head(h) && !a.owner@.dom().contains(h) ==> b.lists.is_head(h) && !b.owner@.dom().contains(h)
}

/// The current task, ready again, with a fresh time slice.
pub open spec fn requeued(t: TaskStruct) -> TaskStruct {
    TaskStruct { status: TASK_READY, ticks: t.priority, ..t }
}

/// Puts the running current task at the back of the ready queue with a full
/// time slice.
fn requeue_current(sched: &mut Scheduler)
    requires
        old(sched).queues_ok(),
        old(sched).tasks.len() > 0,
        old(sched).tasks@[old(sched).current as int].status == TASK_RUNNING,
    ensures
        final(sched).queues_ok(),
        same_frame_of(*old(sched), *final(sched)),
        final(sched).current == old(sched).current,
        final(sched).eflags == old(sched).eflags,
        final(sched).tss == old(sched).tss,
        final(sched).tasks@ == old(sched).tasks@.update(
            old(sched).current as int,
            requeued(old(sched).tasks@[old(sched).current as int]),
        ),
        final(sched).lists.lists@ == old(sched).lists.lists@.remove(
            old(sched).tasks@[old(sched).current as int].general_tag,
        ).insert(
            old(sched).ready_list,
            old(sched).ready().push(old(sched).tasks@[old(sched).current as int].general_tag),
        ),
        final(sched).lists.loc@.dom() == old(sched).lists.loc@.dom().insert(
            old(sched).tasks@[old(sched).current as int].general_tag,
        ),
{
    let ghost a = *sched;
    let cur = sched.current;
    let t = sched.tasks[cur];
    let tag = t.general_tag;
    let ready = sched.ready_list;
    proof {
        assert(a.task_ok(cur as int));
    }
    let found = list_find(&sched.lists, ready, tag);
    if found {
        proof {
            let j = choose|j: int| 0 <= j < a.ready().len() && a.ready()[j] == tag;
            assert(a.lists.loc@.dom().contains(a.lists.lists@[ready][j]));
            assert(false);
        }
    }
    list_pushback(&mut sched.lists, tag, ready);
    sched.tasks.set(cur, TaskStruct { status: TASK_READY, ticks: t.priority, ..t });
    proof {
        let b = *sched;
        assert forall|i: int| 0 <= i < b.tasks.len() implies #[trigger] b.task_ok(i) by {
            assert(a.task_ok(i));
            if i != cur {
                assert(b.tasks@[i] == a.tasks@[i]);
                assert(a.tasks@[i].general_tag != tag);
            }
        }
        assert forall|m: usize| #[trigger] b.lists.is_member(m) implies b.member_ok(m) by {
            if m != tag {
                assert(a.lists.is_member(m));
                assert(a.member_ok(m));
                if a.lists.loc@[m].0 != a.all_list {
                    assert(a.owner@[m] != cur);
                }
            }
        }
        assert(b.owner_ok());
        assert(b.lists.members(b.all_list) =~= a.lists.members(a.all_list));
        assert(b.lists.members(b.all_list) =~= Seq::new(b.tasks.len() as nat, |k: int| b.tasks@[k].all_list_tag));
    }
}

/// Takes the first task off the ready queue and makes it the running task,
/// with the TSS pointing at the top of its kernel stack.
fn dispatch(sched: &mut Scheduler, resume_intr: u32) -> (r: SwitchAction)
    requires
        old(sched).queues_ok(),
        old(sched).tasks.len() > 0,
        old(sched).tasks@[old(sched).current as int].status != TASK_RUNNING,
        old(sched).ready().len() > 0,
    ensures
        final(sched).wf(),
        same_frame_of(*old(sched), *final(sched)),
        final(sched).eflags == old(sched).eflags,
        ({
            let m = old(sched).ready()[0];
            let i = old(sched).owner@[m];
            let t = old(sched).tasks@[i];
            &&& r == SwitchAction { from: old(sched).current, to: i as usize, pgdir: t.pgdir, resume_intr }
            &&& final(sched).current == i
            &&& final(sched).tasks@ == old(sched).tasks@.update(i, TaskStruct { status: TASK_RUNNING, ..t })
            &&& final(sched).lists.lists@ == old(sched).lists.lists@.insert(
                old(sched).ready_list,
                old(sched).ready().drop_first(),
            ).insert(m, Seq::<usize>::empty())
            &&& final(sched).tss.inner == (TaskStateSegment { esp0: (t.page + PAGE_SIZE) as u32, ..old(sched).tss.inner })
            &&& final(sched).lists.loc@.dom() == old(sched).lists.loc@.dom().remove(m)
        }),
{
    let ghost a = *sched;
    let ready = sched.ready_list;
    let popped = list_pop(&mut sched.lists, ready);
    let m = match popped {
        Some(m) => m,
        None => {
            proof {
                assert(false);
            }
            0
        },
    };
    proof {
        assert(a.lists.is_member(m)) by {
            assert(a.lists.loc@.dom().contains(a.lists.lists@[ready][0]));
        }
        assert(a.member_ok(m));
    }
    let i = sched.task_from_general_tag(m);
    let t = sched.tasks[i];
    proof {
        assert(a.task_ok(i as int));
    }
    sched.tasks.set(i, TaskStruct { status: TASK_RUNNING, ..t });
    let prev = sched.current;
    sched.current = i;
    let top = t.kernel_stack_top();
    set_esp0(&mut sched.tss, top);
    proof {
        let b = *sched;
        assert(b.lists.members(ready) =~= a.ready().drop_first());
        assert forall|k: int| 0 <= k < b.tasks.len() implies #[trigger] b.task_ok(k) by {
            assert(a.task_ok(k));
            if k != i {
                assert(b.tasks@[k] == a.tasks@[k]);
                assert(a.tasks@[k].general_tag != m);
                if a.tasks@[k].status == TASK_READY {
                    let g = a.tasks@[k].general_tag;
                    assert(a.lists.loc@.dom().contains(g));
                }
            }
        }
        assert forall|x: usize| #[trigger] b.lists.is_member(x) implies b.member_ok(x) by {
            assert(a.lists.is_member(x));
            assert(a.member_ok(x));
            assert(b.lists.loc@[x].0 == a.lists.loc@[x].0);
            if a.lists.loc@[x].0 != a.all_list {
                assert(a.owner@[x] != i);
            }
        }
        assert(b.owner_ok());
        assert(b.lists.members(b.all_list) =~= a.lists.members(a.all_list));
        assert(b.lists.members(b.all_list) =~= Seq::new(b.tasks.len() as nat, |k: int| b.tasks@[k].all_list_tag));
    }
    SwitchAction { from: prev, to: i, pgdir: t.pgdir, resume_intr }
}

/// The waiter lists of `a` are kept in `b`, and their heads are still not
/// general tags.
pub open spec fn waiter_heads_kept(a: Scheduler, b: Scheduler) -> bool {
    &&& waiters_kept(a, b)
    &&& forall|h: usize|
        #![trigger b.owner@.dom().contains(h)]
        a.lists.is_head(h) && !a.owner@.dom().contains(h) ==> !b.owner@.dom().contains(h)
}

/// Whether the waiter lists (every list but the ready queue, the list of all
/// tasks and the empty lists headed by general tags) are the same in `a` and
/// `b`.
pub open spec fn waiters_kept(a: Scheduler, b: Scheduler) -> bool {
    forall|h: usize|
        #![trigger b.lists.lists@.dom().contains(h)]
        a.lists.is_head(h) && h != a.ready_list && h != a.all_list && !a.owner@.dom().contains(h) ==> b.lists.is_head(h)
            && b.lists.members(h) == a.lists.members(h)
}

/// The tasks in the order they will next run: the ready queue, followed by
/// the current task when it is still running (it goes to the back).
pub open spec fn run_queue(a: Scheduler, tasks: Seq<TaskStruct>) -> Seq<usize> {
    if tasks[a.current as int].status == TASK_RUNNING {
        a.ready().push(tasks[a.current as int].general_tag)
    } else {
        a.ready()
    }
}

/// `b` and `r` are what scheduling makes of `a`, whose tasks are `tasks`:
/// the switch of `switch_post`, with every waiter list and the list of all
/// tasks left as they were.
pub open spec fn schedule_post(tasks: Seq<TaskStruct>, a: Scheduler, b: Scheduler, r: SwitchAction) -> bool {
    &&& switch_post(tasks, a, b, r)
    &&& waiters_kept(a, b)
    &&& b.lists.members(b.all_list) == a.lists.members(a.all_list)
}

/// `b` and `r` are what switching from the current task makes of `a`, whose
/// tasks are `tasks`: a still-running current task goes to the back of the
/// ready queue with a full time slice, the task at the front of the queue
/// becomes the running task, and the TSS's ring-0 stack is the top of its
/// page.
pub open spec fn switch_post(tasks: Seq<TaskStruct>, a: Scheduler, b: Scheduler, r: SwitchAction) -> bool {
    let c = a.current as int;
    let q = run_queue(a, tasks);
    let i = a.owner@[q[0]];
    let mid = if tasks[c].status == TASK_RUNNING { tasks.update(c, requeued(tasks[c])) } else { tasks };
    &&& r.from == a.current
    &&& r.to == i as usize
    &&& r.pgdir == tasks[i].pgdir
    &&& b.current == i
    &&& b.tasks@ == mid.update(i, TaskStruct { status: TASK_RUNNING, ..mid[i] })
    &&& b.ready() == q.drop_first()
    &&& b.tss.inner == (TaskStateSegment { esp0: (tasks[i].page + PAGE_SIZE) as u32, ..a.tss.inner })
}

/// Chooses and activates the next task; interrupts must be disabled.
///
/// A running current task goes to the back of the ready queue with a full
/// time slice; a current task that is no longer running (it has just
/// blocked or died) is left where it is, and then some task must be ready.
/// The task at the front of the queue becomes the running task, and the
/// TSS's ring-0 stack pointer becomes the top of its page. Returns the
/// address space to load and the tasks to switch between.
pub fn schedule(sched: &mut Scheduler) -> (r: SwitchAction)
    requires
        old(sched).queues_ok(),
        old(sched).tasks.len() > 0,
        old(sched).tasks@[old(sched).current as int].status == TASK_RUNNING || old(sched).ready().len() > 0,
        old(sched).eflags & EFLAGS_IF == 0,
    ensures
        final(sched).wf(),
        same_frame_of(*old(sched), *final(sched)),
        final(sched).eflags == old(sched).eflags,
        schedule_post(old(sched).tasks@, *old(sched), *final(sched), r),
        r.resume_intr == 0,
        bystanders_kept(*old(sched), *final(sched)),
        heads_kept(*old(sched), *final(sched)),
{
    let ghost a = *sched;
    let cur = sched.current;
    if sched.tasks[cur].status != TASK_RUNNING {
        let r = dispatch(sched, 0);
        proof {
            assert(a.task_ok(a.current as int));
            let m0 = a.ready()[0];
            assert(a.lists.loc@.dom().contains(a.lists.lists@[a.ready_list][0]));
            assert(a.lists.is_member(m0));
            assert(a.member_ok(m0));
            assert(a.owner@.dom().contains(m0));
            assert forall|j: int|
                0 <= j < a.tasks.len() && is_blocked_status(a.tasks@[j].status) && !a.lists.is_member(
                    a.tasks@[j].general_tag,
                ) implies #[trigger] sched.tasks@[j] == a.tasks@[j] && !sched.lists.is_member(a.tasks@[j].general_tag) by {
                assert(a.task_ok(j));
            }
            assert(!a.owner@.dom().contains(a.all_list)) by {
                if a.owner@.dom().contains(a.all_list) {
                    assert(a.task_ok(a.owner@[a.all_list]));
                }
            }
        }
        return r;
    }
    requeue_current(sched);
    let ghost b = *sched;
    let r = dispatch(sched, 0);
    proof {
        let mb = b.ready()[0];
        assert(b.lists.loc@.dom().contains(b.lists.lists@[b.ready_list][0]));
        assert(b.lists.is_member(mb));
        assert(b.member_ok(mb));
        assert(a.task_ok(a.current as int));
        assert forall|j: int|
            0 <= j < a.tasks.len() && is_blocked_status(a.tasks@[j].status) && !a.lists.is_member(
                a.tasks@[j].general_tag,
            ) implies #[trigger] sched.tasks@[j] == a.tasks@[j] && !sched.lists.is_member(a.tasks@[j].general_tag) by {
            assert(a.task_ok(j));
        }
        assert(!a.owner@.dom().contains(a.all_list)) by {
            if a.owner@.dom().contains(a.all_list) {
                assert(a.task_ok(a.owner@[a.all_list]));
            }
        }
        let c = a.current as int;
        let tag = a.tasks@[c].general_tag;
        assert(b.ready() == a.ready().push(tag));
        assert forall|h: usize|
            #![trigger sched.lists.lists@.dom().contains(h)]
            a.lists.is_head(h) && h != a.ready_list && !a.owner@.dom().contains(h) implies sched.lists.is_head(h)
                && sched.lists.members(h) == a.lists.members(h) by {
            assert(h != tag);
            assert(h != b.ready()[0]) by {
                if b.ready().len() > a.ready().len() && h == b.ready()[0] {
                    if a.ready().len() > 0 {
                        assert(a.lists.loc@.dom().contains(a.lists.lists@[a.ready_list][0]));
                        assert(a.member_ok(a.ready()[0]));
                    }
                }
            }
        }
    }
    r
}

/// Blocks the running task in state `stat` (blocked, waiting or hanging),
/// disables interrupts and switches to the task at the front of the ready
/// queue. The task is left linked nowhere; it runs again once
/// `thread_unblock` has made it ready.
pub fn thread_block(sched: &mut Scheduler, stat: u32) -> (r: SwitchAction)
    requires
        old(sched).wf(),
        old(sched).tasks.len() > 0,
        is_blocked_status(stat),
        old(sched).ready().len() > 0,
    ensures
        final(sched).wf(),
        same_frame_of(*old(sched), *final(sched)),
        final(sched).eflags == old(sched).eflags & !EFLAGS_IF,
        r.resume_intr == old(sched).eflags & EFLAGS_IF,
        !final(sched).lists.is_member(old(sched).tasks@[old(sched).current as int].general_tag),
        final(sched).current != old(sched).current,
        forall|x: usize| #[trigger] final(sched).lists.is_member(x) ==> old(sched).lists.is_member(x),
        forall|j: int|
            0 <= j < old(sched).tasks.len() && j != old(sched).current && old(sched).tasks@[j].status
                != TASK_READY ==> #[trigger] final(sched).tasks@[j] == old(sched).tasks@[j],
        schedule_post(
            old(sched).tasks@.update(
                old(sched).current as int,
                TaskStruct { status: stat, ..old(sched).tasks@[old(sched).current as int] },
            ),
            *old(sched),
            *final(sched),
            r,
        ),
        bystanders_kept(*old(sched), *final(sched)),
        heads_kept(*old(sched), *final(sched)),
{
    let ghost a = *sched;
    let saved = intr_disable_c(&mut sched.eflags);
    let cur = sched.current;
    let t = sched.tasks[cur];
    sched.tasks.set(cur, TaskStruct { status: stat, ..t });
    proof {
        let b = *sched;
        assert(a.task_ok(cur as int));
        assert forall|i: int| 0 <= i < b.tasks.len() implies #[trigger] b.task_ok(i) by {
            assert(a.task_ok(i));
        }
        assert forall|m: usize| #[trigger] b.lists.is_member(m) implies b.member_ok(m) by {
            assert(a.member_ok(m));
            if a.lists.loc@[m].0 != a.all_list {
                assert(a.owner@[m] != cur);
            }
        }
        assert(b.owner_ok());
        assert(b.lists.members(b.all_list) =~= Seq::new(b.tasks.len() as nat, |k: int| b.tasks@[k].all_list_tag));
    }
    let ghost b = *sched;
    let r = dispatch(sched, saved);
    proof {
        assert(a.task_ok(a.current as int));
        assert forall|j: int|
            0 <= j < a.tasks.len() && is_blocked_status(a.tasks@[j].status) && !a.lists.is_member(
                a.tasks@[j].general_tag,
            ) implies #[trigger] sched.tasks@[j] == a.tasks@[j] && !sched.lists.is_member(a.tasks@[j].general_tag) by {
            assert(a.task_ok(j));
            let mj = b.ready()[0];
            assert(b.lists.loc@.dom().contains(b.lists.lists@[b.ready_list][0]));
            assert(b.lists.is_member(mj));
            assert(b.member_ok(mj));
        }
        assert(!sched.lists.is_member(a.tasks@[cur as int].general_tag));
        let m0 = b.ready()[0];
        assert(b.lists.loc@.dom().contains(b.lists.lists@[b.ready_list][0]));
        assert(b.lists.is_member(m0));
        assert(b.member_ok(m0));
        assert(!a.owner@.dom().contains(a.all_list)) by {
            if a.owner@.dom().contains(a.all_list) {
                assert(a.task_ok(a.owner@[a.all_list]));
            }
        }
        let m0 = a.ready()[0];
        assert(a.lists.loc@.dom().contains(a.lists.lists@[a.ready_list][0]));
        assert(a.lists.is_member(m0));
        assert(a.member_ok(m0));
        assert(a.owner@.dom().contains(m0));
    }
    r
}

/// The step a task takes when it runs again after an operation switched
/// away from it (`sw`): the interrupt status it had when it called that
/// operation is restored. Nothing else changes.
pub fn thread_resume(sched: &mut Scheduler, sw: SwitchAction)
    requires
        old(sched).wf(),
        sw.from == old(sched).current,
        sw.resume_intr == EFLAGS_IF || sw.resume_intr == 0,
    ensures
        final(sched).wf(),
        same_queues(*old(sched), *final(sched)),
        final(sched).tss == old(sched).tss,
        sw.resume_intr == EFLAGS_IF ==> final(sched).eflags == old(sched).eflags | EFLAGS_IF,
        sw.resume_intr == 0 ==> final(sched).eflags == old(sched).eflags & !EFLAGS_IF,
{
    let ghost a = *sched;
    set_intr_status(&mut sched.eflags, sw.resume_intr);
    proof {
        lemma_wf_same_queues(a, *sched);
    }
}

/// What happens when a thread's function returns: the thread dies and the
/// task at the front of the ready queue runs; a dead task is never queued
/// again.
pub fn thread_exit(sched: &mut Scheduler) -> (r: SwitchAction)
    requires
        old(sched).wf(),
        old(sched).tasks.len() > 0,
        old(sched).ready().len() > 0,
    ensures
        final(sched).wf(),
        same_frame_of(*old(sched), *final(sched)),
        final(sched).eflags == old(sched).eflags & !EFLAGS_IF,
        schedule_post(
            old(sched).tasks@.update(
                old(sched).current as int,
                TaskStruct { status: TASK_DIED, ..old(sched).tasks@[old(sched).current as int] },
            ),
            *old(sched),
            *final(sched),
            r,
        ),
        bystanders_kept(*old(sched), *final(sched)),
        heads_kept(*old(sched), *final(sched)),
{
    let ghost a = *sched;
    let saved = intr_disable_c(&mut sched.eflags);
    let cur = sched.current;
    let t = sched.tasks[cur];
    sched.tasks.set(cur, TaskStruct { status: TASK_DIED, ..t });
    proof {
        let b = *sched;
        assert(a.task_ok(cur as int));
        assert forall|i: int| 0 <= i < b.tasks.len() implies #[trigger] b.task_ok(i) by {
            assert(a.task_ok(i));
        }
        assert forall|m: usize| #[trigger] b.lists.is_member(m) implies b.member_ok(m) by {
            assert(a.member_ok(m));
            if a.lists.loc@[m].0 != a.all_list {
                assert(a.owner@[m] != cur);
            }
        }
        assert(b.owner_ok());
        assert(b.lists.members(b.all_list) =~= Seq::new(b.tasks.len() as nat, |k: int| b.tasks@[k].all_list_tag));
    }
    let ghost b = *sched;
    let r = dispatch(sched, saved);
    proof {
        assert(a.task_ok(a.current as int));
        assert forall|j: int|
            0 <= j < a.tasks.len() && is_blocked_status(a.tasks@[j].status) && !a.lists.is_member(
                a.tasks@[j].general_tag,
            ) implies #[trigger] sched.tasks@[j] == a.tasks@[j] && !sched.lists.is_member(a.tasks@[j].general_tag) by {
            assert(a.task_ok(j));
            let mj = b.ready()[0];
            assert(b.lists.loc@.dom().contains(b.lists.lists@[b.ready_list][0]));
            assert(b.lists.is_member(mj));
            assert(b.member_ok(mj));
        }
        assert(!a.owner@.dom().contains(a.all_list)) by {
            if a.owner@.dom().contains(a.all_list) {
                assert(a.task_ok(a.owner@[a.all_list]));
            }
        }
        let m0 = a.ready()[0];
        assert(a.lists.loc@.dom().contains(a.lists.lists@[a.ready_list][0]));
        assert(a.lists.is_member(m0));
        assert(a.member_ok(m0));
        assert(a.owner@.dom().contains(m0));
    }
    r
}

/// Makes the blocked task `pthread` ready: it goes to the front of the ready
/// queue, so that it runs next. Its general tag must be linked nowhere.
pub fn thread_unblock(sched: &mut Scheduler, pthread: usize)
    requires
        old(sched).wf(),
        pthread < old(sched).tasks.len(),
        is_blocked_status(old(sched).tasks@[pthread as int].status),
        !old(sched).lists.is_member(old(sched).tasks@[pthread as int].general_tag),
    ensures
        final(sched).wf(),
        same_frame_of(*old(sched), *final(sched)),
        final(sched).current == old(sched).current,
        final(sched).eflags == old(sched).eflags,
        final(sched).tss == old(sched).tss,
        final(sched).tasks@ == old(sched).tasks@.update(
            pthread as int,
            TaskStruct { status: TASK_READY, ..old(sched).tasks@[pthread as int] },
        ),
        final(sched).ready() == seq![old(sched).tasks@[pthread as int].general_tag] + old(sched).ready(),
        waiters_kept(*old(sched), *final(sched)),
        final(sched).lists.loc@.dom() == old(sched).lists.loc@.dom().insert(
            old(sched).tasks@[pthread as int].general_tag,
        ),
        heads_kept(*old(sched), *final(sched)),
{
    let ghost a = *sched;
    let old_status = intr_disable_c(&mut sched.eflags);
    let t = sched.tasks[pthread];
    let tag = t.general_tag;
    let ready = sched.ready_list;
    proof {
        assert(a.task_ok(pthread as int));
    }
    let found = list_find(&sched.lists, ready, tag);
    if found {
        proof {
            let j = choose|j: int| 0 <= j < a.ready().len() && a.ready()[j] == tag;
            assert(a.lists.loc@.dom().contains(a.lists.lists@[ready][j]));
            assert(false);
        }
    }
    list_pushfront(&mut sched.lists, tag, ready);
    sched.tasks.set(pthread, TaskStruct { status: TASK_READY, ..t });
    proof {
        crate::isr::lemma_disable_restore(a.eflags);
    }
    set_intr_status(&mut sched.eflags, old_status);
    proof {
        let b = *sched;
        assert forall|i: int| 0 <= i < b.tasks.len() implies #[trigger] b.task_ok(i) by {
            assert(a.task_ok(i));
            if i != pthread {
                assert(b.tasks@[i] == a.tasks@[i]);
                assert(a.tasks@[i].general_tag != tag);
                if a.tasks@[i].status == TASK_READY {
                    assert(a.lists.loc@.dom().contains(a.tasks@[i].general_tag));
                }
            }
        }
        assert forall|m: usize| #[trigger] b.lists.is_member(m) implies b.member_ok(m) by {
            if m != tag {
                assert(a.lists.is_member(m));
                assert(a.member_ok(m));
                if a.lists.loc@[m].0 != a.all_list {
                    assert(a.owner@[m] != pthread);
                }
            }
        }
        assert(b.owner_ok());
        assert(b.lists.members(b.all_list) =~= a.lists.members(a.all_list));
        assert(b.lists.members(b.all_list) =~= Seq::new(b.tasks.len() as nat, |k: int| b.tasks@[k].all_list_tag));
        assert(a.task_ok(a.current as int));
    }
}

/// The timer interrupt: the running task is charged one tick; when its time
/// slice is used up it is scheduled out, otherwise its slice shrinks by one.
/// Returns the switch when one was made.
pub fn clock_interrupt(sched: &mut Scheduler) -> (r: Option<SwitchAction>)
    requires
        old(sched).wf(),
        old(sched).tasks.len() > 0,
        old(sched).tasks@[old(sched).current as int].stack_magic == MAGIC_NUM,
        old(sched).tasks@[old(sched).current as int].elapsed_ticks < u32::MAX,
        old(sched).eflags & EFLAGS_IF == 0,
    ensures
        final(sched).wf(),
        same_frame_of(*old(sched), *final(sched)),
        final(sched).eflags == old(sched).eflags,
        ({
            let c = old(sched).current as int;
            let t = old(sched).tasks@[c];
            let charged = TaskStruct { elapsed_ticks: (t.elapsed_ticks + 1) as u32, ..t };
            if t.ticks <= 1 {
                &&& r is Some
                &&& schedule_post(old(sched).tasks@.update(c, charged), *old(sched), *final(sched), r->0)
            } else {
                &&& r is None
                &&& final(sched).current == old(sched).current
                &&& final(sched).tasks@ == old(sched).tasks@.update(
                    c,
                    TaskStruct { ticks: (t.ticks - 1) as u8, ..charged },
                )
                &&& final(sched).lists.lists@ == old(sched).lists.lists@
                &&& final(sched).tss == old(sched).tss
            }
        }),
{
    let ghost a = *sched;
    let cur = sched.current;
    let t = sched.tasks[cur];
    let charged = TaskStruct { elapsed_ticks: t.elapsed_ticks + 1, ..t };
    sched.tasks.set(cur, charged);
    proof {
        let b = *sched;
        assert(a.task_ok(cur as int));
        assert forall|i: int| 0 <= i < b.tasks.len() implies #[trigger] b.task_ok(i) by {
            assert(a.task_ok(i));
        }
        assert forall|m: usize| #[trigger] b.lists.is_member(m) implies b.member_ok(m) by {
            assert(a.member_ok(m));
        }
        assert(b.owner_ok());
        assert(b.lists.members(b.all_list) =~= Seq::new(b.tasks.len() as nat, |k: int| b.tasks@[k].all_list_tag));
    }
    if t.ticks <= 1 {
        let ghost mid = *sched;
        let s = schedule(sched);
        proof {
            lemma_schedule_post_congruent(mid.tasks@, mid, a, *sched, s);
        }
        Some(s)
    } else {
        sched.tasks.set(cur, TaskStruct { ticks: t.ticks - 1, ..charged });
        proof {
            let b = *sched;
            assert forall|i: int| 0 <= i < b.tasks.len() implies #[trigger] b.task_ok(i) by {
                assert(a.task_ok(i));
            }
            assert forall|m: usize| #[trigger] b.lists.is_member(m) implies b.member_ok(m) by {
                assert(a.member_ok(m));
            }
            assert(b.owner_ok());
            assert(b.lists.members(b.all_list) =~= Seq::new(b.tasks.len() as nat, |k: int| b.tasks@[k].all_list_tag));
        }
        None
    }
}

/// In a well-formed scheduler without tasks no list has a member.
fn main_name_buffer() -> (v: Vec<u8>)
    ensures
        c_string(v@) == main_name(),
{
    let v = vec![0x6du8, 0x61, 0x69, 0x6e, 0];
    proof {
        lemma_c_string_facts(v@);
        assert(c_string(v@).len() == 4) by {
            if c_string(v@).len() > 4 {
                assert(v@[4] != 0);
            }
            if c_string(v@).len() < 4 {
                assert(v@[c_string(v@).len() as int] == 0);
            }
        }
        assert(c_string(v@) =~= main_name());
    }
    v
}

/// Turns the boot context, running on the page at `page`, into the task
/// "main": running, priority 31, in the kernel's address space, linked into
/// the list of all tasks but not into the ready queue. The boot context is
/// not a task yet: no task is running (tasks started before may be ready or
/// blocked), and "main" becomes the current task.
pub fn init_main_thread(sched: &mut Scheduler, screen: &mut Screen, page: u32)
    requires
        screen_ok(old(screen)@),
        old(sched).queues_ok(),
        forall|i: int| 0 <= i < old(sched).tasks.len() ==> #[trigger] old(sched).tasks@[i].status != TASK_RUNNING,
        page <= u32::MAX - PAGE_SIZE,
        old(sched).lists.nodes.len() + 2 < usize::MAX,
        old(sched).tasks.len() < usize::MAX,
    ensures
        final(sched).wf(),
        final(sched).tasks.len() == old(sched).tasks.len() + 1,
        final(sched).tasks@ == old(sched).tasks@.push(final(sched).tasks@[old(sched).tasks.len() as int]),
        final(sched).current == old(sched).tasks.len(),
        final(sched).eflags == old(sched).eflags,
        final(sched).tss == old(sched).tss,
        final(sched).ready() == old(sched).ready(),
        final(sched).lists.members(final(sched).all_list) == old(sched).lists.members(old(sched).all_list).push(
            final(sched).tasks@[old(sched).tasks.len() as int].all_list_tag,
        ),
        final(sched).ready_list == old(sched).ready_list,
        final(sched).all_list == old(sched).all_list,
        waiter_heads_kept(*old(sched), *final(sched)),
        screen_ok(final(screen)@),
        final(screen)@ == chars_step(old(screen)@, init_line(main_name()) + main_done_msg()),
        ({
            let t = final(sched).tasks@[old(sched).tasks.len() as int];
            &&& t.status == TASK_RUNNING
            &&& t.name@ == thread_name(main_name())
            &&& t.priority == MAIN_PRIORITY
            &&& t.ticks == MAIN_PRIORITY
            &&& t.elapsed_ticks == 0
            &&& t.self_kstack == page + PAGE_SIZE
            &&& t.pgdir is None
            &&& t.stack_magic == MAGIC_NUM
            &&& t.page == page
        }),
{
    let ghost a0 = *sched;
    let g = list_alloc(&mut sched.lists);
    let al = list_alloc(&mut sched.lists);
    let name = main_name_buffer();
    let t = init_thread(screen, page, name.as_slice(), MAIN_PRIORITY as i32, g, al);
    proof {
        lemma_c_string_facts(main_name());
        assert(c_string(main_name()).len() == 4) by {
            if c_string(main_name()).len() < 4 {
                assert(main_name()[c_string(main_name()).len() as int] == 0);
            }
        }
        assert(c_string(main_name()) =~= main_name());
        assert(thread_name(name@) =~= thread_name(main_name()));
    }
    let done = main_done_text();
    put_bytes(screen, done.as_slice());
    proof {
        lemma_chars_step_concat(old(screen)@, init_line(main_name()), main_done_msg());
    }
    let idx = sched.tasks.len();
    sched.tasks.push(t);
    sched.owner = Ghost(sched.owner@.insert(g, idx as int));
    let all = sched.all_list;
    list_pushback(&mut sched.lists, al, all);
    sched.current = idx;
    proof {
        let b = *sched;
        assert(a0.lists.nodes.len() <= g);
        assert(a0.lists.lists@.dom().contains(a0.ready_list));
        assert(a0.lists.lists@.dom().contains(a0.all_list));
        assert(!a0.owner@.dom().contains(al)) by {
            if a0.owner@.dom().contains(al) {
                assert(a0.task_ok(a0.owner@[al]));
            }
        }
        assert forall|i: int| 0 <= i < b.tasks.len() implies #[trigger] b.task_ok(i) by {
            if i < idx {
                assert(a0.task_ok(i));
                assert(b.tasks@[i] == a0.tasks@[i]);
                assert(a0.tasks@[i].status != TASK_RUNNING);
                if a0.tasks@[i].status == TASK_READY {
                    assert(a0.lists.loc@.dom().contains(a0.tasks@[i].general_tag));
                }
            }
        }
        assert forall|m: usize| #[trigger] b.lists.is_member(m) implies b.member_ok(m) by {
            if m != al {
                assert(a0.lists.is_member(m));
                assert(a0.member_ok(m));
            }
        }
        assert(b.owner_ok()) by {
            assert forall|m: usize| #[trigger] b.owner@.dom().contains(m) implies 0 <= b.owner@[m] < b.tasks.len()
                && b.tasks@[b.owner@[m]].general_tag == m by {
                if m != g {
                    assert(a0.owner@.dom().contains(m));
                }
            }
            assert forall|i: int| 0 <= i < b.tasks.len() implies b.owner@.dom().contains(#[trigger] b.tasks@[i].general_tag)
                && b.owner@[b.tasks@[i].general_tag] == i by {
                if i < idx {
                    assert(a0.task_ok(i));
                }
            }
        }
        assert(b.lists.members(b.all_list) =~= a0.lists.members(a0.all_list).push(al));
        assert(b.lists.members(b.all_list) =~= Seq::new(b.tasks.len() as nat, |k: int| b.tasks@[k].all_list_tag));
        assert(b.tasks@ =~= a0.tasks@.push(b.tasks@[idx as int]));
        assert(b.ready() == a0.ready());
        assert forall|h: usize|
            #![trigger b.lists.lists@.dom().contains(h)]
            a0.lists.is_head(h) && h != a0.ready_list && h != a0.all_list && !a0.owner@.dom().contains(h) implies b.lists.is_head(h)
                && b.lists.members(h) == a0.lists.members(h) by {
            assert(h < a0.lists.nodes.len());
        }
        assert forall|h: usize|
            #![trigger b.owner@.dom().contains(h)]
            a0.lists.is_head(h) && !a0.owner@.dom().contains(h) implies !b.owner@.dom().contains(h) by {
            assert(h < a0.lists.nodes.len());
        }
    }
}

/// The new task that `thread_start` adds, once its page is at `page`.
pub open spec fn started_task(
    page: u32,
    name: Seq<u8>,
    prio: i32,
    general_tag: usize,
    all_list_tag: usize,
    t: TaskStruct,
) -> bool {
    &&& t.page == page
    &&& t.name@ == thread_name(name)
    &&& t.status == TASK_READY
    &&& t.self_kstack == page + PAGE_SIZE - INTR_STACK_SIZE - THREAD_STACK_SIZE
    &&& t.priority == clamp_priority(prio)
    &&& t.ticks == clamp_priority(prio)
    &&& t.elapsed_ticks == 0
    &&& t.general_tag == general_tag
    &&& t.all_list_tag == all_list_tag
    &&& t.pgdir is None
    &&& t.stack_magic == MAGIC_NUM
}

/// Creates a kernel thread named by the NUL-terminated `name` with priority
/// `prio` that will run `function(func_arg)` through the trampoline at
/// `entry`.
///
/// Allocates one kernel page for the task, initialises its control block,
/// prepares its first context and queues it at the back of the ready queue
/// and of the list of all tasks. Returns the new task's index and the frame
/// to write at its saved stack pointer, or `None`, changing no task, when no
/// kernel page could be allocated.
#[verifier::rlimit(60)]
#[verifier::spinoff_prover]
pub fn thread_start(
    sched: &mut Scheduler,
    mem: &mut KernelMemory,
    screen: &mut Screen,
    name: &[u8],
    prio: i32,
    entry: u32,
    function: u32,
    func_arg: u32,
) -> (r: Option<(usize, ThreadStack)>)
    requires
        screen_ok(old(screen)@),
        old(sched).wf(),
        old(sched).tasks.len() > 0,
        old(mem).wf(),
        c_string(name@) != main_name(),
        old(sched).lists.nodes.len() + 2 < usize::MAX,
    ensures
        final(sched).wf(),
        final(mem).wf(),
        same_frame(*old(mem), *final(mem)),
        !has_free_run(old(mem).vir_bits(), 1) ==> r is None,
        has_free_run(old(mem).vir_bits(), 1) && free_count(old(mem).phy_bits()) >= 2 ==> r is Some,
        r is Some <==> has_free_run(old(mem).vir_bits(), 1) && free_count(old(mem).phy_bits()) >= frames_needed(
            old(mem).tables.pd@,
            old(mem).pools.vir_ker_pool.page_addr(lowest_run(old(mem).vir_bits(), 1)) as u32,
            1,
        ),
        screen_ok(final(screen)@),
        r is None ==> final(screen)@ == old(screen)@,
        r is Some ==> final(screen)@ == chars_step(old(screen)@, init_line(c_string(name@)) + start_done_msg()),
        r is None ==> *final(sched) == *old(sched),
        r matches Some((i, frame)) ==> {
            let n = old(sched).tasks.len();
            let t = final(sched).tasks@[n as int];
            &&& i == n
            &&& run_allocated(*old(mem), *final(mem), t.page, 1)
            &&& final(mem).phy_bits() == take_lowest(old(mem).phy_bits(), frames_needed(old(mem).tables.pd@, t.page, 1))
            &&& final(sched).tasks@ == old(sched).tasks@.push(t)
            &&& started_task(t.page, name@, prio, old(sched).lists.nodes.len(), (old(sched).lists.nodes.len() + 1) as usize, t)
            &&& frame == (ThreadStack {
                ebp: 0,
                ebx: 0,
                edi: 0,
                esi: 0,
                eip: entry,
                unused_retaddr: 0,
                function,
                func_arg,
            })
            &&& final(sched).ready() == old(sched).ready().push(t.general_tag)
            &&& final(sched).lists.members(final(sched).all_list) == old(sched).lists.members(old(sched).all_list).push(t.all_list_tag)
            &&& final(sched).current == old(sched).current
            &&& final(sched).eflags == old(sched).eflags
            &&& final(sched).tss == old(sched).tss
            &&& waiter_heads_kept(*old(sched), *final(sched))
        },
{
    let ghost a0 = *sched;
    let ghost m0 = *mem;
    let allocated = page_allocate(mem, 1, PF_KERNEL);
    let page = match allocated {
        Some(p) => p,
        None => {
            return None;
        },
    };
    proof {
        let pool = m0.pools.vir_ker_pool;
        let idx = (page - pool.addr_start) / 4096;
        assert(idx + 1 <= pool.vir_bitmap.total());
        assert(page + 4096 <= pool.addr_start + pool.vir_bitmap.total() * 4096) by (nonlinear_arith)
            requires
                page == pool.addr_start + idx * 4096,
                idx + 1 <= pool.vir_bitmap.total(),
        ;
    }
    let g = list_alloc(&mut sched.lists);
    let al = list_alloc(&mut sched.lists);
    let mut t = init_thread(screen, page, name, prio, g, al);
    let frame = thread_create(&mut t, entry, function, func_arg);
    let idx = sched.tasks.len();
    sched.tasks.push(t);
    sched.owner = Ghost(sched.owner@.insert(g, idx as int));
    let ready = sched.ready_list;
    let found = list_find(&sched.lists, ready, g);
    if found {
        proof {
            let j = choose|j: int| 0 <= j < sched.ready().len() && sched.ready()[j] == g;
            assert(sched.lists.loc@.dom().contains(sched.lists.lists@[ready][j]));
            assert(a0.lists.loc@.dom().contains(g));
            assert(false);
        }
    }
    list_pushback(&mut sched.lists, g, ready);
    let all = sched.all_list;
    let found2 = list_find(&sched.lists, all, al);
    if found2 {
        proof {
            let j = choose|j: int| 0 <= j < sched.lists.members(all).len() && sched.lists.members(all)[j] == al;
            assert(sched.lists.loc@.dom().contains(sched.lists.lists@[all][j]));
            assert(a0.lists.loc@.dom().contains(al));
            assert(false);
        }
    }
    list_pushback(&mut sched.lists, al, all);
    proof {
        let b = *sched;
        assert(a0.lists.nodes.len() <= g);
        assert(a0.lists.lists@.dom().contains(a0.ready_list));
        assert(a0.lists.lists@.dom().contains(a0.all_list));
        assert(!a0.owner@.dom().contains(al)) by {
            if a0.owner@.dom().contains(al) {
                assert(a0.task_ok(a0.owner@[al]));
            }
        }
        assert forall|i: int| 0 <= i < b.tasks.len() implies #[trigger] b.task_ok(i) by {
            if i < idx {
                assert(a0.task_ok(i));
                assert(b.tasks@[i] == a0.tasks@[i]);
                if a0.tasks@[i].status == TASK_READY {
                    assert(a0.lists.loc@.dom().contains(a0.tasks@[i].general_tag));
                }
            }
        }
        assert forall|m: usize| #[trigger] b.lists.is_member(m) implies b.member_ok(m) by {
            if m != g && m != al {
                assert(a0.lists.is_member(m));
                assert(a0.member_ok(m));
            }
        }
        assert(b.owner_ok()) by {
            assert forall|m: usize| #[trigger] b.owner@.dom().contains(m) implies 0 <= b.owner@[m] < b.tasks.len()
                && b.tasks@[b.owner@[m]].general_tag == m by {
                if m != g {
                    assert(a0.owner@.dom().contains(m));
                }
            }
            assert forall|i: int| 0 <= i < b.tasks.len() implies b.owner@.dom().contains(#[trigger] b.tasks@[i].general_tag)
                && b.owner@[b.tasks@[i].general_tag] == i by {
                if i < idx {
                    assert(a0.task_ok(i));
                }
            }
        }
        assert(b.lists.members(b.all_list) =~= a0.lists.members(a0.all_list).push(al));
        assert(b.lists.members(b.all_list) =~= Seq::new(b.tasks.len() as nat, |k: int| b.tasks@[k].all_list_tag));
        assert(b.tasks@ =~= a0.tasks@.push(b.tasks@[idx as int]));
        assert(a0.task_ok(a0.current as int));
        assert forall|h: usize|
            #![trigger b.lists.lists@.dom().contains(h)]
            a0.lists.is_head(h) && h != a0.ready_list && h != a0.all_list && !a0.owner@.dom().contains(h) implies b.lists.is_head(h)
                && b.lists.members(h) == a0.lists.members(h) by {
            assert(h < a0.lists.nodes.len());
        }
        assert forall|h: usize|
            #![trigger b.owner@.dom().contains(h)]
            a0.lists.is_head(h) && !a0.owner@.dom().contains(h) implies !b.owner@.dom().contains(h) by {
            assert(h < a0.lists.nodes.len());
        }
    }
    let done = start_done_text();
    put_bytes(screen, done.as_slice());
    proof {
        lemma_chars_step_concat(old(screen)@, init_line(c_string(name@)), start_done_msg());
    }
    Some((idx, frame))
}

/// Links the running task at the back of the waiter list headed by `head`,
/// blocks it and switches to the task at the front of the ready queue, with
/// interrupts disabled. The switch records `resume_intr`, the interrupt
/// status the task restores when it runs again.
pub fn block_current_on(sched: &mut Scheduler, head: usize, resume_intr: u32) -> (r: SwitchAction)
    requires
        old(sched).wf(),
        old(sched).tasks.len() > 0,
        old(sched).lists.is_head(head),
        head != old(sched).ready_list,
        head != old(sched).all_list,
        !old(sched).owner@.dom().contains(head),
        old(sched).ready().len() > 0,
    ensures
        final(sched).wf(),
        same_frame_of(*old(sched), *final(sched)),
        final(sched).eflags == old(sched).eflags & !EFLAGS_IF,
        r.resume_intr == resume_intr,
        switch_post(
            old(sched).tasks@.update(
                old(sched).current as int,
                TaskStruct { status: TASK_BLOCKED, ..old(sched).tasks@[old(sched).current as int] },
            ),
            *old(sched),
            *final(sched),
            r,
        ),
        final(sched).lists.is_head(head),
        final(sched).lists.members(head) == old(sched).lists.members(head).push(
            old(sched).tasks@[old(sched).current as int].general_tag,
        ),
        final(sched).lists.members(final(sched).all_list) == old(sched).lists.members(old(sched).all_list),
        final(sched).current != old(sched).current,
        forall|x: usize| #[trigger]
            final(sched).lists.is_member(x) ==> old(sched).lists.is_member(x) || x == old(sched).tasks@[old(
                sched,
            ).current as int].general_tag,
        forall|j: int|
            0 <= j < old(sched).tasks.len() && j != old(sched).current && old(sched).tasks@[j].status
                != TASK_READY ==> #[trigger] final(sched).tasks@[j] == old(sched).tasks@[j],
        forall|h: usize|
            #![trigger final(sched).lists.lists@.dom().contains(h)]
            old(sched).lists.is_head(h) && h != old(sched).ready_list && h != old(sched).all_list && h != head
                && !old(sched).owner@.dom().contains(h) ==> final(sched).lists.is_head(h)
                && final(sched).lists.members(h) == old(sched).lists.members(h),
        bystanders_kept(*old(sched), *final(sched)),
        heads_kept(*old(sched), *final(sched)),
{
    let ghost a = *sched;
    intr_disable_c(&mut sched.eflags);
    let cur = sched.current;
    let t = sched.tasks[cur];
    let tag = t.general_tag;
    proof {
        assert(a.task_ok(cur as int));
    }
    let found = list_find(&sched.lists, head, tag);
    if found {
        proof {
            let j = choose|j: int| 0 <= j < a.lists.members(head).len() && a.lists.members(head)[j] == tag;
            assert(a.lists.loc@.dom().contains(a.lists.lists@[head][j]));
            assert(false);
        }
    }
    list_pushback(&mut sched.lists, tag, head);
    sched.tasks.set(cur, TaskStruct { status: TASK_BLOCKED, ..t });
    proof {
        let b = *sched;
        assert forall|i: int| 0 <= i < b.tasks.len() implies #[trigger] b.task_ok(i) by {
            assert(a.task_ok(i));
            if i != cur {
                assert(b.tasks@[i] == a.tasks@[i]);
                assert(a.tasks@[i].general_tag != tag);
                if a.tasks@[i].status == TASK_READY {
                    assert(a.lists.loc@.dom().contains(a.tasks@[i].general_tag));
                }
            }
        }
        assert forall|m: usize| #[trigger] b.lists.is_member(m) implies b.member_ok(m) by {
            if m != tag {
                assert(a.lists.is_member(m));
                assert(a.member_ok(m));
                if a.lists.loc@[m].0 != a.all_list {
                    assert(a.owner@[m] != cur);
                }
            }
        }
        assert(b.owner_ok());
        assert(b.lists.members(b.all_list) =~= a.lists.members(a.all_list));
        assert(b.lists.members(b.all_list) =~= Seq::new(b.tasks.len() as nat, |k: int| b.tasks@[k].all_list_tag));
        assert(b.ready() == a.ready());
    }
    let ghost b = *sched;
    let r = dispatch(sched, resume_intr);
    proof {
        assert(a.task_ok(a.current as int));
        assert forall|j: int|
            0 <= j < a.tasks.len() && is_blocked_status(a.tasks@[j].status) && !a.lists.is_member(
                a.tasks@[j].general_tag,
            ) implies #[trigger] sched.tasks@[j] == a.tasks@[j] && !sched.lists.is_member(a.tasks@[j].general_tag) by {
            assert(a.task_ok(j));
            let mj = b.ready()[0];
            assert(b.lists.loc@.dom().contains(b.lists.lists@[b.ready_list][0]));
            assert(b.lists.is_member(mj));
            assert(b.member_ok(mj));
        }
        let mb = b.ready()[0];
        assert(b.lists.loc@.dom().contains(b.lists.lists@[b.ready_list][0]));
        assert(b.lists.is_member(mb));
        assert(b.member_ok(mb));
        assert(!a.owner@.dom().contains(a.all_list)) by {
            if a.owner@.dom().contains(a.all_list) {
                assert(a.task_ok(a.owner@[a.all_list]));
            }
        }
        let m0 = a.ready()[0];
        assert(a.lists.loc@.dom().contains(a.lists.lists@[a.ready_list][0]));
        assert(a.lists.is_member(m0));
        assert(a.member_ok(m0));
        assert(a.owner@.dom().contains(m0));
    }
    r
}

/// Whether `b` holds the same tasks, lists and running task as `a`; the
/// EFLAGS and the TSS may differ.
pub open spec fn same_queues(a: Scheduler, b: Scheduler) -> bool {
    &&& b.tasks@ == a.tasks@
    &&& b.lists.nodes@ == a.lists.nodes@
    &&& b.lists.lists@ == a.lists.lists@
    &&& b.lists.loc@ == a.lists.loc@
    &&& b.ready_list == a.ready_list
    &&& b.all_list == a.all_list
    &&& b.current == a.current
    &&& b.owner@ == a.owner@
}

/// Whether `b` is `a` in every part.
pub open spec fn unchanged(a: Scheduler, b: Scheduler) -> bool {
    &&& same_queues(a, b)
    &&& b.eflags == a.eflags
    &&& b.tss == a.tss
}

/// Well-formedness depends only on the tasks, the lists and the running
/// task.
pub proof fn lemma_wf_same_queues(a: Scheduler, b: Scheduler)
    requires
        a.wf(),
        same_queues(a, b),
    ensures
        b.wf(),
{
    assert forall|i: int| 0 <= i < b.tasks.len() implies #[trigger] b.task_ok(i) by {
        assert(a.task_ok(i));
    }
    assert forall|m: usize| #[trigger] b.lists.is_member(m) implies b.member_ok(m) by {
        assert(a.lists.is_member(m));
        assert(a.member_ok(m));
    }
    assert(b.lists.members(b.all_list) =~= Seq::new(b.tasks.len() as nat, |k: int| b.tasks@[k].all_list_tag));
}

/// `schedule_post` reads of its second argument only the queues, the
/// running task and the TSS.
proof fn lemma_schedule_post_congruent(tasks: Seq<TaskStruct>, a1: Scheduler, a2: Scheduler, b: Scheduler, r: SwitchAction)
    requires
        schedule_post(tasks, a1, b, r),
        a2.lists == a1.lists,
        a2.ready_list == a1.ready_list,
        a2.all_list == a1.all_list,
        a2.current == a1.current,
        a2.owner@ == a1.owner@,
        a2.tss == a1.tss,
    ensures
        schedule_post(tasks, a2, b, r),
{
    assert forall|h: usize|
        #![trigger b.lists.lists@.dom().contains(h)]
        a2.lists.is_head(h) && h != a2.ready_list && h != a2.all_list && !a2.owner@.dom().contains(h) implies b.lists.is_head(h)
            && b.lists.members(h) == a2.lists.members(h) by {
        assert(b.lists.lists@.dom().contains(h));
    }
}

/// What the scheduler's state guarantees: the ready queue holds exactly the
/// ready tasks, each once; the running task is linked into no list; and a
/// task that has died is linked into no list, so it is never scheduled
/// again.
pub proof fn lemma_scheduler_invariants(s: Scheduler)
    requires
        s.wf(),
    ensures
        forall|k: int|
            0 <= k < s.ready().len() ==> s.owner@.dom().contains(#[trigger] s.ready()[k])
                && s.tasks@[s.owner@[s.ready()[k]]].status == TASK_READY,
        forall|j: int, k: int| 0 <= j < k < s.ready().len() ==> s.ready()[j] != s.ready()[k],
        forall|i: int|
            0 <= i < s.tasks.len() && #[trigger] s.tasks@[i].status == TASK_READY ==> s.ready().contains(
                s.tasks@[i].general_tag,
            ),
        s.tasks.len() > 0 ==> !s.lists.is_member(s.tasks@[s.current as int].general_tag),
        forall|i: int|
            0 <= i < s.tasks.len() && #[trigger] s.tasks@[i].status == TASK_DIED ==> !s.lists.is_member(
                s.tasks@[i].general_tag,
            ),
{
    let r = s.ready_list;
    assert forall|k: int| 0 <= k < s.ready().len() implies s.owner@.dom().contains(#[trigger] s.ready()[k])
        && s.tasks@[s.owner@[s.ready()[k]]].status == TASK_READY by {
        assert(s.lists.loc@.dom().contains(s.lists.lists@[r][k]));
        assert(s.lists.is_member(s.ready()[k]));
        assert(s.member_ok(s.ready()[k]));
    }
    assert forall|j: int, k: int| 0 <= j < k < s.ready().len() implies s.ready()[j] != s.ready()[k] by {
        assert(s.lists.loc@.dom().contains(s.lists.lists@[r][j]));
        assert(s.lists.loc@.dom().contains(s.lists.lists@[r][k]));
    }
    assert forall|i: int| 0 <= i < s.tasks.len() && #[trigger] s.tasks@[i].status == TASK_READY implies s.ready().contains(
        s.tasks@[i].general_tag,
    ) by {
        assert(s.task_ok(i));
        let g = s.tasks@[i].general_tag;
        assert(s.lists.loc@.dom().contains(g));
        let p = s.lists.loc@[g].1;
        assert(s.ready()[p] == g);
    }
    if s.tasks.len() > 0 {
        assert(s.task_ok(s.current as int));
    }
    assert forall|i: int| 0 <= i < s.tasks.len() && #[trigger] s.tasks@[i].status == TASK_DIED implies !s.lists.is_member(
        s.tasks@[i].general_tag,
    ) by {
        let g = s.tasks@[i].general_tag;
        assert(s.task_ok(i));
        if s.lists.is_member(g) {
            assert(s.member_ok(g));
            let (h, p) = s.lists.loc@[g];
            if h == s.all_list {
                assert(s.lists.members(s.all_list)[p] == g);
                assert(s.task_ok(p));
            }
        }
    }
}

} // verus!
