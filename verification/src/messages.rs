//! The text lines the kernel prints while it boots and starts tasks.
use vstd::prelude::*;

verus! {

/// `"timer_init start\n"`: Printed before the timer is programmed.
pub open spec fn timer_start_msg() -> Seq<u8> {
    seq![0x74u8, 0x69, 0x6d, 0x65, 0x72, 0x5f, 0x69, 0x6e, 0x69, 0x74, 0x20, 0x73, 0x74, 0x61, 0x72, 0x74, 0x0a]
}

pub(crate) fn timer_start_text() -> (v: Vec<u8>)
    ensures
        v@ == timer_start_msg(),
{
    let v = vec![0x74u8, 0x69, 0x6d, 0x65, 0x72, 0x5f, 0x69, 0x6e, 0x69, 0x74, 0x20, 0x73, 0x74, 0x61, 0x72, 0x74, 0x0a];
    assert(v@ =~= timer_start_msg());
    v
}

/// `"timer_init done\n"`: Printed after the timer is programmed.
pub open spec fn timer_done_msg() -> Seq<u8> {
    seq![0x74u8, 0x69, 0x6d, 0x65, 0x72, 0x5f, 0x69, 0x6e, 0x69, 0x74, 0x20, 0x64, 0x6f, 0x6e, 0x65, 0x0a]
}

pub(crate) fn timer_done_text() -> (v: Vec<u8>)
    ensures
        v@ == timer_done_msg(),
{
    let v = vec![0x74u8, 0x69, 0x6d, 0x65, 0x72, 0x5f, 0x69, 0x6e, 0x69, 0x74, 0x20, 0x64, 0x6f, 0x6e, 0x65, 0x0a];
    assert(v@ =~= timer_done_msg());
    v
}

/// `"the total memory is: \n"`: Printed before the size of physical memory, in hex.
pub open spec fn memory_heading_msg() -> Seq<u8> {
    seq![0x74u8, 0x68, 0x65, 0x20, 0x74, 0x6f, 0x74, 0x61, 0x6c, 0x20, 0x6d, 0x65, 0x6d, 0x6f, 0x72, 0x79, 0x20, 0x69, 0x73, 0x3a, 0x20, 0x0a]
}

pub(crate) fn memory_heading_text() -> (v: Vec<u8>)
    ensures
        v@ == memory_heading_msg(),
{
    let v = vec![0x74u8, 0x68, 0x65, 0x20, 0x74, 0x6f, 0x74, 0x61, 0x6c, 0x20, 0x6d, 0x65, 0x6d, 0x6f, 0x72, 0x79, 0x20, 0x69, 0x73, 0x3a, 0x20, 0x0a];
    assert(v@ =~= memory_heading_msg());
    v
}

/// `"mem_init start\n"`: Printed before the memory pools are built.
pub open spec fn mem_start_msg() -> Seq<u8> {
    seq![0x6du8, 0x65, 0x6d, 0x5f, 0x69, 0x6e, 0x69, 0x74, 0x20, 0x73, 0x74, 0x61, 0x72, 0x74, 0x0a]
}

pub(crate) fn mem_start_text() -> (v: Vec<u8>)
    ensures
        v@ == mem_start_msg(),
{
    let v = vec![0x6du8, 0x65, 0x6d, 0x5f, 0x69, 0x6e, 0x69, 0x74, 0x20, 0x73, 0x74, 0x61, 0x72, 0x74, 0x0a];
    assert(v@ =~= mem_start_msg());
    v
}

/// `"mem_init done\n"`: Printed after the memory pools are built.
pub open spec fn mem_done_msg() -> Seq<u8> {
    seq![0x6du8, 0x65, 0x6d, 0x5f, 0x69, 0x6e, 0x69, 0x74, 0x20, 0x64, 0x6f, 0x6e, 0x65, 0x0a]
}

pub(crate) fn mem_done_text() -> (v: Vec<u8>)
    ensures
        v@ == mem_done_msg(),
{
    let v = vec![0x6du8, 0x65, 0x6d, 0x5f, 0x69, 0x6e, 0x69, 0x74, 0x20, 0x64, 0x6f, 0x6e, 0x65, 0x0a];
    assert(v@ =~= mem_done_msg());
    v
}

/// `"list done \n"`: Printed once the task lists are ready.
pub open spec fn list_done_msg() -> Seq<u8> {
    seq![0x6cu8, 0x69, 0x73, 0x74, 0x20, 0x64, 0x6f, 0x6e, 0x65, 0x20, 0x0a]
}

pub(crate) fn list_done_text() -> (v: Vec<u8>)
    ensures
        v@ == list_done_msg(),
{
    let v = vec![0x6cu8, 0x69, 0x73, 0x74, 0x20, 0x64, 0x6f, 0x6e, 0x65, 0x20, 0x0a];
    assert(v@ =~= list_done_msg());
    v
}

/// `"init "`: Printed before a new task's name.
pub open spec fn init_prefix_msg() -> Seq<u8> {
    seq![0x69u8, 0x6e, 0x69, 0x74, 0x20]
}

pub(crate) fn init_prefix_text() -> (v: Vec<u8>)
    ensures
        v@ == init_prefix_msg(),
{
    let v = vec![0x69u8, 0x6e, 0x69, 0x74, 0x20];
    assert(v@ =~= init_prefix_msg());
    v
}

/// `" done \n"`: Printed after a new task's name.
pub open spec fn init_suffix_msg() -> Seq<u8> {
    seq![0x20u8, 0x64, 0x6f, 0x6e, 0x65, 0x20, 0x0a]
}

pub(crate) fn init_suffix_text() -> (v: Vec<u8>)
    ensures
        v@ == init_suffix_msg(),
{
    let v = vec![0x20u8, 0x64, 0x6f, 0x6e, 0x65, 0x20, 0x0a];
    assert(v@ =~= init_suffix_msg());
    v
}

/// `"main done \n"`: Printed once the boot context is the task "main".
pub open spec fn main_done_msg() -> Seq<u8> {
    seq![0x6du8, 0x61, 0x69, 0x6e, 0x20, 0x64, 0x6f, 0x6e, 0x65, 0x20, 0x0a]
}

pub(crate) fn main_done_text() -> (v: Vec<u8>)
    ensures
        v@ == main_done_msg(),
{
    let v = vec![0x6du8, 0x61, 0x69, 0x6e, 0x20, 0x64, 0x6f, 0x6e, 0x65, 0x20, 0x0a];
    assert(v@ =~= main_done_msg());
    v
}

/// `"start done \n"`: Printed once a new task is queued.
pub open spec fn start_done_msg() -> Seq<u8> {
    seq![0x73u8, 0x74, 0x61, 0x72, 0x74, 0x20, 0x64, 0x6f, 0x6e, 0x65, 0x20, 0x0a]
}

pub(crate) fn start_done_text() -> (v: Vec<u8>)
    ensures
        v@ == start_done_msg(),
{
    let v = vec![0x73u8, 0x74, 0x61, 0x72, 0x74, 0x20, 0x64, 0x6f, 0x6e, 0x65, 0x20, 0x0a];
    assert(v@ =~= start_done_msg());
    v
}

/// `"keyboard has done\n"`: Printed once the keyboard is set up.
pub open spec fn keyboard_done_msg() -> Seq<u8> {
    seq![0x6bu8, 0x65, 0x79, 0x62, 0x6f, 0x61, 0x72, 0x64, 0x20, 0x68, 0x61, 0x73, 0x20, 0x64, 0x6f, 0x6e, 0x65, 0x0a]
}

pub(crate) fn keyboard_done_text() -> (v: Vec<u8>)
    ensures
        v@ == keyboard_done_msg(),
{
    let v = vec![0x6bu8, 0x65, 0x79, 0x62, 0x6f, 0x61, 0x72, 0x64, 0x20, 0x68, 0x61, 0x73, 0x20, 0x64, 0x6f, 0x6e, 0x65, 0x0a];
    assert(v@ =~= keyboard_done_msg());
    v
}

} // verus!
