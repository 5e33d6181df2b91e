//! Saved register state, threads and processes.
use vstd::prelude::*;
use crate::address::VirtualAddress;

verus! {

/// The number of threads a process holds.
pub const MAX_THREADS: usize = 1;

/// The general-purpose registers, in the order they are saved.
#[derive(Debug, Clone, Copy, PartialEq, Eq, Structural)]
pub struct RegisterState {
    pub r15: u64,
    pub r14: u64,
    pub r13: u64,
    pub r12: u64,
    pub r11: u64,
    pub r10: u64,
    pub r9: u64,
    pub r8: u64,
    pub rbp: u64,
    pub rdi: u64,
    pub rsi: u64,
    pub rdx: u64,
    pub rcx: u64,
    pub rbx: u64,
    pub rax: u64,
}

#[derive(Debug, Clone, Copy, PartialEq, Eq, Structural)]
pub enum ThreadState {
    Ready,
    Running,
    Blocked,
    Sleeping,
}

#[derive(Debug, Clone, Copy, PartialEq, Eq, Structural)]
pub struct Thread {
    pub register_state: RegisterState,
    pub program_counter: u64,
    pub stack_pointer: u64,
    pub state: ThreadState,
}

#[derive(Debug, Clone, Copy)]
pub struct Process {
    pub process_id: u64,
    pub parent_pid: Option<u64>,
    pub thread_table: [Thread; 1],
    pub scheduling_priority: u64,
    pub ticks_left: u64,
    pub cpu_time_used: u64,
    pub text_seg_addr: VirtualAddress,
    pub data_seg_addr: VirtualAddress,
    pub bss_seg_addr: VirtualAddress,
}

} // verus!
