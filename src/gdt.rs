use vstd::prelude::*;

verus! {

/// The interrupt-stack-table slot that the double-fault handler is
/// registered with.
pub const DOUBLE_FAULT_IST_INDEX: u16 = 0;

/// Size in bytes of the alternate stack reserved for double faults.
pub const STACK_SIZE: u64 = 4096;

/// The top of the double-fault stack that starts at `stack_start` (stacks
/// grow down, so the task state records the end), or `None` where the stack
/// would run past the address space.
pub fn double_fault_stack_top(stack_start: u64) -> (r: Option<u64>)
    ensures
        stack_start + STACK_SIZE <= u64::MAX ==> r == Some((stack_start + STACK_SIZE) as u64),
        stack_start + STACK_SIZE > u64::MAX ==> r is None,
{
    if stack_start > u64::MAX - STACK_SIZE {
        None
    } else {
        Some(stack_start + STACK_SIZE)
    }
}

} // verus!
