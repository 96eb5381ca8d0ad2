//! The system-call surface: the argument record handed over by the entry
//! trampoline, the per-CPU scratch block reached over the GS base, and the
//! dispatch itself, which defines no calls yet.
use vstd::prelude::*;

verus! {

/// Bytes in each dedicated kernel stack.
pub const STACK_SIZE: usize = 102400;

/// The six argument words of one system call, in calling-convention order.
#[derive(Clone, Copy, Debug, PartialEq, Eq, Hash, Structural)]
pub struct SyscallArgs(pub usize, pub usize, pub usize, pub usize, pub usize, pub usize);

/// The argument at a position, for positions 0 through 5.
pub open spec fn spec_arg(args: SyscallArgs, index: int) -> usize {
    if index == 0 {
        args.0
    } else if index == 1 {
        args.1
    } else if index == 2 {
        args.2
    } else if index == 3 {
        args.3
    } else if index == 4 {
        args.4
    } else {
        args.5
    }
}

impl SyscallArgs {
    /// The argument at `index`; only the six positions exist.
    pub fn index(&self, index: usize) -> (r: usize)
        requires
            index < 6,
        ensures
            r == spec_arg(*self, index as int),
    {
        if index == 0 {
            self.0
        } else if index == 1 {
            self.1
        } else if index == 2 {
            self.2
        } else if index == 3 {
            self.3
        } else if index == 4 {
            self.4
        } else {
            self.5
        }
    }

    /// The argument at `index`, or nothing when the position is out of the
    /// six that exist.
    pub fn get(&self, index: usize) -> (r: Option<usize>)
        ensures
            index < 6 ==> r == Some(spec_arg(*self, index as int)),
            index >= 6 ==> r is None,
    {
        if index < 6 {
            Some(self.index(index))
        } else {
            None
        }
    }
}

/// The per-CPU scratch block published through `KernelGsBase`: a slot for
/// the interrupted user stack pointer and the kernel stack to switch to.
#[derive(Clone, Copy, Debug, PartialEq, Eq, Hash, Structural)]
pub struct GSVars {
    /// Where the trampoline parks the user stack pointer.
    pub user_stack_scratch: usize,
    /// The kernel stack top loaded on entry.
    pub kernel_stack: usize,
}

impl GSVars {
    /// The block before initialization: both slots zero.
    pub fn new_uninit() -> (r: Self)
        ensures
            r == (GSVars { user_stack_scratch: 0, kernel_stack: 0 }),
    {
        GSVars { user_stack_scratch: 0, kernel_stack: 0 }
    }

    /// Points the kernel stack slot at the top of a dedicated stack.
    pub fn init(&mut self, stack_base: usize)
        requires
            stack_base + STACK_SIZE <= usize::MAX,
        ensures
            final(self).kernel_stack == stack_base + STACK_SIZE,
            final(self).user_stack_scratch == old(self).user_stack_scratch,
    {
        self.kernel_stack = stack_base + STACK_SIZE;
    }
}

/// Handles one system call. No calls are defined beyond the dispatch shape,
/// so every call returns zero in the result register.
pub fn syscall_handler(args: &SyscallArgs, number: usize) -> (r: usize)
    ensures
        r == 0,
{
    0
}

} // verus!
