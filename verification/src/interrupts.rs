//! Interrupt plumbing decisions: the legacy PIC programming sequence, the
//! timer reload, end-of-interrupt routing, and the dispatch rules of the
//! general interrupt handler.
use vstd::prelude::*;

verus! {

/// The vector base the master PIC is remapped to.
pub const PIC_OFFSET: u8 = 0x20;

/// The 16-bit reload value programmed into PIT channel 0 (about 1 kHz).
pub const PIT_RELOAD: u16 = 1193;

/// Picoseconds of elapsed time per PIT tick at the programmed reload.
pub const PIT_PS_TICK_STEP: u64 = 999847619;

/// The legacy IRQ lines behind the two 8259 PICs.
#[derive(Clone, Copy, Debug, PartialEq, Eq, Hash, Structural)]
pub enum PicInterrupt {
    /// IRQ 0: the programmable interval timer.
    Timer,
    /// IRQ 1: the PS/2 keyboard.
    Keyboard,
    /// IRQ 2: the cascade line; never delivered.
    Cascade,
    /// IRQ 3.
    Com2,
    /// IRQ 4.
    Com1,
    /// IRQ 5.
    Lpt2,
    /// IRQ 6.
    Floppy,
    /// IRQ 7.
    Lpt1,
    /// IRQ 8: the CMOS real-time clock.
    Cmos,
    /// IRQ 9.
    Free1,
    /// IRQ 10.
    Free2,
    /// IRQ 11.
    Free3,
    /// IRQ 12: the PS/2 mouse.
    Mouse,
    /// IRQ 13.
    Processor,
    /// IRQ 14.
    PrimaryAta,
    /// IRQ 15.
    SecondaryAta,
}

/// The line number of an IRQ, 0 through 15.
pub open spec fn spec_irq_number(irq: PicInterrupt) -> u8 {
    match irq {
        PicInterrupt::Timer => 0,
        PicInterrupt::Keyboard => 1,
        PicInterrupt::Cascade => 2,
        PicInterrupt::Com2 => 3,
        PicInterrupt::Com1 => 4,
        PicInterrupt::Lpt2 => 5,
        PicInterrupt::Floppy => 6,
        PicInterrupt::Lpt1 => 7,
        PicInterrupt::Cmos => 8,
        PicInterrupt::Free1 => 9,
        PicInterrupt::Free2 => 10,
        PicInterrupt::Free3 => 11,
        PicInterrupt::Mouse => 12,
        PicInterrupt::Processor => 13,
        PicInterrupt::PrimaryAta => 14,
        PicInterrupt::SecondaryAta => 15,
    }
}

/// The IRQ delivered on an interrupt vector, when the vector lies in the
/// PIC's remapped range.
pub open spec fn spec_irq_of_vector(vector: u8) -> Option<PicInterrupt> {
    if vector == 0x20 {
        Some(PicInterrupt::Timer)
    } else if vector == 0x21 {
        Some(PicInterrupt::Keyboard)
    } else if vector == 0x22 {
        Some(PicInterrupt::Cascade)
    } else if vector == 0x23 {
        Some(PicInterrupt::Com2)
    } else if vector == 0x24 {
        Some(PicInterrupt::Com1)
    } else if vector == 0x25 {
        Some(PicInterrupt::Lpt2)
    } else if vector == 0x26 {
        Some(PicInterrupt::Floppy)
    } else if vector == 0x27 {
        Some(PicInterrupt::Lpt1)
    } else if vector == 0x28 {
        Some(PicInterrupt::Cmos)
    } else if vector == 0x29 {
        Some(PicInterrupt::Free1)
    } else if vector == 0x2a {
        Some(PicInterrupt::Free2)
    } else if vector == 0x2b {
        Some(PicInterrupt::Free3)
    } else if vector == 0x2c {
        Some(PicInterrupt::Mouse)
    } else if vector == 0x2d {
        Some(PicInterrupt::Processor)
    } else if vector == 0x2e {
        Some(PicInterrupt::PrimaryAta)
    } else if vector == 0x2f {
        Some(PicInterrupt::SecondaryAta)
    } else {
        None
    }
}

impl PicInterrupt {
    /// The line number of the IRQ.
    pub fn number(&self) -> (r: u8)
        ensures
            r == spec_irq_number(*self),
    {
        match *self {
            PicInterrupt::Timer => 0,
            PicInterrupt::Keyboard => 1,
            PicInterrupt::Cascade => 2,
            PicInterrupt::Com2 => 3,
            PicInterrupt::Com1 => 4,
            PicInterrupt::Lpt2 => 5,
            PicInterrupt::Floppy => 6,
            PicInterrupt::Lpt1 => 7,
            PicInterrupt::Cmos => 8,
            PicInterrupt::Free1 => 9,
            PicInterrupt::Free2 => 10,
            PicInterrupt::Free3 => 11,
            PicInterrupt::Mouse => 12,
            PicInterrupt::Processor => 13,
            PicInterrupt::PrimaryAta => 14,
            PicInterrupt::SecondaryAta => 15,
        }
    }

    /// Recognizes the IRQ behind an interrupt vector: exactly the vectors
    /// 0x20 through 0x2f name an IRQ.
    pub fn try_from(vector: u8) -> (r: Result<PicInterrupt, ()>)
        ensures
            match spec_irq_of_vector(vector) {
                Some(irq) => r == Ok::<PicInterrupt, ()>(irq),
                None => r == Err::<PicInterrupt, ()>(()),
            },
    {
        if vector < 0x20 || vector >= 0x30 {
            Err(())
        } else {
            let line = vector - 0x20;
            Ok(
                if line == 0 {
                    PicInterrupt::Timer
                } else if line == 1 {
                    PicInterrupt::Keyboard
                } else if line == 2 {
                    PicInterrupt::Cascade
                } else if line == 3 {
                    PicInterrupt::Com2
                } else if line == 4 {
                    PicInterrupt::Com1
                } else if line == 5 {
                    PicInterrupt::Lpt2
                } else if line == 6 {
                    PicInterrupt::Floppy
                } else if line == 7 {
                    PicInterrupt::Lpt1
                } else if line == 8 {
                    PicInterrupt::Cmos
                } else if line == 9 {
                    PicInterrupt::Free1
                } else if line == 10 {
                    PicInterrupt::Free2
                } else if line == 11 {
                    PicInterrupt::Free3
                } else if line == 12 {
                    PicInterrupt::Mouse
                } else if line == 13 {
                    PicInterrupt::Processor
                } else if line == 14 {
                    PicInterrupt::PrimaryAta
                } else {
                    PicInterrupt::SecondaryAta
                },
            )
        }
    }
}

/// A scoped end-of-interrupt obligation: created at interrupt entry, and
/// discharged by writing end-of-interrupt to the PICs that `eoi_targets`
/// names for its IRQ.
#[derive(Clone, Copy, Debug, PartialEq, Eq, Hash, Structural)]
pub struct PicEnd {
    /// The IRQ being serviced.
    pub irq: PicInterrupt,
}

impl PicEnd {
    /// Records the IRQ whose end must be signalled.
    pub fn new(irq: PicInterrupt) -> (r: Self)
        ensures
            r.irq == irq,
    {
        PicEnd { irq }
    }
}

/// Which PICs receive the end-of-interrupt byte for an IRQ: always the
/// master, and also the slave for lines eight and up.
pub fn eoi_targets(irq: PicInterrupt) -> (r: (bool, bool))
    ensures
        r.0 == true,
        r.1 == (spec_irq_number(irq) >= 8),
{
    (true, irq.number() >= 8)
}

/// The bytes written, in order, to program the two 8259 PICs and PIT
/// channel 0: the standard four-word initialization of each PIC with an
/// io-wait after every byte, the masks, then the PIT mode and reload.
pub fn pic_init_sequence() -> (r: Vec<(u16, u8)>)
    ensures
        r@ == seq![
            (0x20u16, 0x11u8),
            (0x80u16, 0u8),
            (0xa0u16, 0x11u8),
            (0x80u16, 0u8),
            (0x21u16, 0x20u8),
            (0x80u16, 0u8),
            (0xa1u16, 0x28u8),
            (0x80u16, 0u8),
            (0x21u16, 0x04u8),
            (0x80u16, 0u8),
            (0xa1u16, 0x02u8),
            (0x80u16, 0u8),
            (0x21u16, 0x01u8),
            (0x80u16, 0u8),
            (0xa1u16, 0x01u8),
            (0x80u16, 0u8),
            (0x21u16, 0xe0u8),
            (0xa1u16, 0x2eu8),
            (0x43u16, 0x36u8),
            (0x40u16, 0xa9u8),
            (0x40u16, 0x04u8),
        ],
{
    let mut writes: Vec<(u16, u8)> = Vec::new();
    writes.push((0x20, 0x11));
    writes.push((0x80, 0));
    writes.push((0xa0, 0x11));
    writes.push((0x80, 0));
    writes.push((0x21, 0x20));
    writes.push((0x80, 0));
    writes.push((0xa1, 0x28));
    writes.push((0x80, 0));
    writes.push((0x21, 0x04));
    writes.push((0x80, 0));
    writes.push((0xa1, 0x02));
    writes.push((0x80, 0));
    writes.push((0x21, 0x01));
    writes.push((0x80, 0));
    writes.push((0xa1, 0x01));
    writes.push((0x80, 0));
    writes.push((0x21, 0xe0));
    writes.push((0xa1, 0x2e));
    writes.push((0x43, 0x36));
    writes.push((0x40, 0xa9));
    writes.push((0x40, 0x04));
    proof {
        assert(writes@ =~= seq![
            (0x20u16, 0x11u8),
            (0x80u16, 0u8),
            (0xa0u16, 0x11u8),
            (0x80u16, 0u8),
            (0x21u16, 0x20u8),
            (0x80u16, 0u8),
            (0xa1u16, 0x28u8),
            (0x80u16, 0u8),
            (0x21u16, 0x04u8),
            (0x80u16, 0u8),
            (0xa1u16, 0x02u8),
            (0x80u16, 0u8),
            (0x21u16, 0x01u8),
            (0x80u16, 0u8),
            (0xa1u16, 0x01u8),
            (0x80u16, 0u8),
            (0x21u16, 0xe0u8),
            (0xa1u16, 0x2eu8),
            (0x43u16, 0x36u8),
            (0x40u16, 0xa9u8),
            (0x40u16, 0x04u8),
        ]);
    }
    writes
}

/// What the general interrupt handler decides to do.
#[derive(Clone, Copy, Debug, PartialEq, Eq, Hash, Structural)]
pub enum IntAction {
    /// A ring-0 page fault: fatal, reported with its error code.
    PanicPageFault {
        /// The error code the CPU pushed.
        error_code: u64,
    },
    /// Any other ring-0 CPU exception: fatal.
    PanicException {
        /// The exception vector.
        vector: u8,
    },
    /// An IRQ: dispatched to the PIC interrupt path.
    PicIrq {
        /// The IRQ line.
        irq: PicInterrupt,
        /// Whether the interrupted code ran in ring 0.
        kernel: bool,
    },
    /// A vector outside every known set: fatal.
    PanicUnexpected {
        /// The offending vector.
        vector: u8,
    },
    /// A ring-3 CPU exception: logged and survived.
    LogUserException {
        /// The exception vector.
        vector: u8,
    },
}

/// What the general handler does for a vector: spelled out so the decision
/// can be read beside the dispatch table it implements.
pub open spec fn spec_handler_action(rpl: u8, vector: u8, error_code: Option<u64>) -> IntAction {
    if rpl == 0 {
        if vector < 32 {
            if vector == 14 {
                IntAction::PanicPageFault { error_code: error_code->0 }
            } else {
                IntAction::PanicException { vector }
            }
        } else {
            match spec_irq_of_vector(vector) {
                Some(irq) => IntAction::PicIrq { irq, kernel: true },
                None => IntAction::PanicUnexpected { vector },
            }
        }
    } else if rpl == 3 {
        if vector < 32 {
            IntAction::LogUserException { vector }
        } else {
            match spec_irq_of_vector(vector) {
                Some(irq) => IntAction::PicIrq { irq, kernel: false },
                None => IntAction::PanicUnexpected { vector },
            }
        }
    } else {
        IntAction::PanicUnexpected { vector }
    }
}

/// Decides what the general interrupt handler does, from the privilege
/// level of the interrupted code segment, the vector, and the error code
/// the CPU pushed, if any.
pub fn handler_action(rpl: u8, vector: u8, error_code: Option<u64>) -> (r: IntAction)
    requires
        rpl == 0 && vector == 14 ==> error_code is Some,
    ensures
        r == spec_handler_action(rpl, vector, error_code),
{
    if rpl == 0 {
        if vector < 32 {
            if vector == 14 {
                let ec = match error_code {
                    Some(ec) => ec,
                    None => vstd::pervasive::unreached(),
                };
                IntAction::PanicPageFault { error_code: ec }
            } else {
                IntAction::PanicException { vector }
            }
        } else {
            match PicInterrupt::try_from(vector) {
                Ok(irq) => IntAction::PicIrq { irq, kernel: true },
                Err(_) => IntAction::PanicUnexpected { vector },
            }
        }
    } else if rpl == 3 {
        if vector < 32 {
            IntAction::LogUserException { vector }
        } else {
            match PicInterrupt::try_from(vector) {
                Ok(irq) => IntAction::PicIrq { irq, kernel: false },
                Err(_) => IntAction::PanicUnexpected { vector },
            }
        }
    } else {
        IntAction::PanicUnexpected { vector }
    }
}

/// What the PIC interrupt path does for one IRQ.
#[derive(Clone, Copy, Debug, PartialEq, Eq, Hash, Structural)]
pub enum IrqAction {
    /// The timer fired: advance the clock by one tick.
    Tick,
    /// The keyboard has a byte: hand it to the PS/2 module.
    Keyboard,
    /// A line nothing handles yet: fatal, never silently dropped.
    Unhandled,
}

/// Routes one IRQ: the timer ticks the clock, the keyboard goes to its
/// module, and every other line is fatal rather than silently dropped.
pub fn pic_irq_action(irq: PicInterrupt) -> (r: IrqAction)
    ensures
        irq == PicInterrupt::Timer ==> r == IrqAction::Tick,
        irq == PicInterrupt::Keyboard ==> r == IrqAction::Keyboard,
        irq != PicInterrupt::Timer && irq != PicInterrupt::Keyboard ==> r == IrqAction::Unhandled,
{
    match irq {
        PicInterrupt::Timer => IrqAction::Tick,
        PicInterrupt::Keyboard => IrqAction::Keyboard,
        _ => IrqAction::Unhandled,
    }
}


/// Whether the CPU pushes an error word for a vector: exactly the double
/// fault, the TSS, segment, stack and protection faults, the page fault,
/// the alignment check, the control-protection fault and the two
/// virtualization faults.
pub fn vector_pushes_error_code(vector: u8) -> (r: bool)
    ensures
        r == (vector == 8 || vector == 10 || vector == 11 || vector == 12 || vector == 13
            || vector == 14 || vector == 17 || vector == 21 || vector == 29 || vector == 30),
{
    vector == 8 || vector == 10 || vector == 11 || vector == 12 || vector == 13 || vector == 14
        || vector == 17 || vector == 21 || vector == 29 || vector == 30
}

/// How one interrupt descriptor is configured beyond its handler address.
#[derive(Clone, Copy, Debug, PartialEq, Eq, Hash, Structural)]
pub struct IdtEntryConfig {
    /// The privilege level allowed to raise the vector from software.
    pub privilege_level: u8,
    /// The interrupt-stack-table slot the CPU switches to, if any.
    pub stack_index: Option<u8>,
}

/// The per-entry layout of the interrupt table: the breakpoint vector may
/// be raised from ring 3, the double fault runs on the first interrupt
/// stack, and every other entry keeps the defaults.
pub fn idt_entry_options(vector: u8) -> (r: IdtEntryConfig)
    ensures
        vector == 3 ==> r == (IdtEntryConfig {
            privilege_level: 3,
            stack_index: None::<u8>,
        }),
        vector == 8 ==> r == (IdtEntryConfig {
            privilege_level: 0,
            stack_index: Some(0u8),
        }),
        vector != 3 && vector != 8 ==> r == (IdtEntryConfig {
            privilege_level: 0,
            stack_index: None::<u8>,
        }),
{
    if vector == 3 {
        IdtEntryConfig { privilege_level: 3, stack_index: None }
    } else if vector == 8 {
        IdtEntryConfig { privilege_level: 0, stack_index: Some(0) }
    } else {
        IdtEntryConfig { privilege_level: 0, stack_index: None }
    }
}


} // verus!
