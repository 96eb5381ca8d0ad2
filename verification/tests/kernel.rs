use evkrnl::descriptors::{KCS, KDS, SegmentSelector, TSS, UCS, UDS, gdt_layout};
use evkrnl::ffi::FFIStr;
use evkrnl::interrupts::{
    IntAction, IrqAction, PIT_PS_TICK_STEP, PIT_RELOAD, PicEnd, PicInterrupt, eoi_targets,
    handler_action, pic_init_sequence, pic_irq_action,
};
use evkrnl::modules::{LateRegistry, Module, ModuleMetadata, MODULE_CAPACITY, init, register};
use evkrnl::pci::{
    Bar, OwningPciDeviceIterator, Pci, PciDevice, PciRegistry, decode_bars, pci_scan_emit,
    pci_scan_step,
};
use evkrnl::fault::{PanicAction, panic_step};
use evkrnl::interrupts::{idt_entry_options, vector_pushes_error_code};
use evkrnl::syscalls::{GSVars, STACK_SIZE, SyscallArgs, syscall_handler};
use evkrnl::virt::{BigHeapAction, HEAP_BLOCK_SIZE, HEAP_VIRT_BASE, big_heap_grow_step};

fn module(name: &str, ok: bool) -> Module {
    Module {
        metadata: ModuleMetadata {
            name: FFIStr::from(name),
            version_string: FFIStr::from("0.1.0"),
        },
        init_ok: ok,
    }
}

#[test]
fn module_failure_isolation() {
    // A single static module whose initialization fails: the tally reads
    // (0, 1) and initialization itself returns normally.
    let modules = vec![module("sata", false)];
    assert_eq!(init(&modules), (0, 1));
    let mixed = vec![module("ps2", true), module("sata", false), module("net", true)];
    assert_eq!(init(&mixed), (2, 3));
    assert_eq!(init(&Vec::new()), (0, 0));
}

#[test]
fn late_registry_keeps_successes_up_to_capacity() {
    let mut registry = LateRegistry::new();
    assert!(register(&mut registry, module("ok", true)));
    assert!(!register(&mut registry, module("bad", false)));
    assert_eq!(registry.len(), 1);
    for i in 0..MODULE_CAPACITY - 1 {
        assert!(register(&mut registry, module(&format!("m{}", i), true)));
    }
    assert_eq!(registry.len(), MODULE_CAPACITY);
    assert!(!register(&mut registry, module("overflow", true)));
    assert_eq!(registry.len(), MODULE_CAPACITY);
}

#[test]
fn module_metadata_round_trip() {
    let m = module("ps2", true);
    assert_eq!(m.metadata.name.as_str(), "ps2");
    assert_eq!(m.metadata.version_string.as_str(), "0.1.0");
}

#[test]
fn selectors_are_fixed() {
    assert_eq!(KCS, 8);
    assert_eq!(KDS, 16);
    assert_eq!(UDS, 27);
    assert_eq!(UCS, 35);
    assert_eq!(TSS, 40);
    let layout = gdt_layout();
    let raws: Vec<u16> = layout.iter().map(|s| s.raw).collect();
    assert_eq!(raws, vec![8, 16, 27, 35, 40]);
    assert_eq!(SegmentSelector::new(3, 3).raw, 27);
}

#[test]
fn pic_programming_sequence() {
    let writes = pic_init_sequence();
    assert_eq!(writes.len(), 21);
    // The initialization words of both controllers, with io-waits between.
    assert_eq!(writes[0], (0x20, 0x11));
    assert_eq!(writes[2], (0xa0, 0x11));
    assert_eq!(writes[4], (0x21, 0x20));
    assert_eq!(writes[6], (0xa1, 0x28));
    // The masks.
    assert_eq!(writes[16], (0x21, 0b1110_0000));
    assert_eq!(writes[17], (0xa1, 0b0010_1110));
    // PIT channel 0, mode 3, and the reload in two bytes.
    assert_eq!(writes[18], (0x43, 0b0011_0110));
    assert_eq!(writes[19], (0x40, (PIT_RELOAD & 0xff) as u8));
    assert_eq!(writes[20], (0x40, (PIT_RELOAD >> 8) as u8));
    assert_eq!(PIT_PS_TICK_STEP, 999_847_619);
}

#[test]
fn eoi_reaches_the_right_pics() {
    assert_eq!(eoi_targets(PicInterrupt::Timer), (true, false));
    assert_eq!(eoi_targets(PicInterrupt::Lpt1), (true, false));
    assert_eq!(eoi_targets(PicInterrupt::Cmos), (true, true));
    assert_eq!(eoi_targets(PicInterrupt::SecondaryAta), (true, true));
    let guard = PicEnd::new(PicInterrupt::Timer);
    assert_eq!(guard.irq, PicInterrupt::Timer);
}

#[test]
fn handler_dispatch_table() {
    // Ring 0 page fault panics with CR2 context.
    assert_eq!(
        handler_action(0, 14, Some(2)),
        IntAction::PanicPageFault { error_code: 2 }
    );
    // Other ring 0 exceptions panic.
    assert_eq!(handler_action(0, 6, None), IntAction::PanicException { vector: 6 });
    // Ring 0 IRQ goes to the PIC path as kernel.
    assert_eq!(
        handler_action(0, 0x20, None),
        IntAction::PicIrq { irq: PicInterrupt::Timer, kernel: true }
    );
    // Ring 3 exceptions are logged, not fatal.
    assert_eq!(handler_action(3, 13, None), IntAction::LogUserException { vector: 13 });
    // Ring 3 IRQ goes to the PIC path as user.
    assert_eq!(
        handler_action(3, 0x21, None),
        IntAction::PicIrq { irq: PicInterrupt::Keyboard, kernel: false }
    );
    // Vectors outside every known set panic.
    assert_eq!(handler_action(0, 0x80, None), IntAction::PanicUnexpected { vector: 0x80 });
    assert_eq!(handler_action(1, 0x20, None), IntAction::PanicUnexpected { vector: 0x20 });
}

#[test]
fn irq_routing() {
    assert_eq!(pic_irq_action(PicInterrupt::Timer), IrqAction::Tick);
    assert_eq!(pic_irq_action(PicInterrupt::Keyboard), IrqAction::Keyboard);
    assert_eq!(pic_irq_action(PicInterrupt::Com1), IrqAction::Unhandled);
    assert_eq!(pic_irq_action(PicInterrupt::PrimaryAta), IrqAction::Unhandled);
    assert_eq!(PicInterrupt::try_from(0x2f), Ok(PicInterrupt::SecondaryAta));
    assert_eq!(PicInterrupt::try_from(0x1f), Err(()));
    assert_eq!(PicInterrupt::try_from(0x30), Err(()));
    assert_eq!(PicInterrupt::Mouse.number(), 12);
}

#[test]
fn syscall_surface() {
    let args = SyscallArgs(10, 11, 12, 13, 14, 15);
    for i in 0..6 {
        assert_eq!(args.index(i), 10 + i);
        assert_eq!(args.get(i), Some(10 + i));
    }
    assert_eq!(args.get(6), None);
    assert_eq!(syscall_handler(&args, 0), 0);
    assert_eq!(syscall_handler(&args, 7777), 0);
    let mut gs = GSVars::new_uninit();
    assert_eq!(gs.kernel_stack, 0);
    gs.init(0x1000);
    assert_eq!(gs.kernel_stack, 0x1000 + STACK_SIZE);
}

#[test]
fn pci_config_addressing() {
    assert_eq!(Pci::config_address(0, 0, 0, 0), 0x8000_0000);
    assert_eq!(Pci::config_address(1, 2, 3, 0x0a), 0x8001_1308);
    // The odd half-word is selected by bit 1 of the offset.
    assert_eq!(Pci::extract_config_word(0xdead_beef, 0), 0xbeef);
    assert_eq!(Pci::extract_config_word(0xdead_beef, 2), 0xdead);
    assert_eq!(Pci::merge_config_word(0xffff_ffff, 0x0004, 4), 0xffff_ff04);
    assert_eq!(evkrnl::pci::class_of(0x0106), (0x01, 0x06));
    assert_eq!(evkrnl::pci::prog_if_of(0x0102), 0x01);
    assert_eq!(evkrnl::pci::revision_of(0x0102), 0x02);
    assert_eq!(evkrnl::pci::bist_of(0x8000), 0x80);
}

#[test]
fn pci_bus_walk_steps() {
    // A single-function device: the walk moves to the next slot.
    assert_eq!(pci_scan_step(0, 0, 0, true, false), (0, 1, 0));
    // A multi-function device: the walk descends into its functions.
    assert_eq!(pci_scan_step(0, 0, 0, true, true), (0, 0, 1));
    assert_eq!(pci_scan_step(0, 0, 7, true, true), (0, 1, 0));
    // The last slot wraps into the next bus.
    assert_eq!(pci_scan_step(5, 31, 0, false, false), (6, 0, 0));
    assert!(pci_scan_emit(true, 1));
    assert!(!pci_scan_emit(true, 6));
    assert!(!pci_scan_emit(false, 1));
}

#[test]
fn bar_decoding() {
    // Slot 0: an I/O region at port 0xe000 spanning 8 ports.
    // Slot 1: a 32-bit memory region of 4 KiB at 0xfebf0000.
    // Slot 2+3: a 64-bit memory region of 8 KiB.
    // Slot 4: unimplemented. Slot 5: unimplemented.
    let probes = vec![
        (0xe001u32, 0xffff_fff9u32),
        (0xfebf_0000u32, 0xffff_f000u32),
        (0xc000_0004u32, 0xffff_e004u32),
        (0x0000_0001u32, 0xffff_ffffu32),
        (0u32, 0u32),
        (0u32, 0u32),
    ];
    let bars = decode_bars(&probes);
    assert_eq!(bars.len(), 6);
    assert_eq!(bars[0], Some(Bar::Port { base: 0xe000, len: 8 }));
    assert_eq!(bars[1], Some(Bar::Memory { data: 0xfebf_0000, len: 0x1000 }));
    assert_eq!(bars[2], None);
    assert_eq!(
        bars[3],
        Some(Bar::Memory {
            data: 0x1_c000_0000,
            len: 0x2000,
        })
    );
    assert_eq!(bars[4], None);
    assert_eq!(bars[5], None);
    // Port lookup honors the region bounds.
    let port = Bar::Port { base: 0xe000, len: 8 };
    assert_eq!(port.port(3), Some(Ok(0xe003)));
    assert_eq!(port.port(8), Some(Err(())));
    assert_eq!(Bar::Memory { data: 0, len: 4096 }.port(0), None);
}

#[test]
fn pci_registry_claims_by_class() {
    let devices = vec![
        (PciDevice { bus: 0, slot: 1, func: 0 }, 0x01, 0x06),
        (PciDevice { bus: 0, slot: 2, func: 0 }, 0x03, 0x00),
        (PciDevice { bus: 0, slot: 3, func: 0 }, 0x01, 0x06),
    ];
    let mut registry = PciRegistry::from_devices(&devices);
    assert_eq!(registry.len(), 3);
    let mut sata = OwningPciDeviceIterator::own_by_class(0x01, 0x06);
    assert_eq!(
        sata.next(&mut registry),
        Some(PciDevice { bus: 0, slot: 1, func: 0 })
    );
    assert_eq!(
        sata.next(&mut registry),
        Some(PciDevice { bus: 0, slot: 3, func: 0 })
    );
    assert_eq!(sata.next(&mut registry), None);
    // A second driver of the same class finds everything claimed.
    let mut again = OwningPciDeviceIterator::own_by_class(0x01, 0x06);
    assert_eq!(again.next(&mut registry), None);
}

#[test]
fn panic_discipline() {
    // First panic: report and halt, marking the first flag.
    assert_eq!(panic_step(false, false), (PanicAction::ReportAndHalt, true, false));
    // A panic while reporting: the second message, once.
    assert_eq!(panic_step(true, false), (PanicAction::ReportDoubleAndHalt, true, true));
    // Any further entry halts silently.
    assert_eq!(panic_step(true, true), (PanicAction::HaltSilently, true, true));
}

#[test]
fn idt_entry_layout() {
    // The breakpoint may be raised from ring 3; the double fault runs on
    // the first interrupt stack; everything else keeps the defaults.
    assert_eq!(idt_entry_options(3).privilege_level, 3);
    assert_eq!(idt_entry_options(3).stack_index, None);
    assert_eq!(idt_entry_options(8).privilege_level, 0);
    assert_eq!(idt_entry_options(8).stack_index, Some(0));
    assert_eq!(idt_entry_options(14).privilege_level, 0);
    assert_eq!(idt_entry_options(14).stack_index, None);
}

#[test]
fn big_heap_growth() {
    // A successful fit is used as is.
    assert_eq!(big_heap_grow_step(true, HEAP_VIRT_BASE, 0), BigHeapAction::UseFit);
    // A failed fit grows the heap by one block directly above it.
    assert_eq!(
        big_heap_grow_step(false, HEAP_VIRT_BASE, HEAP_BLOCK_SIZE as u64),
        BigHeapAction::Extend { new_bottom: HEAP_VIRT_BASE + HEAP_BLOCK_SIZE as u64 }
    );
    // The block that would end at the top of the address space is refused.
    let last = 0u64.wrapping_sub(HEAP_BLOCK_SIZE as u64);
    assert_eq!(big_heap_grow_step(false, last, 0), BigHeapAction::OutOfMemory);
}

#[test]
fn error_code_vectors() {
    // Exactly the faults the CPU pushes an error word for.
    for v in [8u8, 10, 11, 12, 13, 14, 17, 21, 29, 30] {
        assert!(vector_pushes_error_code(v));
    }
    for v in [0u8, 3, 6, 9, 15, 16, 18, 32, 0x21, 255] {
        assert!(!vector_pushes_error_code(v));
    }
}
