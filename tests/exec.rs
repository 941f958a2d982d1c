use bochservisor::exec::{
    device_steps, emulation_burst, handle_exit, is_snapshot_trigger, shape_cpuid, CpuidExit,
    ExceptionExit, ExitAction, ExitHistogram, GuestRegs, VmExit, VmExitReason,
};

fn regs(rflags: u64) -> GuestRegs {
    GuestRegs {
        rip: 0x1000,
        rflags,
        dr0: 0,
        dr1: 0,
        dr2: 0,
        dr3: 0,
        dr6: 0,
        dr7: 0,
        instruction_length: 2,
    }
}

#[test]
fn exit_classification_sequence() {
    let mut emulating = 0u64;
    let (e, a) = handle_exit(emulating, &VmExit::MemoryAccess, &regs(0x202), false);
    assert_eq!((e, a), (250, ExitAction::Resume));
    emulating = e - emulation_burst(e);
    assert_eq!(emulating, 0);
    let (e, a) = handle_exit(emulating, &VmExit::Canceled, &regs(0x202), false);
    assert_eq!((e, a), (0, ExitAction::Resume));
    let (e, a) = handle_exit(e, &VmExit::Canceled, &regs(0x2), false);
    assert_eq!((e, a), (0, ExitAction::RequestInterruptWindow));
    let (e, a) = handle_exit(e, &VmExit::Halt, &regs(0x2), false);
    assert_eq!((e, a), (1, ExitAction::Resume));
}

#[test]
fn other_exits() {
    for exit in [
        VmExit::IoPortAccess,
        VmExit::UnsupportedFeature,
        VmExit::UnrecoverableException,
        VmExit::MsrAccess,
        VmExit::InvalidVpRegisterValue,
    ] {
        assert_eq!(handle_exit(10, &exit, &regs(0), false), (260, ExitAction::Resume));
    }
    assert_eq!(handle_exit(10, &VmExit::InterruptWindow, &regs(0), false), (10, ExitAction::Resume));
    assert_eq!(handle_exit(10, &VmExit::NoReason, &regs(0), false), (10, ExitAction::Fatal));
    assert_eq!(handle_exit(10, &VmExit::ApicEoi, &regs(0), false), (10, ExitAction::Fatal));
    assert_eq!(handle_exit(u64::MAX, &VmExit::MemoryAccess, &regs(0), false).0, u64::MAX);
}

#[test]
fn snapshot_trigger_on_magic_breakpoint() {
    let mut g = regs(0x202);
    g.dr0 = 0x7B3C3638;
    g.dr7 = 1;
    g.dr6 = 1;
    assert!(is_snapshot_trigger(&g));
    let exit = VmExit::Exception(ExceptionExit { vector: 1, error_code_valid: false, error_code: 0 });
    assert_eq!(handle_exit(0, &exit, &g, false), (0, ExitAction::TakeSnapshot { dr6: 1 << 16 }));
    // Not a marker: the exception goes back to the guest.
    g.dr0 = 0x1234;
    assert_eq!(
        handle_exit(0, &exit, &g, false),
        (0, ExitAction::ReinjectException { vector: 1, error_code: None })
    );
    // Breakpoint not enabled.
    g.dr0 = 0x7B3C3638;
    g.dr7 = 0;
    assert!(!is_snapshot_trigger(&g));
    // In snapshot mode the exception is dropped.
    assert_eq!(
        handle_exit(5, &exit, &g, true),
        (5, ExitAction::ClearPendingException { dr6: 1 << 16, rflags: 0x202 | (1 << 16) })
    );
    let gp = VmExit::Exception(ExceptionExit { vector: 13, error_code_valid: true, error_code: 0 });
    assert_eq!(handle_exit(0, &gp, &g, false), (0, ExitAction::Fatal));
}

#[test]
fn cpuid_shaping() {
    let c = CpuidExit { leaf: 1, subleaf: 0, rax: 1, rbx: 2, rcx: u64::MAX, rdx: 4 };
    assert_eq!(shape_cpuid(&c), (1, 2, !(1u64 << 26), 4));
    let c7 = CpuidExit { leaf: 7, ..c };
    assert_eq!(shape_cpuid(&c7), (1, 2, u64::MAX, 4));
    assert_eq!(
        handle_exit(3, &VmExit::Cpuid(c), &regs(0), false),
        (3, ExitAction::CompleteCpuid { rax: 1, rbx: 2, rcx: !(1u64 << 26), rdx: 4, rip: 0x1002 })
    );
}

#[test]
fn bursts_and_device_time() {
    assert_eq!(emulation_burst(250), 250);
    assert_eq!(emulation_burst(5000), 1000);
    assert_eq!(device_steps(3_000_000_000, 1_000_000_000, 2_000_000_000), 1_000_000);
    assert_eq!(device_steps(5, 10, 100), 0);
    assert_eq!(device_steps(u64::MAX, 0, 1), u64::MAX);
}

#[test]
fn exit_reasons_and_histogram() {
    assert_eq!(VmExitReason::from_whvp(1), Some(VmExitReason::MemoryAccess));
    assert_eq!(VmExitReason::from_whvp(0x2001), Some(VmExitReason::Canceled));
    assert_eq!(VmExitReason::from_whvp(0x1002), Some(VmExitReason::Exception));
    assert_eq!(VmExitReason::from_whvp(3), None);
    let mut h = ExitHistogram::new();
    h.record(VmExitReason::Halt);
    h.record(VmExitReason::Halt);
    h.record(VmExitReason::Cpuid);
    assert_eq!(h.count(VmExitReason::Halt), 2);
    assert_eq!(h.count(VmExitReason::Cpuid), 1);
    assert_eq!(h.count(VmExitReason::Canceled), 0);
}
