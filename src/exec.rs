use vstd::prelude::*;

verus! {

/// Instructions emulated after an exit the hypervisor cannot handle itself.
pub const EMULATE_STEPS: u64 = 250;
/// Instructions emulated after a halt.
pub const HALT_STEPS: u64 = 1;
/// Instructions emulated after new coverage is observed.
pub const NEW_COVERAGE_STEPS: u64 = 100;
/// Maximum instructions emulated in one iteration.
pub const MAX_EMULATE: u64 = 1000;
/// Emulator instructions per second of wall-clock time.
pub const TARGET_IPS: u64 = 1_000_000;
/// Debug-register value that marks a snapshot-trigger breakpoint.
pub const MAGIC_BREAKPOINT_VALUE: u64 = 0x7b3c_3638;
/// Value DR6 is reset to after a debug exception (RTM bit set).
pub const DR6_CLEARED: u64 = 1u64 << 16u64;
/// RFLAGS.RF: resume without re-triggering the instruction breakpoint.
pub const RFLAGS_RF: u64 = 1u64 << 16u64;
/// RFLAGS.IF: maskable interrupts enabled.
pub const RFLAGS_IF: u64 = 1u64 << 9u64;
/// CPUID leaf 1 ECX bit for XSAVE; clearing it also hides AVX.
pub const CPUID_XSAVE_BIT: u64 = 1u64 << 26u64;
/// Exception vector of #DB.
pub const DEBUG_VECTOR: u8 = 1;

/// Reasons the hypervisor returns from running the virtual processor.
#[derive(Clone, Copy, Debug, PartialEq, Eq, Structural, Hash)]
pub enum VmExitReason {
    NoReason,
    MemoryAccess,
    IoPortAccess,
    UnrecoverableException,
    InvalidVpRegisterValue,
    UnsupportedFeature,
    InterruptWindow,
    Halt,
    ApicEoi,
    MsrAccess,
    Cpuid,
    Exception,
    Canceled,
}

impl VmExitReason {
    /// Decode the hypervisor's numeric exit reason; `None` if unknown.
    pub fn from_whvp(whvp_reason: i32) -> (r: Option<VmExitReason>)
        ensures
            r == exit_reason_of(whvp_reason),
    {
        match whvp_reason {
            0 => Some(VmExitReason::NoReason),
            1 => Some(VmExitReason::MemoryAccess),
            2 => Some(VmExitReason::IoPortAccess),
            4 => Some(VmExitReason::UnrecoverableException),
            5 => Some(VmExitReason::InvalidVpRegisterValue),
            6 => Some(VmExitReason::UnsupportedFeature),
            7 => Some(VmExitReason::InterruptWindow),
            8 => Some(VmExitReason::Halt),
            9 => Some(VmExitReason::ApicEoi),
            0x1000 => Some(VmExitReason::MsrAccess),
            0x1001 => Some(VmExitReason::Cpuid),
            0x1002 => Some(VmExitReason::Exception),
            0x2001 => Some(VmExitReason::Canceled),
            _ => None,
        }
    }

    /// Position of this reason in an exit histogram.
    pub fn index(&self) -> (r: usize)
        ensures
            r < 13,
            r == reason_index(*self),
    {
        match self {
            VmExitReason::NoReason => 0,
            VmExitReason::MemoryAccess => 1,
            VmExitReason::IoPortAccess => 2,
            VmExitReason::UnrecoverableException => 3,
            VmExitReason::InvalidVpRegisterValue => 4,
            VmExitReason::UnsupportedFeature => 5,
            VmExitReason::InterruptWindow => 6,
            VmExitReason::Halt => 7,
            VmExitReason::ApicEoi => 8,
            VmExitReason::MsrAccess => 9,
            VmExitReason::Cpuid => 10,
            VmExitReason::Exception => 11,
            VmExitReason::Canceled => 12,
        }
    }
}

pub open spec fn exit_reason_of(code: i32) -> Option<VmExitReason> {
    if code == 0 {
        Some(VmExitReason::NoReason)
    } else if code == 1 {
        Some(VmExitReason::MemoryAccess)
    } else if code == 2 {
        Some(VmExitReason::IoPortAccess)
    } else if code == 4 {
        Some(VmExitReason::UnrecoverableException)
    } else if code == 5 {
        Some(VmExitReason::InvalidVpRegisterValue)
    } else if code == 6 {
        Some(VmExitReason::UnsupportedFeature)
    } else if code == 7 {
        Some(VmExitReason::InterruptWindow)
    } else if code == 8 {
        Some(VmExitReason::Halt)
    } else if code == 9 {
        Some(VmExitReason::ApicEoi)
    } else if code == 0x1000 {
        Some(VmExitReason::MsrAccess)
    } else if code == 0x1001 {
        Some(VmExitReason::Cpuid)
    } else if code == 0x1002 {
        Some(VmExitReason::Exception)
    } else if code == 0x2001 {
        Some(VmExitReason::Canceled)
    } else {
        None
    }
}

pub open spec fn reason_index(r: VmExitReason) -> usize {
    match r {
        VmExitReason::NoReason => 0,
        VmExitReason::MemoryAccess => 1,
        VmExitReason::IoPortAccess => 2,
        VmExitReason::UnrecoverableException => 3,
        VmExitReason::InvalidVpRegisterValue => 4,
        VmExitReason::UnsupportedFeature => 5,
        VmExitReason::InterruptWindow => 6,
        VmExitReason::Halt => 7,
        VmExitReason::ApicEoi => 8,
        VmExitReason::MsrAccess => 9,
        VmExitReason::Cpuid => 10,
        VmExitReason::Exception => 11,
        VmExitReason::Canceled => 12,
    }
}

/// A CPUID exit: the requested leaf and subleaf and the hypervisor's
/// default results.
#[derive(Clone, Copy, Debug, PartialEq, Eq)]
pub struct CpuidExit {
    pub leaf: u64,
    pub subleaf: u64,
    pub rax: u64,
    pub rbx: u64,
    pub rcx: u64,
    pub rdx: u64,
}

/// An exception exit.
#[derive(Clone, Copy, Debug, PartialEq, Eq)]
pub struct ExceptionExit {
    pub vector: u8,
    pub error_code_valid: bool,
    pub error_code: u32,
}

/// An exit from the virtual processor with what handling it needs.
#[derive(Clone, Copy, Debug, PartialEq, Eq)]
pub enum VmExit {
    NoReason,
    MemoryAccess,
    IoPortAccess,
    UnrecoverableException,
    InvalidVpRegisterValue,
    UnsupportedFeature,
    InterruptWindow,
    Halt,
    ApicEoi,
    MsrAccess,
    Cpuid(CpuidExit),
    Exception(ExceptionExit),
    Canceled,
}

/// Guest registers the exit handling reads.
#[derive(Clone, Copy, Debug, PartialEq, Eq)]
pub struct GuestRegs {
    pub rip: u64,
    pub rflags: u64,
    pub dr0: u64,
    pub dr1: u64,
    pub dr2: u64,
    pub dr3: u64,
    pub dr6: u64,
    pub dr7: u64,
    /// Length of the instruction that caused the exit.
    pub instruction_length: u8,
}

/// What the execution loop does after an exit, besides adjusting the
/// emulation counter.
#[derive(Clone, Copy, Debug, PartialEq, Eq)]
pub enum ExitAction {
    /// Nothing more: go round the loop again.
    Resume,
    /// Ask the hypervisor to exit when interrupts become deliverable.
    RequestInterruptWindow,
    /// Write these CPUID results and the advanced RIP to the guest.
    CompleteCpuid { rax: u64, rbx: u64, rcx: u64, rdx: u64, rip: u64 },
    /// Drop the pending exception and resume with these DR6 and RFLAGS.
    ClearPendingException { dr6: u64, rflags: u64 },
    /// Write DR6 and take an emulator snapshot.
    TakeSnapshot { dr6: u64 },
    /// Deliver the exception to the guest.
    ReinjectException { vector: u8, error_code: Option<u32> },
    /// The exit cannot be handled: stop with a context dump.
    Fatal,
}

/// The 4-bit vector of breakpoints enabled (locally or globally) in DR7.
pub open spec fn enabled_breakpoints(dr7: u64) -> u64 {
    (if dr7 & 0x3 != 0 { 1u64 } else { 0u64 }) | (if dr7 & 0xc != 0 { 2u64 } else { 0u64 }) | (if dr7
        & 0x30 != 0 { 4u64 } else { 0u64 }) | (if dr7 & 0xc0 != 0 { 8u64 } else { 0u64 })
}

/// Breakpoints that fired: the DR6 B0..B3 bits among the enabled ones.
pub open spec fn fired_breakpoints(dr6: u64, dr7: u64) -> u64 {
    (dr6 & 0xf) & enabled_breakpoints(dr7)
}

/// A breakpoint set at the snapshot marker fired.
pub open spec fn snapshot_triggered(g: GuestRegs) -> bool {
    let fired = fired_breakpoints(g.dr6, g.dr7);
    (fired & 1 != 0 && g.dr0 == MAGIC_BREAKPOINT_VALUE) || (fired & 2 != 0 && g.dr1
        == MAGIC_BREAKPOINT_VALUE) || (fired & 4 != 0 && g.dr2 == MAGIC_BREAKPOINT_VALUE) || (fired
        & 8 != 0 && g.dr3 == MAGIC_BREAKPOINT_VALUE)
}

/// CPUID results as the guest sees them.
pub open spec fn shaped_cpuid(c: CpuidExit) -> (u64, u64, u64, u64) {
    if c.leaf == 1 {
        (c.rax, c.rbx, c.rcx & !CPUID_XSAVE_BIT, c.rdx)
    } else {
        (c.rax, c.rbx, c.rcx, c.rdx)
    }
}

pub open spec fn add_sat(a: u64, b: u64) -> u64 {
    if a + b > u64::MAX {
        u64::MAX
    } else {
        (a + b) as u64
    }
}

/// The emulation counter and action that follow `exit`.
pub open spec fn exit_transition(emulating: u64, exit: VmExit, g: GuestRegs, snapshot_mode: bool) -> (
    u64,
    ExitAction,
) {
    match exit {
        VmExit::MemoryAccess | VmExit::IoPortAccess | VmExit::UnsupportedFeature
        | VmExit::UnrecoverableException | VmExit::MsrAccess | VmExit::InvalidVpRegisterValue => (
            add_sat(emulating, EMULATE_STEPS),
            ExitAction::Resume,
        ),
        VmExit::Halt => (add_sat(emulating, HALT_STEPS), ExitAction::Resume),
        VmExit::InterruptWindow => (emulating, ExitAction::Resume),
        VmExit::Canceled => if g.rflags & RFLAGS_IF == 0 {
            (emulating, ExitAction::RequestInterruptWindow)
        } else {
            (emulating, ExitAction::Resume)
        },
        VmExit::Cpuid(c) => {
            let (a, b, cc, d) = shaped_cpuid(c);
            (
                emulating,
                ExitAction::CompleteCpuid {
                    rax: a,
                    rbx: b,
                    rcx: cc,
                    rdx: d,
                    rip: g.rip.wrapping_add(g.instruction_length as u64),
                },
            )
        },
        VmExit::Exception(e) => if snapshot_mode {
            (emulating, ExitAction::ClearPendingException { dr6: DR6_CLEARED, rflags: g.rflags | RFLAGS_RF })
        } else if e.vector != DEBUG_VECTOR {
            (emulating, ExitAction::Fatal)
        } else if snapshot_triggered(g) {
            (emulating, ExitAction::TakeSnapshot { dr6: DR6_CLEARED })
        } else {
            (
                emulating,
                ExitAction::ReinjectException {
                    vector: e.vector,
                    error_code: if e.error_code_valid {
                        Some(e.error_code)
                    } else {
                        None
                    },
                },
            )
        },
        VmExit::NoReason | VmExit::ApicEoi => (emulating, ExitAction::Fatal),
    }
}

/// Which breakpoints are enabled in DR7, as a 4-bit vector.
pub fn enabled_breakpoint_mask(dr7: u64) -> (r: u64)
    ensures
        r == enabled_breakpoints(dr7),
{
    (if dr7 & 0x3 != 0 { 1u64 } else { 0u64 }) | (if dr7 & 0xc != 0 { 2u64 } else { 0u64 }) | (if dr7
        & 0x30 != 0 { 4u64 } else { 0u64 }) | (if dr7 & 0xc0 != 0 { 8u64 } else { 0u64 })
}

/// Whether the debug exception described by `g` is a snapshot trigger.
pub fn is_snapshot_trigger(g: &GuestRegs) -> (r: bool)
    ensures
        r == snapshot_triggered(*g),
{
    let fired = (g.dr6 & 0xf) & enabled_breakpoint_mask(g.dr7);
    (fired & 1 != 0 && g.dr0 == MAGIC_BREAKPOINT_VALUE) || (fired & 2 != 0 && g.dr1
        == MAGIC_BREAKPOINT_VALUE) || (fired & 4 != 0 && g.dr2 == MAGIC_BREAKPOINT_VALUE) || (fired
        & 8 != 0 && g.dr3 == MAGIC_BREAKPOINT_VALUE)
}

/// Apply the CPUID shaping rules to the hypervisor's default results.
pub fn shape_cpuid(c: &CpuidExit) -> (r: (u64, u64, u64, u64))
    ensures
        r == shaped_cpuid(*c),
{
    if c.leaf == 1 {
        (c.rax, c.rbx, c.rcx & !CPUID_XSAVE_BIT, c.rdx)
    } else {
        (c.rax, c.rbx, c.rcx, c.rdx)
    }
}

/// Classify an exit: the new emulation counter and the action to take.
/// `snapshot_mode` is true when running against a snapshot (fuzzing).
pub fn handle_exit(emulating: u64, exit: &VmExit, g: &GuestRegs, snapshot_mode: bool) -> (r: (
    u64,
    ExitAction,
))
    ensures
        r == exit_transition(emulating, *exit, *g, snapshot_mode),
{
    match exit {
        VmExit::MemoryAccess | VmExit::IoPortAccess | VmExit::UnsupportedFeature
        | VmExit::UnrecoverableException | VmExit::MsrAccess | VmExit::InvalidVpRegisterValue => (
            emulating.saturating_add(EMULATE_STEPS),
            ExitAction::Resume,
        ),
        VmExit::Halt => (emulating.saturating_add(HALT_STEPS), ExitAction::Resume),
        VmExit::InterruptWindow => (emulating, ExitAction::Resume),
        VmExit::Canceled => if g.rflags & RFLAGS_IF == 0 {
            (emulating, ExitAction::RequestInterruptWindow)
        } else {
            (emulating, ExitAction::Resume)
        },
        VmExit::Cpuid(c) => {
            let (a, b, cc, d) = shape_cpuid(c);
            (
                emulating,
                ExitAction::CompleteCpuid {
                    rax: a,
                    rbx: b,
                    rcx: cc,
                    rdx: d,
                    rip: g.rip.wrapping_add(g.instruction_length as u64),
                },
            )
        },
        VmExit::Exception(e) => if snapshot_mode {
            (emulating, ExitAction::ClearPendingException { dr6: DR6_CLEARED, rflags: g.rflags | RFLAGS_RF })
        } else if e.vector != DEBUG_VECTOR {
            (emulating, ExitAction::Fatal)
        } else if is_snapshot_trigger(g) {
            (emulating, ExitAction::TakeSnapshot { dr6: DR6_CLEARED })
        } else {
            (
                emulating,
                ExitAction::ReinjectException {
                    vector: e.vector,
                    error_code: if e.error_code_valid {
                        Some(e.error_code)
                    } else {
                        None
                    },
                },
            )
        },
        VmExit::NoReason | VmExit::ApicEoi => (emulating, ExitAction::Fatal),
    }
}

/// Instructions to emulate this iteration: the pending count, capped.
pub fn emulation_burst(emulating: u64) -> (r: u64)
    ensures
        r == if emulating < MAX_EMULATE {
            emulating
        } else {
            MAX_EMULATE
        },
{
    if emulating < MAX_EMULATE {
        emulating
    } else {
        MAX_EMULATE
    }
}

/// Device ticks owed for the cycles between `last_sync` and `now`, at
/// `tickrate` cycles per second. A clock that went backwards counts as no
/// time. Saturates at `u64::MAX`.
pub fn device_steps(now: u64, last_sync: u64, tickrate: u64) -> (r: u64)
    requires
        tickrate > 0,
    ensures
        r == if now <= last_sync {
            0
        } else if (now - last_sync) * TARGET_IPS / (tickrate as int) > u64::MAX {
            u64::MAX
        } else {
            ((now - last_sync) * TARGET_IPS / (tickrate as int)) as u64
        },
{
    let elapsed = now.saturating_sub(last_sync);
    let wide: u128 = (elapsed as u128) * (TARGET_IPS as u128) / (tickrate as u128);
    if wide > u64::MAX as u128 {
        u64::MAX
    } else {
        wide as u64
    }
}

/// Exit-reason frequencies.
pub struct ExitHistogram {
    counts: Vec<u64>,
}

impl ExitHistogram {
    pub closed spec fn view(&self) -> Seq<u64> {
        self.counts@
    }

    pub open spec fn wf(&self) -> bool {
        self@.len() == 13
    }

    /// All counts zero.
    pub fn new() -> (r: ExitHistogram)
        ensures
            r.wf(),
            forall|i: int| 0 <= i < 13 ==> r@[i] == 0,
    {
        ExitHistogram { counts: vec![0u64; 13] }
    }

    /// Count one exit of `reason` (saturating).
    pub fn record(&mut self, reason: VmExitReason)
        requires
            old(self).wf(),
        ensures
            final(self).wf(),
            final(self)@ == old(self)@.update(
                reason_index(reason) as int,
                add_sat(old(self)@[reason_index(reason) as int], 1),
            ),
    {
        let i = reason.index();
        let c = self.counts[i];
        self.counts.set(i, c.saturating_add(1));
    }

    /// Number of exits of `reason` seen.
    pub fn count(&self, reason: VmExitReason) -> (r: u64)
        requires
            self.wf(),
        ensures
            r == self@[reason_index(reason) as int],
    {
        self.counts[reason.index()]
    }
}

} // verus!
