use vstd::prelude::*;
use crate::exec::GuestRegs;

verus! {

/// Number of registers in a full processor context.
pub const CONTEXT_REGS: usize = 79;

/// Positions of registers in the context, in the order they are synced.
pub const REG_RAX: usize = 0;
pub const REG_RCX: usize = 1;
pub const REG_RDX: usize = 2;
pub const REG_RBX: usize = 3;
pub const REG_RSP: usize = 4;
pub const REG_RIP: usize = 16;
pub const REG_RFLAGS: usize = 17;
pub const REG_CS: usize = 19;
pub const REG_GS: usize = 23;
pub const REG_CR3: usize = 30;
pub const REG_DR0: usize = 33;
pub const REG_DR1: usize = 34;
pub const REG_DR2: usize = 35;
pub const REG_DR3: usize = 36;
pub const REG_DR6: usize = 37;
pub const REG_DR7: usize = 38;
pub const REG_EFER: usize = 66;
/// XCR0 is last so that it can be left out when XSAVE is unsupported.
pub const REG_XCR0: usize = 78;

/// EFER.LMA: long mode active.
pub const EFER_LMA: u64 = 1u64 << 10u64;

/// Number of registers synced in each direction: all of them with XSAVE
/// support, all but XCR0 without.
pub open spec fn synced_count(xsave_supported: bool) -> nat {
    if xsave_supported {
        79
    } else {
        78
    }
}

/// The registers synced between the emulator and the hypervisor.
pub fn sync_register_count(xsave_supported: bool) -> (r: usize)
    ensures
        r == synced_count(xsave_supported),
{
    if xsave_supported {
        CONTEXT_REGS
    } else {
        CONTEXT_REGS - 1
    }
}

/// The hypervisor's register file after `set_context` of `ctx`: the first
/// `n` registers are replaced.
pub open spec fn after_set(file: Seq<u128>, ctx: Seq<u128>, n: nat) -> Seq<u128> {
    Seq::new(file.len(), |i: int| if i < n { ctx[i] } else { file[i] })
}

/// The context `get_context` returns from `file`: the first `n` registers,
/// zero for the rest.
pub open spec fn read_back(file: Seq<u128>, n: nat) -> Seq<u128> {
    Seq::new(CONTEXT_REGS as nat, |i: int| if i < n { file[i] } else { 0 })
}

/// Setting a context and reading it back gives the same registers: all of
/// them with XSAVE support, all but XCR0 without.
pub proof fn lemma_context_round_trip(file: Seq<u128>, ctx: Seq<u128>, xsave_supported: bool)
    requires
        file.len() == CONTEXT_REGS,
        ctx.len() == CONTEXT_REGS,
    ensures
        xsave_supported ==> read_back(after_set(file, ctx, synced_count(xsave_supported)), synced_count(xsave_supported)) == ctx,
        forall|i: int|
            0 <= i < CONTEXT_REGS && i != REG_XCR0 ==> #[trigger] read_back(
                after_set(file, ctx, synced_count(xsave_supported)),
                synced_count(xsave_supported),
            )[i] == ctx[i],
{
    if xsave_supported {
        assert(read_back(after_set(file, ctx, 79), 79) =~= ctx);
    }
}

/// A full processor context: one 128-bit value per register.
pub struct WhvpContext {
    regs: Vec<u128>,
}

impl WhvpContext {
    pub closed spec fn view(&self) -> Seq<u128> {
        self.regs@
    }

    pub open spec fn wf(&self) -> bool {
        self@.len() == CONTEXT_REGS
    }

    /// An all-zero context.
    pub fn new() -> (r: WhvpContext)
        ensures
            r.wf(),
            forall|i: int| 0 <= i < CONTEXT_REGS ==> r@[i] == 0,
    {
        WhvpContext { regs: vec![0u128; CONTEXT_REGS] }
    }

    /// A context from raw register values; `None` unless there is one per
    /// register.
    pub fn from_registers(regs: Vec<u128>) -> (r: Option<WhvpContext>)
        ensures
            regs@.len() == CONTEXT_REGS <==> r is Some,
            r matches Some(c) ==> c@ == regs@,
    {
        if regs.len() == CONTEXT_REGS {
            Some(WhvpContext { regs })
        } else {
            None
        }
    }

    /// The raw register values.
    pub fn registers(&self) -> (r: &Vec<u128>)
        ensures
            r@ == self@,
    {
        &self.regs
    }

    /// Low 64 bits of register `i`.
    pub fn reg64(&self, i: usize) -> (r: u64)
        requires
            self.wf(),
            i < CONTEXT_REGS,
        ensures
            r == self@[i as int] as u64,
    {
        self.regs[i] as u64
    }

    /// Set register `i` to the 64-bit value `v`.
    pub fn set_reg64(&mut self, i: usize, v: u64)
        requires
            old(self).wf(),
            i < CONTEXT_REGS,
        ensures
            final(self).wf(),
            final(self)@ == old(self)@.update(i as int, v as u128),
    {
        self.regs.set(i, v as u128);
    }

    pub fn rip(&self) -> (r: u64)
        requires
            self.wf(),
        ensures
            r == self@[REG_RIP as int] as u64,
    {
        self.reg64(REG_RIP)
    }

    pub fn cr3(&self) -> (r: u64)
        requires
            self.wf(),
        ensures
            r == self@[REG_CR3 as int] as u64,
    {
        self.reg64(REG_CR3)
    }

    /// Whether long mode is active (EFER.LMA).
    pub fn long_mode(&self) -> (r: bool)
        requires
            self.wf(),
        ensures
            r == ((self@[REG_EFER as int] as u64) & EFER_LMA != 0),
    {
        self.reg64(REG_EFER) & EFER_LMA != 0
    }

    /// GS segment base (the low 64 bits of the segment register).
    pub fn gs_base(&self) -> (r: u64)
        requires
            self.wf(),
        ensures
            r == self@[REG_GS as int] as u64,
    {
        self.reg64(REG_GS)
    }

    /// CS selector (bits 96..111 of the segment register).
    pub fn cs_selector(&self) -> (r: u16)
        requires
            self.wf(),
        ensures
            r == (self@[REG_CS as int] >> 96u128) as u16,
    {
        (self.regs[REG_CS] >> 96u128) as u16
    }

    /// The registers exit handling reads.
    pub fn guest_regs(&self, instruction_length: u8) -> (r: GuestRegs)
        requires
            self.wf(),
        ensures
            r.rip == self@[REG_RIP as int] as u64,
            r.rflags == self@[REG_RFLAGS as int] as u64,
            r.dr0 == self@[REG_DR0 as int] as u64,
            r.dr1 == self@[REG_DR1 as int] as u64,
            r.dr2 == self@[REG_DR2 as int] as u64,
            r.dr3 == self@[REG_DR3 as int] as u64,
            r.dr6 == self@[REG_DR6 as int] as u64,
            r.dr7 == self@[REG_DR7 as int] as u64,
            r.instruction_length == instruction_length,
    {
        GuestRegs {
            rip: self.reg64(REG_RIP),
            rflags: self.reg64(REG_RFLAGS),
            dr0: self.reg64(REG_DR0),
            dr1: self.reg64(REG_DR1),
            dr2: self.reg64(REG_DR2),
            dr3: self.reg64(REG_DR3),
            dr6: self.reg64(REG_DR6),
            dr7: self.reg64(REG_DR7),
            instruction_length,
        }
    }
}

/// The pending-event register value that queues exception `vector`:
/// EventPending (bit 0), event type 0 (exception, bits 1..3),
/// DeliverErrorCode (bit 8), Vector (bits 16..31), ErrorCode (bits 32..63)
/// and a zero exception parameter (bits 64..127).
pub open spec fn exception_event(vector: u8, error_code: Option<u32>) -> u128 {
    match error_code {
        Some(code) => 1u128 | 0x100u128 | ((vector as u128) << 16u128) | ((code as u128) << 32u128),
        None => 1u128 | ((vector as u128) << 16u128),
    }
}

/// The register value that queues exception `vector`, with an error code
/// if one is given.
pub fn pending_exception_event(vector: u8, error_code: Option<u32>) -> (r: u128)
    ensures
        r == exception_event(vector, error_code),
{
    match error_code {
        Some(code) => 1u128 | 0x100u128 | ((vector as u128) << 16u128) | ((code as u128) << 32u128),
        None => 1u128 | ((vector as u128) << 16u128),
    }
}

/// Whether the pending-event register value `event` has an event pending.
pub fn event_pending(event: u128) -> (r: bool)
    ensures
        r == (event & 1 == 1),
{
    event & 1 == 1
}

/// A new event can be queued only when none is pending; then it is the
/// given exception.
pub fn queue_exception(current: u128, vector: u8, error_code: Option<u32>) -> (r: Option<u128>)
    ensures
        current & 1 == 1 ==> r is None,
        current & 1 != 1 ==> r == Some(exception_event(vector, error_code)),
{
    if event_pending(current) {
        None
    } else {
        Some(pending_exception_event(vector, error_code))
    }
}

} // verus!
