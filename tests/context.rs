use bochservisor::context::{event_pending, pending_exception_event, queue_exception};
use bochservisor::context::{
    sync_register_count, WhvpContext, CONTEXT_REGS, REG_CR3, REG_CS, REG_DR7, REG_EFER, REG_GS,
    REG_RIP,
};

#[test]
fn register_sync_counts() {
    assert_eq!(sync_register_count(true), 79);
    assert_eq!(sync_register_count(false), 78);
}

#[test]
fn context_accessors() {
    let mut regs = vec![0u128; CONTEXT_REGS];
    regs[REG_RIP] = 0xFFFF_FFFF_0000_0000_0000_0000_0040_1000;
    regs[REG_CR3] = 0x1AB000;
    regs[REG_EFER] = 1 << 10;
    regs[REG_GS] = 0x7FF_DE00_0000 | (0x2Bu128 << 96);
    regs[REG_CS] = 0x33u128 << 96;
    regs[REG_DR7] = 1;
    let mut c = WhvpContext::from_registers(regs).unwrap();
    assert_eq!(c.rip(), 0x40_1000);
    assert_eq!(c.cr3(), 0x1AB000);
    assert!(c.long_mode());
    assert_eq!(c.gs_base(), 0x7FF_DE00_0000);
    assert_eq!(c.cs_selector(), 0x33);
    let g = c.guest_regs(3);
    assert_eq!((g.rip, g.dr7, g.instruction_length), (0x40_1000, 1, 3));
    c.set_reg64(REG_RIP, 0x40_1003);
    assert_eq!(c.rip(), 0x40_1003);
    assert_eq!(c.registers().len(), CONTEXT_REGS);
    assert!(WhvpContext::from_registers(vec![0u128; 3]).is_none());
    assert_eq!(WhvpContext::new().rip(), 0);
}

#[test]
fn exception_events() {
    assert_eq!(pending_exception_event(14, Some(0x2)), 1 | 0x100 | (14 << 16) | (2u128 << 32));
    assert_eq!(pending_exception_event(1, None), 1 | (1 << 16));
    assert!(event_pending(pending_exception_event(1, None)));
    assert!(!event_pending(0));
    assert_eq!(queue_exception(0, 6, None), Some(1 | (6 << 16)));
    assert_eq!(queue_exception(1, 6, None), None);
}
