//! Device drivers.

pub mod event_ring;
pub mod framebuffer;
pub mod input;
pub mod keyboard;
pub mod mouse;
pub mod storage;
pub mod timer;
pub mod uart;

use vstd::prelude::*;
use framebuffer::{FramebufferDriver, fb_wf};
use keyboard::{KeyboardDriver, KeyboardEvent};
use mouse::{MouseDriver, MouseEvent};
use storage::StorageCache;
use timer::TimerDriver;
use uart::{UartDriver, UartRegisters, reg};

verus! {

/// The state of every driver.
pub struct Drivers {
    pub uart: Option<UartDriver>,
    pub uart_regs: UartRegisters,
    pub timer: TimerDriver,
    pub storage: StorageCache,
    pub keyboard: KeyboardDriver,
    pub mouse: MouseDriver,
    pub framebuffer: Option<FramebufferDriver>,
}

impl Drivers {
    /// Drivers before `init`: no UART and every UART register 0, a timer
    /// with no frequency, boot count or ticks, a cache with no disk, no
    /// counts and no valid entry, empty keyboard and mouse queues with the
    /// pointer at the origin, and no framebuffer.
    pub fn new() -> (r: Self)
        ensures
            r.uart is None,
            reg(r.uart_regs.data) == 0 && reg(r.uart_regs.rsrecr) == 0 && reg(r.uart_regs.fr) == 0,
            reg(r.uart_regs.ibrd) == 0 && reg(r.uart_regs.fbrd) == 0 && reg(r.uart_regs.lcr_h) == 0,
            reg(r.uart_regs.cr) == 0 && reg(r.uart_regs.ifls) == 0 && reg(r.uart_regs.imsc) == 0,
            reg(r.uart_regs.ris) == 0 && reg(r.uart_regs.mis) == 0 && reg(r.uart_regs.icr) == 0,
            r.uart_regs._reserved1@ == seq![0u32, 0u32, 0u32, 0u32],
            r.uart_regs._reserved2@ == seq![0u32, 0u32],
            r.timer.frequency() == 0 && r.timer.boot_counter() == 0 && r.timer.ticks() == 0,
            r.storage.wf(),
            !r.storage.has_device(),
            r.storage.counters() == (0u64, 0u64, 0u64, 0u64, 0u64),
            forall|i: int| 0 <= i < storage::CACHE_ENTRIES ==> !(#[trigger] r.storage.entries()[i]).valid,
            r.keyboard.wf(),
            r.keyboard.events() == Seq::<KeyboardEvent>::empty(),
            r.keyboard.dropped() == 0,
            r.mouse.wf(),
            r.mouse.pos() == (0i32, 0i32),
            r.mouse.events() == Seq::<MouseEvent>::empty(),
            r.mouse.dropped() == 0,
            r.framebuffer is None,
    {
        Drivers {
            uart: None,
            uart_regs: UartRegisters::new(),
            timer: TimerDriver::new(),
            storage: StorageCache::new(),
            keyboard: KeyboardDriver::new(),
            mouse: MouseDriver::new(),
            framebuffer: None,
        }
    }
}

/// Bring up the UART at 115200 baud, the timer, the disk, the input
/// devices and the framebuffer.
pub fn init(d: &mut Drivers)
    ensures
        (final(d).uart) matches Some(u) && u.base_addr() == uart::UART_BASE && u.baud_rate() == 115200,
        reg(final(d).uart_regs.cr) == 0x0301,
        final(d).timer.frequency() == timer::PORTABLE_COUNTER_HZ,
        final(d).timer.ticks() == 0,
        final(d).storage.wf(),
        final(d).storage.has_device(),
        final(d).storage.disk_blocks() == storage::DEFAULT_TOTAL_BLOCKS,
        final(d).keyboard.wf(),
        final(d).keyboard.events() == Seq::<KeyboardEvent>::empty(),
        final(d).mouse.wf(),
        final(d).mouse.events() == Seq::<MouseEvent>::empty(),
        fb_wf(final(d).framebuffer),
        (final(d).framebuffer) matches Some(f) && f.spec_mode().width == 1920 && f.spec_mode().height == 1080,
{
    uart::init(&mut d.uart, &mut d.uart_regs, 115200);
    timer::init(&mut d.timer);
    storage::init(&mut d.storage);
    input::init(&mut d.keyboard, &mut d.mouse);
    framebuffer::init(&mut d.framebuffer);
}

} // verus!
