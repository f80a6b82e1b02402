//! PL011 UART: the register block and the driver logic over it.
//!
//! Registers are `volatile::Volatile<u32>` cells; the platform layer maps
//! the block at the device's base address.

use vstd::prelude::*;
use volatile::Volatile;

verus! {

#[verifier::external_type_specification]
#[verifier::external_body]
#[verifier::reject_recursive_types(T)]
pub struct ExVolatile<T: Copy>(Volatile<T>);

/// What a volatile 32-bit cell holds: a one-element sequence.
pub uninterp spec fn volatile_cell(v: Volatile<u32>) -> Seq<u32>;

/// The value of a register.
pub open spec fn reg(v: Volatile<u32>) -> u32 {
    volatile_cell(v)[0]
}

/// `Volatile::new`: a cell holding `value`.
#[verifier::external_body]
fn volatile_new(value: u32) -> (r: Volatile<u32>)
    ensures
        volatile_cell(r) == seq![value],
{
    Volatile::new(value)
}

/// `Volatile::read`: the value the cell holds (a volatile load of it).
#[verifier::external_body]
fn volatile_read(cell: &Volatile<u32>) -> (r: u32)
    ensures
        volatile_cell(*cell) == seq![r],
{
    cell.read()
}

/// `Volatile::write`: afterwards the cell holds `value` (a volatile store).
#[verifier::external_body]
fn volatile_write(cell: &mut Volatile<u32>, value: u32)
    ensures
        volatile_cell(*final(cell)) == seq![value],
{
    cell.write(value)
}

/// Flag register: transmit FIFO full.
pub const FR_TXFF: u32 = 0x20;
/// Flag register: receive FIFO empty.
pub const FR_RXFE: u32 = 0x10;

/// PL011 registers.
pub struct UartRegisters {
    pub data: Volatile<u32>,
    pub rsrecr: Volatile<u32>,
    pub _reserved1: [u32; 4],
    pub fr: Volatile<u32>,
    pub _reserved2: [u32; 2],
    pub ibrd: Volatile<u32>,
    pub fbrd: Volatile<u32>,
    pub lcr_h: Volatile<u32>,
    pub cr: Volatile<u32>,
    pub ifls: Volatile<u32>,
    pub imsc: Volatile<u32>,
    pub ris: Volatile<u32>,
    pub mis: Volatile<u32>,
    pub icr: Volatile<u32>,
}

impl UartRegisters {
    /// A register block with every register at 0.
    pub fn new() -> (r: Self)
        ensures
            reg(r.data) == 0 && reg(r.rsrecr) == 0 && reg(r.fr) == 0 && reg(r.ibrd) == 0 && reg(r.fbrd) == 0
                && reg(r.lcr_h) == 0 && reg(r.cr) == 0 && reg(r.ifls) == 0 && reg(r.imsc) == 0 && reg(r.ris)
                == 0 && reg(r.mis) == 0 && reg(r.icr) == 0,
            r._reserved1@ == seq![0u32, 0u32, 0u32, 0u32],
            r._reserved2@ == seq![0u32, 0u32],
    {
        let r = UartRegisters {
            data: volatile_new(0),
            rsrecr: volatile_new(0),
            _reserved1: [0; 4],
            fr: volatile_new(0),
            _reserved2: [0; 2],
            ibrd: volatile_new(0),
            fbrd: volatile_new(0),
            lcr_h: volatile_new(0),
            cr: volatile_new(0),
            ifls: volatile_new(0),
            imsc: volatile_new(0),
            ris: volatile_new(0),
            mis: volatile_new(0),
            icr: volatile_new(0),
        };
        assert(r._reserved1@ =~= seq![0u32, 0u32, 0u32, 0u32]);
        assert(r._reserved2@ =~= seq![0u32, 0u32]);
        r
    }
}

/// A PL011 UART at `base_addr`.
pub struct UartDriver {
    base_addr: u64,
    baud_rate: u32,
}

impl UartDriver {
    pub closed spec fn base_addr(&self) -> u64 {
        self.base_addr
    }

    pub closed spec fn baud_rate(&self) -> u32 {
        self.baud_rate
    }

    pub fn new(base_addr: u64, baud_rate: u32) -> (r: Self)
        ensures
            r.base_addr() == base_addr,
            r.baud_rate() == baud_rate,
    {
        UartDriver { base_addr, baud_rate }
    }

    /// Program the UART: disable it, set the divisors for 115200 baud from a
    /// 24 MHz clock (13 + 1/64), 8-bit frames with FIFOs, then enable
    /// transmit and receive.
    pub fn init(&self, regs: &mut UartRegisters)
        ensures
            reg(final(regs).cr) == 0x0301,
            reg(final(regs).ibrd) == 13,
            reg(final(regs).fbrd) == 1,
            reg(final(regs).lcr_h) == 0x70,
            final(regs).data == old(regs).data,
            final(regs).fr == old(regs).fr,
            final(regs).imsc == old(regs).imsc,
            final(regs).icr == old(regs).icr,
    {
        volatile_write(&mut regs.cr, 0);
        volatile_write(&mut regs.ibrd, 13);
        volatile_write(&mut regs.fbrd, 1);
        volatile_write(&mut regs.lcr_h, 0x70);
        volatile_write(&mut regs.cr, 0x0301);
    }

    /// Whether a byte is waiting (receive FIFO not empty).
    pub fn is_rx_ready(&self, regs: &UartRegisters) -> (r: bool)
        ensures
            r == (reg(regs.fr) & FR_RXFE == 0),
    {
        let fr = volatile_read(&regs.fr);
        (fr & 0x10) == 0
    }

    /// One attempt to send `c`: with room in the transmit FIFO the byte goes
    /// to the data register and the result is true; otherwise nothing
    /// changes and the caller waits and tries again.
    pub fn try_putc(&self, regs: &mut UartRegisters, c: u8) -> (r: bool)
        ensures
            r == (reg(old(regs).fr) & FR_TXFF == 0),
            r ==> reg(final(regs).data) == c as u32,
            !r ==> final(regs).data == old(regs).data,
            final(regs).fr == old(regs).fr,
            final(regs).cr == old(regs).cr,
    {
        if self.is_tx_ready(regs) {
            volatile_write(&mut regs.data, c as u32);
            true
        } else {
            false
        }
    }

    /// One attempt to receive a byte: with data in the receive FIFO, the low
    /// byte of the data register; otherwise `None` and the caller waits.
    pub fn try_getc(&self, regs: &UartRegisters) -> (r: Option<u8>)
        ensures
            reg(regs.fr) & FR_RXFE == 0 ==> r == Some((reg(regs.data) & 0xFF) as u8),
            reg(regs.fr) & FR_RXFE != 0 ==> r is None,
    {
        if self.is_rx_ready(regs) {
            let d = volatile_read(&regs.data);
            Some((d & 0xFF) as u8)
        } else {
            None
        }
    }

    /// Whether a byte can be sent (transmit FIFO not full).
    pub fn is_tx_ready(&self, regs: &UartRegisters) -> (r: bool)
        ensures
            r == (reg(regs.fr) & FR_TXFF == 0),
    {
        let fr = volatile_read(&regs.fr);
        (fr & 0x20) == 0
    }
}

/// Base address of the UART on the QEMU virt machine.
pub const UART_BASE: u64 = 0x0900_0000;

/// Set up the UART at `UART_BASE` with `baud_rate`: program its registers
/// and keep the driver.
pub fn init(uart: &mut Option<UartDriver>, regs: &mut UartRegisters, baud_rate: u32)
    ensures
        (*final(uart)) matches Some(u) && u.base_addr() == UART_BASE && u.baud_rate() == baud_rate,
        reg(final(regs).cr) == 0x0301,
        reg(final(regs).ibrd) == 13,
        reg(final(regs).fbrd) == 1,
        reg(final(regs).lcr_h) == 0x70,
        final(regs).data == old(regs).data,
        final(regs).fr == old(regs).fr,
{
    let u = UartDriver::new(UART_BASE, baud_rate);
    u.init(regs);
    *uart = Some(u);
}

/// Whether a byte is waiting; false when there is no UART.
pub fn is_readable(uart: &Option<UartDriver>, regs: &UartRegisters) -> (r: bool)
    ensures
        r == (uart is Some && reg(regs.fr) & FR_RXFE == 0),
{
    match uart {
        Some(u) => u.is_rx_ready(regs),
        None => false,
    }
}

} // verus!
