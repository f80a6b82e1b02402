//! Exception decoding for ARM64.
//!
//! The vector table and the handlers' console output belong to the platform
//! layer; here is what a synchronous exception is, decoded from ESR_EL1.

use vstd::prelude::*;

verus! {

/// ARM64 exception class groups.
#[derive(Debug, Clone, Copy, PartialEq, Eq, Structural)]
pub enum ExceptionClass {
    Synchronous,
    IrqInterrupt,
    FiqInterrupt,
    SerrorInterrupt,
}

impl ExceptionClass {
    /// The numeric code of the class.
    pub fn code(&self) -> (r: u64)
        ensures
            r == match *self {
                ExceptionClass::Synchronous => 0b000000u64,
                ExceptionClass::IrqInterrupt => 0b100001u64,
                ExceptionClass::FiqInterrupt => 0b100010u64,
                ExceptionClass::SerrorInterrupt => 0b100011u64,
            },
    {
        match self {
            ExceptionClass::Synchronous => 0b000000,
            ExceptionClass::IrqInterrupt => 0b100001,
            ExceptionClass::FiqInterrupt => 0b100010,
            ExceptionClass::SerrorInterrupt => 0b100011,
        }
    }
}

/// Exception type.
#[derive(Debug, Clone, Copy, PartialEq, Eq, Structural)]
pub enum ExceptionType {
    Unknown,
    WfiWfe,
    McrrMrrc,
    LdcStc,
    LdmStm,
    Ldr,
    FloatingPoint,
    ImproperUseOfSveLdr,
    SveAccessTrap,
    PacFailure,
    BranchTarget,
    IllegalExecution,
    Smc,
    HvcTrap,
    SmeAccess,
    RmeTrap,
    GranuleProtectionCheck,
}

/// Exception information from ESR_EL1 and FAR_EL1.
#[derive(Debug, Clone, Copy)]
pub struct ExceptionInfo {
    pub exception_class: u64,
    pub instruction_length: u64,
    pub fault_address: u64,
}

/// Exception class field of ESR_EL1: bits 26..31.
pub open spec fn esr_class(esr: u64) -> u64 {
    (esr >> 26u64) & 0x3F
}

impl ExceptionInfo {
    /// Decode ESR_EL1 and FAR_EL1.
    pub fn from_esr(esr: u64, far: u64) -> (r: Self)
        ensures
            r.exception_class == esr_class(esr),
            r.instruction_length == (esr >> 25u64) & 0x01,
            r.fault_address == far,
            r.exception_class < 64,
            r.instruction_length < 2,
    {
        let class = (esr >> 26) & 0x3F;
        let il = (esr >> 25) & 0x01;
        assert(class < 64 && il < 2) by (bit_vector)
            requires
                class == (esr >> 26u64) & 0x3F,
                il == (esr >> 25u64) & 0x01,
        ;
        ExceptionInfo { exception_class: class, instruction_length: il, fault_address: far }
    }
}

/// A synchronous exception and what its handler reports.
#[derive(Debug, Clone, Copy, PartialEq, Eq, Structural)]
pub enum SyncException {
    /// Unrecognised class: the syndrome and its class.
    Unknown { esr: u64, class: u64 },
    /// Supervisor call with its 16-bit immediate.
    Svc { immediate: u64 },
    /// Data abort at `far`.
    DataAbort { far: u64, esr: u64 },
    /// Instruction abort at `far`.
    InstructionAbort { far: u64, esr: u64 },
}

/// Classify a synchronous exception by its class: 0x11 SVC, 0x19 data
/// abort, 0x18 instruction abort, anything else unknown.
pub fn handle_sync_exception(esr: u64, far: u64, lr: u64) -> (r: SyncException)
    ensures
        r == if esr_class(esr) == 0b010001 {
            SyncException::Svc { immediate: esr & 0xFFFF }
        } else if esr_class(esr) == 0b011001 {
            SyncException::DataAbort { far, esr }
        } else if esr_class(esr) == 0b011000 {
            SyncException::InstructionAbort { far, esr }
        } else {
            SyncException::Unknown { esr, class: esr_class(esr) }
        },
{
    let exc_info = ExceptionInfo::from_esr(esr, far);
    match exc_info.exception_class {
        0b000000 => handle_unknown(esr),
        0b010001 => handle_svc(esr),
        0b011001 => handle_data_abort(esr, far),
        0b011000 => handle_instruction_abort(esr, far),
        _ => handle_unknown(esr),
    }
}

fn handle_unknown(esr: u64) -> (r: SyncException)
    ensures
        r == (SyncException::Unknown { esr, class: esr_class(esr) }),
{
    let exc_class = (esr >> 26) & 0x3F;
    SyncException::Unknown { esr, class: exc_class }
}

fn handle_svc(esr: u64) -> (r: SyncException)
    ensures
        r == (SyncException::Svc { immediate: esr & 0xFFFF }),
{
    let immediate = esr & 0xFFFF;
    SyncException::Svc { immediate }
}

fn handle_data_abort(esr: u64, far: u64) -> (r: SyncException)
    ensures
        r == (SyncException::DataAbort { far, esr }),
{
    SyncException::DataAbort { far, esr }
}

fn handle_instruction_abort(esr: u64, far: u64) -> (r: SyncException)
    ensures
        r == (SyncException::InstructionAbort { far, esr }),
{
    SyncException::InstructionAbort { far, esr }
}

/// Whether the DAIF value leaves IRQs unmasked (I bit clear).
pub fn irq_enabled(daif: u64) -> (r: bool)
    ensures
        r == (daif & 0x80 == 0),
{
    (daif & 0x80) == 0
}

} // verus!
