use vstd::prelude::*;
use crate::errors::Error;

verus! {

/// The flags readable from the peripheral status register at one poll.
#[derive(Clone, Copy, PartialEq, Eq, Structural, Debug)]
pub struct StatusFlags {
    /// The transmit register is empty: the next byte may be handed over.
    pub transmit_empty: bool,
    /// The receive register holds a byte.
    pub receive_not_empty: bool,
    /// The programmed byte count has been transferred.
    pub transfer_complete: bool,
    /// A STOP condition was detected on the bus.
    pub stop_detected: bool,
    /// A bus error was detected.
    pub bus_error: bool,
    /// Arbitration was lost to a competing bus master.
    pub arbitration_lost: bool,
    /// The addressed device did not acknowledge a byte.
    pub nack_received: bool,
}

impl StatusFlags {
    /// A status word with no flag raised.
    pub open spec fn spec_idle() -> StatusFlags {
        StatusFlags {
            transmit_empty: false,
            receive_not_empty: false,
            transfer_complete: false,
            stop_detected: false,
            bus_error: false,
            arbitration_lost: false,
            nack_received: false,
        }
    }

    /// A status word with no flag raised.
    pub fn idle() -> (s: StatusFlags)
        ensures
            s == StatusFlags::spec_idle(),
    {
        StatusFlags {
            transmit_empty: false,
            receive_not_empty: false,
            transfer_complete: false,
            stop_detected: false,
            bus_error: false,
            arbitration_lost: false,
            nack_received: false,
        }
    }

    /// A status word reporting every transfer-progress flag and no abort:
    /// ready to hand a byte either way, with the transfer complete.
    pub open spec fn spec_ready() -> StatusFlags {
        StatusFlags {
            transmit_empty: true,
            receive_not_empty: true,
            transfer_complete: true,
            stop_detected: false,
            bus_error: false,
            arbitration_lost: false,
            nack_received: false,
        }
    }

    /// A status word reporting every transfer-progress flag and no abort.
    pub fn ready() -> (s: StatusFlags)
        ensures
            s == StatusFlags::spec_ready(),
    {
        StatusFlags {
            transmit_empty: true,
            receive_not_empty: true,
            transfer_complete: true,
            stop_detected: false,
            bus_error: false,
            arbitration_lost: false,
            nack_received: false,
        }
    }
}

/// Classification of simultaneously raised abort flags into a single error,
/// in the fixed priority order: bus error first, then arbitration loss,
/// then NACK.  The order must be preserved exactly, since the flag-clearing
/// side effects differ per kind.
pub open spec fn spec_classify(s: StatusFlags) -> Option<Error> {
    if s.bus_error {
        Some(Error::Bus)
    } else if s.arbitration_lost {
        Some(Error::Arbitration)
    } else if s.nack_received {
        Some(Error::NotAcknowledge)
    } else {
        None
    }
}

/// Classify the abort flags of one status word into the single prioritized
/// error, or none when no abort flag is raised.
pub fn classify(s: &StatusFlags) -> (r: Option<Error>)
    ensures
        r == spec_classify(*s),
{
    if s.bus_error {
        Some(Error::Bus)
    } else if s.arbitration_lost {
        Some(Error::Arbitration)
    } else if s.nack_received {
        Some(Error::NotAcknowledge)
    } else {
        None
    }
}

/// Bitmask written to the flag-clear register.
#[derive(Clone, Copy, PartialEq, Eq, Structural, Debug)]
pub struct ClearMask {
    pub bus_error: bool,
    pub arbitration_lost: bool,
    pub nack: bool,
    pub stop: bool,
    pub overrun: bool,
}

impl ClearMask {
    /// A mask with the given flags selected, in register order.
    pub open spec fn spec_new(
        bus_error: bool,
        arbitration_lost: bool,
        nack: bool,
        stop: bool,
        overrun: bool,
    ) -> ClearMask {
        ClearMask { bus_error, arbitration_lost, nack, stop, overrun }
    }

    /// A mask clearing nothing.
    pub open spec fn spec_none() -> ClearMask {
        ClearMask::spec_new(false, false, false, false, false)
    }

    /// The mask clearing only the bus-error flag.
    pub open spec fn spec_bus_error() -> ClearMask {
        ClearMask::spec_new(true, false, false, false, false)
    }

    /// The mask clearing only the arbitration-loss flag.
    pub open spec fn spec_arbitration() -> ClearMask {
        ClearMask::spec_new(false, true, false, false, false)
    }

    /// The mask clearing the NACK flag together with the stop-detected flag
    /// that a NACK auto-generates.
    pub open spec fn spec_nack_stop() -> ClearMask {
        ClearMask::spec_new(false, false, true, true, false)
    }

    /// The mask clearing only the stop-detected flag.
    pub open spec fn spec_stop() -> ClearMask {
        ClearMask::spec_new(false, false, false, true, false)
    }

    /// The mask clearing only the NACK flag.
    pub open spec fn spec_nack() -> ClearMask {
        ClearMask::spec_new(false, false, true, false, false)
    }

    /// The mask clearing the generic error flags: bus error, arbitration
    /// loss and overrun.
    pub open spec fn spec_errors() -> ClearMask {
        ClearMask::spec_new(true, true, false, false, true)
    }

    /// Build a mask with the given flags selected, in register order.
    pub fn new(
        bus_error: bool,
        arbitration_lost: bool,
        nack: bool,
        stop: bool,
        overrun: bool,
    ) -> (m: ClearMask)
        ensures
            m == ClearMask::spec_new(bus_error, arbitration_lost, nack, stop, overrun),
    {
        ClearMask { bus_error, arbitration_lost, nack, stop, overrun }
    }
}

/// Notification events whose interrupt-enable bits an external scheduler
/// may toggle.  This is a hook for asynchronous wrappers; the engine itself
/// never waits on an interrupt.
#[derive(Clone, Copy, PartialEq, Eq, Structural, Debug)]
pub enum Event {
    /// A byte is ready to be sent.
    Transmit,
    /// A byte was received.
    Receive,
    /// The programmed byte count was transferred.
    TransferComplete,
    /// A STOP condition was detected.
    Stop,
    /// A generic error was detected.
    Errors,
    /// The addressed device did not acknowledge.
    NotAcknowledge,
}

} // verus!
