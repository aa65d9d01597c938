use vstd::prelude::*;

verus! {

/// Failure raised while deriving bus timing at initialisation.  These are
/// static misconfigurations: they are detected once, before any transaction,
/// and are fatal to setup.
#[derive(Clone, Copy, PartialEq, Eq, Structural, Debug)]
pub enum ConfigError {
    /// The requested bus frequency is above the 1 MHz ceiling, or the
    /// derived half period does not fit its 8-bit hardware field.
    FrequencyTooHigh,
    /// The input clock is less than four times the requested bus frequency.
    RatioOutOfRange,
    /// The derived prescaler does not fit its 4-bit hardware field.  This
    /// reports an unusable clock pairing distinctly from the two plain
    /// input-validation failures above.
    PrescalerOutOfRange,
}

/// Failure raised by a single bus transaction.  The engine always leaves the
/// peripheral with the implicated status flags cleared, so the caller may
/// retry the whole call.
#[derive(Clone, Copy, PartialEq, Eq, Structural, Debug)]
pub enum Error {
    /// A bus error was observed while polling.
    Bus,
    /// Arbitration was lost to a competing bus master.
    Arbitration,
    /// The addressed device did not acknowledge a byte.
    NotAcknowledge,
    /// A transfer length outside 1..=255 was requested; nothing was written
    /// to the peripheral.
    LengthError,
    /// The bounded busy-wait exhausted its poll limit.  The bound makes the
    /// absence of an unbounded wait an explicit choice; with the default
    /// limit it stands in for the indefinite blocking a wedged bus causes.
    Timeout,
}

} // verus!
