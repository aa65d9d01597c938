use vstd::prelude::*;
use crate::port::{BusPort, ControlWord, PortOp};
use crate::status::{ClearMask, Event, StatusFlags};
use crate::timing::TimingParameters;

verus! {

/// A scripted register surface for exercising the engine without hardware.
///
/// Status reads consume a script front to back and report an all-ready
/// status once it is exhausted; data reads consume a byte script the same
/// way, returning zero at the end; the start request reads as still
/// pending for a scripted number of polls.  Every operation is recorded,
/// so a test can check exactly what the engine did.
pub struct SimPort {
    statuses: Vec<StatusFlags>,
    status_cursor: usize,
    rx_bytes: Vec<u8>,
    rx_cursor: usize,
    start_reads_pending: usize,
    ops: Vec<PortOp>,
}

impl SimPort {
    /// A port scripted with the given status words, received bytes, and
    /// number of initial polls during which a start request reads as
    /// pending.
    pub fn new(statuses: Vec<StatusFlags>, rx_bytes: Vec<u8>, start_pending: usize) -> (p:
        SimPort)
        ensures
            p.log() == Seq::<PortOp>::empty(),
    {
        SimPort {
            statuses,
            status_cursor: 0,
            rx_bytes,
            rx_cursor: 0,
            start_reads_pending: start_pending,
            ops: Vec::new(),
        }
    }

    /// Everything done to this port so far, oldest first.
    pub fn recorded_ops(&self) -> (r: &Vec<PortOp>)
        ensures
            r@ == self.log(),
    {
        &self.ops
    }
}

impl BusPort for SimPort {
    closed spec fn log(&self) -> Seq<PortOp> {
        self.ops@
    }

    fn read_status(&mut self) -> (s: StatusFlags) {
        let s: StatusFlags = if self.status_cursor < self.statuses.len() {
            let x: StatusFlags = self.statuses[self.status_cursor];
            self.status_cursor = self.status_cursor + 1;
            x
        } else {
            StatusFlags::ready()
        };
        self.ops.push(PortOp::ReadStatus(s));
        s
    }

    fn start_pending(&mut self) -> (b: bool) {
        let b: bool = self.start_reads_pending > 0;
        if b {
            self.start_reads_pending = self.start_reads_pending - 1;
        }
        self.ops.push(PortOp::ReadStart(b));
        b
    }

    fn write_control(&mut self, w: ControlWord) {
        self.ops.push(PortOp::WriteControl(w));
    }

    fn write_data(&mut self, b: u8) {
        self.ops.push(PortOp::WriteData(b));
    }

    fn read_data(&mut self) -> (b: u8) {
        let b: u8 = if self.rx_cursor < self.rx_bytes.len() {
            let x: u8 = self.rx_bytes[self.rx_cursor];
            self.rx_cursor = self.rx_cursor + 1;
            x
        } else {
            0
        };
        self.ops.push(PortOp::ReadData(b));
        b
    }

    fn clear_flags(&mut self, m: ClearMask) {
        self.ops.push(PortOp::ClearFlags(m));
    }

    fn write_dummy_data(&mut self) {
        self.ops.push(PortOp::FlushDummy);
    }

    fn force_transmit_empty(&mut self) {
        self.ops.push(PortOp::ForceEmpty);
    }

    fn write_timing(&mut self, t: &TimingParameters) {
        self.ops.push(PortOp::WriteTiming(*t));
    }

    fn set_event_enabled(&mut self, e: Event, on: bool) {
        self.ops.push(PortOp::EventEnable(e, on));
    }
}

} // verus!
