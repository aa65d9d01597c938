use vstd::prelude::*;
use crate::status::{ClearMask, Event, StatusFlags};
use crate::timing::TimingParameters;

verus! {

/// Value programmed into the transfer-control register for one transaction
/// phase.
#[derive(Clone, Copy, PartialEq, Eq, Structural, Debug)]
pub struct ControlWord {
    /// Request a START (or repeated START) condition.
    pub start: bool,
    /// Request a STOP condition.
    pub stop: bool,
    /// 7-bit device address; hardware shifts it into the addressing field.
    pub address: u8,
    /// True for a read transfer, false for a write transfer.
    pub read_direction: bool,
    /// Number of bytes of the phase; the field is 8 bits wide.
    pub byte_count: u8,
    /// Let hardware issue STOP itself once the byte count is reached.
    pub auto_end: bool,
}

/// One operation performed on the register surface, as recorded in a
/// port's operation log.
#[derive(Clone, Copy, PartialEq, Eq, Structural, Debug)]
pub enum PortOp {
    /// The status register was read, observing these flags.
    ReadStatus(StatusFlags),
    /// The start-request state of the transfer-control register was read.
    ReadStart(bool),
    /// The transfer-control register was written.
    WriteControl(ControlWord),
    /// A payload byte was written to the data register.
    WriteData(u8),
    /// A received byte was read from the data register.
    ReadData(u8),
    /// A mask was written to the flag-clear register.
    ClearFlags(ClearMask),
    /// A dummy byte was written to flush a pending transmit.
    FlushDummy,
    /// The transmit-empty flag was forced, flushing the transmit register.
    ForceEmpty,
    /// The timing configuration registers were written.
    WriteTiming(TimingParameters),
    /// An event's interrupt-enable bit was switched on or off.
    EventEnable(Event, bool),
}

/// A mutating register operation: what the engine wrote, with the passive
/// reads left out.
#[derive(Clone, Copy, PartialEq, Eq, Structural, Debug)]
pub enum Mutation {
    /// A transfer-control write.
    Control(ControlWord),
    /// A payload byte handed to the data register.
    Data(u8),
    /// A flag-clear write.
    Clear(ClearMask),
    /// A dummy byte written to flush a pending transmit.
    FlushDummy,
    /// The transmit-empty flag forced to flush the transmit register.
    ForceEmpty,
    /// A timing configuration write.
    Timing(TimingParameters),
    /// An interrupt-enable bit switched on or off.
    EventEnable(Event, bool),
}

/// The peripheral register surface the engine drives.  Every operation
/// appends itself to an abstract log, so that a caller's contract can
/// speak about the exact sequence of register accesses a call performed.
///
/// Exactly one implementation must own each physical peripheral instance;
/// the engine takes the port by value and uses it exclusively.
pub trait BusPort: Sized {
    /// Every register operation performed so far, oldest first.  An
    /// implementation outside the verifier may leave this unspecified.
    open spec fn log(&self) -> Seq<PortOp> {
        vstd::pervasive::arbitrary()
    }

    /// Read the status register.
    fn read_status(&mut self) -> (s: StatusFlags)
        ensures
            final(self).log() == old(self).log().push(PortOp::ReadStatus(s)),
    ;

    /// Read whether a start request from an earlier transfer is still in
    /// flight.
    fn start_pending(&mut self) -> (b: bool)
        ensures
            final(self).log() == old(self).log().push(PortOp::ReadStart(b)),
    ;

    /// Write the transfer-control register.
    fn write_control(&mut self, w: ControlWord)
        ensures
            final(self).log() == old(self).log().push(PortOp::WriteControl(w)),
    ;

    /// Write one payload byte to the data register.
    fn write_data(&mut self, b: u8)
        ensures
            final(self).log() == old(self).log().push(PortOp::WriteData(b)),
    ;

    /// Read one received byte from the data register.
    fn read_data(&mut self) -> (b: u8)
        ensures
            final(self).log() == old(self).log().push(PortOp::ReadData(b)),
    ;

    /// Write a mask to the flag-clear register.
    fn clear_flags(&mut self, m: ClearMask)
        ensures
            final(self).log() == old(self).log().push(PortOp::ClearFlags(m)),
    ;

    /// Write a dummy byte to the data register to clear a pending
    /// transmit.
    fn write_dummy_data(&mut self)
        ensures
            final(self).log() == old(self).log().push(PortOp::FlushDummy),
    ;

    /// Force the transmit-empty flag, flushing the transmit register.
    fn force_transmit_empty(&mut self)
        ensures
            final(self).log() == old(self).log().push(PortOp::ForceEmpty),
    ;

    /// Write the timing configuration registers and enable the peripheral.
    fn write_timing(&mut self, t: &TimingParameters)
        ensures
            final(self).log() == old(self).log().push(PortOp::WriteTiming(*t)),
    ;

    /// Switch one event's interrupt-enable bit on or off.
    fn set_event_enabled(&mut self, e: Event, on: bool)
        ensures
            final(self).log() == old(self).log().push(PortOp::EventEnable(e, on)),
    ;
}

/// The mutating view of one operation: empty for the reads, a singleton
/// for each write.
pub open spec fn mut_of(op: PortOp) -> Seq<Mutation> {
    match op {
        PortOp::ReadStatus(_) => Seq::empty(),
        PortOp::ReadStart(_) => Seq::empty(),
        PortOp::ReadData(_) => Seq::empty(),
        PortOp::WriteControl(w) => seq![Mutation::Control(w)],
        PortOp::WriteData(b) => seq![Mutation::Data(b)],
        PortOp::ClearFlags(m) => seq![Mutation::Clear(m)],
        PortOp::FlushDummy => seq![Mutation::FlushDummy],
        PortOp::ForceEmpty => seq![Mutation::ForceEmpty],
        PortOp::WriteTiming(t) => seq![Mutation::Timing(t)],
        PortOp::EventEnable(e, on) => seq![Mutation::EventEnable(e, on)],
    }
}

/// The status view of one operation: the observed flags of a status read,
/// empty otherwise.
pub open spec fn status_of(op: PortOp) -> Seq<StatusFlags> {
    match op {
        PortOp::ReadStatus(s) => seq![s],
        _ => Seq::empty(),
    }
}

/// The received-byte view of one operation: the byte of a data read, empty
/// otherwise.
pub open spec fn rx_of(op: PortOp) -> Seq<u8> {
    match op {
        PortOp::ReadData(b) => seq![b],
        _ => Seq::empty(),
    }
}

/// The start-request view of one operation: the observed state of a
/// start-pending read, empty otherwise.
pub open spec fn start_of(op: PortOp) -> Seq<bool> {
    match op {
        PortOp::ReadStart(b) => seq![b],
        _ => Seq::empty(),
    }
}

/// Concatenation of a per-operation view over a log segment.
pub open spec fn flat_of<T>(ops: Seq<PortOp>, f: spec_fn(PortOp) -> Seq<T>) -> Seq<T>
    decreases ops.len(),
{
    if ops.len() == 0 {
        Seq::empty()
    } else {
        flat_of(ops.drop_last(), f) + f(ops.last())
    }
}

/// The mutating operations of a log segment, in order.
pub open spec fn mutations(ops: Seq<PortOp>) -> Seq<Mutation> {
    flat_of(ops, |op: PortOp| mut_of(op))
}

/// The status words observed in a log segment, in order.
pub open spec fn statuses(ops: Seq<PortOp>) -> Seq<StatusFlags> {
    flat_of(ops, |op: PortOp| status_of(op))
}

/// The bytes taken from the data register in a log segment, in order.
pub open spec fn rx_reads(ops: Seq<PortOp>) -> Seq<u8> {
    flat_of(ops, |op: PortOp| rx_of(op))
}

/// The start-pending states observed in a log segment, in order.
pub open spec fn start_reads(ops: Seq<PortOp>) -> Seq<bool> {
    flat_of(ops, |op: PortOp| start_of(op))
}

/// The operations a call appended to a log: the suffix of `post` after
/// `pre`.
pub open spec fn since(pre: Seq<PortOp>, post: Seq<PortOp>) -> Seq<PortOp> {
    post.skip(pre.len() as int)
}

/// A per-operation view distributes over appending one operation.
pub proof fn lemma_flat_of_push<T>(ops: Seq<PortOp>, op: PortOp, f: spec_fn(PortOp) -> Seq<T>)
    ensures
        flat_of(ops.push(op), f) == flat_of(ops, f) + f(op),
{
    assert(ops.push(op).drop_last() =~= ops);
    assert(ops.push(op).last() == op);
}

/// A per-operation view distributes over concatenation of segments.
pub proof fn lemma_flat_of_concat<T>(a: Seq<PortOp>, b: Seq<PortOp>, f: spec_fn(PortOp) -> Seq<T>)
    ensures
        flat_of(a + b, f) == flat_of(a, f) + flat_of(b, f),
    decreases b.len(),
{
    if b.len() == 0 {
        assert(a + b =~= a);
        assert(flat_of(a, f) + flat_of(b, f) =~= flat_of(a, f));
    } else {
        lemma_flat_of_concat(a, b.drop_last(), f);
        assert((a + b).drop_last() =~= a + b.drop_last());
        assert((a + b).last() == b.last());
        assert(flat_of(a + b, f) == flat_of(a, f) + flat_of(b.drop_last(), f) + f(b.last()));
        assert(flat_of(a, f) + flat_of(b.drop_last(), f) + f(b.last()) =~= flat_of(a, f)
            + flat_of(b, f));
    }
}

/// All four views of a one-operation extension.
pub proof fn lemma_log_push(ops: Seq<PortOp>, op: PortOp)
    ensures
        mutations(ops.push(op)) == mutations(ops) + mut_of(op),
        statuses(ops.push(op)) == statuses(ops) + status_of(op),
        rx_reads(ops.push(op)) == rx_reads(ops) + rx_of(op),
        start_reads(ops.push(op)) == start_reads(ops) + start_of(op),
{
    lemma_flat_of_push(ops, op, |o: PortOp| mut_of(o));
    lemma_flat_of_push(ops, op, |o: PortOp| status_of(o));
    lemma_flat_of_push(ops, op, |o: PortOp| rx_of(o));
    lemma_flat_of_push(ops, op, |o: PortOp| start_of(o));
}

/// All four views distribute over concatenation of segments.
pub proof fn lemma_log_concat(a: Seq<PortOp>, b: Seq<PortOp>)
    ensures
        mutations(a + b) == mutations(a) + mutations(b),
        statuses(a + b) == statuses(a) + statuses(b),
        rx_reads(a + b) == rx_reads(a) + rx_reads(b),
        start_reads(a + b) == start_reads(a) + start_reads(b),
{
    lemma_flat_of_concat(a, b, |o: PortOp| mut_of(o));
    lemma_flat_of_concat(a, b, |o: PortOp| status_of(o));
    lemma_flat_of_concat(a, b, |o: PortOp| rx_of(o));
    lemma_flat_of_concat(a, b, |o: PortOp| start_of(o));
}

/// Nothing was appended between a log and itself.
pub proof fn lemma_since_empty(l: Seq<PortOp>)
    ensures
        l.is_prefix_of(l),
        since(l, l) == Seq::<PortOp>::empty(),
        mutations(Seq::<PortOp>::empty()) == Seq::<Mutation>::empty(),
        statuses(Seq::<PortOp>::empty()) == Seq::<StatusFlags>::empty(),
        rx_reads(Seq::<PortOp>::empty()) == Seq::<u8>::empty(),
        start_reads(Seq::<PortOp>::empty()) == Seq::<bool>::empty(),
{
    assert(since(l, l) =~= Seq::<PortOp>::empty());
    assert(l.is_prefix_of(l)) by {
        assert(l.subrange(0, l.len() as int) =~= l);
    }
}

/// Appending one operation extends the appended suffix by that operation.
pub proof fn lemma_since_push(pre: Seq<PortOp>, cur: Seq<PortOp>, op: PortOp)
    requires
        pre.is_prefix_of(cur),
    ensures
        pre.is_prefix_of(cur.push(op)),
        since(pre, cur.push(op)) == since(pre, cur).push(op),
{
    assert(since(pre, cur.push(op)) =~= since(pre, cur).push(op));
    assert(pre.is_prefix_of(cur.push(op))) by {
        assert(cur.push(op).subrange(0, pre.len() as int) =~= cur.subrange(
            0,
            pre.len() as int,
        ));
    }
}

/// Suffixes compose across an intermediate log.
pub proof fn lemma_since_trans(a: Seq<PortOp>, b: Seq<PortOp>, c: Seq<PortOp>)
    requires
        a.is_prefix_of(b),
        b.is_prefix_of(c),
    ensures
        a.is_prefix_of(c),
        since(a, c) == since(a, b) + since(b, c),
{
    assert(since(a, c) =~= since(a, b) + since(b, c));
    assert(a.is_prefix_of(c)) by {
        assert(c.subrange(0, a.len() as int) =~= b.subrange(0, a.len() as int));
    }
}

} // verus!
