use vstd::prelude::*;
use vstd::pervasive::VecAdditionalExecFns;
use crate::errors::{ConfigError, Error};
use crate::port::{
    lemma_log_concat, lemma_log_push, lemma_since_empty, lemma_since_push, lemma_since_trans,
    mut_of, mutations, rx_of, rx_reads, since, start_reads, statuses, BusPort, ControlWord,
    Mutation, PortOp,
};
use crate::status::{spec_classify, ClearMask, Event, StatusFlags};
use crate::timing::{derive_timing, timing_result_spec, TimingParameters};

verus! {

/// Default number of poll iterations before a busy-wait gives up.  The
/// expected wait is a handful of bus cycles; this bound only turns an
/// indefinitely wedged bus into a reported `Timeout`.
pub const DEFAULT_POLL_LIMIT: u32 = 0xffff_ffff;

/// The status flag a poll phase waits for.
#[derive(Clone, Copy, PartialEq, Eq, Structural, Debug)]
pub enum AwaitFlag {
    /// Transmit register empty: the next byte may be handed over.
    TransmitEmpty,
    /// Receive register not empty: a byte arrived.
    ReceiveNotEmpty,
    /// The programmed byte count was transferred.
    TransferComplete,
}

/// Whether a status word raises the awaited flag.
pub open spec fn spec_has_flag(s: StatusFlags, k: AwaitFlag) -> bool {
    match k {
        AwaitFlag::TransmitEmpty => s.transmit_empty,
        AwaitFlag::ReceiveNotEmpty => s.receive_not_empty,
        AwaitFlag::TransferComplete => s.transfer_complete,
    }
}

/// The control word opening a write phase: START requested, write
/// direction, automatic end disabled so that software issues STOP.
pub open spec fn spec_start_write_word(addr: u8, n: u8) -> ControlWord {
    ControlWord {
        start: true,
        stop: false,
        address: addr,
        read_direction: false,
        byte_count: n,
        auto_end: false,
    }
}

/// The control word opening a read phase: START requested, read direction,
/// hardware STOP once the byte count is reached.
pub open spec fn spec_start_read_word(addr: u8, n: u8) -> ControlWord {
    ControlWord {
        start: true,
        stop: false,
        address: addr,
        read_direction: true,
        byte_count: n,
        auto_end: true,
    }
}

/// The control word issuing an explicit STOP.
pub open spec fn spec_stop_word() -> ControlWord {
    ControlWord {
        start: false,
        stop: true,
        address: 0,
        read_direction: false,
        byte_count: 0,
        auto_end: false,
    }
}

/// No observed status word classifies to an abort.
pub open spec fn all_clean(ss: Seq<StatusFlags>) -> bool {
    forall|i: int| 0 <= i < ss.len() ==> spec_classify(ss[i]) is None
}

/// The status word at position `j` is the first to classify to an abort,
/// and it classifies to `e`: the priority order of the classifier decided
/// the error.
pub open spec fn abort_at(ss: Seq<StatusFlags>, e: Error, j: int) -> bool {
    0 <= j < ss.len() && spec_classify(ss[j]) == Some(e) && all_clean(ss.take(j))
}

/// The first observed status word that classifies to an abort classifies
/// to `e`.
pub open spec fn first_abort_is(ss: Seq<StatusFlags>, e: Error) -> bool {
    exists|j: int| abort_at(ss, e, j)
}

/// Number of mutating operations the cleanup of an abort writes: the one
/// flag-clear, plus the transmit flush a NACK adds.
pub open spec fn cleanup_count(e: Error) -> int {
    match e {
        Error::Bus => 1,
        Error::Arbitration => 1,
        Error::NotAcknowledge => 2,
        Error::LengthError => 0,
        Error::Timeout => 0,
    }
}

/// After a NACK the record holds the flush-deciding status right after
/// the abort: a dummy byte went to the data register exactly when that
/// status showed a transmit about to go out, else the transmit-empty flag
/// was forced.  For the other aborts there is nothing to direct.
pub open spec fn nack_flush_directed(t: Seq<PortOp>, e: Error, j: int) -> bool {
    e is NotAcknowledge ==> j + 1 < statuses(t).len() && (mutations(t).last()
        == Mutation::FlushDummy <==> statuses(t)[j + 1].transmit_empty)
}

/// What one aborted poll phase observed: the abort at position `j`, no
/// grant of the awaited flag `k` before it, and for a NACK the flush
/// directed by the post-clear status.
pub open spec fn phase_abort(t: Seq<PortOp>, e: Error, k: AwaitFlag) -> bool {
    exists|j: int|
        #[trigger] abort_at(statuses(t), e, j) && count_flagged(statuses(t).take(j), k) == 0
            && nack_flush_directed(t, e, j)
}

/// The final `m` observed statuses never raised the awaited flag: a poll
/// budget of `m` was spent without a grant.
pub open spec fn starved_suffix(ss: Seq<StatusFlags>, m: int, k: AwaitFlag) -> bool {
    ss.len() >= m && forall|i: int| ss.len() - m <= i < ss.len() ==> !spec_has_flag(ss[i], k)
}

/// Exactly `m` start-pending reads were made and every one reported the
/// previous start request still in flight.
pub open spec fn pending_starved(t: Seq<PortOp>, m: int) -> bool {
    start_reads(t).len() == m && forall|i: int|
        0 <= i < start_reads(t).len() ==> start_reads(t)[i]
}

/// How many of the observed status words raise the awaited flag.  Each
/// raised flag answers one poll phase, so this counts the transfer steps
/// the device granted.
pub open spec fn count_flagged(ss: Seq<StatusFlags>, k: AwaitFlag) -> int
    decreases ss.len(),
{
    if ss.len() == 0 {
        0
    } else {
        count_flagged(ss.drop_last(), k) + if spec_has_flag(ss.last(), k) {
            1int
        } else {
            0int
        }
    }
}

/// The flag count distributes over concatenation.
pub proof fn lemma_count_flagged_concat(a: Seq<StatusFlags>, b: Seq<StatusFlags>, k: AwaitFlag)
    ensures
        count_flagged(a + b, k) == count_flagged(a, k) + count_flagged(b, k),
    decreases b.len(),
{
    if b.len() == 0 {
        assert(a + b =~= a);
    } else {
        lemma_count_flagged_concat(a, b.drop_last(), k);
        assert((a + b).drop_last() =~= a + b.drop_last());
        assert((a + b).last() == b.last());
    }
}

/// A segment in which no status raises the flag counts zero.
pub proof fn lemma_count_flagged_none(ss: Seq<StatusFlags>, k: AwaitFlag)
    requires
        forall|i: int| 0 <= i < ss.len() ==> !spec_has_flag(ss[i], k),
    ensures
        count_flagged(ss, k) == 0,
    decreases ss.len(),
{
    if ss.len() > 0 {
        lemma_count_flagged_none(ss.drop_last(), k);
    }
}

/// A flag count is never negative.
pub proof fn lemma_count_flagged_nonneg(ss: Seq<StatusFlags>, k: AwaitFlag)
    ensures
        count_flagged(ss, k) >= 0,
    decreases ss.len(),
{
    if ss.len() > 0 {
        lemma_count_flagged_nonneg(ss.drop_last(), k);
    }
}

/// A segment whose statuses all lack the flag except the last counts one.
pub proof fn lemma_count_flagged_single(ss: Seq<StatusFlags>, k: AwaitFlag)
    requires
        ss.len() >= 1,
        forall|i: int| 0 <= i < ss.len() - 1 ==> !spec_has_flag(ss[i], k),
        spec_has_flag(ss.last(), k),
    ensures
        count_flagged(ss, k) == 1,
{
    lemma_count_flagged_none(ss.drop_last(), k);
}

/// An abort inside `b`, after the clean segment `a`, is an abort of the
/// concatenation, with the clean prefixes concatenating as well.
pub proof fn lemma_abort_at_concat(a: Seq<StatusFlags>, b: Seq<StatusFlags>, e: Error, j: int)
    requires
        all_clean(a),
        abort_at(b, e, j),
    ensures
        abort_at(a + b, e, a.len() + j),
        (a + b).take(a.len() + j) == a + b.take(j),
{
    assert((a + b)[a.len() + j] == b[j]);
    assert((a + b).take(a.len() + j) =~= a + b.take(j));
    lemma_all_clean_concat(a, b.take(j));
}

/// The mutating tail an abort leaves behind: the implicated flags are
/// cleared, and a NACK additionally flushes the transmit path one way or
/// the other.
pub open spec fn abort_cleanup(ms: Seq<Mutation>, e: Error) -> bool {
    match e {
        Error::Bus => ms == seq![Mutation::Clear(ClearMask::spec_bus_error())],
        Error::Arbitration => ms == seq![Mutation::Clear(ClearMask::spec_arbitration())],
        Error::NotAcknowledge => ms == seq![
            Mutation::Clear(ClearMask::spec_nack_stop()),
            Mutation::FlushDummy,
        ] || ms == seq![
            Mutation::Clear(ClearMask::spec_nack_stop()),
            Mutation::ForceEmpty,
        ],
        Error::LengthError => false,
        Error::Timeout => false,
    }
}

/// The payload bytes as data-register mutations.
pub open spec fn data_muts(bytes: Seq<u8>) -> Seq<Mutation> {
    bytes.map_values(|b: u8| Mutation::Data(b))
}

/// The control write opening a write phase followed by the first `k`
/// payload bytes, as the mutating trace of a partial write phase.
pub open spec fn write_phase_muts(addr: u8, bytes: Seq<u8>, k: int) -> Seq<Mutation> {
    seq![Mutation::Control(spec_start_write_word(addr, bytes.len() as u8))] + data_muts(
        bytes.take(k),
    )
}

/// Shape of an aborted write phase over the operations `t`: the mutating
/// record is exactly the opening control word, the first `k` bytes, and
/// the abort's cleanup (its length is pinned, so nothing else was
/// written).  The transfer-ready statuses observed up to the abort number
/// at least `k` — one byte per granted poll — and exactly `k` unless the
/// abort struck the final transfer-complete wait with every byte already
/// out.  For a NACK the flush is directed by the post-clear status.
pub open spec fn write_abort_shape(t: Seq<PortOp>, addr: u8, bytes: Seq<u8>, e: Error) -> bool {
    exists|j: int, k: int|
        #![trigger abort_at(statuses(t), e, j), write_phase_muts(addr, bytes, k)]
        {
            &&& abort_at(statuses(t), e, j)
            &&& 0 <= k <= bytes.len()
            &&& mutations(t).len() == 1 + k + cleanup_count(e)
            &&& mutations(t).take(1 + k) == write_phase_muts(addr, bytes, k)
            &&& abort_cleanup(mutations(t).skip(1 + k), e)
            &&& nack_flush_directed(t, e, j)
            &&& count_flagged(statuses(t).take(j), AwaitFlag::TransmitEmpty) >= k
            &&& (k < bytes.len() ==> k == count_flagged(
                statuses(t).take(j),
                AwaitFlag::TransmitEmpty,
            ))
        }
}

/// Shape of an aborted read loop over the operations `t`: the bytes taken
/// from the data register match the receive-ready statuses observed up to
/// the abort — one byte per granted poll — and for a NACK the flush is
/// directed by the post-clear status.
pub open spec fn read_abort_shape(t: Seq<PortOp>, e: Error) -> bool {
    exists|j: int|
        #[trigger] abort_at(statuses(t), e, j) && rx_reads(t).len() == count_flagged(
            statuses(t).take(j),
            AwaitFlag::ReceiveNotEmpty,
        ) && nack_flush_directed(t, e, j)
}

/// Trace of one write call over the operations `t` it appended to the
/// port log, under the poll bound `limit`: the control word programmed,
/// the bytes handed over in order — each after a granted transfer-ready
/// poll — and the explicit STOP as the very last operation, after a
/// transfer-complete grant.  On an abort, the priority-ordered
/// classification with its pinned cleanup tail; on a timeout, the wait
/// that gave up spent its whole poll budget without a grant.
pub open spec fn write_trace(
    t: Seq<PortOp>,
    addr: u8,
    bytes: Seq<u8>,
    limit: u32,
    r: Result<(), Error>,
) -> bool {
    match r {
        Ok(()) => {
            &&& mutations(t) == write_phase_muts(addr, bytes, bytes.len() as int) + seq![
                Mutation::Control(spec_stop_word()),
            ]
            &&& all_clean(statuses(t))
            &&& rx_reads(t) == Seq::<u8>::empty()
            &&& count_flagged(statuses(t), AwaitFlag::TransmitEmpty) >= bytes.len()
            &&& count_flagged(statuses(t), AwaitFlag::TransferComplete) >= 1
            &&& t.len() >= 1
            &&& t.last() == PortOp::WriteControl(spec_stop_word())
        },
        Err(Error::LengthError) => t == Seq::<PortOp>::empty(),
        Err(Error::Timeout) => {
            &&& all_clean(statuses(t))
            &&& rx_reads(t) == Seq::<u8>::empty()
            &&& ((mutations(t) == Seq::<Mutation>::empty() && statuses(t) == Seq::<
                StatusFlags,
            >::empty() && pending_starved(t, limit as int)) || exists|k: int|
                0 <= k <= bytes.len() && mutations(t) == write_phase_muts(addr, bytes, k)
                    && starved_suffix(
                    statuses(t),
                    limit as int,
                    if k < bytes.len() {
                        AwaitFlag::TransmitEmpty
                    } else {
                        AwaitFlag::TransferComplete
                    },
                ))
        },
        Err(e) => {
            &&& first_abort_is(statuses(t), e)
            &&& rx_reads(t) == Seq::<u8>::empty()
            &&& write_abort_shape(t, addr, bytes, e)
        },
    }
}

/// Trace of one read call over the operations `t` it appended to the port
/// log, under the poll bound `limit`: the control word programmed (read
/// direction, automatic STOP), one received byte per granted
/// receive-ready poll, and on an abort the priority-ordered
/// classification with its pinned cleanup tail; on a timeout, the wait
/// that gave up spent its whole poll budget without a grant.
pub open spec fn read_trace(
    t: Seq<PortOp>,
    addr: u8,
    n: u8,
    limit: u32,
    r: Result<(), Error>,
) -> bool {
    match r {
        Ok(()) => {
            &&& mutations(t) == seq![Mutation::Control(spec_start_read_word(addr, n))]
            &&& all_clean(statuses(t))
            &&& rx_reads(t).len() == n
            &&& count_flagged(statuses(t), AwaitFlag::ReceiveNotEmpty) == n
        },
        Err(Error::LengthError) => t == Seq::<PortOp>::empty(),
        Err(Error::Timeout) => {
            &&& all_clean(statuses(t))
            &&& rx_reads(t).len() <= n
            &&& ((mutations(t) == Seq::<Mutation>::empty() && statuses(t) == Seq::<
                StatusFlags,
            >::empty() && pending_starved(t, limit as int)) || (mutations(t) == seq![
                Mutation::Control(spec_start_read_word(addr, n)),
            ] && starved_suffix(statuses(t), limit as int, AwaitFlag::ReceiveNotEmpty)))
        },
        Err(e) => {
            &&& first_abort_is(statuses(t), e)
            &&& rx_reads(t).len() < n
            &&& mutations(t).len() == 1 + cleanup_count(e)
            &&& mutations(t).take(1) == seq![Mutation::Control(spec_start_read_word(addr, n))]
            &&& abort_cleanup(mutations(t).skip(1), e)
            &&& read_abort_shape(t, e)
        },
    }
}

/// Trace of one write-then-read call over the operations `t` it appended,
/// under the poll bound `limit`: the write phase runs without STOP, a
/// repeated START switches to read direction with automatic STOP, and an
/// abort in the write phase means the repeated START is never issued —
/// each abort arm pins the whole mutating record, so the repeated START
/// appears exactly once or not at all.
pub open spec fn write_read_trace(
    t: Seq<PortOp>,
    addr: u8,
    bytes: Seq<u8>,
    n: u8,
    limit: u32,
    r: Result<(), Error>,
) -> bool {
    match r {
        Ok(()) => {
            &&& mutations(t) == write_phase_muts(addr, bytes, bytes.len() as int) + seq![
                Mutation::Control(spec_start_read_word(addr, n)),
            ]
            &&& all_clean(statuses(t))
            &&& rx_reads(t).len() == n
            &&& count_flagged(statuses(t), AwaitFlag::TransmitEmpty) >= bytes.len()
            &&& count_flagged(statuses(t), AwaitFlag::TransferComplete) >= 1
            &&& count_flagged(statuses(t), AwaitFlag::ReceiveNotEmpty) >= n
        },
        Err(Error::LengthError) => t == Seq::<PortOp>::empty(),
        Err(Error::Timeout) => {
            &&& all_clean(statuses(t))
            &&& rx_reads(t).len() <= n
            &&& ((mutations(t) == Seq::<Mutation>::empty() && statuses(t) == Seq::<
                StatusFlags,
            >::empty() && pending_starved(t, limit as int)) || (exists|k: int|
                0 <= k <= bytes.len() && mutations(t) == write_phase_muts(addr, bytes, k)
                    && rx_reads(t) == Seq::<u8>::empty() && starved_suffix(
                    statuses(t),
                    limit as int,
                    if k < bytes.len() {
                        AwaitFlag::TransmitEmpty
                    } else {
                        AwaitFlag::TransferComplete
                    },
                )) || (mutations(t) == write_phase_muts(addr, bytes, bytes.len() as int)
                + seq![Mutation::Control(spec_start_read_word(addr, n))] && starved_suffix(
                statuses(t),
                limit as int,
                AwaitFlag::ReceiveNotEmpty,
            )))
        },
        Err(e) => {
            &&& first_abort_is(statuses(t), e)
            &&& ((write_abort_shape(t, addr, bytes, e) && rx_reads(t) == Seq::<u8>::empty())
                || (mutations(t).len() == 2 + bytes.len() + cleanup_count(e) && mutations(
                t,
            ).take(2 + bytes.len() as int) == write_phase_muts(addr, bytes, bytes.len() as int)
                + seq![Mutation::Control(spec_start_read_word(addr, n))] && abort_cleanup(
                mutations(t).skip(2 + bytes.len() as int),
                e,
            ) && rx_reads(t).len() < n && exists|j: int|
                #[trigger] abort_at(statuses(t), e, j) && nack_flush_directed(t, e, j)))
        },
    }
}

/// Concatenating clean status segments stays clean.
pub proof fn lemma_all_clean_concat(a: Seq<StatusFlags>, b: Seq<StatusFlags>)
    requires
        all_clean(a),
        all_clean(b),
    ensures
        all_clean(a + b),
{
    assert forall|j: int| 0 <= j < (a + b).len() implies spec_classify((a + b)[j]) is None by {
        if j < a.len() {
            assert((a + b)[j] == a[j]);
        } else {
            assert((a + b)[j] == b[j - a.len()]);
        }
    }
}

/// A clean status segment followed by one whose first abort is `e` has
/// first abort `e` as a whole.
pub proof fn lemma_first_abort_concat(a: Seq<StatusFlags>, b: Seq<StatusFlags>, e: Error)
    requires
        all_clean(a),
        first_abort_is(b, e),
    ensures
        first_abort_is(a + b, e),
{
    let j: int = choose|j: int| abort_at(b, e, j);
    lemma_abort_at_concat(a, b, e, j);
    assert(abort_at(a + b, e, a.len() + j));
}

/// Direction mode of one transaction.
#[derive(Clone, Copy, PartialEq, Eq, Structural, Debug)]
pub enum Mode {
    /// Send bytes only.
    Write,
    /// Receive bytes only.
    Read,
    /// Send, then receive after a repeated START.
    WriteThenRead,
}

/// A validated transaction descriptor.  One is created per call, lives
/// only for the call's duration, and is discarded on completion or error.
#[derive(Clone, Copy, PartialEq, Eq, Structural, Debug)]
pub struct Transaction {
    /// 7-bit device address.
    pub address: u8,
    /// Direction mode.
    pub mode: Mode,
    /// Bytes sent in the write portion.
    pub out_bytes: u8,
    /// Bytes received in the read portion.
    pub in_bytes: u8,
}

impl Transaction {
    /// Lengths a transaction may carry: each active direction moves
    /// between 1 and 255 bytes, the width of the hardware byte-count
    /// field.
    pub open spec fn spec_lengths_ok(mode: Mode, out_len: nat, in_len: nat) -> bool {
        match mode {
            Mode::Write => 1 <= out_len <= 255 && in_len == 0,
            Mode::Read => out_len == 0 && 1 <= in_len <= 255,
            Mode::WriteThenRead => 1 <= out_len <= 255 && 1 <= in_len <= 255,
        }
    }

    /// Validate the byte counts and build a transaction descriptor; a
    /// length outside its allowed range is rejected with `LengthError`.
    pub fn new(address: u8, mode: Mode, out_len: usize, in_len: usize) -> (r: Result<
        Transaction,
        Error,
    >)
        requires
            address < 128,
        ensures
            r is Ok <==> Transaction::spec_lengths_ok(mode, out_len as nat, in_len as nat),
            r is Err ==> r == Err::<Transaction, Error>(Error::LengthError),
            r matches Ok(tr) ==> tr.address == address && tr.mode == mode && tr.out_bytes
                == out_len && tr.in_bytes == in_len,
    {
        let out_ok: bool = 1 <= out_len && out_len <= 255;
        let in_ok: bool = 1 <= in_len && in_len <= 255;
        let ok: bool = match mode {
            Mode::Write => out_ok && in_len == 0,
            Mode::Read => out_len == 0 && in_ok,
            Mode::WriteThenRead => out_ok && in_ok,
        };
        if ok {
            Ok(Transaction { address, mode, out_bytes: out_len as u8, in_bytes: in_len as u8 })
        } else {
            Err(Error::LengthError)
        }
    }
}

/// The flag-clear mask that acknowledging one notification event writes:
/// generic errors clear bus error, arbitration loss and overrun together,
/// and the transfer-progress events clear nothing.
pub open spec fn spec_irq_clear_mask(e: Event) -> ClearMask {
    match e {
        Event::Stop => ClearMask::spec_stop(),
        Event::Errors => ClearMask::spec_errors(),
        Event::NotAcknowledge => ClearMask::spec_nack(),
        _ => ClearMask::spec_none(),
    }
}

/// The blocking transaction engine.  It owns one peripheral register
/// surface exclusively and runs write / read / write-then-read calls as
/// START, addressing, byte transfer, optional repeated START, STOP, with
/// abort conditions checked on every poll in classifier priority order.
pub struct I2c<I2C: BusPort> {
    i2c: I2C,
    poll_limit: u32,
}

impl<I2C: BusPort> I2c<I2C> {
    /// The operation log of the owned register surface.
    pub closed spec fn log(&self) -> Seq<PortOp> {
        self.i2c.log()
    }

    /// The configured bound on poll iterations per busy-wait.
    pub closed spec fn spec_poll_limit(&self) -> u32 {
        self.poll_limit
    }

    /// Bound the number of poll iterations of each busy-wait.  A limit of
    /// zero makes every poll time out at once.
    pub fn set_poll_limit(&mut self, limit: u32)
        ensures
            final(self).log() == old(self).log(),
            final(self).spec_poll_limit() == limit,
    {
        self.poll_limit = limit;
    }

    /// Poll the status register until the awaited flag is raised, checking
    /// on every iteration, in priority order and before the awaited flag,
    /// the three abort conditions: bus error, arbitration loss, NACK.  On
    /// the first observed abort the implicated flags are cleared (for a
    /// NACK, the transmit path is also flushed) and the classified error
    /// is returned.
    fn await_flag(&mut self, k: AwaitFlag) -> (r: Result<(), Error>)
        ensures
            old(self).log().is_prefix_of(final(self).log()),
            final(self).spec_poll_limit() == old(self).spec_poll_limit(),
            ({
                let t = since(old(self).log(), final(self).log());
                let ss = statuses(t);
                &&& rx_reads(t) == Seq::<u8>::empty()
                &&& match r {
                    Ok(()) => {
                        &&& mutations(t) == Seq::<Mutation>::empty()
                        &&& ss.len() >= 1
                        &&& all_clean(ss)
                        &&& spec_has_flag(ss.last(), k)
                        &&& forall|i: int| 0 <= i < ss.len() - 1 ==> !spec_has_flag(ss[i], k)
                    },
                    Err(Error::Timeout) => {
                        &&& mutations(t) == Seq::<Mutation>::empty()
                        &&& all_clean(ss)
                        &&& ss.len() == old(self).spec_poll_limit()
                        &&& forall|i: int| 0 <= i < ss.len() ==> !spec_has_flag(ss[i], k)
                    },
                    Err(Error::LengthError) => false,
                    Err(e) => {
                        &&& abort_cleanup(mutations(t), e)
                        &&& mutations(t).len() == cleanup_count(e)
                        &&& phase_abort(t, e, k)
                    },
                }
            }),
    {
        let ghost base = self.i2c.log();
        proof {
            lemma_since_empty(base);
        }
        let limit: u32 = self.poll_limit;
        let mut polls: u32 = 0;
        while polls < limit
            invariant
                polls <= limit,
                limit == old(self).spec_poll_limit(),
                self.poll_limit == limit,
                base == old(self).log(),
                base.is_prefix_of(self.i2c.log()),
                mutations(since(base, self.i2c.log())) == Seq::<Mutation>::empty(),
                rx_reads(since(base, self.i2c.log())) == Seq::<u8>::empty(),
                statuses(since(base, self.i2c.log())).len() == polls,
                all_clean(statuses(since(base, self.i2c.log()))),
                forall|i: int|
                    0 <= i < statuses(since(base, self.i2c.log())).len() ==> !spec_has_flag(
                        statuses(since(base, self.i2c.log()))[i],
                        k,
                    ),
            decreases limit - polls,
        {
            let ghost pre = self.i2c.log();
            let s = self.i2c.read_status();
            proof {
                lemma_since_push(base, pre, PortOp::ReadStatus(s));
                lemma_log_push(since(base, pre), PortOp::ReadStatus(s));
                assert(mutations(since(base, pre)) + mut_of(PortOp::ReadStatus(s))
                    =~= Seq::<Mutation>::empty());
                assert(rx_reads(since(base, pre)) + rx_of(PortOp::ReadStatus(s)) =~= Seq::<
                    u8,
                >::empty());
                assert(statuses(since(base, self.i2c.log())) =~= statuses(since(base, pre)).push(
                    s,
                ));
            }
            if s.bus_error {
                let ghost pre2 = self.i2c.log();
                self.i2c.clear_flags(ClearMask::new(true, false, false, false, false));
                proof {
                    lemma_since_push(base, pre2, PortOp::ClearFlags(ClearMask::spec_bus_error()));
                    lemma_log_push(since(base, pre2), PortOp::ClearFlags(
                        ClearMask::spec_bus_error(),
                    ));
                    let t = since(base, self.i2c.log());
                    assert(mutations(t) =~= seq![Mutation::Clear(ClearMask::spec_bus_error())]);
                    assert(statuses(t) =~= statuses(since(base, pre2)));
                    assert(rx_reads(t) =~= Seq::<u8>::empty());
                    let ss = statuses(t);
                    assert(spec_classify(ss[ss.len() - 1]) == Some(Error::Bus));
                    assert(ss.take(ss.len() - 1) =~= statuses(since(base, pre)));
                    let jj: int = ss.len() - 1;
                    lemma_count_flagged_none(ss.take(jj), k);
                    assert(abort_at(ss, Error::Bus, jj) && count_flagged(ss.take(jj), k) == 0
                        && nack_flush_directed(t, Error::Bus, jj));
                    assert(phase_abort(t, Error::Bus, k));
                }
                return Err(Error::Bus);
            } else if s.arbitration_lost {
                let ghost pre2 = self.i2c.log();
                self.i2c.clear_flags(ClearMask::new(false, true, false, false, false));
                proof {
                    lemma_since_push(base, pre2, PortOp::ClearFlags(
                        ClearMask::spec_arbitration(),
                    ));
                    lemma_log_push(since(base, pre2), PortOp::ClearFlags(
                        ClearMask::spec_arbitration(),
                    ));
                    let t = since(base, self.i2c.log());
                    assert(mutations(t) =~= seq![Mutation::Clear(ClearMask::spec_arbitration())]);
                    assert(statuses(t) =~= statuses(since(base, pre2)));
                    assert(rx_reads(t) =~= Seq::<u8>::empty());
                    let ss = statuses(t);
                    assert(spec_classify(ss[ss.len() - 1]) == Some(Error::Arbitration));
                    assert(ss.take(ss.len() - 1) =~= statuses(since(base, pre)));
                    let jj: int = ss.len() - 1;
                    lemma_count_flagged_none(ss.take(jj), k);
                    assert(abort_at(ss, Error::Arbitration, jj) && count_flagged(ss.take(jj), k)
                        == 0 && nack_flush_directed(t, Error::Arbitration, jj));
                    assert(phase_abort(t, Error::Arbitration, k));
                }
                return Err(Error::Arbitration);
            } else if s.nack_received {
                // a NACK auto-generates STOP: clear both flags, then flush
                // the transmit path so the next transaction starts clean
                let ghost pre2 = self.i2c.log();
                self.i2c.clear_flags(ClearMask::new(false, false, true, true, false));
                proof {
                    lemma_since_push(base, pre2, PortOp::ClearFlags(ClearMask::spec_nack_stop()));
                    lemma_log_push(since(base, pre2), PortOp::ClearFlags(
                        ClearMask::spec_nack_stop(),
                    ));
                }
                let ghost pre3 = self.i2c.log();
                let s2 = self.i2c.read_status();
                proof {
                    lemma_since_push(base, pre3, PortOp::ReadStatus(s2));
                    lemma_log_push(since(base, pre3), PortOp::ReadStatus(s2));
                }
                let ghost pre4 = self.i2c.log();
                if s2.transmit_empty {
                    self.i2c.write_dummy_data();
                    proof {
                        lemma_since_push(base, pre4, PortOp::FlushDummy);
                        lemma_log_push(since(base, pre4), PortOp::FlushDummy);
                    }
                } else {
                    self.i2c.force_transmit_empty();
                    proof {
                        lemma_since_push(base, pre4, PortOp::ForceEmpty);
                        lemma_log_push(since(base, pre4), PortOp::ForceEmpty);
                    }
                }
                proof {
                    let t = since(base, self.i2c.log());
                    assert(abort_cleanup(mutations(t), Error::NotAcknowledge)) by {
                        if s2.transmit_empty {
                            assert(mutations(t) =~= seq![
                                Mutation::Clear(ClearMask::spec_nack_stop()),
                                Mutation::FlushDummy,
                            ]);
                        } else {
                            assert(mutations(t) =~= seq![
                                Mutation::Clear(ClearMask::spec_nack_stop()),
                                Mutation::ForceEmpty,
                            ]);
                        }
                    }
                    let ss = statuses(t);
                    assert(ss =~= statuses(since(base, pre)).push(s).push(s2));
                    let kk: int = ss.len() - 2;
                    assert(spec_classify(ss[kk]) == Some(Error::NotAcknowledge));
                    assert(ss.take(kk) =~= statuses(since(base, pre)));
                    lemma_count_flagged_none(ss.take(kk), k);
                    assert(ss[kk + 1] == s2);
                    assert(mutations(t).last() == Mutation::FlushDummy <==> s2.transmit_empty)
                        by {
                        if s2.transmit_empty {
                            assert(mutations(t) =~= seq![
                                Mutation::Clear(ClearMask::spec_nack_stop()),
                                Mutation::FlushDummy,
                            ]);
                        } else {
                            assert(mutations(t) =~= seq![
                                Mutation::Clear(ClearMask::spec_nack_stop()),
                                Mutation::ForceEmpty,
                            ]);
                        }
                    }
                    assert(abort_at(ss, Error::NotAcknowledge, kk) && count_flagged(
                        ss.take(kk),
                        k,
                    ) == 0 && nack_flush_directed(t, Error::NotAcknowledge, kk));
                    assert(phase_abort(t, Error::NotAcknowledge, k));
                    assert(rx_reads(t) =~= Seq::<u8>::empty());
                }
                return Err(Error::NotAcknowledge);
            } else {
                let found: bool = match k {
                    AwaitFlag::TransmitEmpty => s.transmit_empty,
                    AwaitFlag::ReceiveNotEmpty => s.receive_not_empty,
                    AwaitFlag::TransferComplete => s.transfer_complete,
                };
                if found {
                    return Ok(());
                }
            }
            polls = polls + 1;
        }
        Err(Error::Timeout)
    }

    /// Poll until no start request from a previous call is still in
    /// flight.  This wait observes only the transfer-control register, so
    /// it checks no abort condition; only the poll bound ends it early.
    fn wait_start_clear(&mut self) -> (r: Result<(), Error>)
        ensures
            old(self).log().is_prefix_of(final(self).log()),
            final(self).spec_poll_limit() == old(self).spec_poll_limit(),
            ({
                let t = since(old(self).log(), final(self).log());
                &&& mutations(t) == Seq::<Mutation>::empty()
                &&& statuses(t) == Seq::<StatusFlags>::empty()
                &&& rx_reads(t) == Seq::<u8>::empty()
                &&& (r is Ok || r == Err::<(), Error>(Error::Timeout))
                &&& (r == Err::<(), Error>(Error::Timeout) ==> pending_starved(
                    t,
                    old(self).spec_poll_limit() as int,
                ))
            }),
    {
        let ghost base = self.i2c.log();
        proof {
            lemma_since_empty(base);
        }
        let limit: u32 = self.poll_limit;
        let mut polls: u32 = 0;
        while polls < limit
            invariant
                polls <= limit,
                self.poll_limit == limit,
                limit == old(self).spec_poll_limit(),
                base == old(self).log(),
                base.is_prefix_of(self.i2c.log()),
                mutations(since(base, self.i2c.log())) == Seq::<Mutation>::empty(),
                statuses(since(base, self.i2c.log())) == Seq::<StatusFlags>::empty(),
                rx_reads(since(base, self.i2c.log())) == Seq::<u8>::empty(),
                start_reads(since(base, self.i2c.log())).len() == polls,
                forall|i: int|
                    0 <= i < start_reads(since(base, self.i2c.log())).len()
                        ==> start_reads(since(base, self.i2c.log()))[i],
            decreases limit - polls,
        {
            let ghost pre = self.i2c.log();
            let b = self.i2c.start_pending();
            proof {
                lemma_since_push(base, pre, PortOp::ReadStart(b));
                lemma_log_push(since(base, pre), PortOp::ReadStart(b));
                assert(mutations(since(base, self.i2c.log())) =~= Seq::<Mutation>::empty());
                assert(statuses(since(base, self.i2c.log())) =~= Seq::<StatusFlags>::empty());
                assert(rx_reads(since(base, self.i2c.log())) =~= Seq::<u8>::empty());
                assert(start_reads(since(base, self.i2c.log()))
                    =~= start_reads(since(base, pre)).push(b));
            }
            if !b {
                return Ok(());
            }
            polls = polls + 1;
        }
        Err(Error::Timeout)
    }

    /// Run the write portion of a transaction: wait out a pending start
    /// request, program the write control word (START, write direction,
    /// byte count, automatic end disabled), hand over each byte under an
    /// abort-checked poll, and wait for transfer-complete.  No STOP is
    /// issued here.
    fn write_phase(&mut self, addr: u8, bytes: &[u8]) -> (r: Result<(), Error>)
        requires
            1 <= bytes@.len() <= 255,
        ensures
            old(self).log().is_prefix_of(final(self).log()),
            final(self).spec_poll_limit() == old(self).spec_poll_limit(),
            ({
                let t = since(old(self).log(), final(self).log());
                let ss = statuses(t);
                &&& rx_reads(t) == Seq::<u8>::empty()
                &&& match r {
                    Ok(()) => {
                        &&& mutations(t) == write_phase_muts(addr, bytes@, bytes@.len() as int)
                        &&& all_clean(ss)
                        &&& count_flagged(ss, AwaitFlag::TransmitEmpty) >= bytes@.len()
                        &&& count_flagged(ss, AwaitFlag::TransferComplete) >= 1
                    },
                    Err(Error::Timeout) => {
                        &&& all_clean(ss)
                        &&& ((mutations(t) == Seq::<Mutation>::empty() && ss == Seq::<
                            StatusFlags,
                        >::empty() && pending_starved(t, old(self).spec_poll_limit() as int))
                            || exists|k: int|
                            0 <= k <= bytes@.len() && mutations(t) == write_phase_muts(
                                addr,
                                bytes@,
                                k,
                            ) && starved_suffix(
                                ss,
                                old(self).spec_poll_limit() as int,
                                if k < bytes@.len() {
                                    AwaitFlag::TransmitEmpty
                                } else {
                                    AwaitFlag::TransferComplete
                                },
                            ))
                    },
                    Err(Error::LengthError) => false,
                    Err(e) => {
                        &&& first_abort_is(ss, e)
                        &&& write_abort_shape(t, addr, bytes@, e)
                    },
                }
            }),
    {
        let ghost base = self.i2c.log();
        proof {
            lemma_since_empty(base);
        }
        match self.wait_start_clear() {
            Ok(()) => {},
            Err(e) => {
                return Err(e);
            },
        }
        let n: u8 = bytes.len() as u8;
        let w = ControlWord {
            start: true,
            stop: false,
            address: addr,
            read_direction: false,
            byte_count: n,
            auto_end: false,
        };
        let ghost pre = self.i2c.log();
        self.i2c.write_control(w);
        proof {
            lemma_since_push(base, pre, PortOp::WriteControl(w));
            lemma_log_push(since(base, pre), PortOp::WriteControl(w));
            assert(w == spec_start_write_word(addr, bytes@.len() as u8));
            assert(mutations(since(base, self.i2c.log())) =~= write_phase_muts(addr, bytes@, 0));
            assert(statuses(since(base, self.i2c.log())) =~= Seq::<StatusFlags>::empty());
            assert(rx_reads(since(base, self.i2c.log())) =~= Seq::<u8>::empty());
            assert(count_flagged(Seq::<StatusFlags>::empty(), AwaitFlag::TransmitEmpty) == 0);
        }
        let mut i: usize = 0;
        while i < bytes.len()
            invariant
                i <= bytes@.len() <= 255,
                self.poll_limit == old(self).spec_poll_limit(),
                base == old(self).log(),
                base.is_prefix_of(self.i2c.log()),
                mutations(since(base, self.i2c.log())) == write_phase_muts(
                    addr,
                    bytes@,
                    i as int,
                ),
                all_clean(statuses(since(base, self.i2c.log()))),
                rx_reads(since(base, self.i2c.log())) == Seq::<u8>::empty(),
                count_flagged(statuses(since(base, self.i2c.log())), AwaitFlag::TransmitEmpty)
                    == i,
            decreases bytes@.len() - i,
        {
            let ghost mid = self.i2c.log();
            match self.await_flag(AwaitFlag::TransmitEmpty) {
                Ok(()) => {
                    proof {
                        lemma_since_trans(base, mid, self.i2c.log());
                        lemma_log_concat(since(base, mid), since(mid, self.i2c.log()));
                        assert(mutations(since(base, self.i2c.log())) =~= write_phase_muts(
                            addr,
                            bytes@,
                            i as int,
                        ));
                        assert(rx_reads(since(base, self.i2c.log())) =~= Seq::<u8>::empty());
                        lemma_all_clean_concat(
                            statuses(since(base, mid)),
                            statuses(since(mid, self.i2c.log())),
                        );
                        lemma_count_flagged_concat(
                            statuses(since(base, mid)),
                            statuses(since(mid, self.i2c.log())),
                            AwaitFlag::TransmitEmpty,
                        );
                        lemma_count_flagged_single(
                            statuses(since(mid, self.i2c.log())),
                            AwaitFlag::TransmitEmpty,
                        );
                    }
                },
                Err(e) => {
                    proof {
                        lemma_since_trans(base, mid, self.i2c.log());
                        lemma_log_concat(since(base, mid), since(mid, self.i2c.log()));
                        let t = since(base, self.i2c.log());
                        let t2 = since(mid, self.i2c.log());
                        let ss1 = statuses(since(base, mid));
                        let ss2 = statuses(t2);
                        assert(rx_reads(t) =~= Seq::<u8>::empty());
                        assert(statuses(t).len() == ss1.len() + ss2.len());
                        if e == Error::Timeout {
                            lemma_all_clean_concat(ss1, ss2);
                            assert(mutations(t) =~= write_phase_muts(addr, bytes@, i as int));
                            assert forall|i2: int|
                                statuses(t).len() - ss2.len() <= i2 < statuses(t).len()
                                    implies !spec_has_flag(
                                    statuses(t)[i2],
                                    AwaitFlag::TransmitEmpty,
                                ) by {
                                assert(statuses(t)[i2] == ss2[i2 - ss1.len()]);
                            }
                            assert(starved_suffix(
                                statuses(t),
                                old(self).spec_poll_limit() as int,
                                AwaitFlag::TransmitEmpty,
                            ));
                        } else {
                            let j2: int = choose|j: int|
                                abort_at(ss2, e, j) && count_flagged(
                                    ss2.take(j),
                                    AwaitFlag::TransmitEmpty,
                                ) == 0 && nack_flush_directed(t2, e, j);
                            lemma_abort_at_concat(ss1, ss2, e, j2);
                            lemma_count_flagged_concat(
                                ss1,
                                ss2.take(j2),
                                AwaitFlag::TransmitEmpty,
                            );
                            let jj: int = ss1.len() + j2;
                            assert(abort_at(statuses(t), e, jj));
                            assert(first_abort_is(statuses(t), e));
                            assert(count_flagged(
                                statuses(t).take(jj),
                                AwaitFlag::TransmitEmpty,
                            ) == i as int);
                            assert(write_phase_muts(addr, bytes@, i as int).len() == 1 + i) by {
                                assert(data_muts(bytes@.take(i as int)).len() == i);
                            }
                            assert(mutations(t).take(1 + i) =~= write_phase_muts(
                                addr,
                                bytes@,
                                i as int,
                            ));
                            assert(mutations(t).skip(1 + i) =~= mutations(t2));
                            assert(mutations(t).len() == 1 + i + cleanup_count(e));
                            assert(nack_flush_directed(t, e, jj)) by {
                                if e is NotAcknowledge {
                                    assert(statuses(t)[jj + 1] == ss2[j2 + 1]);
                                    assert(mutations(t).len() >= 1 + i + 1);
                                    assert(mutations(t).last() == mutations(t2).last());
                                }
                            }
                            assert(write_abort_shape(t, addr, bytes@, e));
                        }
                    }
                    return Err(e);
                },
            }
            let b: u8 = bytes[i];
            let ghost pre2 = self.i2c.log();
            self.i2c.write_data(b);
            proof {
                lemma_since_push(base, pre2, PortOp::WriteData(b));
                lemma_log_push(since(base, pre2), PortOp::WriteData(b));
                assert(data_muts(bytes@.take(i as int + 1)) =~= data_muts(
                    bytes@.take(i as int),
                ).push(Mutation::Data(b)));
                assert(mutations(since(base, self.i2c.log())) =~= write_phase_muts(
                    addr,
                    bytes@,
                    i as int + 1,
                ));
                assert(statuses(since(base, self.i2c.log())) =~= statuses(since(base, pre2)));
                assert(rx_reads(since(base, self.i2c.log())) =~= Seq::<u8>::empty());
            }
            i = i + 1;
        }
        let ghost mid2 = self.i2c.log();
        match self.await_flag(AwaitFlag::TransferComplete) {
            Ok(()) => {
                proof {
                    lemma_since_trans(base, mid2, self.i2c.log());
                    lemma_log_concat(since(base, mid2), since(mid2, self.i2c.log()));
                    let ss1 = statuses(since(base, mid2));
                    let ss2 = statuses(since(mid2, self.i2c.log()));
                    assert(mutations(since(base, self.i2c.log())) =~= write_phase_muts(
                        addr,
                        bytes@,
                        bytes@.len() as int,
                    ));
                    assert(rx_reads(since(base, self.i2c.log())) =~= Seq::<u8>::empty());
                    lemma_all_clean_concat(ss1, ss2);
                    lemma_count_flagged_concat(ss1, ss2, AwaitFlag::TransmitEmpty);
                    lemma_count_flagged_nonneg(ss2, AwaitFlag::TransmitEmpty);
                    lemma_count_flagged_concat(ss1, ss2, AwaitFlag::TransferComplete);
                    lemma_count_flagged_nonneg(ss1, AwaitFlag::TransferComplete);
                    lemma_count_flagged_single(ss2, AwaitFlag::TransferComplete);
                }
                Ok(())
            },
            Err(e) => {
                proof {
                    lemma_since_trans(base, mid2, self.i2c.log());
                    lemma_log_concat(since(base, mid2), since(mid2, self.i2c.log()));
                    let t = since(base, self.i2c.log());
                    let t2 = since(mid2, self.i2c.log());
                    let len: int = bytes@.len() as int;
                    let ss1 = statuses(since(base, mid2));
                    let ss2 = statuses(t2);
                    assert(rx_reads(t) =~= Seq::<u8>::empty());
                    assert(statuses(t).len() == ss1.len() + ss2.len());
                    if e == Error::Timeout {
                        lemma_all_clean_concat(ss1, ss2);
                        assert(mutations(t) =~= write_phase_muts(addr, bytes@, len));
                        assert forall|i2: int|
                            statuses(t).len() - ss2.len() <= i2 < statuses(t).len()
                                implies !spec_has_flag(
                                statuses(t)[i2],
                                AwaitFlag::TransferComplete,
                            ) by {
                            assert(statuses(t)[i2] == ss2[i2 - ss1.len()]);
                        }
                        assert(starved_suffix(
                            statuses(t),
                            old(self).spec_poll_limit() as int,
                            AwaitFlag::TransferComplete,
                        ));
                    } else {
                        let j2: int = choose|j: int|
                            abort_at(ss2, e, j) && count_flagged(
                                ss2.take(j),
                                AwaitFlag::TransferComplete,
                            ) == 0 && nack_flush_directed(t2, e, j);
                        lemma_abort_at_concat(ss1, ss2, e, j2);
                        lemma_count_flagged_concat(ss1, ss2.take(j2), AwaitFlag::TransmitEmpty);
                        lemma_count_flagged_nonneg(ss2.take(j2), AwaitFlag::TransmitEmpty);
                        let jj: int = ss1.len() + j2;
                        assert(abort_at(statuses(t), e, jj));
                        assert(first_abort_is(statuses(t), e));
                        assert(count_flagged(statuses(t).take(jj), AwaitFlag::TransmitEmpty)
                            >= len);
                        assert(write_phase_muts(addr, bytes@, len).len() == 1 + len) by {
                            assert(data_muts(bytes@.take(len)).len() == len);
                        }
                        assert(mutations(t).take(1 + len) =~= write_phase_muts(
                            addr,
                            bytes@,
                            len,
                        ));
                        assert(mutations(t).skip(1 + len) =~= mutations(t2));
                        assert(mutations(t).len() == 1 + len + cleanup_count(e));
                        assert(nack_flush_directed(t, e, jj)) by {
                            if e is NotAcknowledge {
                                assert(statuses(t)[jj + 1] == ss2[j2 + 1]);
                                assert(mutations(t).len() >= 1 + len + 1);
                                assert(mutations(t).last() == mutations(t2).last());
                            }
                        }
                        assert(write_abort_shape(t, addr, bytes@, e));
                    }
                }
                Err(e)
            },
        }
    }

    /// Receive one byte per buffer slot: each is awaited under an
    /// abort-checked poll and copied from the data register into the
    /// buffer in order.  Slots after an abort keep their previous
    /// contents.
    fn rx_loop(&mut self, buffer: &mut Vec<u8>) -> (r: Result<(), Error>)
        requires
            1 <= old(buffer)@.len() <= 255,
        ensures
            old(self).log().is_prefix_of(final(self).log()),
            final(self).spec_poll_limit() == old(self).spec_poll_limit(),
            final(buffer)@.len() == old(buffer)@.len(),
            ({
                let t = since(old(self).log(), final(self).log());
                &&& final(buffer)@ == rx_reads(t) + old(buffer)@.skip(rx_reads(t).len() as int)
                &&& match r {
                    Ok(()) => {
                        &&& mutations(t) == Seq::<Mutation>::empty()
                        &&& all_clean(statuses(t))
                        &&& rx_reads(t).len() == old(buffer)@.len()
                        &&& count_flagged(statuses(t), AwaitFlag::ReceiveNotEmpty) == old(
                            buffer,
                        )@.len()
                    },
                    Err(Error::Timeout) => {
                        &&& mutations(t) == Seq::<Mutation>::empty()
                        &&& all_clean(statuses(t))
                        &&& rx_reads(t).len() < old(buffer)@.len()
                        &&& starved_suffix(
                            statuses(t),
                            old(self).spec_poll_limit() as int,
                            AwaitFlag::ReceiveNotEmpty,
                        )
                    },
                    Err(Error::LengthError) => false,
                    Err(e) => {
                        &&& first_abort_is(statuses(t), e)
                        &&& abort_cleanup(mutations(t), e)
                        &&& mutations(t).len() == cleanup_count(e)
                        &&& rx_reads(t).len() < old(buffer)@.len()
                        &&& read_abort_shape(t, e)
                    },
                }
            }),
    {
        let ghost base = self.i2c.log();
        proof {
            lemma_since_empty(base);
            assert(buffer@ =~= rx_reads(since(base, base)) + buffer@.skip(0));
            assert(count_flagged(Seq::<StatusFlags>::empty(), AwaitFlag::ReceiveNotEmpty) == 0);
        }
        let len: usize = buffer.len();
        let mut i: usize = 0;
        while i < len
            invariant
                i <= len,
                len == old(buffer)@.len(),
                buffer@.len() == len,
                self.poll_limit == old(self).spec_poll_limit(),
                base == old(self).log(),
                base.is_prefix_of(self.i2c.log()),
                mutations(since(base, self.i2c.log())) == Seq::<Mutation>::empty(),
                all_clean(statuses(since(base, self.i2c.log()))),
                rx_reads(since(base, self.i2c.log())).len() == i,
                buffer@ == rx_reads(since(base, self.i2c.log())) + old(buffer)@.skip(i as int),
                count_flagged(
                    statuses(since(base, self.i2c.log())),
                    AwaitFlag::ReceiveNotEmpty,
                ) == i,
            decreases len - i,
        {
            let ghost mid = self.i2c.log();
            match self.await_flag(AwaitFlag::ReceiveNotEmpty) {
                Ok(()) => {
                    proof {
                        lemma_since_trans(base, mid, self.i2c.log());
                        lemma_log_concat(since(base, mid), since(mid, self.i2c.log()));
                        assert(mutations(since(base, self.i2c.log())) =~= Seq::<
                            Mutation,
                        >::empty());
                        assert(rx_reads(since(base, self.i2c.log())) =~= rx_reads(
                            since(base, mid),
                        ));
                        lemma_all_clean_concat(
                            statuses(since(base, mid)),
                            statuses(since(mid, self.i2c.log())),
                        );
                        lemma_count_flagged_concat(
                            statuses(since(base, mid)),
                            statuses(since(mid, self.i2c.log())),
                            AwaitFlag::ReceiveNotEmpty,
                        );
                        lemma_count_flagged_single(
                            statuses(since(mid, self.i2c.log())),
                            AwaitFlag::ReceiveNotEmpty,
                        );
                    }
                },
                Err(e) => {
                    proof {
                        lemma_since_trans(base, mid, self.i2c.log());
                        lemma_log_concat(since(base, mid), since(mid, self.i2c.log()));
                        let t = since(base, self.i2c.log());
                        let t2 = since(mid, self.i2c.log());
                        let ss1 = statuses(since(base, mid));
                        let ss2 = statuses(t2);
                        assert(rx_reads(t) =~= rx_reads(since(base, mid)));
                        assert(statuses(t).len() == ss1.len() + ss2.len());
                        if e == Error::Timeout {
                            lemma_all_clean_concat(ss1, ss2);
                            assert(mutations(t) =~= Seq::<Mutation>::empty());
                            assert forall|i2: int|
                                statuses(t).len() - ss2.len() <= i2 < statuses(t).len()
                                    implies !spec_has_flag(
                                    statuses(t)[i2],
                                    AwaitFlag::ReceiveNotEmpty,
                                ) by {
                                assert(statuses(t)[i2] == ss2[i2 - ss1.len()]);
                            }
                            assert(starved_suffix(
                                statuses(t),
                                old(self).spec_poll_limit() as int,
                                AwaitFlag::ReceiveNotEmpty,
                            ));
                        } else {
                            let j2: int = choose|j: int|
                                abort_at(ss2, e, j) && count_flagged(
                                    ss2.take(j),
                                    AwaitFlag::ReceiveNotEmpty,
                                ) == 0 && nack_flush_directed(t2, e, j);
                            lemma_abort_at_concat(ss1, ss2, e, j2);
                            lemma_count_flagged_concat(
                                ss1,
                                ss2.take(j2),
                                AwaitFlag::ReceiveNotEmpty,
                            );
                            let jj: int = ss1.len() + j2;
                            assert(abort_at(statuses(t), e, jj));
                            assert(first_abort_is(statuses(t), e));
                            assert(rx_reads(t).len() == count_flagged(
                                statuses(t).take(jj),
                                AwaitFlag::ReceiveNotEmpty,
                            ));
                            assert(mutations(t) =~= mutations(t2));
                            assert(nack_flush_directed(t, e, jj)) by {
                                if e is NotAcknowledge {
                                    assert(statuses(t)[jj + 1] == ss2[j2 + 1]);
                                    assert(mutations(t).last() == mutations(t2).last());
                                }
                            }
                            assert(read_abort_shape(t, e));
                        }
                    }
                    return Err(e);
                },
            }
            let ghost pre2 = self.i2c.log();
            let b = self.i2c.read_data();
            buffer.set(i, b);
            proof {
                lemma_since_push(base, pre2, PortOp::ReadData(b));
                lemma_log_push(since(base, pre2), PortOp::ReadData(b));
                assert(mutations(since(base, self.i2c.log())) =~= Seq::<Mutation>::empty());
                assert(statuses(since(base, self.i2c.log())) =~= statuses(since(base, pre2)));
                assert(rx_reads(since(base, self.i2c.log())) =~= rx_reads(
                    since(base, pre2),
                ).push(b));
                assert(buffer@ =~= rx_reads(since(base, self.i2c.log())) + old(buffer)@.skip(
                    i as int + 1,
                ));
            }
            i = i + 1;
        }
        Ok(())
    }

    /// Write `bytes` to the device at the 7-bit address `addr`: START,
    /// address with write direction, every byte in order, then an explicit
    /// STOP.  A length outside 1..=255 is rejected with `LengthError`
    /// before any register access.  On an abort the classified error is
    /// returned with the remaining bytes abandoned and the implicated
    /// flags cleared.
    pub fn write(&mut self, addr: u8, bytes: &[u8]) -> (r: Result<(), Error>)
        requires
            addr < 128,
        ensures
            old(self).log().is_prefix_of(final(self).log()),
            final(self).spec_poll_limit() == old(self).spec_poll_limit(),
            (r == Err::<(), Error>(Error::LengthError) <==> !(1 <= bytes@.len() <= 255)),
            write_trace(
                since(old(self).log(), final(self).log()),
                addr,
                bytes@,
                old(self).spec_poll_limit(),
                r,
            ),
    {
        match Transaction::new(addr, Mode::Write, bytes.len(), 0) {
            Ok(_) => {},
            Err(e) => {
                proof {
                    lemma_since_empty(self.i2c.log());
                }
                return Err(e);
            },
        }
        let ghost base = self.i2c.log();
        match self.write_phase(addr, bytes) {
            Ok(()) => {},
            Err(e) => {
                return Err(e);
            },
        }
        let ghost mid = self.i2c.log();
        self.i2c.write_control(ControlWord {
            start: false,
            stop: true,
            address: 0,
            read_direction: false,
            byte_count: 0,
            auto_end: false,
        });
        proof {
            lemma_since_push(base, mid, PortOp::WriteControl(spec_stop_word()));
            lemma_log_push(since(base, mid), PortOp::WriteControl(spec_stop_word()));
            assert(mutations(since(base, self.i2c.log())) =~= write_phase_muts(
                addr,
                bytes@,
                bytes@.len() as int,
            ) + seq![Mutation::Control(spec_stop_word())]);
            assert(statuses(since(base, self.i2c.log())) =~= statuses(since(base, mid)));
            assert(rx_reads(since(base, self.i2c.log())) =~= Seq::<u8>::empty());
        }
        Ok(())
    }

    /// Read one byte per buffer slot from the device at the 7-bit address
    /// `addr`: START, address with read direction, every byte copied into
    /// the buffer in order, with hardware issuing STOP automatically once
    /// the count is reached.  A buffer length outside 1..=255 is rejected
    /// with `LengthError` before any register access.
    pub fn read(&mut self, addr: u8, buffer: &mut Vec<u8>) -> (r: Result<(), Error>)
        requires
            addr < 128,
        ensures
            old(self).log().is_prefix_of(final(self).log()),
            final(self).spec_poll_limit() == old(self).spec_poll_limit(),
            final(buffer)@.len() == old(buffer)@.len(),
            (r == Err::<(), Error>(Error::LengthError) <==> !(1 <= old(buffer)@.len() <= 255)),
            read_trace(
                since(old(self).log(), final(self).log()),
                addr,
                old(buffer)@.len() as u8,
                old(self).spec_poll_limit(),
                r,
            ),
            ({
                let t = since(old(self).log(), final(self).log());
                final(buffer)@ == rx_reads(t) + old(buffer)@.skip(rx_reads(t).len() as int)
            }),
    {
        match Transaction::new(addr, Mode::Read, 0, buffer.len()) {
            Ok(_) => {},
            Err(e) => {
                proof {
                    lemma_since_empty(self.i2c.log());
                    assert(buffer@ =~= rx_reads(Seq::<PortOp>::empty()) + buffer@.skip(0));
                }
                return Err(e);
            },
        }
        let ghost base = self.i2c.log();
        match self.wait_start_clear() {
            Ok(()) => {},
            Err(e) => {
                proof {
                    assert(buffer@ =~= rx_reads(since(base, self.i2c.log())) + buffer@.skip(0));
                }
                return Err(e);
            },
        }
        let n8: u8 = buffer.len() as u8;
        let ghost pre = self.i2c.log();
        self.i2c.write_control(ControlWord {
            start: true,
            stop: false,
            address: addr,
            read_direction: true,
            byte_count: n8,
            auto_end: true,
        });
        proof {
            lemma_since_push(base, pre, PortOp::WriteControl(spec_start_read_word(addr, n8)));
            lemma_log_push(since(base, pre), PortOp::WriteControl(
                spec_start_read_word(addr, n8),
            ));
            assert(mutations(since(base, self.i2c.log())) =~= seq![
                Mutation::Control(spec_start_read_word(addr, n8)),
            ]);
            assert(statuses(since(base, self.i2c.log())) =~= Seq::<StatusFlags>::empty());
            assert(rx_reads(since(base, self.i2c.log())) =~= Seq::<u8>::empty());
        }
        let ghost mid = self.i2c.log();
        let res = self.rx_loop(buffer);
        proof {
            lemma_since_trans(base, mid, self.i2c.log());
            lemma_log_concat(since(base, mid), since(mid, self.i2c.log()));
            let t = since(base, self.i2c.log());
            let t2 = since(mid, self.i2c.log());
            assert(rx_reads(t) =~= rx_reads(t2));
            assert(statuses(t) =~= statuses(t2));
            match res {
                Ok(()) => {
                    lemma_all_clean_concat(statuses(since(base, mid)), statuses(t2));
                    assert(mutations(t) =~= seq![
                        Mutation::Control(spec_start_read_word(addr, n8)),
                    ]);
                },
                Err(e) => {
                    if e == Error::Timeout {
                        lemma_all_clean_concat(statuses(since(base, mid)), statuses(t2));
                        assert(mutations(t) =~= seq![
                            Mutation::Control(spec_start_read_word(addr, n8)),
                        ]);
                    } else if e != Error::LengthError {
                        lemma_first_abort_concat(statuses(since(base, mid)), statuses(t2), e);
                        assert(mutations(t).take(1) =~= seq![
                            Mutation::Control(spec_start_read_word(addr, n8)),
                        ]);
                        assert(mutations(t).skip(1) =~= mutations(t2));
                        assert(mutations(t).len() == 1 + cleanup_count(e));
                        let j2: int = choose|j: int|
                            abort_at(statuses(t2), e, j) && rx_reads(t2).len()
                                == count_flagged(
                                statuses(t2).take(j),
                                AwaitFlag::ReceiveNotEmpty,
                            ) && nack_flush_directed(t2, e, j);
                        assert(mutations(t).last() == mutations(t2).last());
                        assert(abort_at(statuses(t), e, j2) && rx_reads(t).len()
                            == count_flagged(
                            statuses(t).take(j2),
                            AwaitFlag::ReceiveNotEmpty,
                        ) && nack_flush_directed(t, e, j2));
                        assert(read_abort_shape(t, e));
                    }
                },
            }
        }
        res
    }

    /// Write `bytes` to the device at the 7-bit address `addr` and, with a
    /// repeated START retaining bus ownership, read one byte per buffer
    /// slot back.  No STOP separates the phases; hardware issues STOP
    /// automatically once the read count is reached.  If the write phase
    /// aborts, the repeated START and the read phase are never attempted.
    /// Either length outside 1..=255 is rejected with `LengthError` before
    /// any register access.
    pub fn write_read(&mut self, addr: u8, bytes: &[u8], buffer: &mut Vec<u8>) -> (r: Result<
        (),
        Error,
    >)
        requires
            addr < 128,
        ensures
            old(self).log().is_prefix_of(final(self).log()),
            final(self).spec_poll_limit() == old(self).spec_poll_limit(),
            final(buffer)@.len() == old(buffer)@.len(),
            (r == Err::<(), Error>(Error::LengthError) <==> !(1 <= bytes@.len() <= 255) || !(1
                <= old(buffer)@.len() <= 255)),
            write_read_trace(
                since(old(self).log(), final(self).log()),
                addr,
                bytes@,
                old(buffer)@.len() as u8,
                old(self).spec_poll_limit(),
                r,
            ),
            ({
                let t = since(old(self).log(), final(self).log());
                final(buffer)@ == rx_reads(t) + old(buffer)@.skip(rx_reads(t).len() as int)
            }),
    {
        match Transaction::new(addr, Mode::WriteThenRead, bytes.len(), buffer.len()) {
            Ok(_) => {},
            Err(e) => {
                proof {
                    lemma_since_empty(self.i2c.log());
                    assert(buffer@ =~= rx_reads(Seq::<PortOp>::empty()) + buffer@.skip(0));
                }
                return Err(e);
            },
        }
        let ghost base = self.i2c.log();
        match self.write_phase(addr, bytes) {
            Ok(()) => {},
            Err(e) => {
                proof {
                    let t = since(base, self.i2c.log());
                    assert(buffer@ =~= rx_reads(t) + buffer@.skip(rx_reads(t).len() as int));
                }
                return Err(e);
            },
        }
        let n8: u8 = buffer.len() as u8;
        let ghost mid = self.i2c.log();
        self.i2c.write_control(ControlWord {
            start: true,
            stop: false,
            address: addr,
            read_direction: true,
            byte_count: n8,
            auto_end: true,
        });
        proof {
            lemma_since_push(base, mid, PortOp::WriteControl(spec_start_read_word(addr, n8)));
            lemma_log_push(since(base, mid), PortOp::WriteControl(
                spec_start_read_word(addr, n8),
            ));
            assert(mutations(since(base, self.i2c.log())) =~= write_phase_muts(
                addr,
                bytes@,
                bytes@.len() as int,
            ) + seq![Mutation::Control(spec_start_read_word(addr, n8))]);
            assert(statuses(since(base, self.i2c.log())) =~= statuses(since(base, mid)));
            assert(rx_reads(since(base, self.i2c.log())) =~= Seq::<u8>::empty());
        }
        let ghost mid2 = self.i2c.log();
        let res = self.rx_loop(buffer);
        proof {
            lemma_since_trans(base, mid2, self.i2c.log());
            lemma_log_concat(since(base, mid2), since(mid2, self.i2c.log()));
            let t = since(base, self.i2c.log());
            let t2 = since(mid2, self.i2c.log());
            let ss1 = statuses(since(base, mid2));
            let ss2 = statuses(t2);
            let restart = write_phase_muts(addr, bytes@, bytes@.len() as int) + seq![
                Mutation::Control(spec_start_read_word(addr, n8)),
            ];
            assert(rx_reads(t) =~= rx_reads(t2));
            assert(statuses(t).len() == ss1.len() + ss2.len());
            assert(restart.len() == 2 + bytes@.len()) by {
                assert(data_muts(bytes@.take(bytes@.len() as int)).len() == bytes@.len());
            }
            match res {
                Ok(()) => {
                    lemma_all_clean_concat(ss1, ss2);
                    assert(mutations(t) =~= restart);
                    lemma_count_flagged_concat(ss1, ss2, AwaitFlag::TransmitEmpty);
                    lemma_count_flagged_nonneg(ss2, AwaitFlag::TransmitEmpty);
                    lemma_count_flagged_concat(ss1, ss2, AwaitFlag::TransferComplete);
                    lemma_count_flagged_nonneg(ss2, AwaitFlag::TransferComplete);
                    lemma_count_flagged_concat(ss1, ss2, AwaitFlag::ReceiveNotEmpty);
                    lemma_count_flagged_nonneg(ss1, AwaitFlag::ReceiveNotEmpty);
                },
                Err(e) => {
                    if e == Error::Timeout {
                        lemma_all_clean_concat(ss1, ss2);
                        assert(mutations(t) =~= restart);
                        let lim: int = old(self).spec_poll_limit() as int;
                        assert forall|i2: int|
                            statuses(t).len() - lim <= i2 < statuses(t).len()
                                implies !spec_has_flag(
                                statuses(t)[i2],
                                AwaitFlag::ReceiveNotEmpty,
                            ) by {
                            assert(statuses(t)[i2] == ss2[i2 - ss1.len()]);
                            assert(i2 - ss1.len() >= ss2.len() - lim);
                        }
                        assert(starved_suffix(
                            statuses(t),
                            lim,
                            AwaitFlag::ReceiveNotEmpty,
                        ));
                    } else if e != Error::LengthError {
                        lemma_first_abort_concat(ss1, ss2, e);
                        assert(mutations(t).take(2 + bytes@.len() as int) =~= restart);
                        assert(mutations(t).skip(2 + bytes@.len() as int) =~= mutations(t2));
                        assert(mutations(t).len() == 2 + bytes@.len() + cleanup_count(e));
                        let j2: int = choose|j: int|
                            abort_at(ss2, e, j) && rx_reads(t2).len() == count_flagged(
                                ss2.take(j),
                                AwaitFlag::ReceiveNotEmpty,
                            ) && nack_flush_directed(t2, e, j);
                        lemma_abort_at_concat(ss1, ss2, e, j2);
                        let jj: int = ss1.len() + j2;
                        assert(abort_at(statuses(t), e, jj));
                        assert(nack_flush_directed(t, e, jj)) by {
                            if e is NotAcknowledge {
                                assert(statuses(t)[jj + 1] == ss2[j2 + 1]);
                                assert(mutations(t).len() >= 2 + bytes@.len() + 1);
                                assert(mutations(t).last() == mutations(t2).last());
                            }
                        }
                    }
                },
            }
        }
        res
    }

    /// Create an engine owning the given register surface: derive the
    /// timing values for the requested bus frequency and write them to
    /// the configuration registers.  A rejected configuration performs no
    /// register access; it is fatal to setup and never retried here.
    pub fn new(port: I2C, input_clock_hz: u32, target_bus_hz: u32) -> (r: Result<
        I2c<I2C>,
        ConfigError,
    >)
        requires
            target_bus_hz >= 1,
        ensures
            match r {
                Ok(eng) => {
                    &&& eng.spec_poll_limit() == DEFAULT_POLL_LIMIT
                    &&& exists|tp: TimingParameters|
                        timing_result_spec(
                            input_clock_hz,
                            target_bus_hz,
                            Ok(tp),
                        ) && eng.log() == port.log().push(PortOp::WriteTiming(tp))
                },
                Err(c) => timing_result_spec(input_clock_hz, target_bus_hz, Err(c)),
            },
    {
        match derive_timing(input_clock_hz, target_bus_hz) {
            Ok(tp) => {
                let mut p = port;
                p.write_timing(&tp);
                let eng = I2c { i2c: p, poll_limit: DEFAULT_POLL_LIMIT };
                proof {
                    assert(timing_result_spec(input_clock_hz, target_bus_hz, Ok(tp))
                        && eng.log() == port.log().push(PortOp::WriteTiming(tp)));
                }
                Ok(eng)
            },
            Err(c) => Err(c),
        }
    }

    /// Release the engine, handing the register surface back.
    pub fn free(self) -> (p: I2C)
        ensures
            p.log() == self.log(),
    {
        self.i2c
    }

    /// Switch on the interrupt-enable bit of `event`.
    pub fn listen(&mut self, event: Event)
        ensures
            final(self).log() == old(self).log().push(PortOp::EventEnable(event, true)),
            final(self).spec_poll_limit() == old(self).spec_poll_limit(),
    {
        self.i2c.set_event_enabled(event, true);
    }

    /// Switch off the interrupt-enable bit of `event`.
    pub fn unlisten(&mut self, event: Event)
        ensures
            final(self).log() == old(self).log().push(PortOp::EventEnable(event, false)),
            final(self).spec_poll_limit() == old(self).spec_poll_limit(),
    {
        self.i2c.set_event_enabled(event, false);
    }

    /// Clear the status flags behind the notification `event` by writing
    /// the matching mask to the flag-clear register.
    pub fn clear_irq(&mut self, event: Event)
        ensures
            final(self).log() == old(self).log().push(PortOp::ClearFlags(
                spec_irq_clear_mask(event),
            )),
            final(self).spec_poll_limit() == old(self).spec_poll_limit(),
    {
        let m: ClearMask = match event {
            Event::Stop => ClearMask::new(false, false, false, true, false),
            Event::Errors => ClearMask::new(true, true, false, false, true),
            Event::NotAcknowledge => ClearMask::new(false, false, true, false, false),
            _ => ClearMask::new(false, false, false, false, false),
        };
        self.i2c.clear_flags(m);
    }
}

/// Two consecutive successful reads are independent transactions: the
/// combined operation record opens each with its own START-requesting
/// control word, no flag is cleared between them, and the bytes of each
/// call come only from its own segment of the record.
pub proof fn lemma_sequential_reads_independent(
    t1: Seq<PortOp>,
    t2: Seq<PortOp>,
    addr1: u8,
    n1: u8,
    limit1: u32,
    addr2: u8,
    n2: u8,
    limit2: u32,
)
    requires
        read_trace(t1, addr1, n1, limit1, Ok(())),
        read_trace(t2, addr2, n2, limit2, Ok(())),
    ensures
        mutations(t1 + t2) == seq![
            Mutation::Control(spec_start_read_word(addr1, n1)),
            Mutation::Control(spec_start_read_word(addr2, n2)),
        ],
        rx_reads(t1 + t2) == rx_reads(t1) + rx_reads(t2),
        rx_reads(t1 + t2).len() == n1 + n2,
        all_clean(statuses(t1 + t2)),
{
    lemma_log_concat(t1, t2);
    assert(mutations(t1) + mutations(t2) =~= seq![
        Mutation::Control(spec_start_read_word(addr1, n1)),
        Mutation::Control(spec_start_read_word(addr2, n2)),
    ]);
    lemma_all_clean_concat(statuses(t1), statuses(t2));
}

} // verus!
