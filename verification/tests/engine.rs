use i2c_core::engine::{I2c, Mode, Transaction};
use i2c_core::errors::{ConfigError, Error};
use i2c_core::port::{ControlWord, PortOp};
use i2c_core::sim::SimPort;
use i2c_core::status::{classify, ClearMask, Event, StatusFlags};
use i2c_core::timing::TimingParameters;

fn tx_ready() -> StatusFlags {
    let mut s = StatusFlags::idle();
    s.transmit_empty = true;
    s
}

fn rx_ready() -> StatusFlags {
    let mut s = StatusFlags::idle();
    s.receive_not_empty = true;
    s
}

fn tc_done() -> StatusFlags {
    let mut s = StatusFlags::idle();
    s.transfer_complete = true;
    s
}

fn nack() -> StatusFlags {
    let mut s = StatusFlags::idle();
    s.nack_received = true;
    s
}

fn bus_err() -> StatusFlags {
    let mut s = StatusFlags::idle();
    s.bus_error = true;
    s
}

fn arb_lost() -> StatusFlags {
    let mut s = StatusFlags::idle();
    s.arbitration_lost = true;
    s
}

fn engine_400k(port: SimPort) -> I2c<SimPort> {
    match I2c::new(port, 120_000_000, 400_000) {
        Ok(eng) => eng,
        Err(_) => panic!("configuration rejected"),
    }
}

fn data_writes(ops: &[PortOp]) -> Vec<u8> {
    let mut out = Vec::new();
    for op in ops {
        if let PortOp::WriteData(b) = op {
            out.push(*b);
        }
    }
    out
}

fn control_writes(ops: &[PortOp]) -> Vec<ControlWord> {
    let mut out = Vec::new();
    for op in ops {
        if let PortOp::WriteControl(w) = op {
            out.push(*w);
        }
    }
    out
}

fn clear_writes(ops: &[PortOp]) -> Vec<ClearMask> {
    let mut out = Vec::new();
    for op in ops {
        if let PortOp::ClearFlags(m) = op {
            out.push(*m);
        }
    }
    out
}

#[test]
fn initialisation_writes_derived_timing() {
    let eng = engine_400k(SimPort::new(Vec::new(), Vec::new(), 0));
    let port = eng.free();
    let expected = TimingParameters {
        prescaler: 0,
        low_period: 200,
        high_period: 99,
        setup_delay: 15,
        hold_delay: 59,
    };
    assert_eq!(port.recorded_ops().as_slice(), &[PortOp::WriteTiming(expected)]);
}

#[test]
fn initialisation_rejects_bad_config() {
    let r = I2c::new(SimPort::new(Vec::new(), Vec::new(), 0), 120_000_000, 2_000_000);
    assert!(matches!(r, Err(ConfigError::FrequencyTooHigh)));
    let r = I2c::new(SimPort::new(Vec::new(), Vec::new(), 0), 100, 1_000_000);
    assert!(matches!(r, Err(ConfigError::RatioOutOfRange)));
    let r = I2c::new(SimPort::new(Vec::new(), Vec::new(), 0), 4_000_000_000, 150_000);
    assert!(matches!(r, Err(ConfigError::PrescalerOutOfRange)));
}

#[test]
fn write_length_zero_rejected() {
    let mut eng = engine_400k(SimPort::new(Vec::new(), Vec::new(), 0));
    assert_eq!(eng.write(0x50, &[]), Err(Error::LengthError));
    // nothing beyond the initial timing write reached the registers
    assert_eq!(eng.free().recorded_ops().len(), 1);
}

#[test]
fn write_length_255_succeeds() {
    let bytes = vec![0xA5u8; 255];
    let mut eng = engine_400k(SimPort::new(Vec::new(), Vec::new(), 0));
    assert_eq!(eng.write(0x50, &bytes), Ok(()));
    let port = eng.free();
    assert_eq!(data_writes(port.recorded_ops()), bytes);
}

#[test]
fn write_length_256_rejected() {
    let bytes = vec![0xA5u8; 256];
    let mut eng = engine_400k(SimPort::new(Vec::new(), Vec::new(), 0));
    assert_eq!(eng.write(0x50, &bytes), Err(Error::LengthError));
    assert_eq!(eng.free().recorded_ops().len(), 1);
}

#[test]
fn write_programs_control_data_stop_in_order() {
    let mut eng = engine_400k(SimPort::new(Vec::new(), Vec::new(), 0));
    assert_eq!(eng.write(0x50, &[0xDE, 0xAD]), Ok(()));
    let port = eng.free();
    let ops = port.recorded_ops();
    assert_eq!(data_writes(ops), vec![0xDE, 0xAD]);
    let ctrls = control_writes(ops);
    assert_eq!(ctrls.len(), 2);
    let w0 = ctrls[0];
    assert!(w0.start && !w0.stop && !w0.read_direction && !w0.auto_end);
    assert_eq!(w0.address, 0x50);
    assert_eq!(w0.byte_count, 2);
    let stop = ctrls[1];
    assert!(!stop.start && stop.stop);
    // the STOP is the very last register access
    assert_eq!(ops.last(), Some(&PortOp::WriteControl(stop)));
    assert!(clear_writes(ops).is_empty());
}

#[test]
fn nack_on_third_byte_aborts_after_two() {
    let script = vec![tx_ready(), tx_ready(), nack(), tx_ready()];
    let mut eng = engine_400k(SimPort::new(script, Vec::new(), 0));
    let r = eng.write(0x42, &[1, 2, 3, 4, 5]);
    assert_eq!(r, Err(Error::NotAcknowledge));
    let port = eng.free();
    let ops = port.recorded_ops();
    // exactly two bytes went out before the abort
    assert_eq!(data_writes(ops), vec![1, 2]);
    // the NACK and the auto-generated stop-detected flag were cleared,
    // then the transmit path was flushed with a dummy byte
    let n = ops.len();
    assert_eq!(
        ops[n - 3],
        PortOp::ClearFlags(ClearMask::new(false, false, true, true, false))
    );
    assert!(matches!(ops[n - 2], PortOp::ReadStatus(_)));
    assert_eq!(ops[n - 1], PortOp::FlushDummy);
}

#[test]
fn nack_flush_forces_empty_when_no_transmit_pending() {
    let script = vec![nack(), StatusFlags::idle()];
    let mut eng = engine_400k(SimPort::new(script, Vec::new(), 0));
    assert_eq!(eng.write(0x42, &[1]), Err(Error::NotAcknowledge));
    let port = eng.free();
    let ops = port.recorded_ops();
    assert_eq!(ops[ops.len() - 1], PortOp::ForceEmpty);
    assert_eq!(data_writes(ops), Vec::<u8>::new());
}

#[test]
fn bus_error_in_read_phase_of_write_then_read() {
    let script = vec![tx_ready(), tx_ready(), tc_done(), rx_ready(), bus_err()];
    let mut eng = engine_400k(SimPort::new(script, vec![0xAA], 0));
    let mut buf = vec![0u8; 3];
    let r = eng.write_read(0x42, &[9, 8], &mut buf);
    assert_eq!(r, Err(Error::Bus));
    // one byte arrived before the abort; the rest keep their contents
    assert_eq!(buf, vec![0xAA, 0, 0]);
    let port = eng.free();
    let ops = port.recorded_ops();
    let ctrls = control_writes(ops);
    // the opening START and exactly one repeated START, never retried
    assert_eq!(ctrls.len(), 2);
    assert!(ctrls[0].start && !ctrls[0].read_direction && !ctrls[0].auto_end);
    assert!(ctrls[1].start && ctrls[1].read_direction && ctrls[1].auto_end);
    assert_eq!(ctrls[1].byte_count, 3);
    assert_eq!(
        clear_writes(ops),
        vec![ClearMask::new(true, false, false, false, false)]
    );
}

#[test]
fn write_then_read_full_round() {
    let mut eng = engine_400k(SimPort::new(Vec::new(), vec![5, 6], 0));
    let mut buf = vec![0u8; 2];
    assert_eq!(eng.write_read(0x24, &[0x10], &mut buf), Ok(()));
    assert_eq!(buf, vec![5, 6]);
    let port = eng.free();
    let ops = port.recorded_ops();
    assert_eq!(data_writes(ops), vec![0x10]);
    let ctrls = control_writes(ops);
    assert_eq!(ctrls.len(), 2);
    // no explicit STOP: hardware ends the read phase itself
    assert!(ctrls[1].auto_end && !ctrls[0].stop && !ctrls[1].stop);
}

#[test]
fn sequential_reads_are_independent() {
    let mut eng = engine_400k(SimPort::new(Vec::new(), vec![1, 2, 3, 4], 0));
    let mut b1 = vec![0u8; 2];
    let mut b2 = vec![0u8; 2];
    assert_eq!(eng.read(0x10, &mut b1), Ok(()));
    assert_eq!(eng.read(0x10, &mut b2), Ok(()));
    assert_eq!(b1, vec![1, 2]);
    assert_eq!(b2, vec![3, 4]);
    let port = eng.free();
    let ops = port.recorded_ops();
    let ctrls = control_writes(ops);
    assert_eq!(ctrls.len(), 2);
    assert!(ctrls[0].start && ctrls[1].start);
    // no flag state leaked between the calls: nothing was cleared
    assert!(clear_writes(ops).is_empty());
}

#[test]
fn read_buffer_lengths_validated() {
    let mut eng = engine_400k(SimPort::new(Vec::new(), Vec::new(), 0));
    let mut empty: Vec<u8> = Vec::new();
    assert_eq!(eng.read(0x10, &mut empty), Err(Error::LengthError));
    let mut too_big = vec![0u8; 256];
    assert_eq!(eng.read(0x10, &mut too_big), Err(Error::LengthError));
    assert_eq!(eng.free().recorded_ops().len(), 1);
}

#[test]
fn read_abort_keeps_untouched_slots() {
    let script = vec![rx_ready(), bus_err()];
    let mut eng = engine_400k(SimPort::new(script, vec![9], 0));
    let mut buf = vec![7u8; 3];
    assert_eq!(eng.read(0x10, &mut buf), Err(Error::Bus));
    assert_eq!(buf, vec![9, 7, 7]);
}

#[test]
fn arbitration_loss_reported_and_cleared() {
    let script = vec![arb_lost()];
    let mut eng = engine_400k(SimPort::new(script, Vec::new(), 0));
    assert_eq!(eng.write(0x42, &[1]), Err(Error::Arbitration));
    let port = eng.free();
    assert_eq!(
        clear_writes(port.recorded_ops()),
        vec![ClearMask::new(false, true, false, false, false)]
    );
}

#[test]
fn poll_limit_times_out() {
    let idle = StatusFlags::idle();
    let script = vec![idle, idle, idle, idle, idle];
    let mut eng = engine_400k(SimPort::new(script, Vec::new(), 0));
    eng.set_poll_limit(3);
    assert_eq!(eng.write(0x50, &[1]), Err(Error::Timeout));
    let port = eng.free();
    assert_eq!(data_writes(port.recorded_ops()), Vec::<u8>::new());
}

#[test]
fn pending_start_times_out() {
    let mut eng = engine_400k(SimPort::new(Vec::new(), Vec::new(), 10));
    eng.set_poll_limit(2);
    assert_eq!(eng.write(0x50, &[1]), Err(Error::Timeout));
    let port = eng.free();
    let ops = port.recorded_ops();
    // the transfer was never programmed
    assert!(control_writes(ops).is_empty());
}

#[test]
fn classifier_priority_order() {
    let mut s = StatusFlags::idle();
    s.bus_error = true;
    s.arbitration_lost = true;
    s.nack_received = true;
    assert_eq!(classify(&s), Some(Error::Bus));
    s.bus_error = false;
    assert_eq!(classify(&s), Some(Error::Arbitration));
    s.arbitration_lost = false;
    assert_eq!(classify(&s), Some(Error::NotAcknowledge));
    s.nack_received = false;
    assert_eq!(classify(&s), None);
}

#[test]
fn notification_bits_recorded() {
    let mut eng = engine_400k(SimPort::new(Vec::new(), Vec::new(), 0));
    eng.listen(Event::Stop);
    eng.unlisten(Event::Receive);
    eng.clear_irq(Event::Errors);
    eng.clear_irq(Event::Transmit);
    let port = eng.free();
    let ops = port.recorded_ops();
    assert_eq!(ops[1], PortOp::EventEnable(Event::Stop, true));
    assert_eq!(ops[2], PortOp::EventEnable(Event::Receive, false));
    assert_eq!(
        ops[3],
        PortOp::ClearFlags(ClearMask::new(true, true, false, false, true))
    );
    assert_eq!(
        ops[4],
        PortOp::ClearFlags(ClearMask::new(false, false, false, false, false))
    );
}

#[test]
fn transaction_descriptor_validation() {
    assert!(Transaction::new(0x50, Mode::Write, 255, 0).is_ok());
    assert_eq!(
        Transaction::new(0x50, Mode::Write, 0, 0),
        Err(Error::LengthError)
    );
    assert_eq!(
        Transaction::new(0x50, Mode::Read, 0, 256),
        Err(Error::LengthError)
    );
    let tr = Transaction::new(0x22, Mode::WriteThenRead, 2, 3).unwrap();
    assert_eq!(tr.address, 0x22);
    assert_eq!(tr.mode, Mode::WriteThenRead);
    assert_eq!(tr.out_bytes, 2);
    assert_eq!(tr.in_bytes, 3);
}

#[test]
fn ready_status_reports_progress_flags() {
    let r = StatusFlags::ready();
    assert!(r.transmit_empty && r.receive_not_empty && r.transfer_complete);
    assert_eq!(classify(&r), None);
}
