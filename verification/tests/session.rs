use modbus_client::session::{
    connect_reaction, disconnect_reaction, poll_order, poll_wait_ms, write_reaction, Link, Notice,
    PollMonitor, ReadOutcome, Region, WriteKind, WriteOutcome,
};

fn shown_text(n: &Notice) -> Option<&str> {
    match n {
        Notice::Show(s) => Some(s.as_str()),
        _ => None,
    }
}

#[test]
fn poll_error_shown_once_and_cleared_by_same_region() {
    let mut m = PollMonitor::new();
    let s = m.on_read(Region::Coils, &ReadOutcome::Done);
    assert!(s.store && !s.repaint && matches!(s.notice, Notice::Keep));
    let s = m.on_read(Region::InputRegisters, &ReadOutcome::Business("Illegal data address".to_string()));
    assert!(!s.store && s.repaint);
    assert_eq!(s.link, Link::Keep);
    assert_eq!(shown_text(&s.notice), Some("Business logic error: Illegal data address, input_registers"));
    assert!(!m.on_round_end());
    let s = m.on_read(Region::Coils, &ReadOutcome::Timeout);
    assert!(matches!(s.notice, Notice::Keep) && !s.repaint);
    let s = m.on_read(Region::Coils, &ReadOutcome::Done);
    assert!(matches!(s.notice, Notice::Keep));
    let s = m.on_read(Region::InputRegisters, &ReadOutcome::Done);
    assert!(matches!(s.notice, Notice::Clear) && s.repaint && s.store);
    assert!(m.on_round_end());
}

#[test]
fn poll_transport_error_drops_connection() {
    let mut m = PollMonitor::new();
    let s = m.on_read(Region::HoldingRegisters, &ReadOutcome::Transport("broken pipe".to_string()));
    assert_eq!(s.link, Link::Close);
    assert_eq!(shown_text(&s.notice), Some("Modbus transport error: broken pipe, holding_registers"));
    let s = m.on_read(Region::Coils, &ReadOutcome::Transport("x".to_string()));
    assert_eq!(s.link, Link::Close);
    assert!(matches!(s.notice, Notice::Keep));
}

#[test]
fn poll_timeouts() {
    let mut m = PollMonitor::new();
    let s = m.on_read(Region::Coils, &ReadOutcome::Timeout);
    assert_eq!(shown_text(&s.notice), Some("Modbus read coils timeout"));
    let s = m.on_read(Region::Coils, &ReadOutcome::Done);
    assert!(matches!(s.notice, Notice::Clear));
    let s = m.on_read(Region::DiscreteInputs, &ReadOutcome::Timeout);
    assert_eq!(shown_text(&s.notice), Some("Modbus read discrete_input timeout"));
    assert!(!m.on_round_end());
    let s = m.on_read(Region::DiscreteInputs, &ReadOutcome::Timeout);
    assert!(matches!(s.notice, Notice::Keep) && !s.repaint);
    let s = m.on_read(Region::DiscreteInputs, &ReadOutcome::Done);
    assert!(matches!(s.notice, Notice::Clear) && s.repaint);
    let s = m.on_read(Region::InputRegisters, &ReadOutcome::Timeout);
    assert_eq!(shown_text(&s.notice), Some("Modbus read input_registers timeout"));
    let s = m.on_read(Region::HoldingRegisters, &ReadOutcome::Timeout);
    assert!(matches!(s.notice, Notice::Keep));
}

#[test]
fn command_reactions() {
    let r = disconnect_reaction();
    assert_eq!(r.link, Link::Close);
    assert!(matches!(r.notice, Notice::Clear));
    let r = connect_reaction(Ok(()));
    assert_eq!(r.link, Link::Open);
    assert!(matches!(r.notice, Notice::Clear));
    let r = connect_reaction(Err("refused".to_string()));
    assert_eq!(r.link, Link::Close);
    assert_eq!(shown_text(&r.notice), Some("refused"));
}

#[test]
fn write_reactions() {
    let r = write_reaction(WriteKind::Coil, None);
    assert_eq!(r.link, Link::Keep);
    assert_eq!(shown_text(&r.notice), Some("ModbusClient write coil error: not connected"));
    let r = write_reaction(WriteKind::HoldRegister, None);
    assert_eq!(shown_text(&r.notice), Some("ModbusClient write hold register error: not connected"));
    let r = write_reaction(WriteKind::Coil, Some(WriteOutcome::Done));
    assert!(matches!(r.notice, Notice::Keep));
    assert_eq!(r.link, Link::Keep);
    let r = write_reaction(WriteKind::Coil, Some(WriteOutcome::Exception("Illegal function".to_string())));
    assert_eq!(shown_text(&r.notice), Some("Modbus write coil error: Illegal function"));
    let r = write_reaction(WriteKind::HoldRegister, Some(WriteOutcome::Exception("E".to_string())));
    assert_eq!(shown_text(&r.notice), Some("Modbus write hold register error: E"));
    let r = write_reaction(WriteKind::HoldRegister, Some(WriteOutcome::Transport("reset".to_string())));
    assert_eq!(r.link, Link::Close);
    assert_eq!(shown_text(&r.notice), Some("ModbusClient write hold register error: reset"));
    let r = write_reaction(WriteKind::Coil, Some(WriteOutcome::Timeout));
    assert_eq!(shown_text(&r.notice), Some("ModbusClient write coil timeout"));
    let r = write_reaction(WriteKind::HoldRegister, Some(WriteOutcome::Timeout));
    assert_eq!(shown_text(&r.notice), Some("modbus write hold register timeout"));
    assert_eq!(r.link, Link::Keep);
}

#[test]
fn polling_round_order_and_wait() {
    assert_eq!(
        poll_order(),
        vec![Region::Coils, Region::DiscreteInputs, Region::InputRegisters, Region::HoldingRegisters]
    );
    assert_eq!(poll_wait_ms(true, 100), 100);
    assert_eq!(poll_wait_ms(false, 100), 1000);
}
