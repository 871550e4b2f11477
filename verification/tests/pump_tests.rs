use rsocks::pump::{PumpAction, PumpDirection};

#[test]
fn bytes_are_forwarded_read_by_read() {
    let mut up = PumpDirection::new();
    let buffer = [1u8, 2, 3, 4, 5, 6, 7, 8];

    let action = up.on_read(&buffer, 3);
    assert!(matches!(action, PumpAction::Write));
    assert!(!up.is_finished());
    up.on_write_complete(&buffer, 3);

    let action = up.on_read(&buffer, 8);
    assert!(matches!(action, PumpAction::Write));
    up.on_write_complete(&buffer, 8);
    assert!(!up.is_finished());
}

#[test]
fn half_close_signals_once_and_stops() {
    let mut up = PumpDirection::new();
    let buffer = [9u8; 4];

    let action = up.on_read(&buffer, 4);
    assert!(matches!(action, PumpAction::Write));
    up.on_write_complete(&buffer, 4);

    // The peer half-closes: a read of zero bytes.
    let action = up.on_read(&buffer, 0);
    assert!(matches!(action, PumpAction::SignalAndStop));
    assert!(up.is_finished());
    assert!(up.ended_with_eof());
}

#[test]
fn idle_timeout_stops_without_signalling() {
    // No byte arrived within the timeout: the direction ends, and not by a
    // clean end-of-file.
    let mut down = PumpDirection::new();
    down.stop();
    assert!(down.is_finished());
    assert!(!down.ended_with_eof());
}

#[test]
fn peer_cancel_stops_a_direction_mid_stream() {
    let mut down = PumpDirection::new();
    let buffer = [7u8; 2];
    let action = down.on_read(&buffer, 2);
    assert!(matches!(action, PumpAction::Write));
    down.on_write_complete(&buffer, 2);

    // The opposite direction observed its peer's half-close and signalled.
    down.stop();
    assert!(down.is_finished());
    assert!(!down.ended_with_eof());
}
