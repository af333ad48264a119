use proxy_twister::pump::{Pump, PumpAction, PumpEvent, Side, READ_BUFFER_BYTES};

#[test]
fn read_buffer_is_eight_kib() {
    assert_eq!(READ_BUFFER_BYTES, 8 * 1024);
}

#[test]
fn client_closing_first_half_closes_the_upstream() {
    let mut pump = Pump::start();
    assert_eq!(pump, Pump { from_client: true, from_upstream: true });
    assert_eq!(pump.advance(PumpEvent::Ended(Side::Client)), PumpAction::CloseWrite(Side::Upstream));
    assert_eq!(pump, Pump { from_client: false, from_upstream: true });
    assert_eq!(pump.advance(PumpEvent::Ended(Side::Upstream)), PumpAction::Release);
    assert_eq!(pump, Pump { from_client: false, from_upstream: false });
}

#[test]
fn upstream_closing_first_half_closes_the_client() {
    let mut pump = Pump::start();
    assert_eq!(pump.advance(PumpEvent::Ended(Side::Upstream)), PumpAction::CloseWrite(Side::Client));
    assert_eq!(pump, Pump { from_client: true, from_upstream: false });
    assert_eq!(pump.advance(PumpEvent::Ended(Side::Client)), PumpAction::Release);
}

#[test]
fn cancellation_releases_at_once() {
    let mut pump = Pump::start();
    assert_eq!(pump.advance(PumpEvent::Cancelled), PumpAction::Release);
    assert_eq!(pump, Pump { from_client: false, from_upstream: false });
    let mut half = Pump { from_client: false, from_upstream: true };
    assert_eq!(half.advance(PumpEvent::Cancelled), PumpAction::Release);
    assert_eq!(half, Pump { from_client: false, from_upstream: false });
}

#[test]
fn a_loop_ends_once() {
    let mut pump = Pump::start();
    pump.advance(PumpEvent::Ended(Side::Client));
    assert_eq!(pump.advance(PumpEvent::Ended(Side::Client)), PumpAction::Carry);
    assert_eq!(pump, Pump { from_client: false, from_upstream: true });
}

#[test]
fn nothing_happens_after_release() {
    let mut pump = Pump { from_client: false, from_upstream: false };
    for event in [PumpEvent::Cancelled, PumpEvent::Ended(Side::Client), PumpEvent::Ended(Side::Upstream)] {
        assert_eq!(pump.advance(event), PumpAction::Carry);
        assert_eq!(pump, Pump { from_client: false, from_upstream: false });
    }
}
