use ziti_intercept::splice::{
    after_overlay_write, after_read, after_socket_write, socket_read, Closing, Direction, Ended,
    PumpEnd, PumpStep, ReadOutcome, Splice, Verdict,
};

const STOP: PumpStep = PumpStep::Stop { end: PumpEnd::Natural, ok: true };
const FAIL: PumpStep = PumpStep::Stop { end: PumpEnd::Natural, ok: false };
const KILL: PumpStep = PumpStep::Stop { end: PumpEnd::Killed, ok: true };

fn natural(ok: bool) -> Ended {
    Ended { end: PumpEnd::Natural, ok }
}

#[test]
fn splice_round_trips_bytes_propagates_half_close_then_deregisters() {
    assert_eq!(after_read(false, socket_read(11)), PumpStep::Write);
    assert_eq!(after_overlay_write(true), PumpStep::Read);
    assert_eq!(after_read(false, ReadOutcome::Data), PumpStep::Write);
    assert_eq!(after_socket_write(false, true), PumpStep::Read);
    assert_eq!(after_read(false, socket_read(0)), STOP);

    let mut s = Splice::new();
    assert_eq!(
        s.finish(Direction::SocketToOverlay, natural(true)),
        Closing { half_close: true, full_close: false }
    );
    assert_eq!(
        s.finish(Direction::OverlayToSocket, natural(true)),
        Closing { half_close: true, full_close: true }
    );
    assert_eq!(s.verdict(), Verdict::Fine);
}

#[test]
fn splice_ziti_eof_half_closes_the_socket() {
    assert_eq!(after_read(false, ReadOutcome::Eof), STOP);
    let mut s = Splice::new();
    assert_eq!(
        s.finish(Direction::OverlayToSocket, natural(true)),
        Closing { half_close: true, full_close: false }
    );
}

#[test]
fn splice_hard_error_one_direction_does_not_abort_peer_and_still_closes() {
    assert_eq!(after_read(false, ReadOutcome::Failed), FAIL);
    let mut s = Splice::new();
    assert_eq!(
        s.finish(Direction::OverlayToSocket, natural(false)),
        Closing { half_close: true, full_close: false }
    );
    assert_eq!(
        s.finish(Direction::SocketToOverlay, natural(true)),
        Closing { half_close: true, full_close: true }
    );
    assert_eq!(s.verdict(), Verdict::Failed(Direction::OverlayToSocket));
}

#[test]
fn killed_splice_full_closes_without_fin_and_deregisters() {
    assert_eq!(after_read(true, ReadOutcome::Data), KILL);
    assert_eq!(after_socket_write(true, true), KILL);
    let killed = Ended { end: PumpEnd::Killed, ok: true };
    let mut s = Splice::new();
    assert_eq!(
        s.finish(Direction::SocketToOverlay, killed),
        Closing { half_close: false, full_close: false }
    );
    assert_eq!(
        s.finish(Direction::OverlayToSocket, killed),
        Closing { half_close: false, full_close: true }
    );
    assert_eq!(s.verdict(), Verdict::Fine);
}

#[test]
fn token_cancelled_before_establish_closes_at_first_poll() {
    for read in [ReadOutcome::Data, ReadOutcome::Eof, ReadOutcome::Failed] {
        assert_eq!(after_read(true, read), KILL);
    }
}

#[test]
fn killed_splice_never_tears_a_frame() {
    assert_eq!(after_overlay_write(true), PumpStep::Read);
    assert_eq!(after_overlay_write(false), FAIL);
    assert_eq!(after_socket_write(false, false), FAIL);
}

#[test]
fn the_error_of_the_direction_to_the_overlay_is_told_first() {
    let mut s = Splice::new();
    s.finish(Direction::SocketToOverlay, natural(false));
    s.finish(Direction::OverlayToSocket, natural(false));
    assert_eq!(s.verdict(), Verdict::Failed(Direction::SocketToOverlay));
}
