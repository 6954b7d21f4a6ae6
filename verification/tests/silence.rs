use ephyr::filter::silence::{Filler, Filling};
use ephyr::restreamer::ffmpeg::{RunEvent, RunPhase};
use ephyr::restreamer::state::Status;

#[test]
fn silence_is_emitted_in_windows() {
    let mut f = Filler::new(48000);
    f.on_timeout(1000);
    assert_eq!(f.state, Filling::Silencing { samples_left: 4800, next_reset_ms: 1100 });
    // A buffer of 10 bytes holds two whole samples.
    assert_eq!(f.emit(1010, 10), 8);
    assert_eq!(f.emit(1020, 100_000), 4798 * 4);
    // The window is used up: wait for the next one.
    assert_eq!(f.emit(1050, 100), 0);
    assert_eq!(f.emit(1100, 100), 100);
    assert_eq!(f.state, Filling::Silencing { samples_left: 4775, next_reset_ms: 1200 });
    f.on_data();
    assert_eq!(f.state, Filling::Transmitting);
}

#[test]
fn processes_report_their_status() {
    let (p, s) = RunPhase::start();
    assert_eq!((p, s), (RunPhase::SettingUp, Status::Initializing));
    assert_eq!(p.next(RunEvent::SetupFailed), (RunPhase::Pausing, Some(Status::Offline)));
    let (p, s) = p.next(RunEvent::SetUp);
    assert_eq!((p, s), (RunPhase::Starting, None));
    let (p, s) = p.next(RunEvent::RanLongEnough);
    assert_eq!((p, s), (RunPhase::Running, Some(Status::Online)));
    assert_eq!(p.next(RunEvent::PauseOver), (RunPhase::Running, None));
    let (p, s) = p.next(RunEvent::Stopped);
    assert_eq!((p, s), (RunPhase::Pausing, Some(Status::Offline)));
    assert_eq!(p.next(RunEvent::PauseOver), (RunPhase::SettingUp, Some(Status::Initializing)));
    assert_eq!(p.aborted(), Status::Offline);
}

#[test]
fn silence_is_zero_bytes_and_source_data_passes_through() {
    let mut f = Filler::new(480);
    f.on_timeout(0);
    let mut buf = vec![7u8; 300];
    // A window of 48 samples: 192 zero bytes, the rest left as it was.
    assert_eq!(f.fill_silence(10, &mut buf), 192);
    assert!(buf[..192].iter().all(|b| *b == 0));
    assert!(buf[192..].iter().all(|b| *b == 7));
    assert_eq!(f.fill_silence(20, &mut buf), 0);
    // Once the source reads again, its bytes are handed on and silencing
    // stops.
    assert_eq!(f.pass_through(123), 123);
    assert_eq!(f.state, Filling::Transmitting);
}
