//! Firmware images and the course of a flash.

use winctrl_config::flash::{
    answers_in_mode, check_target, crc16_modbus, data_chunks, hidraw_paths, parse_wwtc, run_flash,
    search_step, update_data_args, FlashAction, FlashEvent, FlashOptions, FlashProgress, FlashRun,
    FlashTarget, SearchStep,
};

#[test]
fn crc16_modbus_known_vector() {
    assert_eq!(crc16_modbus(b"123456789"), 0x4B37);
    assert_eq!(crc16_modbus(&[]), 0xFFFF);
}

fn make_wwtc(hw_type: u16, device: u8, family: u8, hwver: u16, maj: u8, min: u8, payload: &[u8]) -> Vec<u8> {
    let mut b = Vec::new();
    b.extend_from_slice(&hw_type.to_le_bytes());
    b.push(device);
    b.push(family);
    b.extend_from_slice(&hwver.to_le_bytes());
    b.push(min);
    b.push(maj);
    b.extend_from_slice(payload);
    b.extend_from_slice(&(payload.len() as u32).to_le_bytes());
    b.extend_from_slice(&crc16_modbus(payload).to_le_bytes());
    b
}

#[test]
fn parse_valid_wwtc() {
    let payload: Vec<u8> = (0..64u8).collect();
    let bytes = make_wwtc(0x0122, 0x0a, 0xbf, 0x5100, 1, 2, &payload);
    let fw = parse_wwtc(&bytes).unwrap();
    assert_eq!(fw.header.device, 0x0a);
    assert_eq!(fw.header.family, 0xbf);
    assert_eq!(fw.header.hardware_version, 0x5100);
    assert_eq!(fw.header.version(), "1.02");
    assert_eq!(fw.payload, payload);
    assert_eq!(fw.n_data_frames(), 16);
}

#[test]
fn parse_rejects_bad_crc() {
    let payload: Vec<u8> = (0..8u8).collect();
    let mut bytes = make_wwtc(0x0122, 0x0a, 0xbf, 0x5100, 1, 0, &payload);
    let n = bytes.len();
    bytes[n - 1] ^= 0xFF;
    assert!(parse_wwtc(&bytes).unwrap_err().contains("CRC"));
}

#[test]
fn parse_rejects_non_multiple_of_4() {
    let payload: Vec<u8> = (0..6u8).collect();
    let bytes = make_wwtc(0x0122, 0x0a, 0xbf, 0x5100, 1, 0, &payload);
    assert!(parse_wwtc(&bytes).unwrap_err().contains("multiple de 4"));
}

#[test]
fn parse_rejects_length_mismatch() {
    let payload: Vec<u8> = (0..8u8).collect();
    let mut bytes = make_wwtc(0x0122, 0x0a, 0xbf, 0x5100, 1, 0, &payload);
    let n = bytes.len();
    bytes[n - 6] = 0xFF;
    assert!(parse_wwtc(&bytes).is_err());
}

#[test]
fn check_target_matches_and_rejects() {
    let payload: Vec<u8> = (0..8u8).collect();
    let bytes = make_wwtc(0x0122, 0x0a, 0xbf, 0x5100, 1, 2, &payload);
    let fw = parse_wwtc(&bytes).unwrap();
    let tgt = |device, family, hwver, hw_type| FlashTarget { device, family, hwver, hw_type };
    assert!(check_target(&fw, &tgt(0x0a, 0xbf, 0x5100, 0x0122)).is_ok());
    assert!(check_target(&fw, &tgt(0x20, 0xbb, 0x5100, 0x0123)).is_err());
    assert!(check_target(&fw, &tgt(0x0a, 0xbf, 0x0110, 0x0122)).is_err());
}

#[test]
fn data_chunks_are_contiguous() {
    let payload: Vec<u8> = (0..12u8).collect();
    let v: Vec<(u32, [u8; 4])> = data_chunks(&payload);
    assert_eq!(v.len(), 3);
    assert_eq!(v[0], (0, [0, 1, 2, 3]));
    assert_eq!(v[1], (4, [4, 5, 6, 7]));
    assert_eq!(v[2], (8, [8, 9, 10, 11]));
    assert_eq!(update_data_args(4, [4, 5, 6, 7]), [4, 0, 0, 4, 5, 6, 7]);
}

const TARGET: FlashTarget = FlashTarget { device: 0x0a, family: 0xbf, hwver: 0x5100, hw_type: 0x0122 };

fn start(payload: &[u8], target: FlashTarget, dry_run: bool) -> FlashRun {
    let fw = parse_wwtc(&make_wwtc(0x0122, 0x0a, 0xbf, 0x5100, 1, 2, payload)).unwrap();
    FlashRun::new("/dev/hidraw3".to_string(), target, fw, &FlashOptions { dry_run })
}

fn finished(action: FlashAction) -> Result<(), String> {
    match action {
        FlashAction::Finish(r) => r,
        other => panic!("{other:?}"),
    }
}

fn frame_of(action: FlashAction) -> (Vec<u8>, u8) {
    match action {
        FlashAction::Exchange { frame, opcode, .. } => (frame.to_vec(), opcode),
        other => panic!("{other:?}"),
    }
}

#[test]
fn a_whole_flash() {
    let mut run = start(&[1, 2, 3, 4, 5, 6, 7, 8], TARGET, false);
    let t = run_flash(&mut run, FlashEvent::Begin);
    assert!(matches!(t.action, FlashAction::Open { .. }));
    assert!(matches!(&t.reports[0], FlashProgress::Info(s) if s.contains("Firmware 1.02 — 8 octets, 2 trames")));
    let t = run_flash(&mut run, FlashEvent::Opened(Ok(())));
    assert_eq!(frame_of(t.action).1, 0x40);
    let t = run_flash(&mut run, FlashEvent::Ack(Some(vec![])));
    assert!(matches!(t.action, FlashAction::AwaitMode { device: 0x0a, family: 0xbf, mode: 1 }));
    let t = run_flash(&mut run, FlashEvent::Mode(Some("/dev/hidraw5".to_string())));
    assert!(matches!(t.action, FlashAction::Open { path } if path == "/dev/hidraw5"));
    let t = run_flash(&mut run, FlashEvent::Opened(Ok(())));
    assert_eq!(frame_of(t.action).1, 0x20);
    let t = run_flash(&mut run, FlashEvent::Ack(Some(vec![1])));
    let (frame, op) = frame_of(t.action);
    assert_eq!(op, 0x21);
    assert_eq!(&frame[..], &[2, 0x0a, 0xbf, 0, 0, 8, 0x21, 0, 0, 0, 1, 2, 3, 4]);
    let t = run_flash(&mut run, FlashEvent::Ack(Some(vec![0, 0, 0])));
    assert!(matches!(t.reports[0], FlashProgress::Writing(0, 8)));
    let (frame, _) = frame_of(t.action);
    assert_eq!(&frame[7..], &[4, 0, 0, 5, 6, 7, 8]);
    let t = run_flash(&mut run, FlashEvent::Ack(Some(vec![4, 0, 0])));
    assert_eq!(frame_of(t.action).1, 0x22);
    let t = run_flash(&mut run, FlashEvent::Ack(Some(vec![])));
    assert_eq!(frame_of(t.action).1, 0x23);
    let t = run_flash(&mut run, FlashEvent::Ack(Some(vec![])));
    assert_eq!(frame_of(t.action).1, 0x24);
    let t = run_flash(&mut run, FlashEvent::Ack(Some(vec![1])));
    assert!(matches!(t.action, FlashAction::AwaitMode { mode: 0, .. }));
    let t = run_flash(&mut run, FlashEvent::Mode(Some("/dev/hidraw3".to_string())));
    assert_eq!(finished(t.action), Ok(()));
}

#[test]
fn a_dry_run_sends_nothing() {
    let mut run = start(&[1, 2, 3, 4], TARGET, true);
    let t = run_flash(&mut run, FlashEvent::Begin);
    assert_eq!(t.reports.len(), 2);
    assert_eq!(finished(t.action), Ok(()));
    assert!(FlashOptions::default().dry_run);
}

#[test]
fn a_wrong_target_is_refused_at_once() {
    let wrong = FlashTarget { hwver: 0x0110, ..TARGET };
    let mut run = start(&[1, 2, 3, 4], wrong, false);
    let e = finished(run_flash(&mut run, FlashEvent::Begin).action).unwrap_err();
    assert_eq!(e, "version matérielle : firmware 0x5100, contrôleur 0x0110");
}

#[test]
fn a_flash_that_is_not_answered_stops() {
    let mut run = start(&[1, 2, 3, 4], TARGET, false);
    run_flash(&mut run, FlashEvent::Begin);
    run_flash(&mut run, FlashEvent::Opened(Ok(())));
    let e = finished(run_flash(&mut run, FlashEvent::Ack(None)).action).unwrap_err();
    assert_eq!(e, "pas d'accusé à ENTER_UPDATA_MODE");

    let mut run = start(&[1, 2, 3, 4], TARGET, false);
    run_flash(&mut run, FlashEvent::Begin);
    assert!(finished(run_flash(&mut run, FlashEvent::Opened(Err("busy".to_string()))).action)
        .unwrap_err()
        .contains("busy"));

    let mut run = start(&[1, 2, 3, 4], TARGET, false);
    run_flash(&mut run, FlashEvent::Begin);
    run_flash(&mut run, FlashEvent::Opened(Ok(())));
    run_flash(&mut run, FlashEvent::Ack(Some(vec![])));
    assert_eq!(
        finished(run_flash(&mut run, FlashEvent::Mode(None)).action).unwrap_err(),
        "délai dépassé : aucun contrôleur 0x0a/0xbf en mode 0x01"
    );
}

#[test]
fn a_short_image_is_refused() {
    assert_eq!(parse_wwtc(&[0; 13]).unwrap_err(), "fichier trop court (13 o < 14)");
}

#[test]
fn a_wrong_hardware_type_is_refused() {
    let fw = parse_wwtc(&make_wwtc(0x0122, 0x0a, 0xbf, 0x5100, 1, 2, &[])).unwrap();
    let t = FlashTarget { hw_type: 0x0123, ..TARGET };
    assert_eq!(check_target(&fw, &t).unwrap_err(), "type matériel : firmware 0x0122, contrôleur 0x0123");
}

#[test]
fn endpoints_that_may_answer() {
    let names: Vec<String> = ["hidraw9", "null", "hidraw10", "hidraw1"].iter().map(|s| s.to_string()).collect();
    assert_eq!(hidraw_paths(&names), vec!["/dev/hidraw1", "/dev/hidraw10", "/dev/hidraw9"]);
    assert!(answers_in_mode(&[9, 9, 1], 1));
    assert!(!answers_in_mode(&[1, 0], 1));
    assert!(!answers_in_mode(&[], 0));
}

#[test]
fn the_search_asks_all_before_it_gives_up() {
    assert_eq!(search_step(&Some(vec![9, 1]), 1, 3, true), SearchStep::Found);
    assert_eq!(search_step(&Some(vec![1, 0]), 1, 3, true), SearchStep::Next);
    assert_eq!(search_step(&None, 1, 0, false), SearchStep::Sleep);
    assert_eq!(search_step(&Some(vec![]), 0, 0, true), SearchStep::GiveUp);
}
