//! The firmware catalog and the versions of controllers.

use winctrl_config::enumerate::Controller;
use winctrl_config::firmware::{
    build_query_body, catalog_key, catalog_pid, catalog_queries, check_firmware, decode_fw_version,
    decode_hw, decode_hw_type, flash_controller, flash_target, hardware_string,
    parse_latest_version, ControllerVersions, HardwareError, ReportTexts,
};
use winctrl_config::flash::{parse_wwtc, FlashTarget};

#[test]
fn pid_and_hardware_strings() {
    assert_eq!(catalog_pid(0x0a, 0xbf), 0xbf0a);
    assert_eq!(hardware_string(0x5100), "51.00");
    assert_eq!(hardware_string(0x0102), "1.02");
    assert_eq!(catalog_key(0xbf0a, "51.00"), "48906&51.00");
}

#[test]
fn query_body_shape() {
    let body = build_query_body(&[(0xbf0a, "51.00".into())]);
    assert!(body.contains("\"pid\":48906"));
    assert!(body.contains("\"hardWare\":\"51.00\""));
    assert!(body.starts_with('[') && body.ends_with(']'));
}

#[test]
fn parse_version_string_and_number() {
    let pid = 0xbf0a;
    let hw = "51.00";
    let key = catalog_key(pid, hw);
    let resp = format!(
        r#"{{"data":{{"{key}":{{"firmware_version":"1.0.7","file_name":"grip"}}}}}}"#
    );
    assert_eq!(parse_latest_version(&resp, pid, hw), Some("1.0.7".into()));
    let resp_n = format!(r#"{{"data":{{"{key}":{{"firmware_version":9}}}}}}"#);
    assert_eq!(parse_latest_version(&resp_n, pid, hw), Some("9".into()));
}

#[test]
fn parse_absent_entry_is_none() {
    let resp = r#"{"data":{}}"#;
    assert_eq!(parse_latest_version(resp, 0xbf0a, "51.00"), None);
    assert_eq!(parse_latest_version("not json", 1, "x"), None);
}

#[test]
fn decode_payloads() {
    assert_eq!(decode_fw_version(&[0x0a, 0xbf, 0x02, 0x01]).as_deref(), Some("1.02"));
    assert_eq!(decode_fw_version(&[0x10, 0xb9, 0x16, 0x01]).as_deref(), Some("1.16"));
    assert_eq!(decode_fw_version(&[0x0a, 0xbf]), None);
    assert_eq!(decode_hw(&[0x22, 0x01, 0x00, 0x51]), Some(0x5100));
    assert_eq!(decode_hw(&[0, 0]), None);
}

fn texts() -> ReportTexts {
    ReportTexts {
        grip: "Grip".into(),
        base: "Base".into(),
        up_to_date: " ok".into(),
        update_available: " new".into(),
        with_entry: "{} {} {} {}{}".into(),
        without_entry: "{} {} {} -".into(),
    }
}

#[test]
fn controllers_are_compared_with_the_catalog() {
    let ctls = vec![
        ControllerVersions { device: 0x0a, family: 0xbf, fw: Some("1.02".into()), hwver: Some(0x5100) },
        ControllerVersions { device: 0x20, family: 0xbb, fw: Some("1.00".into()), hwver: Some(0x5100) },
        ControllerVersions { device: 0x21, family: 0xbb, fw: None, hwver: Some(0x0102) },
        ControllerVersions { device: 0x22, family: 0xbb, fw: None, hwver: None },
    ];
    let q = catalog_queries(&ctls);
    assert_eq!(q[0], (0xbf0a, "51.00".to_string()));
    assert_eq!(q.len(), 3);
    let resp = r#"{"data":{"48906&51.00":{"firmware_version":"1.02"},"47904&51.00":{"firmware_version":2}}}"#;
    assert_eq!(
        check_firmware(&ctls, resp, &texts()),
        "Grip 51.00 1.02 1.02 ok\nBase 51.00 1.00 2 new\nBase 1.02 ? -"
    );
    assert_eq!(
        check_firmware(&ctls, "not json", &texts()),
        "Grip 51.00 1.02 -\nBase 51.00 1.00 -\nBase 1.02 ? -"
    );
}

#[test]
fn queries_hold_what_is_asked() {
    let body = build_query_body(&[(1, "a\"b".into()), (2, "c".into())]);
    let v: serde_json::Value = serde_json::from_str(&body).unwrap();
    assert_eq!(v[0]["pid"], 1);
    assert_eq!(v[0]["hardWare"], "a\"b");
    assert_eq!(v[1]["pid"], 2);
    assert_eq!(build_query_body(&[]), "[]");
}

#[test]
fn the_target_of_an_image() {
    let mut image: Vec<u8> = vec![0x22, 0x01, 0x0a, 0xbf, 0x00, 0x51, 0x02, 0x01];
    image.extend_from_slice(&[0, 0, 0, 0, 0xFF, 0xFF]);
    let fw = parse_wwtc(&image).unwrap();
    let grip = Controller::new(0x0a, 0xbf);
    let base = Controller::new(0x20, 0xbb);
    assert_eq!(flash_controller(&[base, grip], &fw), Some(grip));
    assert_eq!(flash_controller(&[base], &fw), None);
    assert_eq!(
        flash_target(grip, &[0x22, 0x01, 0x00, 0x51]).unwrap(),
        FlashTarget { device: 0x0a, family: 0xbf, hwver: 0x5100, hw_type: 0x0122 }
    );
    assert_eq!(flash_target(grip, &[0x22]).unwrap_err(), HardwareError::Version);
    assert_eq!(decode_hw_type(&[0x22, 0x01]), Some(0x0122));
    assert_eq!(decode_hw_type(&[0x22]), None);
}
