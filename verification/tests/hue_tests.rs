use mood::color::Color;
use mood::hue::{
    entertainment_configuration_url, light_ids, light_url, ColorMode, EntertainmentAction, EntertainmentTarget,
    HexError, HueStream, LampState, RestoreRequest,
};
use mood::settings::{AppConfig, AppSettings};

fn header(id: &str) -> Vec<u8> {
    let mut h = b"HueStream".to_vec();
    h.extend_from_slice(&[2, 0, 0, 0, 0, 0, 0]);
    h.extend_from_slice(id.as_bytes());
    h
}

#[test]
fn stream_starts_with_header() {
    let s = HueStream::new("cfg-1");
    assert_eq!(s.packet(), &header("cfg-1")[..]);
    assert_eq!(s.header_len(), 16 + 5);
}

#[test]
fn stream_message_carries_both_channels_big_endian() {
    let mut s = HueStream::new("x");
    s.push_colors(&[Color::new(0x0102, 0x0304, 0x0506), Color::new(0xffff, 0, 0x8000)]);
    let mut expected = header("x");
    expected.extend_from_slice(&[0, 1, 2, 3, 4, 5, 6, 1, 0xff, 0xff, 0, 0, 0x80, 0]);
    assert_eq!(s.packet(), &expected[..]);
}

#[test]
fn stream_returns_to_header_after_each_message() {
    let mut s = HueStream::new("id");
    for v in [0u16, 257, 65535] {
        s.push_colors(&[Color::new(v, v, v), Color::new(v, v, v)]);
        assert_eq!(s.packet().len(), header("id").len() + 14);
        s.truncate_to_header();
        assert_eq!(s.packet(), &header("id")[..]);
    }
}

#[test]
fn stream_from_config_uses_configuration_id() {
    let mut c = AppConfig::new();
    c.apply_saved(&[("ENTERTAINMENT_CONFIG_ID".to_string(), "abc-123".to_string())]);
    let s = HueStream::from_config(&c);
    assert_eq!(s.packet(), &header("abc-123")[..]);
}

#[test]
fn bridge_urls() {
    assert_eq!(
        entertainment_configuration_url("10.0.0.2", "cfg"),
        "https://10.0.0.2/clip/v2/resource/entertainment_configuration/cfg"
    );
    assert_eq!(light_url("10.0.0.2", "lamp"), "https://10.0.0.2/clip/v2/resource/light/lamp");
}

#[test]
fn entertainment_actions() {
    assert_eq!(EntertainmentAction::Start.as_str(), "start");
    assert_eq!(EntertainmentAction::Stop.as_str(), "stop");
}

fn target(client_key: &str) -> EntertainmentTarget {
    EntertainmentTarget {
        client_key: client_key.to_string(),
        bridge_ip: "192.168.0.7".to_string(),
        bridge_port: "2100".to_string(),
        app_id: "app".to_string(),
        config_id: "cfg".to_string(),
    }
}

#[test]
fn target_from_settings() {
    let mut settings = AppSettings::new();
    settings.config.apply_saved(&[
        ("BRIDGE_ADDRESS".to_string(), "192.168.0.7".to_string()),
        ("BRIDGE_PORT".to_string(), "2100".to_string()),
        ("APP_ID".to_string(), "app".to_string()),
        ("ENTERTAINMENT_CONFIG_ID".to_string(), "cfg".to_string()),
    ]);
    settings.secrets.set_prompted(0, "appkey".to_string());
    settings.secrets.set_prompted(1, "00ff".to_string());
    let t = EntertainmentTarget::from_settings(&settings);
    assert_eq!(t.client_key, "00ff");
    assert_eq!(t.bridge_ip, "192.168.0.7");
    assert_eq!(t.bridge_port, "2100");
    assert_eq!(t.app_id, "app");
    assert_eq!(t.config_id, "cfg");
    assert_eq!(t.socket_address(), "192.168.0.7:2100");
    assert_eq!(
        t.configuration_url(),
        "https://192.168.0.7/clip/v2/resource/entertainment_configuration/cfg"
    );
}

#[test]
fn client_key_is_decoded_from_hex() {
    assert_eq!(target("00ff1A").psk(), Ok(vec![0x00, 0xff, 0x1a]));
    assert_eq!(target("").psk(), Ok(vec![]));
}

#[test]
fn client_key_of_odd_length_is_refused() {
    assert_eq!(target("abc").psk(), Err(HexError::OddLength));
}

#[test]
fn client_key_with_non_hex_digit_is_refused() {
    assert_eq!(target("00gz").psk(), Err(HexError::InvalidHexCharacter { c: 'g', index: 2 }));
}

#[test]
fn identity_hint_is_app_id() {
    assert_eq!(target("").psk_identity_hint(), b"app".to_vec());
}

#[test]
fn light_ids_skip_services_without_id() {
    let ids = light_ids(vec![Some("a".to_string()), None, Some("b".to_string())]);
    assert_eq!(ids, vec!["a".to_string(), "b".to_string()]);
    assert!(light_ids(vec![None]).is_empty());
}

#[test]
fn lamp_reading_defaults() {
    let l = LampState::from_reading("lamp", None, None, None);
    assert_eq!(l.id, "lamp");
    assert!(!l.on);
    assert_eq!(l.color_temperature, None);
    assert_eq!(l.color_mode, ColorMode::ColorXy);
}

#[test]
fn lamp_reading_white_mode_keeps_low_bits_of_mirek() {
    let l = LampState::from_reading("lamp", Some(true), Some((1u64 << 32) + 366), Some(true));
    assert!(l.on);
    assert_eq!(l.color_temperature, Some(366));
    assert_eq!(l.color_mode, ColorMode::ColorTemperature);
}

#[test]
fn restore_in_white_mode_sends_temperature_not_xy() {
    let l = LampState::from_reading("lamp", Some(true), Some(300), Some(true));
    assert_eq!(
        l.restore_request(true, true),
        RestoreRequest { on: true, brightness: true, color_temperature: Some(300), color_xy: false }
    );
}

#[test]
fn restore_in_colour_mode_sends_xy_not_temperature() {
    let l = LampState::from_reading("lamp", Some(false), Some(300), Some(false));
    assert_eq!(
        l.restore_request(false, true),
        RestoreRequest { on: false, brightness: false, color_temperature: None, color_xy: true }
    );
    assert_eq!(
        l.restore_request(true, false),
        RestoreRequest { on: false, brightness: true, color_temperature: None, color_xy: false }
    );
}
