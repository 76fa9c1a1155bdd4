use lcm::dispatch::raw_trampoline;
use lcm::error::{DecodeError, EncodeError, InitError, TrampolineError};
use lcm::facade::{choose_url, parse_u32, udpm_config, Subscription, UdpmConfig, LCM_DEFAULT_URL};
use lcm::message::{decode_array, encode_array};
use lcm::spsc::channel;

#[test]
fn default_url_when_unset_or_empty() {
    assert_eq!(choose_url(None), LCM_DEFAULT_URL);
    assert_eq!(choose_url(Some(String::new())), "udpm://239.255.76.67:7667?ttl=0");
    assert_eq!(choose_url(Some("udpm://1.2.3.4:5".to_string())), "udpm://1.2.3.4:5");
}

#[test]
fn udpm_url_settings() {
    let c = udpm_config("udpm://239.255.76.67:7667?ttl=1").unwrap();
    assert_eq!(c.host, "239.255.76.67");
    assert_eq!(c.port, 7667);
    assert_eq!(c.ttl, 1);
    let c = udpm_config("udpm://239.255.76.68:7000?foo=bar").unwrap();
    assert_eq!(c.host, "239.255.76.68");
    assert_eq!(c.port, 7000);
    assert_eq!(c.ttl, 0);
    let c = udpm_config("udpm://239.1.2.3").unwrap();
    assert_eq!(c.port, 7667);
}

#[test]
fn url_errors() {
    assert_eq!(udpm_config("not a url"), Err(InitError::InvalidLcmUrl));
    assert_eq!(
        udpm_config("file:///tmp/log"),
        Err(InitError::UnknownProvider("file".to_string()))
    );
    assert_eq!(udpm_config("udpm://239.255.76.67:7667?ttl=-1"), Err(InitError::InvalidTtl));
    assert_eq!(udpm_config("udpm://239.255.76.67:7667?ttl=x"), Err(InitError::InvalidTtl));
}

#[test]
fn unsigned_parsing() {
    assert_eq!(parse_u32("0"), Some(0));
    assert_eq!(parse_u32("+17"), Some(17));
    assert_eq!(parse_u32("4294967295"), Some(u32::MAX));
    assert_eq!(parse_u32("4294967296"), None);
    assert_eq!(parse_u32(""), None);
    assert_eq!(parse_u32("+"), None);
    assert_eq!(parse_u32("1a"), None);
}

#[test]
fn subscriptions_compare_by_id() {
    assert_eq!(Subscription(3), Subscription(3));
    assert_ne!(Subscription(3), Subscription(4));
}

#[test]
fn array_length_mismatch() {
    let items: Vec<i16> = vec![1, 2, 3];
    let mut buffer = vec![9u8];
    let r = encode_array("npoints", 2, &items, &mut buffer);
    assert_eq!(
        r,
        Err(EncodeError::SizeMismatch { size_var: "npoints".to_string(), expected: 2, found: 3 })
    );
    assert_eq!(buffer, vec![9u8]);
    let r = encode_array("npoints", -3, &items, &mut buffer);
    assert_eq!(
        r,
        Err(EncodeError::SizeMismatch { size_var: "npoints".to_string(), expected: -3, found: 3 })
    );
}

#[test]
fn array_round_trip() {
    let items: Vec<i16> = vec![1, -2, 300];
    let mut buffer = Vec::new();
    encode_array("n", 3, &items, &mut buffer).unwrap();
    assert_eq!(buffer, vec![0, 1, 0xff, 0xfe, 0x01, 0x2c]);
    let (back, end) = decode_array::<i16>(&buffer, 0, 3).unwrap();
    assert_eq!(back, items);
    assert_eq!(end, 6);
    assert_eq!(decode_array::<i16>(&buffer, 0, -1).unwrap_err(), DecodeError::InvalidSize(-1));
    assert_eq!(decode_array::<i16>(&buffer, 0, 4).unwrap_err(), DecodeError::IoError);
    let (none, end) = decode_array::<i16>(&buffer, 2, 0).unwrap();
    assert!(none.is_empty());
    assert_eq!(end, 2);
}

#[test]
fn raw_payloads_are_queued_as_they_are() {
    let (tx, rx) = channel::<(String, Vec<u8>)>(1);
    assert_eq!(raw_trampoline(&tx, "RAW", &[1, 2, 3]), Ok(()));
    assert_eq!(rx.recv(), Some(("RAW".to_string(), vec![1, 2, 3])));
    drop(rx);
    assert_eq!(raw_trampoline(&tx, "RAW", &[4]), Err(TrampolineError::MessageChannelClosed));
}

#[test]
fn default_provider_settings() {
    let c = UdpmConfig::default();
    assert_eq!(c.host, "239.255.76.67");
    assert_eq!(c.port, 7667);
    assert_eq!(c.ttl, 0);
    assert_eq!(udpm_config(LCM_DEFAULT_URL).unwrap(), c);
}
