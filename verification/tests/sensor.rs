use weatherpanel::errors::TickError;
use weatherpanel::onewire::{DeviceNode, Ds18b20};

fn node(name: &str, has_temperature: bool) -> DeviceNode {
    DeviceNode {
        name: name.as_bytes().to_vec(),
        has_temperature,
    }
}

#[test]
fn scan_selects_the_first_qualifying_entry() {
    let probe = Ds18b20::new(vec![
        node("10-00080283a1b2", true),
        node("28-skipped", false),
        node("28-0316a4c1", true),
        node("28-later", true),
    ])
    .unwrap();
    assert_eq!(probe.name(), &b"28-0316a4c1".to_vec());
}

#[test]
fn scan_without_a_probe_is_an_io_error() {
    let err = Ds18b20::new(vec![
        node("w1_bus_master1", true),
        node("10-00080283a1b2", true),
        node("28-no-node", false),
    ])
    .unwrap_err();
    assert_eq!(err, TickError::IoError);
    assert_eq!(Ds18b20::new(Vec::new()).unwrap_err(), TickError::IoError);
}

#[test]
fn device_content_parses_as_milli_degrees() {
    assert_eq!(Ds18b20::parse_temperature(&b"23500\n".to_vec()).unwrap(), 23500);
    assert_eq!(Ds18b20::parse_temperature(&b" -1250 \r\n".to_vec()).unwrap(), -1250);
    assert_eq!(Ds18b20::parse_temperature(&b"00042".to_vec()).unwrap(), 42);
    assert_eq!(Ds18b20::parse_temperature(&b"0".to_vec()).unwrap(), 0);
    assert_eq!(
        Ds18b20::parse_temperature(&b"9223372036854775807".to_vec()).unwrap(),
        i64::MAX
    );
}

#[test]
fn unparseable_content_is_an_io_error() {
    for content in [
        &b""[..],
        b"\n",
        b"-",
        b"abc",
        b"12a4",
        b"12.5",
        b"1 2",
        b"+125",
        b"9223372036854775808",
        b"99999999999999999999999",
    ] {
        let err = Ds18b20::parse_temperature(&content.to_vec()).unwrap_err();
        assert_eq!(err, TickError::IoError, "content: {:?}", content);
    }
}
