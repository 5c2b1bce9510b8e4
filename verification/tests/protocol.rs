use busman::error::{DecodeError, EncodeError};
use busman::protocol::{
    Decode, DeviceSpeed, Encode, Frame, PayloadReplyDeviceImport, PayloadReplyDeviceList,
    PayloadRequestDeviceImport, PayloadRequestDeviceList, USBDevice, USBDeviceField,
    USBDeviceInterface, USBDeviceInterfaceField,
};

fn sample_device() -> USBDevice {
    USBDevice {
        path: "/sys/devices/pci0000:00/0000:00:14.0/usb1/1-1".to_string(),
        bus_id: "1-1".to_string(),
        bus_num: 1,
        device_num: 2,
        speed: DeviceSpeed::High,
        vendor_id: 0x046d,
        product_id: 0xc52b,
        revision_num: 0x1211,
        class: 0,
        subclass: 0,
        protocol: 0,
        configuration_value: 1,
        num_configurations: 1,
        interfaces: vec![
            USBDeviceInterface { class: 3, subclass: 1, protocol: 1 },
            USBDeviceInterface { class: 3, subclass: 1, protocol: 2 },
        ],
    }
}

fn assert_same_device(a: &USBDevice, b: &USBDevice) {
    assert_eq!(a.path, b.path);
    assert_eq!(a.bus_id, b.bus_id);
    assert_eq!(a.bus_num, b.bus_num);
    assert_eq!(a.device_num, b.device_num);
    assert_eq!(a.speed, b.speed);
    assert_eq!(a.vendor_id, b.vendor_id);
    assert_eq!(a.product_id, b.product_id);
    assert_eq!(a.revision_num, b.revision_num);
    assert_eq!(a.class, b.class);
    assert_eq!(a.subclass, b.subclass);
    assert_eq!(a.protocol, b.protocol);
    assert_eq!(a.configuration_value, b.configuration_value);
    assert_eq!(a.num_configurations, b.num_configurations);
    assert_eq!(a.interfaces, b.interfaces);
}

fn encode(frame: &Frame) -> Vec<u8> {
    let mut out = Vec::new();
    frame.encode(&mut out).unwrap();
    out
}

#[test]
fn request_device_list_bytes() {
    let bytes = encode(&Frame::RequestDeviceList(PayloadRequestDeviceList));
    assert_eq!(bytes, vec![0, 0, 0x80, 0x05, 0, 0, 0, 0]);
    let (frame, used) = Frame::decode(&bytes).unwrap();
    assert_eq!(used, 8);
    assert!(matches!(frame, Frame::RequestDeviceList(_)));
}

#[test]
fn request_device_import_bytes() {
    let frame = Frame::RequestDeviceImport(PayloadRequestDeviceImport { bus_id: "1-1".to_string() });
    let bytes = encode(&frame);
    assert_eq!(bytes.len(), 40);
    assert_eq!(&bytes[0..8], &[0, 0, 0x80, 0x03, 0, 0, 0, 0]);
    assert_eq!(&bytes[8..11], b"1-1");
    assert!(bytes[11..40].iter().all(|b| *b == 0));
    let (decoded, used) = Frame::decode(&bytes).unwrap();
    assert_eq!(used, 40);
    match decoded {
        Frame::RequestDeviceImport(p) => assert_eq!(p.bus_id, "1-1"),
        other => panic!("unexpected {other:?}"),
    }
}

#[test]
fn reply_device_list_roundtrip() {
    let frame = Frame::ReplyDeviceList(PayloadReplyDeviceList {
        status: 0,
        devices: vec![sample_device(), sample_device()],
    });
    let mut bytes = encode(&frame);
    // header, status, count, then two records of 312 + 2 * 4 bytes
    assert_eq!(bytes.len(), 12 + 2 * (312 + 8));
    assert_eq!(&bytes[0..12], &[0, 0, 0, 0x05, 0, 0, 0, 0, 0, 0, 0, 2]);
    bytes.extend_from_slice(&[9, 9, 9]);
    let (decoded, used) = Frame::decode(&bytes).unwrap();
    assert_eq!(used, 12 + 2 * 320);
    match decoded {
        Frame::ReplyDeviceList(p) => {
            assert_eq!(p.status, 0);
            assert_eq!(p.devices.len(), 2);
            assert_same_device(&p.devices[0], &sample_device());
            assert_same_device(&p.devices[1], &sample_device());
        }
        other => panic!("unexpected {other:?}"),
    }
}

#[test]
fn device_record_layout() {
    let mut out = Vec::new();
    sample_device().encode(&mut out).unwrap();
    assert_eq!(out.len(), 320);
    assert_eq!(&out[256..259], b"1-1");
    assert_eq!(&out[288..292], &[0, 0, 0, 1]);
    assert_eq!(&out[292..296], &[0, 0, 0, 2]);
    assert_eq!(&out[296..300], &[0, 0, 0, 3]);
    assert_eq!(&out[300..306], &[0x04, 0x6d, 0xc5, 0x2b, 0x12, 0x11]);
    assert_eq!(&out[306..312], &[0, 0, 0, 1, 1, 2]);
    assert_eq!(&out[312..320], &[3, 1, 1, 0, 3, 1, 2, 0]);
    let (d, used) = USBDevice::decode(&out).unwrap();
    assert_eq!(used, 320);
    assert_same_device(&d, &sample_device());
}

#[test]
fn reply_device_import_with_and_without_device() {
    let ok = Frame::ReplyDeviceImport(PayloadReplyDeviceImport { status: 0, device: Some(sample_device()) });
    let bytes = encode(&ok);
    assert_eq!(bytes.len(), 8 + 320);
    match Frame::decode(&bytes).unwrap() {
        (Frame::ReplyDeviceImport(p), 328) => {
            assert_eq!(p.status, 0);
            assert_same_device(p.device.as_ref().unwrap(), &sample_device());
        }
        other => panic!("unexpected {other:?}"),
    }

    let refused = Frame::ReplyDeviceImport(PayloadReplyDeviceImport { status: 1, device: None });
    let bytes = encode(&refused);
    assert_eq!(bytes, vec![0, 0, 0, 0x03, 0, 0, 0, 1]);
    match Frame::decode(&bytes).unwrap() {
        (Frame::ReplyDeviceImport(p), 8) => {
            assert_eq!(p.status, 1);
            assert!(p.device.is_none());
        }
        other => panic!("unexpected {other:?}"),
    }

    // a device is written only with status zero
    let odd = Frame::ReplyDeviceImport(PayloadReplyDeviceImport { status: 2, device: Some(sample_device()) });
    assert_eq!(encode(&odd), vec![0, 0, 0, 0x03, 0, 0, 0, 2]);
}

#[test]
fn encode_rejects_long_bus_id() {
    let long = "x".repeat(32);
    let frame = Frame::RequestDeviceImport(PayloadRequestDeviceImport { bus_id: long.clone() });
    let mut out = vec![7u8];
    match frame.encode(&mut out) {
        Err(EncodeError::StringExceedsFieldWidth(s, w)) => {
            assert_eq!(s, long);
            assert_eq!(w, 32);
        }
        other => panic!("unexpected {other:?}"),
    }
    assert_eq!(out, vec![7u8, 0, 0, 0x80, 0x03, 0, 0, 0, 0]);
    let fits = Frame::RequestDeviceImport(PayloadRequestDeviceImport { bus_id: "x".repeat(31) });
    assert!(fits.encode(&mut Vec::new()).is_ok());
}

#[test]
fn encode_rejects_long_path() {
    let mut d = sample_device();
    d.path = "p".repeat(256);
    let frame = Frame::ReplyDeviceList(PayloadReplyDeviceList { status: 0, devices: vec![sample_device(), d] });
    let mut out = Vec::new();
    match frame.encode(&mut out) {
        Err(EncodeError::StringExceedsFieldWidth(s, w)) => {
            assert_eq!(s.len(), 256);
            assert_eq!(w, 256);
        }
        other => panic!("unexpected {other:?}"),
    }
    let mut first = Vec::new();
    sample_device().encode(&mut first).unwrap();
    let mut expected = vec![0u8, 0, 0, 5, 0, 0, 0, 0, 0, 0, 0, 2];
    expected.extend_from_slice(&first);
    assert_eq!(out, expected);
}

#[test]
fn encode_long_bus_id_after_path() {
    let mut d = sample_device();
    d.bus_id = "b".repeat(32);
    let mut out = Vec::new();
    match d.encode(&mut out) {
        Err(EncodeError::StringExceedsFieldWidth(s, w)) => {
            assert_eq!(s.len(), 32);
            assert_eq!(w, 32);
        }
        other => panic!("unexpected {other:?}"),
    }
    assert_eq!(out.len(), 256);
    assert_eq!(&out[..d.path.len()], d.path.as_bytes());
    assert!(out[d.path.len()..].iter().all(|b| *b == 0));
    let reply = Frame::ReplyDeviceImport(PayloadReplyDeviceImport { status: 0, device: Some(d) });
    let mut out = Vec::new();
    assert!(reply.encode(&mut out).is_err());
    assert_eq!(out.len(), 8 + 256);
    assert_eq!(&out[..8], &[0, 0, 0, 3, 0, 0, 0, 0]);
}

#[test]
fn decode_errors() {
    match Frame::decode(&[0, 0, 0x80]) {
        Err(DecodeError::Io(e)) => assert_eq!(e.kind(), std::io::ErrorKind::UnexpectedEof),
        other => panic!("unexpected {other:?}"),
    }
    match Frame::decode(&[0, 1, 0x12, 0x34, 0, 0, 0, 0]) {
        Err(DecodeError::UnsupportedOpcode(op)) => assert_eq!(op, 0x1234),
        other => panic!("unexpected {other:?}"),
    }
    let mut bytes = vec![0, 0, 0x80, 0x03, 0, 0, 0, 0];
    let mut field = vec![0u8; 32];
    field[0] = 0xff;
    bytes.extend_from_slice(&field);
    assert!(matches!(Frame::decode(&bytes), Err(DecodeError::InvalidUtf8(_))));

    let mut rec = Vec::new();
    sample_device().encode(&mut rec).unwrap();
    rec[299] = 9;
    assert!(matches!(USBDevice::decode(&rec), Err(DecodeError::InvalidSpeed(9))));

    let mut rec = Vec::new();
    sample_device().encode(&mut rec).unwrap();
    assert!(matches!(USBDevice::decode(&rec[..319]), Err(DecodeError::Io(_))));

    // a device list whose records run short
    let bytes = vec![0, 0, 0, 0x05, 0, 0, 0, 0, 0, 0, 0, 3];
    assert!(matches!(Frame::decode(&bytes), Err(DecodeError::Io(_))));
}

#[test]
fn text_field_stops_at_nul() {
    let mut bytes = vec![0, 0, 0x80, 0x03, 0, 0, 0, 0];
    let mut field = vec![0u8; 32];
    field[..3].copy_from_slice(b"2-1");
    field[4] = b'z';
    bytes.extend_from_slice(&field);
    match Frame::decode(&bytes).unwrap() {
        (Frame::RequestDeviceImport(p), 40) => assert_eq!(p.bus_id, "2-1"),
        other => panic!("unexpected {other:?}"),
    }
}

#[test]
fn unicode_text_roundtrips() {
    let frame = Frame::RequestDeviceImport(PayloadRequestDeviceImport { bus_id: "gerät-é".to_string() });
    let bytes = encode(&frame);
    match Frame::decode(&bytes).unwrap() {
        (Frame::RequestDeviceImport(p), 40) => assert_eq!(p.bus_id, "gerät-é"),
        other => panic!("unexpected {other:?}"),
    }
}

#[test]
fn speeds() {
    for (n, s) in [
        (0, DeviceSpeed::Unknown),
        (1, DeviceSpeed::Low),
        (2, DeviceSpeed::Full),
        (3, DeviceSpeed::High),
        (4, DeviceSpeed::Wireless),
        (5, DeviceSpeed::Super),
        (6, DeviceSpeed::SuperPlus),
    ] {
        assert_eq!(DeviceSpeed::try_from_primitive(n), Ok(s));
        assert_eq!(s.into_primitive(), n);
    }
    assert_eq!(DeviceSpeed::try_from_primitive(7), Err(7));
    assert_eq!(DeviceSpeed::default(), DeviceSpeed::Unknown);
}

#[test]
fn sysfs_speeds() {
    assert_eq!(DeviceSpeed::try_from("1.5\n".to_string()).unwrap(), DeviceSpeed::Low);
    assert_eq!(DeviceSpeed::try_from("12".to_string()).unwrap(), DeviceSpeed::Full);
    assert_eq!(DeviceSpeed::try_from(" 480 ".to_string()).unwrap(), DeviceSpeed::High);
    assert_eq!(DeviceSpeed::try_from("5000".to_string()).unwrap(), DeviceSpeed::Super);
    assert_eq!(DeviceSpeed::try_from("10000".to_string()).unwrap(), DeviceSpeed::SuperPlus);
    assert_eq!(DeviceSpeed::try_from("20000".to_string()).unwrap(), DeviceSpeed::SuperPlus);
    assert!(matches!(
        DeviceSpeed::try_from("53".to_string()),
        Err(busman::error::ParseError::InvalidSpeedClass)
    ));
}

#[test]
fn device_id_packs_numbers() {
    let d = sample_device();
    assert_eq!(d.device_id(), 0x0001_0002);
    let mut e = sample_device();
    e.bus_num = 3;
    e.device_num = 17;
    assert_eq!(e.device_id(), (3 << 16) | 17);
}

#[test]
fn duplicate_copies() {
    let d = sample_device();
    assert_same_device(&d.duplicate(), &d);
}

#[test]
fn default_device_is_empty() {
    let d = USBDevice::default();
    assert!(d.path.is_empty() && d.bus_id.is_empty());
    assert_eq!(d.speed, DeviceSpeed::Unknown);
    assert!(d.interfaces.is_empty());
}

#[test]
fn field_names() {
    assert_eq!(USBDeviceField::BusNum.as_str(), "busnum");
    assert_eq!(USBDeviceField::DevNum.as_str(), "devnum");
    assert_eq!(USBDeviceField::Speed.as_str(), "speed");
    assert_eq!(USBDeviceField::VendorId.as_str(), "idVendor");
    assert_eq!(USBDeviceField::ProductId.as_str(), "idProduct");
    assert_eq!(USBDeviceField::RevisionNum.as_str(), "bcdDevice");
    assert_eq!(USBDeviceField::Class.as_str(), "bDeviceClass");
    assert_eq!(USBDeviceField::Subclass.as_str(), "bDeviceSubClass");
    assert_eq!(USBDeviceField::Protocol.as_str(), "bDeviceProtocol");
    assert_eq!(USBDeviceField::ConfigurationValue.as_str(), "bConfigurationValue");
    assert_eq!(USBDeviceField::NumConfigurations.as_str(), "bNumConfigurations");
    assert_eq!(USBDeviceInterfaceField::Class.as_str(), "bInterfaceClass");
    assert_eq!(USBDeviceInterfaceField::Subclass.as_str(), "bInterfaceClass");
    assert_eq!(USBDeviceInterfaceField::Protocol.as_str(), "bInterfaceProtocol");
}

#[test]
fn frame_names() {
    assert_eq!(Frame::RequestDeviceList(PayloadRequestDeviceList).name(), "OP_REQ_DEVLIST");
    assert_eq!(
        Frame::ReplyDeviceList(PayloadReplyDeviceList { status: 0, devices: vec![] }).name(),
        "OP_REP_DEVLIST"
    );
    assert_eq!(
        Frame::RequestDeviceImport(PayloadRequestDeviceImport { bus_id: String::new() }).name(),
        "OP_REQ_IMPORT"
    );
    assert_eq!(
        Frame::ReplyDeviceImport(PayloadReplyDeviceImport { status: 1, device: None }).name(),
        "OP_REP_IMPORT"
    );
}

#[test]
fn error_messages() {
    let e = EncodeError::StringExceedsFieldWidth("é".repeat(20), 32);
    assert_eq!(e.message().unwrap(), "string of length 40 exceeds field width 32");
    assert!(EncodeError::Io(std::io::Error::from(std::io::ErrorKind::Other)).message().is_none());
    assert_eq!(DecodeError::UnsupportedOpcode(0x1234).message().unwrap(), "unsupported opcode: 0x1234");
    assert_eq!(DecodeError::UnsupportedOpcode(0xab).message().unwrap(), "unsupported opcode: 0x00ab");
    assert!(DecodeError::InvalidSpeed(9).message().is_none());
}
