use busman::error::ParseError;
use busman::protocol::{DeviceSpeed, USBDevice};
use busman::vhci::{
    status_table_readable, USBPortSpeedClass, Vhci, VirtualPortStatus, VirtualPortStatusEntry,
};

const TABLE: &str = "hub port sta spd dev      sockfd local_busid\n\
hs  0000 005 003 00010002 000003 1-1\n\
hs  0001 004 000 00000000 000000 0-0\n\
ss  0008 004 000 00000000 000000 0-0\n";

#[test]
fn vhci_paths() {
    let v = Vhci::new();
    assert_eq!(v.attach_path(), "/sys/devices/platform/vhci_hcd.0/attach");
    assert_eq!(v.status_path(), "/sys/devices/platform/vhci_hcd.0/status");
}

#[test]
fn port_classes() {
    assert_eq!(DeviceSpeed::Super.port_class(), USBPortSpeedClass::SS);
    assert_eq!(DeviceSpeed::SuperPlus.port_class(), USBPortSpeedClass::SS);
    assert_eq!(DeviceSpeed::High.port_class(), USBPortSpeedClass::HS);
    assert_eq!(DeviceSpeed::Unknown.port_class(), USBPortSpeedClass::HS);
    assert_eq!(USBPortSpeedClass::try_from("hs").unwrap(), USBPortSpeedClass::HS);
    assert_eq!(USBPortSpeedClass::try_from("ss").unwrap(), USBPortSpeedClass::SS);
    assert!(matches!(USBPortSpeedClass::try_from("xx"), Err(ParseError::InvalidSpeedClass)));
    assert_eq!(VirtualPortStatus::try_from("004").unwrap(), VirtualPortStatus::Available);
    assert_eq!(VirtualPortStatus::try_from("005").unwrap(), VirtualPortStatus::InUse);
    assert_eq!(VirtualPortStatus::try_from("006").unwrap(), VirtualPortStatus::Error);
}

#[test]
fn status_rows() {
    let e = VirtualPortStatusEntry::from_line("hs  0001 004 000 00000000 000000 0-0").unwrap();
    assert_eq!(e, VirtualPortStatusEntry { port: 1, speed_class: USBPortSpeedClass::HS, status: VirtualPortStatus::Available });
    assert!(matches!(VirtualPortStatusEntry::from_line("hx 1 004"), Err(ParseError::InvalidSpeedClass)));
    assert!(matches!(VirtualPortStatusEntry::from_line("hs one 004"), Err(ParseError::InvalidHex(_))));
}

#[test]
fn finds_free_ports() {
    let v = Vhci::new();
    assert_eq!(v.get_available_port(Ok(TABLE.to_string()), USBPortSpeedClass::HS), Some(1));
    assert_eq!(v.get_available_port(Ok(TABLE.to_string()), USBPortSpeedClass::SS), Some(8));
    let busy = "hub port sta\nhs 0000 005\n";
    assert_eq!(v.get_available_port(Ok(busy.to_string()), USBPortSpeedClass::HS), None);
    assert_eq!(v.get_available_port(Err(std::io::Error::from(std::io::ErrorKind::NotFound)), USBPortSpeedClass::HS), None);
    assert!(status_table_readable(TABLE, USBPortSpeedClass::HS));
    assert!(!status_table_readable("hdr\nhs 0000\nhs 0001 004", USBPortSpeedClass::HS));
    assert!(status_table_readable("hdr\nhs 0001 004\nshort", USBPortSpeedClass::HS));
}

#[test]
fn attach_command() {
    let v = Vhci::new();
    let d = USBDevice { bus_num: 1, device_num: 2, speed: DeviceSpeed::High, ..USBDevice::default() };
    let w = v.import_device(&d, 5, Ok(TABLE.to_string())).unwrap();
    assert_eq!(w.path, "/sys/devices/platform/vhci_hcd.0/attach");
    assert_eq!(w.value, "1 5 65538 3");
    let s = USBDevice { speed: DeviceSpeed::Super, ..USBDevice::default() };
    assert_eq!(v.import_device(&s, 4, Ok(TABLE.to_string())).unwrap().value, "8 4 0 5");
    assert!(v.import_device(&d, 5, Ok("hdr\n".to_string())).is_none());
}
