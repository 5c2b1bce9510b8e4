use busman::error::ParseError;
use busman::host::{
    ExportStep,     build_device, build_interface, read_sysfs_val_speed, read_sysfs_val_string, read_sysfs_val_u16,
    read_sysfs_val_u8, DeviceAttributes, DeviceEntry, Host, InterfaceAttributes,
};
use busman::kernel::KernelModule;
use busman::protocol::{DeviceSpeed, USBDevice, USBDeviceInterface};
use busman::sysfs::DeviceDir;

fn ok(s: &str) -> Result<String, std::io::Error> {
    Ok(s.to_string())
}

fn missing() -> Result<String, std::io::Error> {
    Err(std::io::Error::from(std::io::ErrorKind::NotFound))
}

fn attributes() -> DeviceAttributes {
    DeviceAttributes {
        bus_num: ok("1\n"),
        device_num: ok("5\n"),
        speed: ok("480\n"),
        vendor_id: ok("046d\n"),
        product_id: ok("c52b\n"),
        revision_num: ok("1211\n"),
        class: ok("00\n"),
        subclass: ok("00\n"),
        protocol: ok("00\n"),
        configuration_value: ok("1\n"),
        num_configurations: ok("1\n"),
    }
}

fn interface(name: &str, class: &str) -> InterfaceAttributes {
    InterfaceAttributes { name: name.to_string(), class: ok(class), subclass: ok("01\n"), protocol: ok("02\n") }
}

fn sample_device() -> USBDevice {
    USBDevice { bus_id: "1-1".to_string(), ..USBDevice::default() }
}

#[test]
fn host_paths() {
    let h = Host::new();
    assert_eq!(h.devices_dir(), "/sys/bus/usb/devices");
    assert_eq!(h.driver_dir("usbip-host"), "/sys/bus/usb/drivers/usbip-host");
    assert_eq!(h.driver_bind_path("usbip-host"), "/sys/bus/usb/drivers/usbip-host/bind");
    assert_eq!(h.driver_unbind_path("usbhid"), "/sys/bus/usb/drivers/usbhid/unbind");
    assert_eq!(h.driver_allowlist_path("usbip-host"), "/sys/bus/usb/drivers/usbip-host/match_busid");
    assert_eq!(h.sock_assign_path("1-1"), "/sys/bus/usb/devices/1-1/usbip_sockfd");
    assert_eq!(h.driver_reprobe_path(), "/sys/bus/usb/drivers_probe");
    assert_eq!(Host::kernel_modules(), vec![KernelModule::UsbIpCore, KernelModule::UsbIpHost]);
}

#[test]
fn module_names() {
    assert_eq!(KernelModule::VhciHcd.as_str(), "vhci-hcd");
    assert_eq!(KernelModule::UsbIpHost.as_str(), "usbip-host");
    assert_eq!(KernelModule::UsbIpCore.as_str(), "usbip-core");
}

#[test]
fn attribute_values() {
    assert_eq!(read_sysfs_val_string(ok(" x \n")).unwrap(), "x");
    assert!(matches!(read_sysfs_val_string(missing()), Err(ParseError::Io(_))));
    assert_eq!(read_sysfs_val_u8(ok("e0\n"), 16).unwrap(), 0xe0);
    assert!(matches!(read_sysfs_val_u8(ok("e0\n"), 10), Err(ParseError::InvalidHex(_))));
    assert_eq!(read_sysfs_val_u16(ok("1211"), 10).unwrap(), 1211);
    assert_eq!(read_sysfs_val_speed(ok("5000\n")).unwrap(), DeviceSpeed::Super);
    assert!(matches!(read_sysfs_val_speed(ok("7\n")), Err(ParseError::InvalidSpeedClass)));
}

#[test]
fn builds_records() {
    let i = build_interface(interface("1-1:1.0", "03\n")).unwrap();
    assert_eq!(i, USBDeviceInterface { class: 3, subclass: 1, protocol: 2 });
    assert!(matches!(build_interface(interface("1-1:1.0", "zz")), Err(ParseError::InvalidHex(_))));

    let dir = DeviceDir::from_path("/sys/bus/usb/devices/1-1".to_string()).unwrap();
    let ifs = vec![interface("1-1:1.0", "03\n"), interface("power", "03\n"), interface("1-1:1.1", "bad")];
    let d = build_device(&dir, attributes(), Ok(ifs)).unwrap();
    assert_eq!(d.bus_id, "1-1");
    assert_eq!(d.path, "");
    assert_eq!(d.bus_num, 1);
    assert_eq!(d.device_num, 5);
    assert_eq!(d.speed, DeviceSpeed::High);
    assert_eq!(d.vendor_id, 0x046d);
    assert_eq!(d.product_id, 0xc52b);
    assert_eq!(d.revision_num, 1211);
    assert_eq!(d.configuration_value, 1);
    assert_eq!(d.interfaces, vec![USBDeviceInterface { class: 3, subclass: 1, protocol: 2 }]);

    let mut a = attributes();
    a.vendor_id = missing();
    a.class = ok("x");
    assert!(matches!(build_device(&dir, a, Ok(vec![])), Err(ParseError::Io(_))));
    let mut a = attributes();
    a.speed = ok("3");
    assert!(matches!(build_device(&dir, a, Ok(vec![])), Err(ParseError::InvalidSpeedClass)));
    assert!(matches!(
        build_device(&dir, attributes(), Err(std::io::Error::from(std::io::ErrorKind::PermissionDenied))),
        Err(ParseError::Io(_))
    ));
}

#[test]
fn lists_devices() {
    let h = Host::new();
    let mut broken = attributes();
    broken.bus_num = ok("one");
    let entries = vec![
        DeviceEntry { name: "usb1".to_string(), attributes: attributes(), interfaces: Ok(vec![]) },
        DeviceEntry { name: "1-1".to_string(), attributes: attributes(), interfaces: Ok(vec![]) },
        DeviceEntry { name: "1-1:1.0".to_string(), attributes: attributes(), interfaces: Ok(vec![]) },
        DeviceEntry { name: "1-2".to_string(), attributes: broken, interfaces: Ok(vec![]) },
        DeviceEntry { name: "2-1".to_string(), attributes: attributes(), interfaces: Ok(vec![]) },
    ];
    let devices = h.list_devices(entries);
    let ids: Vec<&str> = devices.iter().map(|d| d.bus_id.as_str()).collect();
    assert_eq!(ids, vec!["1-1", "2-1"]);

    assert!(h.device_by_id("1-1", attributes(), Ok(vec![])).is_some());
    assert!(h.device_by_id("usb1", attributes(), Ok(vec![])).is_none());
    let ifs = h.list_device_interfaces("1-1", Ok(vec![interface("1-1:1.0", "09")])).unwrap();
    assert_eq!(ifs, vec![USBDeviceInterface { class: 9, subclass: 1, protocol: 2 }]);
    assert!(h.list_device_interfaces("usb1", Ok(vec![interface("1-1:1.0", "09")])).unwrap().is_empty());
}

#[test]
fn export_and_release_writes() {
    let h = Host::new();
    let d = sample_device();
    let links = vec!["../../../../bus/usb/drivers/usbhid".to_string(), "/".to_string()];
    let ws = h.export_writes(&d, &links);
    let got: Vec<(&str, &str)> = ws.iter().map(|w| (w.path.as_str(), w.value.as_str())).collect();
    assert_eq!(
        got,
        vec![
            ("/sys/bus/usb/drivers/usbhid/unbind", "1-1"),
            ("/sys/bus/usb/drivers/usbip-host/match_busid", "add 1-1"),
            ("/sys/bus/usb/drivers/usbip-host/bind", "1-1"),
        ]
    );
    let steps = h.export_device(&d, &links, 7);
    assert_eq!(steps.len(), 5);
    assert!(matches!(&steps[2], ExportStep::Write(w) if w.path == "/sys/bus/usb/drivers/usbip-host/bind"));
    assert!(matches!(&steps[3], ExportStep::WatchSocket));
    assert!(matches!(&steps[4], ExportStep::Write(w) if w.path == "/sys/bus/usb/devices/1-1/usbip_sockfd" && w.value == "7"));
    let hand = h.handoff_device(&d, 7);
    assert_eq!(hand.path, "/sys/bus/usb/devices/1-1/usbip_sockfd");
    assert_eq!(hand.value, "7");
    let ws = h.release_device(&d);
    let got: Vec<(&str, &str)> = ws.iter().map(|w| (w.path.as_str(), w.value.as_str())).collect();
    assert_eq!(
        got,
        vec![
            ("/sys/bus/usb/drivers/usbip-host/unbind", "1-1"),
            ("/sys/bus/usb/drivers/usbip-host/match_busid", "del 1-1"),
            ("/sys/bus/usb/drivers_probe", "1-1"),
        ]
    );
}
