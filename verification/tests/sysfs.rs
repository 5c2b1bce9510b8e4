use busman::sysfs::{is_device_name, is_interface_name, DeviceDir, InterfaceDir, SysfsHandle};

#[test]
fn device_and_interface_names() {
    assert!(is_device_name("1-1"));
    assert!(is_device_name("2-1.4"));
    assert!(!is_device_name("1-1:1.0"));
    assert!(!is_device_name("usb1"));
    assert!(is_interface_name("1-1:1.0"));
    assert!(!is_interface_name("1-1"));
}

#[test]
fn device_dirs_from_paths() {
    let d = DeviceDir::from_path("/sys/bus/usb/devices/1-1".to_string()).unwrap();
    assert_eq!(d.bus_id(), "1-1");
    assert_eq!(d.path(), "/sys/bus/usb/devices/1-1");
    assert_eq!(d.attr_path("busnum"), "/sys/bus/usb/devices/1-1/busnum");
    assert!(DeviceDir::from_path("/sys/bus/usb/devices/usb1".to_string()).is_none());
    assert!(DeviceDir::from_path("/sys/bus/usb/devices/1-1:1.0".to_string()).is_none());
    assert!(DeviceDir::from_path("/sys/bus/usb/devices/..".to_string()).is_none());

    let names = vec!["1-1:1.0".to_string(), "power".to_string(), "1-1:1.1".to_string()];
    let ifs = d.interface_dirs(&names);
    assert_eq!(ifs.len(), 2);
    assert_eq!(ifs[0].path(), "/sys/bus/usb/devices/1-1/1-1:1.0");
    assert_eq!(ifs[1].path(), "/sys/bus/usb/devices/1-1/1-1:1.1");
    assert_eq!(ifs[0].driver_link_path(), "/sys/bus/usb/devices/1-1/1-1:1.0/driver");
    assert!(InterfaceDir::from_path("/x/1-1".to_string()).is_none());
}

#[test]
fn sysfs_handle_paths() {
    let h = SysfsHandle::new();
    assert_eq!(h.base_path(), "/sys/bus/usb");
    assert_eq!(h.devices_dir(), "/sys/bus/usb/devices");
    assert_eq!(h.driver_dir("usbip-host"), "/sys/bus/usb/drivers/usbip-host");
    let names = vec!["usb1".to_string(), "1-1".to_string(), "1-1:1.0".to_string(), "2-1.4".to_string()];
    let dirs = h.device_dirs(&names);
    let ids: Vec<&str> = dirs.iter().map(|d| d.bus_id()).collect();
    assert_eq!(ids, vec!["1-1", "2-1.4"]);
    assert_eq!(h.device_for_bus("1-1", true).unwrap().bus_id(), "1-1");
    assert!(h.device_for_bus("1-1", false).is_none());
    assert!(h.device_for_bus("usb2", true).is_none());
}
