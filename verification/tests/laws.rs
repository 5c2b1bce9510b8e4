use busman::engine::{
    device_import_reply, device_list_reply, devices_from_reply, import_outcome, import_steps, ImportOutcome,
    ImportStep,
};
use busman::error::DecodeError;
use busman::host::{DeviceWatch, Host, WaitEnd};
use busman::run::{first_step, next_step, RunStep};
use busman::paths::{file_name, join};
use busman::protocol::{Decode, DeviceSpeed, Encode, Frame, USBDevice};
use busman::sysfs::DeviceDir;
use busman::vhci::{USBPortSpeedClass, Vhci};

fn device(bus_id: &str) -> USBDevice {
    USBDevice { bus_id: bus_id.to_string(), speed: DeviceSpeed::Super, bus_num: 2, device_num: 3, ..USBDevice::default() }
}

#[test]
fn import_handshake_over_the_wire() {
    let mut bytes = Vec::new();
    device_import_reply(&Some(device("3-2"))).encode(&mut bytes).unwrap();
    let (reply, used) = Frame::decode(&bytes).unwrap();
    assert_eq!(used, bytes.len());
    match import_outcome(reply) {
        ImportOutcome::Imported(d) => {
            assert_eq!(d.bus_id, "3-2");
            assert_eq!(d.speed, DeviceSpeed::Super);
        }
        other => panic!("unexpected {other:?}"),
    }
    let mut bytes = Vec::new();
    device_import_reply(&None).encode(&mut bytes).unwrap();
    let (reply, _) = Frame::decode(&bytes).unwrap();
    assert!(matches!(import_outcome(reply), ImportOutcome::Refused));
}

#[test]
fn device_list_handshake_over_the_wire() {
    let mut bytes = Vec::new();
    device_list_reply(vec![device("1-1"), device("1-2")]).encode(&mut bytes).unwrap();
    let (reply, _) = Frame::decode(&bytes).unwrap();
    let ids: Vec<String> = devices_from_reply(reply).unwrap().into_iter().map(|d| d.bus_id).collect();
    assert_eq!(ids, vec!["1-1", "1-2"]);
}

#[test]
fn decoding_settles_as_bytes_arrive() {
    let mut bytes = Vec::new();
    device_list_reply(vec![device("1-1")]).encode(&mut bytes).unwrap();
    for cut in 0..bytes.len() {
        assert!(matches!(Frame::decode(&bytes[..cut]), Err(DecodeError::Io(_))), "cut {cut}");
    }
    let mut longer = bytes.clone();
    longer.extend_from_slice(&[1, 2, 3, 4]);
    let (_, used) = Frame::decode(&longer).unwrap();
    assert_eq!(used, bytes.len());
    // an unknown opcode is settled after four bytes, whatever follows
    assert!(matches!(Frame::decode(&[0, 0, 0, 9]), Err(DecodeError::UnsupportedOpcode(9))));
    assert!(matches!(Frame::decode(&[0, 0, 0, 9, 7, 7]), Err(DecodeError::UnsupportedOpcode(9))));
}

#[test]
fn joined_names_come_back() {
    for name in ["1-1", "2-1.4", "usb1", "1-1:1.0"] {
        assert_eq!(file_name(&join("/sys/bus/usb/devices", name)), Some(name.to_string()));
    }
    let h = Host::new();
    assert_eq!(h.device_for_bus("1-1").unwrap().bus_id(), "1-1");
    assert!(h.device_for_bus("usb1").is_none());
    assert!(DeviceDir::from_path(join("/x", "1-1:1.0")).is_none());
}

#[test]
fn release_undoes_export() {
    let h = Host::new();
    let d = device("1-1");
    let export = h.export_writes(&d, &vec![]);
    let release = h.release_device(&d);
    assert_eq!(export[0].path, release[1].path);
    assert_eq!(export[0].value, "add 1-1");
    assert_eq!(release[1].value, "del 1-1");
    assert_eq!(export[1].path, "/sys/bus/usb/drivers/usbip-host/bind");
    assert_eq!(release[0].path, "/sys/bus/usb/drivers/usbip-host/unbind");
}

#[test]
fn device_id_keeps_both_numbers() {
    let d = USBDevice { bus_num: 0xabc, device_num: 0x123, ..USBDevice::default() };
    let id = d.device_id();
    assert_eq!(id >> 16, 0xabc);
    assert_eq!(id & 0xffff, 0x123);
}

#[test]
fn speed_numbers_roundtrip() {
    for s in [DeviceSpeed::Unknown, DeviceSpeed::Low, DeviceSpeed::Full, DeviceSpeed::High, DeviceSpeed::Wireless, DeviceSpeed::Super, DeviceSpeed::SuperPlus] {
        assert_eq!(DeviceSpeed::try_from_primitive(s.into_primitive()), Ok(s));
    }
}

#[test]
fn first_free_port_is_chosen() {
    let v = Vhci::new();
    let table = "hub port sta\nss 0008 004\nhs 0003 004\nhs 0001 004\n";
    assert_eq!(v.get_available_port(Ok(table.to_string()), USBPortSpeedClass::HS), Some(3));
    let none = "hub port sta\nss 0008 004\nhs 0003 006\n";
    assert_eq!(v.get_available_port(Ok(none.to_string()), USBPortSpeedClass::HS), None);
}

#[test]
fn runs_stop_at_the_first_failure() {
    let steps = ["a", "b", "c"];
    let outcomes = [Ok(()), Err(7), Ok(())];
    let mut taken = Vec::new();
    let mut step = first_step::<i32>(steps.len());
    let result = loop {
        match step {
            RunStep::Perform(i) => {
                taken.push(steps[i]);
                step = next_step(steps.len(), i, outcomes[i]);
            }
            RunStep::Finish(r) => break r,
        }
    };
    assert_eq!(taken, vec!["a", "b"]);
    assert_eq!(result, Err(7));
    assert!(matches!(first_step::<i32>(0), RunStep::Finish(Ok(()))));
    assert!(matches!(next_step::<i32>(3, 2, Ok(())), RunStep::Finish(Ok(()))));
    assert!(matches!(next_step::<i32>(3, 0, Ok(())), RunStep::Perform(1)));
}

#[test]
fn host_starts_once_modules_load() {
    assert!(Host::after_loading::<i32>(Ok(())).is_ok());
    assert!(matches!(Host::after_loading(Err(3)), Err(3)));
}

#[test]
fn import_answer_exports_only_found_devices() {
    let steps = import_steps(Some(device("1-1")));
    assert_eq!(steps.len(), 2);
    assert!(matches!(&steps[0], ImportStep::Send(Frame::ReplyDeviceImport(p)) if p.status == 0));
    assert!(matches!(&steps[1], ImportStep::Export(d) if d.bus_id == "1-1"));
    let steps = import_steps(None);
    assert_eq!(steps.len(), 1);
    assert!(matches!(&steps[0], ImportStep::Send(Frame::ReplyDeviceImport(p)) if p.status == 1 && p.device.is_none()));
}

#[test]
fn watch_gives_the_device_back_once() {
    let mut w = DeviceWatch::new(device("1-1"));
    assert!(DeviceWatch::wait_again(&WaitEnd::Failed(Some(4)), 4));
    assert!(DeviceWatch::wait_again(&WaitEnd::Failed(None), 4));
    assert!(!DeviceWatch::wait_again(&WaitEnd::Failed(Some(9)), 4));
    assert!(!DeviceWatch::wait_again(&WaitEnd::Returned, 4));
    assert_eq!(w.finish().map(|d| d.bus_id), Some("1-1".to_string()));
    assert!(w.finish().is_none());
}
