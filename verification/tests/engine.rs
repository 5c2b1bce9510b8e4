use busman::engine::{
    device_import_reply, device_import_request, device_list_reply, device_list_request,
    devices_from_reply, import_outcome, server_action, ImportOutcome, ServerAction,
};
use busman::protocol::{Frame, PayloadReplyDeviceImport, USBDevice};

fn device(bus_id: &str) -> USBDevice {
    USBDevice { bus_id: bus_id.to_string(), ..USBDevice::default() }
}

#[test]
fn server_actions() {
    assert!(matches!(server_action(device_list_request()), ServerAction::ListDevices));
    match server_action(device_import_request("1-1")) {
        ServerAction::ImportDevice(b) => assert_eq!(b, "1-1"),
        other => panic!("unexpected {other:?}"),
    }
    assert!(matches!(server_action(device_list_reply(vec![])), ServerAction::Ignore));
}

#[test]
fn replies_and_outcomes() {
    let list = device_list_reply(vec![device("1-1"), device("2-1")]);
    let devices = devices_from_reply(list).unwrap();
    assert_eq!(devices.len(), 2);
    assert_eq!(devices[1].bus_id, "2-1");
    assert!(devices_from_reply(device_list_request()).is_err());

    match import_outcome(device_import_reply(&Some(device("1-1")))) {
        ImportOutcome::Imported(d) => assert_eq!(d.bus_id, "1-1"),
        other => panic!("unexpected {other:?}"),
    }
    assert!(matches!(import_outcome(device_import_reply(&None)), ImportOutcome::Refused));
    let odd = Frame::ReplyDeviceImport(PayloadReplyDeviceImport { status: 2, device: None });
    assert!(matches!(import_outcome(odd), ImportOutcome::Unexpected(_)));
    let no_device = Frame::ReplyDeviceImport(PayloadReplyDeviceImport { status: 0, device: None });
    assert!(matches!(import_outcome(no_device), ImportOutcome::Unexpected(_)));
}
