//! The decisions of the handshake: what a server answers and what a client
//! makes of the answers.
use vstd::prelude::*;

use crate::run::{lemma_run_stops_at_first_failure, run_of, run_result, steps_taken};
use crate::protocol::{
    device_option_view, device_well_formed, devices_view, encode_frame, frame_well_formed,
    lemma_frame_roundtrip, parse_frame, DecodeFailure, Frame, FrameView, PayloadReplyDeviceImport,
    PayloadReplyDeviceList, PayloadRequestDeviceImport, PayloadRequestDeviceList, USBDevice,
    USBDeviceView,
};

verus! {

/// The request that asks a server for its devices.
pub fn device_list_request() -> (f: Frame)
    ensures
        f@ == FrameView::RequestDeviceList,
{
    Frame::RequestDeviceList(PayloadRequestDeviceList)
}

/// The request that asks a server to export the device on bus `bus_id`.
pub fn device_import_request(bus_id: &str) -> (f: Frame)
    ensures
        f@ == (FrameView::RequestDeviceImport { bus_id: bus_id@ }),
{
    Frame::RequestDeviceImport(PayloadRequestDeviceImport { bus_id: bus_id.to_owned() })
}

/// What a server does with a message received on a connection.
#[derive(Debug)]
pub enum ServerAction {
    /// Answer with the list of exported devices and keep reading.
    ListDevices,
    /// Answer the import of the device on this bus; the handshake is then over.
    ImportDevice(String),
    /// Keep reading.
    Ignore,
}

/// The server's action for a received message: device-list requests are
/// answered, an import request ends the handshake, anything else is passed
/// over.
pub fn server_action(frame: Frame) -> (a: ServerAction)
    ensures
        match frame@ {
            FrameView::RequestDeviceList => a is ListDevices,
            FrameView::RequestDeviceImport { bus_id } => a matches ServerAction::ImportDevice(b)
                && b@ == bus_id,
            _ => a is Ignore,
        },
{
    match frame {
        Frame::RequestDeviceList(_) => ServerAction::ListDevices,
        Frame::RequestDeviceImport(PayloadRequestDeviceImport { bus_id }) => ServerAction::ImportDevice(
            bus_id,
        ),
        _ => ServerAction::Ignore,
    }
}

/// The answer to a device-list request: status zero and the devices.
pub fn device_list_reply(devices: Vec<USBDevice>) -> (f: Frame)
    ensures
        f@ == (FrameView::ReplyDeviceList { status: 0, devices: devices_view(devices@) }),
{
    Frame::ReplyDeviceList(PayloadReplyDeviceList { status: 0, devices })
}

/// The answer to an import request: status zero with the device when it is
/// there, status one without a device when it is not.
pub open spec fn import_reply_of(device: Option<USBDeviceView>) -> FrameView {
    FrameView::ReplyDeviceImport {
        status: if device is Some {
            0
        } else {
            1
        },
        device,
    }
}

/// The answer to an import request: status zero with the device when it is
/// there, status one without a device when it is not.
pub fn device_import_reply(device: &Option<USBDevice>) -> (f: Frame)
    ensures
        f@ == import_reply_of(device_option_view(*device)),
{
    match device {
        Some(d) => Frame::ReplyDeviceImport(
            PayloadReplyDeviceImport { status: 0, device: Some(d.duplicate()) },
        ),
        None => Frame::ReplyDeviceImport(PayloadReplyDeviceImport { status: 1, device: None }),
    }
}

/// A step of answering an import request.
#[derive(Debug)]
pub enum ImportStep {
    /// Send this message.
    Send(Frame),
    /// Export this device over the connection.
    Export(USBDevice),
}

/// The value of an import step.
pub enum ImportStepView {
    Send(FrameView),
    Export(USBDeviceView),
}

impl View for ImportStep {
    type V = ImportStepView;

    open spec fn view(&self) -> ImportStepView {
        match self {
            ImportStep::Send(f) => ImportStepView::Send(f@),
            ImportStep::Export(d) => ImportStepView::Export(d@),
        }
    }
}

/// The value of each step in `v`.
pub open spec fn import_steps_view(v: Seq<ImportStep>) -> Seq<ImportStepView> {
    v.map_values(|s: ImportStep| s@)
}

/// How a server answers an import request once it has looked the device up:
/// it sends the reply, then exports the device when it was found.
pub open spec fn import_steps_of(device: Option<USBDeviceView>) -> Seq<ImportStepView> {
    match device {
        Some(d) => seq![ImportStepView::Send(import_reply_of(device)), ImportStepView::Export(d)],
        None => seq![ImportStepView::Send(import_reply_of(device))],
    }
}

/// The steps that answer an import request, given the device the lookup found
/// (if any): first the reply, then, when the device was found, its export.
pub fn import_steps(device: Option<USBDevice>) -> (steps: Vec<ImportStep>)
    ensures
        import_steps_view(steps@) == import_steps_of(device_option_view(device)),
{
    let reply = device_import_reply(&device);
    let mut steps: Vec<ImportStep> = Vec::new();
    steps.push(ImportStep::Send(reply));
    match device {
        Some(d) => {
            steps.push(ImportStep::Export(d));
        },
        None => {},
    }
    assert(import_steps_view(steps@) =~= import_steps_of(device_option_view(device)));
    steps
}

/// Answering an import request: the device is exported exactly when it was
/// found and the reply was sent; the answer fails with the first step that
/// fails.
pub proof fn lemma_import_answer<E>(device: Option<USBDeviceView>, outcomes: Seq<Result<(), E>>)
    requires
        outcomes.len() == import_steps_of(device).len(),
    ensures
        run_of(import_steps_of(device), outcomes).0 == match device {
            Some(d) => if outcomes[0] is Ok {
                import_steps_of(device)
            } else {
                seq![ImportStepView::Send(import_reply_of(device))]
            },
            None => seq![ImportStepView::Send(import_reply_of(device))],
        },
        run_of(import_steps_of(device), outcomes).1 == run_result(outcomes),
{
    let steps = import_steps_of(device);
    lemma_run_stops_at_first_failure(steps, outcomes);
    let m = steps_taken(outcomes);
    if device is Some && outcomes[0] is Ok {
        assert(outcomes.drop_first().len() == 1);
        assert(m == 2);
        assert(steps.take(2) =~= steps);
    } else {
        assert(m == 1);
        assert(steps.take(1) =~= seq![ImportStepView::Send(import_reply_of(device))]);
    }
}

/// The devices that a device-list reply lists; any other message comes back as
/// unexpected.
pub fn devices_from_reply(reply: Frame) -> (r: Result<Vec<USBDevice>, Frame>)
    ensures
        match reply@ {
            FrameView::ReplyDeviceList { devices, .. } => r matches Ok(v) && devices_view(v@)
                == devices,
            other => r matches Err(f) && f@ == other,
        },
{
    match reply {
        Frame::ReplyDeviceList(PayloadReplyDeviceList { devices, .. }) => Ok(devices),
        other => Err(other),
    }
}

/// What a client makes of the answer to its import request.
#[derive(Debug)]
pub enum ImportOutcome {
    /// Status zero with a device: attach it.
    Imported(USBDevice),
    /// Status one: the server has no such device.
    Refused,
    /// Any other message.
    Unexpected(Frame),
}

/// The value of an import outcome.
pub enum ImportOutcomeView {
    Imported(USBDeviceView),
    Refused,
    Unexpected(FrameView),
}

impl View for ImportOutcome {
    type V = ImportOutcomeView;

    open spec fn view(&self) -> ImportOutcomeView {
        match self {
            ImportOutcome::Imported(d) => ImportOutcomeView::Imported(d@),
            ImportOutcome::Refused => ImportOutcomeView::Refused,
            ImportOutcome::Unexpected(f) => ImportOutcomeView::Unexpected(f@),
        }
    }
}

/// What a client makes of an answer to its import request: a status-zero
/// answer with a device imports it, status one is a refusal, anything else is
/// unexpected.
pub open spec fn import_outcome_of(reply: FrameView) -> ImportOutcomeView {
    match reply {
        FrameView::ReplyDeviceImport { status, device } => if status == 0 && device is Some {
            ImportOutcomeView::Imported(device->0)
        } else if status == 1 {
            ImportOutcomeView::Refused
        } else {
            ImportOutcomeView::Unexpected(reply)
        },
        _ => ImportOutcomeView::Unexpected(reply),
    }
}

/// The outcome of an import request from the server's answer.
pub fn import_outcome(reply: Frame) -> (o: ImportOutcome)
    ensures
        o@ == import_outcome_of(reply@),
{
    match reply {
        Frame::ReplyDeviceImport(PayloadReplyDeviceImport { status: 0, device: Some(device) }) => {
            ImportOutcome::Imported(device)
        },
        Frame::ReplyDeviceImport(PayloadReplyDeviceImport { status: 1, .. }) => {
            ImportOutcome::Refused
        },
        other => ImportOutcome::Unexpected(other),
    }
}

/// The import handshake over the wire: the server's answer, once encoded and
/// decoded, reads back unchanged, and the client imports the very device the
/// server has, or is refused when the server has none.
pub proof fn lemma_import_handshake(device: Option<USBDeviceView>, rest: Seq<u8>)
    requires
        device matches Some(d) ==> device_well_formed(d),
    ensures
        encode_frame(import_reply_of(device)) is Ok,
        parse_frame(encode_frame(import_reply_of(device))->Ok_0 + rest) == Ok::<
            (FrameView, int),
            DecodeFailure,
        >((import_reply_of(device), encode_frame(import_reply_of(device))->Ok_0.len() as int)),
        import_outcome_of(import_reply_of(device)) == match device {
            Some(d) => ImportOutcomeView::Imported(d),
            None => ImportOutcomeView::Refused,
        },
{
    lemma_frame_roundtrip(import_reply_of(device), rest);
}

/// The device-list handshake over the wire: the server's answer, once encoded
/// and decoded, lists the same devices.
pub proof fn lemma_device_list_handshake(devices: Seq<USBDeviceView>, rest: Seq<u8>)
    requires
        devices.len() <= u32::MAX,
        forall|i: int| 0 <= i < devices.len() ==> device_well_formed(#[trigger] devices[i]),
    ensures
        encode_frame(FrameView::ReplyDeviceList { status: 0, devices }) is Ok,
        parse_frame(encode_frame(FrameView::ReplyDeviceList { status: 0, devices })->Ok_0 + rest)
            == Ok::<(FrameView, int), DecodeFailure>(
            (
                FrameView::ReplyDeviceList { status: 0, devices },
                encode_frame(FrameView::ReplyDeviceList { status: 0, devices })->Ok_0.len() as int,
            ),
        ),
{
    lemma_frame_roundtrip(FrameView::ReplyDeviceList { status: 0, devices }, rest);
}

} // verus!
