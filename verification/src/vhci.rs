//! The importing side: the virtual host controller (vhci_hcd), its ports and
//! their status table.
use vstd::prelude::*;

use crate::error::ParseError;
use crate::paths::{join, path_join};
use crate::host::{SysfsWrite, SysfsWriteView};
use crate::protocol::{device_id_of, speed_code, DeviceSpeed, USBDevice};
use crate::text::{
    decimal, decimal_i32, decimal_u32, lines, numeral_value, numeral_within, signed_decimal,
    split_lines, split_whitespace, strings_view, text_equals, u16_from_str_radix, words,
};

verus! {

/// Root of the virtual host controller in sysfs.
pub open spec fn vhci_root() -> Seq<char> {
    "/sys/devices/platform/vhci_hcd.0"@
}

/// The virtual host controller.
#[derive(Debug)]
pub struct Vhci {
    root: String,
}

impl View for Vhci {
    type V = Seq<char>;

    closed spec fn view(&self) -> Seq<char> {
        self.root@
    }
}

impl Vhci {
    pub fn new() -> (v: Vhci)
        ensures
            v@ == vhci_root(),
    {
        Vhci { root: "/sys/devices/platform/vhci_hcd.0".to_owned() }
    }

    /// The file that attaches a remote device to a port.
    pub fn attach_path(&self) -> (p: String)
        ensures
            p@ == path_join(self@, "attach"@),
    {
        join(self.root.as_str(), "attach")
    }

    /// The file that lists the ports and their status.
    pub fn status_path(&self) -> (p: String)
        ensures
            p@ == path_join(self@, "status"@),
    {
        join(self.root.as_str(), "status")
    }
}

impl Default for Vhci {
    fn default() -> (v: Vhci)
        ensures
            v@ == vhci_root(),
    {
        Vhci::new()
    }
}

/// The kind of port a device needs: high speed and below, or super speed.
#[derive(Clone, Copy, Debug, PartialEq, Eq, Structural)]
pub enum USBPortSpeedClass {
    HS,
    SS,
}

/// The port class of a speed: super speed for the super speeds, high speed for
/// the rest.
pub open spec fn port_class_of(s: DeviceSpeed) -> USBPortSpeedClass {
    match s {
        DeviceSpeed::Super | DeviceSpeed::SuperPlus => USBPortSpeedClass::SS,
        _ => USBPortSpeedClass::HS,
    }
}

impl DeviceSpeed {
    /// The kind of port a device of this speed needs.
    pub fn port_class(self) -> (c: USBPortSpeedClass)
        ensures
            c == port_class_of(self),
    {
        match self {
            DeviceSpeed::Super | DeviceSpeed::SuperPlus => USBPortSpeedClass::SS,
            _ => USBPortSpeedClass::HS,
        }
    }
}

/// The port class that the status table writes as `t`.
pub open spec fn port_class_of_text(t: Seq<char>) -> Option<USBPortSpeedClass> {
    if t == "hs"@ {
        Some(USBPortSpeedClass::HS)
    } else if t == "ss"@ {
        Some(USBPortSpeedClass::SS)
    } else {
        None
    }
}

impl<'a> vstd::std_specs::convert::TryFromSpecImpl<&'a str> for USBPortSpeedClass {
    open spec fn obeys_try_from_spec() -> bool {
        true
    }

    open spec fn try_from_spec(v: &'a str) -> Result<USBPortSpeedClass, ParseError> {
        match port_class_of_text(v@) {
            Some(c) => Ok(c),
            None => Err(ParseError::InvalidSpeedClass),
        }
    }
}

impl<'a> TryFrom<&'a str> for USBPortSpeedClass {
    type Error = ParseError;

    /// The port class written as `value` in the status table.
    fn try_from(value: &'a str) -> (r: Result<USBPortSpeedClass, ParseError>) {
        if text_equals(value, "hs") {
            Ok(USBPortSpeedClass::HS)
        } else if text_equals(value, "ss") {
            Ok(USBPortSpeedClass::SS)
        } else {
            Err(ParseError::InvalidSpeedClass)
        }
    }
}

/// The state of a virtual port.
#[derive(Clone, Copy, Debug, PartialEq, Eq, Structural)]
pub enum VirtualPortStatus {
    /// Free to take a device (the kernel's SDEV_ST_AVAILABLE).
    Available,
    /// Holding a device (SDEV_ST_USED).
    InUse,
    /// Anything else (SDEV_ST_ERROR and unknown states).
    Error,
}

/// The port state that the status table writes as `t`.
pub open spec fn port_status_of_text(t: Seq<char>) -> VirtualPortStatus {
    if t == "004"@ {
        VirtualPortStatus::Available
    } else if t == "005"@ {
        VirtualPortStatus::InUse
    } else {
        VirtualPortStatus::Error
    }
}

impl<'a> vstd::std_specs::convert::TryFromSpecImpl<&'a str> for VirtualPortStatus {
    open spec fn obeys_try_from_spec() -> bool {
        true
    }

    open spec fn try_from_spec(v: &'a str) -> Result<VirtualPortStatus, ParseError> {
        Ok(port_status_of_text(v@))
    }
}

impl<'a> TryFrom<&'a str> for VirtualPortStatus {
    type Error = ParseError;

    /// The port state written as `value` in the status table; it never fails.
    fn try_from(value: &'a str) -> (r: Result<VirtualPortStatus, ParseError>) {
        if text_equals(value, "004") {
            Ok(VirtualPortStatus::Available)
        } else if text_equals(value, "005") {
            Ok(VirtualPortStatus::InUse)
        } else {
            Ok(VirtualPortStatus::Error)
        }
    }
}

/// One row of the port status table: port number, port class and state.
#[derive(Clone, Copy, Debug, PartialEq, Eq, Structural)]
pub struct VirtualPortStatusEntry {
    pub port: u16,
    pub speed_class: USBPortSpeedClass,
    pub status: VirtualPortStatus,
}

/// Why a row of the status table does not read.
pub enum EntryFailure {
    BadSpeedClass,
    BadPort,
}

/// How a row reads from its words: the port class (first word), the port
/// number in decimal (second word), the state (third word).
pub open spec fn entry_of_words(w: Seq<Seq<char>>) -> Result<VirtualPortStatusEntry, EntryFailure> {
    match port_class_of_text(w[0]) {
        None => Err(EntryFailure::BadSpeedClass),
        Some(c) => if numeral_within(w[1], 10, 0xffff) {
            Ok(
                VirtualPortStatusEntry {
                    port: numeral_value(w[1], 10) as u16,
                    speed_class: c,
                    status: port_status_of_text(w[2]),
                },
            )
        } else {
            Err(EntryFailure::BadPort)
        },
    }
}

impl VirtualPortStatusEntry {
    /// Reads a row of the status table. The row must have at least three
    /// words.
    pub fn from_line(value: &str) -> (r: Result<VirtualPortStatusEntry, ParseError>)
        requires
            words(value@).len() >= 3,
        ensures
            match entry_of_words(words(value@)) {
                Ok(e) => r == Ok::<VirtualPortStatusEntry, ParseError>(e),
                Err(EntryFailure::BadSpeedClass) => r matches Err(e) && e is InvalidSpeedClass,
                Err(EntryFailure::BadPort) => r matches Err(e) && e is InvalidHex,
            },
    {
        let entry = split_whitespace(value);
        assert(entry@[0]@ == words(value@)[0]);
        assert(entry@[1]@ == words(value@)[1]);
        assert(entry@[2]@ == words(value@)[2]);
        let speed_class = USBPortSpeedClass::try_from(entry[0].as_str())?;
        let port = match u16_from_str_radix(entry[1].as_str(), 10) {
            Ok(p) => p,
            Err(e) => return Err(ParseError::InvalidHex(e)),
        };
        let status = VirtualPortStatus::try_from(entry[2].as_str())?;
        Ok(VirtualPortStatusEntry { port, speed_class, status })
    }
}

/// How a row of the status table reads from its words: it reads exactly when
/// its first word names a port class and its second word is a decimal numeral
/// of at most 0xffff; the entry's class is the one the first word names, its
/// port the decimal value of the second word, and its state the one the third
/// word names.
pub proof fn lemma_status_row_reading(w: Seq<Seq<char>>)
    requires
        w.len() >= 3,
    ensures
        entry_of_words(w) is Ok <==> (port_class_of_text(w[0]) is Some && numeral_within(
            w[1],
            10,
            0xffff,
        )),
        entry_of_words(w) matches Ok(e) ==> {
            &&& port_class_of_text(w[0]) == Some(e.speed_class)
            &&& e.port as nat == numeral_value(w[1], 10)
            &&& e.status == port_status_of_text(w[2])
        },
{
}

/// Only super-speed devices (Super and SuperPlus) need a super-speed port;
/// every other speed (Unknown, Low, Full, High, Wireless) needs a high-speed
/// port.
pub proof fn lemma_port_class(s: DeviceSpeed)
    ensures
        port_class_of(s) == USBPortSpeedClass::SS <==> (s == DeviceSpeed::Super || s
            == DeviceSpeed::SuperPlus),
        port_class_of(s) == USBPortSpeedClass::HS <==> (s == DeviceSpeed::Unknown || s
            == DeviceSpeed::Low || s == DeviceSpeed::Full || s == DeviceSpeed::High || s
            == DeviceSpeed::Wireless),
{
}

/// A row offers a free port of class `desired`.
pub open spec fn offers_port(line: Seq<char>, desired: USBPortSpeedClass) -> bool {
    entry_of_words(words(line)) matches Ok(e) && e.speed_class == desired && e.status
        == VirtualPortStatus::Available
}

/// The first row among `rows` that offers a free port of class `desired`, and
/// that port; rows that do not read are passed over.
pub open spec fn first_free_port(rows: Seq<Seq<char>>, desired: USBPortSpeedClass) -> Option<u16>
    decreases rows.len(),
{
    if rows.len() == 0 {
        None
    } else if words(rows[0]).len() >= 3 && offers_port(rows[0], desired) {
        Some(entry_of_words(words(rows[0]))->Ok_0.port)
    } else {
        first_free_port(rows.drop_first(), desired)
    }
}

/// The port chosen from a status table is the port of the first row that
/// offers a free port of the desired class; when none is chosen, no row offers
/// one.
pub proof fn lemma_first_free_port(rows: Seq<Seq<char>>, desired: USBPortSpeedClass)
    ensures
        match first_free_port(rows, desired) {
            Some(p) => exists|i: int|
                0 <= i < rows.len() && words(#[trigger] rows[i]).len() >= 3 && offers_port(
                    rows[i],
                    desired,
                ) && entry_of_words(words(rows[i]))->Ok_0.port == p && forall|j: int|
                    0 <= j < i ==> !(words(#[trigger] rows[j]).len() >= 3 && offers_port(
                        rows[j],
                        desired,
                    )),
            None => forall|i: int|
                0 <= i < rows.len() ==> !(words(#[trigger] rows[i]).len() >= 3 && offers_port(
                    rows[i],
                    desired,
                )),
        },
    decreases rows.len(),
{
    if rows.len() > 0 {
        let tail = rows.drop_first();
        lemma_first_free_port(tail, desired);
        if words(rows[0]).len() >= 3 && offers_port(rows[0], desired) {
            assert(0 <= 0 < rows.len() && words(rows[0]).len() >= 3);
        } else {
            match first_free_port(tail, desired) {
                Some(p) => {
                    let i = choose|i: int|
                        0 <= i < tail.len() && words(#[trigger] tail[i]).len() >= 3 && offers_port(
                            tail[i],
                            desired,
                        ) && entry_of_words(words(tail[i]))->Ok_0.port == p && forall|j: int|
                            0 <= j < i ==> !(words(#[trigger] tail[j]).len() >= 3 && offers_port(
                                tail[j],
                                desired,
                            ));
                    assert(rows[i + 1] == tail[i]);
                    assert forall|j: int| 0 <= j < i + 1 implies !(words(#[trigger] rows[j]).len()
                        >= 3 && offers_port(rows[j], desired)) by {
                        if j > 0 {
                            assert(rows[j] == tail[j - 1]);
                        }
                    }
                },
                None => {
                    assert forall|i: int| 0 <= i < rows.len() implies !(words(#[trigger] rows[i]).len()
                        >= 3 && offers_port(rows[i], desired)) by {
                        if i > 0 {
                            assert(rows[i] == tail[i - 1]);
                        }
                    }
                },
            }
        }
    }
}

/// The port chosen from a status table is the decimal value of the second word
/// of a row whose first word names the desired class and whose third word says
/// the port is free.
pub proof fn lemma_chosen_port(rows: Seq<Seq<char>>, desired: USBPortSpeedClass)
    ensures
        first_free_port(rows, desired) matches Some(p) ==> exists|i: int|
            0 <= i < rows.len() && words(#[trigger] rows[i]).len() >= 3 && port_class_of_text(
                words(rows[i])[0],
            ) == Some(desired) && numeral_within(words(rows[i])[1], 10, 0xffff) && p as nat
                == numeral_value(words(rows[i])[1], 10) && port_status_of_text(words(rows[i])[2])
                == VirtualPortStatus::Available,
{
    lemma_first_free_port(rows, desired);
    if let Some(p) = first_free_port(rows, desired) {
        let i = choose|i: int|
            0 <= i < rows.len() && words(#[trigger] rows[i]).len() >= 3 && offers_port(
                rows[i],
                desired,
            ) && entry_of_words(words(rows[i]))->Ok_0.port == p && forall|j: int|
                0 <= j < i ==> !(words(#[trigger] rows[j]).len() >= 3 && offers_port(
                    rows[j],
                    desired,
                ));
        lemma_status_row_reading(words(rows[i]));
    }
}

/// Every row that is looked at before a free port is found has at least three
/// words; reading a shorter one is a fault.
pub open spec fn rows_readable(rows: Seq<Seq<char>>, desired: USBPortSpeedClass) -> bool
    decreases rows.len(),
{
    if rows.len() == 0 {
        true
    } else if words(rows[0]).len() < 3 {
        false
    } else if offers_port(rows[0], desired) {
        true
    } else {
        rows_readable(rows.drop_first(), desired)
    }
}

/// The rows of a status table: its lines after the header.
pub open spec fn table_rows(status: Seq<char>) -> Seq<Seq<char>> {
    let ls = lines(status);
    if ls.len() == 0 {
        ls
    } else {
        ls.drop_first()
    }
}

/// Whether the rows of `status` can be searched for a port of class `desired`
/// (see `rows_readable`).
pub fn status_table_readable(status: &str, desired: USBPortSpeedClass) -> (b: bool)
    ensures
        b == rows_readable(table_rows(status@), desired),
{
    let rows = split_lines(status);
    let ghost all = table_rows(status@);
    let mut i: usize = 1;
    if rows.len() == 0 {
        return true;
    }
    assert(all.skip(0) =~= all);
    while i < rows.len()
        invariant
            1 <= i <= rows@.len(),
            strings_view(rows@) == lines(status@),
            all == table_rows(status@),
            rows_readable(all, desired) == rows_readable(all.skip(i - 1), desired),
        decreases rows@.len() - i,
    {
        let ghost rest = all.skip(i - 1);
        assert(rest[0] == rows@[i as int]@);
        assert(rest.drop_first() =~= all.skip(i as int));
        let cells = split_whitespace(rows[i].as_str());
        if cells.len() < 3 {
            return false;
        }
        let entry = VirtualPortStatusEntry::from_line(rows[i].as_str());
        if let Ok(e) = entry {
            if e.speed_class == desired && e.status == VirtualPortStatus::Available {
                return true;
            }
        }
        i = i + 1;
    }
    assert(all.skip(i - 1).len() == 0);
    true
}

impl Vhci {
    /// The first free port of class `desired` in the port status table
    /// `status` (the contents of `status_path`); none when the table could not
    /// be read or lists no such port.
    pub fn get_available_port(
        &self,
        status: Result<String, std::io::Error>,
        desired: USBPortSpeedClass,
    ) -> (r: Option<u16>)
        requires
            status matches Ok(t) ==> rows_readable(table_rows(t@), desired),
        ensures
            match status {
                Ok(t) => r == first_free_port(table_rows(t@), desired),
                Err(_) => r is None,
            },
    {
        let text = match status {
            Ok(t) => t,
            Err(_) => return None,
        };
        let rows = split_lines(text.as_str());
        let ghost all = table_rows(text@);
        if rows.len() == 0 {
            return None;
        }
        let mut i: usize = 1;
        assert(all.skip(0) =~= all);
        while i < rows.len()
            invariant
                1 <= i <= rows@.len(),
                strings_view(rows@) == lines(text@),
                all == table_rows(text@),
                status is Ok && status->Ok_0@ == text@,
                rows_readable(all.skip(i - 1), desired),
                first_free_port(all, desired) == first_free_port(all.skip(i - 1), desired),
            decreases rows@.len() - i,
        {
            let ghost rest = all.skip(i - 1);
            assert(rest[0] == rows@[i as int]@);
            assert(rest.drop_first() =~= all.skip(i as int));
            assert(all.len() == rows@.len() - 1);
            assert(rest.len() > 0);
            let entry = VirtualPortStatusEntry::from_line(rows[i].as_str());
            if let Ok(e) = entry {
                if e.speed_class == desired && e.status == VirtualPortStatus::Available {
                    assert(entry_of_words(words(rest[0])) == Ok::<VirtualPortStatusEntry, EntryFailure>(e));
                    assert(offers_port(rest[0], desired));
                    return Some(e.port);
                }
            }
            i = i + 1;
        }
        assert(all.skip(i - 1).len() == 0);
        None
    }

    /// Attaches `device`, reached through the connection with file descriptor
    /// `fd`, to the first free port of its class in the port status table
    /// `status`: the port, the descriptor, the device id and the speed's number
    /// go, in decimal and separated by spaces, to the attach file. None when no
    /// port is free.
    pub fn import_device(
        &self,
        device: &USBDevice,
        fd: i32,
        status: Result<String, std::io::Error>,
    ) -> (r: Option<SysfsWrite>)
        requires
            status matches Ok(t) ==> rows_readable(table_rows(t@), port_class_of(device.speed)),
        ensures
            match status {
                Ok(t) => match first_free_port(table_rows(t@), port_class_of(device.speed)) {
                    Some(port) => r matches Some(w) && w@ == (SysfsWriteView {
                        path: path_join(self@, "attach"@),
                        value: decimal(port as nat) + " "@ + signed_decimal(fd as int) + " "@
                            + decimal(device_id_of(device.bus_num, device.device_num) as nat)
                            + " "@ + decimal(speed_code(device.speed) as nat),
                    }),
                    None => r is None,
                },
                Err(_) => r is None,
            },
    {
        let desired = device.speed.port_class();
        match self.get_available_port(status, desired) {
            Some(port) => {
                let mut value = decimal_u32(port as u32);
                value.append(" ");
                value.append(decimal_i32(fd).as_str());
                value.append(" ");
                value.append(decimal_u32(device.device_id()).as_str());
                value.append(" ");
                value.append(decimal_u32(device.speed.into_primitive()).as_str());
                Some(SysfsWrite { path: self.attach_path(), value })
            },
            None => None,
        }
    }
}

} // verus!
