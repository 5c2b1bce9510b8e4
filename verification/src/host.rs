//! The exporting side: which sysfs files describe a device, how their contents
//! become device records, and which writes bind, hand off and release a device.
use vstd::prelude::*;

use crate::error::ParseError;
use crate::kernel::{module_name, KernelModule};
use crate::paths::{file_name, file_name_of, join, path_join};
use crate::run::{lemma_run_stops_at_first_failure, run_of, run_result, steps_taken};
use crate::protocol::{device_option_view, speed_of_sysfs, DeviceSpeed, USBDevice, USBDeviceInterface, USBDeviceView};
use crate::sysfs::{
    device_dir_at, device_dirs_in, device_dirs_view, interface_dir_at, sysfs_root, texts_view,
    DeviceDir, DeviceDirView, InterfaceDir, SysfsHandle,
};
use crate::text::{
    decimal_i32, numeral_value, numeral_within, signed_decimal, trim, trimmed, u16_from_str_radix,
    u32_from_str_radix, u8_from_str_radix,
};

verus! {

/// A value to write into a sysfs file.
#[derive(Debug)]
pub struct SysfsWrite {
    pub path: String,
    pub value: String,
}

/// The value of a sysfs write.
pub struct SysfsWriteView {
    pub path: Seq<char>,
    pub value: Seq<char>,
}

impl View for SysfsWrite {
    type V = SysfsWriteView;

    open spec fn view(&self) -> SysfsWriteView {
        SysfsWriteView { path: self.path@, value: self.value@ }
    }
}

/// The value of each write in `v`.
pub open spec fn writes_view(v: Seq<SysfsWrite>) -> Seq<SysfsWriteView> {
    v.map_values(|w: SysfsWrite| w@)
}

/// The devices directory under sysfs root `root`.
pub open spec fn devices_dir_of(root: Seq<char>) -> Seq<char> {
    path_join(root, "devices"@)
}

/// The directory of driver `driver` under sysfs root `root`.
pub open spec fn driver_dir_of(root: Seq<char>, driver: Seq<char>) -> Seq<char> {
    path_join(path_join(root, "drivers"@), driver)
}

/// The control file `file` of driver `driver` under sysfs root `root`.
pub open spec fn driver_file_of(root: Seq<char>, driver: Seq<char>, file: Seq<char>) -> Seq<char> {
    path_join(driver_dir_of(root, driver), file)
}

/// The file through which a socket is handed to the kernel for device `bus_id`.
pub open spec fn sock_assign_path_of(root: Seq<char>, bus_id: Seq<char>) -> Seq<char> {
    path_join(path_join(devices_dir_of(root), bus_id), "usbip_sockfd"@)
}

/// The file that asks the kernel to probe drivers for a device again.
pub open spec fn reprobe_path_of(root: Seq<char>) -> Seq<char> {
    path_join(root, "drivers_probe"@)
}

/// What an attribute file yields: a value, a read error, or contents that do
/// not parse.
pub enum AttrOutcome<T> {
    Value(T),
    Unreadable(std::io::Error),
    Invalid,
}

/// A numeric attribute: the file's contents, trimmed, as a numeral in `radix`
/// of value at most `max`.
pub open spec fn attr_number(raw: Result<String, std::io::Error>, radix: nat, max: nat) -> AttrOutcome<nat> {
    match raw {
        Err(e) => AttrOutcome::Unreadable(e),
        Ok(s) => if numeral_within(trimmed(s@), radix, max) {
            AttrOutcome::Value(numeral_value(trimmed(s@), radix))
        } else {
            AttrOutcome::Invalid
        },
    }
}

/// The speed attribute: the file's contents, trimmed, as a speed in Mbit/s.
pub open spec fn attr_speed(raw: Result<String, std::io::Error>) -> AttrOutcome<DeviceSpeed> {
    match raw {
        Err(e) => AttrOutcome::Unreadable(e),
        Ok(s) => match speed_of_sysfs(trimmed(trimmed(s@))) {
            Some(v) => AttrOutcome::Value(v),
            None => AttrOutcome::Invalid,
        },
    }
}

/// Why a record cannot be built from sysfs.
pub enum BuildFailure {
    Unreadable(std::io::Error),
    BadNumber,
    BadSpeed,
}

/// An error reports a failure.
pub open spec fn failure_matches(e: ParseError, f: BuildFailure) -> bool {
    match f {
        BuildFailure::Unreadable(x) => e == ParseError::Io(x),
        BuildFailure::BadNumber => e is InvalidHex,
        BuildFailure::BadSpeed => e is InvalidSpeedClass,
    }
}

/// The failure of a numeric attribute that yields no value.
pub open spec fn number_failure(v: AttrOutcome<nat>) -> BuildFailure {
    match v {
        AttrOutcome::Unreadable(x) => BuildFailure::Unreadable(x),
        _ => BuildFailure::BadNumber,
    }
}

/// The failure of a speed attribute that yields no value.
pub open spec fn speed_failure(v: AttrOutcome<DeviceSpeed>) -> BuildFailure {
    match v {
        AttrOutcome::Unreadable(x) => BuildFailure::Unreadable(x),
        _ => BuildFailure::BadSpeed,
    }
}

/// The contents of a sysfs attribute file, without surrounding whitespace.
pub fn read_sysfs_val_string(raw: Result<String, std::io::Error>) -> (r: Result<String, ParseError>)
    ensures
        match raw {
            Ok(s) => r matches Ok(t) && t@ == trimmed(s@),
            Err(e) => r == Err::<String, ParseError>(ParseError::Io(e)),
        },
{
    match raw {
        Ok(s) => Ok(trim(s.as_str())),
        Err(e) => Err(ParseError::Io(e)),
    }
}

/// A one-byte numeric attribute in `radix`.
pub fn read_sysfs_val_u8(raw: Result<String, std::io::Error>, radix: u32) -> (r: Result<u8, ParseError>)
    requires
        radix == 10 || radix == 16,
    ensures
        match r {
            Ok(v) => attr_number(raw, radix as nat, 0xff) == AttrOutcome::Value(v as nat),
            Err(e) => !(attr_number(raw, radix as nat, 0xff) is Value) && failure_matches(
                e,
                number_failure(attr_number(raw, radix as nat, 0xff)),
            ),
        },
{
    let s = read_sysfs_val_string(raw)?;
    match u8_from_str_radix(s.as_str(), radix) {
        Ok(v) => Ok(v),
        Err(e) => Err(ParseError::InvalidHex(e)),
    }
}

/// A two-byte numeric attribute in `radix`.
pub fn read_sysfs_val_u16(raw: Result<String, std::io::Error>, radix: u32) -> (r: Result<u16, ParseError>)
    requires
        radix == 10 || radix == 16,
    ensures
        match r {
            Ok(v) => attr_number(raw, radix as nat, 0xffff) == AttrOutcome::Value(v as nat),
            Err(e) => !(attr_number(raw, radix as nat, 0xffff) is Value) && failure_matches(
                e,
                number_failure(attr_number(raw, radix as nat, 0xffff)),
            ),
        },
{
    let s = read_sysfs_val_string(raw)?;
    match u16_from_str_radix(s.as_str(), radix) {
        Ok(v) => Ok(v),
        Err(e) => Err(ParseError::InvalidHex(e)),
    }
}

/// A four-byte numeric attribute in `radix`.
pub fn read_sysfs_val_u32(raw: Result<String, std::io::Error>, radix: u32) -> (r: Result<u32, ParseError>)
    requires
        radix == 10 || radix == 16,
    ensures
        match r {
            Ok(v) => attr_number(raw, radix as nat, 0xffff_ffff) == AttrOutcome::Value(v as nat),
            Err(e) => !(attr_number(raw, radix as nat, 0xffff_ffff) is Value) && failure_matches(
                e,
                number_failure(attr_number(raw, radix as nat, 0xffff_ffff)),
            ),
        },
{
    let s = read_sysfs_val_string(raw)?;
    match u32_from_str_radix(s.as_str(), radix) {
        Ok(v) => Ok(v),
        Err(e) => Err(ParseError::InvalidHex(e)),
    }
}

/// The speed attribute.
pub fn read_sysfs_val_speed(raw: Result<String, std::io::Error>) -> (r: Result<DeviceSpeed, ParseError>)
    ensures
        match r {
            Ok(v) => attr_speed(raw) == AttrOutcome::Value(v),
            Err(e) => !(attr_speed(raw) is Value) && failure_matches(e, speed_failure(attr_speed(raw))),
        },
{
    let s = read_sysfs_val_string(raw)?;
    DeviceSpeed::try_from(s)
}

/// What the attribute files of an interface directory held when they were read.
#[derive(Debug)]
pub struct InterfaceAttributes {
    /// The directory's name within its device directory.
    pub name: String,
    pub class: Result<String, std::io::Error>,
    pub subclass: Result<String, std::io::Error>,
    pub protocol: Result<String, std::io::Error>,
}

/// What the attribute files of a device directory held when they were read.
#[derive(Debug)]
pub struct DeviceAttributes {
    pub bus_num: Result<String, std::io::Error>,
    pub device_num: Result<String, std::io::Error>,
    pub speed: Result<String, std::io::Error>,
    pub vendor_id: Result<String, std::io::Error>,
    pub product_id: Result<String, std::io::Error>,
    pub revision_num: Result<String, std::io::Error>,
    pub class: Result<String, std::io::Error>,
    pub subclass: Result<String, std::io::Error>,
    pub protocol: Result<String, std::io::Error>,
    pub configuration_value: Result<String, std::io::Error>,
    pub num_configurations: Result<String, std::io::Error>,
}

/// The interface record that an interface directory describes, or the first
/// attribute (class, subclass, protocol; all hexadecimal) that fails.
pub open spec fn interface_outcome(a: InterfaceAttributes) -> Result<USBDeviceInterface, BuildFailure> {
    let class = attr_number(a.class, 16, 0xff);
    let subclass = attr_number(a.subclass, 16, 0xff);
    let protocol = attr_number(a.protocol, 16, 0xff);
    if !(class is Value) {
        Err(number_failure(class))
    } else if !(subclass is Value) {
        Err(number_failure(subclass))
    } else if !(protocol is Value) {
        Err(number_failure(protocol))
    } else {
        Ok(
            USBDeviceInterface {
                class: class->Value_0 as u8,
                subclass: subclass->Value_0 as u8,
                protocol: protocol->Value_0 as u8,
            },
        )
    }
}

/// The number an attribute file spells: its contents, trimmed, as a numeral in
/// `radix`; none when the file could not be read.
pub open spec fn file_number(raw: Result<String, std::io::Error>, radix: nat) -> Option<nat> {
    match raw {
        Ok(s) => Some(numeral_value(trimmed(s@), radix)),
        Err(_) => None,
    }
}

/// An attribute file was read and, trimmed, is a numeral in `radix` of value
/// at most `max`.
pub open spec fn file_holds_number(raw: Result<String, std::io::Error>, radix: nat, max: nat) -> bool {
    raw matches Ok(s) && numeral_within(trimmed(s@), radix, max)
}

/// A built interface record holds the numbers its class, subclass and protocol
/// files spell in hexadecimal; it is built exactly when each of the three files
/// was read and holds a hexadecimal numeral of at most 0xff.
pub proof fn lemma_interface_record_from_files(a: InterfaceAttributes)
    ensures
        interface_outcome(a) is Ok <==> (file_holds_number(a.class, 16, 0xff) && file_holds_number(
            a.subclass,
            16,
            0xff,
        ) && file_holds_number(a.protocol, 16, 0xff)),
        interface_outcome(a) matches Ok(i) ==> {
            &&& file_number(a.class, 16) == Some(i.class as nat)
            &&& file_number(a.subclass, 16) == Some(i.subclass as nat)
            &&& file_number(a.protocol, 16) == Some(i.protocol as nat)
        },
{
}

/// A built device record holds the numbers its attribute files spell: bus and
/// device number, revision, configuration value and number of configurations
/// in decimal; vendor id, product id, class, subclass and protocol in
/// hexadecimal. Its bus id is the directory's name and its path is empty. When
/// every one of these files holds such a numeral within its field's range, the
/// speed file a known speed and the interface directories could be listed, the
/// record is built.
pub proof fn lemma_device_record_from_files(
    dir: DeviceDirView,
    a: DeviceAttributes,
    interfaces: Result<Seq<InterfaceAttributes>, std::io::Error>,
)
    ensures
        device_outcome(dir, a, interfaces) matches Ok(d) ==> {
            &&& file_number(a.bus_num, 10) == Some(d.bus_num as nat)
            &&& file_number(a.device_num, 10) == Some(d.device_num as nat)
            &&& file_number(a.vendor_id, 16) == Some(d.vendor_id as nat)
            &&& file_number(a.product_id, 16) == Some(d.product_id as nat)
            &&& file_number(a.revision_num, 10) == Some(d.revision_num as nat)
            &&& file_number(a.class, 16) == Some(d.class as nat)
            &&& file_number(a.subclass, 16) == Some(d.subclass as nat)
            &&& file_number(a.protocol, 16) == Some(d.protocol as nat)
            &&& file_number(a.configuration_value, 10) == Some(d.configuration_value as nat)
            &&& file_number(a.num_configurations, 10) == Some(d.num_configurations as nat)
            &&& d.bus_id == dir.bus_id
            &&& d.path.len() == 0
        },
        (file_holds_number(a.bus_num, 10, 0xffff_ffff) && file_holds_number(
            a.device_num,
            10,
            0xffff_ffff,
        ) && attr_speed(a.speed) is Value && file_holds_number(a.vendor_id, 16, 0xffff)
            && file_holds_number(a.product_id, 16, 0xffff) && file_holds_number(
            a.revision_num,
            10,
            0xffff,
        ) && file_holds_number(a.class, 16, 0xff) && file_holds_number(a.subclass, 16, 0xff)
            && file_holds_number(a.protocol, 16, 0xff) && file_holds_number(
            a.configuration_value,
            10,
            0xff,
        ) && file_holds_number(a.num_configurations, 10, 0xff) && interfaces is Ok)
            ==> device_outcome(dir, a, interfaces) is Ok,
{
}

/// The interface records of the entries of device directory `dir` that are
/// interface directories and build; the others are left out.
pub open spec fn interfaces_built(dir: Seq<char>, items: Seq<InterfaceAttributes>) -> Seq<USBDeviceInterface>
    decreases items.len(),
{
    if items.len() == 0 {
        Seq::empty()
    } else {
        let init = interfaces_built(dir, items.drop_last());
        let last = items.last();
        if interface_dir_at(path_join(dir, last.name@)) is Some && interface_outcome(last) is Ok {
            init.push(interface_outcome(last)->Ok_0)
        } else {
            init
        }
    }
}

/// The device record that a device directory describes, or the first attribute
/// that fails. Bus and device numbers are decimal, vendor and product ids
/// hexadecimal, the revision decimal, class, subclass and protocol hexadecimal,
/// the configuration fields decimal; the path is left empty.
pub open spec fn device_outcome(
    dir: DeviceDirView,
    a: DeviceAttributes,
    interfaces: Result<Seq<InterfaceAttributes>, std::io::Error>,
) -> Result<USBDeviceView, BuildFailure> {
    let bus_num = attr_number(a.bus_num, 10, 0xffff_ffff);
    let device_num = attr_number(a.device_num, 10, 0xffff_ffff);
    let speed = attr_speed(a.speed);
    let vendor_id = attr_number(a.vendor_id, 16, 0xffff);
    let product_id = attr_number(a.product_id, 16, 0xffff);
    let revision_num = attr_number(a.revision_num, 10, 0xffff);
    let class = attr_number(a.class, 16, 0xff);
    let subclass = attr_number(a.subclass, 16, 0xff);
    let protocol = attr_number(a.protocol, 16, 0xff);
    let configuration_value = attr_number(a.configuration_value, 10, 0xff);
    let num_configurations = attr_number(a.num_configurations, 10, 0xff);
    if !(bus_num is Value) {
        Err(number_failure(bus_num))
    } else if !(device_num is Value) {
        Err(number_failure(device_num))
    } else if !(speed is Value) {
        Err(speed_failure(speed))
    } else if !(vendor_id is Value) {
        Err(number_failure(vendor_id))
    } else if !(product_id is Value) {
        Err(number_failure(product_id))
    } else if !(revision_num is Value) {
        Err(number_failure(revision_num))
    } else if !(class is Value) {
        Err(number_failure(class))
    } else if !(subclass is Value) {
        Err(number_failure(subclass))
    } else if !(protocol is Value) {
        Err(number_failure(protocol))
    } else if !(configuration_value is Value) {
        Err(number_failure(configuration_value))
    } else if !(num_configurations is Value) {
        Err(number_failure(num_configurations))
    } else {
        match interfaces {
            Err(e) => Err(BuildFailure::Unreadable(e)),
            Ok(items) => Ok(
                USBDeviceView {
                    path: Seq::empty(),
                    bus_id: dir.bus_id,
                    bus_num: bus_num->Value_0 as u32,
                    device_num: device_num->Value_0 as u32,
                    speed: speed->Value_0,
                    vendor_id: vendor_id->Value_0 as u16,
                    product_id: product_id->Value_0 as u16,
                    revision_num: revision_num->Value_0 as u16,
                    class: class->Value_0 as u8,
                    subclass: subclass->Value_0 as u8,
                    protocol: protocol->Value_0 as u8,
                    configuration_value: configuration_value->Value_0 as u8,
                    num_configurations: num_configurations->Value_0 as u8,
                    interfaces: interfaces_built(dir.path, items),
                },
            ),
        }
    }
}

/// The entries of a list of interface directories, when it could be read.
pub open spec fn interface_list_view(r: Result<Vec<InterfaceAttributes>, std::io::Error>) -> Result<Seq<InterfaceAttributes>, std::io::Error> {
    match r {
        Ok(v) => Ok(v@),
        Err(e) => Err(e),
    }
}

/// Builds an interface record from its attribute files.
pub fn build_interface(a: InterfaceAttributes) -> (r: Result<USBDeviceInterface, ParseError>)
    ensures
        match r {
            Ok(i) => interface_outcome(a) == Ok::<USBDeviceInterface, BuildFailure>(i),
            Err(e) => interface_outcome(a) is Err && failure_matches(e, interface_outcome(a)->Err_0),
        },
{
    let class = read_sysfs_val_u8(a.class, 16)?;
    let subclass = read_sysfs_val_u8(a.subclass, 16)?;
    let protocol = read_sysfs_val_u8(a.protocol, 16)?;
    Ok(USBDeviceInterface { class, subclass, protocol })
}

/// Builds the interface records of the entries of device directory `dir` that
/// are interface directories; entries that fail to build are left out.
pub fn build_interfaces(dir: &str, items: Vec<InterfaceAttributes>) -> (r: Vec<USBDeviceInterface>)
    ensures
        r@ == interfaces_built(dir@, items@),
{
    let ghost all = items@;
    let mut items = items;
    let mut r: Vec<USBDeviceInterface> = Vec::new();
    let mut k: usize = 0;
    let total = items.len();
    while items.len() > 0
        invariant
            total == all.len(),
            k <= all.len(),
            items@ == all.skip(k as int),
            r@ == interfaces_built(dir@, all.take(k as int)),
        decreases items@.len(),
    {
        let item = items.remove(0);
        assert(all.take(k + 1).drop_last() =~= all.take(k as int));
        assert(item == all[k as int]);
        let path = join(dir, item.name.as_str());
        let keep = match InterfaceDir::from_path(path) {
            Some(_) => true,
            None => false,
        };
        if keep {
            if let Ok(i) = build_interface(item) {
                r.push(i);
            }
        }
        k = k + 1;
        assert(items@ =~= all.skip(k as int));
    }
    assert(all.take(k as int) =~= all);
    r
}

/// Builds a device record from the attribute files of its directory and the
/// interface directories within it; the path is left empty.
pub fn build_device(
    dir: &DeviceDir,
    a: DeviceAttributes,
    interfaces: Result<Vec<InterfaceAttributes>, std::io::Error>,
) -> (r: Result<USBDevice, ParseError>)
    ensures
        match r {
            Ok(d) => device_outcome(dir@, a, interface_list_view(interfaces)) == Ok::<
                USBDeviceView,
                BuildFailure,
            >(d@),
            Err(e) => device_outcome(dir@, a, interface_list_view(interfaces)) is Err
                && failure_matches(e, device_outcome(dir@, a, interface_list_view(interfaces))->Err_0),
        },
{
    let bus_num = read_sysfs_val_u32(a.bus_num, 10)?;
    let device_num = read_sysfs_val_u32(a.device_num, 10)?;
    let speed = read_sysfs_val_speed(a.speed)?;
    let vendor_id = read_sysfs_val_u16(a.vendor_id, 16)?;
    let product_id = read_sysfs_val_u16(a.product_id, 16)?;
    let revision_num = read_sysfs_val_u16(a.revision_num, 10)?;
    let class = read_sysfs_val_u8(a.class, 16)?;
    let subclass = read_sysfs_val_u8(a.subclass, 16)?;
    let protocol = read_sysfs_val_u8(a.protocol, 16)?;
    let configuration_value = read_sysfs_val_u8(a.configuration_value, 10)?;
    let num_configurations = read_sysfs_val_u8(a.num_configurations, 10)?;
    let items = match interfaces {
        Ok(items) => items,
        Err(e) => return Err(ParseError::Io(e)),
    };
    let interfaces = build_interfaces(dir.path(), items);
    Ok(
        USBDevice {
            bus_id: dir.bus_id().to_owned(),
            path: String::new(),
            bus_num,
            device_num,
            speed,
            vendor_id,
            product_id,
            revision_num,
            class,
            subclass,
            protocol,
            configuration_value,
            num_configurations,
            interfaces,
        },
    )
}

/// What a device directory held when it was read: its name among the devices
/// and its attribute files, and the interface directories within it (or why
/// they could not be listed).
#[derive(Debug)]
pub struct DeviceEntry {
    pub name: String,
    pub attributes: DeviceAttributes,
    pub interfaces: Result<Vec<InterfaceAttributes>, std::io::Error>,
}

/// The device records of the entries of the devices directory `devices` that
/// are device directories and build; the others are left out.
pub open spec fn devices_listed(devices: Seq<char>, entries: Seq<DeviceEntry>) -> Seq<USBDeviceView>
    decreases entries.len(),
{
    if entries.len() == 0 {
        Seq::empty()
    } else {
        let init = devices_listed(devices, entries.drop_last());
        let e = entries.last();
        match device_dir_at(path_join(devices, e.name@)) {
            Some(dir) => match device_outcome(dir, e.attributes, interface_list_view(e.interfaces)) {
                Ok(d) => init.push(d),
                Err(_) => init,
            },
            None => init,
        }
    }
}

/// The unbind writes for the interface drivers that the link targets `links`
/// name: the bus id goes to each driver's unbind file; a target without a final
/// component names no driver.
pub open spec fn interface_unbinds(root: Seq<char>, bus_id: Seq<char>, links: Seq<Seq<char>>) -> Seq<SysfsWriteView>
    decreases links.len(),
{
    if links.len() == 0 {
        Seq::empty()
    } else {
        let init = interface_unbinds(root, bus_id, links.drop_last());
        match file_name_of(links.last()) {
            Some(driver) => init.push(
                SysfsWriteView { path: driver_file_of(root, driver, "unbind"@), value: bus_id },
            ),
            None => init,
        }
    }
}

/// The unbind write for one driver link, when the link has a final component.
pub open spec fn unbind_for_link(root: Seq<char>, bus_id: Seq<char>, link: Seq<char>) -> Option<SysfsWriteView> {
    match file_name_of(link) {
        Some(driver) => Some(
            SysfsWriteView { path: driver_file_of(root, driver, "unbind"@), value: bus_id },
        ),
        None => None,
    }
}

/// Every driver link with a final component gives exactly one unbind write, in
/// the links' order: the bus id goes to the unbind file of the driver the link
/// names. Links without a final component give none, so there are as many
/// writes as links with a final component.
pub proof fn lemma_interface_unbinds(root: Seq<char>, bus_id: Seq<char>, links: Seq<Seq<char>>)
    ensures
        interface_unbinds(root, bus_id, links) == links.filter_map(
            |l: Seq<char>| unbind_for_link(root, bus_id, l),
        ),
        interface_unbinds(root, bus_id, links).len() == links.filter(
            |l: Seq<char>| file_name_of(l) is Some,
        ).len(),
    decreases links.len(),
{
    reveal(Seq::filter);
    if links.len() > 0 {
        lemma_interface_unbinds(root, bus_id, links.drop_last());
        let f = |l: Seq<char>| unbind_for_link(root, bus_id, l);
        assert(links.filter_map(f) == match f(links.last()) {
            Some(w) => links.drop_last().filter_map(f) + seq![w],
            None => links.drop_last().filter_map(f),
        });
        if let Some(w) = f(links.last()) {
            assert(interface_unbinds(root, bus_id, links) =~= links.drop_last().filter_map(f) + seq![w]);
        }
    } else {
        assert(links.filter_map(|l: Seq<char>| unbind_for_link(root, bus_id, l)) =~= Seq::<
            SysfsWriteView,
        >::empty());
    }
}

/// The writes that prepare device `bus_id` for export: unbind its interfaces
/// from their drivers, let usbip-host take it, bind it to usbip-host.
pub open spec fn export_writes_of(root: Seq<char>, bus_id: Seq<char>, links: Seq<Seq<char>>) -> Seq<SysfsWriteView> {
    interface_unbinds(root, bus_id, links) + seq![
        SysfsWriteView {
            path: driver_file_of(root, "usbip-host"@, "match_busid"@),
            value: "add "@ + bus_id,
        },
        SysfsWriteView { path: driver_file_of(root, "usbip-host"@, "bind"@), value: bus_id },
    ]
}

/// The writes that give device `bus_id` back: unbind it from usbip-host, take
/// it off usbip-host's allowlist, reprobe its drivers.
pub open spec fn release_writes_of(root: Seq<char>, bus_id: Seq<char>) -> Seq<SysfsWriteView> {
    seq![
        SysfsWriteView { path: driver_file_of(root, "usbip-host"@, "unbind"@), value: bus_id },
        SysfsWriteView {
            path: driver_file_of(root, "usbip-host"@, "match_busid"@),
            value: "del "@ + bus_id,
        },
        SysfsWriteView { path: reprobe_path_of(root), value: bus_id },
    ]
}

/// Releasing a device undoes, in reverse order, what exporting did with
/// usbip-host: the device is unbound from the driver it was bound to, then
/// taken off the allowlist file it was added to; both name the same device.
pub proof fn lemma_release_undoes_export(root: Seq<char>, bus_id: Seq<char>, links: Seq<Seq<char>>)
    ensures
        ({
            let e = export_writes_of(root, bus_id, links);
            let r = release_writes_of(root, bus_id);
            let n = e.len() as int;
            &&& n >= 2
            &&& e[n - 1].path == driver_file_of(root, "usbip-host"@, "bind"@)
            &&& r[0].path == driver_file_of(root, "usbip-host"@, "unbind"@)
            &&& e[n - 1].value == bus_id && r[0].value == bus_id
            &&& e[n - 2].path == r[1].path
            &&& e[n - 2].value == "add "@ + bus_id
            &&& r[1].value == "del "@ + bus_id
        }),
{
    let e = export_writes_of(root, bus_id, links);
    let u = interface_unbinds(root, bus_id, links);
    assert(e.len() == u.len() + 2);
}

/// A step of exporting a device.
#[derive(Debug)]
pub enum ExportStep {
    /// Make this sysfs write.
    Write(SysfsWrite),
    /// Duplicate the connection's socket, to watch it for the client hanging
    /// up once the kernel has it.
    WatchSocket,
}

/// The value of an export step.
pub enum ExportStepView {
    Write(SysfsWriteView),
    WatchSocket,
}

impl View for ExportStep {
    type V = ExportStepView;

    open spec fn view(&self) -> ExportStepView {
        match self {
            ExportStep::Write(w) => ExportStepView::Write(w@),
            ExportStep::WatchSocket => ExportStepView::WatchSocket,
        }
    }
}

/// The value of each step in `v`.
pub open spec fn export_steps_view(v: Seq<ExportStep>) -> Seq<ExportStepView> {
    v.map_values(|s: ExportStep| s@)
}

/// The steps that export device `bus_id`, reached through the connection with
/// file descriptor `fd`: the export writes, then duplicating the socket, then
/// handing the descriptor's number to the device's socket file.
pub open spec fn export_steps_of(root: Seq<char>, bus_id: Seq<char>, links: Seq<Seq<char>>, fd: i32) -> Seq<ExportStepView> {
    export_writes_of(root, bus_id, links).map_values(|w: SysfsWriteView| ExportStepView::Write(w))
        + seq![
        ExportStepView::WatchSocket,
        ExportStepView::Write(
            SysfsWriteView { path: sock_assign_path_of(root, bus_id), value: signed_decimal(fd as int) },
        ),
    ]
}

/// Releasing a device makes its writes in order up to and including the first
/// that fails, and ends with that failure; it succeeds exactly when all three
/// writes do.
pub proof fn lemma_release_run<E>(root: Seq<char>, bus_id: Seq<char>, outcomes: Seq<Result<(), E>>)
    requires
        outcomes.len() == 3,
    ensures
        run_of(release_writes_of(root, bus_id), outcomes) == (
            release_writes_of(root, bus_id).take(steps_taken(outcomes) as int),
            run_result(outcomes),
        ),
        run_result(outcomes) is Ok <==> (forall|i: int| 0 <= i < 3 ==> #[trigger] outcomes[i] is Ok),
{
    lemma_run_stops_at_first_failure(release_writes_of(root, bus_id), outcomes);
}

/// Exporting a device takes its steps in order up to and including the first
/// that fails, and ends with that failure; it succeeds exactly when every step
/// does, the socket handoff coming last.
pub proof fn lemma_export_run<E>(
    root: Seq<char>,
    bus_id: Seq<char>,
    links: Seq<Seq<char>>,
    fd: i32,
    outcomes: Seq<Result<(), E>>,
)
    requires
        outcomes.len() == export_steps_of(root, bus_id, links, fd).len(),
        outcomes.len() <= usize::MAX,
    ensures
        run_of(export_steps_of(root, bus_id, links, fd), outcomes) == (
            export_steps_of(root, bus_id, links, fd).take(steps_taken(outcomes) as int),
            run_result(outcomes),
        ),
        run_result(outcomes) is Ok <==> (forall|i: int|
            0 <= i < outcomes.len() ==> #[trigger] outcomes[i] is Ok),
{
    lemma_run_stops_at_first_failure(export_steps_of(root, bus_id, links, fd), outcomes);
}

/// Starting a host loads usbip-core, then usbip-host, stopping at the first
/// load that fails with that failure; it succeeds exactly when both loads do.
pub proof fn lemma_host_start<E>(outcomes: Seq<Result<(), E>>)
    requires
        outcomes.len() == 2,
    ensures
        run_of(seq![KernelModule::UsbIpCore, KernelModule::UsbIpHost], outcomes) == (
            seq![KernelModule::UsbIpCore, KernelModule::UsbIpHost].take(steps_taken(outcomes) as int),
            run_result(outcomes),
        ),
        run_result(outcomes) is Ok <==> (outcomes[0] is Ok && outcomes[1] is Ok),
{
    lemma_run_stops_at_first_failure(seq![KernelModule::UsbIpCore, KernelModule::UsbIpHost], outcomes);
    if outcomes[0] is Ok && outcomes[1] is Ok {
        assert forall|i: int| 0 <= i < 2 implies #[trigger] outcomes[i] is Ok by {
            if i == 1 {
                assert(outcomes[1] is Ok);
            }
        }
    }
}

/// The exporting host: the USB part of sysfs and the usbip-host driver there.
pub struct Host {
    sysfs: SysfsHandle,
}

impl View for Host {
    type V = Seq<char>;

    /// The sysfs root the host works under.
    closed spec fn view(&self) -> Seq<char> {
        self.sysfs@
    }
}

impl Host {
    /// A host on the USB part of sysfs. The modules of `kernel_modules` must be
    /// loaded before the host is used.
    pub fn new() -> (h: Host)
        ensures
            h@ == sysfs_root(),
    {
        Host { sysfs: SysfsHandle::new() }
    }

    /// The host once its kernel modules were loaded (see `kernel_modules`):
    /// there is one exactly when loading them succeeded; otherwise the failure.
    pub fn after_loading<E>(loaded: Result<(), E>) -> (r: Result<Host, E>)
        ensures
            match loaded {
                Ok(()) => r matches Ok(h) && h@ == sysfs_root(),
                Err(e) => r matches Err(x) && x == e,
            },
    {
        match loaded {
            Ok(()) => Ok(Host::new()),
            Err(e) => Err(e),
        }
    }

    /// The kernel modules that exporting needs, in the order to load them.
    pub fn kernel_modules() -> (m: Vec<KernelModule>)
        ensures
            m@ == seq![KernelModule::UsbIpCore, KernelModule::UsbIpHost],
    {
        let mut m: Vec<KernelModule> = Vec::new();
        m.push(KernelModule::UsbIpCore);
        m.push(KernelModule::UsbIpHost);
        assert(m@ =~= seq![KernelModule::UsbIpCore, KernelModule::UsbIpHost]);
        m
    }

    /// The directory that holds the devices.
    pub fn devices_dir(&self) -> (p: String)
        ensures
            p@ == devices_dir_of(self@),
    {
        self.sysfs.devices_dir()
    }

    /// The directory of driver `driver`.
    pub fn driver_dir(&self, driver: &str) -> (p: String)
        ensures
            p@ == driver_dir_of(self@, driver@),
    {
        self.sysfs.driver_dir(driver)
    }

    /// The file that binds a device to driver `module`.
    pub fn driver_bind_path(&self, module: &str) -> (p: String)
        ensures
            p@ == driver_file_of(self@, module@, "bind"@),
    {
        let dir = self.driver_dir(module);
        join(dir.as_str(), "bind")
    }

    /// The file that unbinds a device from driver `module`.
    pub fn driver_unbind_path(&self, module: &str) -> (p: String)
        ensures
            p@ == driver_file_of(self@, module@, "unbind"@),
    {
        let dir = self.driver_dir(module);
        join(dir.as_str(), "unbind")
    }

    /// The file that lists the bus ids that driver `driver` may take.
    pub fn driver_allowlist_path(&self, driver: &str) -> (p: String)
        ensures
            p@ == driver_file_of(self@, driver@, "match_busid"@),
    {
        let dir = self.driver_dir(driver);
        join(dir.as_str(), "match_busid")
    }

    /// The file through which the socket of device `bus_id` is handed to the
    /// kernel.
    pub fn sock_assign_path(&self, bus_id: &str) -> (p: String)
        ensures
            p@ == sock_assign_path_of(self@, bus_id@),
    {
        let devices = self.devices_dir();
        let dir = join(devices.as_str(), bus_id);
        join(dir.as_str(), "usbip_sockfd")
    }

    /// The file that asks the kernel to probe drivers for a device again.
    pub fn driver_reprobe_path(&self) -> (p: String)
        ensures
            p@ == reprobe_path_of(self@),
    {
        join(self.sysfs.base_path(), "drivers_probe")
    }

    /// The device directories among the entries named `names` of the devices
    /// directory.
    pub fn device_dirs(&self, names: &Vec<String>) -> (r: Vec<DeviceDir>)
        ensures
            device_dirs_view(r@) == device_dirs_in(devices_dir_of(self@), texts_view(names@)),
    {
        self.sysfs.device_dirs(names)
    }

    /// The directory of the device on bus `bus_id`, if that name names a device.
    pub fn device_for_bus(&self, bus_id: &str) -> (r: Option<DeviceDir>)
        ensures
            match r {
                Some(d) => device_dir_at(path_join(devices_dir_of(self@), bus_id@)) == Some(d@),
                None => device_dir_at(path_join(devices_dir_of(self@), bus_id@)) is None,
            },
    {
        let devices = self.devices_dir();
        DeviceDir::from_path(join(devices.as_str(), bus_id))
    }

    /// The device records of the device directories among the entries of the
    /// devices directory; directories whose records fail to build are left out.
    pub fn list_devices(&self, entries: Vec<DeviceEntry>) -> (r: Vec<USBDevice>)
        ensures
            crate::protocol::devices_view(r@) == devices_listed(devices_dir_of(self@), entries@),
    {
        let devices = self.devices_dir();
        let ghost all = entries@;
        let mut entries = entries;
        let mut r: Vec<USBDevice> = Vec::new();
        let mut k: usize = 0;
        let total = entries.len();
        assert(crate::protocol::devices_view(r@) =~= Seq::<USBDeviceView>::empty());
        while entries.len() > 0
            invariant
                total == all.len(),
                devices@ == devices_dir_of(self@),
                k <= all.len(),
                entries@ == all.skip(k as int),
                crate::protocol::devices_view(r@) == devices_listed(devices@, all.take(k as int)),
            decreases entries@.len(),
        {
            let e = entries.remove(0);
            assert(all.take(k + 1).drop_last() =~= all.take(k as int));
            assert(e == all[k as int]);
            let ghost prev = r@;
            let path = join(devices.as_str(), e.name.as_str());
            if let Some(dir) = DeviceDir::from_path(path) {
                if let Ok(d) = build_device(&dir, e.attributes, e.interfaces) {
                    r.push(d);
                    assert(crate::protocol::devices_view(r@) =~= crate::protocol::devices_view(
                        prev,
                    ).push(d@));
                }
            }
            k = k + 1;
            assert(entries@ =~= all.skip(k as int));
        }
        assert(all.take(k as int) =~= all);
        r
    }

    /// The interface records of the device on bus `bus_id`, given the interface
    /// directories within its directory; none when the name names no device.
    pub fn list_device_interfaces(
        &self,
        bus_id: &str,
        interfaces: Result<Vec<InterfaceAttributes>, std::io::Error>,
    ) -> (r: Result<Vec<USBDeviceInterface>, ParseError>)
        ensures
            match device_dir_at(path_join(devices_dir_of(self@), bus_id@)) {
                Some(dir) => match interfaces {
                    Ok(items) => r matches Ok(v) && v@ == interfaces_built(dir.path, items@),
                    Err(e) => r == Err::<Vec<USBDeviceInterface>, ParseError>(ParseError::Io(e)),
                },
                None => r matches Ok(v) && v@.len() == 0,
            },
    {
        match self.device_for_bus(bus_id) {
            Some(dir) => match interfaces {
                Ok(items) => Ok(build_interfaces(dir.path(), items)),
                Err(e) => Err(ParseError::Io(e)),
            },
            None => Ok(Vec::new()),
        }
    }

    /// The device record of the device on bus `bus_id`, given what its directory
    /// held; none when the name names no device or the record fails to build.
    pub fn device_by_id(
        &self,
        bus_id: &str,
        attributes: DeviceAttributes,
        interfaces: Result<Vec<InterfaceAttributes>, std::io::Error>,
    ) -> (r: Option<USBDevice>)
        ensures
            match device_dir_at(path_join(devices_dir_of(self@), bus_id@)) {
                Some(dir) => match device_outcome(dir, attributes, interface_list_view(interfaces)) {
                    Ok(d) => r matches Some(x) && x@ == d,
                    Err(_) => r is None,
                },
                None => r is None,
            },
    {
        match self.device_for_bus(bus_id) {
            Some(dir) => match build_device(&dir, attributes, interfaces) {
                Ok(d) => Some(d),
                Err(_) => None,
            },
            None => None,
        }
    }

    /// Binds `device` to driver `driver`: its bus id goes to the driver's bind
    /// file.
    pub fn bind_device(&self, device: &USBDevice, driver: KernelModule) -> (w: SysfsWrite)
        ensures
            w@ == (SysfsWriteView {
                path: driver_file_of(self@, module_name(driver), "bind"@),
                value: device@.bus_id,
            }),
    {
        SysfsWrite { path: self.driver_bind_path(driver.as_str()), value: device.bus_id.clone() }
    }

    /// Unbinds `device` from driver `driver`: its bus id goes to the driver's
    /// unbind file.
    pub fn unbind_device(&self, device: &USBDevice, driver: &str) -> (w: SysfsWrite)
        ensures
            w@ == (SysfsWriteView {
                path: driver_file_of(self@, driver@, "unbind"@),
                value: device@.bus_id,
            }),
    {
        SysfsWrite { path: self.driver_unbind_path(driver), value: device.bus_id.clone() }
    }

    /// Lets driver `driver` take `device`: `add` and its bus id go to the
    /// driver's allowlist.
    pub fn register_device(&self, device: &USBDevice, driver: KernelModule) -> (w: SysfsWrite)
        ensures
            w@ == (SysfsWriteView {
                path: driver_file_of(self@, module_name(driver), "match_busid"@),
                value: "add "@ + device@.bus_id,
            }),
    {
        let mut value = "add ".to_owned();
        value.append(device.bus_id.as_str());
        SysfsWrite { path: self.driver_allowlist_path(driver.as_str()), value }
    }

    /// Takes `device` off the allowlist of driver `driver`: `del` and its bus id
    /// go to the allowlist.
    pub fn unregister_device(&self, device: &USBDevice, driver: KernelModule) -> (w: SysfsWrite)
        ensures
            w@ == (SysfsWriteView {
                path: driver_file_of(self@, module_name(driver), "match_busid"@),
                value: "del "@ + device@.bus_id,
            }),
    {
        let mut value = "del ".to_owned();
        value.append(device.bus_id.as_str());
        SysfsWrite { path: self.driver_allowlist_path(driver.as_str()), value }
    }

    /// Hands the connection with file descriptor `fd` to the kernel for
    /// `device`: the descriptor's number goes to the device's socket file.
    pub fn handoff_device(&self, device: &USBDevice, fd: i32) -> (w: SysfsWrite)
        ensures
            w@ == (SysfsWriteView {
                path: sock_assign_path_of(self@, device@.bus_id),
                value: signed_decimal(fd as int),
            }),
    {
        SysfsWrite { path: self.sock_assign_path(device.bus_id.as_str()), value: decimal_i32(fd) }
    }

    /// Asks the kernel to probe drivers for `device` again.
    pub fn trigger_sysfs_reprobe(&self, device: &USBDevice) -> (w: SysfsWrite)
        ensures
            w@ == (SysfsWriteView { path: reprobe_path_of(self@), value: device@.bus_id }),
    {
        SysfsWrite { path: self.driver_reprobe_path(), value: device.bus_id.clone() }
    }

    /// Unbinds the interfaces of `device` from their drivers. `driver_links` are
    /// the targets of the driver links of those interfaces that have one; the
    /// device's bus id goes to the unbind file of each driver they name.
    pub fn unbind_device_interfaces(&self, device: &USBDevice, driver_links: &Vec<String>) -> (ws: Vec<SysfsWrite>)
        ensures
            writes_view(ws@) == interface_unbinds(self@, device@.bus_id, texts_view(driver_links@)),
    {
        let mut ws: Vec<SysfsWrite> = Vec::new();
        let mut i: usize = 0;
        while i < driver_links.len()
            invariant
                i <= driver_links@.len(),
                writes_view(ws@) == interface_unbinds(
                    self@,
                    device@.bus_id,
                    texts_view(driver_links@).take(i as int),
                ),
            decreases driver_links@.len() - i,
        {
            assert(texts_view(driver_links@).take(i + 1).drop_last() =~= texts_view(
                driver_links@,
            ).take(i as int));
            let ghost prev = ws@;
            if let Some(driver) = file_name(driver_links[i].as_str()) {
                let w = self.unbind_device(device, driver.as_str());
                ws.push(w);
                assert(writes_view(ws@) =~= writes_view(prev).push(w@));
            }
            i = i + 1;
        }
        assert(texts_view(driver_links@).take(i as int) =~= texts_view(driver_links@));
        ws
    }

    /// The writes that prepare `device` for export: unbind its interfaces from
    /// their drivers (see `unbind_device_interfaces`), then let usbip-host take
    /// it and bind it there, in this order.
    pub fn export_writes(&self, device: &USBDevice, driver_links: &Vec<String>) -> (ws: Vec<SysfsWrite>)
        ensures
            writes_view(ws@) == export_writes_of(self@, device@.bus_id, texts_view(driver_links@)),
    {
        let mut ws = self.unbind_device_interfaces(device, driver_links);
        ws.push(self.register_device(device, KernelModule::UsbIpHost));
        ws.push(self.bind_device(device, KernelModule::UsbIpHost));
        assert(writes_view(ws@) =~= export_writes_of(self@, device@.bus_id, texts_view(driver_links@)));
        ws
    }

    /// Exports `device`, reached through the connection with file descriptor
    /// `fd`: the export writes (`export_writes`), then duplicating the socket to
    /// watch it, then handing the descriptor to the kernel (`handoff_device`),
    /// in this order; the steps stop at the first that fails
    /// (`lemma_export_run`).
    pub fn export_device(&self, device: &USBDevice, driver_links: &Vec<String>, fd: i32) -> (steps: Vec<ExportStep>)
        ensures
            export_steps_view(steps@) == export_steps_of(self@, device@.bus_id, texts_view(driver_links@), fd),
    {
        let ws = self.export_writes(device, driver_links);
        let ghost wv = writes_view(ws@);
        let mut steps: Vec<ExportStep> = Vec::new();
        let mut ws = ws;
        let mut k: usize = 0;
        let total = ws.len();
        while ws.len() > 0
            invariant
                total == wv.len(),
                k <= wv.len(),
                writes_view(ws@) == wv.skip(k as int),
                export_steps_view(steps@) == wv.take(k as int).map_values(
                    |w: SysfsWriteView| ExportStepView::Write(w),
                ),
            decreases ws@.len(),
        {
            assert(writes_view(ws@).len() == ws@.len());
            assert(writes_view(ws@)[0] == ws@[0]@);
            assert(wv.skip(k as int)[0] == wv[k as int]);
            let ghost before = ws@;
            let ghost done = steps@;
            assert(export_steps_view(done).len() == done.len());
            assert(done.len() == k);
            let w = ws.remove(0);
            assert(w@ == wv[k as int]);
            assert forall|j: int| 0 <= j < ws@.len() implies #[trigger] writes_view(ws@)[j]
                == wv.skip(k + 1)[j] by {
                assert(ws@[j] == before[j + 1]);
                assert(writes_view(before)[j + 1] == before[j + 1]@);
            }
            assert(writes_view(ws@) =~= wv.skip(k + 1));
            steps.push(ExportStep::Write(w));
            assert(steps@ == done.push(ExportStep::Write(w)));
            assert forall|j: int| 0 <= j < k + 1 implies #[trigger] export_steps_view(steps@)[j]
                == ExportStepView::Write(wv[j]) by {
                if j < k {
                    assert(steps@[j] == done[j]);
                    assert(export_steps_view(done)[j] == done[j]@);
                }
            }
            k = k + 1;
            assert(export_steps_view(steps@) =~= wv.take(k as int).map_values(
                |w: SysfsWriteView| ExportStepView::Write(w),
            ));
        }
        assert(wv.take(k as int) =~= wv);
        steps.push(ExportStep::WatchSocket);
        steps.push(ExportStep::Write(self.handoff_device(device, fd)));
        assert(export_steps_view(steps@) =~= export_steps_of(
            self@,
            device@.bus_id,
            texts_view(driver_links@),
            fd,
        ));
        steps
    }

    /// Gives `device` back to the host: unbind it from usbip-host, take it off
    /// the allowlist, and reprobe its drivers, in this order; the writes stop at
    /// the first that fails (`lemma_release_run`).
    pub fn release_device(&self, device: &USBDevice) -> (ws: Vec<SysfsWrite>)
        ensures
            writes_view(ws@) == release_writes_of(self@, device@.bus_id),
    {
        let mut ws: Vec<SysfsWrite> = Vec::new();
        ws.push(self.unbind_device(device, KernelModule::UsbIpHost.as_str()));
        ws.push(self.unregister_device(device, KernelModule::UsbIpHost));
        ws.push(self.trigger_sysfs_reprobe(device));
        assert(writes_view(ws@) =~= release_writes_of(self@, device@.bus_id));
        ws
    }
}

/// How a wait on an exported device's socket ended.
#[derive(Debug)]
pub enum WaitEnd {
    /// The wait returned: the client hung up, or the socket reported an error.
    Returned,
    /// The wait itself failed, with the error number when the system gave one.
    Failed(Option<i32>),
}

/// Whether to wait again after a wait that ended as `end`: only when the wait
/// failed because it was interrupted (error number `interrupted`) or without an
/// error number.
pub open spec fn waits_again(end: WaitEnd, interrupted: i32) -> bool {
    end matches WaitEnd::Failed(e) && (e is None || e == Some(interrupted))
}

/// The watch over an exported device: it holds the device until the device is
/// given back, so that it is given back once.
#[derive(Debug)]
pub struct DeviceWatch {
    device: Option<USBDevice>,
}

impl View for DeviceWatch {
    type V = Option<USBDeviceView>;

    /// The device still to be given back, if any.
    closed spec fn view(&self) -> Option<USBDeviceView> {
        match self.device {
            Some(d) => Some(d@),
            None => None,
        }
    }
}

impl DeviceWatch {
    /// A watch over the export of `device`.
    pub fn new(device: USBDevice) -> (w: DeviceWatch)
        ensures
            w@ == Some(device@),
    {
        DeviceWatch { device: Some(device) }
    }

    /// Whether to wait again after a wait that ended as `end`; `interrupted` is
    /// the system's error number for an interrupted call.
    pub fn wait_again(end: &WaitEnd, interrupted: i32) -> (b: bool)
        ensures
            b == waits_again(*end, interrupted),
    {
        match end {
            WaitEnd::Returned => false,
            WaitEnd::Failed(None) => true,
            WaitEnd::Failed(Some(e)) => *e == interrupted,
        }
    }

    /// Ends the watch, when the wait is over or the export is dropped: the
    /// device to give back the first time, none on any later call.
    pub fn finish(&mut self) -> (r: Option<USBDevice>)
        ensures
            device_option_view(r) == old(self)@,
            final(self)@ is None,
    {
        let r = self.device.take();
        r
    }
}

/// A watch gives its device back once: the first end yields the device, and
/// every later end yields none.
pub proof fn lemma_watch_releases_once(device: USBDeviceView, ends: nat)
    ensures
        finish_results(Some(device), ends) == if ends == 0 {
            Seq::<Option<USBDeviceView>>::empty()
        } else {
            seq![Some(device)] + Seq::new((ends - 1) as nat, |i: int| None::<USBDeviceView>)
        },
{
    if ends > 0 {
        lemma_finish_results_none((ends - 1) as nat);
        assert(finish_results(Some(device), ends) =~= seq![Some(device)] + Seq::new(
            (ends - 1) as nat,
            |i: int| None::<USBDeviceView>,
        ));
    }
}

/// What `ends` successive ends of a watch holding `held` yield.
pub open spec fn finish_results(held: Option<USBDeviceView>, ends: nat) -> Seq<Option<USBDeviceView>>
    decreases ends,
{
    if ends == 0 {
        Seq::empty()
    } else {
        seq![held] + finish_results(None, (ends - 1) as nat)
    }
}

proof fn lemma_finish_results_none(ends: nat)
    ensures
        finish_results(None, ends) == Seq::new(ends, |i: int| None::<USBDeviceView>),
    decreases ends,
{
    if ends > 0 {
        lemma_finish_results_none((ends - 1) as nat);
        assert(finish_results(None, ends) =~= Seq::new(ends, |i: int| None::<USBDeviceView>));
    } else {
        assert(finish_results(None, ends) =~= Seq::new(ends, |i: int| None::<USBDeviceView>));
    }
}

} // verus!
