//! The USB part of sysfs: where devices, interfaces and drivers live, and which
//! directory names stand for devices and interfaces.
use vstd::prelude::*;

use crate::paths::{file_name, file_name_of, join, lemma_file_name_of_join, path_join, plain_component};
use crate::text::{chars_of, contains_char, has_prefix};

verus! {

/// Root of the USB bus in sysfs.
pub open spec fn sysfs_root() -> Seq<char> {
    "/sys/bus/usb"@
}

/// A device directory name: no `:` (those are interfaces) and no `usb` prefix
/// (those are root hubs), as in "1-1" or "2-1.4".
pub open spec fn device_name(name: Seq<char>) -> bool {
    !name.contains(':') && !has_prefix(name, seq!['u', 's', 'b'])
}

/// An interface directory name holds a `:`, as in "1-1:1.0".
pub open spec fn interface_name(name: Seq<char>) -> bool {
    name.contains(':')
}

/// Whether `name` names a device directory.
pub fn is_device_name(name: &str) -> (b: bool)
    ensures
        b == device_name(name@),
{
    let cs = chars_of(name);
    let usb = cs.len() >= 3 && cs[0] == 'u' && cs[1] == 's' && cs[2] == 'b';
    assert(usb == has_prefix(name@, seq!['u', 's', 'b'])) by {
        if cs@.len() >= 3 {
            if usb {
                assert(name@.take(3) =~= seq!['u', 's', 'b']);
            } else {
                if name@.take(3) == seq!['u', 's', 'b'] {
                    assert(name@.take(3)[0] == 'u');
                    assert(name@.take(3)[1] == 's');
                    assert(name@.take(3)[2] == 'b');
                }
            }
        }
    }
    !contains_char(&cs, ':') && !usb
}

/// Whether `name` names an interface directory.
pub fn is_interface_name(name: &str) -> (b: bool)
    ensures
        b == interface_name(name@),
{
    let cs = chars_of(name);
    contains_char(&cs, ':')
}

/// The value of a device directory: its path and bus id.
pub struct DeviceDirView {
    pub path: Seq<char>,
    pub bus_id: Seq<char>,
}

/// A device directory in sysfs, named by the device's bus id.
#[derive(Debug)]
pub struct DeviceDir {
    path: String,
    bus_id: String,
}

impl View for DeviceDir {
    type V = DeviceDirView;

    closed spec fn view(&self) -> DeviceDirView {
        DeviceDirView { path: self.path@, bus_id: self.bus_id@ }
    }
}

/// The device directory at `path`, if its final component names a device.
pub open spec fn device_dir_at(path: Seq<char>) -> Option<DeviceDirView> {
    match file_name_of(path) {
        Some(n) => if device_name(n) {
            Some(DeviceDirView { path, bus_id: n })
        } else {
            None
        },
        None => None,
    }
}

/// An interface directory in sysfs.
#[derive(Debug)]
pub struct InterfaceDir {
    path: String,
}

impl View for InterfaceDir {
    type V = Seq<char>;

    closed spec fn view(&self) -> Seq<char> {
        self.path@
    }
}

/// The interface directory at `path`, if its final component names an interface.
pub open spec fn interface_dir_at(path: Seq<char>) -> Option<Seq<char>> {
    match file_name_of(path) {
        Some(n) => if interface_name(n) {
            Some(path)
        } else {
            None
        },
        None => None,
    }
}

/// The directories among `names` (entries of directory `dir`) that are
/// interface directories, in order.
pub open spec fn interface_dirs_in(dir: Seq<char>, names: Seq<Seq<char>>) -> Seq<Seq<char>>
    decreases names.len(),
{
    if names.len() == 0 {
        Seq::empty()
    } else {
        let init = interface_dirs_in(dir, names.drop_last());
        match interface_dir_at(path_join(dir, names.last())) {
            Some(p) => init.push(p),
            None => init,
        }
    }
}

/// The directories among `names` (entries of directory `dir`) that are device
/// directories, in order.
pub open spec fn device_dirs_in(dir: Seq<char>, names: Seq<Seq<char>>) -> Seq<DeviceDirView>
    decreases names.len(),
{
    if names.len() == 0 {
        Seq::empty()
    } else {
        let init = device_dirs_in(dir, names.drop_last());
        match device_dir_at(path_join(dir, names.last())) {
            Some(d) => init.push(d),
            None => init,
        }
    }
}

/// The value of each text in `v`.
pub open spec fn texts_view(v: Seq<String>) -> Seq<Seq<char>> {
    v.map_values(|s: String| s@)
}

/// The value of each device directory in `v`.
pub open spec fn device_dirs_view(v: Seq<DeviceDir>) -> Seq<DeviceDirView> {
    v.map_values(|d: DeviceDir| d@)
}

/// The value of each interface directory in `v`.
pub open spec fn interface_dirs_view(v: Seq<InterfaceDir>) -> Seq<Seq<char>> {
    v.map_values(|d: InterfaceDir| d@)
}

impl DeviceDir {
    /// The device directory at `path`, if its final component names a device.
    pub fn from_path(path: String) -> (r: Option<DeviceDir>)
        ensures
            match r {
                Some(d) => device_dir_at(path@) == Some(d@),
                None => device_dir_at(path@) is None,
            },
    {
        match file_name(path.as_str()) {
            Some(name) => {
                if is_device_name(name.as_str()) {
                    Some(DeviceDir { path, bus_id: name })
                } else {
                    None
                }
            },
            None => None,
        }
    }

    /// The bus id of the device, the directory's name.
    pub fn bus_id(&self) -> (b: &str)
        ensures
            b@ == self@.bus_id,
    {
        self.bus_id.as_str()
    }

    /// The directory's path.
    pub fn path(&self) -> (p: &str)
        ensures
            p@ == self@.path,
    {
        self.path.as_str()
    }

    /// The interface directories among the entries named `names` of this
    /// directory.
    pub fn interface_dirs(&self, names: &Vec<String>) -> (r: Vec<InterfaceDir>)
        ensures
            interface_dirs_view(r@) == interface_dirs_in(self@.path, texts_view(names@)),
    {
        let mut r: Vec<InterfaceDir> = Vec::new();
        let mut i: usize = 0;
        while i < names.len()
            invariant
                i <= names@.len(),
                interface_dirs_view(r@) == interface_dirs_in(
                    self@.path,
                    texts_view(names@).take(i as int),
                ),
            decreases names@.len() - i,
        {
            let ghost prev = r@;
            assert(texts_view(names@).take(i + 1).drop_last() =~= texts_view(names@).take(
                i as int,
            ));
            let p = join(self.path.as_str(), names[i].as_str());
            if let Some(d) = InterfaceDir::from_path(p) {
                r.push(d);
                assert(interface_dirs_view(r@) =~= interface_dirs_view(prev).push(d@));
            }
            i = i + 1;
        }
        assert(texts_view(names@).take(i as int) =~= texts_view(names@));
        r
    }

    /// The path of the attribute file `name` of this device.
    pub fn attr_path(&self, name: &str) -> (p: String)
        ensures
            p@ == path_join(self@.path, name@),
    {
        join(self.path.as_str(), name)
    }
}

impl InterfaceDir {
    /// The interface directory at `path`, if its final component names an
    /// interface.
    pub fn from_path(path: String) -> (r: Option<InterfaceDir>)
        ensures
            match r {
                Some(d) => interface_dir_at(path@) == Some(d@),
                None => interface_dir_at(path@) is None,
            },
    {
        match file_name(path.as_str()) {
            Some(name) => {
                if is_interface_name(name.as_str()) {
                    Some(InterfaceDir { path })
                } else {
                    None
                }
            },
            None => None,
        }
    }

    /// The directory's path.
    pub fn path(&self) -> (p: &str)
        ensures
            p@ == self@,
    {
        self.path.as_str()
    }

    /// The path of the attribute file `name` of this interface.
    pub fn attr_path(&self, name: &str) -> (p: String)
        ensures
            p@ == path_join(self@, name@),
    {
        join(self.path.as_str(), name)
    }

    /// The path of the link to the driver bound to this interface.
    pub fn driver_link_path(&self) -> (p: String)
        ensures
            p@ == path_join(self@, "driver"@),
    {
        join(self.path.as_str(), "driver")
    }
}

/// Access to the USB part of sysfs.
#[derive(Debug)]
pub struct SysfsHandle {
    path: String,
}

impl View for SysfsHandle {
    type V = Seq<char>;

    closed spec fn view(&self) -> Seq<char> {
        self.path@
    }
}

impl SysfsHandle {
    pub fn new() -> (h: SysfsHandle)
        ensures
            h@ == sysfs_root(),
    {
        SysfsHandle { path: "/sys/bus/usb".to_owned() }
    }

    pub fn base_path(&self) -> (p: &str)
        ensures
            p@ == self@,
    {
        self.path.as_str()
    }

    /// The directory that holds the devices.
    pub fn devices_dir(&self) -> (p: String)
        ensures
            p@ == path_join(self@, "devices"@),
    {
        join(self.path.as_str(), "devices")
    }

    /// The directory of driver `driver`.
    pub fn driver_dir(&self, driver: &str) -> (p: String)
        ensures
            p@ == path_join(path_join(self@, "drivers"@), driver@),
    {
        let drivers = join(self.path.as_str(), "drivers");
        join(drivers.as_str(), driver)
    }

    /// The device directories among the entries named `names` of the devices
    /// directory.
    pub fn device_dirs(&self, names: &Vec<String>) -> (r: Vec<DeviceDir>)
        ensures
            device_dirs_view(r@) == device_dirs_in(path_join(self@, "devices"@), texts_view(names@)),
    {
        let dir = self.devices_dir();
        let mut r: Vec<DeviceDir> = Vec::new();
        let mut i: usize = 0;
        while i < names.len()
            invariant
                i <= names@.len(),
                dir@ == path_join(self@, "devices"@),
                device_dirs_view(r@) == device_dirs_in(dir@, texts_view(names@).take(i as int)),
            decreases names@.len() - i,
        {
            let ghost prev = r@;
            assert(texts_view(names@).take(i + 1).drop_last() =~= texts_view(names@).take(
                i as int,
            ));
            let p = join(dir.as_str(), names[i].as_str());
            if let Some(d) = DeviceDir::from_path(p) {
                r.push(d);
                assert(device_dirs_view(r@) =~= device_dirs_view(prev).push(d@));
            }
            i = i + 1;
        }
        assert(texts_view(names@).take(i as int) =~= texts_view(names@));
        r
    }

    /// The directory of the device on bus `bus_id`, when a file of that name
    /// exists among the devices (`present`) and names a device.
    pub fn device_for_bus(&self, bus_id: &str, present: bool) -> (r: Option<DeviceDir>)
        ensures
            match r {
                Some(d) => present && device_dir_at(
                    path_join(path_join(self@, "devices"@), bus_id@),
                ) == Some(d@),
                None => !present || device_dir_at(
                    path_join(path_join(self@, "devices"@), bus_id@),
                ) is None,
            },
    {
        let dir = self.devices_dir();
        let path = join(dir.as_str(), bus_id);
        if present {
            DeviceDir::from_path(path)
        } else {
            None
        }
    }
}

/// The entry named `n` of directory `dir` is a device directory exactly when `n`
/// names a device, and then its bus id is `n` (for a plain name `n`).
pub proof fn lemma_device_dir_of_entry(dir: Seq<char>, n: Seq<char>)
    requires
        plain_component(n),
    ensures
        device_dir_at(path_join(dir, n)) == (if device_name(n) {
            Some(DeviceDirView { path: path_join(dir, n), bus_id: n })
        } else {
            None
        }),
{
    lemma_file_name_of_join(dir, n);
}

/// The entry named `n` of directory `dir` is an interface directory exactly
/// when `n` names an interface (for a plain name `n`).
pub proof fn lemma_interface_dir_of_entry(dir: Seq<char>, n: Seq<char>)
    requires
        plain_component(n),
    ensures
        interface_dir_at(path_join(dir, n)) == (if interface_name(n) {
            Some(path_join(dir, n))
        } else {
            None
        }),
{
    lemma_file_name_of_join(dir, n);
}

/// No name is both a device's and an interface's.
pub proof fn lemma_device_and_interface_names_disjoint(n: Seq<char>)
    ensures
        !(device_name(n) && interface_name(n)),
{
}

} // verus!
