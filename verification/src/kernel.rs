//! The kernel modules that USB/IP needs.
use vstd::prelude::*;

verus! {

/// A kernel module of USB/IP.
#[derive(Copy, Clone, Debug, PartialEq, Eq, Structural)]
pub enum KernelModule {
    /// The client's virtual host controller.
    VhciHcd,
    /// The server's stub driver.
    UsbIpHost,
    /// The common core of both.
    UsbIpCore,
}

/// The name of a module, for `modprobe` and as a driver directory in sysfs.
pub open spec fn module_name(m: KernelModule) -> Seq<char> {
    match m {
        KernelModule::VhciHcd => "vhci-hcd"@,
        KernelModule::UsbIpHost => "usbip-host"@,
        KernelModule::UsbIpCore => "usbip-core"@,
    }
}

impl KernelModule {
    pub fn as_str(&self) -> (s: &'static str)
        ensures
            s@ == module_name(*self),
    {
        match self {
            KernelModule::VhciHcd => "vhci-hcd",
            KernelModule::UsbIpHost => "usbip-host",
            KernelModule::UsbIpCore => "usbip-core",
        }
    }
}

} // verus!
