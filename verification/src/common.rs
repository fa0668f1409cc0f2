//! Numbers of the control interface and of ICMP messages.

use vstd::prelude::*;

verus! {

pub const ICMPV4_TYPE_DESTINATION_UNREACHABLE: u8 = 3;

pub const ICMPV4_CODE_DU_PORT_UNREACHABLE: u8 = 3;

pub const ICMPV4_CODE_DU_ADMINISTRATIVELY_PROHIBITED: u8 = 13;

pub const ICMPV6_TYPE_DESTINATION_UNREACHABLE: u8 = 1;

pub const ICMPV6_CODE_DU_PORT_UNREACHABLE: u8 = 4;

/// Control code that asks for the version of the interface.
pub const IOCTL_VERSION: u32 = 0x9C40E000;

/// Control code that shuts the driver down.
pub const IOCTL_SHUTDOWN_REQUEST: u32 = 0x9C40E004;

/// What a control request asks for.
#[derive(Clone, Copy, Debug, PartialEq, Eq, Structural)]
pub enum ControlCode {
    Version,
    ShutdownRequest,
}

impl ControlCode {
    /// The request with this number.
    pub open spec fn spec_from_number(code: u32) -> Option<ControlCode> {
        if code == IOCTL_VERSION {
            Some(ControlCode::Version)
        } else if code == IOCTL_SHUTDOWN_REQUEST {
            Some(ControlCode::ShutdownRequest)
        } else {
            None
        }
    }

    /// Returns the request with this number.
    pub fn from_u32(code: u32) -> (request: Option<ControlCode>)
        ensures
            request == ControlCode::spec_from_number(code),
    {
        if code == IOCTL_VERSION {
            Some(ControlCode::Version)
        } else if code == IOCTL_SHUTDOWN_REQUEST {
            Some(ControlCode::ShutdownRequest)
        } else {
            None
        }
    }
}

/// The version of the interface.
pub open spec fn interface_version() -> Seq<u8> {
    seq![2, 1, 1, 0]
}

/// Returns the version of the interface.
pub fn version() -> (version: [u8; 4])
    ensures
        version@ == interface_version(),
{
    let version: [u8; 4] = [2, 1, 1, 0];
    assert(version@ =~= interface_version());
    version
}

} // verus!
