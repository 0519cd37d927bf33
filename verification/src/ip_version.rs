//! The IP version that the tunnel runs on.
use vstd::prelude::*;
use vstd::string::*;
use crate::content::str_equal;

verus! {

/// IP version of the sockets.
#[derive(Debug, Clone, Copy, PartialEq, Eq)]
pub enum IpVersion {
    Ipv4,
    Ipv6,
}

/// `"IPv4"` or `"IPv6"`.
pub open spec fn ip_version_text(v: IpVersion) -> Seq<char> {
    match v {
        IpVersion::Ipv4 => "IPv4"@,
        IpVersion::Ipv6 => "IPv6"@,
    }
}

/// The IP version that a command line word names (`ipv4` or `ipv6`).
pub open spec fn spec_ip_version_argument(s: Seq<char>) -> Option<IpVersion> {
    if s == "ipv4"@ {
        Some(IpVersion::Ipv4)
    } else if s == "ipv6"@ {
        Some(IpVersion::Ipv6)
    } else {
        None
    }
}

impl IpVersion {
    /// The display form, `IPv4` or `IPv6`.
    pub fn to_display_string(&self) -> (res: String)
        ensures
            res@ == ip_version_text(*self),
    {
        match self {
            IpVersion::Ipv4 => "IPv4".to_owned(),
            IpVersion::Ipv6 => "IPv6".to_owned(),
        }
    }
}

/// The IP version named by the second command line argument (`args[2]`).
pub fn get_ip_version(args: &Vec<String>) -> (res: Option<IpVersion>)
    requires
        args@.len() > 2,
    ensures
        res == spec_ip_version_argument(args@[2]@),
{
    let arg = args[2].as_str();
    if str_equal(arg, "ipv4") {
        Some(IpVersion::Ipv4)
    } else if str_equal(arg, "ipv6") {
        Some(IpVersion::Ipv6)
    } else {
        None
    }
}

} // verus!
