use vstd::prelude::*;

verus! {

/// The longest string a request may ask for.
pub const MAX_LENGTH: usize = 256;

/// The most items a request may ask to choose.
pub const MAX_COUNT: usize = 100;

/// Why a request was refused before any generation.
#[derive(Debug, Clone, Copy, PartialEq, Eq, Structural)]
pub enum RequestRejection {
    /// The length is zero or above `MAX_LENGTH`.
    InvalidLength,
    /// No character class is enabled.
    NoCharset,
    /// The count is zero or above `MAX_COUNT`.
    InvalidCount,
    /// The count exceeds the number of items.
    CountAboveItems,
}

/// Checks a string request: first its length, then its class selection.
pub fn check_generate_params(
    use_digits: bool,
    use_lowercase: bool,
    use_uppercase: bool,
    use_spec: bool,
    length: usize,
) -> (r: Result<(), RequestRejection>)
    ensures
        (length == 0 || length > MAX_LENGTH) ==> r == Err::<(), RequestRejection>(
            RequestRejection::InvalidLength,
        ),
        (1 <= length <= MAX_LENGTH && !(use_digits || use_lowercase || use_uppercase || use_spec))
            ==> r == Err::<(), RequestRejection>(RequestRejection::NoCharset),
        (1 <= length <= MAX_LENGTH && (use_digits || use_lowercase || use_uppercase || use_spec))
            ==> r == Ok::<(), RequestRejection>(()),
{
    if length == 0 || length > MAX_LENGTH {
        Err(RequestRejection::InvalidLength)
    } else if !(use_digits || use_lowercase || use_uppercase || use_spec) {
        Err(RequestRejection::NoCharset)
    } else {
        Ok(())
    }
}

/// Checks a selection request: first the count alone, then against the
/// number of items.
pub fn check_choose_params(n_items: usize, count: usize) -> (r: Result<(), RequestRejection>)
    ensures
        (count == 0 || count > MAX_COUNT) ==> r == Err::<(), RequestRejection>(
            RequestRejection::InvalidCount,
        ),
        (1 <= count <= MAX_COUNT && count > n_items) ==> r == Err::<(), RequestRejection>(
            RequestRejection::CountAboveItems,
        ),
        (1 <= count <= MAX_COUNT && count <= n_items) ==> r == Ok::<(), RequestRejection>(()),
{
    if count == 0 || count > MAX_COUNT {
        Err(RequestRejection::InvalidCount)
    } else if count > n_items {
        Err(RequestRejection::CountAboveItems)
    } else {
        Ok(())
    }
}

/// A peer address: four octets, or eight 16-bit segments.
#[derive(Debug, Clone, Copy)]
pub enum IpAddress {
    V4([u8; 4]),
    V6([u16; 8]),
}

/// `127.0.0.0/8`.
pub open spec fn is_v4_loopback(o: [u8; 4]) -> bool {
    o@[0] == 127
}

/// `10.0.0.0/8`, `172.16.0.0/12` and `192.168.0.0/16`.
pub open spec fn is_v4_private(o: [u8; 4]) -> bool {
    ||| o@[0] == 10
    ||| o@[0] == 172 && 16 <= o@[1] <= 31
    ||| o@[0] == 192 && o@[1] == 168
}

/// `::1`.
pub open spec fn is_v6_loopback(s: [u16; 8]) -> bool {
    &&& forall|i: int| 0 <= i < 7 ==> s@[i] == 0
    &&& s@[7] == 1
}

/// A local address: an IPv4 loopback or private address, or the IPv6
/// loopback address.
pub open spec fn is_local(ip: IpAddress) -> bool {
    match ip {
        IpAddress::V4(o) => is_v4_loopback(o) || is_v4_private(o),
        IpAddress::V6(s) => is_v6_loopback(s),
    }
}

pub fn is_local_ip(ip: &IpAddress) -> (r: bool)
    ensures
        r == is_local(*ip),
{
    match ip {
        IpAddress::V4(o) => {
            o[0] == 127 || o[0] == 10 || (o[0] == 172 && 16 <= o[1] && o[1] <= 31) || (o[0] == 192
                && o[1] == 168)
        },
        IpAddress::V6(s) => {
            let mut i: usize = 0;
            while i < 7
                invariant
                    *ip == IpAddress::V6(*s),
                    i <= 7,
                    forall|j: int| 0 <= j < i ==> s@[j] == 0,
                decreases 7 - i,
            {
                if s[i] != 0 {
                    assert(s@[i as int] != 0);
                    return false;
                }
                i = i + 1;
            }
            s[7] == 1
        },
    }
}

/// The access policy of the service: only peers on the local network get
/// through.
#[derive(Debug, Clone, Copy)]
pub struct LocalNetworkOnly;

impl LocalNetworkOnly {
    /// Admits a request whose peer address is known and local; one whose
    /// address could not be read is refused.
    pub fn admits(&self, peer: Option<IpAddress>) -> (r: bool)
        ensures
            r == (peer matches Some(ip) && is_local(ip)),
    {
        match peer {
            Some(ip) => is_local_ip(&ip),
            None => false,
        }
    }
}

/// Settings of the service.
#[derive(Debug)]
pub struct Config {
    pub port_manager_ip: String,
    pub port_manager_port: String,
    pub port_manager_endpoint: String,
    pub name_for_port_manager: String,
    pub logs_dir: String,
    pub workers_count: usize,
}

/// How many times the port manager is asked before giving up.
pub const PORT_ATTEMPTS: u32 = 3;

/// What came of one request to the port manager.
#[derive(Debug, Clone, Copy, PartialEq, Eq, Structural)]
pub enum PortReply {
    /// The request could not be sent or got no response.
    TransportFailed,
    /// The response status was not a success.
    BadStatus,
    /// The response body was not the expected JSON.
    BadBody,
    /// The port manager answered with `success: false`.
    Refused,
    /// `success: true`, but the data was not an unsigned integer.
    NoPort,
    /// `success: true` with this number as data.
    Port(u64),
}

/// What to do after a reply.
#[derive(Debug, Clone, Copy, PartialEq, Eq, Structural)]
pub enum PortStep {
    /// Use this port.
    Done(u16),
    /// Pause, then make the next attempt.
    Retry,
    /// No port can be had.
    GiveUp,
}

/// The step after attempt `attempt` (counted from 1) got `reply`: a port
/// number is taken modulo 2^16; any failure is retried until the last
/// attempt.
pub fn next_port_step(attempt: u32, reply: PortReply) -> (r: PortStep)
    requires
        1 <= attempt <= PORT_ATTEMPTS,
    ensures
        r == match reply {
            PortReply::Port(v) => PortStep::Done((v % 0x1_0000) as u16),
            _ => if attempt < PORT_ATTEMPTS {
                PortStep::Retry
            } else {
                PortStep::GiveUp
            },
        },
{
    match reply {
        PortReply::Port(v) => PortStep::Done((v % 0x1_0000) as u16),
        _ => {
            if attempt < PORT_ATTEMPTS {
                PortStep::Retry
            } else {
                PortStep::GiveUp
            }
        },
    }
}

} // verus!
