//! Decisions of the firmware's link tasks: which address the video is
//! streamed to after a round of the DHCP server, and which access point
//! events wake the tasks waiting for a station.
use vstd::prelude::*;

verus! {

/// Port of the relay that receives the video datagrams.
pub const RELAY_PORT: u16 = 5000;

/// The address assumed for a station that connected but sent no DHCP
/// request: the first address the DHCP server hands out.
pub open spec fn spec_fallback_client_ip() -> [u8; 4] {
    [192u8, 168u8, 2u8, 2u8]
}

/// The address assumed for a station that sent no DHCP request.
pub fn fallback_client_ip() -> (ip: [u8; 4])
    ensures
        ip == spec_fallback_client_ip(),
{
    [192u8, 168u8, 2u8, 2u8]
}

/// How one bounded run of the DHCP server ended.
#[derive(Debug, Clone, Copy, PartialEq, Eq, Structural)]
pub enum DhcpRound {
    /// The server returned an error.
    ServerError,
    /// The run hit its time limit.
    TimedOut,
    /// The server returned without error.
    Returned,
}

/// The client addresses announced to the streaming task after a DHCP
/// round, in order (the last one announced is the one streamed to): the
/// fallback address when the round timed out, then every leased address.
pub fn stream_targets(round: DhcpRound, leases: &[[u8; 4]]) -> (targets: Vec<[u8; 4]>)
    ensures
        targets@ == (if round == DhcpRound::TimedOut {
            seq![spec_fallback_client_ip()]
        } else {
            Seq::empty()
        }) + leases@,
{
    let mut targets: Vec<[u8; 4]> = Vec::new();
    if round == DhcpRound::TimedOut {
        targets.push(fallback_client_ip());
    }
    let ghost head = targets@;
    let mut j: usize = 0;
    while j < leases.len()
        invariant
            j <= leases@.len(),
            targets@ == head + leases@.take(j as int),
        decreases leases@.len() - j,
    {
        targets.push(leases[j]);
        j = j + 1;
        assert(targets@ =~= head + leases@.take(j as int));
    }
    assert(leases@.take(leases@.len() as int) =~= leases@);
    targets
}

/// An event of the Wi-Fi access point.
#[derive(Debug, Clone, Copy, PartialEq, Eq, Structural)]
pub enum StationEvent {
    /// A station joined the access point.
    Connected,
    /// A station left the access point.
    Disconnected,
    /// Waiting for an event failed.
    Failed,
}

/// Whether the event wakes the tasks waiting for a station to connect:
/// only a connection does.
pub fn station_connected(event: StationEvent) -> (wake: bool)
    ensures
        wake == (event == StationEvent::Connected),
{
    match event {
        StationEvent::Connected => true,
        _ => false,
    }
}

} // verus!
