//! The telemetry bridge: the decisions of the loop that binds to the remote
//! sensor feed, receives samples and fuses them into the house, and the
//! sensor side that produces samples.

use vstd::prelude::*;
use crate::codec::{be_bytes, decode_sample, is_finite_bits, lemma_sample_round_trip, sample_spec};
use crate::device_info_provider::random_in;
use crate::errors::IoFailure;
use crate::smart_house::{HouseView, SmartHouse};

verus! {

/// Seconds to wait before binding again after a failed bind.
pub const BIND_RETRY_SECS: u64 = 1;

/// Seconds to wait after a sample before receiving the next one.
pub const POLL_SECS: u64 = 2;

/// Fuses one received sample into the house: a sample of exactly four
/// bytes that encode a finite number replaces the temperature; any other
/// leaves the house unchanged.
pub fn fuse_sample(house: &mut SmartHouse, sample: &[u8]) -> (r: bool)
    requires
        old(house).wf(),
    ensures
        final(house).wf(),
        match sample_spec(sample@) {
            Some(bits) => r && final(house)@ == (HouseView { temperature: bits, ..old(house)@ }),
            None => !r && final(house)@ == old(house)@,
        },
{
    match decode_sample(sample) {
        Some(bits) => {
            house.set_thermo_data(bits);
            true
        },
        None => false,
    }
}

/// Fusing the four big-endian bytes of a finite reading sets the
/// temperature to that reading; a sample of fewer than four bytes leaves the
/// house as it was.
pub proof fn lemma_fuse_reading(h: HouseView, bits: u32, short: Seq<u8>)
    requires
        is_finite_bits(bits),
        short.len() < 4,
    ensures
        sample_spec(be_bytes(bits)) == Some(bits),
        (match sample_spec(be_bytes(bits)) {
            Some(b) => HouseView { temperature: b, ..h },
            None => h,
        }).temperature == bits,
        sample_spec(short) is None,
{
    lemma_sample_round_trip(bits);
}

#[derive(Clone, Copy, Debug, PartialEq, Eq, Structural)]
pub enum BridgeState {
    /// Not bound to the feed.
    Unbound,
    /// Bound and receiving.
    Bound,
}

/// What happened to the bridge's last action.
pub enum BridgeEvent {
    BindSucceeded,
    BindFailed,
    /// A datagram arrived; it holds the bytes received.
    Received(Vec<u8>),
    ReceiveFailed(IoFailure),
}

/// What the bridge's loop does next.
#[derive(Clone, Copy, Debug, PartialEq, Eq, Structural)]
pub enum BridgeAction {
    /// Wait that many seconds, then bind to the feed.
    BindAfter(u64),
    /// Wait that many seconds, then receive one sample.
    ReceiveAfter(u64),
}

pub struct TelemetryBridge {
    pub state: BridgeState,
}

impl TelemetryBridge {
    /// A bridge that is not bound yet, and its first action: bind now.
    pub fn new() -> (r: (Self, BridgeAction))
        ensures
            r.0.state == BridgeState::Unbound,
            r.1 == BridgeAction::BindAfter(0),
    {
        (TelemetryBridge { state: BridgeState::Unbound }, BridgeAction::BindAfter(0))
    }

    /// The next action after `event`. A failed bind is retried after a
    /// pause, without end; a sample is fused into the house; every kind of
    /// receive failure drops the binding and binds anew.
    pub fn on_event(&mut self, house: &mut SmartHouse, event: &BridgeEvent) -> (r: BridgeAction)
        requires
            old(house).wf(),
        ensures
            final(house).wf(),
            match event {
                BridgeEvent::BindSucceeded => final(self).state == BridgeState::Bound && r
                    == BridgeAction::ReceiveAfter(0) && final(house)@ == old(house)@,
                BridgeEvent::BindFailed => final(self).state == BridgeState::Unbound && r
                    == BridgeAction::BindAfter(BIND_RETRY_SECS) && final(house)@ == old(house)@,
                BridgeEvent::Received(sample) => final(self).state == BridgeState::Bound && r
                    == BridgeAction::ReceiveAfter(POLL_SECS) && final(house)@ == match sample_spec(sample@) {
                    Some(bits) => HouseView { temperature: bits, ..old(house)@ },
                    None => old(house)@,
                },
                BridgeEvent::ReceiveFailed(_) => final(self).state == BridgeState::Unbound && r
                    == BridgeAction::BindAfter(0) && final(house)@ == old(house)@,
            },
    {
        match event {
            BridgeEvent::BindSucceeded => {
                self.state = BridgeState::Bound;
                BridgeAction::ReceiveAfter(0)
            },
            BridgeEvent::BindFailed => {
                self.state = BridgeState::Unbound;
                BridgeAction::BindAfter(BIND_RETRY_SECS)
            },
            BridgeEvent::Received(sample) => {
                fuse_sample(house, sample.as_slice());
                self.state = BridgeState::Bound;
                BridgeAction::ReceiveAfter(POLL_SECS)
            },
            BridgeEvent::ReceiveFailed(_) => {
                self.state = BridgeState::Unbound;
                BridgeAction::BindAfter(0)
            },
        }
    }
}

/// The sensor side of the feed, which produces temperature readings.
pub struct RemoteServer {}

impl RemoteServer {
    /// A simulated reading in hundredths of a degree, in [23, 28) degrees.
    pub fn generate_temperature_data() -> (r: u32)
        ensures
            2300 <= r < 2800,
    {
        random_in(2300, 2800)
    }
}

} // verus!
