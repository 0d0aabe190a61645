//! The errors of the house and of the protocol around it.

use vstd::prelude::*;

verus! {

/// What went wrong, as the protocol's error taxonomy names it.
#[derive(Clone, Copy, Debug, PartialEq, Eq, Structural)]
pub enum HouseErrorKind {
    RoomNotFound,
    DeviceNotFound,
    /// A device name that carries neither the socket nor the thermometer marker.
    UnknownDeviceKind,
    /// A query that a device of this kind does not answer.
    UnsupportedOperation,
    MalformedRequest,
    /// The server answered with its failure marker.
    RequestFailed,
    NetworkError,
    ServerError,
}

/// The kind of an I/O failure seen on a connection or on the telemetry feed.
#[derive(Clone, Copy, Debug, PartialEq, Eq, Structural)]
pub enum IoFailure {
    NotFound,
    ConnectionRefused,
    ConnectionReset,
    PermissionDenied,
    HostUnreachable,
    NetworkUnreachable,
    ConnectionAborted,
    NotConnected,
    AddrInUse,
    AddrNotAvailable,
    TimedOut,
    InvalidData,
    UnexpectedEof,
    NetworkDown,
    Other,
}

/// A plain description of a failure.
#[derive(Debug)]
pub struct InnerError {
    pub description: String,
}

impl InnerError {
    pub fn new(descr: &str) -> (r: Self)
        ensures
            r.description@ == descr@,
    {
        InnerError { description: descr.to_owned() }
    }

    /// The text under which the failure is reported.
    pub fn message(&self) -> (r: String)
        ensures
            r@ == "InnerError has occured! "@ + self.description@,
    {
        let mut r = "InnerError has occured! ".to_owned();
        r.append(self.description.as_str());
        r
    }
}

/// The error of every fallible operation of the house and the protocol.
#[derive(Debug)]
pub struct SmartHouseError {
    pub kind: HouseErrorKind,
    pub source: InnerError,
}

/// The standard description of each kind of error.
pub open spec fn description_of(kind: HouseErrorKind) -> Seq<char> {
    match kind {
        HouseErrorKind::RoomNotFound => "no such room"@,
        HouseErrorKind::DeviceNotFound => "no such device"@,
        HouseErrorKind::UnknownDeviceKind => "unknown kind of device"@,
        HouseErrorKind::UnsupportedOperation => "unsupported operation"@,
        HouseErrorKind::MalformedRequest => "malformed request"@,
        HouseErrorKind::RequestFailed => "request failed"@,
        HouseErrorKind::NetworkError => "network err"@,
        HouseErrorKind::ServerError => "server error"@,
    }
}

impl SmartHouseError {
    pub fn new(kind: HouseErrorKind, source: InnerError) -> (r: Self)
        ensures
            r.kind == kind,
            r.source.description@ == source.description@,
    {
        SmartHouseError { kind, source }
    }

    /// An error of `kind` with its standard description.
    pub fn of_kind(kind: HouseErrorKind) -> (r: Self)
        ensures
            r.kind == kind,
            r.source.description@ == description_of(kind),
    {
        let descr = match kind {
            HouseErrorKind::RoomNotFound => "no such room",
            HouseErrorKind::DeviceNotFound => "no such device",
            HouseErrorKind::UnknownDeviceKind => "unknown kind of device",
            HouseErrorKind::UnsupportedOperation => "unsupported operation",
            HouseErrorKind::MalformedRequest => "malformed request",
            HouseErrorKind::RequestFailed => "request failed",
            HouseErrorKind::NetworkError => "network err",
            HouseErrorKind::ServerError => "server error",
        };
        SmartHouseError { kind, source: InnerError::new(descr) }
    }

    /// The text under which the error is reported.
    pub fn message(&self) -> (r: String)
        ensures
            r@ == "SmartHouseError :"@ + self.source.description@,
    {
        let mut r = "SmartHouseError :".to_owned();
        r.append(self.source.description.as_str());
        r
    }
}

/// A failure to reach the server.
#[derive(Debug)]
pub enum ConnectError {
    Io(IoFailure),
}

/// A command that the house refused.
#[derive(Debug)]
pub enum CommandError {
    Command(SmartHouseError),
}

} // verus!
