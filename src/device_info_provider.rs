//! The devices that rooms hold, and the providers that report on a fixed
//! set of devices.

use rand::Rng;
use vstd::prelude::*;
use crate::errors::{HouseErrorKind, SmartHouseError};

verus! {

/// The smallest power that a socket reports, in thousandths of a unit.
pub const POWER_MIN: u32 = 5000;

/// The bound that a socket's reported power stays below, in thousandths.
pub const POWER_LIMIT: u32 = 10000;

/// Relies on rand's `thread_rng().gen_range(low..high)`: a value drawn from
/// `low..high`; `gen_range` panics on an empty range, hence `low < high`.
#[verifier::external_body]
pub(crate) fn random_in(low: u32, high: u32) -> (r: u32)
    requires
        low < high,
    ensures
        low <= r < high,
{
    rand::thread_rng().gen_range(low..high)
}

#[derive(Clone, Copy, Debug, PartialEq, Eq, Structural)]
pub enum DeviceKind {
    Socket,
    Thermometer,
}

/// What the house keeps of a device besides its name.
#[derive(Clone, Copy, Debug, PartialEq, Eq, Structural)]
pub struct DeviceState {
    pub kind: DeviceKind,
    pub is_on: bool,
}

pub struct SmartSocket {
    pub is_on: bool,
    pub name: String,
}

pub struct SmartThermometer {
    pub is_on: bool,
    pub name: String,
}

/// A device of one of the two kinds.
pub enum Device {
    Socket(SmartSocket),
    Thermometer(SmartThermometer),
}

impl Device {
    pub open spec fn name_spec(&self) -> Seq<char> {
        match self {
            Device::Socket(s) => s.name@,
            Device::Thermometer(t) => t.name@,
        }
    }

    pub open spec fn state(&self) -> DeviceState {
        match self {
            Device::Socket(s) => DeviceState { kind: DeviceKind::Socket, is_on: s.is_on },
            Device::Thermometer(t) => DeviceState { kind: DeviceKind::Thermometer, is_on: t.is_on },
        }
    }

    /// A device of `kind`, switched off.
    pub fn new(kind: DeviceKind, name: &str) -> (r: Self)
        ensures
            r.name_spec() == name@,
            r.state() == (DeviceState { kind, is_on: false }),
    {
        match kind {
            DeviceKind::Socket => Device::Socket(SmartSocket { is_on: false, name: name.to_owned() }),
            DeviceKind::Thermometer => Device::Thermometer(
                SmartThermometer { is_on: false, name: name.to_owned() },
            ),
        }
    }

    pub fn get_name(&self) -> (r: &str)
        ensures
            r@ == self.name_spec(),
    {
        match self {
            Device::Socket(s) => s.name.as_str(),
            Device::Thermometer(t) => t.name.as_str(),
        }
    }

    pub fn set_name(&mut self, name: &str)
        ensures
            final(self).name_spec() == name@,
            final(self).state() == old(self).state(),
    {
        match self {
            Device::Socket(s) => s.name = name.to_owned(),
            Device::Thermometer(t) => t.name = name.to_owned(),
        }
    }

    pub fn is_on(&self) -> (r: bool)
        ensures
            r == self.state().is_on,
    {
        match self {
            Device::Socket(s) => s.is_on,
            Device::Thermometer(t) => t.is_on,
        }
    }

    pub fn switch_on_off(&mut self, is_on: bool)
        ensures
            final(self).name_spec() == old(self).name_spec(),
            final(self).state() == (DeviceState { kind: old(self).state().kind, is_on }),
    {
        match self {
            Device::Socket(s) => s.is_on = is_on,
            Device::Thermometer(t) => t.is_on = is_on,
        }
    }

    /// A fresh sample of the power that a socket draws, in thousandths of a
    /// unit; a thermometer does not answer this query.
    pub fn get_consumed_power(&self) -> (r: Result<u32, SmartHouseError>)
        ensures
            self.state().kind == DeviceKind::Socket ==> (r matches Ok(p) && POWER_MIN <= p
                < POWER_LIMIT),
            self.state().kind == DeviceKind::Thermometer ==> (r matches Err(e) && e.kind
                == HouseErrorKind::UnsupportedOperation),
    {
        match self {
            Device::Socket(_) => Ok(random_in(POWER_MIN, POWER_LIMIT)),
            Device::Thermometer(_) => Err(SmartHouseError::of_kind(HouseErrorKind::UnsupportedOperation)),
        }
    }
}

/// Reports on the devices of one room by name.
pub trait DeviceInfoProvider {
    /// The report for `device` in `room`, or the kind of error.
    spec fn device_state(&self, room: Seq<char>, device: Seq<char>) -> Result<Seq<char>, HouseErrorKind>;

    fn get_device_state(&self, room_name: &str, device_name: &str) -> (r: Result<String, SmartHouseError>)
        ensures
            match r {
                Ok(s) => self.device_state(room_name@, device_name@) == Ok::<Seq<char>, HouseErrorKind>(s@),
                Err(e) => self.device_state(room_name@, device_name@) == Err::<Seq<char>, HouseErrorKind>(e.kind),
            },
    ;
}

/// `s` written `k` times in a row.
pub open spec fn repeat(s: Seq<char>, k: nat) -> Seq<char>
    decreases k,
{
    if k == 0 {
        Seq::empty()
    } else {
        repeat(s, (k - 1) as nat) + s
    }
}

proof fn lemma_repeat_empty(s: Seq<char>, k: nat)
    ensures
        (repeat(s, k).len() == 0) == (k == 0 || s.len() == 0),
    decreases k,
{
    if k > 0 {
        lemma_repeat_empty(s, (k - 1) as nat);
    }
}

/// How many of `names` equal `name`.
pub open spec fn count_named(names: Seq<Seq<char>>, name: Seq<char>) -> nat {
    names.filter(is_named(name)).len()
}

pub open spec fn is_named(name: Seq<char>) -> spec_fn(Seq<char>) -> bool {
    |n: Seq<char>| n == name
}

pub open spec fn socket_names(s: Seq<SmartSocket>) -> Seq<Seq<char>> {
    s.map_values(|x: SmartSocket| x.name@)
}

pub open spec fn thermometer_names(s: Seq<SmartThermometer>) -> Seq<Seq<char>> {
    s.map_values(|x: SmartThermometer| x.name@)
}

/// The report of a provider for `room` whose devices carry `names`: the
/// device's name once for each device of that name.
pub open spec fn report_spec(
    provider_room: Seq<char>,
    names: Seq<Seq<char>>,
    room: Seq<char>,
    device: Seq<char>,
) -> Result<Seq<char>, HouseErrorKind> {
    if room != provider_room {
        Err(HouseErrorKind::RoomNotFound)
    } else if count_named(names, device) > 0 && device.len() > 0 {
        Ok(repeat(device, count_named(names, device)))
    } else {
        Err(HouseErrorKind::DeviceNotFound)
    }
}

proof fn lemma_count_step(names: Seq<Seq<char>>, i: int, name: Seq<char>)
    requires
        0 <= i < names.len(),
    ensures
        count_named(names.take(i + 1), name) == count_named(names.take(i), name) + (if names[i]
            == name {
            1nat
        } else {
            0nat
        }),
{
    let f = is_named(name);
    assert(names.take(i + 1) =~= names.take(i).push(names[i]));
    names.take(i).lemma_filter_push(names[i], f);
}

fn report_of(
    provider_room: &str,
    sockets: &Vec<SmartSocket>,
    thermos: &Vec<SmartThermometer>,
    room_name: &str,
    device_name: &str,
) -> (r: Result<String, SmartHouseError>)
    ensures
        match r {
            Ok(s) => report_spec(provider_room@, socket_names(sockets@) + thermometer_names(thermos@), room_name@, device_name@) == Ok::<Seq<char>, HouseErrorKind>(s@),
            Err(e) => report_spec(provider_room@, socket_names(sockets@) + thermometer_names(thermos@), room_name@, device_name@) == Err::<Seq<char>, HouseErrorKind>(e.kind),
        },
{
    let ghost names = socket_names(sockets@) + thermometer_names(thermos@);
    let own = provider_room.to_owned();
    let asked = room_name.to_owned();
    if own != asked {
        return Err(SmartHouseError::of_kind(HouseErrorKind::RoomNotFound));
    }
    let key = device_name.to_owned();
    let mut info = String::new();
    let ns = sockets.len();
    assert(names.take(0) =~= Seq::<Seq<char>>::empty());
    for i in 0..ns
        invariant
            ns == sockets@.len(),
            names == socket_names(sockets@) + thermometer_names(thermos@),
            key@ == device_name@,
            info@ == repeat(device_name@, count_named(names.take(i as int), device_name@)),
    {
        proof {
            lemma_count_step(names, i as int, device_name@);
        }
        if sockets[i].name == key {
            info.append(device_name);
        }
    }
    let nt = thermos.len();
    for j in 0..nt
        invariant
            ns == sockets@.len(),
            nt == thermos@.len(),
            names == socket_names(sockets@) + thermometer_names(thermos@),
            key@ == device_name@,
            info@ == repeat(device_name@, count_named(names.take(ns + j), device_name@)),
    {
        proof {
            lemma_count_step(names, ns + j, device_name@);
        }
        if thermos[j].name == key {
            info.append(device_name);
        }
    }
    assert(names.take(ns + nt) =~= names);
    proof {
        lemma_repeat_empty(device_name@, count_named(names, device_name@));
    }
    if info.as_str().is_empty() {
        Err(SmartHouseError::of_kind(HouseErrorKind::DeviceNotFound))
    } else {
        Ok(info)
    }
}

/// A provider that owns the devices it reports on.
pub struct OwningDeviceInfoProvider<'a> {
    pub name: &'a str,
    pub sockets: Vec<SmartSocket>,
    pub thermos: Vec<SmartThermometer>,
}

/// A provider that borrows the devices it reports on.
pub struct BorrowingDeviceInfoProvider<'a> {
    pub name: &'a str,
    pub sockets: &'a Vec<SmartSocket>,
    pub thermos: &'a Vec<SmartThermometer>,
}

impl<'a> DeviceInfoProvider for OwningDeviceInfoProvider<'a> {
    open spec fn device_state(&self, room: Seq<char>, device: Seq<char>) -> Result<Seq<char>, HouseErrorKind> {
        report_spec(self.name@, socket_names(self.sockets@) + thermometer_names(self.thermos@), room, device)
    }

    fn get_device_state(&self, room_name: &str, device_name: &str) -> (r: Result<String, SmartHouseError>) {
        report_of(self.name, &self.sockets, &self.thermos, room_name, device_name)
    }
}

impl<'a> DeviceInfoProvider for BorrowingDeviceInfoProvider<'a> {
    open spec fn device_state(&self, room: Seq<char>, device: Seq<char>) -> Result<Seq<char>, HouseErrorKind> {
        report_spec(self.name@, socket_names(self.sockets@) + thermometer_names(self.thermos@), room, device)
    }

    fn get_device_state(&self, room_name: &str, device_name: &str) -> (r: Result<String, SmartHouseError>) {
        report_of(self.name, self.sockets, self.thermos, room_name, device_name)
    }
}

} // verus!
