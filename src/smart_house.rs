//! The house store: rooms keyed by name, each holding devices keyed by name,
//! and the last temperature fused in from the telemetry feed.

use vstd::prelude::*;
use crate::codec::is_finite_bits;
use crate::device_info_provider::{
    Device, DeviceInfoProvider, DeviceKind, DeviceState, POWER_LIMIT, POWER_MIN,
};
use crate::errors::{HouseErrorKind, SmartHouseError};
use crate::keyed::{
    keyed, lemma_keyed_at, lemma_keyed_has, lemma_keyed_push, lemma_keyed_remove,
    lemma_keyed_update, unique_keys,
};
use crate::text::{chars_of, occurs, occurs_in};

verus! {

pub struct Room {
    pub name: String,
    pub devices: Vec<Device>,
}

pub open spec fn device_key() -> spec_fn(Device) -> Seq<char> {
    |d: Device| d.name_spec()
}

pub open spec fn device_val() -> spec_fn(Device) -> DeviceState {
    |d: Device| d.state()
}

/// The devices of a room by name.
pub open spec fn devices_map(ds: Seq<Device>) -> Map<Seq<char>, DeviceState> {
    keyed(ds, device_key(), device_val())
}

pub open spec fn room_key() -> spec_fn(Room) -> Seq<char> {
    |r: Room| r.name@
}

pub open spec fn room_val() -> spec_fn(Room) -> Map<Seq<char>, DeviceState> {
    |r: Room| devices_map(r.devices@)
}

/// What a house holds: its name, its rooms (each a map from device names to
/// device states) and the last fused temperature, as IEEE-754 bits.
pub struct HouseView {
    pub name: Seq<char>,
    pub rooms: Map<Seq<char>, Map<Seq<char>, DeviceState>>,
    pub temperature: u32,
}

pub open spec fn has_device(h: HouseView, room: Seq<char>, device: Seq<char>) -> bool {
    h.rooms.contains_key(room) && h.rooms[room].contains_key(device)
}

/// `h` with `device` in `room` set to `state`.
pub open spec fn with_device(h: HouseView, room: Seq<char>, device: Seq<char>, state: DeviceState) -> HouseView {
    HouseView { rooms: h.rooms.insert(room, h.rooms[room].insert(device, state)), ..h }
}

/// `h` with `device` in `room` switched on or off.
pub open spec fn switched(h: HouseView, room: Seq<char>, device: Seq<char>, on: bool) -> HouseView {
    with_device(h, room, device, DeviceState { kind: h.rooms[room][device].kind, is_on: on })
}

/// The kind of device that a name asks for, by the marker it carries.
pub open spec fn kind_for(name: Seq<char>) -> Option<DeviceKind> {
    if occurs_in("Socket"@, name) {
        Some(DeviceKind::Socket)
    } else if occurs_in("Thermo"@, name) {
        Some(DeviceKind::Thermometer)
    } else {
        None
    }
}

/// `v` names each key of `keys` exactly once.
pub open spec fn lists_exactly(v: Seq<&str>, keys: Set<Seq<char>>) -> bool {
    &&& forall|k: Seq<char>| keys.contains(k) <==> exists|i: int| 0 <= i < v.len() && (#[trigger] v[i])@ == k
    &&& forall|i: int, j: int| 0 <= i < v.len() && 0 <= j < v.len() && i != j ==> (#[trigger] v[i])@ != (#[trigger] v[j])@
}

/// The rooms that a list of names creates: one empty room per distinct name.
pub open spec fn rooms_named(names: Seq<&str>) -> Map<Seq<char>, Map<Seq<char>, DeviceState>> {
    Map::new(|k: Seq<char>| exists|i: int| 0 <= i < names.len() && names[i]@ == k, |k: Seq<char>| Map::empty())
}

pub struct SmartHouse {
    name: String,
    rooms: Vec<Room>,
    remote_thermo: u32,
}

impl View for SmartHouse {
    type V = HouseView;

    closed spec fn view(&self) -> HouseView {
        HouseView {
            name: self.name@,
            rooms: keyed(self.rooms@, room_key(), room_val()),
            temperature: self.remote_thermo,
        }
    }
}

impl Device {
    fn has_name(&self, name: &String) -> (r: bool)
        ensures
            r == (self.name_spec() == name@),
    {
        match self {
            Device::Socket(s) => s.name == *name,
            Device::Thermometer(t) => t.name == *name,
        }
    }
}

impl Room {
    fn find_device(&self, name: &String) -> (r: Option<usize>)
        ensures
            match r {
                Some(j) => j < self.devices@.len() && self.devices@[j as int].name_spec() == name@,
                None => forall|j: int| 0 <= j < self.devices@.len() ==> #[trigger] self.devices@[j].name_spec() != name@,
            },
    {
        for j in 0..self.devices.len()
            invariant
                forall|k: int| 0 <= k < j ==> #[trigger] self.devices@[k].name_spec() != name@,
        {
            if self.devices[j].has_name(name) {
                return Some(j);
            }
        }
        None
    }
}

impl SmartHouse {
    /// The house's invariant: room names are unique, device names are
    /// unique within each room, and the temperature is a finite number.
    pub closed spec fn wf(&self) -> bool {
        &&& unique_keys(self.rooms@, room_key())
        &&& forall|i: int| 0 <= i < self.rooms@.len() ==> unique_keys(#[trigger] self.rooms@[i].devices@, device_key())
        &&& is_finite_bits(self.remote_thermo)
    }

    fn find_room(&self, name: &String) -> (r: Option<usize>)
        requires
            self.wf(),
        ensures
            match r {
                Some(i) => {
                    &&& i < self.rooms@.len()
                    &&& self.rooms@[i as int].name@ == name@
                    &&& self@.rooms.contains_key(name@)
                    &&& self@.rooms[name@] == devices_map(self.rooms@[i as int].devices@)
                },
                None => !self@.rooms.contains_key(name@),
            },
    {
        for i in 0..self.rooms.len()
            invariant
                self.wf(),
                forall|k: int| 0 <= k < i ==> #[trigger] self.rooms@[k].name@ != name@,
        {
            if self.rooms[i].name == *name {
                proof {
                    lemma_keyed_at(self.rooms@, room_key(), room_val(), i as int);
                }
                return Some(i);
            }
        }
        proof {
            lemma_keyed_has(self.rooms@, room_key(), room_val(), name@);
            if self@.rooms.contains_key(name@) {
                let k = choose|k: int| 0 <= k < self.rooms@.len() && room_key()(self.rooms@[k]) == name@;
                assert(self.rooms@[k].name@ != name@);
            }
        }
        None
    }

    /// Where `device` of `room` sits, or the error that names what is missing.
    fn locate(&self, room_name: &str, device_name: &str) -> (r: Result<(usize, usize), SmartHouseError>)
        requires
            self.wf(),
        ensures
            match r {
                Ok((i, j)) => {
                    &&& i < self.rooms@.len()
                    &&& j < self.rooms@[i as int].devices@.len()
                    &&& self.rooms@[i as int].name@ == room_name@
                    &&& self.rooms@[i as int].devices@[j as int].name_spec() == device_name@
                    &&& has_device(self@, room_name@, device_name@)
                    &&& self@.rooms[room_name@] == devices_map(self.rooms@[i as int].devices@)
                    &&& self@.rooms[room_name@][device_name@] == self.rooms@[i as int].devices@[j as int].state()
                },
                Err(e) => {
                    ||| !self@.rooms.contains_key(room_name@) && e.kind == HouseErrorKind::RoomNotFound
                    ||| self@.rooms.contains_key(room_name@) && !self@.rooms[room_name@].contains_key(device_name@)
                        && e.kind == HouseErrorKind::DeviceNotFound
                },
            },
    {
        let room_key_s = room_name.to_owned();
        let i = match self.find_room(&room_key_s) {
            Some(i) => i,
            None => {
                return Err(SmartHouseError::of_kind(HouseErrorKind::RoomNotFound));
            },
        };
        let device_key_s = device_name.to_owned();
        let room = &self.rooms[i];
        assert(unique_keys(room.devices@, device_key()));
        match room.find_device(&device_key_s) {
            Some(j) => {
                proof {
                    lemma_keyed_at(room.devices@, device_key(), device_val(), j as int);
                }
                Ok((i, j))
            },
            None => {
                proof {
                    lemma_keyed_has(room.devices@, device_key(), device_val(), device_name@);
                    if devices_map(room.devices@).contains_key(device_name@) {
                        let k = choose|k: int| 0 <= k < room.devices@.len() && device_key()(room.devices@[k]) == device_name@;
                        assert(room.devices@[k].name_spec() != device_name@);
                    }
                }
                Err(SmartHouseError::of_kind(HouseErrorKind::DeviceNotFound))
            },
        }
    }

    /// Changing only room `i`, keeping its name and unique device names,
    /// keeps the invariant and changes only that room's entry in the view.
    proof fn lemma_room_replaced(old_rooms: Seq<Room>, new_rooms: Seq<Room>, i: int)
        requires
            unique_keys(old_rooms, room_key()),
            forall|k: int| 0 <= k < old_rooms.len() ==> unique_keys(#[trigger] old_rooms[k].devices@, device_key()),
            0 <= i < old_rooms.len(),
            new_rooms.len() == old_rooms.len(),
            new_rooms[i].name@ == old_rooms[i].name@,
            unique_keys(new_rooms[i].devices@, device_key()),
            forall|k: int| 0 <= k < old_rooms.len() && k != i ==> new_rooms[k] == old_rooms[k],
        ensures
            unique_keys(new_rooms, room_key()),
            forall|k: int| 0 <= k < new_rooms.len() ==> unique_keys(#[trigger] new_rooms[k].devices@, device_key()),
            keyed(new_rooms, room_key(), room_val()) == keyed(old_rooms, room_key(), room_val()).insert(
                old_rooms[i].name@,
                devices_map(new_rooms[i].devices@),
            ),
    {
        assert(new_rooms =~= old_rooms.update(i, new_rooms[i]));
        lemma_keyed_update(old_rooms, room_key(), room_val(), i, new_rooms[i]);
    }

    pub fn switch_socket(&mut self, room_name: &str, device_name: &str, state: bool) -> (r: Result<bool, SmartHouseError>)
        requires
            old(self).wf(),
        ensures
            final(self).wf(),
            has_device(old(self)@, room_name@, device_name@) ==> r == Ok::<bool, SmartHouseError>(true)
                && final(self)@ == switched(old(self)@, room_name@, device_name@, state),
            !old(self)@.rooms.contains_key(room_name@) ==> (r matches Err(e) && e.kind
                == HouseErrorKind::RoomNotFound && final(self)@ == old(self)@),
            old(self)@.rooms.contains_key(room_name@) && !old(self)@.rooms[room_name@].contains_key(device_name@)
                ==> (r matches Err(e) && e.kind == HouseErrorKind::DeviceNotFound && final(self)@ == old(self)@),
    {
        let (i, j) = match self.locate(room_name, device_name) {
            Ok(found) => found,
            Err(e) => {
                return Err(e);
            },
        };
        let ghost old_rooms = self.rooms@;
        let ghost old_devices = self.rooms@[i as int].devices@;
        self.rooms[i].devices[j].switch_on_off(state);
        proof {
            let devices = self.rooms@[i as int].devices@;
            assert(devices =~= old_devices.update(j as int, devices[j as int]));
            assert(unique_keys(old_devices, device_key()));
            lemma_keyed_update(old_devices, device_key(), device_val(), j as int, devices[j as int]);
            Self::lemma_room_replaced(old_rooms, self.rooms@, i as int);
            assert(self@.rooms =~= switched(old(self)@, room_name@, device_name@, state).rooms);
        }
        Ok(true)
    }

    /// A fresh sample of the power that a socket draws, in thousandths of a
    /// unit; it is drawn anew on every call.
    pub fn get_socket_state(&self, room_name: &str, device_name: &str) -> (r: Result<u32, SmartHouseError>)
        requires
            self.wf(),
        ensures
            has_device(self@, room_name@, device_name@) && self@.rooms[room_name@][device_name@].kind
                == DeviceKind::Socket ==> (r matches Ok(p) && POWER_MIN <= p < POWER_LIMIT),
            has_device(self@, room_name@, device_name@) && self@.rooms[room_name@][device_name@].kind
                == DeviceKind::Thermometer ==> (r matches Err(e) && e.kind == HouseErrorKind::UnsupportedOperation),
            !self@.rooms.contains_key(room_name@) ==> (r matches Err(e) && e.kind == HouseErrorKind::RoomNotFound),
            self@.rooms.contains_key(room_name@) && !self@.rooms[room_name@].contains_key(device_name@)
                ==> (r matches Err(e) && e.kind == HouseErrorKind::DeviceNotFound),
    {
        match self.locate(room_name, device_name) {
            Ok((i, j)) => self.rooms[i].devices[j].get_consumed_power(),
            Err(e) => Err(e),
        }
    }

    /// A house with one empty room for each distinct name of `rooms_names`
    /// and a temperature of zero.
    pub fn new(name: &str, rooms_names: Vec<&str>) -> (r: Self)
        ensures
            r.wf(),
            r@.name == name@,
            r@.rooms == rooms_named(rooms_names@),
            r@.temperature == 0,
    {
        let mut house = SmartHouse { name: name.to_owned(), rooms: Vec::new(), remote_thermo: 0 };
        proof {
            assert(house@.rooms =~= rooms_named(rooms_names@.take(0)));
        }
        for i in 0..rooms_names.len()
            invariant
                house.wf(),
                house@.name == name@,
                house@.temperature == 0,
                house@.rooms == rooms_named(rooms_names@.take(i as int)),
        {
            house.add_room(rooms_names[i]);
            proof {
                let prefix = rooms_names@.take(i + 1);
                assert forall|k: Seq<char>| #[trigger] house@.rooms.contains_key(k) <==> rooms_named(prefix).contains_key(k) by {
                    if house@.rooms.contains_key(k) && k != rooms_names@[i as int]@ {
                        let j = choose|j: int| 0 <= j < i && rooms_names@.take(i as int)[j]@ == k;
                        assert(prefix[j] == rooms_names@.take(i as int)[j]);
                    }
                    if rooms_named(prefix).contains_key(k) {
                        let j = choose|j: int| 0 <= j < i + 1 && prefix[j]@ == k;
                        if j < i {
                            assert(rooms_names@.take(i as int)[j] == prefix[j]);
                        }
                    }
                    if k == rooms_names@[i as int]@ {
                        assert(prefix[i as int]@ == k);
                    }
                }
                assert(house@.rooms =~= rooms_named(prefix));
            }
        }
        assert(rooms_names@.take(rooms_names@.len() as int) =~= rooms_names@);
        house
    }

    /// The names of the rooms, each once, in no particular order.
    pub fn get_rooms(&self) -> (r: Vec<&str>)
        requires
            self.wf(),
        ensures
            lists_exactly(r@, self@.rooms.dom()),
    {
        let mut r: Vec<&str> = Vec::new();
        for i in 0..self.rooms.len()
            invariant
                r@.len() == i,
                forall|k: int| 0 <= k < i ==> (#[trigger] r@[k])@ == self.rooms@[k].name@,
        {
            r.push(self.rooms[i].name.as_str());
        }
        proof {
            assert forall|k: Seq<char>| self@.rooms.dom().contains(k) <==> exists|i: int| 0 <= i < r@.len() && (#[trigger] r@[i])@ == k by {
                lemma_keyed_has(self.rooms@, room_key(), room_val(), k);
                if self@.rooms.dom().contains(k) {
                    let i = choose|i: int| 0 <= i < self.rooms@.len() && room_key()(self.rooms@[i]) == k;
                    assert(r@[i]@ == k);
                }
                if exists|i: int| 0 <= i < r@.len() && (#[trigger] r@[i])@ == k {
                    let i = choose|i: int| 0 <= i < r@.len() && (#[trigger] r@[i])@ == k;
                    assert(room_key()(self.rooms@[i]) == k);
                }
            }
            assert forall|i: int, j: int| 0 <= i < r@.len() && 0 <= j < r@.len() && i != j implies (#[trigger] r@[i])@ != (#[trigger] r@[j])@ by {
                assert(room_key()(self.rooms@[i]) != room_key()(self.rooms@[j]));
            }
        }
        r
    }

    /// The names of the devices of a room, each once, in no particular
    /// order; `None` when there is no such room.
    pub fn get_devices(&self, room_name: &str) -> (r: Option<Vec<&str>>)
        requires
            self.wf(),
        ensures
            r is None <==> !self@.rooms.contains_key(room_name@),
            r matches Some(v) ==> lists_exactly(v@, self@.rooms[room_name@].dom()),
    {
        let key = room_name.to_owned();
        let i = match self.find_room(&key) {
            Some(i) => i,
            None => {
                return None;
            },
        };
        let devices = &self.rooms[i].devices;
        assert(unique_keys(devices@, device_key()));
        let mut r: Vec<&str> = Vec::new();
        for j in 0..devices.len()
            invariant
                r@.len() == j,
                forall|k: int| 0 <= k < j ==> (#[trigger] r@[k])@ == devices@[k].name_spec(),
        {
            r.push(devices[j].get_name());
        }
        proof {
            let m = devices_map(devices@);
            assert forall|k: Seq<char>| m.dom().contains(k) <==> exists|i: int| 0 <= i < r@.len() && (#[trigger] r@[i])@ == k by {
                lemma_keyed_has(devices@, device_key(), device_val(), k);
                if m.dom().contains(k) {
                    let i = choose|i: int| 0 <= i < devices@.len() && device_key()(devices@[i]) == k;
                    assert(r@[i]@ == k);
                }
                if exists|i: int| 0 <= i < r@.len() && (#[trigger] r@[i])@ == k {
                    let i = choose|i: int| 0 <= i < r@.len() && (#[trigger] r@[i])@ == k;
                    assert(device_key()(devices@[i]) == k);
                }
            }
            assert forall|i: int, j: int| 0 <= i < r@.len() && 0 <= j < r@.len() && i != j implies (#[trigger] r@[i])@ != (#[trigger] r@[j])@ by {
                assert(device_key()(devices@[i]) != device_key()(devices@[j]));
            }
        }
        Some(r)
    }

    /// Adds an empty room; a room of the same name is replaced.
    pub fn add_room(&mut self, room_name: &str)
        requires
            old(self).wf(),
        ensures
            final(self).wf(),
            final(self)@ == (HouseView { rooms: old(self)@.rooms.insert(room_name@, Map::empty()), ..old(self)@ }),
    {
        let key = room_name.to_owned();
        let fresh = Room { name: room_name.to_owned(), devices: Vec::new() };
        proof {
            assert(devices_map(fresh.devices@) =~= Map::empty());
        }
        match self.find_room(&key) {
            Some(i) => {
                let ghost old_rooms = self.rooms@;
                self.rooms[i] = fresh;
                proof {
                    Self::lemma_room_replaced(old_rooms, self.rooms@, i as int);
                }
            },
            None => {
                let ghost old_rooms = self.rooms@;
                proof {
                    lemma_keyed_push(old_rooms, room_key(), room_val(), fresh);
                }
                self.rooms.push(fresh);
            },
        }
    }

    pub fn remove_room(&mut self, room_name: &str) -> (r: Result<bool, SmartHouseError>)
        requires
            old(self).wf(),
        ensures
            final(self).wf(),
            old(self)@.rooms.contains_key(room_name@) ==> r == Ok::<bool, SmartHouseError>(true)
                && final(self)@ == (HouseView { rooms: old(self)@.rooms.remove(room_name@), ..old(self)@ }),
            !old(self)@.rooms.contains_key(room_name@) ==> (r matches Err(e) && e.kind
                == HouseErrorKind::RoomNotFound && final(self)@ == old(self)@),
    {
        let key = room_name.to_owned();
        match self.find_room(&key) {
            Some(i) => {
                let ghost old_rooms = self.rooms@;
                self.rooms.remove(i);
                proof {
                    lemma_keyed_remove(old_rooms, room_key(), room_val(), i as int);
                    assert forall|k: int| 0 <= k < self.rooms@.len() implies unique_keys(
                        #[trigger] self.rooms@[k].devices@,
                        device_key(),
                    ) by {
                        let k2 = if k < i { k } else { k + 1 };
                        assert(self.rooms@[k] == old_rooms[k2]);
                    }
                }
                Ok(true)
            },
            None => Err(SmartHouseError::of_kind(HouseErrorKind::RoomNotFound)),
        }
    }

    /// Adds a device whose kind its name gives: a name holding "Socket" makes
    /// a socket, else one holding "Thermo" makes a thermometer. A device of
    /// the same name is replaced.
    pub fn add_device(&mut self, room_name: &str, device_name: &str) -> (r: Result<bool, SmartHouseError>)
        requires
            old(self).wf(),
        ensures
            final(self).wf(),
            !old(self)@.rooms.contains_key(room_name@) ==> (r matches Err(e) && e.kind
                == HouseErrorKind::RoomNotFound && final(self)@ == old(self)@),
            old(self)@.rooms.contains_key(room_name@) && kind_for(device_name@) is None ==> (r matches Err(
                e,
            ) && e.kind == HouseErrorKind::UnknownDeviceKind && final(self)@ == old(self)@),
            old(self)@.rooms.contains_key(room_name@) && kind_for(device_name@) is Some ==> r == Ok::<
                bool,
                SmartHouseError,
            >(true) && final(self)@ == with_device(
                old(self)@,
                room_name@,
                device_name@,
                DeviceState { kind: kind_for(device_name@)->0, is_on: false },
            ),
    {
        let key = room_name.to_owned();
        let i = match self.find_room(&key) {
            Some(i) => i,
            None => {
                return Err(SmartHouseError::of_kind(HouseErrorKind::RoomNotFound));
            },
        };
        let name_chars = chars_of(device_name);
        let kind = if occurs(&chars_of("Socket"), &name_chars) {
            DeviceKind::Socket
        } else if occurs(&chars_of("Thermo"), &name_chars) {
            DeviceKind::Thermometer
        } else {
            return Err(SmartHouseError::of_kind(HouseErrorKind::UnknownDeviceKind));
        };
        let device = Device::new(kind, device_name);
        let device_key_s = device_name.to_owned();
        let ghost old_rooms = self.rooms@;
        let ghost old_devices = self.rooms@[i as int].devices@;
        assert(unique_keys(old_devices, device_key()));
        match self.rooms[i].find_device(&device_key_s) {
            Some(j) => {
                self.rooms[i].devices[j] = device;
                proof {
                    let devices = self.rooms@[i as int].devices@;
                    assert(devices =~= old_devices.update(j as int, device));
                    lemma_keyed_update(old_devices, device_key(), device_val(), j as int, device);
                }
            },
            None => {
                proof {
                    lemma_keyed_has(old_devices, device_key(), device_val(), device_name@);
                    if devices_map(old_devices).contains_key(device_name@) {
                        let k = choose|k: int| 0 <= k < old_devices.len() && device_key()(old_devices[k]) == device_name@;
                        assert(old_devices[k].name_spec() != device_name@);
                    }
                    lemma_keyed_push(old_devices, device_key(), device_val(), device);
                }
                self.rooms[i].devices.push(device);
            },
        }
        proof {
            Self::lemma_room_replaced(old_rooms, self.rooms@, i as int);
            assert(self@.rooms =~= with_device(
                old(self)@,
                room_name@,
                device_name@,
                DeviceState { kind: kind_for(device_name@)->0, is_on: false },
            ).rooms);
        }
        Ok(true)
    }

    pub fn remove_device(&mut self, room_name: &str, device_name: &str) -> (r: Result<bool, SmartHouseError>)
        requires
            old(self).wf(),
        ensures
            final(self).wf(),
            has_device(old(self)@, room_name@, device_name@) ==> r == Ok::<bool, SmartHouseError>(true)
                && final(self)@ == (HouseView {
                    rooms: old(self)@.rooms.insert(room_name@, old(self)@.rooms[room_name@].remove(device_name@)),
                    ..old(self)@
                }),
            !old(self)@.rooms.contains_key(room_name@) ==> (r matches Err(e) && e.kind
                == HouseErrorKind::RoomNotFound && final(self)@ == old(self)@),
            old(self)@.rooms.contains_key(room_name@) && !old(self)@.rooms[room_name@].contains_key(device_name@)
                ==> (r matches Err(e) && e.kind == HouseErrorKind::DeviceNotFound && final(self)@ == old(self)@),
    {
        let (i, j) = match self.locate(room_name, device_name) {
            Ok(found) => found,
            Err(e) => {
                return Err(e);
            },
        };
        let ghost old_rooms = self.rooms@;
        let ghost old_devices = self.rooms@[i as int].devices@;
        assert(unique_keys(old_devices, device_key()));
        self.rooms[i].devices.remove(j);
        proof {
            lemma_keyed_remove(old_devices, device_key(), device_val(), j as int);
            Self::lemma_room_replaced(old_rooms, self.rooms@, i as int);
            assert(self@.rooms =~= old(self)@.rooms.insert(room_name@, old(self)@.rooms[room_name@].remove(device_name@)));
        }
        Ok(true)
    }

    pub fn set_thermo_data(&mut self, data: u32)
        requires
            is_finite_bits(data),
            old(self).wf(),
        ensures
            final(self).wf(),
            final(self)@ == (HouseView { temperature: data, ..old(self)@ }),
    {
        self.remote_thermo = data;
    }

    /// The last fused temperature, as IEEE-754 bits.
    pub fn get_thermo_data(&self) -> (r: u32)
        ensures
            r == self@.temperature,
            self.wf() ==> is_finite_bits(r),
    {
        self.remote_thermo
    }

    pub fn create_report<P: DeviceInfoProvider>(
        &self,
        device_info_provider: &P,
        room_name: &str,
        device_name: &str,
    ) -> (r: Result<String, SmartHouseError>)
        ensures
            match r {
                Ok(s) => device_info_provider.device_state(room_name@, device_name@) == Ok::<Seq<char>, HouseErrorKind>(s@),
                Err(e) => device_info_provider.device_state(room_name@, device_name@) == Err::<Seq<char>, HouseErrorKind>(e.kind),
            },
    {
        device_info_provider.get_device_state(room_name, device_name)
    }
}

} // verus!
