use clever_house::device_info_provider::{
    BorrowingDeviceInfoProvider, OwningDeviceInfoProvider, SmartSocket, SmartThermometer,
};
use clever_house::errors::HouseErrorKind;
use clever_house::smart_house::SmartHouse;

#[test]
fn test_new() {
    let name = "SmartHouse";

    let room1 = "room1";
    let room2 = "room2";
    let room_names = vec![room1, room2];
    let mut smart_house = SmartHouse::new(name, room_names);

    smart_house.add_room("room3");
    smart_house.add_room("room4");
    assert!(smart_house.get_rooms().contains(&"room3")
        & smart_house.get_rooms().contains(&"room4"));

    smart_house.remove_room("room4").expect("error removing room");
    assert!(!smart_house.get_rooms().contains(&"room4"));

    smart_house.add_device("room3", "Socket1").expect("error adding device");
    smart_house.add_device("room3", "Socket2").expect("error adding device");
    smart_house.add_device("room3", "Thermo1").expect("error adding device");

    let actual_devices = smart_house.get_devices("room3").unwrap().join(" ");
    assert!(&actual_devices.contains("Socket1"));
    assert!(&actual_devices.contains("Socket2"));
    assert!(&actual_devices.contains("Thermo1"));
    smart_house.remove_device("room3", "Socket2").expect("error removing device");
    assert!(!&smart_house.get_devices("room3").unwrap().contains(&"Socket2"));

    let socket1 = SmartSocket { is_on: false, name: "socket1".to_string() };
    let socket2 = SmartSocket { is_on: false, name: "socket2".to_string() };
    let thermo1 = SmartThermometer { is_on: false, name: "thermo1".to_string() };

    let info_provider_1 = OwningDeviceInfoProvider {
        name: room1,
        sockets: vec![socket1, socket2],
        thermos: vec![thermo1],
    };

    let owning_report = smart_house.create_report(&(info_provider_1), "room1", "socket2");
    assert_eq!(owning_report.unwrap(), "socket2");

    let socket3 = SmartSocket { is_on: false, name: "socket3".to_string() };
    let thermo2 = SmartThermometer { is_on: false, name: "thermo2".to_string() };
    let thermo3 = SmartThermometer { is_on: false, name: "thermo3".to_string() };

    let info_provider_2 = BorrowingDeviceInfoProvider {
        name: room2,
        sockets: &vec![socket3],
        thermos: &vec![thermo2, thermo3],
    };
    let borrowing_report = smart_house.create_report(&(info_provider_2), "room2", "socket3");
    assert_eq!(borrowing_report.unwrap(), "socket3");

    let err_result = smart_house.create_report(&(info_provider_1), "room4", "socket4");
    let err = match err_result {
        Err(e) => e.source.message(),
        Ok(..) => "".to_string(),
    };
    assert_eq!(err, "InnerError has occured! no such room".to_string());

    let err_result1 = smart_house.create_report(&(info_provider_2), "room2", "socket4");
    let err1 = match err_result1 {
        Err(e) => e.source.message(),
        Ok(..) => "".to_string(),
    };
    assert_eq!(err1, "InnerError has occured! no such device".to_string());
}

#[test]
fn new_house_collapses_repeated_room_names() {
    let house = SmartHouse::new("h", vec!["a", "b", "a"]);
    let mut rooms = house.get_rooms();
    rooms.sort();
    assert_eq!(rooms, vec!["a", "b"]);
    assert_eq!(house.get_thermo_data(), 0);
}

#[test]
fn add_room_replaces_existing_room() {
    let mut house = SmartHouse::new("h", vec!["kitchen"]);
    house.add_device("kitchen", "Socket_A").unwrap();
    house.add_room("kitchen");
    assert_eq!(house.get_devices("kitchen").unwrap().len(), 0);
}

#[test]
fn remove_missing_room_is_room_not_found() {
    let mut house = SmartHouse::new("h", vec!["a"]);
    let err = house.remove_room("zzz").unwrap_err();
    assert_eq!(err.kind, HouseErrorKind::RoomNotFound);
    assert_eq!(house.get_rooms(), vec!["a"]);
}

#[test]
fn add_device_errors() {
    let mut house = SmartHouse::new("h", vec!["a"]);
    assert_eq!(house.add_device("nope", "Socket1").unwrap_err().kind, HouseErrorKind::RoomNotFound);
    assert_eq!(house.add_device("a", "Lamp").unwrap_err().kind, HouseErrorKind::UnknownDeviceKind);
    assert_eq!(house.add_device("a", "socket_lower").unwrap_err().kind, HouseErrorKind::UnknownDeviceKind);
    assert_eq!(house.get_devices("a").unwrap().len(), 0);
    assert!(house.get_devices("nope").is_none());
}

#[test]
fn remove_device_errors() {
    let mut house = SmartHouse::new("h", vec!["a"]);
    house.add_device("a", "Socket1").unwrap();
    assert_eq!(house.remove_device("b", "Socket1").unwrap_err().kind, HouseErrorKind::RoomNotFound);
    assert_eq!(house.remove_device("a", "Socket9").unwrap_err().kind, HouseErrorKind::DeviceNotFound);
    assert_eq!(house.remove_device("a", "Socket1").unwrap(), true);
    assert_eq!(house.get_devices("a").unwrap().len(), 0);
}

#[test]
fn switch_and_power_queries() {
    let mut house = SmartHouse::new("h", vec!["a"]);
    house.add_device("a", "Smart_Socket_1").unwrap();
    house.add_device("a", "Thermo_1").unwrap();
    assert_eq!(house.switch_socket("a", "Smart_Socket_1", true).unwrap(), true);
    assert_eq!(house.switch_socket("x", "Smart_Socket_1", true).unwrap_err().kind, HouseErrorKind::RoomNotFound);
    assert_eq!(house.switch_socket("a", "Nothing", true).unwrap_err().kind, HouseErrorKind::DeviceNotFound);
    let p = house.get_socket_state("a", "Smart_Socket_1").unwrap();
    assert!(5000 <= p && p < 10000);
    assert_eq!(house.get_socket_state("a", "Thermo_1").unwrap_err().kind, HouseErrorKind::UnsupportedOperation);
    assert_eq!(house.get_socket_state("a", "Nothing").unwrap_err().kind, HouseErrorKind::DeviceNotFound);
}

#[test]
fn error_messages() {
    let e = clever_house::errors::SmartHouseError::of_kind(HouseErrorKind::DeviceNotFound);
    assert_eq!(e.message(), "SmartHouseError :no such device");
}
