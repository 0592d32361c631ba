use smart_home_backend::domain::address::SocketAddress;
use smart_home_backend::domain::entity::{DeviceInfo, DeviceName, DeviceType, RoomName};
use smart_home_backend::repository::room::{
    DeleteError, FetchError, InMemoryRepository, InsertError,
};

fn address(text: &str) -> SocketAddress {
    SocketAddress::parse(text).unwrap()
}

fn device(name: &str, at: &str, device_type: DeviceType) -> DeviceInfo {
    DeviceInfo {
        name: DeviceName::try_from(name.to_string()).unwrap(),
        address: address(at),
        device_type,
    }
}

fn room(name: &str) -> RoomName {
    RoomName::try_from(name.to_string()).unwrap()
}

#[test]
fn new_registry_has_no_rooms() {
    let repo = InMemoryRepository::new();
    assert!(repo.fetch_rooms().unwrap().is_empty());
}

#[test]
fn added_room_is_fetched_without_devices() {
    let mut repo = InMemoryRepository::new();
    let added = repo.add_room(RoomName::kitchen()).unwrap();
    assert_eq!(String::from(added.name), "kitchen");
    assert!(added.devices.is_empty());
    let fetched = repo.fetch_room(RoomName::kitchen()).unwrap();
    assert_eq!(fetched.name, RoomName::kitchen());
    assert_eq!(String::from(fetched.name), "kitchen");
    assert_eq!(fetched.devices.len(), 0);
}

#[test]
fn added_device_is_fetched_as_given() {
    let mut repo = InMemoryRepository::new();
    repo.add_room(RoomName::kitchen()).unwrap();
    let stored = repo
        .add_device(
            RoomName::kitchen(),
            device("socket", "127.0.0.1:8888", DeviceType::TcpSocket),
        )
        .unwrap();
    assert_eq!(stored.name, DeviceName::socket());
    let fetched = repo
        .fetch_device(RoomName::kitchen(), DeviceName::socket())
        .unwrap();
    assert_eq!(fetched.name, DeviceName::socket());
    assert_eq!(
        fetched.address,
        SocketAddress::V4 {
            a: 127,
            b: 0,
            c: 0,
            d: 1,
            port: 8888
        }
    );
    assert_eq!(fetched.device_type, DeviceType::TcpSocket);
}

#[test]
fn deleted_room_takes_its_devices_along() {
    let mut repo = InMemoryRepository::new();
    repo.add_room(RoomName::kitchen()).unwrap();
    repo.add_device(
        RoomName::kitchen(),
        device("socket", "127.0.0.1:8888", DeviceType::TcpSocket),
    )
    .unwrap();
    assert_eq!(repo.delete_room(RoomName::kitchen()), Ok(()));
    assert!(repo.fetch_rooms().unwrap().is_empty());
    assert_eq!(
        repo.fetch_device(RoomName::kitchen(), DeviceName::socket())
            .err(),
        Some(FetchError::NotFound)
    );
    // the address is free again
    repo.add_room(RoomName::bathroom()).unwrap();
    assert!(repo
        .add_device(
            RoomName::bathroom(),
            device("socket", "127.0.0.1:8888", DeviceType::TcpSocket),
        )
        .is_ok());
}

#[test]
fn add_device_into_missing_room_is_a_conflict() {
    let mut repo = InMemoryRepository::new();
    let r = repo.add_device(
        RoomName::kitchen(),
        device("socket", "127.0.0.1:8888", DeviceType::TcpSocket),
    );
    assert_eq!(r.err(), Some(InsertError::Conflict));
    repo.add_room(RoomName::bathroom()).unwrap();
    let r = repo.add_device(
        RoomName::kitchen(),
        device("socket", "127.0.0.1:8888", DeviceType::TcpSocket),
    );
    assert_eq!(r.err(), Some(InsertError::Conflict));
    assert!(repo
        .fetch_devices(RoomName::bathroom())
        .unwrap()
        .is_empty());
}

#[test]
fn no_two_devices_share_an_address_or_a_name_in_a_room() {
    let mut repo = InMemoryRepository::new();
    repo.add_room(RoomName::kitchen()).unwrap();
    repo.add_room(RoomName::bathroom()).unwrap();
    repo.add_device(
        RoomName::kitchen(),
        device("socket", "127.0.0.1:8888", DeviceType::TcpSocket),
    )
    .unwrap();
    // the same name in the same room
    let r = repo.add_device(
        RoomName::kitchen(),
        device("socket", "127.0.0.1:9999", DeviceType::TcpSocket),
    );
    assert_eq!(r.err(), Some(InsertError::Conflict));
    // the same address in another room
    let r = repo.add_device(
        RoomName::bathroom(),
        device("thermo", "127.0.0.1:8888", DeviceType::UdpThermo),
    );
    assert_eq!(r.err(), Some(InsertError::Conflict));
    // the same name in another room, at another address
    let r = repo.add_device(
        RoomName::bathroom(),
        device("socket", "127.0.0.1:9999", DeviceType::TcpSocket),
    );
    assert!(r.is_ok());
    assert_eq!(repo.fetch_devices(RoomName::kitchen()).unwrap().len(), 1);
    assert_eq!(repo.fetch_devices(RoomName::bathroom()).unwrap().len(), 1);
}

#[test]
fn add_room_twice_is_a_conflict() {
    let mut repo = InMemoryRepository::new();
    assert!(repo.add_room(room("hall")).is_ok());
    assert_eq!(
        repo.add_room(room("hall")).err(),
        Some(InsertError::Conflict)
    );
    assert_eq!(repo.fetch_rooms().unwrap().len(), 1);
}

#[test]
fn rooms_and_devices_keep_the_order_in_which_they_came() {
    let mut repo = InMemoryRepository::new();
    repo.add_room(room("c")).unwrap();
    repo.add_room(room("a")).unwrap();
    repo.add_room(room("b")).unwrap();
    repo.add_device(room("a"), device("z", "10.0.0.1:1", DeviceType::TcpSocket))
        .unwrap();
    repo.add_device(room("a"), device("y", "10.0.0.2:1", DeviceType::UdpThermo))
        .unwrap();
    repo.add_device(room("a"), device("x", "10.0.0.3:1", DeviceType::TcpSocket))
        .unwrap();
    let names: Vec<String> = repo
        .fetch_rooms()
        .unwrap()
        .into_iter()
        .map(|r| String::from(r.name))
        .collect();
    assert_eq!(names, vec!["c", "a", "b"]);
    let y = DeviceName::try_from("y".to_string()).unwrap();
    assert_eq!(repo.delete_device(room("a"), y), Ok(()));
    let devices: Vec<String> = repo
        .fetch_devices(room("a"))
        .unwrap()
        .into_iter()
        .map(|d| String::from(d.name))
        .collect();
    assert_eq!(devices, vec!["z", "x"]);
    assert_eq!(repo.delete_room(room("a")), Ok(()));
    let names: Vec<String> = repo
        .fetch_rooms()
        .unwrap()
        .into_iter()
        .map(|r| String::from(r.name))
        .collect();
    assert_eq!(names, vec!["c", "b"]);
}

#[test]
fn missing_rooms_and_devices_are_not_found() {
    let mut repo = InMemoryRepository::new();
    assert_eq!(
        repo.fetch_room(RoomName::kitchen()).err(),
        Some(FetchError::NotFound)
    );
    assert_eq!(
        repo.fetch_devices(RoomName::kitchen()).err(),
        Some(FetchError::NotFound)
    );
    assert_eq!(
        repo.delete_room(RoomName::kitchen()),
        Err(DeleteError::NotFound)
    );
    assert_eq!(
        repo.delete_device(RoomName::kitchen(), DeviceName::socket()),
        Err(DeleteError::NotFound)
    );
    repo.add_room(RoomName::kitchen()).unwrap();
    assert_eq!(
        repo.fetch_device(RoomName::kitchen(), DeviceName::socket())
            .err(),
        Some(FetchError::NotFound)
    );
    assert_eq!(
        repo.delete_device(RoomName::kitchen(), DeviceName::socket()),
        Err(DeleteError::NotFound)
    );
}

#[test]
fn failing_registry_answers_unknown_and_keeps_its_rooms() {
    let mut repo = InMemoryRepository::new();
    repo.add_room(RoomName::kitchen()).unwrap();
    let mut repo = repo.with_error();
    assert_eq!(
        repo.add_room(RoomName::bathroom()).err(),
        Some(InsertError::Unknown)
    );
    assert_eq!(
        repo.fetch_room(RoomName::kitchen()).err(),
        Some(FetchError::Unknown)
    );
    assert_eq!(repo.fetch_rooms().err(), Some(FetchError::Unknown));
    assert_eq!(
        repo.fetch_devices(RoomName::kitchen()).err(),
        Some(FetchError::Unknown)
    );
    assert_eq!(
        repo.fetch_device(RoomName::kitchen(), DeviceName::socket())
            .err(),
        Some(FetchError::Unknown)
    );
    assert_eq!(
        repo.delete_room(RoomName::kitchen()),
        Err(DeleteError::Unknown)
    );
    assert_eq!(
        repo.delete_device(RoomName::kitchen(), DeviceName::socket()),
        Err(DeleteError::Unknown)
    );
    // even for a room that does not exist
    assert_eq!(
        repo.add_device(
            RoomName::bathroom(),
            device("socket", "127.0.0.1:8888", DeviceType::TcpSocket),
        )
        .err(),
        Some(InsertError::Unknown)
    );
}

#[test]
fn fetched_room_is_a_copy() {
    let mut repo = InMemoryRepository::new();
    repo.add_room(RoomName::kitchen()).unwrap();
    let mut snapshot = repo.fetch_room(RoomName::kitchen()).unwrap();
    snapshot
        .devices
        .push(device("socket", "127.0.0.1:8888", DeviceType::TcpSocket));
    assert!(repo.fetch_devices(RoomName::kitchen()).unwrap().is_empty());
    let copy = snapshot.clone();
    assert_eq!(copy.devices.len(), 1);
    assert_eq!(copy.name, RoomName::kitchen());
}

#[test]
fn names_refuse_the_empty_text() {
    assert!(RoomName::try_from(String::new()).is_err());
    assert!(DeviceName::try_from(String::new()).is_err());
    assert_eq!(
        RoomName::try_from("kitchen".to_string()),
        Ok(RoomName::kitchen())
    );
    assert_eq!(
        DeviceName::try_from("thermo".to_string()),
        Ok(DeviceName::thermo())
    );
    assert_eq!(RoomName::bathroom().into_string(), "bathroom");
    assert_eq!(DeviceName::socket().into_string(), "socket");
    assert!(RoomName::kitchen() != RoomName::bathroom());
    assert!(DeviceName::socket().clone() == DeviceName::socket());
}

#[test]
fn device_types_are_read_from_their_tokens() {
    assert_eq!(
        DeviceType::try_from("tcp_socket".to_string()),
        Ok(DeviceType::TcpSocket)
    );
    assert_eq!(
        DeviceType::try_from("udp_thermo".to_string()),
        Ok(DeviceType::UdpThermo)
    );
    assert!(DeviceType::try_from("TCP_SOCKET".to_string()).is_err());
    assert!(DeviceType::try_from(String::new()).is_err());
    assert_eq!(DeviceType::TcpSocket.token(), "tcp_socket");
    assert_eq!(String::from(DeviceType::UdpThermo), "udp_thermo");
}

#[test]
fn default_registry_has_no_rooms() {
    let repo = InMemoryRepository::default();
    assert!(repo.fetch_rooms().unwrap().is_empty());
}

#[test]
fn ipv6_addresses_are_told_apart_like_the_others() {
    let mut repo = InMemoryRepository::new();
    repo.add_room(RoomName::kitchen()).unwrap();
    repo.add_room(RoomName::bathroom()).unwrap();
    repo.add_device(
        RoomName::kitchen(),
        device("socket", "[::1]:8888", DeviceType::TcpSocket),
    )
    .unwrap();
    // the same endpoint, written otherwise
    let r = repo.add_device(
        RoomName::bathroom(),
        device("thermo", "[0:0:0:0:0:0:0:1]:8888", DeviceType::UdpThermo),
    );
    assert_eq!(r.err(), Some(InsertError::Conflict));
    // another scope is another endpoint
    let r = repo.add_device(
        RoomName::bathroom(),
        device("thermo", "[::1%3]:8888", DeviceType::UdpThermo),
    );
    assert!(r.is_ok());
    // so is the IPv4 address of the same port
    let r = repo.add_device(
        RoomName::bathroom(),
        device("lamp", "127.0.0.1:8888", DeviceType::TcpSocket),
    );
    assert!(r.is_ok());
}
