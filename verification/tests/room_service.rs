use smart_home_backend::domain::entity::RoomName;
use smart_home_backend::domain::service::device::{add_device, AddRequest};
use smart_home_backend::domain::service::room::{
    add_room, delete_room, fetch_room, fetch_rooms, DeviceResponse, Error, RoomRequest,
    RoomResponse,
};
use smart_home_backend::repository::room::InMemoryRepository;

#[test]
fn add_room_returns_bad_request_error_on_invalid_input() {
    // invalid input is empty room name
    let mut repo = InMemoryRepository::new();
    let request = RoomRequest {
        name: String::new(),
    };
    match add_room(&mut repo, request) {
        Err(Error::BadRequest) => {}
        _ => unreachable!(),
    };
}

#[test]
fn add_room_returns_conflict_error_if_room_already_exists() {
    let mut repo = InMemoryRepository::new();
    repo.add_room(RoomName::kitchen()).ok();

    let request = RoomRequest {
        name: RoomName::kitchen().into(),
    };
    match add_room(&mut repo, request) {
        Err(Error::Conflict) => {}
        _ => unreachable!(),
    };
}

#[test]
fn add_room_returns_unknown_error_if_if_repo_errors_unexpectidly() {
    let mut repo = InMemoryRepository::new().with_error();
    let request = RoomRequest {
        name: RoomName::kitchen().into(),
    };
    match add_room(&mut repo, request) {
        Err(Error::Unknown) => {}
        _ => unreachable!(),
    };
}

#[test]
fn add_room_returns_empty_room_on_success() {
    let mut repo = InMemoryRepository::new();
    let request = RoomRequest {
        name: RoomName::kitchen().into(),
    };
    match add_room(&mut repo, request) {
        Ok(result) => {
            assert_eq!(result.name, String::from(RoomName::kitchen()));
            assert_eq!(result.devices, Vec::new());
        }
        _ => unreachable!(),
    };
}

#[test]
fn fetch_room_returns_not_found_error_if_repo_doesnt_contain_room() {
    let repo = InMemoryRepository::new();
    let request = RoomRequest {
        name: RoomName::kitchen().into(),
    };
    match fetch_room(&repo, request) {
        Err(Error::NotFound) => {}
        _ => unreachable!(),
    };
}

#[test]
fn fetch_room_returns_unknown_error_if_repo_errors_unexpectidly() {
    let repo = InMemoryRepository::new().with_error();
    let request = RoomRequest {
        name: RoomName::kitchen().into(),
    };
    match fetch_room(&repo, request) {
        Err(Error::Unknown) => {}
        _ => unreachable!(),
    };
}

#[test]
fn fetch_room_returns_room_on_success() {
    let mut repo = InMemoryRepository::new();
    repo.add_room(RoomName::kitchen()).ok();
    repo.add_room(RoomName::bathroom()).ok();

    let request = RoomRequest {
        name: RoomName::kitchen().into(),
    };
    match fetch_room(&repo, request) {
        Ok(result) => {
            assert_eq!(result.name, String::from(RoomName::kitchen()));
            assert_eq!(result.devices, Vec::new());
        }
        _ => unreachable!(),
    };
}

#[test]
fn fetch_rooms_returns_zero_rooms() {
    let repo = InMemoryRepository::new();

    match fetch_rooms(&repo) {
        Ok(result) => assert_eq!(result, vec![]),
        _ => unreachable!(),
    };
}

#[test]
fn fetch_rooms_returns_two_rooms() {
    let mut repo = InMemoryRepository::new();
    repo.add_room(RoomName::kitchen()).ok();
    repo.add_room(RoomName::bathroom()).ok();

    match fetch_rooms(&repo) {
        Ok(result) => assert_eq!(
            result,
            vec![
                RoomResponse {
                    name: "kitchen".to_string(),
                    devices: vec![]
                },
                RoomResponse {
                    name: "bathroom".to_string(),
                    devices: vec![]
                }
            ]
        ),
        _ => unreachable!(),
    };
}

#[test]
fn delete_room_errors_if_room_doesnt_exist() {
    let mut repo = InMemoryRepository::new();
    let request = RoomRequest {
        name: RoomName::kitchen().into(),
    };
    match delete_room(&mut repo, request) {
        Err(Error::NotFound) => {}
        _ => unreachable!(),
    };
}

#[test]
fn delete_room_deletes_room() {
    let mut repo = InMemoryRepository::new();
    repo.add_room(RoomName::kitchen()).ok();
    let request = RoomRequest {
        name: RoomName::kitchen().into(),
    };
    delete_room(&mut repo, request).ok();

    match fetch_rooms(&repo) {
        Ok(result) => assert_eq!(result, vec![]),
        _ => unreachable!(),
    };
}

#[test]
fn fetch_room_shows_devices_in_the_order_added() {
    let mut repo = InMemoryRepository::new();
    repo.add_room(RoomName::kitchen()).ok();
    add_device(
        &mut repo,
        AddRequest::new("kitchen", "socket", "127.0.0.1:8888", "tcp_socket"),
    )
    .ok();
    add_device(
        &mut repo,
        AddRequest::new("kitchen", "thermo", "192.168.1.20:9", "udp_thermo"),
    )
    .ok();
    let request = RoomRequest {
        name: "kitchen".to_string(),
    };
    let room = fetch_room(&repo, request).ok().unwrap();
    assert_eq!(
        room,
        RoomResponse {
            name: "kitchen".to_string(),
            devices: vec![
                DeviceResponse {
                    name: "socket".to_string(),
                    address: "127.0.0.1:8888".to_string(),
                    device_type: "tcp_socket".to_string(),
                },
                DeviceResponse {
                    name: "thermo".to_string(),
                    address: "192.168.1.20:9".to_string(),
                    device_type: "udp_thermo".to_string(),
                },
            ],
        }
    );
}

#[test]
fn fetch_rooms_returns_unknown_error_if_repo_errors() {
    let repo = InMemoryRepository::new().with_error();
    assert!(matches!(fetch_rooms(&repo), Err(Error::Unknown)));
}

#[test]
fn delete_room_returns_unknown_error_if_repo_errors() {
    let mut repo = InMemoryRepository::new().with_error();
    let request = RoomRequest {
        name: "kitchen".to_string(),
    };
    assert!(matches!(delete_room(&mut repo, request), Err(Error::Unknown)));
}

#[test]
fn delete_room_returns_bad_request_on_empty_name() {
    let mut repo = InMemoryRepository::new();
    let request = RoomRequest {
        name: String::new(),
    };
    assert!(matches!(delete_room(&mut repo, request), Err(Error::BadRequest)));
    let request = RoomRequest {
        name: String::new(),
    };
    assert!(matches!(fetch_room(&repo, request), Err(Error::BadRequest)));
}
