use smart_home_backend::api::device::{add_device, delete_device, fetch_device, AddDeviceRequest};
use smart_home_backend::api::device_query::{get_device_status, get_room_status};
use smart_home_backend::api::reply::{Body, Status};
use smart_home_backend::api::room::{add_room, delete_room, fetch_room, fetch_rooms};
use smart_home_backend::repository::room::InMemoryRepository;

fn socket_request(address: &str) -> AddDeviceRequest {
    AddDeviceRequest {
        device_name: "socket".to_string(),
        address: address.to_string(),
        device_type: "tcp_socket".to_string(),
    }
}

#[test]
fn statuses_have_their_codes() {
    assert_eq!(Status::Success.code(), 200);
    assert_eq!(Status::BadRequest.code(), 400);
    assert_eq!(Status::NotFound.code(), 404);
    assert_eq!(Status::Conflict.code(), 409);
    assert_eq!(Status::InternalServerError.code(), 500);
}

#[test]
fn room_replies() {
    let mut repo = InMemoryRepository::new();
    let reply = add_room("kitchen".to_string(), &mut repo);
    assert_eq!(reply.status, Status::Success);
    match reply.body {
        Body::Json(res) => assert_eq!(res.name, "kitchen"),
        _ => unreachable!(),
    }
    let reply = add_room("kitchen".to_string(), &mut repo);
    assert_eq!(reply.status, Status::Conflict);
    match reply.body {
        Body::Text(text) => assert_eq!(text, "room with this name already exists"),
        _ => unreachable!(),
    }
    let reply = add_room(String::new(), &mut repo);
    assert_eq!(reply.status, Status::BadRequest);
    match reply.body {
        Body::Text(text) => assert_eq!(text, "wrong format for room name"),
        _ => unreachable!(),
    }
    let reply = fetch_room("attic".to_string(), &repo);
    assert_eq!(reply.status, Status::NotFound);
    match reply.body {
        Body::Text(text) => assert_eq!(text, "room not found"),
        _ => unreachable!(),
    }
    let reply = fetch_rooms(&repo);
    assert_eq!(reply.status, Status::Success);
    match reply.body {
        Body::Json(rooms) => {
            assert_eq!(rooms.len(), 1);
            assert_eq!(rooms[0].name, "kitchen");
            assert!(rooms[0].devices.is_empty());
        }
        _ => unreachable!(),
    }
    let reply = delete_room("kitchen".to_string(), &mut repo);
    assert_eq!(reply.status, Status::Success);
    assert!(matches!(reply.body, Body::Empty));
    let reply = delete_room("kitchen".to_string(), &mut repo);
    assert_eq!(reply.status, Status::NotFound);
    let mut repo = repo.with_error();
    let reply = add_room("kitchen".to_string(), &mut repo);
    assert_eq!(reply.status, Status::InternalServerError);
    assert!(matches!(reply.body, Body::Empty));
    assert_eq!(fetch_rooms(&repo).status, Status::InternalServerError);
}

#[test]
fn device_replies() {
    let mut repo = InMemoryRepository::new();
    add_room("kitchen".to_string(), &mut repo);
    let reply = add_device("kitchen".to_string(), socket_request("127.0.0.1:8888"), &mut repo);
    assert_eq!(reply.status, Status::Success);
    match reply.body {
        Body::Json(res) => {
            assert_eq!(res.room_name, "kitchen");
            assert_eq!(res.device_name, "socket");
            assert_eq!(res.address, "127.0.0.1:8888");
            assert_eq!(res.device_type, "tcp_socket");
        }
        _ => unreachable!(),
    }
    let reply = add_device("kitchen".to_string(), socket_request("127.0.0.1:8889"), &mut repo);
    assert_eq!(reply.status, Status::Conflict);
    match reply.body {
        Body::Text(text) => {
            assert_eq!(text, "device with this name or IP address already exists")
        }
        _ => unreachable!(),
    }
    let reply = add_device("attic".to_string(), socket_request("127.0.0.1:8889"), &mut repo);
    assert_eq!(reply.status, Status::Conflict);
    let reply = add_device("kitchen".to_string(), socket_request("127.0.0.1"), &mut repo);
    assert_eq!(reply.status, Status::BadRequest);
    match reply.body {
        Body::Text(text) => assert_eq!(text, "Wrong device format"),
        _ => unreachable!(),
    }
    let reply = fetch_room("kitchen".to_string(), &repo);
    match reply.body {
        Body::Json(room) => {
            assert_eq!(room.devices.len(), 1);
            assert_eq!(room.devices[0].name, "socket");
            assert_eq!(room.devices[0].address, "127.0.0.1:8888");
            assert_eq!(room.devices[0].device_type, "tcp_socket");
        }
        _ => unreachable!(),
    }
    let reply = fetch_device(("kitchen".to_string(), "socket".to_string()), &repo);
    assert_eq!(reply.status, Status::Success);
    let reply = fetch_device(("kitchen".to_string(), "lamp".to_string()), &repo);
    assert_eq!(reply.status, Status::NotFound);
    match reply.body {
        Body::Text(text) => assert_eq!(text, "requested device or room were not found"),
        _ => unreachable!(),
    }
    let reply = fetch_device(("kitchen".to_string(), String::new()), &repo);
    assert_eq!(reply.status, Status::BadRequest);
    let reply = delete_device(("kitchen".to_string(), "socket".to_string()), &mut repo);
    assert_eq!(reply.status, Status::Success);
    assert!(matches!(reply.body, Body::Empty));
    let reply = delete_device(("kitchen".to_string(), "socket".to_string()), &mut repo);
    assert_eq!(reply.status, Status::NotFound);
    let mut repo = repo.with_error();
    let reply = delete_device(("kitchen".to_string(), "socket".to_string()), &mut repo);
    assert_eq!(reply.status, Status::InternalServerError);
    let reply = fetch_device(("kitchen".to_string(), "socket".to_string()), &repo);
    assert_eq!(reply.status, Status::InternalServerError);
}

#[test]
fn status_replies() {
    let mut repo = InMemoryRepository::new();
    add_room("kitchen".to_string(), &mut repo);
    add_device("kitchen".to_string(), socket_request("127.0.0.1:8888"), &mut repo);
    let step = get_device_status(("kitchen".to_string(), "socket".to_string()), &repo);
    assert!(step.is_ok());
    match get_device_status(("kitchen".to_string(), "lamp".to_string()), &repo) {
        Err(reply) => {
            assert_eq!(reply.status, Status::NotFound);
            assert!(matches!(reply.body, Body::Empty));
        }
        _ => unreachable!(),
    }
    match get_device_status((String::new(), "lamp".to_string()), &repo) {
        Err(reply) => assert_eq!(reply.status, Status::BadRequest),
        _ => unreachable!(),
    }
    assert_eq!(get_room_status("kitchen".to_string(), &repo).unwrap().len(), 1);
    match get_room_status("attic".to_string(), &repo) {
        Err(reply) => assert_eq!(reply.status, Status::NotFound),
        _ => unreachable!(),
    }
    let repo = repo.with_error();
    match get_room_status("kitchen".to_string(), &repo) {
        Err(reply) => assert_eq!(reply.status, Status::InternalServerError),
        _ => unreachable!(),
    }
}
