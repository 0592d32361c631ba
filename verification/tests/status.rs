use smart_home_backend::domain::address::SocketAddress;
use smart_home_backend::domain::client::{get_thermo_status, ClientError};
use smart_home_backend::domain::entity::{DeviceType, RoomName};
use smart_home_backend::domain::service::device::{add_device, AddRequest};
use smart_home_backend::domain::service::device_query::{
    get_device_status, get_device_status_message, get_room_status, status_step, StatusError,
    StatusRequest, StatusStep,
};
use smart_home_backend::repository::room::InMemoryRepository;

fn home() -> InMemoryRepository {
    let mut repo = InMemoryRepository::new();
    repo.add_room(RoomName::kitchen()).unwrap();
    add_device(
        &mut repo,
        AddRequest::new("kitchen", "socket", "127.0.0.1:8888", "tcp_socket"),
    )
    .unwrap();
    add_device(
        &mut repo,
        AddRequest::new("kitchen", "thermo", "127.0.0.1:9999", "udp_thermo"),
    )
    .unwrap();
    repo
}

#[test]
fn client_errors_are_written_with_their_kind() {
    assert_eq!(
        ClientError::IoError("broken pipe".to_string()).to_string(),
        "IoError: broken pipe"
    );
    assert_eq!(
        ClientError::ConnectionError("refused".to_string()).to_string(),
        "ConnectionError: refused"
    );
    assert_eq!(
        ClientError::Unknown("what".to_string()).to_string(),
        "UnknownError: what"
    );
}

#[test]
fn thermometers_are_not_supported() {
    let addr = SocketAddress::parse("127.0.0.1:9999").unwrap();
    match get_thermo_status(addr) {
        Err(ClientError::Unknown(detail)) => {
            assert_eq!(detail, "UDP Thermomemter is not supported")
        }
        _ => unreachable!(),
    }
}

#[test]
fn failed_query_is_reported_as_a_message() {
    assert_eq!(
        get_device_status_message(Ok("{\"enabled\":false,\"power\":0.0}\n".to_string())),
        "{\"enabled\":false,\"power\":0.0}\n"
    );
    assert_eq!(
        get_device_status_message(Err(ClientError::ConnectionError(
            "Connection refused".to_string()
        ))),
        "ConnectionError: Connection refused"
    );
}

#[test]
fn socket_is_to_be_asked_and_thermometer_is_settled() {
    let addr = SocketAddress::parse("127.0.0.1:8888").unwrap();
    let step = status_step(
        "kitchen".to_string(),
        "socket".to_string(),
        addr,
        DeviceType::TcpSocket,
    );
    assert_eq!(step.address(), Some(addr));
    let response = step.finish(Ok("on".to_string()));
    assert_eq!(response.room_id, "kitchen");
    assert_eq!(response.device_id, "socket");
    assert_eq!(response.message, "on");

    let step = status_step(
        "kitchen".to_string(),
        "thermo".to_string(),
        addr,
        DeviceType::UdpThermo,
    );
    assert_eq!(step.address(), None);
    let response = step.finish(Ok("left aside".to_string()));
    assert_eq!(response.room_id, "kitchen");
    assert_eq!(response.device_id, "thermo");
    assert_eq!(
        response.message,
        "UnknownError: UDP Thermomemter is not supported"
    );
}

#[test]
fn device_status_looks_the_device_up() {
    let repo = home();
    let request = StatusRequest {
        room_id: "kitchen".to_string(),
        device_id: "socket".to_string(),
    };
    match get_device_status(request, &repo) {
        Ok(StatusStep::AskSocket {
            room_id,
            device_id,
            address,
        }) => {
            assert_eq!(room_id, "kitchen");
            assert_eq!(device_id, "socket");
            assert_eq!(address.to_string(), "127.0.0.1:8888");
        }
        _ => unreachable!(),
    }
    let request = StatusRequest {
        room_id: "kitchen".to_string(),
        device_id: "thermo".to_string(),
    };
    match get_device_status(request, &repo) {
        Ok(StatusStep::Done(response)) => {
            assert_eq!(
                response.message,
                "UnknownError: UDP Thermomemter is not supported"
            );
        }
        _ => unreachable!(),
    }
}

#[test]
fn device_status_errors() {
    let repo = home();
    let request = StatusRequest {
        room_id: String::new(),
        device_id: "socket".to_string(),
    };
    assert_eq!(
        get_device_status(request, &repo).err(),
        Some(StatusError::BadRequest)
    );
    let request = StatusRequest {
        room_id: "kitchen".to_string(),
        device_id: String::new(),
    };
    assert_eq!(
        get_device_status(request, &repo).err(),
        Some(StatusError::BadRequest)
    );
    let request = StatusRequest {
        room_id: "kitchen".to_string(),
        device_id: "lamp".to_string(),
    };
    assert_eq!(
        get_device_status(request, &repo).err(),
        Some(StatusError::NotFound)
    );
    let repo = repo.with_error();
    let request = StatusRequest {
        room_id: "kitchen".to_string(),
        device_id: "socket".to_string(),
    };
    assert_eq!(
        get_device_status(request, &repo).err(),
        Some(StatusError::Unknown)
    );
}

#[test]
fn room_status_has_one_step_for_each_device_in_order() {
    let repo = home();
    let steps = get_room_status("kitchen".to_string(), &repo).unwrap();
    assert_eq!(steps.len(), 2);
    assert!(steps[0].address().is_some());
    assert!(steps[1].address().is_none());
    let messages: Vec<String> = steps
        .into_iter()
        .map(|s| s.finish(Err(ClientError::IoError("timed out".to_string()))).message)
        .collect();
    assert_eq!(
        messages,
        vec![
            "IoError: timed out",
            "UnknownError: UDP Thermomemter is not supported"
        ]
    );
    assert_eq!(
        get_room_status(String::new(), &repo).err(),
        Some(StatusError::BadRequest)
    );
    assert_eq!(
        get_room_status("attic".to_string(), &repo).err(),
        Some(StatusError::NotFound)
    );
    let repo = repo.with_error();
    assert_eq!(
        get_room_status("kitchen".to_string(), &repo).err(),
        Some(StatusError::Unknown)
    );
}
