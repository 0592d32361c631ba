use crate::domain::address::{parse_socket_address, socket_address_text, SocketAddress};
use crate::domain::entity::{
    device_type_of, device_type_token, DeviceInfo, DeviceInfoView, DeviceName, DeviceType,
    RoomName,
};
use crate::repository::room::{
    can_add_device, device_in_room, device_index, has_device_in_room, registry_wf, room_index,
    with_device, without_device, DeleteError, FetchError, InMemoryRepository, InsertError,
};
use vstd::prelude::*;

verus! {

/// A device to add, as text.
pub struct AddRequest {
    pub room_name: String,
    pub device_name: String,
    pub address: String,
    pub device_type: String,
}

/// A device to look up or to remove, as text.
pub struct FetchRequest {
    pub room_name: String,
    pub device_name: String,
}

/// A device of the registry, as text.
#[derive(Debug)]
pub struct Response {
    pub room_name: String,
    pub device_name: String,
    pub address: String,
    pub device_type: String,
}

/// Why a request about a device was refused.
#[derive(Clone, Copy, Debug, PartialEq, Eq, Structural)]
pub enum Error {
    BadRequest,
    Conflict,
    Unknown,
    NotFound,
}

/// The device that a request describes, where its name is not empty, its address is
/// the text of a socket address of either family and its type is a known token.
pub open spec fn requested_device(request: AddRequest) -> Option<DeviceInfoView> {
    if request.device_name@.len() == 0 {
        None
    } else {
        match (parse_socket_address(request.address@), device_type_of(request.device_type@)) {
            (Some(address), Some(device_type)) => Some(
                DeviceInfoView { name: request.device_name@, address, device_type },
            ),
            _ => None,
        }
    }
}

/// The request names a room and describes a device.
pub open spec fn add_request_valid(request: AddRequest) -> bool {
    request.room_name@.len() > 0 && requested_device(request).is_some()
}

/// The request names a room and a device.
pub open spec fn fetch_request_valid(request: FetchRequest) -> bool {
    request.room_name@.len() > 0 && request.device_name@.len() > 0
}

/// The response shows the device in the room of that name.
pub open spec fn response_shows(
    response: Response,
    room_name: Seq<char>,
    device: DeviceInfoView,
) -> bool {
    &&& response.room_name@ == room_name
    &&& response.device_name@ == device.name
    &&& response.address@ == socket_address_text(device.address)
    &&& response.device_type@ == device_type_token(device.device_type)
}

impl AddRequest {
    /// A request of these four texts.
    pub fn new(room_name: &str, device_name: &str, address: &str, device_type: &str) -> (r:
        AddRequest)
        ensures
            r.room_name@ == room_name@,
            r.device_name@ == device_name@,
            r.address@ == address@,
            r.device_type@ == device_type@,
    {
        AddRequest {
            room_name: String::from_str(room_name),
            device_name: String::from_str(device_name),
            address: String::from_str(address),
            device_type: String::from_str(device_type),
        }
    }
}

/// Checks the request and adds the device that it describes to the room that it names.
///
/// A request that is not valid is refused with `BadRequest` before the registry is
/// asked. A device that the registry refuses, also for want of the room, gives
/// `Conflict`.
pub fn add_device(repo: &mut InMemoryRepository, request: AddRequest) -> (r: Result<
    Response,
    Error,
>)
    ensures
        final(repo).failing() == old(repo).failing(),
        registry_wf(final(repo)@),
        match r {
            Ok(response) => {
                &&& add_request_valid(request)
                &&& !old(repo).failing()
                &&& can_add_device(
                    old(repo)@,
                    request.room_name@,
                    requested_device(request).unwrap(),
                )
                &&& final(repo)@ == with_device(
                    old(repo)@,
                    room_index(old(repo)@, request.room_name@),
                    requested_device(request).unwrap(),
                )
                &&& response_shows(
                    response,
                    request.room_name@,
                    requested_device(request).unwrap(),
                )
            },
            Err(Error::BadRequest) => !add_request_valid(request) && final(repo)@ == old(repo)@,
            Err(Error::Unknown) => {
                &&& add_request_valid(request)
                &&& old(repo).failing()
                &&& final(repo)@ == old(repo)@
            },
            Err(Error::Conflict) => {
                &&& add_request_valid(request)
                &&& !old(repo).failing()
                &&& !can_add_device(
                    old(repo)@,
                    request.room_name@,
                    requested_device(request).unwrap(),
                )
                &&& final(repo)@ == old(repo)@
            },
            Err(Error::NotFound) => false,
        },
{
    repo.well_formedness();
    let AddRequest { room_name, device_name, address, device_type } = request;
    let room_name = match RoomName::try_from(room_name) {
        Ok(name) => name,
        Err(_) => { return Err(Error::BadRequest); },
    };
    let name = DeviceName::try_from(device_name);
    let address = SocketAddress::parse(address.as_str());
    let device_type = DeviceType::try_from(device_type);
    match (name, address, device_type) {
        (Ok(name), Some(address), Ok(device_type)) => {
            let device_info = DeviceInfo { name, address, device_type };
            match repo.add_device(room_name.clone(), device_info) {
                Ok(device_info) => Ok(
                    Response {
                        room_name: room_name.into_string(),
                        device_name: device_info.name.into_string(),
                        address: device_info.address.to_string(),
                        device_type: device_info.device_type.token(),
                    },
                ),
                Err(InsertError::Conflict) => Err(Error::Conflict),
                Err(InsertError::Unknown) => Err(Error::Unknown),
            }
        },
        _ => Err(Error::BadRequest),
    }
}

/// Checks the request and looks the device up.
pub fn fetch_device(repo: &InMemoryRepository, request: FetchRequest) -> (r: Result<
    Response,
    Error,
>)
    ensures
        match r {
            Ok(response) => {
                &&& fetch_request_valid(request)
                &&& !repo.failing()
                &&& has_device_in_room(repo@, request.room_name@, request.device_name@)
                &&& response_shows(
                    response,
                    request.room_name@,
                    device_in_room(repo@, request.room_name@, request.device_name@),
                )
            },
            Err(Error::BadRequest) => !fetch_request_valid(request),
            Err(Error::Unknown) => fetch_request_valid(request) && repo.failing(),
            Err(Error::NotFound) => fetch_request_valid(request) && !repo.failing()
                && !has_device_in_room(repo@, request.room_name@, request.device_name@),
            Err(Error::Conflict) => false,
        },
{
    let FetchRequest { room_name, device_name } = request;
    let device_name = match DeviceName::try_from(device_name) {
        Ok(name) => name,
        Err(_) => { return Err(Error::BadRequest); },
    };
    let room_name = match RoomName::try_from(room_name) {
        Ok(name) => name,
        Err(_) => { return Err(Error::BadRequest); },
    };
    match repo.fetch_device(room_name.clone(), device_name) {
        Ok(device_info) => Ok(
            Response {
                room_name: room_name.into_string(),
                device_name: device_info.name.into_string(),
                address: device_info.address.to_string(),
                device_type: device_info.device_type.token(),
            },
        ),
        Err(FetchError::Unknown) => Err(Error::Unknown),
        Err(FetchError::NotFound) => Err(Error::NotFound),
    }
}

/// Checks the request and removes the device.
pub fn delete_device(repo: &mut InMemoryRepository, request: FetchRequest) -> (r: Result<
    (),
    Error,
>)
    ensures
        final(repo).failing() == old(repo).failing(),
        registry_wf(final(repo)@),
        match r {
            Ok(()) => {
                &&& fetch_request_valid(request)
                &&& !old(repo).failing()
                &&& has_device_in_room(old(repo)@, request.room_name@, request.device_name@)
                &&& final(repo)@ == without_device(
                    old(repo)@,
                    room_index(old(repo)@, request.room_name@),
                    device_index(
                        old(repo)@[room_index(old(repo)@, request.room_name@)].devices,
                        request.device_name@,
                    ),
                )
            },
            Err(Error::BadRequest) => !fetch_request_valid(request) && final(repo)@ == old(repo)@,
            Err(Error::Unknown) => {
                &&& fetch_request_valid(request)
                &&& old(repo).failing()
                &&& final(repo)@ == old(repo)@
            },
            Err(Error::NotFound) => {
                &&& fetch_request_valid(request)
                &&& !old(repo).failing()
                &&& !has_device_in_room(old(repo)@, request.room_name@, request.device_name@)
                &&& final(repo)@ == old(repo)@
            },
            Err(Error::Conflict) => false,
        },
{
    repo.well_formedness();
    let FetchRequest { room_name, device_name } = request;
    let device_name = match DeviceName::try_from(device_name) {
        Ok(name) => name,
        Err(_) => { return Err(Error::BadRequest); },
    };
    let room_name = match RoomName::try_from(room_name) {
        Ok(name) => name,
        Err(_) => { return Err(Error::BadRequest); },
    };
    match repo.delete_device(room_name, device_name) {
        Ok(_) => Ok(()),
        Err(DeleteError::Unknown) => Err(Error::Unknown),
        Err(DeleteError::NotFound) => Err(Error::NotFound),
    }
}

} // verus!
