use crate::domain::address::socket_address_text;
use crate::domain::entity::{
    device_type_token, rooms_view, DeviceInfo, DeviceInfoView, RoomInfo, RoomInfoView, RoomName,
};
use crate::repository::room::{
    empty_room, has_room, registry_wf, room_index, DeleteError, FetchError, InMemoryRepository,
    InsertError,
};
use vstd::prelude::*;

verus! {

/// Why a request about a room was refused.
#[derive(Clone, Copy, Debug, PartialEq, Eq, Structural)]
pub enum Error {
    BadRequest,
    Conflict,
    Unknown,
    NotFound,
}

/// A room to add, to look up or to remove, as text.
#[derive(Debug)]
pub struct RoomRequest {
    pub name: String,
}

/// A room of the registry, as text.
#[derive(Debug, PartialEq, Eq)]
pub struct RoomResponse {
    pub name: String,
    pub devices: Vec<DeviceResponse>,
}

/// A device of a room, as text.
#[derive(Debug, PartialEq, Eq)]
pub struct DeviceResponse {
    pub name: String,
    pub address: String,
    pub device_type: String,
}

/// What a `DeviceResponse` holds.
pub ghost struct DeviceResponseView {
    pub name: Seq<char>,
    pub address: Seq<char>,
    pub device_type: Seq<char>,
}

/// What a `RoomResponse` holds.
pub ghost struct RoomResponseView {
    pub name: Seq<char>,
    pub devices: Seq<DeviceResponseView>,
}

impl View for DeviceResponse {
    type V = DeviceResponseView;

    open spec fn view(&self) -> DeviceResponseView {
        DeviceResponseView {
            name: self.name@,
            address: self.address@,
            device_type: self.device_type@,
        }
    }
}

/// What a list of device responses holds, in order.
pub open spec fn device_responses_view(devices: Seq<DeviceResponse>) -> Seq<DeviceResponseView> {
    devices.map_values(|d: DeviceResponse| d@)
}

impl View for RoomResponse {
    type V = RoomResponseView;

    open spec fn view(&self) -> RoomResponseView {
        RoomResponseView { name: self.name@, devices: device_responses_view(self.devices@) }
    }
}

/// What a list of room responses holds, in order.
pub open spec fn room_responses_view(rooms: Seq<RoomResponse>) -> Seq<RoomResponseView> {
    rooms.map_values(|r: RoomResponse| r@)
}

/// A device as text: its name, the text of its address, the token of its type.
pub open spec fn device_response_of(device: DeviceInfoView) -> DeviceResponseView {
    DeviceResponseView {
        name: device.name,
        address: socket_address_text(device.address),
        device_type: device_type_token(device.device_type),
    }
}

/// A room as text: its name, and its devices as text in the same order.
pub open spec fn room_response_of(room: RoomInfoView) -> RoomResponseView {
    RoomResponseView {
        name: room.name,
        devices: room.devices.map_values(|d: DeviceInfoView| device_response_of(d)),
    }
}

/// The request names a room.
pub open spec fn room_request_valid(request: RoomRequest) -> bool {
    request.name@.len() > 0
}

impl DeviceResponse {
    /// The device as text.
    pub fn from(inner: DeviceInfo) -> (r: DeviceResponse)
        ensures
            r@ == device_response_of(inner@),
    {
        DeviceResponse {
            name: inner.name.into_string(),
            address: inner.address.to_string(),
            device_type: inner.device_type.token(),
        }
    }
}

impl RoomResponse {
    /// The room as text.
    pub fn from(inner: RoomInfo) -> (r: RoomResponse)
        ensures
            r@ == room_response_of(inner@),
    {
        let RoomInfo { name, devices } = inner;
        let mut shown: Vec<DeviceResponse> = Vec::new();
        let mut i: usize = 0;
        while i < devices.len()
            invariant
                i <= devices.len(),
                shown@.len() == i,
                forall|k: int| 0 <= k < i ==> shown@[k]@ == device_response_of(devices@[k]@),
            decreases devices.len() - i,
        {
            shown.push(DeviceResponse::from(devices[i].clone()));
            i = i + 1;
        }
        let r = RoomResponse { name: name.into_string(), devices: shown };
        assert(r@.devices =~= room_response_of(inner@).devices);
        r
    }
}

/// Checks the request and adds a room without devices.
pub fn add_room(repo: &mut InMemoryRepository, req: RoomRequest) -> (r: Result<
    RoomResponse,
    Error,
>)
    ensures
        final(repo).failing() == old(repo).failing(),
        registry_wf(final(repo)@),
        match r {
            Ok(response) => {
                &&& room_request_valid(req)
                &&& !old(repo).failing()
                &&& !has_room(old(repo)@, req.name@)
                &&& final(repo)@ == old(repo)@.push(empty_room(req.name@))
                &&& response@ == room_response_of(empty_room(req.name@))
            },
            Err(Error::BadRequest) => !room_request_valid(req) && final(repo)@ == old(repo)@,
            Err(Error::Unknown) => room_request_valid(req) && old(repo).failing() && final(repo)@
                == old(repo)@,
            Err(Error::Conflict) => room_request_valid(req) && !old(repo).failing() && has_room(
                old(repo)@,
                req.name@,
            ) && final(repo)@ == old(repo)@,
            Err(Error::NotFound) => false,
        },
{
    repo.well_formedness();
    let room_name = match RoomName::try_from(req.name) {
        Ok(name) => name,
        Err(_) => { return Err(Error::BadRequest); },
    };
    match repo.add_room(room_name) {
        Ok(room_info) => {
            let response = RoomResponse { name: room_info.name.into_string(), devices: Vec::new() };
            assert(response@.devices =~= room_response_of(empty_room(req.name@)).devices);
            Ok(response)
        },
        Err(InsertError::Conflict) => Err(Error::Conflict),
        Err(InsertError::Unknown) => Err(Error::Unknown),
    }
}

/// Checks the request and shows the room of that name.
pub fn fetch_room(repo: &InMemoryRepository, req: RoomRequest) -> (r: Result<RoomResponse, Error>)
    ensures
        match r {
            Ok(response) => {
                &&& room_request_valid(req)
                &&& !repo.failing()
                &&& has_room(repo@, req.name@)
                &&& response@ == room_response_of(repo@[room_index(repo@, req.name@)])
            },
            Err(Error::BadRequest) => !room_request_valid(req),
            Err(Error::Unknown) => room_request_valid(req) && repo.failing(),
            Err(Error::NotFound) => room_request_valid(req) && !repo.failing() && !has_room(
                repo@,
                req.name@,
            ),
            Err(Error::Conflict) => false,
        },
{
    let room_name = match RoomName::try_from(req.name) {
        Ok(name) => name,
        Err(_) => { return Err(Error::BadRequest); },
    };
    match repo.fetch_room(room_name) {
        Ok(room_info) => Ok(RoomResponse::from(room_info)),
        Err(FetchError::NotFound) => Err(Error::NotFound),
        Err(FetchError::Unknown) => Err(Error::Unknown),
    }
}

/// Shows all rooms, in the order in which they were added.
pub fn fetch_rooms(repo: &InMemoryRepository) -> (r: Result<Vec<RoomResponse>, Error>)
    ensures
        match r {
            Ok(responses) => !repo.failing() && room_responses_view(responses@)
                == repo@.map_values(|room: RoomInfoView| room_response_of(room)),
            Err(e) => repo.failing() && e == Error::Unknown,
        },
{
    match repo.fetch_rooms() {
        Ok(room_infos) => {
            let mut responses: Vec<RoomResponse> = Vec::new();
            let mut i: usize = 0;
            while i < room_infos.len()
                invariant
                    i <= room_infos.len(),
                    responses@.len() == i,
                    forall|k: int|
                        0 <= k < i ==> responses@[k]@ == room_response_of(room_infos@[k]@),
                decreases room_infos.len() - i,
            {
                responses.push(RoomResponse::from(room_infos[i].clone()));
                i = i + 1;
            }
            assert(room_responses_view(responses@) =~= rooms_view(room_infos@).map_values(
                |room: RoomInfoView| room_response_of(room),
            ));
            Ok(responses)
        },
        Err(FetchError::NotFound) => Err(Error::NotFound),
        Err(FetchError::Unknown) => Err(Error::Unknown),
    }
}

/// Checks the request and removes the room of that name, and its devices with it.
pub fn delete_room(repo: &mut InMemoryRepository, req: RoomRequest) -> (r: Result<(), Error>)
    ensures
        final(repo).failing() == old(repo).failing(),
        registry_wf(final(repo)@),
        match r {
            Ok(()) => {
                &&& room_request_valid(req)
                &&& !old(repo).failing()
                &&& has_room(old(repo)@, req.name@)
                &&& final(repo)@ == old(repo)@.remove(room_index(old(repo)@, req.name@))
            },
            Err(Error::BadRequest) => !room_request_valid(req) && final(repo)@ == old(repo)@,
            Err(Error::Unknown) => room_request_valid(req) && old(repo).failing() && final(repo)@
                == old(repo)@,
            Err(Error::NotFound) => room_request_valid(req) && !old(repo).failing() && !has_room(
                old(repo)@,
                req.name@,
            ) && final(repo)@ == old(repo)@,
            Err(Error::Conflict) => false,
        },
{
    repo.well_formedness();
    let room_name = match RoomName::try_from(req.name) {
        Ok(name) => name,
        Err(_) => { return Err(Error::BadRequest); },
    };
    match repo.delete_room(room_name) {
        Ok(()) => Ok(()),
        Err(DeleteError::NotFound) => Err(Error::NotFound),
        Err(DeleteError::Unknown) => Err(Error::Unknown),
    }
}

} // verus!
