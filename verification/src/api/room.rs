use crate::api::reply::{is_empty_reply, is_text_reply, Body, Reply, Status};
use crate::domain::entity::RoomInfoView;
use crate::domain::service::room;
use crate::domain::service::room::{
    device_responses_view, room_response_of, room_responses_view, DeviceResponseView,
    RoomResponseView,
};
use crate::repository::room::{empty_room, has_room, registry_wf, room_index, InMemoryRepository};
use vstd::prelude::*;

verus! {

/// The record of a room to add, to look up or to remove.
#[derive(Debug)]
pub struct RoomRequest {
    pub name: String,
}

/// The record of a room that was added.
#[derive(Debug)]
pub struct AddRoomResponse {
    pub name: String,
}

/// The record of a room with its devices.
#[derive(Debug)]
pub struct FetchRoomResponse {
    pub name: String,
    pub devices: Vec<RoomDeviceResponse>,
}

/// The record of a device of a room.
#[derive(Debug)]
pub struct RoomDeviceResponse {
    pub name: String,
    pub address: String,
    pub device_type: String,
}

impl View for RoomDeviceResponse {
    type V = DeviceResponseView;

    open spec fn view(&self) -> DeviceResponseView {
        DeviceResponseView {
            name: self.name@,
            address: self.address@,
            device_type: self.device_type@,
        }
    }
}

impl View for FetchRoomResponse {
    type V = RoomResponseView;

    open spec fn view(&self) -> RoomResponseView {
        RoomResponseView {
            name: self.name@,
            devices: self.devices@.map_values(|d: RoomDeviceResponse| d@),
        }
    }
}

/// What a list of room records holds, in order.
pub open spec fn fetch_room_responses_view(rooms: Seq<FetchRoomResponse>) -> Seq<
    RoomResponseView,
> {
    rooms.map_values(|r: FetchRoomResponse| r@)
}

impl room::RoomRequest {
    /// The same name.
    pub fn from(inner: RoomRequest) -> (r: room::RoomRequest)
        ensures
            r.name@ == inner.name@,
    {
        room::RoomRequest { name: inner.name }
    }
}

impl AddRoomResponse {
    /// The name of the room; its devices are left out.
    pub fn from(inner: room::RoomResponse) -> (r: AddRoomResponse)
        ensures
            r.name@ == inner.name@,
    {
        AddRoomResponse { name: inner.name }
    }
}

impl FetchRoomResponse {
    /// The same name and the same devices, in the same order.
    pub fn from(inner: room::RoomResponse) -> (r: FetchRoomResponse)
        ensures
            r@ == inner@,
    {
        let room::RoomResponse { name, devices } = inner;
        let mut shown: Vec<RoomDeviceResponse> = Vec::new();
        let mut i: usize = 0;
        while i < devices.len()
            invariant
                i <= devices.len(),
                shown@.len() == i,
                forall|k: int| 0 <= k < i ==> shown@[k]@ == devices@[k]@,
            decreases devices.len() - i,
        {
            let res = &devices[i];
            shown.push(
                RoomDeviceResponse {
                    name: res.name.clone(),
                    address: res.address.clone(),
                    device_type: res.device_type.clone(),
                },
            );
            i = i + 1;
        }
        let r = FetchRoomResponse { name, devices: shown };
        assert(r@.devices =~= device_responses_view(devices@));
        r
    }
}

/// Adds the room named in the path.
pub fn add_room(room_id: String, repo: &mut InMemoryRepository) -> (reply: Reply<
    AddRoomResponse,
>)
    ensures
        final(repo).failing() == old(repo).failing(),
        registry_wf(final(repo)@),
        match reply.status {
            Status::Success => {
                &&& room_id@.len() > 0
                &&& !old(repo).failing()
                &&& !has_room(old(repo)@, room_id@)
                &&& final(repo)@ == old(repo)@.push(empty_room(room_id@))
                &&& match reply.body {
                    Body::Json(res) => res.name@ == room_id@,
                    _ => false,
                }
            },
            Status::BadRequest => {
                &&& room_id@.len() == 0
                &&& final(repo)@ == old(repo)@
                &&& is_text_reply(reply, Status::BadRequest, "wrong format for room name"@)
            },
            Status::Conflict => {
                &&& room_id@.len() > 0
                &&& !old(repo).failing()
                &&& has_room(old(repo)@, room_id@)
                &&& final(repo)@ == old(repo)@
                &&& is_text_reply(reply, Status::Conflict, "room with this name already exists"@)
            },
            Status::InternalServerError => {
                &&& room_id@.len() > 0
                &&& old(repo).failing()
                &&& final(repo)@ == old(repo)@
                &&& is_empty_reply(reply, Status::InternalServerError)
            },
            Status::NotFound => false,
        },
{
    repo.well_formedness();
    if room_id.as_str().is_empty() {
        return Reply::text(Status::BadRequest, "wrong format for room name");
    }
    let service_req = room::RoomRequest::from(RoomRequest { name: room_id });
    match room::add_room(repo, service_req) {
        Ok(res) => Reply::json(AddRoomResponse::from(res)),
        Err(room::Error::BadRequest) => Reply::text(Status::BadRequest, "Wrong room format"),
        Err(room::Error::Conflict) => Reply::text(
            Status::Conflict,
            "room with this name already exists",
        ),
        _ => Reply::empty(Status::InternalServerError),
    }
}

/// Shows the room named in the path.
pub fn fetch_room(room_id: String, repo: &InMemoryRepository) -> (reply: Reply<
    FetchRoomResponse,
>)
    ensures
        match reply.status {
            Status::Success => {
                &&& room_id@.len() > 0
                &&& !repo.failing()
                &&& has_room(repo@, room_id@)
                &&& match reply.body {
                    Body::Json(res) => res@ == room_response_of(
                        repo@[room_index(repo@, room_id@)],
                    ),
                    _ => false,
                }
            },
            Status::BadRequest => {
                &&& room_id@.len() == 0
                &&& is_text_reply(reply, Status::BadRequest, "wrong format for room name"@)
            },
            Status::NotFound => {
                &&& room_id@.len() > 0
                &&& !repo.failing()
                &&& !has_room(repo@, room_id@)
                &&& is_text_reply(reply, Status::NotFound, "room not found"@)
            },
            Status::InternalServerError => {
                &&& room_id@.len() > 0
                &&& repo.failing()
                &&& is_empty_reply(reply, Status::InternalServerError)
            },
            Status::Conflict => false,
        },
{
    if room_id.as_str().is_empty() {
        return Reply::text(Status::BadRequest, "wrong format for room name");
    }
    let service_req = room::RoomRequest::from(RoomRequest { name: room_id });
    match room::fetch_room(repo, service_req) {
        Ok(res) => Reply::json(FetchRoomResponse::from(res)),
        Err(room::Error::BadRequest) => Reply::text(Status::BadRequest, "Wrong room format"),
        Err(room::Error::NotFound) => Reply::text(Status::NotFound, "room not found"),
        _ => Reply::empty(Status::InternalServerError),
    }
}

/// Shows all rooms.
pub fn fetch_rooms(repo: &InMemoryRepository) -> (reply: Reply<Vec<FetchRoomResponse>>)
    ensures
        match reply.status {
            Status::Success => !repo.failing() && match reply.body {
                Body::Json(res) => fetch_room_responses_view(res@) == repo@.map_values(
                    |room: RoomInfoView| room_response_of(room),
                ),
                _ => false,
            },
            Status::InternalServerError => repo.failing() && is_empty_reply(
                reply,
                Status::InternalServerError,
            ),
            _ => false,
        },
{
    match room::fetch_rooms(repo) {
        Ok(rooms) => {
            let mut shown: Vec<FetchRoomResponse> = Vec::new();
            while rooms.len() > shown.len()
                invariant
                    shown@.len() <= rooms@.len(),
                    forall|k: int| 0 <= k < shown@.len() ==> shown@[k]@ == rooms@[k]@,
                decreases rooms.len() - shown.len(),
            {
                let i: usize = shown.len();
                let res = &rooms[i];
                let copy = room::RoomResponse {
                    name: res.name.clone(),
                    devices: copy_device_responses(&res.devices),
                };
                shown.push(FetchRoomResponse::from(copy));
            }
            assert(fetch_room_responses_view(shown@) =~= room_responses_view(rooms@));
            Reply::json(shown)
        },
        Err(room::Error::BadRequest) => Reply::text(Status::BadRequest, "Wrong room format"),
        Err(room::Error::NotFound) => Reply::text(Status::NotFound, "room not found"),
        _ => Reply::empty(Status::InternalServerError),
    }
}

fn copy_device_responses(devices: &Vec<room::DeviceResponse>) -> (r: Vec<room::DeviceResponse>)
    ensures
        device_responses_view(r@) == device_responses_view(devices@),
{
    let mut out: Vec<room::DeviceResponse> = Vec::new();
    let mut i: usize = 0;
    while i < devices.len()
        invariant
            i <= devices.len(),
            out@.len() == i,
            forall|k: int| 0 <= k < i ==> out@[k]@ == devices@[k]@,
        decreases devices.len() - i,
    {
        let res = &devices[i];
        out.push(
            room::DeviceResponse {
                name: res.name.clone(),
                address: res.address.clone(),
                device_type: res.device_type.clone(),
            },
        );
        i = i + 1;
    }
    assert(device_responses_view(out@) =~= device_responses_view(devices@));
    out
}

/// Removes the room named in the path.
pub fn delete_room(room_id: String, repo: &mut InMemoryRepository) -> (reply: Reply<()>)
    ensures
        final(repo).failing() == old(repo).failing(),
        registry_wf(final(repo)@),
        match reply.status {
            Status::Success => {
                &&& room_id@.len() > 0
                &&& !old(repo).failing()
                &&& has_room(old(repo)@, room_id@)
                &&& final(repo)@ == old(repo)@.remove(room_index(old(repo)@, room_id@))
                &&& is_empty_reply(reply, Status::Success)
            },
            Status::BadRequest => {
                &&& room_id@.len() == 0
                &&& final(repo)@ == old(repo)@
                &&& is_text_reply(reply, Status::BadRequest, "wrong format for room name"@)
            },
            Status::NotFound => {
                &&& room_id@.len() > 0
                &&& !old(repo).failing()
                &&& !has_room(old(repo)@, room_id@)
                &&& final(repo)@ == old(repo)@
                &&& is_text_reply(reply, Status::NotFound, "room not found"@)
            },
            Status::InternalServerError => {
                &&& room_id@.len() > 0
                &&& old(repo).failing()
                &&& final(repo)@ == old(repo)@
                &&& is_empty_reply(reply, Status::InternalServerError)
            },
            Status::Conflict => false,
        },
{
    repo.well_formedness();
    if room_id.as_str().is_empty() {
        return Reply::text(Status::BadRequest, "wrong format for room name");
    }
    let service_req = room::RoomRequest::from(RoomRequest { name: room_id });
    match room::delete_room(repo, service_req) {
        Ok(_) => Reply::empty(Status::Success),
        Err(room::Error::BadRequest) => Reply::text(Status::BadRequest, "Wrong room format"),
        Err(room::Error::NotFound) => Reply::text(Status::NotFound, "room not found"),
        _ => Reply::empty(Status::InternalServerError),
    }
}

} // verus!
