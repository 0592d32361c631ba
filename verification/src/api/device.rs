use crate::api::reply::{is_empty_reply, is_text_reply, Body, Reply, Status};
use crate::domain::service::device;
use crate::domain::service::device::{add_request_valid, requested_device, response_shows};
use crate::repository::room::{
    can_add_device, device_in_room, device_index, has_device_in_room, registry_wf, room_index,
    with_device, without_device, InMemoryRepository,
};
use vstd::prelude::*;

verus! {

/// The record of a device to add; the room comes with the path.
#[derive(Debug)]
pub struct AddDeviceRequest {
    pub device_name: String,
    pub address: String,
    pub device_type: String,
}

/// The record of a device, as a reply carries it.
#[derive(Debug)]
pub struct AddDeviceResponse {
    pub room_name: String,
    pub device_name: String,
    pub address: String,
    pub device_type: String,
}

impl AddDeviceResponse {
    /// The same four texts.
    pub fn from(inner: device::Response) -> (r: AddDeviceResponse)
        ensures
            r.room_name@ == inner.room_name@,
            r.device_name@ == inner.device_name@,
            r.address@ == inner.address@,
            r.device_type@ == inner.device_type@,
    {
        AddDeviceResponse {
            room_name: inner.room_name,
            device_name: inner.device_name,
            address: inner.address,
            device_type: inner.device_type,
        }
    }
}

/// The request that a path and a record make together.
pub open spec fn add_request_of(room_id: String, req: AddDeviceRequest) -> device::AddRequest {
    device::AddRequest {
        room_name: room_id,
        device_name: req.device_name,
        address: req.address,
        device_type: req.device_type,
    }
}

/// The record shows the device in the room of that name.
pub open spec fn record_shows(
    record: AddDeviceResponse,
    room_name: Seq<char>,
    device: crate::domain::entity::DeviceInfoView,
) -> bool {
    response_shows(
        device::Response {
            room_name: record.room_name,
            device_name: record.device_name,
            address: record.address,
            device_type: record.device_type,
        },
        room_name,
        device,
    )
}

/// Adds the device of the record to the room named in the path.
pub fn add_device(room_id: String, req: AddDeviceRequest, repo: &mut InMemoryRepository) -> (reply:
    Reply<AddDeviceResponse>)
    ensures
        final(repo).failing() == old(repo).failing(),
        registry_wf(final(repo)@),
        match reply.status {
            Status::Success => {
                &&& add_request_valid(add_request_of(room_id, req))
                &&& !old(repo).failing()
                &&& can_add_device(
                    old(repo)@,
                    room_id@,
                    requested_device(add_request_of(room_id, req)).unwrap(),
                )
                &&& final(repo)@ == with_device(
                    old(repo)@,
                    room_index(old(repo)@, room_id@),
                    requested_device(add_request_of(room_id, req)).unwrap(),
                )
                &&& match reply.body {
                    Body::Json(res) => record_shows(
                        res,
                        room_id@,
                        requested_device(add_request_of(room_id, req)).unwrap(),
                    ),
                    _ => false,
                }
            },
            Status::BadRequest => {
                &&& !add_request_valid(add_request_of(room_id, req))
                &&& final(repo)@ == old(repo)@
                &&& is_text_reply(reply, Status::BadRequest, "Wrong device format"@)
            },
            Status::Conflict => {
                &&& add_request_valid(add_request_of(room_id, req))
                &&& !old(repo).failing()
                &&& !can_add_device(
                    old(repo)@,
                    room_id@,
                    requested_device(add_request_of(room_id, req)).unwrap(),
                )
                &&& final(repo)@ == old(repo)@
                &&& is_text_reply(
                    reply,
                    Status::Conflict,
                    "device with this name or IP address already exists"@,
                )
            },
            Status::InternalServerError => {
                &&& add_request_valid(add_request_of(room_id, req))
                &&& old(repo).failing()
                &&& final(repo)@ == old(repo)@
                &&& is_empty_reply(reply, Status::InternalServerError)
            },
            Status::NotFound => false,
        },
{
    let service_req = device::AddRequest {
        room_name: room_id,
        device_name: req.device_name,
        address: req.address,
        device_type: req.device_type,
    };
    match device::add_device(repo, service_req) {
        Ok(res) => Reply::json(AddDeviceResponse::from(res)),
        Err(device::Error::BadRequest) => Reply::text(Status::BadRequest, "Wrong device format"),
        Err(device::Error::Conflict) => Reply::text(
            Status::Conflict,
            "device with this name or IP address already exists",
        ),
        _ => Reply::empty(Status::InternalServerError),
    }
}

/// The path names a room and a device.
pub open spec fn path_valid(param: (String, String)) -> bool {
    param.0@.len() > 0 && param.1@.len() > 0
}

/// Shows the device named in the path.
pub fn fetch_device(param: (String, String), repo: &InMemoryRepository) -> (reply: Reply<
    AddDeviceResponse,
>)
    ensures
        match reply.status {
            Status::Success => {
                &&& path_valid(param)
                &&& !repo.failing()
                &&& has_device_in_room(repo@, param.0@, param.1@)
                &&& match reply.body {
                    Body::Json(res) => record_shows(
                        res,
                        param.0@,
                        device_in_room(repo@, param.0@, param.1@),
                    ),
                    _ => false,
                }
            },
            Status::BadRequest => {
                &&& !path_valid(param)
                &&& is_text_reply(reply, Status::BadRequest, "Wrong device format"@)
            },
            Status::NotFound => {
                &&& path_valid(param)
                &&& !repo.failing()
                &&& !has_device_in_room(repo@, param.0@, param.1@)
                &&& is_text_reply(
                    reply,
                    Status::NotFound,
                    "requested device or room were not found"@,
                )
            },
            Status::InternalServerError => {
                &&& path_valid(param)
                &&& repo.failing()
                &&& is_empty_reply(reply, Status::InternalServerError)
            },
            Status::Conflict => false,
        },
{
    let (room_name, device_name) = param;
    let service_req = device::FetchRequest { room_name, device_name };
    match device::fetch_device(repo, service_req) {
        Ok(res) => Reply::json(AddDeviceResponse::from(res)),
        Err(device::Error::BadRequest) => Reply::text(Status::BadRequest, "Wrong device format"),
        Err(device::Error::NotFound) => Reply::text(
            Status::NotFound,
            "requested device or room were not found",
        ),
        _ => Reply::empty(Status::InternalServerError),
    }
}

/// Removes the device named in the path.
pub fn delete_device(param: (String, String), repo: &mut InMemoryRepository) -> (reply: Reply<()>)
    ensures
        final(repo).failing() == old(repo).failing(),
        registry_wf(final(repo)@),
        match reply.status {
            Status::Success => {
                &&& path_valid(param)
                &&& !old(repo).failing()
                &&& has_device_in_room(old(repo)@, param.0@, param.1@)
                &&& final(repo)@ == without_device(
                    old(repo)@,
                    room_index(old(repo)@, param.0@),
                    device_index(old(repo)@[room_index(old(repo)@, param.0@)].devices, param.1@),
                )
                &&& is_empty_reply(reply, Status::Success)
            },
            Status::BadRequest => {
                &&& !path_valid(param)
                &&& final(repo)@ == old(repo)@
                &&& is_text_reply(reply, Status::BadRequest, "Wrong device format"@)
            },
            Status::NotFound => {
                &&& path_valid(param)
                &&& !old(repo).failing()
                &&& !has_device_in_room(old(repo)@, param.0@, param.1@)
                &&& final(repo)@ == old(repo)@
                &&& is_text_reply(
                    reply,
                    Status::NotFound,
                    "requested device or room were not found"@,
                )
            },
            Status::InternalServerError => {
                &&& path_valid(param)
                &&& old(repo).failing()
                &&& final(repo)@ == old(repo)@
                &&& is_empty_reply(reply, Status::InternalServerError)
            },
            Status::Conflict => false,
        },
{
    let (room_name, device_name) = param;
    let service_req = device::FetchRequest { room_name, device_name };
    match device::delete_device(repo, service_req) {
        Ok(_) => Reply::empty(Status::Success),
        Err(device::Error::BadRequest) => Reply::text(Status::BadRequest, "Wrong device format"),
        Err(device::Error::NotFound) => Reply::text(
            Status::NotFound,
            "requested device or room were not found",
        ),
        _ => Reply::empty(Status::InternalServerError),
    }
}

} // verus!
