use crate::api::reply::{Reply, Status};
use crate::domain::service::device_query;
use crate::domain::service::device_query::{
    is_step_for, StatusError, StatusRequest, StatusResponse, StatusStep,
};
use crate::repository::room::{
    device_in_room, has_device_in_room, has_room, room_index, InMemoryRepository,
};
use vstd::prelude::*;

verus! {

/// Says what is left to do for the status of the device named in the path, or replies at
/// once where nothing can be asked.
pub fn get_device_status(param: (String, String), repo: &InMemoryRepository) -> (r: Result<
    StatusStep,
    Reply<StatusResponse>,
>)
    ensures
        match r {
            Ok(step) => {
                &&& param.0@.len() > 0 && param.1@.len() > 0
                &&& !repo.failing()
                &&& has_device_in_room(repo@, param.0@, param.1@)
                &&& is_step_for(step, param.0@, device_in_room(repo@, param.0@, param.1@))
            },
            Err(reply) => reply.body is Empty && match reply.status {
                Status::BadRequest => param.0@.len() == 0 || param.1@.len() == 0,
                Status::NotFound => param.0@.len() > 0 && param.1@.len() > 0 && !repo.failing()
                    && !has_device_in_room(repo@, param.0@, param.1@),
                Status::InternalServerError => param.0@.len() > 0 && param.1@.len() > 0
                    && repo.failing(),
                _ => false,
            },
        },
{
    let (room_id, device_id) = param;
    let service_req = StatusRequest { room_id, device_id };
    match device_query::get_device_status(service_req, repo) {
        Ok(step) => Ok(step),
        Err(StatusError::BadRequest) => Err(Reply::empty(Status::BadRequest)),
        Err(StatusError::NotFound) => Err(Reply::empty(Status::NotFound)),
        Err(_) => Err(Reply::empty(Status::InternalServerError)),
    }
}

/// Says, for each device of the room named in the path, what is left to do for its
/// status, or replies at once where nothing can be asked.
pub fn get_room_status(room_id: String, repo: &InMemoryRepository) -> (r: Result<
    Vec<StatusStep>,
    Reply<Vec<StatusResponse>>,
>)
    ensures
        match r {
            Ok(steps) => {
                &&& room_id@.len() > 0
                &&& !repo.failing()
                &&& has_room(repo@, room_id@)
                &&& steps@.len() == repo@[room_index(repo@, room_id@)].devices.len()
                &&& forall|k: int|
                    0 <= k < steps@.len() ==> is_step_for(
                        #[trigger] steps@[k],
                        room_id@,
                        repo@[room_index(repo@, room_id@)].devices[k],
                    )
            },
            Err(reply) => reply.body is Empty && match reply.status {
                Status::BadRequest => room_id@.len() == 0,
                Status::NotFound => room_id@.len() > 0 && !repo.failing() && !has_room(
                    repo@,
                    room_id@,
                ),
                Status::InternalServerError => room_id@.len() > 0 && repo.failing(),
                _ => false,
            },
        },
{
    match device_query::get_room_status(room_id, repo) {
        Ok(steps) => Ok(steps),
        Err(StatusError::BadRequest) => Err(Reply::empty(Status::BadRequest)),
        Err(StatusError::NotFound) => Err(Reply::empty(Status::NotFound)),
        Err(_) => Err(Reply::empty(Status::InternalServerError)),
    }
}

} // verus!
