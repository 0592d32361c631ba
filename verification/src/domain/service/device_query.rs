use crate::domain::address::SocketAddress;
use crate::domain::client::{client_error_text, get_thermo_status, ClientError};
use crate::domain::entity::{DeviceInfo, DeviceInfoView, DeviceName, DeviceType, RoomName};
use crate::repository::room::{
    device_in_room, has_device_in_room, has_room, room_index, FetchError, InMemoryRepository,
};
use vstd::prelude::*;

verus! {

/// A device whose status is asked for, as text.
#[derive(Debug)]
pub struct StatusRequest {
    pub room_id: String,
    pub device_id: String,
}

/// The status of a device: a message for a reader, whatever became of the query.
#[derive(Debug)]
pub struct StatusResponse {
    pub room_id: String,
    pub device_id: String,
    pub message: String,
}

/// Why a request for a status was refused.
#[derive(Clone, Copy, Debug, PartialEq, Eq, Structural)]
pub enum StatusError {
    NotFound,
    BadRequest,
    Unknown,
}

/// What is left to do for the status of one device.
#[derive(Debug)]
pub enum StatusStep {
    /// The socket at the address is to be asked; its answer finishes the step.
    AskSocket { room_id: String, device_id: String, address: SocketAddress },
    /// Nothing is to be asked: the response stands.
    Done(StatusResponse),
}

/// The message that stands for an answer: the answer itself, or else the text of the
/// error. A query that failed is thus reported like one that succeeded.
pub open spec fn status_message(answer: Result<String, ClientError>) -> Seq<char> {
    match answer {
        Ok(text) => text@,
        Err(e) => client_error_text(e),
    }
}

/// The message for a device of a kind that cannot be asked.
pub open spec fn unsupported_message() -> Seq<char> {
    "UnknownError: "@ + "UDP Thermomemter is not supported"@
}

/// The step is the one for this device: a socket is to be asked at its address, and a
/// thermometer is reported as unsupported at once.
pub open spec fn is_step_for(step: StatusStep, room_id: Seq<char>, device: DeviceInfoView) -> bool {
    match step {
        StatusStep::AskSocket { room_id: room, device_id, address } => {
            &&& device.device_type == DeviceType::TcpSocket
            &&& room@ == room_id
            &&& device_id@ == device.name
            &&& address == device.address
        },
        StatusStep::Done(response) => {
            &&& device.device_type == DeviceType::UdpThermo
            &&& response.room_id@ == room_id
            &&& response.device_id@ == device.name
            &&& response.message@ == unsupported_message()
        },
    }
}

/// The request names a room and a device.
pub open spec fn status_request_valid(request: StatusRequest) -> bool {
    request.room_id@.len() > 0 && request.device_id@.len() > 0
}

/// Turns the answer of a device into the message to report.
pub fn get_device_status_message(answer: Result<String, ClientError>) -> (r: String)
    ensures
        r@ == status_message(answer),
{
    match answer {
        Ok(text) => text,
        Err(e) => e.to_string(),
    }
}

/// Chooses the step for a device by its type.
pub fn status_step(
    room_id: String,
    device_id: String,
    address: SocketAddress,
    device_type: DeviceType,
) -> (r: StatusStep)
    ensures
        is_step_for(
            r,
            room_id@,
            DeviceInfoView { name: device_id@, address, device_type },
        ),
{
    match device_type {
        DeviceType::TcpSocket => StatusStep::AskSocket { room_id, device_id, address },
        DeviceType::UdpThermo => {
            let message = get_device_status_message(get_thermo_status(address));
            StatusStep::Done(StatusResponse { room_id, device_id, message })
        },
    }
}

impl StatusStep {
    /// The address to ask, where something is to be asked.
    pub fn address(&self) -> (r: Option<SocketAddress>)
        ensures
            r == match *self {
                StatusStep::AskSocket { room_id, device_id, address } => Some(address),
                StatusStep::Done(response) => None,
            },
    {
        match self {
            StatusStep::AskSocket { room_id: _, device_id: _, address } => Some(*address),
            StatusStep::Done(_) => None,
        }
    }

    /// Finishes the step with the answer of the socket. Where nothing was to be asked,
    /// the response stands and the answer is left aside.
    pub fn finish(self, answer: Result<String, ClientError>) -> (r: StatusResponse)
        ensures
            match self {
                StatusStep::AskSocket { room_id, device_id, address } => {
                    &&& r.room_id@ == room_id@
                    &&& r.device_id@ == device_id@
                    &&& r.message@ == status_message(answer)
                },
                StatusStep::Done(response) => r == response,
            },
    {
        match self {
            StatusStep::AskSocket { room_id, device_id, address: _ } => StatusResponse {
                room_id,
                device_id,
                message: get_device_status_message(answer),
            },
            StatusStep::Done(response) => response,
        }
    }
}

/// Checks the request, looks the device up and says what is left to do for its status.
pub fn get_device_status(request: StatusRequest, repo: &InMemoryRepository) -> (r: Result<
    StatusStep,
    StatusError,
>)
    ensures
        match r {
            Ok(step) => {
                &&& status_request_valid(request)
                &&& !repo.failing()
                &&& has_device_in_room(repo@, request.room_id@, request.device_id@)
                &&& is_step_for(
                    step,
                    request.room_id@,
                    device_in_room(repo@, request.room_id@, request.device_id@),
                )
            },
            Err(StatusError::BadRequest) => !status_request_valid(request),
            Err(StatusError::Unknown) => status_request_valid(request) && repo.failing(),
            Err(StatusError::NotFound) => status_request_valid(request) && !repo.failing()
                && !has_device_in_room(repo@, request.room_id@, request.device_id@),
        },
{
    repo.well_formedness();
    let device_name = match DeviceName::try_from(request.device_id.clone()) {
        Ok(name) => name,
        Err(_) => { return Err(StatusError::BadRequest); },
    };
    let room_name = match RoomName::try_from(request.room_id.clone()) {
        Ok(name) => name,
        Err(_) => { return Err(StatusError::BadRequest); },
    };
    match repo.fetch_device(room_name, device_name) {
        Ok(device) => {
            let DeviceInfo { name: _, address, device_type } = device;
            proof {
                crate::repository::room::lemma_device_in_room_name(
                    repo@,
                    request.room_id@,
                    request.device_id@,
                );
            }
            Ok(status_step(request.room_id, request.device_id, address, device_type))
        },
        Err(FetchError::Unknown) => Err(StatusError::Unknown),
        Err(FetchError::NotFound) => Err(StatusError::NotFound),
    }
}

/// Checks the name, looks the room up and says, for each of its devices in order, what
/// is left to do for its status.
pub fn get_room_status(room_name: String, repo: &InMemoryRepository) -> (r: Result<
    Vec<StatusStep>,
    StatusError,
>)
    ensures
        match r {
            Ok(steps) => {
                &&& room_name@.len() > 0
                &&& !repo.failing()
                &&& has_room(repo@, room_name@)
                &&& steps@.len() == repo@[room_index(repo@, room_name@)].devices.len()
                &&& forall|k: int|
                    0 <= k < steps@.len() ==> is_step_for(
                        #[trigger] steps@[k],
                        room_name@,
                        repo@[room_index(repo@, room_name@)].devices[k],
                    )
            },
            Err(StatusError::BadRequest) => room_name@.len() == 0,
            Err(StatusError::Unknown) => room_name@.len() > 0 && repo.failing(),
            Err(StatusError::NotFound) => room_name@.len() > 0 && !repo.failing() && !has_room(
                repo@,
                room_name@,
            ),
        },
{
    let room_name = match RoomName::try_from(room_name) {
        Ok(name) => name,
        Err(_) => { return Err(StatusError::BadRequest); },
    };
    match repo.fetch_devices(room_name.clone()) {
        Ok(device_infos) => {
            let ghost devices = repo@[room_index(repo@, room_name@)].devices;
            let mut steps: Vec<StatusStep> = Vec::new();
            let mut i: usize = 0;
            while i < device_infos.len()
                invariant
                    i <= device_infos.len(),
                    steps@.len() == i,
                    crate::domain::entity::devices_view(device_infos@) == devices,
                    forall|k: int|
                        0 <= k < i ==> is_step_for(#[trigger] steps@[k], room_name@, devices[k]),
                decreases device_infos.len() - i,
            {
                let info = device_infos[i].clone();
                assert(info@ == devices[i as int]);
                let step = status_step(
                    room_name.clone().into_string(),
                    info.name.into_string(),
                    info.address,
                    info.device_type,
                );
                steps.push(step);
                i = i + 1;
            }
            Ok(steps)
        },
        Err(FetchError::Unknown) => Err(StatusError::Unknown),
        Err(FetchError::NotFound) => Err(StatusError::NotFound),
    }
}

} // verus!
