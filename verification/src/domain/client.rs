use crate::domain::address::SocketAddress;
use vstd::prelude::*;

verus! {

/// Why a device gave no status.
#[derive(Debug)]
pub enum ClientError {
    IoError(String),
    ConnectionError(String),
    Unknown(String),
}

/// The text of an error: its kind, a colon and a blank, then its detail.
pub open spec fn client_error_text(e: ClientError) -> Seq<char> {
    match e {
        ClientError::IoError(detail) => "IoError: "@ + detail@,
        ClientError::ConnectionError(detail) => "ConnectionError: "@ + detail@,
        ClientError::Unknown(detail) => "UnknownError: "@ + detail@,
    }
}

impl ClientError {
    /// The error as one line of text.
    pub fn to_string(&self) -> (r: String)
        ensures
            r@ == client_error_text(*self),
    {
        match self {
            ClientError::IoError(detail) => String::from_str("IoError: ").concat(detail.as_str()),
            ClientError::ConnectionError(detail) => String::from_str("ConnectionError: ").concat(
                detail.as_str(),
            ),
            ClientError::Unknown(detail) => String::from_str("UnknownError: ").concat(
                detail.as_str(),
            ),
        }
    }
}

/// The status of a thermometer. Thermometers are not supported: the answer is always the
/// same error, and nothing is sent to the address.
pub fn get_thermo_status(_address: SocketAddress) -> (r: Result<String, ClientError>)
    ensures
        r matches Err(ClientError::Unknown(detail)) && detail@
            == "UDP Thermomemter is not supported"@,
{
    Err(ClientError::Unknown(String::from_str("UDP Thermomemter is not supported")))
}

} // verus!
