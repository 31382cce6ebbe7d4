//! Error kinds of the frame codec, the server handshake and the client.

use vstd::prelude::*;

verus! {

/// What can go wrong while decoding a frame or answering an upgrade request.
#[derive(Debug, Clone, Copy, PartialEq, Eq, Structural)]
pub enum RsError {
    ProtocolError,
    MethodNotAllowed,
    BadRequest,
    UnprocessableContent,
    UpgradeRequired,
    IncompleteData,
    FragmentationNotSupported,
    InvalidOpCode,
}

impl RsError {
    /// The human-readable text of the error.
    pub open spec fn message(&self) -> Seq<char> {
        match self {
            RsError::ProtocolError => "Protocol Error"@,
            RsError::MethodNotAllowed => "Method Not Allowed"@,
            RsError::BadRequest => "Bad Request"@,
            RsError::UnprocessableContent => "Unprocessable Content"@,
            RsError::UpgradeRequired => "Upgrade Required"@,
            RsError::IncompleteData => "Insufficient Data"@,
            RsError::FragmentationNotSupported => "Fragmentation Not yet Supported"@,
            RsError::InvalidOpCode => "Invalid Opcode"@,
        }
    }

    /// The human-readable text of the error, as an owned string.
    pub fn to_string(&self) -> (text: String)
        ensures
            text@ == self.message(),
    {
        match self {
            RsError::ProtocolError => "Protocol Error".to_owned(),
            RsError::MethodNotAllowed => "Method Not Allowed".to_owned(),
            RsError::BadRequest => "Bad Request".to_owned(),
            RsError::UnprocessableContent => "Unprocessable Content".to_owned(),
            RsError::UpgradeRequired => "Upgrade Required".to_owned(),
            RsError::IncompleteData => "Insufficient Data".to_owned(),
            RsError::FragmentationNotSupported => "Fragmentation Not yet Supported".to_owned(),
            RsError::InvalidOpCode => "Invalid Opcode".to_owned(),
        }
    }
}

/// What can go wrong on the client side, from parsing the endpoint to
/// checking the server's answer. `IoError` marks a failure of the transport
/// underneath; the library itself never produces it.
#[derive(Debug, Clone, Copy, PartialEq, Eq, Structural)]
pub enum ScError {
    InvalidUrl,
    IoError,
    ServerClosed,
    InvalidHttpResponse,
    InvalidStatusCode,
    LowerHttpVersion,
    InvalidHandshakeHeader,
    DataFrameError,
}

impl ScError {
    /// The human-readable text of the error.
    pub open spec fn message(&self) -> Seq<char> {
        match self {
            ScError::InvalidUrl => "Invalid websocket url received."@,
            ScError::IoError => "I/O error"@,
            ScError::ServerClosed => "Connection closed by server."@,
            ScError::LowerHttpVersion => "Unsupported http Version, is less than 1.1"@,
            ScError::InvalidStatusCode => "Status Code is not 101"@,
            ScError::InvalidHttpResponse => "Invalid http response line"@,
            ScError::InvalidHandshakeHeader => "Handshake response header invalid."@,
            ScError::DataFrameError => "Failed to create dataframe"@,
        }
    }

    /// The human-readable text of the error, as an owned string.
    pub fn to_string(&self) -> (text: String)
        ensures
            text@ == self.message(),
    {
        match self {
            ScError::InvalidUrl => "Invalid websocket url received.".to_owned(),
            ScError::IoError => "I/O error".to_owned(),
            ScError::ServerClosed => "Connection closed by server.".to_owned(),
            ScError::LowerHttpVersion => "Unsupported http Version, is less than 1.1".to_owned(),
            ScError::InvalidStatusCode => "Status Code is not 101".to_owned(),
            ScError::InvalidHttpResponse => "Invalid http response line".to_owned(),
            ScError::InvalidHandshakeHeader => "Handshake response header invalid.".to_owned(),
            ScError::DataFrameError => "Failed to create dataframe".to_owned(),
        }
    }
}

} // verus!
