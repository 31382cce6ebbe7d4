//! What the server does with what it reads from a connection.

use crate::dataframe::{decoded_frame, encoded_frame, lemma_encode_decode_roundtrip, DataFrame};
use crate::errors::RsError;
use crate::opcode::OpCode;
use vstd::prelude::*;

verus! {

/// The reader of one connection.
pub struct Connection {}

impl Connection {
    /// Decides what to broadcast for the bytes of one read. A frame is
    /// decoded from them and its payload is sent on as a final text frame
    /// without a mask, from which every receiver decodes that payload
    /// again. Where no frame can be decoded, which is also the case when
    /// nothing was read, the error is handed back and the connection is to
    /// be closed and deregistered.
    pub fn relay(received: &[u8]) -> (outcome: Result<Vec<u8>, RsError>)
        ensures
            match decoded_frame(received@) {
                Ok(frame) => {
                    &&& outcome matches Ok(bytes)
                    &&& bytes@ == encoded_frame(frame.payload, OpCode::Text, None).wire()
                    &&& decoded_frame(bytes@) matches Ok(sent)
                    &&& sent.payload == frame.payload
                },
                Err(error) => outcome matches Err(e) && e == error,
            },
            received@.len() == 0 ==> outcome is Err,
    {
        match DataFrame::try_from(received) {
            Ok(received_frame) => {
                let payload = received_frame.payload.as_slice();
                match DataFrame::from_data(payload, OpCode::Text, false) {
                    Some(sending_frame) => {
                        let bytes = sending_frame.to_bytes();
                        proof {
                            lemma_encode_decode_roundtrip(
                                payload@,
                                OpCode::Text,
                                None,
                                Seq::empty(),
                            );
                            assert(bytes@ + Seq::<u8>::empty() =~= bytes@);
                        }
                        Ok(bytes)
                    },
                    None => Err(RsError::ProtocolError),
                }
            },
            Err(error) => Err(error),
        }
    }
}

} // verus!
