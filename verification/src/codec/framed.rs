//! Framing of packets on a byte stream: how many bytes of a buffer make the next packet, and
//! the bytes that a packet adds to an outgoing buffer.
use vstd::prelude::*;
use crate::codec::decoding::{parse_mqtt, spec_parse_mqtt};
use crate::codec::encoding::{encodable, encode, spec_encode};
use crate::codec::primitives::ParseError;
use crate::codec::roundtrip::{lemma_packet_roundtrip, packet_roundtrip};
use crate::types::{MqttPacket, MqttPacketModel};

verus! {

#[verifier::external_type_specification]
#[verifier::external_body]
pub struct ExIoError(std::io::Error);

/// Frames packets on a byte stream.
#[derive(Debug)]
pub struct MqttPacketDecoder {}

/// Why a packet could not be written.
#[derive(Debug)]
pub enum MqttPacketEncoderError {
    IOError(std::io::Error),
    Internal,
}

impl From<std::io::Error> for MqttPacketEncoderError {
    fn from(error: std::io::Error) -> (r: Self) {
        MqttPacketEncoderError::IOError(error)
    }
}

impl vstd::std_specs::convert::FromSpecImpl<std::io::Error> for MqttPacketEncoderError {
    open spec fn obeys_from_spec() -> bool {
        true
    }

    open spec fn from_spec(error: std::io::Error) -> Self {
        MqttPacketEncoderError::IOError(error)
    }
}

/// Why a packet could not be read.
#[derive(Debug)]
pub enum MqttPacketDecoderError {
    IOError(std::io::Error),
    EncodingError,
    DecodingError,
}

impl From<std::io::Error> for MqttPacketDecoderError {
    fn from(error: std::io::Error) -> (r: Self) {
        MqttPacketDecoderError::IOError(error)
    }
}

impl vstd::std_specs::convert::FromSpecImpl<std::io::Error> for MqttPacketDecoderError {
    open spec fn obeys_from_spec() -> bool {
        true
    }

    open spec fn from_spec(error: std::io::Error) -> Self {
        MqttPacketDecoderError::IOError(error)
    }
}

/// The text of the codec's errors.
pub open spec fn codec_error_text() -> Seq<char> {
    "MqttPacketDecoderError: unknown."@
}

impl MqttPacketEncoderError {
    /// The text of the error.
    pub fn message(&self) -> (res: String)
        ensures
            res@ == codec_error_text(),
    {
        "MqttPacketDecoderError: unknown.".to_owned()
    }
}

impl MqttPacketDecoderError {
    /// The text of the error.
    pub fn message(&self) -> (res: String)
        ensures
            res@ == codec_error_text(),
    {
        "MqttPacketDecoderError: unknown.".to_owned()
    }
}

/// What a buffer of received bytes yields: nothing yet while it holds less than a fixed
/// header or an incomplete packet, the first packet and the number of its bytes when it is
/// all there, and a decoding error when the bytes are not a packet this codec reads.
pub open spec fn spec_decode_frame(src: Seq<u8>) -> Result<Option<(MqttPacketModel, int)>, ()> {
    if src.len() < 2 {
        Ok(None)
    } else {
        match spec_parse_mqtt(src) {
            Ok((p, n)) => Ok(Some((p, n))),
            Err(ParseError::Incomplete(_)) => Ok(None),
            Err(_) => Err(()),
        }
    }
}

impl MqttPacketDecoder {
    /// Reads the first packet of `src`, if it is all there; the number that comes with it
    /// is how many bytes of `src` it took.
    pub fn decode(&mut self, src: &[u8]) -> (res: Result<Option<(MqttPacket, usize)>, MqttPacketDecoderError>)
        ensures
            match res {
                Ok(None) => spec_decode_frame(src@) == Ok::<Option<(MqttPacketModel, int)>, ()>(None),
                Ok(Some((p, n))) => spec_decode_frame(src@) == Ok::<Option<(MqttPacketModel, int)>, ()>(
                    Some((p.deep_view(), n as int)),
                ),
                Err(e) => e is DecodingError && spec_decode_frame(src@) == Err::<
                    Option<(MqttPacketModel, int)>,
                    (),
                >(()),
            },
    {
        if src.len() < 2 {
            return Ok(None);
        }
        match parse_mqtt(src) {
            Ok((packet, n)) => Ok(Some((packet, n))),
            Err(ParseError::Incomplete(_)) => Ok(None),
            Err(_) => Err(MqttPacketDecoderError::DecodingError),
        }
    }

    /// Whether `src` starts with a packet that the codec does not handle (such as a QoS 2
    /// acknowledgement, an AUTH-related property or an unknown DISCONNECT reason), as opposed
    /// to bytes that are not a packet at all.
    pub fn unsupported_input(&self, src: &[u8]) -> (res: bool)
        ensures
            res == (src@.len() >= 2 && spec_parse_mqtt(src@) == Err::<(MqttPacketModel, int), ParseError>(
                ParseError::Unsupported,
            )),
    {
        if src.len() < 2 {
            return false;
        }
        match parse_mqtt(src) {
            Err(ParseError::Unsupported) => true,
            _ => false,
        }
    }

    /// Appends the encoding of `item` to `dst`.
    pub fn encode(&mut self, item: MqttPacket, dst: &mut Vec<u8>) -> (res: Result<(), MqttPacketEncoderError>)
        requires
            encodable(item.deep_view()),
        ensures
            res is Ok,
            final(dst)@ == old(dst)@ + spec_encode(item.deep_view()),
    {
        let bytes = encode(&item);
        crate::codec::primitives::push_all(dst, bytes.as_slice());
        Ok(())
    }
}

/// A buffer that starts with the encoding of a packet that the codec carries both ways
/// yields that packet and the length of its encoding, whatever follows it.
pub proof fn lemma_frame_roundtrip(p: MqttPacketModel, after: Seq<u8>)
    requires
        packet_roundtrip(p),
    ensures
        spec_decode_frame(spec_encode(p) + after) == Ok::<Option<(MqttPacketModel, int)>, ()>(
            Some((p, spec_encode(p).len() as int)),
        ),
{
    lemma_packet_roundtrip(p, after);
    lemma_encoding_len(p);
}

/// The encoding of every packet holds at least a fixed header of two bytes.
proof fn lemma_encoding_len(p: MqttPacketModel)
    requires
        encodable(p),
    ensures
        spec_encode(p).len() >= 2,
{
    match p {
        MqttPacketModel::PingReq => {},
        MqttPacketModel::PingResp => {},
        _ => {
            crate::codec::primitives::lemma_encode_varint_len(0);
        },
    }
}

} // verus!
