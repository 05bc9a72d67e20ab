//! Writing packets of the small model to an outgoing buffer.
use vstd::prelude::*;
use crate::codec::primitives::push_all;
use crate::codec::primitives::ParseError;
use crate::lite::parser::{parse_mqtt, spec_parse_lite};
use crate::lite::protocol::{spec_to_bytes, to_bytes, writable, MqttPacket, MqttPacketModel};

verus! {

/// Frames packets of the small model on a byte stream.
pub struct MqttPacketDecoder {}

/// Why a packet could not be read or written.
#[derive(Debug)]
pub struct MqttPacketDecoderError {}

impl MqttPacketDecoderError {
    /// The text of the error.
    pub fn message(&self) -> (res: String)
        ensures
            res@ == "foobar"@,
    {
        "foobar".to_owned()
    }
}

/// What a buffer of received bytes yields: nothing yet while it holds less than two bytes
/// or an incomplete packet, the first packet and the number of its bytes when it is there,
/// and an error when the bytes are not a packet that the model reads.
pub open spec fn spec_decode_frame(src: Seq<u8>) -> Result<Option<(MqttPacketModel, int)>, ()> {
    if src.len() < 2 {
        Ok(None)
    } else {
        match spec_parse_lite(src) {
            Ok((p, n)) => Ok(Some((p, n))),
            Err(ParseError::Incomplete(_)) => Ok(None),
            Err(_) => Err(()),
        }
    }
}

impl MqttPacketDecoder {
    /// Reads the first packet of `src`, if it is there; the number that comes with it is
    /// how many bytes of `src` it took.
    pub fn decode(&mut self, src: &[u8]) -> (res: Result<Option<(MqttPacket, usize)>, MqttPacketDecoderError>)
        ensures
            match res {
                Ok(None) => spec_decode_frame(src@) == Ok::<Option<(MqttPacketModel, int)>, ()>(None),
                Ok(Some((p, n))) => spec_decode_frame(src@) == Ok::<Option<(MqttPacketModel, int)>, ()>(
                    Some((p.deep_view(), n as int)),
                ),
                Err(_) => spec_decode_frame(src@) == Err::<Option<(MqttPacketModel, int)>, ()>(()),
            },
    {
        if src.len() < 2 {
            return Ok(None);
        }
        match parse_mqtt(src) {
            Ok((packet, n)) => Ok(Some((packet, n))),
            Err(ParseError::Incomplete(_)) => Ok(None),
            Err(_) => Err(MqttPacketDecoderError {}),
        }
    }

    /// Whether `src` starts with a packet that the model does not handle (a DISCONNECT
    /// reason other than 0, or a property or topic filter that runs past its set or packet),
    /// as opposed to bytes that are not a packet at all.
    pub fn unsupported_input(&self, src: &[u8]) -> (res: bool)
        ensures
            res == (src@.len() >= 2 && spec_parse_lite(src@) == Err::<(MqttPacketModel, int), ParseError>(
                ParseError::Unsupported,
            )),
    {
        if src.len() < 2 {
            return false;
        }
        match parse_mqtt(src) {
            Err(ParseError::Unsupported) => true,
            _ => false,
        }
    }

    /// Appends the bytes of `item` to `dst`.
    pub fn encode(&mut self, item: MqttPacket, dst: &mut Vec<u8>) -> (res: Result<(), MqttPacketDecoderError>)
        requires
            writable(&item),
        ensures
            res is Ok,
            final(dst)@ == old(dst)@ + spec_to_bytes(&item),
    {
        let bytes = to_bytes(&item);
        push_all(dst, bytes.as_slice());
        Ok(())
    }
}

} // verus!
