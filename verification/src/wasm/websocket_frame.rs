//! Parser for complete, unmasked, final binary WebSocket frames. It parses
//! bytes only: no connection, no camouflage, no browser transport.
use vstd::prelude::*;
use crate::bytes::{read_u16_be, read_u64_be, u16_at, u64_at};

verus! {

#[derive(Debug, PartialEq, Eq, Structural)]
pub enum WebSocketFrameError {
    MalformedHeader,
    MaskedFrameUnsupported,
    PayloadTooLarge,
    TruncatedData,
    LengthOverflow,
}

pub struct WebSocketBinaryFrameParser {
    max_frame_size: usize,
}

/// Where the payload of a frame lies in `data`, as `(start, end)`, or why the
/// frame is refused. The first byte must be `0x82` (final binary frame); the
/// mask bit of the second must be clear; its low seven bits give the length,
/// or 126 / 127 announce a 16-bit / 64-bit big-endian length that follows.
pub open spec fn frame_payload_bounds(data: Seq<u8>, max_frame_size: usize) -> Result<
    (int, int),
    WebSocketFrameError,
> {
    if data.len() < 2 {
        Err(WebSocketFrameError::TruncatedData)
    } else if data[0] != 0x82 {
        Err(WebSocketFrameError::MalformedHeader)
    } else if data[1] >= 0x80 {
        Err(WebSocketFrameError::MaskedFrameUnsupported)
    } else {
        let marker = data[1];
        let announced: Result<(int, int), WebSocketFrameError> = if marker <= 125 {
            Ok((marker as int, 2int))
        } else if marker == 126 {
            if data.len() < 4 {
                Err(WebSocketFrameError::TruncatedData)
            } else {
                Ok((u16_at(data, 2) as int, 4int))
            }
        } else if data.len() < 10 {
            Err(WebSocketFrameError::TruncatedData)
        } else if u64_at(data, 2) > usize::MAX {
            Err(WebSocketFrameError::LengthOverflow)
        } else {
            Ok((u64_at(data, 2) as int, 10int))
        };
        match announced {
            Err(e) => Err(e),
            Ok((len, header)) => if len > max_frame_size {
                Err(WebSocketFrameError::PayloadTooLarge)
            } else if header + len > usize::MAX {
                Err(WebSocketFrameError::LengthOverflow)
            } else if data.len() < header + len {
                Err(WebSocketFrameError::TruncatedData)
            } else {
                Ok((header, header + len))
            },
        }
    }
}

impl WebSocketBinaryFrameParser {
    /// The largest payload accepted.
    pub closed spec fn max_frame(&self) -> usize {
        self.max_frame_size
    }

    pub fn new(max_frame_size: usize) -> (p: Self)
        ensures
            p.max_frame() == max_frame_size,
    {
        Self { max_frame_size }
    }

    /// Parses one frame and returns its payload; see `frame_payload_bounds`.
    pub fn parse_binary_frame<'a>(&self, data: &'a [u8]) -> (r: Result<&'a [u8], WebSocketFrameError>)
        ensures
            match frame_payload_bounds(data@, self.max_frame()) {
                Ok((start, end)) => r matches Ok(p) && p@ == data@.subrange(start, end),
                Err(e) => r == Err::<&[u8], WebSocketFrameError>(e),
            },
    {
        if data.len() < 2 {
            return Err(WebSocketFrameError::TruncatedData);
        }
        if data[0] != 0x82 {
            return Err(WebSocketFrameError::MalformedHeader);
        }
        let second = data[1];
        assert((second & 0x80u8 != 0) == (second >= 0x80)) by (bit_vector);
        if second & 0x80 != 0 {
            return Err(WebSocketFrameError::MaskedFrameUnsupported);
        }
        assert(second < 0x80 ==> second & 0x7fu8 == second) by (bit_vector);
        let length_marker = second & 0x7f;
        let (payload_len, header_len): (usize, usize) = if length_marker <= 125 {
            (length_marker as usize, 2)
        } else if length_marker == 126 {
            if data.len() < 4 {
                return Err(WebSocketFrameError::TruncatedData);
            }
            (read_u16_be(data, 2) as usize, 4)
        } else {
            if data.len() < 10 {
                return Err(WebSocketFrameError::TruncatedData);
            }
            let declared = read_u64_be(data, 2);
            if declared > usize::MAX as u64 {
                return Err(WebSocketFrameError::LengthOverflow);
            }
            (declared as usize, 10)
        };
        if payload_len > self.max_frame_size {
            return Err(WebSocketFrameError::PayloadTooLarge);
        }
        let end = match header_len.checked_add(payload_len) {
            Some(e) => e,
            None => return Err(WebSocketFrameError::LengthOverflow),
        };
        if data.len() < end {
            return Err(WebSocketFrameError::TruncatedData);
        }
        Ok(vstd::slice::slice_subrange(data, header_len, end))
    }
}

impl Default for WebSocketBinaryFrameParser {
    fn default() -> (p: Self)
        ensures
            p.max_frame() == 16_384,
    {
        Self::new(16_384)
    }
}

} // verus!
