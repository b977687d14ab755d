//! WebSocket frames carrying CHRONOS traffic among ordinary API channels:
//! the frame parser, bounded by the engine's largest frame.
use vstd::prelude::*;
use vstd::string::StringExecFns;
use crate::bytes::{read_u16_be, read_u64_be, u16_at, u64_at};

verus! {

#[derive(Debug, PartialEq, Eq, Structural)]
pub enum StegoFrameError {
    MalformedHeader,
    PayloadTooLarge,
    TruncatedData,
}

pub struct SteganographicWebSocketEngine {
    pub active_channels: Vec<(String, String, String)>,
    pub max_frame_size: usize,
}

/// Where a frame's payload lies in `data`, or why it is refused: the first
/// byte must be `0x82`; the low seven bits of the second give the length, or
/// 126 / 127 announce a 16-bit / 64-bit big-endian length (the latter read
/// as a `usize`).
pub open spec fn stego_bounds(data: Seq<u8>, max: usize) -> Result<(int, int), StegoFrameError> {
    if data.len() < 2 {
        Err(StegoFrameError::TruncatedData)
    } else if data[0] != 0x82 {
        Err(StegoFrameError::MalformedHeader)
    } else {
        let m = data[1] % 128;
        let announced: Result<(int, int), StegoFrameError> = if m == 126 {
            if data.len() < 4 {
                Err(StegoFrameError::TruncatedData)
            } else {
                Ok((u16_at(data, 2) as int, 4int))
            }
        } else if m == 127 {
            if data.len() < 10 {
                Err(StegoFrameError::TruncatedData)
            } else {
                Ok(((u64_at(data, 2) as usize) as int, 10int))
            }
        } else {
            Ok((m as int, 2int))
        };
        match announced {
            Err(e) => Err(e),
            Ok((len, header)) => if len > max {
                Err(StegoFrameError::PayloadTooLarge)
            } else if data.len() < header + len {
                Err(StegoFrameError::TruncatedData)
            } else {
                Ok((header, header + len))
            },
        }
    }
}

impl SteganographicWebSocketEngine {
    /// The decoy API channel and the CHRONOS channel, frames up to 16 KiB.
    pub fn new() -> (r: Self)
        ensures
            r.max_frame_size == 16384,
            r.active_channels@.len() == 2,
            r.active_channels@[0].0@ == "Channel 1 (Decoy)"@,
            r.active_channels@[0].1@ == "gateway.icloud.com"@,
            r.active_channels@[0].2@ == "JSON"@,
            r.active_channels@[1].0@ == "Channel 5 (CHRONOS)"@,
            r.active_channels@[1].1@ == "chronos-store"@,
            r.active_channels@[1].2@ == "WebTransport"@,
    {
        let mut channels: Vec<(String, String, String)> = Vec::new();
        channels.push(
            (
                String::from_str("Channel 1 (Decoy)"),
                String::from_str("gateway.icloud.com"),
                String::from_str("JSON"),
            ),
        );
        channels.push(
            (
                String::from_str("Channel 5 (CHRONOS)"),
                String::from_str("chronos-store"),
                String::from_str("WebTransport"),
            ),
        );
        Self { active_channels: channels, max_frame_size: 16384 }
    }

    /// The payload of one binary frame; see `stego_bounds`.
    pub fn parse_stego_ws_frame<'a>(&self, data: &'a [u8]) -> (r: Result<&'a [u8], StegoFrameError>)
        ensures
            match stego_bounds(data@, self.max_frame_size) {
                Ok((start, end)) => r matches Ok(p) && p@ == data@.subrange(start, end),
                Err(e) => r == Err::<&[u8], StegoFrameError>(e),
            },
    {
        if data.len() < 2 {
            return Err(StegoFrameError::TruncatedData);
        }
        if data[0] != 0x82 {
            return Err(StegoFrameError::MalformedHeader);
        }
        let second = data[1];
        let len_byte = second & 0x7f;
        assert(second & 0x7fu8 == second % 128) by (bit_vector);
        let (payload_len, header_size): (usize, usize) = if len_byte == 126 {
            if data.len() < 4 {
                return Err(StegoFrameError::TruncatedData);
            }
            (read_u16_be(data, 2) as usize, 4)
        } else if len_byte == 127 {
            if data.len() < 10 {
                return Err(StegoFrameError::TruncatedData);
            }
            (read_u64_be(data, 2) as usize, 10)
        } else {
            (len_byte as usize, 2)
        };
        if payload_len > self.max_frame_size {
            return Err(StegoFrameError::PayloadTooLarge);
        }
        if payload_len > data.len() - header_size {
            return Err(StegoFrameError::TruncatedData);
        }
        Ok(vstd::slice::slice_subrange(data, header_size, header_size + payload_len))
    }
}

impl Default for SteganographicWebSocketEngine {
    fn default() -> (r: Self)
        ensures
            r.max_frame_size == 16384,
            r.active_channels@.len() == 2,
    {
        Self::new()
    }
}

} // verus!
