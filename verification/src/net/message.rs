//! The wire format: what peers tell each other, and how a message is framed.
use super::addr::SocketAddress;
use crate::traits::{Crdt, DeltaCrdt};
use crate::NodeId;
use vstd::prelude::*;

verus! {

/// The greatest length of the body of a frame.
pub const MAX_FRAME: usize = 16777216;

/// A node, and where to reach it.
#[derive(Debug, Clone, Copy, PartialEq, Eq)]
pub struct PeerEntry {
    pub node_id: NodeId,
    pub addr: SocketAddress,
}

/// A message from one node to another.
pub enum GossipMessage<T: DeltaCrdt> {
    /// The whole state of the sender.
    Sync {
        /// Who sends, and how to reach the sender.
        from: PeerEntry,
        /// The state of the sender.
        state: T,
        /// Peers that the sender is aware of.
        known_peers: Vec<PeerEntry>,
        /// Nodes that have departed.
        departed: Vec<NodeId>,
    },
    /// What changed in the state of the sender.
    SyncDelta {
        from: PeerEntry,
        /// What the sender has beyond `since`.
        delta: T::Delta,
        /// The version that the receiver must have reached for the delta to leave no gap.
        since: T::Version,
        known_peers: Vec<PeerEntry>,
        departed: Vec<NodeId>,
    },
    /// The sender is leaving.
    Goodbye { from: PeerEntry, departed: Vec<NodeId>, known_peers: Vec<PeerEntry> },
}

/// Why bytes are not a frame.
#[derive(Debug, Clone, Copy, PartialEq, Eq, Structural)]
pub enum FrameError {
    /// The body is, or claims to be, longer than [`MAX_FRAME`].
    TooLarge,
    /// The bytes end before the frame does.
    Truncated,
}

/// The four bytes of a length, the most significant first.
pub open spec fn length_bytes(n: u32) -> Seq<u8> {
    seq![
        (n / 16777216) as u8,
        (n / 65536 % 256) as u8,
        (n / 256 % 256) as u8,
        (n % 256) as u8,
    ]
}

/// The number that four bytes stand for, the most significant first.
pub open spec fn length_of(header: Seq<u8>) -> int {
    header[0] * 16777216 + header[1] * 65536 + header[2] * 256 + header[3]
}

/// A frame: the length of the body in four bytes, and the body.
pub open spec fn framed(body: Seq<u8>) -> Seq<u8> {
    length_bytes(body.len() as u32) + body
}

/// Frames the body of a message. Refuses one that is longer than [`MAX_FRAME`].
pub fn write_frame(body: &Vec<u8>) -> (frame: Result<Vec<u8>, FrameError>)
    ensures
        body@.len() <= MAX_FRAME ==> frame is Ok && frame->Ok_0@ == framed(body@),
        body@.len() > MAX_FRAME ==> frame == Err::<Vec<u8>, FrameError>(FrameError::TooLarge),
{
    if body.len() > MAX_FRAME {
        return Err(FrameError::TooLarge);
    }
    let n: u32 = body.len() as u32;
    let mut frame: Vec<u8> = Vec::new();
    frame.push((n / 16777216) as u8);
    frame.push((n / 65536 % 256) as u8);
    frame.push((n / 256 % 256) as u8);
    frame.push((n % 256) as u8);
    assert(frame@ =~= length_bytes(n));
    for i in 0..body.len()
        invariant
            n == body@.len(),
            frame@ == length_bytes(n) + body@.take(i as int),
    {
        frame.push(body[i]);
        assert(frame@ =~= length_bytes(n) + body@.take(i + 1));
    }
    assert(body@.take(body@.len() as int) =~= body@);
    Ok(frame)
}

/// Reads the length of the body off the first four bytes of a frame. Refuses a length of more
/// than [`MAX_FRAME`], before anything is allocated for it.
pub fn read_length(header: &[u8; 4]) -> (length: Result<usize, FrameError>)
    ensures
        length_of(header@) <= MAX_FRAME ==> length is Ok && length->Ok_0 == length_of(header@),
        length_of(header@) > MAX_FRAME ==> length == Err::<usize, FrameError>(
            FrameError::TooLarge,
        ),
{
    let n: u32 = header[0] as u32 * 16777216 + header[1] as u32 * 65536 + header[2] as u32 * 256
        + header[3] as u32;
    if n as usize > MAX_FRAME {
        return Err(FrameError::TooLarge);
    }
    Ok(n as usize)
}

/// Takes the body out of a frame.
pub fn read_frame(bytes: &Vec<u8>) -> (body: Result<Vec<u8>, FrameError>)
    ensures
        match body {
            Ok(body) => {
                &&& bytes@.len() >= 4
                &&& length_of(bytes@) <= MAX_FRAME
                &&& bytes@.len() >= 4 + length_of(bytes@)
                &&& body@ == bytes@.subrange(4, 4 + length_of(bytes@))
            },
            Err(FrameError::TooLarge) => bytes@.len() >= 4 && length_of(bytes@) > MAX_FRAME,
            Err(FrameError::Truncated) => bytes@.len() < 4 || (length_of(bytes@) <= MAX_FRAME
                && bytes@.len() < 4 + length_of(bytes@)),
        },
{
    if bytes.len() < 4 {
        return Err(FrameError::Truncated);
    }
    let header: [u8; 4] = [bytes[0], bytes[1], bytes[2], bytes[3]];
    match read_length(&header) {
        Err(e) => Err(e),
        Ok(length) => {
            if bytes.len() - 4 < length {
                return Err(FrameError::Truncated);
            }
            let mut body: Vec<u8> = Vec::new();
            let total: usize = bytes.len();
            for i in 0..length
                invariant
                    total == bytes@.len(),
                    total >= 4 + length,
                    body@ == bytes@.subrange(4, 4 + i as int),
            {
                body.push(bytes[4 + i]);
                assert(body@ =~= bytes@.subrange(4, 4 + i + 1));
            }
            Ok(body)
        },
    }
}

/// Reading a frame gives back the body that was written, whatever follows the frame.
pub proof fn frame_round_trip(body: Seq<u8>, rest: Seq<u8>)
    requires
        body.len() <= MAX_FRAME,
    ensures
        length_of(framed(body) + rest) == body.len(),
        (framed(body) + rest).subrange(4, (4 + body.len()) as int) == body,
{
    let n = body.len() as u32;
    let bytes = framed(body) + rest;
    assert(bytes[0] == (n / 16777216) as u8);
    assert(bytes[1] == (n / 65536 % 256) as u8);
    assert(bytes[2] == (n / 256 % 256) as u8);
    assert(bytes[3] == (n % 256) as u8);
    assert(bytes.subrange(4, (4 + body.len()) as int) =~= body);
}

} // verus!
