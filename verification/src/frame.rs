//! Frames: a payload behind its length, which is four bytes, the most significant one first.

use vstd::prelude::*;

verus! {

/// The longest payload that is read.
pub const MAX_FRAME_BYTES: usize = 16_777_216;

/// Why a frame is not written or read.
#[derive(Debug, Clone, Copy, PartialEq, Eq, Structural)]
pub enum FrameError {
    /// The payload is longer than its length can say, or longer than what is read.
    TooBig { bytes: usize },
    /// There are fewer bytes than the frame has.
    Truncated,
}

/// The four bytes that stand for `n`.
pub open spec fn length_bytes(n: int) -> Seq<u8> {
    seq![
        (n / 0x1000000) as u8,
        (n / 0x10000 % 0x100) as u8,
        (n / 0x100 % 0x100) as u8,
        (n % 0x100) as u8,
    ]
}

/// The length that four bytes stand for.
pub open spec fn length_of(b: Seq<u8>) -> int {
    b[0] * 0x1000000 + b[1] * 0x10000 + b[2] * 0x100 + b[3]
}

/// The frame around `payload`.
pub open spec fn framed(payload: Seq<u8>) -> Seq<u8> {
    length_bytes(payload.len() as int) + payload
}

/// What reading a frame from the front of `stream` gives.
pub open spec fn unframed(stream: Seq<u8>) -> Result<Seq<u8>, FrameError> {
    if stream.len() < 4 {
        Err(FrameError::Truncated)
    } else if length_of(stream) > MAX_FRAME_BYTES {
        Err(FrameError::TooBig { bytes: length_of(stream) as usize })
    } else if stream.len() < 4 + length_of(stream) {
        Err(FrameError::Truncated)
    } else {
        Ok(stream.subrange(4, 4 + length_of(stream)))
    }
}

/// The frame around `payload`.
pub fn write_frame(payload: &[u8]) -> (frame: Result<Vec<u8>, FrameError>)
    ensures
        match frame {
            Ok(f) => payload@.len() <= u32::MAX && f@ == framed(payload@),
            Err(e) => payload@.len() > u32::MAX && e == (FrameError::TooBig {
                bytes: payload@.len() as usize,
            }),
        },
{
    let n: usize = payload.len();
    if n as u64 > 0xffff_ffff {
        return Err(FrameError::TooBig { bytes: n });
    }
    let mut frame: Vec<u8> = Vec::new();
    frame.push((n / 0x1000000) as u8);
    frame.push((n / 0x10000 % 0x100) as u8);
    frame.push((n / 0x100 % 0x100) as u8);
    frame.push((n % 0x100) as u8);
    frame.extend_from_slice(payload);
    assert(frame@ =~= framed(payload@));
    Ok(frame)
}

/// How long the payload is that follows the four bytes of `header`.
pub fn frame_length(header: [u8; 4]) -> (len: Result<usize, FrameError>)
    ensures
        len == if length_of(header@) > MAX_FRAME_BYTES {
            Err::<usize, FrameError>(FrameError::TooBig { bytes: length_of(header@) as usize })
        } else {
            Ok::<usize, FrameError>(length_of(header@) as usize)
        },
        0 <= length_of(header@) <= u32::MAX,
{
    let n: usize = header[0] as usize * 0x1000000 + header[1] as usize * 0x10000
        + header[2] as usize * 0x100 + header[3] as usize;
    if n > MAX_FRAME_BYTES {
        Err(FrameError::TooBig { bytes: n })
    } else {
        Ok(n)
    }
}

/// The payload of the frame at the front of `stream`.
pub fn read_frame(stream: &[u8]) -> (payload: Result<Vec<u8>, FrameError>)
    ensures
        match payload {
            Ok(p) => unframed(stream@) == Ok::<Seq<u8>, FrameError>(p@),
            Err(e) => unframed(stream@) == Err::<Seq<u8>, FrameError>(e),
        },
{
    if stream.len() < 4 {
        return Err(FrameError::Truncated);
    }
    let header = [stream[0], stream[1], stream[2], stream[3]];
    let ghost h = header@;
    assert(length_of(h) == length_of(stream@));
    match frame_length(header) {
        Err(e) => Err(e),
        Ok(n) => {
            if stream.len() - 4 < n {
                return Err(FrameError::Truncated);
            }
            let mut payload: Vec<u8> = Vec::new();
            payload.extend_from_slice(&stream[4..4 + n]);
            assert(payload@ =~= stream@.subrange(4, 4 + n));
            Ok(payload)
        },
    }
}

proof fn length_survives(n: int)
    requires
        0 <= n <= u32::MAX,
    ensures
        length_of(length_bytes(n)) == n,
        length_bytes(n).len() == 4,
{
}

/// What was written is read back, whatever follows it, as long as it is short enough to
/// be read; a longer payload is refused.
pub proof fn frames_are_read_back(payload: Seq<u8>, rest: Seq<u8>)
    requires
        payload.len() <= u32::MAX,
    ensures
        payload.len() <= MAX_FRAME_BYTES ==> unframed(framed(payload) + rest) == Ok::<
            Seq<u8>,
            FrameError,
        >(payload),
        payload.len() > MAX_FRAME_BYTES ==> unframed(framed(payload) + rest) == Err::<
            Seq<u8>,
            FrameError,
        >(FrameError::TooBig { bytes: payload.len() as usize }),
{
    let n = payload.len() as int;
    let stream = framed(payload) + rest;
    length_survives(n);
    assert(stream[0] == length_bytes(n)[0] && stream[1] == length_bytes(n)[1] && stream[2]
        == length_bytes(n)[2] && stream[3] == length_bytes(n)[3]);
    assert(length_of(stream) == n);
    if n <= MAX_FRAME_BYTES {
        assert(stream.subrange(4, 4 + n) =~= payload);
    }
}

/// A frame is four bytes longer than its payload. Its first four bytes are the length of the
/// payload, the most significant byte first, and the payload follows unchanged.
pub proof fn frames_begin_with_the_length(payload: Seq<u8>)
    requires
        payload.len() <= u32::MAX,
    ensures
        ({
            let f = framed(payload);
            &&& f.len() == payload.len() + 4
            &&& ((f[0] * 256 + f[1]) * 256 + f[2]) * 256 + f[3] == payload.len()
            &&& f.skip(4) == payload
        }),
{
    length_survives(payload.len() as int);
    assert(framed(payload).skip(4) =~= payload);
}

/// What is read of a stream: as many bytes as its first four say, the most significant one
/// first. More than sixteen mebibytes are refused, and so is a stream that ends too early.
pub proof fn streams_are_read_by_their_length(stream: Seq<u8>)
    ensures
        stream.len() < 4 ==> unframed(stream) == Err::<Seq<u8>, FrameError>(FrameError::Truncated),
        stream.len() >= 4 ==> ({
            let n = ((stream[0] * 256 + stream[1]) * 256 + stream[2]) * 256 + stream[3];
            &&& n > 16 * 1024 * 1024 ==> (unframed(stream) matches Err(FrameError::TooBig { bytes })
                && bytes == n)
            &&& n <= 16 * 1024 * 1024 ==> stream.len() - 4 < n ==> unframed(stream) == Err::<
                Seq<u8>,
                FrameError,
            >(FrameError::Truncated)
            &&& n <= 16 * 1024 * 1024 ==> stream.len() - 4 >= n ==> unframed(stream) == Ok::<
                Seq<u8>,
                FrameError,
            >(stream.skip(4).take(n))
        }),
{
    if stream.len() >= 4 {
        let n = length_of(stream);
        if n <= stream.len() - 4 {
            assert(stream.skip(4).take(n) =~= stream.subrange(4, 4 + n));
        }
    }
}

} // verus!
