//! Wire frames and their byte codec.
//!
//! Every frame crossing a byte-oriented transport is encoded as a one-byte
//! tag followed by fixed-width little-endian fields; a message frame adds a
//! length-prefixed payload.  `spec_decode` is the mathematical parser; the
//! executable encoder and decoder are proved against it, and
//! `lemma_decode_encoded` shows the codec round-trips, so a byte stream that
//! is a concatenation of encoded frames parses back to exactly those frames
//! in order.
use vstd::bytes::*;
use vstd::prelude::*;
use vstd::slice::slice_subrange;
use vstd::slice::slice_to_vec;

verus! {

/// A frame as it crosses the transport.
#[derive(Clone, Debug, PartialEq, Eq)]
pub enum Frame {
    /// Handshake opener: the initiator's protocol version, identity and
    /// proposed secret.
    Hello { version: u64, pid: u128, secret: u128 },
    /// Handshake answer: the responder's identity, the accepted secret and
    /// the initial stream id granted to the initiator.
    Accept { pid: u128, secret: u128, initial_sid: u64 },
    /// Handshake refusal: the versions are incompatible.
    Reject,
    /// Open one logical stream.
    OpenStream { sid: u64, prio: u8, promises: u8, guaranteed_bandwidth: u64 },
    /// Close one logical stream.
    CloseStream { sid: u64 },
    /// One payload on a stream.
    Message { sid: u64, data: Vec<u8> },
    /// Tear the connection down.
    Shutdown,
}

/// The mathematical shape of a frame: what `Frame` is, with the payload as a
/// byte sequence.
#[verifier::ext_equal]
pub enum FrameV {
    Hello { version: u64, pid: u128, secret: u128 },
    Accept { pid: u128, secret: u128, initial_sid: u64 },
    Reject,
    OpenStream { sid: u64, prio: u8, promises: u8, guaranteed_bandwidth: u64 },
    CloseStream { sid: u64 },
    Message { sid: u64, data: Seq<u8> },
    Shutdown,
}

impl View for Frame {
    type V = FrameV;

    open spec fn view(&self) -> FrameV {
        match self {
            Frame::Hello { version, pid, secret } => FrameV::Hello {
                version: *version,
                pid: *pid,
                secret: *secret,
            },
            Frame::Accept { pid, secret, initial_sid } => FrameV::Accept {
                pid: *pid,
                secret: *secret,
                initial_sid: *initial_sid,
            },
            Frame::Reject => FrameV::Reject,
            Frame::OpenStream { sid, prio, promises, guaranteed_bandwidth } => FrameV::OpenStream {
                sid: *sid,
                prio: *prio,
                promises: *promises,
                guaranteed_bandwidth: *guaranteed_bandwidth,
            },
            Frame::CloseStream { sid } => FrameV::CloseStream { sid: *sid },
            Frame::Message { sid, data } => FrameV::Message { sid: *sid, data: data@ },
            Frame::Shutdown => FrameV::Shutdown,
        }
    }
}

/// The view of an optional frame.
pub open spec fn opt_frame_view(o: Option<Frame>) -> Option<FrameV> {
    match o {
        Some(f) => Some(f@),
        None => None,
    }
}

/// A frame that can be put on the wire: a message payload must fit the
/// four-byte length prefix.
pub open spec fn valid_frame(f: FrameV) -> bool {
    match f {
        FrameV::Message { data, .. } => data.len() <= u32::MAX,
        _ => true,
    }
}

/// The exact bytes of one encoded frame.
pub open spec fn frame_bytes(f: FrameV) -> Seq<u8> {
    match f {
        FrameV::Hello { version, pid, secret } => seq![1u8] + spec_u64_to_le_bytes(version)
            + spec_u128_to_le_bytes(pid) + spec_u128_to_le_bytes(secret),
        FrameV::Accept { pid, secret, initial_sid } => seq![2u8] + spec_u128_to_le_bytes(pid)
            + spec_u128_to_le_bytes(secret) + spec_u64_to_le_bytes(initial_sid),
        FrameV::Reject => seq![3u8],
        FrameV::OpenStream { sid, prio, promises, guaranteed_bandwidth } => seq![4u8]
            + spec_u64_to_le_bytes(sid) + seq![prio, promises]
            + spec_u64_to_le_bytes(guaranteed_bandwidth),
        FrameV::CloseStream { sid } => seq![5u8] + spec_u64_to_le_bytes(sid),
        FrameV::Message { sid, data } => seq![6u8] + spec_u64_to_le_bytes(sid)
            + spec_u32_to_le_bytes(data.len() as u32) + data,
        FrameV::Shutdown => seq![7u8],
    }
}

/// The mathematical parser: the first frame of `b` and how many bytes it
/// spans, or `None` when no complete frame starts `b`.
pub open spec fn spec_decode(b: Seq<u8>) -> Option<(FrameV, int)> {
    if b.len() < 1 {
        None
    } else {
        let tag = b[0];
        if tag == 1 {
            if b.len() >= 41 {
                Some(
                    (
                        FrameV::Hello {
                            version: spec_u64_from_le_bytes(b.subrange(1, 9)),
                            pid: spec_u128_from_le_bytes(b.subrange(9, 25)),
                            secret: spec_u128_from_le_bytes(b.subrange(25, 41)),
                        },
                        41,
                    ),
                )
            } else {
                None
            }
        } else if tag == 2 {
            if b.len() >= 41 {
                Some(
                    (
                        FrameV::Accept {
                            pid: spec_u128_from_le_bytes(b.subrange(1, 17)),
                            secret: spec_u128_from_le_bytes(b.subrange(17, 33)),
                            initial_sid: spec_u64_from_le_bytes(b.subrange(33, 41)),
                        },
                        41,
                    ),
                )
            } else {
                None
            }
        } else if tag == 3 {
            Some((FrameV::Reject, 1))
        } else if tag == 4 {
            if b.len() >= 19 {
                Some(
                    (
                        FrameV::OpenStream {
                            sid: spec_u64_from_le_bytes(b.subrange(1, 9)),
                            prio: b[9],
                            promises: b[10],
                            guaranteed_bandwidth: spec_u64_from_le_bytes(b.subrange(11, 19)),
                        },
                        19,
                    ),
                )
            } else {
                None
            }
        } else if tag == 5 {
            if b.len() >= 9 {
                Some((FrameV::CloseStream { sid: spec_u64_from_le_bytes(b.subrange(1, 9)) }, 9))
            } else {
                None
            }
        } else if tag == 6 {
            if b.len() >= 13 {
                let l = spec_u32_from_le_bytes(b.subrange(9, 13)) as int;
                if b.len() >= 13 + l {
                    Some(
                        (
                            FrameV::Message {
                                sid: spec_u64_from_le_bytes(b.subrange(1, 9)),
                                data: b.subrange(13, 13 + l),
                            },
                            13 + l,
                        ),
                    )
                } else {
                    None
                }
            } else {
                None
            }
        } else if tag == 7 {
            Some((FrameV::Shutdown, 1))
        } else {
            None
        }
    }
}

/// A successful parse spans at least the tag byte and never more than the
/// input.
pub proof fn lemma_spec_decode_len(b: Seq<u8>)
    ensures
        spec_decode(b) matches Some((f, n)) ==> 1 <= n <= b.len(),
{
}

/// The codec round-trips: an encoded frame at the head of a byte stream
/// parses back to itself, whatever follows it.
pub proof fn lemma_decode_encoded(f: FrameV, rest: Seq<u8>)
    requires
        valid_frame(f),
    ensures
        spec_decode(frame_bytes(f) + rest) == Some((f, frame_bytes(f).len() as int)),
{
    lemma_auto_spec_u64_to_from_le_bytes();
    lemma_auto_spec_u32_to_from_le_bytes();
    lemma_auto_spec_u128_to_from_le_bytes();
    let b = frame_bytes(f) + rest;
    match f {
        FrameV::Hello { version, pid, secret } => {
            assert(b.subrange(1, 9) =~= spec_u64_to_le_bytes(version));
            assert(b.subrange(9, 25) =~= spec_u128_to_le_bytes(pid));
            assert(b.subrange(25, 41) =~= spec_u128_to_le_bytes(secret));
        },
        FrameV::Accept { pid, secret, initial_sid } => {
            assert(b.subrange(1, 17) =~= spec_u128_to_le_bytes(pid));
            assert(b.subrange(17, 33) =~= spec_u128_to_le_bytes(secret));
            assert(b.subrange(33, 41) =~= spec_u64_to_le_bytes(initial_sid));
        },
        FrameV::Reject => {},
        FrameV::OpenStream { sid, prio, promises, guaranteed_bandwidth } => {
            assert(b.subrange(1, 9) =~= spec_u64_to_le_bytes(sid));
            assert(b.subrange(11, 19) =~= spec_u64_to_le_bytes(guaranteed_bandwidth));
        },
        FrameV::CloseStream { sid } => {
            assert(b.subrange(1, 9) =~= spec_u64_to_le_bytes(sid));
        },
        FrameV::Message { sid, data } => {
            assert(b.subrange(1, 9) =~= spec_u64_to_le_bytes(sid));
            assert(b.subrange(9, 13) =~= spec_u32_to_le_bytes(data.len() as u32));
            let l = spec_u32_from_le_bytes(b.subrange(9, 13)) as int;
            assert(l == data.len());
            assert(b.subrange(13, 13 + l) =~= data);
        },
        FrameV::Shutdown => {},
    }
}

/// The views of a vector of frames.
pub open spec fn frames_view(s: Seq<Frame>) -> Seq<FrameV> {
    s.map_values(|f: Frame| f@)
}

/// The byte stream produced by encoding each frame in order.
pub open spec fn frames_bytes(fs: Seq<FrameV>) -> Seq<u8>
    decreases fs.len(),
{
    if fs.len() == 0 {
        Seq::empty()
    } else {
        frame_bytes(fs[0]) + frames_bytes(fs.skip(1))
    }
}

/// Every frame of `fs` can be put on the wire.
pub open spec fn valid_frames(fs: Seq<FrameV>) -> bool {
    forall|i: int| 0 <= i < fs.len() ==> valid_frame(#[trigger] fs[i])
}

/// Parse as many complete frames as `b` holds, in order, and the unparsed
/// tail.
pub open spec fn spec_decode_all(b: Seq<u8>) -> (Seq<FrameV>, Seq<u8>)
    decreases b.len(),
{
    match spec_decode(b) {
        None => (Seq::empty(), b),
        Some((f, n)) => {
            if 1 <= n <= b.len() {
                let r = spec_decode_all(b.skip(n));
                (seq![f] + r.0, r.1)
            } else {
                (Seq::empty(), b)
            }
        },
    }
}

/// Chunking does not matter: a byte stream that starts with whole encoded
/// frames parses back to exactly those frames in order, followed by whatever
/// the remainder parses to.
pub proof fn lemma_decode_all_encoded(fs: Seq<FrameV>, rest: Seq<u8>)
    requires
        valid_frames(fs),
    ensures
        spec_decode_all(frames_bytes(fs) + rest).0 == fs + spec_decode_all(rest).0,
        spec_decode_all(frames_bytes(fs) + rest).1 == spec_decode_all(rest).1,
    decreases fs.len(),
{
    if fs.len() == 0 {
        assert(frames_bytes(fs) + rest =~= rest);
        assert(fs + spec_decode_all(rest).0 =~= spec_decode_all(rest).0);
    } else {
        let f = fs[0];
        let tail = frames_bytes(fs.skip(1)) + rest;
        let b = frames_bytes(fs) + rest;
        assert(b =~= frame_bytes(f) + tail);
        lemma_decode_encoded(f, tail);
        let n = frame_bytes(f).len() as int;
        lemma_spec_decode_len(b);
        assert(b.skip(n) =~= tail);
        assert(valid_frames(fs.skip(1))) by {
            assert(forall|i: int|
                0 <= i < fs.skip(1).len() ==> fs.skip(1)[i] == #[trigger] fs[i + 1]);
        }
        lemma_decode_all_encoded(fs.skip(1), rest);
        assert(seq![f] + (fs.skip(1) + spec_decode_all(rest).0) =~= fs + spec_decode_all(rest).0);
    }
}

/// Take every complete frame off the front of `buf`, leaving only the bytes
/// of a trailing partial frame.
pub fn drain_frames(buf: &mut Vec<u8>) -> (frames: Vec<Frame>)
    ensures
        frames_view(frames@) == spec_decode_all(old(buf)@).0,
        final(buf)@ == spec_decode_all(old(buf)@).1,
        valid_frames(frames_view(frames@)),
{
    let mut frames: Vec<Frame> = Vec::new();
    let mut pos: usize = 0;
    let total: usize = buf.len();
    let mut going = true;
    proof {
        assert(buf@.skip(0) =~= buf@);
        assert(frames_view(frames@) + spec_decode_all(buf@).0 =~= spec_decode_all(buf@).0);
    }
    while going
        invariant
            pos <= buf@.len(),
            total == buf@.len(),
            buf@ == old(buf)@,
            spec_decode_all(old(buf)@).0 == frames_view(frames@) + spec_decode_all(
                buf@.skip(pos as int),
            ).0,
            spec_decode_all(old(buf)@).1 == spec_decode_all(buf@.skip(pos as int)).1,
            valid_frames(frames_view(frames@)),
            !going ==> spec_decode(buf@.skip(pos as int)) is None,
        decreases buf@.len() - pos + (if going { 1int } else { 0int }),
    {
        match decode_frame(buf, pos) {
            Some((f, n)) => {
                proof {
                    assert(buf@.skip(pos as int).skip(n as int) =~= buf@.skip(pos + n));
                    assert(frames_view(frames@.push(f)) =~= frames_view(frames@) + seq![f@]);
                    assert(frames_view(frames@) + (seq![f@] + spec_decode_all(
                        buf@.skip(pos + n),
                    ).0) =~= frames_view(frames@.push(f)) + spec_decode_all(buf@.skip(pos + n)).0);
                }
                frames.push(f);
                pos = pos + n;
            },
            None => {
                going = false;
            },
        }
    }
    proof {
        assert(spec_decode_all(old(buf)@).0 =~= frames_view(frames@));
    }
    let mut tail = buf.split_off(pos);
    core::mem::swap(buf, &mut tail);
    frames
}

/// Append the encoding of `f` to `out`.
pub fn encode_frame(f: &Frame, out: &mut Vec<u8>)
    requires
        valid_frame(f@),
    ensures
        final(out)@ == old(out)@ + frame_bytes(f@),
{
    match f {
        Frame::Hello { version, pid, secret } => {
            out.push(1u8);
            let mut t = u64_to_le_bytes(*version);
            out.append(&mut t);
            let mut t = u128_to_le_bytes(*pid);
            out.append(&mut t);
            let mut t = u128_to_le_bytes(*secret);
            out.append(&mut t);
            assert(out@ =~= old(out)@ + frame_bytes(f@));
        },
        Frame::Accept { pid, secret, initial_sid } => {
            out.push(2u8);
            let mut t = u128_to_le_bytes(*pid);
            out.append(&mut t);
            let mut t = u128_to_le_bytes(*secret);
            out.append(&mut t);
            let mut t = u64_to_le_bytes(*initial_sid);
            out.append(&mut t);
            assert(out@ =~= old(out)@ + frame_bytes(f@));
        },
        Frame::Reject => {
            out.push(3u8);
            assert(out@ =~= old(out)@ + frame_bytes(f@));
        },
        Frame::OpenStream { sid, prio, promises, guaranteed_bandwidth } => {
            out.push(4u8);
            let mut t = u64_to_le_bytes(*sid);
            out.append(&mut t);
            out.push(*prio);
            out.push(*promises);
            let mut t = u64_to_le_bytes(*guaranteed_bandwidth);
            out.append(&mut t);
            assert(out@ =~= old(out)@ + frame_bytes(f@));
        },
        Frame::CloseStream { sid } => {
            out.push(5u8);
            let mut t = u64_to_le_bytes(*sid);
            out.append(&mut t);
            assert(out@ =~= old(out)@ + frame_bytes(f@));
        },
        Frame::Message { sid, data } => {
            out.push(6u8);
            let mut t = u64_to_le_bytes(*sid);
            out.append(&mut t);
            let len32: u32 = data.len() as u32;
            let mut t = u32_to_le_bytes(len32);
            out.append(&mut t);
            out.extend_from_slice(data.as_slice());
            assert(out@ =~= old(out)@ + frame_bytes(f@));
        },
        Frame::Shutdown => {
            out.push(7u8);
            assert(out@ =~= old(out)@ + frame_bytes(f@));
        },
    }
}

/// Byte production is one frame at a time: encoding a prefix and then one
/// more frame is the same as encoding the longer prefix.
pub proof fn lemma_frames_bytes_snoc(fs: Seq<FrameV>, i: int)
    requires
        0 <= i < fs.len(),
    ensures
        frames_bytes(fs.take(i + 1)) == frames_bytes(fs.take(i)) + frame_bytes(fs[i]),
    decreases i,
{
    if i == 0 {
        assert(fs.take(1)[0] == fs[0]);
        assert(fs.take(1).skip(1) =~= Seq::<FrameV>::empty());
        assert(frames_bytes(Seq::<FrameV>::empty()) == Seq::<u8>::empty());
        assert(frame_bytes(fs[0]) + Seq::<u8>::empty() =~= frame_bytes(fs[0]));
        assert(frames_bytes(fs.take(1)) =~= frame_bytes(fs[0]));
        assert(frames_bytes(fs.take(0)) =~= Seq::<u8>::empty());
        assert(frames_bytes(fs.take(0)) + frame_bytes(fs[0]) =~= frame_bytes(fs[0]));
    } else {
        lemma_frames_bytes_snoc(fs.skip(1), i - 1);
        assert(fs.take(i + 1)[0] == fs[0]);
        assert(fs.take(i + 1).skip(1) =~= fs.skip(1).take(i));
        assert(fs.take(i).skip(1) =~= fs.skip(1).take(i - 1));
        assert(fs.take(i)[0] == fs[0]);
        assert(fs.skip(1)[i - 1] == fs[i]);
        assert(frame_bytes(fs[0]) + (frames_bytes(fs.skip(1).take(i - 1)) + frame_bytes(fs[i]))
            =~= (frame_bytes(fs[0]) + frames_bytes(fs.skip(1).take(i - 1))) + frame_bytes(fs[i]));
        assert(frames_bytes(fs.take(i + 1)) =~= frames_bytes(fs.take(i)) + frame_bytes(fs[i]));
    }
}

/// Append the encodings of all of `frames`, in order, to `out`.
pub fn encode_frames(frames: &Vec<Frame>, out: &mut Vec<u8>)
    requires
        valid_frames(frames_view(frames@)),
    ensures
        final(out)@ == old(out)@ + frames_bytes(frames_view(frames@)),
{
    let ghost fv = frames_view(frames@);
    let mut i: usize = 0;
    proof {
        assert(fv.take(0) =~= Seq::<FrameV>::empty());
        assert(out@ =~= old(out)@ + frames_bytes(fv.take(0)));
    }
    while i < frames.len()
        invariant
            i <= frames@.len(),
            fv == frames_view(frames@),
            fv.len() == frames@.len(),
            valid_frames(fv),
            out@ == old(out)@ + frames_bytes(fv.take(i as int)),
        decreases frames@.len() - i,
    {
        proof {
            assert(frames[i as int]@ == fv[i as int]);
            assert(valid_frame(fv[i as int]));
        }
        encode_frame(&frames[i], out);
        proof {
            lemma_frames_bytes_snoc(fv, i as int);
            assert((old(out)@ + frames_bytes(fv.take(i as int))) + frame_bytes(fv[i as int])
                =~= old(out)@ + (frames_bytes(fv.take(i as int)) + frame_bytes(fv[i as int])));
        }
        i = i + 1;
    }
    proof {
        assert(fv.take(fv.len() as int) =~= fv);
    }
}

/// Parse the first frame of `buf` starting at `start`, returning it with the
/// number of bytes it spans.  Mirrors `spec_decode` exactly.
pub fn decode_frame(buf: &Vec<u8>, start: usize) -> (r: Option<(Frame, usize)>)
    requires
        start <= buf@.len(),
    ensures
        match r {
            Some((f, n)) => {
                &&& spec_decode(buf@.skip(start as int)) == Some((f@, n as int))
                &&& 1 <= n <= buf@.len() - start
                &&& valid_frame(f@)
            },
            None => spec_decode(buf@.skip(start as int)) is None,
        },
{
    let ghost b = buf@.skip(start as int);
    let rem = buf.len() - start;
    if rem < 1 {
        return None;
    }
    let tag = buf[start];
    assert(tag == b[0]);
    if tag == 1 {
        if rem < 41 {
            return None;
        }
        let version = u64_from_le_bytes(slice_subrange(buf.as_slice(), start + 1, start + 9));
        let pid = u128_from_le_bytes(slice_subrange(buf.as_slice(), start + 9, start + 25));
        let secret = u128_from_le_bytes(slice_subrange(buf.as_slice(), start + 25, start + 41));
        assert(buf@.subrange(start + 1, start + 9) =~= b.subrange(1, 9));
        assert(buf@.subrange(start + 9, start + 25) =~= b.subrange(9, 25));
        assert(buf@.subrange(start + 25, start + 41) =~= b.subrange(25, 41));
        Some((Frame::Hello { version, pid, secret }, 41))
    } else if tag == 2 {
        if rem < 41 {
            return None;
        }
        let pid = u128_from_le_bytes(slice_subrange(buf.as_slice(), start + 1, start + 17));
        let secret = u128_from_le_bytes(slice_subrange(buf.as_slice(), start + 17, start + 33));
        let initial_sid = u64_from_le_bytes(slice_subrange(buf.as_slice(), start + 33, start + 41));
        assert(buf@.subrange(start + 1, start + 17) =~= b.subrange(1, 17));
        assert(buf@.subrange(start + 17, start + 33) =~= b.subrange(17, 33));
        assert(buf@.subrange(start + 33, start + 41) =~= b.subrange(33, 41));
        Some((Frame::Accept { pid, secret, initial_sid }, 41))
    } else if tag == 3 {
        Some((Frame::Reject, 1))
    } else if tag == 4 {
        if rem < 19 {
            return None;
        }
        let sid = u64_from_le_bytes(slice_subrange(buf.as_slice(), start + 1, start + 9));
        let prio = buf[start + 9];
        let promises = buf[start + 10];
        let guaranteed_bandwidth = u64_from_le_bytes(
            slice_subrange(buf.as_slice(), start + 11, start + 19),
        );
        assert(buf@.subrange(start + 1, start + 9) =~= b.subrange(1, 9));
        assert(buf@.subrange(start + 11, start + 19) =~= b.subrange(11, 19));
        assert(prio == b[9] && promises == b[10]);
        Some((Frame::OpenStream { sid, prio, promises, guaranteed_bandwidth }, 19))
    } else if tag == 5 {
        if rem < 9 {
            return None;
        }
        let sid = u64_from_le_bytes(slice_subrange(buf.as_slice(), start + 1, start + 9));
        assert(buf@.subrange(start + 1, start + 9) =~= b.subrange(1, 9));
        Some((Frame::CloseStream { sid }, 9))
    } else if tag == 6 {
        if rem < 13 {
            return None;
        }
        let sid = u64_from_le_bytes(slice_subrange(buf.as_slice(), start + 1, start + 9));
        let len32 = u32_from_le_bytes(slice_subrange(buf.as_slice(), start + 9, start + 13));
        assert(buf@.subrange(start + 1, start + 9) =~= b.subrange(1, 9));
        assert(buf@.subrange(start + 9, start + 13) =~= b.subrange(9, 13));
        let l = len32 as usize;
        if rem - 13 < l {
            return None;
        }
        let data = slice_to_vec(slice_subrange(buf.as_slice(), start + 13, start + 13 + l));
        assert(buf@.subrange(start + 13, start + 13 + l) =~= b.subrange(13, 13 + l));
        let n = 13 + l;
        Some((Frame::Message { sid, data }, n))
    } else if tag == 7 {
        Some((Frame::Shutdown, 1))
    } else {
        None
    }
}

} // verus!
