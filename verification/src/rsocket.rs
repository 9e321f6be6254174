//! SMEV 4 transport frames (a simplified internal framing, not the RSocket
//! wire protocol).

use vstd::prelude::*;

verus! {

/// A transport frame.
#[derive(Debug, Clone)]
pub enum RSocketFrame {
    RequestResponse { id: u32, payload: Vec<u8> },
    Stream { id: u32, payload: Vec<u8> },
    Cancel { id: u32 },
    Error { id: u32, message: String },
}

/// The big-endian bytes of a `u32`.
pub open spec fn be_bytes_u32(x: u32) -> Seq<u8> {
    seq![
        (x / 16777216) as u8,
        (x / 65536 % 256) as u8,
        (x / 256 % 256) as u8,
        (x % 256) as u8,
    ]
}

/// The encoding of a frame: a type byte (`0x01` request-response, `0x02`
/// stream, `0x09` cancel, `0x0B` error), the id in big-endian bytes, then the
/// payload or the UTF-8 bytes of the message.
pub open spec fn frame_bytes(f: RSocketFrame) -> Seq<u8> {
    match f {
        RSocketFrame::RequestResponse { id, payload } => seq![0x01u8] + be_bytes_u32(id)
            + payload@,
        RSocketFrame::Stream { id, payload } => seq![0x02u8] + be_bytes_u32(id) + payload@,
        RSocketFrame::Cancel { id } => seq![0x09u8] + be_bytes_u32(id),
        RSocketFrame::Error { id, message } => seq![0x0Bu8] + be_bytes_u32(id)
            + vstd::utf8::encode_utf8(message@),
    }
}

fn push_be_u32(buf: &mut Vec<u8>, x: u32)
    ensures
        final(buf)@ == old(buf)@ + be_bytes_u32(x),
{
    buf.push((x / 16777216) as u8);
    buf.push((x / 65536 % 256) as u8);
    buf.push((x / 256 % 256) as u8);
    buf.push((x % 256) as u8);
    proof {
        assert(buf@ =~= old(buf)@ + be_bytes_u32(x));
    }
}

fn push_all(buf: &mut Vec<u8>, data: &[u8])
    ensures
        final(buf)@ == old(buf)@ + data@,
{
    let n = data.len();
    let mut i: usize = 0;
    while i < n
        invariant
            n == data@.len(),
            0 <= i <= n,
            buf@ == old(buf)@ + data@.take(i as int),
        decreases n - i,
    {
        buf.push(data[i]);
        proof {
            assert(data@.take(i as int + 1) =~= data@.take(i as int).push(data@[i as int]));
        }
        i = i + 1;
    }
    proof {
        assert(data@.take(n as int) =~= data@);
    }
}

/// The id written by a frame reads back from its four bytes, most
/// significant first.
proof fn lemma_be_bytes_read_back(x: u32)
    ensures
        be_bytes_u32(x)[0] as int * 16777216 + be_bytes_u32(x)[1] as int * 65536
            + be_bytes_u32(x)[2] as int * 256 + be_bytes_u32(x)[3] as int == x as int,
{
    let b = be_bytes_u32(x);
    assert(b[0] as int == x as int / 16777216);
    assert(b[1] as int == x as int / 65536 % 256);
    assert(b[2] as int == x as int / 256 % 256);
    assert(b[3] as int == x as int % 256);
    assert(x as int / 16777216 * 16777216 + x as int / 65536 % 256 * 65536 + x as int / 256 % 256
        * 256 + x as int % 256 == x as int) by (nonlinear_arith)
        requires
            0 <= x as int,
    ;
}

/// Every frame is laid out alike: one type byte (`0x01` request-response,
/// `0x02` stream, `0x09` cancel, `0x0B` error), the id in the next four
/// bytes, most significant first, and then every byte of the payload (for an
/// error, of the message's UTF-8 text) in order and nothing else; a cancel
/// frame is the five header bytes alone.
pub proof fn lemma_frame_layout(f: RSocketFrame)
    ensures
        frame_bytes(f).len() >= 5,
        frame_bytes(f)[1] as int * 16777216 + frame_bytes(f)[2] as int * 65536
            + frame_bytes(f)[3] as int * 256 + frame_bytes(f)[4] as int == (match f {
            RSocketFrame::RequestResponse { id, .. } => id,
            RSocketFrame::Stream { id, .. } => id,
            RSocketFrame::Cancel { id } => id,
            RSocketFrame::Error { id, .. } => id,
        }) as int,
        f matches RSocketFrame::RequestResponse { payload, .. } ==> frame_bytes(f)[0] == 0x01u8
            && frame_bytes(f).len() == 5 + payload@.len() && forall|i: int|
            0 <= i < payload@.len() ==> frame_bytes(f)[5 + i] == payload@[i],
        f matches RSocketFrame::Stream { payload, .. } ==> frame_bytes(f)[0] == 0x02u8
            && frame_bytes(f).len() == 5 + payload@.len() && forall|i: int|
            0 <= i < payload@.len() ==> frame_bytes(f)[5 + i] == payload@[i],
        f is Cancel ==> frame_bytes(f)[0] == 0x09u8 && frame_bytes(f).len() == 5,
        f matches RSocketFrame::Error { message, .. } ==> frame_bytes(f)[0] == 0x0Bu8
            && frame_bytes(f).len() == 5 + vstd::utf8::encode_utf8(message@).len() && forall|i: int|
            0 <= i < vstd::utf8::encode_utf8(message@).len() ==> frame_bytes(f)[5 + i]
                == vstd::utf8::encode_utf8(message@)[i],
{
    let id = match f {
        RSocketFrame::RequestResponse { id, .. } => id,
        RSocketFrame::Stream { id, .. } => id,
        RSocketFrame::Cancel { id } => id,
        RSocketFrame::Error { id, .. } => id,
    };
    lemma_be_bytes_read_back(id);
    let b = frame_bytes(f);
    assert(b[1] == be_bytes_u32(id)[0]);
    assert(b[2] == be_bytes_u32(id)[1]);
    assert(b[3] == be_bytes_u32(id)[2]);
    assert(b[4] == be_bytes_u32(id)[3]);
}

impl RSocketFrame {
    /// Encodes the frame into a binary buffer.
    pub fn encode(&self) -> (buf: Vec<u8>)
        ensures
            buf@ == frame_bytes(*self),
    {
        let mut buf: Vec<u8> = Vec::new();
        match self {
            RSocketFrame::RequestResponse { id, payload } => {
                buf.push(0x01);
                push_be_u32(&mut buf, *id);
                push_all(&mut buf, payload.as_slice());
            },
            RSocketFrame::Stream { id, payload } => {
                buf.push(0x02);
                push_be_u32(&mut buf, *id);
                push_all(&mut buf, payload.as_slice());
            },
            RSocketFrame::Cancel { id } => {
                buf.push(0x09);
                push_be_u32(&mut buf, *id);
            },
            RSocketFrame::Error { id, message } => {
                buf.push(0x0B);
                push_be_u32(&mut buf, *id);
                push_all(&mut buf, message.as_str().as_bytes());
            },
        }
        proof {
            assert(buf@ =~= frame_bytes(*self));
        }
        buf
    }
}

/// A client of the SMEV 4 audit stream.
pub struct RSocketClient {
    pub endpoint: String,
}

impl RSocketClient {
    /// A client of the stream at `endpoint`.
    pub fn new(endpoint: &str) -> (c: RSocketClient)
        ensures
            c.endpoint@ == endpoint@,
    {
        RSocketClient { endpoint: endpoint.to_owned() }
    }
}

} // verus!
