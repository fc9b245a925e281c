//! The application messages that follow the handshake, and their framing.
//!
//! A frame is a kind byte and a body: a control frame carries a JSON message,
//! a file chunk carries a big-endian index and the bytes of the file.

use vstd::prelude::*;

use crate::consts::{
    KIND_CONTROL, KIND_FILE_CHUNK, MAX_FILE_DATA, MAX_PLAINTEXT, TRANSFER_V1, TRANSFER_V2,
};
use crate::error::{LanBeamError, Result};
use crate::text::{hex_lower, hex_lower_char};

verus! {

/// The transfer versions that this build speaks.
pub open spec fn supported(v: u8) -> bool {
    v == TRANSFER_V1 || v == TRANSFER_V2
}

/// Whether `r` is the highest of the versions that is supported here.
pub open spec fn highest_shared(r: Option<u8>, versions: Seq<u8>) -> bool {
    match r {
        Some(v) => {
            &&& supported(v)
            &&& versions.contains(v)
            &&& forall|i: int|
                0 <= i < versions.len() && supported(#[trigger] versions[i]) ==> versions[i] <= v
        },
        None => forall|i: int| 0 <= i < versions.len() ==> !supported(#[trigger] versions[i]),
    }
}

/// The highest version that both sides speak, if there is one.
pub fn negotiate_version(peer_versions: &[u8]) -> (r: Option<u8>)
    ensures
        highest_shared(r, peer_versions@),
{
    let mut best: Option<u8> = None;
    for i in 0..peer_versions.len()
        invariant
            match best {
                Some(v) => {
                    &&& supported(v)
                    &&& peer_versions@.contains(v)
                    &&& forall|k: int|
                        0 <= k < i && supported(#[trigger] peer_versions@[k])
                            ==> peer_versions@[k] <= v
                },
                None => forall|k: int| 0 <= k < i ==> !supported(#[trigger] peer_versions@[k]),
            },
    {
        let v: u8 = peer_versions[i];
        if v == TRANSFER_V1 || v == TRANSFER_V2 {
            proof {
                assert(peer_versions@[i as int] == v);
            }
            match best {
                Some(b) => {
                    if v > b {
                        best = Some(v);
                    }
                },
                None => {
                    best = Some(v);
                },
            }
        }
    }
    best
}

/// A file of a manifest. Its name is what the sender says; the receiver never
/// trusts it.
#[derive(Debug, Clone, PartialEq)]
pub struct FileMeta {
    pub name: String,
    pub size: u64,
    pub mtime: i64,
    pub mode: u32,
    /// The lower case hexadecimal SHA-256 of the contents, if the sender
    /// computed it.
    pub sha256: Option<String>,
}

/// How much of a file the receiver already holds.
#[derive(Debug, Clone, Copy, PartialEq, Eq, Structural)]
pub struct ResumeOffset {
    pub index: u32,
    pub offset: u64,
}

#[derive(Debug, Clone, PartialEq)]
pub enum AppMessage {
    Hello { versions: Vec<u8> },
    DeviceInfo { name: String, platform: String, app_version: String },
    /// The manifest is paged: a beginning, one entry per file, an end.
    FileListBegin { transfer_id: String, total_size: u64, file_count: u32 },
    FileListEntry { file: FileMeta },
    FileListEnd { transfer_id: String },
    FileSendReply {
        transfer_id: String,
        accept: bool,
        reason: Option<String>,
        /// Only the files that can resume; the others start at zero.
        offsets: Option<Vec<ResumeOffset>>,
    },
    TransferAck { transfer_id: String, ok: bool, error: Option<String> },
    PairRequest { code: String },
    PairConfirm { accept: bool, name: String, reason: Option<String> },
    TextSend { text: String, to_clipboard: Option<bool> },
    Ack { of: String },
    Error { code: String, message: String },
    Bye,
}

/// A frame taken apart. The JSON of a control frame is not interpreted here.
#[derive(Debug, PartialEq)]
pub enum Frame {
    Control(Vec<u8>),
    /// Chunk index and file bytes.
    FileChunk(u32, Vec<u8>),
}

/// A frame as a mathematical value.
pub enum FrameView {
    Control(Seq<u8>),
    FileChunk(u32, Seq<u8>),
}

impl View for Frame {
    type V = FrameView;

    open spec fn view(&self) -> FrameView {
        match self {
            Frame::Control(v) => FrameView::Control(v@),
            Frame::FileChunk(i, v) => FrameView::FileChunk(*i, v@),
        }
    }
}

/// The four bytes of a number, most significant first.
pub open spec fn be_bytes(n: u32) -> Seq<u8> {
    seq![
        (n / 0x100_0000) as u8,
        (n / 0x1_0000 % 256) as u8,
        (n / 0x100 % 256) as u8,
        (n % 256) as u8,
    ]
}

pub open spec fn be_value(b: Seq<u8>) -> int {
    b[0] * 0x100_0000 + b[1] * 0x1_0000 + b[2] * 0x100 + b[3]
}

pub open spec fn control_frame(json: Seq<u8>) -> Seq<u8> {
    seq![KIND_CONTROL] + json
}

pub open spec fn chunk_frame(index: u32, data: Seq<u8>) -> Seq<u8> {
    seq![KIND_FILE_CHUNK] + be_bytes(index) + data
}

/// What a plaintext frame holds, or why it is refused.
pub open spec fn decoded(plaintext: Seq<u8>) -> std::result::Result<FrameView, Seq<char>> {
    let body = plaintext.drop_first();
    if plaintext.len() == 0 {
        Err("empty frame"@)
    } else if plaintext[0] == KIND_CONTROL {
        Ok(FrameView::Control(body))
    } else if plaintext[0] == KIND_FILE_CHUNK {
        if body.len() < 4 {
            Err("truncated file chunk header"@)
        } else {
            Ok(
                FrameView::FileChunk(
                    be_value(body) as u32,
                    body.subrange(4, body.len() as int),
                ),
            )
        }
    } else {
        Err(
            "unknown frame kind 0x"@ + seq![
                hex_lower(plaintext[0] / 16),
                hex_lower(plaintext[0] % 16),
            ],
        )
    }
}

fn extend(out: &mut Vec<u8>, bytes: &[u8])
    ensures
        final(out)@ == old(out)@ + bytes@,
{
    let ghost before = out@;
    for i in 0..bytes.len()
        invariant
            out@ == before + bytes@.subrange(0, i as int),
    {
        out.push(bytes[i]);
        proof {
            assert(out@ =~= before + bytes@.subrange(0, i + 1));
        }
    }
    proof {
        assert(bytes@.subrange(0, bytes@.len() as int) =~= bytes@);
    }
}

/// Frames the JSON of a control message.
pub fn encode_control(json: &[u8]) -> (r: Vec<u8>)
    ensures
        r@ == control_frame(json@),
{
    let mut out: Vec<u8> = Vec::new();
    out.push(KIND_CONTROL);
    extend(&mut out, json);
    proof {
        assert(out@ =~= control_frame(json@));
    }
    out
}

/// Frames a chunk of a file.
pub fn encode_file_chunk(index: u32, bytes: &[u8]) -> (r: Result<Vec<u8>>)
    ensures
        match r {
            Ok(v) => bytes@.len() <= MAX_FILE_DATA && v@ == chunk_frame(index, bytes@),
            Err(e) => bytes@.len() > MAX_FILE_DATA && (e matches LanBeamError::Protocol(m) && m@
                == "file chunk exceeds MAX_FILE_DATA"@),
        },
{
    if bytes.len() > MAX_FILE_DATA {
        return Err(LanBeamError::Protocol("file chunk exceeds MAX_FILE_DATA".to_owned()));
    }
    let mut out: Vec<u8> = Vec::new();
    out.push(KIND_FILE_CHUNK);
    out.push((index / 0x100_0000) as u8);
    out.push((index / 0x1_0000 % 256) as u8);
    out.push((index / 0x100 % 256) as u8);
    out.push((index % 256) as u8);
    proof {
        assert(out@ =~= seq![KIND_FILE_CHUNK] + be_bytes(index));
    }
    extend(&mut out, bytes);
    Ok(out)
}

fn tail(v: &[u8], from: usize) -> (r: Vec<u8>)
    requires
        from <= v@.len(),
    ensures
        r@ == v@.subrange(from as int, v@.len() as int),
{
    let mut out: Vec<u8> = Vec::new();
    let rest = vstd::slice::slice_subrange(v, from, v.len());
    extend(&mut out, rest);
    proof {
        assert(out@ =~= rest@);
    }
    out
}

/// Takes one plaintext frame apart by its kind byte.
pub fn decode(plaintext: &[u8]) -> (r: Result<Frame>)
    ensures
        match r {
            Ok(f) => decoded(plaintext@) == Ok::<FrameView, Seq<char>>(f@),
            Err(e) => e matches LanBeamError::Protocol(m) && decoded(plaintext@) == Err::<
                FrameView,
                Seq<char>,
            >(m@),
        },
{
    if plaintext.len() == 0 {
        return Err(LanBeamError::Protocol("empty frame".to_owned()));
    }
    let kind: u8 = plaintext[0];
    let ghost body = plaintext@.drop_first();
    if kind == KIND_CONTROL {
        let json = tail(plaintext, 1);
        proof {
            assert(json@ =~= body);
        }
        return Ok(Frame::Control(json));
    }
    if kind == KIND_FILE_CHUNK {
        if plaintext.len() < 5 {
            return Err(LanBeamError::Protocol("truncated file chunk header".to_owned()));
        }
        let index: u32 = plaintext[1] as u32 * 0x100_0000 + plaintext[2] as u32 * 0x1_0000
            + plaintext[3] as u32 * 0x100 + plaintext[4] as u32;
        let data = tail(plaintext, 5);
        proof {
            assert(body[0] == plaintext@[1] && body[1] == plaintext@[2] && body[2] == plaintext@[3]
                && body[3] == plaintext@[4]);
            assert(data@ =~= body.subrange(4, body.len() as int));
        }
        return Ok(Frame::FileChunk(index, data));
    }
    let mut m = "unknown frame kind 0x".to_owned();
    m.push(hex_lower_char(kind / 16));
    m.push(hex_lower_char(kind % 16));
    proof {
        assert(m@ =~= "unknown frame kind 0x"@ + seq![hex_lower(kind / 16), hex_lower(kind % 16)]);
    }
    Err(LanBeamError::Protocol(m))
}

// ── laws ──────────────────────────────────────────────────────────────────

proof fn lemma_be_round_trip(n: u32)
    ensures
        be_value(be_bytes(n)) == n,
{
    let a = n / 0x100_0000;
    let b = n / 0x1_0000 % 256;
    let c = n / 0x100 % 256;
    let d = n % 256;
    assert(n / 0x1_0000 == (n / 0x100) / 256);
    assert(n / 0x100_0000 == (n / 0x1_0000) / 256);
    assert(n == (n / 0x100) * 256 + d);
    assert(n / 0x100 == (n / 0x1_0000) * 256 + c);
    assert(n / 0x1_0000 == a * 256 + b);
}

/// Decoding a file chunk gives back its index and its bytes.
pub proof fn law_chunk_round_trip(index: u32, data: Seq<u8>)
    ensures
        decoded(chunk_frame(index, data)) == Ok::<FrameView, Seq<char>>(
            FrameView::FileChunk(index, data),
        ),
{
    let frame = chunk_frame(index, data);
    let body = frame.drop_first();
    assert(body =~= be_bytes(index) + data);
    lemma_be_round_trip(index);
    assert(body[0] == be_bytes(index)[0] && body[1] == be_bytes(index)[1] && body[2] == be_bytes(
        index,
    )[2] && body[3] == be_bytes(index)[3]);
    assert(body.subrange(4, body.len() as int) =~= data);
}

/// Decoding a control frame gives back its JSON.
pub proof fn law_control_round_trip(json: Seq<u8>)
    ensures
        decoded(control_frame(json)) == Ok::<FrameView, Seq<char>>(FrameView::Control(json)),
{
    assert(control_frame(json).drop_first() =~= json);
}

/// A file chunk of an admitted size fits one encrypted message.
pub proof fn law_chunk_fits_one_message(index: u32, data: Seq<u8>)
    requires
        data.len() <= MAX_FILE_DATA,
    ensures
        chunk_frame(index, data).len() <= MAX_PLAINTEXT,
{
}

} // verus!
