//! The protocol's message schema and its deterministic binary codec: a
//! fixed-width big-endian tag, then the variant's fields in declaration
//! order, each variable-length field preceded by its own 64-bit length.
use crate::bytes::{
    be_u32, be_u32_at, be_u64, be_u64_at, len_prefixed, lemma_be_u32_at_prefix,
    lemma_be_u64_at_end, lemma_read_field_of_len_prefixed,
    lemma_read_field_of_len_prefixed_exact, push_be_u32, push_be_u64, push_len_prefixed,
    read_be_u32, read_be_u64, read_field, spec_read_field,
};
use vstd::prelude::*;
use vstd::utf8::*;

verus! {

/// One protocol event. Paths are always relative to the destination root.
#[derive(Debug)]
pub enum Packet {
    MakeDir { relative_path: String },
    BeginFile { relative_path: String, file_size: u64 },
    FileChunk { data: Vec<u8> },
    EndFile,
    EndFileAck { checksum: Vec<u8> },
    EndSession,
}

/// The mathematical value of a `Packet`: the same variants over sequences.
#[verifier::ext_equal]
pub enum PacketView {
    MakeDir { relative_path: Seq<char> },
    BeginFile { relative_path: Seq<char>, file_size: u64 },
    FileChunk { data: Seq<u8> },
    EndFile,
    EndFileAck { checksum: Seq<u8> },
    EndSession,
}

impl View for Packet {
    type V = PacketView;

    open spec fn view(&self) -> PacketView {
        match self {
            Packet::MakeDir { relative_path } => PacketView::MakeDir {
                relative_path: relative_path@,
            },
            Packet::BeginFile { relative_path, file_size } => PacketView::BeginFile {
                relative_path: relative_path@,
                file_size: *file_size,
            },
            Packet::FileChunk { data } => PacketView::FileChunk { data: data@ },
            Packet::EndFile => PacketView::EndFile,
            Packet::EndFileAck { checksum } => PacketView::EndFileAck { checksum: checksum@ },
            Packet::EndSession => PacketView::EndSession,
        }
    }
}

impl DeepView for Packet {
    type V = PacketView;

    open spec fn deep_view(&self) -> PacketView {
        self.view()
    }
}

/// Why a buffer failed to decode.
#[derive(Clone, Copy, Debug, PartialEq, Eq, Structural)]
pub enum DecodeError {
    /// The buffer ends before the fields it claims to contain.
    Truncated,
    /// The leading tag names no variant of the schema.
    UnknownTag,
    /// Bytes follow the last field of the message.
    TrailingData,
    /// A path field does not hold well-formed text.
    InvalidPath,
}

pub const TAG_MAKE_DIR: u32 = 0;

pub const TAG_BEGIN_FILE: u32 = 1;

pub const TAG_FILE_CHUNK: u32 = 2;

pub const TAG_END_FILE: u32 = 3;

pub const TAG_END_FILE_ACK: u32 = 4;

pub const TAG_END_SESSION: u32 = 5;

/// The bytes of one encoded message: its tag, then its fields in order.
pub open spec fn spec_encode(m: PacketView) -> Seq<u8> {
    match m {
        PacketView::MakeDir { relative_path } => be_u32(TAG_MAKE_DIR) + len_prefixed(
            encode_utf8(relative_path),
        ),
        PacketView::BeginFile { relative_path, file_size } => be_u32(TAG_BEGIN_FILE)
            + len_prefixed(encode_utf8(relative_path)) + be_u64(file_size),
        PacketView::FileChunk { data } => be_u32(TAG_FILE_CHUNK) + len_prefixed(data),
        PacketView::EndFile => be_u32(TAG_END_FILE),
        PacketView::EndFileAck { checksum } => be_u32(TAG_END_FILE_ACK) + len_prefixed(checksum),
        PacketView::EndSession => be_u32(TAG_END_SESSION),
    }
}

/// The message held in `b`, or the exact reason none is.
pub open spec fn spec_decode(b: Seq<u8>) -> Result<PacketView, DecodeError> {
    if b.len() < 4 {
        Err(DecodeError::Truncated)
    } else {
        let tag = be_u32_at(b, 0);
        if tag == TAG_MAKE_DIR {
            match spec_read_field(b, 4) {
                None => Err(DecodeError::Truncated),
                Some((field, end)) => if end != b.len() {
                    Err(DecodeError::TrailingData)
                } else if !valid_utf8(field) {
                    Err(DecodeError::InvalidPath)
                } else {
                    Ok(PacketView::MakeDir { relative_path: decode_utf8(field) })
                },
            }
        } else if tag == TAG_BEGIN_FILE {
            match spec_read_field(b, 4) {
                None => Err(DecodeError::Truncated),
                Some((field, end)) => if end + 8 > b.len() {
                    Err(DecodeError::Truncated)
                } else if end + 8 != b.len() {
                    Err(DecodeError::TrailingData)
                } else if !valid_utf8(field) {
                    Err(DecodeError::InvalidPath)
                } else {
                    Ok(
                        PacketView::BeginFile {
                            relative_path: decode_utf8(field),
                            file_size: be_u64_at(b, end),
                        },
                    )
                },
            }
        } else if tag == TAG_FILE_CHUNK {
            match spec_read_field(b, 4) {
                None => Err(DecodeError::Truncated),
                Some((field, end)) => if end != b.len() {
                    Err(DecodeError::TrailingData)
                } else {
                    Ok(PacketView::FileChunk { data: field })
                },
            }
        } else if tag == TAG_END_FILE {
            if b.len() != 4 {
                Err(DecodeError::TrailingData)
            } else {
                Ok(PacketView::EndFile)
            }
        } else if tag == TAG_END_FILE_ACK {
            match spec_read_field(b, 4) {
                None => Err(DecodeError::Truncated),
                Some((field, end)) => if end != b.len() {
                    Err(DecodeError::TrailingData)
                } else {
                    Ok(PacketView::EndFileAck { checksum: field })
                },
            }
        } else if tag == TAG_END_SESSION {
            if b.len() != 4 {
                Err(DecodeError::TrailingData)
            } else {
                Ok(PacketView::EndSession)
            }
        } else {
            Err(DecodeError::UnknownTag)
        }
    }
}

/// Relies on `String::from_utf8`: returns the string whose UTF-8 encoding is
/// the given bytes exactly when they are valid UTF-8, and nothing otherwise.
#[verifier::external_body]
pub(crate) fn vec_to_string(bytes: Vec<u8>) -> (r: Option<String>)
    ensures
        match r {
            Some(s) => valid_utf8(bytes@) && s@ == decode_utf8(bytes@),
            None => !valid_utf8(bytes@),
        },
{
    String::from_utf8(bytes).ok()
}

impl Packet {
    /// Encodes the message for the wire, exactly as `spec_encode` says.
    pub fn encode(&self) -> (r: Vec<u8>)
        ensures
            r@ == spec_encode(self@),
    {
        let mut out: Vec<u8> = Vec::new();
        match self {
            Packet::MakeDir { relative_path } => {
                push_be_u32(&mut out, TAG_MAKE_DIR);
                push_len_prefixed(&mut out, relative_path.as_str().as_bytes());
            },
            Packet::BeginFile { relative_path, file_size } => {
                push_be_u32(&mut out, TAG_BEGIN_FILE);
                push_len_prefixed(&mut out, relative_path.as_str().as_bytes());
                push_be_u64(&mut out, *file_size);
            },
            Packet::FileChunk { data } => {
                push_be_u32(&mut out, TAG_FILE_CHUNK);
                push_len_prefixed(&mut out, data.as_slice());
            },
            Packet::EndFile => {
                push_be_u32(&mut out, TAG_END_FILE);
            },
            Packet::EndFileAck { checksum } => {
                push_be_u32(&mut out, TAG_END_FILE_ACK);
                push_len_prefixed(&mut out, checksum.as_slice());
            },
            Packet::EndSession => {
                push_be_u32(&mut out, TAG_END_SESSION);
            },
        }
        assert(out@ =~= spec_encode(self@));
        out
    }

    /// Decodes one message from `buf`, exactly as `spec_decode` says: the
    /// message whose encoding is `buf`, or the reason there is none.
    pub fn decode(buf: &[u8]) -> (r: Result<Packet, DecodeError>)
        ensures
            match r {
                Ok(m) => spec_decode(buf@) == Ok::<PacketView, DecodeError>(m@),
                Err(e) => spec_decode(buf@) == Err::<PacketView, DecodeError>(e),
            },
    {
        if buf.len() < 4 {
            return Err(DecodeError::Truncated);
        }
        let tag = read_be_u32(buf, 0);
        if tag == TAG_MAKE_DIR {
            match read_field(buf, 4) {
                None => Err(DecodeError::Truncated),
                Some((field, end)) => {
                    if end != buf.len() {
                        return Err(DecodeError::TrailingData);
                    }
                    match vec_to_string(field) {
                        None => Err(DecodeError::InvalidPath),
                        Some(s) => Ok(Packet::MakeDir { relative_path: s }),
                    }
                },
            }
        } else if tag == TAG_BEGIN_FILE {
            match read_field(buf, 4) {
                None => Err(DecodeError::Truncated),
                Some((field, end)) => {
                    if buf.len() - end < 8 {
                        return Err(DecodeError::Truncated);
                    }
                    if buf.len() - end > 8 {
                        return Err(DecodeError::TrailingData);
                    }
                    let file_size = read_be_u64(buf, end);
                    match vec_to_string(field) {
                        None => Err(DecodeError::InvalidPath),
                        Some(s) => Ok(Packet::BeginFile { relative_path: s, file_size }),
                    }
                },
            }
        } else if tag == TAG_FILE_CHUNK {
            match read_field(buf, 4) {
                None => Err(DecodeError::Truncated),
                Some((field, end)) => {
                    if end != buf.len() {
                        return Err(DecodeError::TrailingData);
                    }
                    Ok(Packet::FileChunk { data: field })
                },
            }
        } else if tag == TAG_END_FILE {
            if buf.len() != 4 {
                Err(DecodeError::TrailingData)
            } else {
                Ok(Packet::EndFile)
            }
        } else if tag == TAG_END_FILE_ACK {
            match read_field(buf, 4) {
                None => Err(DecodeError::Truncated),
                Some((field, end)) => {
                    if end != buf.len() {
                        return Err(DecodeError::TrailingData);
                    }
                    Ok(Packet::EndFileAck { checksum: field })
                },
            }
        } else if tag == TAG_END_SESSION {
            if buf.len() != 4 {
                Err(DecodeError::TrailingData)
            } else {
                Ok(Packet::EndSession)
            }
        } else {
            Err(DecodeError::UnknownTag)
        }
    }
}

/// A message is well-formed when each variable-length field fits its 64-bit
/// length prefix. Every message an executable program holds is.
pub open spec fn wf_view(m: PacketView) -> bool {
    match m {
        PacketView::MakeDir { relative_path } => encode_utf8(relative_path).len() <= u64::MAX,
        PacketView::BeginFile { relative_path, .. } => encode_utf8(relative_path).len()
            <= u64::MAX,
        PacketView::FileChunk { data } => data.len() <= u64::MAX,
        PacketView::EndFileAck { checksum } => checksum.len() <= u64::MAX,
        PacketView::EndFile => true,
        PacketView::EndSession => true,
    }
}

proof fn roundtrip_make_dir(relative_path: Seq<char>)
    requires
        encode_utf8(relative_path).len() <= u64::MAX,
    ensures
        spec_decode(spec_encode(PacketView::MakeDir { relative_path }))
            == Ok::<PacketView, DecodeError>(PacketView::MakeDir { relative_path }),
{
    broadcast use encode_utf8_valid_utf8, encode_utf8_decode_utf8;

    let b = spec_encode(PacketView::MakeDir { relative_path });
    let field = encode_utf8(relative_path);
    lemma_be_u32_at_prefix(TAG_MAKE_DIR, len_prefixed(field));
    lemma_read_field_of_len_prefixed_exact(be_u32(TAG_MAKE_DIR), field);
    assert(b.len() == 12 + field.len());
    assert(be_u32_at(b, 0) == TAG_MAKE_DIR);
    assert(spec_read_field(b, 4) == Some((field, 12 + field.len() as int)));
    assert(valid_utf8(field) && decode_utf8(field) == relative_path);
    assert(spec_decode(b) == Ok::<PacketView, DecodeError>(PacketView::MakeDir { relative_path }));
}

proof fn roundtrip_begin_file(relative_path: Seq<char>, file_size: u64)
    requires
        encode_utf8(relative_path).len() <= u64::MAX,
    ensures
        spec_decode(spec_encode(PacketView::BeginFile { relative_path, file_size }))
            == Ok::<PacketView, DecodeError>(PacketView::BeginFile { relative_path, file_size }),
{
    let b = spec_encode(PacketView::BeginFile { relative_path, file_size });
    let field = encode_utf8(relative_path);
    assert(be_u32_at(b, 0) == TAG_BEGIN_FILE) by {
        assert(b =~= be_u32(TAG_BEGIN_FILE) + (len_prefixed(field) + be_u64(file_size)));
        lemma_be_u32_at_prefix(TAG_BEGIN_FILE, len_prefixed(field) + be_u64(file_size));
    }
    assert(spec_read_field(b, 4) == Some((field, 12 + field.len() as int))) by {
        lemma_read_field_of_len_prefixed(be_u32(TAG_BEGIN_FILE), field, be_u64(file_size));
    }
    assert(be_u64_at(b, 12 + field.len() as int) == file_size) by {
        lemma_be_u64_at_end(be_u32(TAG_BEGIN_FILE) + len_prefixed(field), file_size);
    }
    assert(valid_utf8(field) && decode_utf8(field) == relative_path) by {
        encode_utf8_valid_utf8(relative_path);
        encode_utf8_decode_utf8(relative_path);
    }
    assert(b.len() == 20 + field.len());
    assert(spec_decode(b) == Ok::<PacketView, DecodeError>(
        PacketView::BeginFile { relative_path, file_size },
    ));
}

proof fn roundtrip_file_chunk(data: Seq<u8>)
    requires
        data.len() <= u64::MAX,
    ensures
        spec_decode(spec_encode(PacketView::FileChunk { data }))
            == Ok::<PacketView, DecodeError>(PacketView::FileChunk { data }),
{
    let b = spec_encode(PacketView::FileChunk { data });
    lemma_be_u32_at_prefix(TAG_FILE_CHUNK, len_prefixed(data));
    lemma_read_field_of_len_prefixed_exact(be_u32(TAG_FILE_CHUNK), data);
    assert(b.len() == 12 + data.len());
    assert(be_u32_at(b, 0) == TAG_FILE_CHUNK);
    assert(spec_read_field(b, 4) == Some((data, 12 + data.len() as int)));
    assert(spec_decode(b) == Ok::<PacketView, DecodeError>(PacketView::FileChunk { data }));
}

proof fn roundtrip_end_file_ack(checksum: Seq<u8>)
    requires
        checksum.len() <= u64::MAX,
    ensures
        spec_decode(spec_encode(PacketView::EndFileAck { checksum }))
            == Ok::<PacketView, DecodeError>(PacketView::EndFileAck { checksum }),
{
    let b = spec_encode(PacketView::EndFileAck { checksum });
    lemma_be_u32_at_prefix(TAG_END_FILE_ACK, len_prefixed(checksum));
    lemma_read_field_of_len_prefixed_exact(be_u32(TAG_END_FILE_ACK), checksum);
    assert(b.len() == 12 + checksum.len());
    assert(be_u32_at(b, 0) == TAG_END_FILE_ACK);
    assert(spec_read_field(b, 4) == Some((checksum, 12 + checksum.len() as int)));
    assert(spec_decode(b) == Ok::<PacketView, DecodeError>(PacketView::EndFileAck { checksum }));
}

/// Round-trip law: decoding the encoding of any well-formed message yields
/// the message itself, field for field.
pub proof fn lemma_encode_decode_roundtrip(m: PacketView)
    requires
        wf_view(m),
    ensures
        spec_decode(spec_encode(m)) == Ok::<PacketView, DecodeError>(m),
{
    match m {
        PacketView::MakeDir { relative_path } => {
            roundtrip_make_dir(relative_path);
        },
        PacketView::BeginFile { relative_path, file_size } => {
            roundtrip_begin_file(relative_path, file_size);
        },
        PacketView::FileChunk { data } => {
            roundtrip_file_chunk(data);
        },
        PacketView::EndFile => {
            lemma_be_u32_at_prefix(TAG_END_FILE, Seq::<u8>::empty());
            assert(spec_encode(m) =~= be_u32(TAG_END_FILE) + Seq::<u8>::empty());
            assert(spec_encode(m).len() == 4);
        },
        PacketView::EndFileAck { checksum } => {
            roundtrip_end_file_ack(checksum);
        },
        PacketView::EndSession => {
            lemma_be_u32_at_prefix(TAG_END_SESSION, Seq::<u8>::empty());
            assert(spec_encode(m) =~= be_u32(TAG_END_SESSION) + Seq::<u8>::empty());
            assert(spec_encode(m).len() == 4);
        },
    }
}

} // verus!
