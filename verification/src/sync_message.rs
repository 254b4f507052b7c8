//! An earlier, client-to-server-only revision of the message schema, kept
//! alongside the full one: the same wire conventions over four variants.
use crate::bytes::{
    be_u32, be_u32_at, be_u64, be_u64_at, len_prefixed, lemma_be_u32_at_prefix,
    lemma_be_u64_at_end, lemma_read_field_of_len_prefixed, lemma_read_field_of_len_prefixed_exact,
    push_be_u32, push_be_u64, push_len_prefixed, read_be_u32, read_be_u64, read_field,
    spec_read_field,
};
use crate::packet::{vec_to_string, DecodeError, TAG_BEGIN_FILE, TAG_END_FILE, TAG_FILE_CHUNK, TAG_MAKE_DIR};
use vstd::prelude::*;
use vstd::utf8::*;

verus! {

/// One client-to-server event of the earlier schema revision.
#[derive(Debug)]
pub enum SyncMessage {
    MakeDir { relative_path: String },
    BeginFile { relative_path: String, file_size: u64 },
    FileChunk { data: Vec<u8> },
    EndFile,
}

/// The mathematical value of a `SyncMessage`.
#[verifier::ext_equal]
pub enum SyncMessageView {
    MakeDir { relative_path: Seq<char> },
    BeginFile { relative_path: Seq<char>, file_size: u64 },
    FileChunk { data: Seq<u8> },
    EndFile,
}

impl View for SyncMessage {
    type V = SyncMessageView;

    open spec fn view(&self) -> SyncMessageView {
        match self {
            SyncMessage::MakeDir { relative_path } => SyncMessageView::MakeDir {
                relative_path: relative_path@,
            },
            SyncMessage::BeginFile { relative_path, file_size } => SyncMessageView::BeginFile {
                relative_path: relative_path@,
                file_size: *file_size,
            },
            SyncMessage::FileChunk { data } => SyncMessageView::FileChunk { data: data@ },
            SyncMessage::EndFile => SyncMessageView::EndFile,
        }
    }
}

/// The bytes of one encoded message of the earlier revision.
pub open spec fn spec_encode_sync(m: SyncMessageView) -> Seq<u8> {
    match m {
        SyncMessageView::MakeDir { relative_path } => be_u32(TAG_MAKE_DIR) + len_prefixed(
            encode_utf8(relative_path),
        ),
        SyncMessageView::BeginFile { relative_path, file_size } => be_u32(TAG_BEGIN_FILE)
            + len_prefixed(encode_utf8(relative_path)) + be_u64(file_size),
        SyncMessageView::FileChunk { data } => be_u32(TAG_FILE_CHUNK) + len_prefixed(data),
        SyncMessageView::EndFile => be_u32(TAG_END_FILE),
    }
}

/// The earlier-revision message held in `b`, or the exact reason none is.
pub open spec fn spec_decode_sync(b: Seq<u8>) -> Result<SyncMessageView, DecodeError> {
    if b.len() < 4 {
        Err(DecodeError::Truncated)
    } else {
        let tag = be_u32_at(b, 0);
        if tag == TAG_MAKE_DIR {
            match spec_read_field(b, 4) {
                None => Err(DecodeError::Truncated),
                Some((field, end)) => if end != b.len() {
                    Err(DecodeError::TrailingData)
                } else if !valid_utf8(field) {
                    Err(DecodeError::InvalidPath)
                } else {
                    Ok(SyncMessageView::MakeDir { relative_path: decode_utf8(field) })
                },
            }
        } else if tag == TAG_BEGIN_FILE {
            match spec_read_field(b, 4) {
                None => Err(DecodeError::Truncated),
                Some((field, end)) => if end + 8 > b.len() {
                    Err(DecodeError::Truncated)
                } else if end + 8 != b.len() {
                    Err(DecodeError::TrailingData)
                } else if !valid_utf8(field) {
                    Err(DecodeError::InvalidPath)
                } else {
                    Ok(
                        SyncMessageView::BeginFile {
                            relative_path: decode_utf8(field),
                            file_size: be_u64_at(b, end),
                        },
                    )
                },
            }
        } else if tag == TAG_FILE_CHUNK {
            match spec_read_field(b, 4) {
                None => Err(DecodeError::Truncated),
                Some((field, end)) => if end != b.len() {
                    Err(DecodeError::TrailingData)
                } else {
                    Ok(SyncMessageView::FileChunk { data: field })
                },
            }
        } else if tag == TAG_END_FILE {
            if b.len() != 4 {
                Err(DecodeError::TrailingData)
            } else {
                Ok(SyncMessageView::EndFile)
            }
        } else {
            Err(DecodeError::UnknownTag)
        }
    }
}

impl SyncMessage {
    /// Encodes the message for the wire, exactly as `spec_encode_sync` says.
    pub fn encode(&self) -> (r: Vec<u8>)
        ensures
            r@ == spec_encode_sync(self@),
    {
        let mut out: Vec<u8> = Vec::new();
        match self {
            SyncMessage::MakeDir { relative_path } => {
                push_be_u32(&mut out, TAG_MAKE_DIR);
                push_len_prefixed(&mut out, relative_path.as_str().as_bytes());
            },
            SyncMessage::BeginFile { relative_path, file_size } => {
                push_be_u32(&mut out, TAG_BEGIN_FILE);
                push_len_prefixed(&mut out, relative_path.as_str().as_bytes());
                push_be_u64(&mut out, *file_size);
            },
            SyncMessage::FileChunk { data } => {
                push_be_u32(&mut out, TAG_FILE_CHUNK);
                push_len_prefixed(&mut out, data.as_slice());
            },
            SyncMessage::EndFile => {
                push_be_u32(&mut out, TAG_END_FILE);
            },
        }
        assert(out@ =~= spec_encode_sync(self@));
        out
    }

    /// Decodes one earlier-revision message from `buf`, exactly as
    /// `spec_decode_sync` says.
    pub fn decode(buf: &[u8]) -> (r: Result<SyncMessage, DecodeError>)
        ensures
            match r {
                Ok(m) => spec_decode_sync(buf@) == Ok::<SyncMessageView, DecodeError>(m@),
                Err(e) => spec_decode_sync(buf@) == Err::<SyncMessageView, DecodeError>(e),
            },
    {
        if buf.len() < 4 {
            return Err(DecodeError::Truncated);
        }
        let tag = read_be_u32(buf, 0);
        if tag == TAG_MAKE_DIR {
            match read_field(buf, 4) {
                None => Err(DecodeError::Truncated),
                Some((field, end)) => {
                    if end != buf.len() {
                        return Err(DecodeError::TrailingData);
                    }
                    match vec_to_string(field) {
                        None => Err(DecodeError::InvalidPath),
                        Some(s) => Ok(SyncMessage::MakeDir { relative_path: s }),
                    }
                },
            }
        } else if tag == TAG_BEGIN_FILE {
            match read_field(buf, 4) {
                None => Err(DecodeError::Truncated),
                Some((field, end)) => {
                    if buf.len() - end < 8 {
                        return Err(DecodeError::Truncated);
                    }
                    if buf.len() - end > 8 {
                        return Err(DecodeError::TrailingData);
                    }
                    let file_size = read_be_u64(buf, end);
                    match vec_to_string(field) {
                        None => Err(DecodeError::InvalidPath),
                        Some(s) => Ok(SyncMessage::BeginFile { relative_path: s, file_size }),
                    }
                },
            }
        } else if tag == TAG_FILE_CHUNK {
            match read_field(buf, 4) {
                None => Err(DecodeError::Truncated),
                Some((field, end)) => {
                    if end != buf.len() {
                        return Err(DecodeError::TrailingData);
                    }
                    Ok(SyncMessage::FileChunk { data: field })
                },
            }
        } else if tag == TAG_END_FILE {
            if buf.len() != 4 {
                Err(DecodeError::TrailingData)
            } else {
                Ok(SyncMessage::EndFile)
            }
        } else {
            Err(DecodeError::UnknownTag)
        }
    }
}

/// A message of the earlier revision is well-formed when each variable-length
/// field fits its 64-bit length prefix.
pub open spec fn wf_sync_view(m: SyncMessageView) -> bool {
    match m {
        SyncMessageView::MakeDir { relative_path } => encode_utf8(relative_path).len()
            <= u64::MAX,
        SyncMessageView::BeginFile { relative_path, .. } => encode_utf8(relative_path).len()
            <= u64::MAX,
        SyncMessageView::FileChunk { data } => data.len() <= u64::MAX,
        SyncMessageView::EndFile => true,
    }
}

proof fn sync_roundtrip_make_dir(relative_path: Seq<char>)
    requires
        encode_utf8(relative_path).len() <= u64::MAX,
    ensures
        spec_decode_sync(spec_encode_sync(SyncMessageView::MakeDir { relative_path }))
            == Ok::<SyncMessageView, DecodeError>(SyncMessageView::MakeDir { relative_path }),
{
    let b = spec_encode_sync(SyncMessageView::MakeDir { relative_path });
    let field = encode_utf8(relative_path);
    lemma_be_u32_at_prefix(TAG_MAKE_DIR, len_prefixed(field));
    lemma_read_field_of_len_prefixed_exact(be_u32(TAG_MAKE_DIR), field);
    assert(b.len() == 12 + field.len());
    assert(be_u32_at(b, 0) == TAG_MAKE_DIR);
    assert(spec_read_field(b, 4) == Some((field, 12 + field.len() as int)));
    assert(valid_utf8(field) && decode_utf8(field) == relative_path) by {
        encode_utf8_valid_utf8(relative_path);
        encode_utf8_decode_utf8(relative_path);
    }
    assert(spec_decode_sync(b) == Ok::<SyncMessageView, DecodeError>(
        SyncMessageView::MakeDir { relative_path },
    ));
}

proof fn sync_roundtrip_begin_file(relative_path: Seq<char>, file_size: u64)
    requires
        encode_utf8(relative_path).len() <= u64::MAX,
    ensures
        spec_decode_sync(spec_encode_sync(SyncMessageView::BeginFile { relative_path, file_size }))
            == Ok::<SyncMessageView, DecodeError>(
            SyncMessageView::BeginFile { relative_path, file_size },
        ),
{
    let b = spec_encode_sync(SyncMessageView::BeginFile { relative_path, file_size });
    let field = encode_utf8(relative_path);
    assert(be_u32_at(b, 0) == TAG_BEGIN_FILE) by {
        assert(b =~= be_u32(TAG_BEGIN_FILE) + (len_prefixed(field) + be_u64(file_size)));
        lemma_be_u32_at_prefix(TAG_BEGIN_FILE, len_prefixed(field) + be_u64(file_size));
    }
    assert(spec_read_field(b, 4) == Some((field, 12 + field.len() as int))) by {
        lemma_read_field_of_len_prefixed(be_u32(TAG_BEGIN_FILE), field, be_u64(file_size));
    }
    assert(be_u64_at(b, 12 + field.len() as int) == file_size) by {
        lemma_be_u64_at_end(be_u32(TAG_BEGIN_FILE) + len_prefixed(field), file_size);
    }
    assert(valid_utf8(field) && decode_utf8(field) == relative_path) by {
        encode_utf8_valid_utf8(relative_path);
        encode_utf8_decode_utf8(relative_path);
    }
    assert(b.len() == 20 + field.len());
    assert(spec_decode_sync(b) == Ok::<SyncMessageView, DecodeError>(
        SyncMessageView::BeginFile { relative_path, file_size },
    ));
}

proof fn sync_roundtrip_file_chunk(data: Seq<u8>)
    requires
        data.len() <= u64::MAX,
    ensures
        spec_decode_sync(spec_encode_sync(SyncMessageView::FileChunk { data }))
            == Ok::<SyncMessageView, DecodeError>(SyncMessageView::FileChunk { data }),
{
    let b = spec_encode_sync(SyncMessageView::FileChunk { data });
    lemma_be_u32_at_prefix(TAG_FILE_CHUNK, len_prefixed(data));
    lemma_read_field_of_len_prefixed_exact(be_u32(TAG_FILE_CHUNK), data);
    assert(b.len() == 12 + data.len());
    assert(be_u32_at(b, 0) == TAG_FILE_CHUNK);
    assert(spec_read_field(b, 4) == Some((data, 12 + data.len() as int)));
    assert(spec_decode_sync(b) == Ok::<SyncMessageView, DecodeError>(
        SyncMessageView::FileChunk { data },
    ));
}

/// Round-trip law for the earlier revision: decoding the encoding of any
/// well-formed message yields the message itself, field for field.
pub proof fn lemma_sync_encode_decode_roundtrip(m: SyncMessageView)
    requires
        wf_sync_view(m),
    ensures
        spec_decode_sync(spec_encode_sync(m)) == Ok::<SyncMessageView, DecodeError>(m),
{
    match m {
        SyncMessageView::MakeDir { relative_path } => {
            sync_roundtrip_make_dir(relative_path);
        },
        SyncMessageView::BeginFile { relative_path, file_size } => {
            sync_roundtrip_begin_file(relative_path, file_size);
        },
        SyncMessageView::FileChunk { data } => {
            sync_roundtrip_file_chunk(data);
        },
        SyncMessageView::EndFile => {
            lemma_be_u32_at_prefix(TAG_END_FILE, Seq::<u8>::empty());
            assert(spec_encode_sync(m) =~= be_u32(TAG_END_FILE) + Seq::<u8>::empty());
            assert(spec_encode_sync(m).len() == 4);
        },
    }
}

} // verus!
