//! The client-side transfer driver's decisions: which messages one
//! enumerated entry turns into — a directory announcement, or a file opener,
//! its content in fixed-size chunks, and a closer — and what the
//! acknowledgment that comes back means for the file just sent.
use crate::digest::bytes_equal;
use crate::file::{FileEntry, FileEntryView};
use crate::packet::{Packet, PacketView};
use vstd::prelude::*;
use vstd::utf8::encode_utf8;

verus! {

/// The fixed block size a file is read and sent in.
pub const CHUNK_SIZE: usize = 65536;

/// The content split into transfer chunks: full blocks of `CHUNK_SIZE`
/// bytes, then the remainder. Empty content yields no chunks.
pub open spec fn chunks_of(data: Seq<u8>) -> Seq<Seq<u8>>
    decreases data.len(),
{
    if data.len() == 0 {
        Seq::empty()
    } else if data.len() <= CHUNK_SIZE {
        seq![data]
    } else {
        seq![data.take(CHUNK_SIZE as int)] + chunks_of(data.skip(CHUNK_SIZE as int))
    }
}

/// The chunks joined back together.
pub open spec fn concat_chunks(chunks: Seq<Seq<u8>>) -> Seq<u8>
    decreases chunks.len(),
{
    if chunks.len() == 0 {
        Seq::empty()
    } else {
        chunks[0] + concat_chunks(chunks.drop_first())
    }
}

/// Chunking loses nothing: the chunks of the content concatenate back to
/// the content, whatever its length.
pub proof fn lemma_chunks_concat(data: Seq<u8>)
    ensures
        concat_chunks(chunks_of(data)) == data,
    decreases data.len(),
{
    if data.len() == 0 {
        assert(concat_chunks(chunks_of(data)) =~= data);
    } else if data.len() <= CHUNK_SIZE {
        let cs = chunks_of(data);
        assert(cs == seq![data]);
        assert(cs.drop_first() =~= Seq::<Seq<u8>>::empty());
        assert(concat_chunks(cs.drop_first()) == Seq::<u8>::empty());
        assert(cs[0] == data);
        assert(concat_chunks(cs) =~= data);
    } else {
        let head = data.take(CHUNK_SIZE as int);
        let tail = data.skip(CHUNK_SIZE as int);
        lemma_chunks_concat(tail);
        let cs = chunks_of(data);
        assert(cs == seq![head] + chunks_of(tail));
        assert(cs.drop_first() =~= chunks_of(tail));
        assert(cs[0] == head);
        assert(concat_chunks(cs) == head + concat_chunks(chunks_of(tail)));
        assert(head + tail =~= data);
    }
}

/// Every chunk is non-empty and at most `CHUNK_SIZE` bytes, and every chunk
/// but the last is exactly `CHUNK_SIZE` bytes.
pub proof fn lemma_chunk_sizes(data: Seq<u8>)
    ensures
        forall|i: int|
            0 <= i < chunks_of(data).len() ==> 0 < #[trigger] chunks_of(data)[i].len()
                <= CHUNK_SIZE,
        forall|i: int|
            0 <= i < chunks_of(data).len() - 1 ==> #[trigger] chunks_of(data)[i].len()
                == CHUNK_SIZE,
    decreases data.len(),
{
    let cs = chunks_of(data);
    if data.len() == 0 {
    } else if data.len() <= CHUNK_SIZE {
        assert(cs == seq![data]);
        assert(cs[0] == data);
    } else {
        let tail = data.skip(CHUNK_SIZE as int);
        lemma_chunk_sizes(tail);
        assert(cs == seq![data.take(CHUNK_SIZE as int)] + chunks_of(tail));
        assert forall|i: int| 0 <= i < cs.len() implies 0 < #[trigger] cs[i].len()
            <= CHUNK_SIZE by {
            if i == 0 {
                assert(cs[0] == data.take(CHUNK_SIZE as int));
            } else {
                assert(cs[i] == chunks_of(tail)[i - 1]);
            }
        }
        assert forall|i: int| 0 <= i < cs.len() - 1 implies #[trigger] cs[i].len()
            == CHUNK_SIZE by {
            if i == 0 {
                assert(cs[0] == data.take(CHUNK_SIZE as int));
            } else {
                assert(cs[i] == chunks_of(tail)[i - 1]);
            }
        }
    }
}

/// Splits the content into its transfer chunks, exactly as `chunks_of` says.
pub fn split_chunks(data: &Vec<u8>) -> (r: Vec<Vec<u8>>)
    ensures
        r.deep_view() == chunks_of(data@),
{
    let mut out: Vec<Vec<u8>> = Vec::new();
    let mut pos: usize = 0;
    proof {
        assert(data@.skip(0) =~= data@);
        assert(out.deep_view() =~~= Seq::<Seq<u8>>::empty());
        assert(chunks_of(data@) =~~= out.deep_view() + chunks_of(data@.skip(0)));
    }
    while pos < data.len()
        invariant
            pos <= data@.len(),
            chunks_of(data@) == out.deep_view() + chunks_of(data@.skip(pos as int)),
        decreases data@.len() - pos,
    {
        let ghost prev = out.deep_view();
        let ghost rem = data@.skip(pos as int);
        let remaining = data.len() - pos;
        let take = if remaining < CHUNK_SIZE {
            remaining
        } else {
            CHUNK_SIZE
        };
        let chunk = vstd::slice::slice_to_vec(
            vstd::slice::slice_subrange(data.as_slice(), pos, pos + take),
        );
        proof {
            assert(chunk@ =~= rem.take(take as int));
        }
        out.push(chunk);
        pos = pos + take;
        proof {
            assert(out.deep_view() =~~= prev.push(rem.take(take as int)));
            if rem.len() <= CHUNK_SIZE {
                assert(rem.take(take as int) =~= rem);
                assert(data@.skip(pos as int) =~= Seq::<u8>::empty());
                assert(chunks_of(rem) == seq![rem]);
                assert(out.deep_view() + chunks_of(data@.skip(pos as int)) =~~= prev + chunks_of(
                    rem,
                ));
            } else {
                assert(rem.skip(CHUNK_SIZE as int) =~= data@.skip(pos as int));
                assert(chunks_of(rem) == seq![rem.take(CHUNK_SIZE as int)] + chunks_of(
                    data@.skip(pos as int),
                ));
                assert(out.deep_view() + chunks_of(data@.skip(pos as int)) =~~= prev + chunks_of(
                    rem,
                ));
            }
        }
    }
    proof {
        assert(data@.skip(data@.len() as int) =~= Seq::<u8>::empty());
        assert(chunks_of(data@.skip(pos as int)) == Seq::<Seq<u8>>::empty());
        assert(out.deep_view() =~~= chunks_of(data@));
    }
    out
}

/// The message one chunk travels in.
pub open spec fn chunk_message(c: Seq<u8>) -> PacketView {
    PacketView::FileChunk { data: c }
}

/// The messages that transfer one file: its opener with the content's
/// length, one message per chunk, and the closer.
pub open spec fn spec_file_messages(path: Seq<char>, content: Seq<u8>) -> Seq<PacketView> {
    seq![PacketView::BeginFile { relative_path: path, file_size: content.len() as u64 }]
        + chunks_of(content).map_values(|c: Seq<u8>| chunk_message(c)) + seq![PacketView::EndFile]
}

/// Builds the messages that transfer one file, exactly as
/// `spec_file_messages` says.
pub fn file_messages(relative_path: &String, content: &Vec<u8>) -> (r: Vec<Packet>)
    ensures
        r.deep_view() == spec_file_messages(relative_path@, content@),
{
    let ghost goal = spec_file_messages(relative_path@, content@);
    let mut out: Vec<Packet> = Vec::new();
    out.push(
        Packet::BeginFile {
            relative_path: relative_path.clone(),
            file_size: content.len() as u64,
        },
    );
    let mut rest = split_chunks(content);
    proof {
        assert(out.deep_view() + rest.deep_view().map_values(|c: Seq<u8>| chunk_message(c))
            + seq![PacketView::EndFile] =~~= goal);
    }
    while rest.len() > 0
        invariant
            out.deep_view() + rest.deep_view().map_values(|c: Seq<u8>| chunk_message(c))
                + seq![PacketView::EndFile] == goal,
        decreases rest.len(),
    {
        let ghost prev_out = out.deep_view();
        let ghost prev_rest = rest.deep_view();
        let chunk = rest.remove(0);
        proof {
            assert(chunk@ =~= prev_rest[0]);
        }
        out.push(Packet::FileChunk { data: chunk });
        proof {
            assert(out.deep_view() =~~= prev_out.push(chunk_message(prev_rest[0])));
            assert(rest.deep_view() =~~= prev_rest.drop_first());
            assert(prev_rest.map_values(|c: Seq<u8>| chunk_message(c))[0] == chunk_message(
                prev_rest[0],
            ));
            assert(out.deep_view() + rest.deep_view().map_values(|c: Seq<u8>| chunk_message(c))
                + seq![PacketView::EndFile] =~~= prev_out + prev_rest.map_values(
                |c: Seq<u8>| chunk_message(c),
            ) + seq![PacketView::EndFile]);
        }
    }
    let ghost before_end = out.deep_view();
    out.push(Packet::EndFile);
    proof {
        assert(rest.deep_view().map_values(|c: Seq<u8>| chunk_message(c)) =~~= Seq::<
            PacketView,
        >::empty());
        assert(out.deep_view() =~~= before_end.push(PacketView::EndFile));
        assert(out.deep_view() =~~= goal);
    }
    out
}

/// The messages the client emits for one enumerated entry: a directory is
/// announced in a single message, a file travels as `spec_file_messages`.
pub open spec fn spec_entry_messages(e: FileEntryView) -> Seq<PacketView> {
    if e.is_dir {
        seq![PacketView::MakeDir { relative_path: e.file_path }]
    } else {
        match e.file_content {
            Some(content) => spec_file_messages(e.file_path, content),
            None => Seq::empty(),
        }
    }
}

/// Builds the messages for one enumerated entry, exactly as
/// `spec_entry_messages` says. A file entry must carry its content.
pub fn entry_messages(entry: &FileEntry) -> (r: Vec<Packet>)
    requires
        !entry.is_dir ==> entry.file_content is Some,
    ensures
        r.deep_view() == spec_entry_messages(entry@),
{
    if entry.is_dir {
        let mut out: Vec<Packet> = Vec::new();
        out.push(Packet::MakeDir { relative_path: entry.file_path.clone() });
        proof {
            assert(out.deep_view() =~~= spec_entry_messages(entry@));
        }
        out
    } else {
        match &entry.file_content {
            Some(content) => file_messages(&entry.file_path, content),
            None => vstd::pervasive::unreached(),
        }
    }
}

/// The client's verdict on the frame it received while awaiting a file's
/// acknowledgment.
#[derive(Clone, Copy, Debug, PartialEq, Eq, Structural)]
pub enum AckOutcome {
    /// The acknowledged checksum equals the local digest.
    Match,
    /// The acknowledged checksum differs from the local digest: reported,
    /// never fatal — the walk continues.
    Mismatch,
    /// The frame was no acknowledgment at all: a protocol anomaly, reported,
    /// never fatal.
    UnexpectedPacket,
}

/// Judges the frame received while awaiting a file's acknowledgment against
/// the locally computed digest: a match or mismatch of the checksums for an
/// acknowledgment, and an anomaly for any other message.
pub fn evaluate_ack(ack: &Packet, local_digest: &str) -> (r: AckOutcome)
    ensures
        match ack@ {
            PacketView::EndFileAck { checksum } => r == (if checksum == encode_utf8(
                local_digest@,
            ) {
                AckOutcome::Match
            } else {
                AckOutcome::Mismatch
            }),
            _ => r == AckOutcome::UnexpectedPacket,
        },
{
    match ack {
        Packet::EndFileAck { checksum } => {
            if bytes_equal(checksum.as_slice(), local_digest.as_bytes()) {
                AckOutcome::Match
            } else {
                AckOutcome::Mismatch
            }
        },
        _ => AckOutcome::UnexpectedPacket,
    }
}

} // verus!
