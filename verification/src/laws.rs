//! The laws that tie the client's transfer driver to the server's
//! reconstruction machine: a file sent as the client builds it arrives byte
//! for byte, and the digest the server acknowledges for it is the digest of
//! the source bytes.
use crate::client::{chunk_message, chunks_of, concat_chunks, lemma_chunks_concat,
    spec_file_messages};
use crate::digest::sha1_hex_of;
use crate::packet::PacketView;
use crate::server::{machine_fs, next_state, run_fs, run_handler, step_ack, FsView, HandlerView,
    lemma_run_append, lemma_run_one};
use vstd::prelude::*;
use vstd::utf8::encode_utf8;

verus! {

/// Chunks fed to a connection holding `p` open all land at `p`, in order:
/// the file grows by exactly their concatenation, and nothing else moves.
proof fn lemma_chunks_run(fs: FsView, p: Seq<char>, chunks: Seq<Seq<u8>>)
    requires
        fs.files.dom().contains(p),
    ensures
        ({
            let s = HandlerView { open_path: Some(p), done: false };
            let msgs = chunks.map_values(|c: Seq<u8>| chunk_message(c));
            run_handler(s, msgs) == s && run_fs(fs, s, msgs).files == fs.files.insert(
                p,
                fs.files[p] + concat_chunks(chunks),
            ) && run_fs(fs, s, msgs).dirs == fs.dirs
        }),
    decreases chunks.len(),
{
    let s = HandlerView { open_path: Some(p), done: false };
    let msgs = chunks.map_values(|c: Seq<u8>| chunk_message(c));
    if chunks.len() == 0 {
        assert(msgs =~= Seq::<PacketView>::empty());
        assert(fs.files[p] + concat_chunks(chunks) =~= fs.files[p]);
        assert(fs.files.insert(p, fs.files[p]) =~= fs.files);
    } else {
        let c0 = chunks[0];
        assert(msgs[0] == chunk_message(c0));
        assert(msgs.drop_first() =~= chunks.drop_first().map_values(
            |c: Seq<u8>| chunk_message(c),
        ));
        let fs1 = machine_fs(fs, s, msgs[0]);
        assert(next_state(s, msgs[0]) == s);
        assert(fs1.files == fs.files.insert(p, fs.files[p] + c0));
        assert(fs1.dirs == fs.dirs);
        assert(fs1.files.dom().contains(p));
        lemma_chunks_run(fs1, p, chunks.drop_first());
        assert(fs1.files[p] == fs.files[p] + c0);
        assert((fs.files[p] + c0) + concat_chunks(chunks.drop_first()) =~= fs.files[p] + (c0
            + concat_chunks(chunks.drop_first())));
        assert(concat_chunks(chunks) == c0 + concat_chunks(chunks.drop_first()));
        assert(fs1.files.insert(p, fs1.files[p] + concat_chunks(chunks.drop_first())) =~= fs.files
            .insert(p, fs.files[p] + concat_chunks(chunks)));
    }
}

/// A live connection that receives a file's opener and all its chunks holds
/// the file open with exactly the source bytes at its path, and has touched
/// no directory.
proof fn lemma_transfer_prefix(fs: FsView, s: HandlerView, path: Seq<char>, content: Seq<u8>)
    requires
        !s.done,
    ensures
        ({
            let prefix = spec_file_messages(path, content).drop_last();
            let s2 = run_handler(s, prefix);
            let fs2 = run_fs(fs, s, prefix);
            s2 == (HandlerView { open_path: Some(path), done: false }) && fs2.files == fs.files
                .insert(path, content) && fs2.dirs == fs.dirs
        }),
{
    let size = content.len() as u64;
    let opener = PacketView::BeginFile { relative_path: path, file_size: size };
    let begin = seq![opener];
    let chunk_msgs = chunks_of(content).map_values(|c: Seq<u8>| chunk_message(c));
    let prefix = spec_file_messages(path, content).drop_last();
    assert(prefix =~= begin + chunk_msgs);
    lemma_run_append(fs, s, begin, chunk_msgs);
    lemma_run_one(fs, s, opener);
    let s1 = run_handler(s, begin);
    let fs1 = run_fs(fs, s, begin);
    assert(s1 == next_state(s, opener));
    assert(s1 == (HandlerView { open_path: Some(path), done: false }));
    assert(fs1 == machine_fs(fs, s, opener));
    assert(fs1.files == fs.files.insert(path, Seq::<u8>::empty()));
    assert(fs1.files.dom().contains(path));
    lemma_chunks_run(fs1, path, chunks_of(content));
    lemma_chunks_concat(content);
    let fs2 = run_fs(fs1, s1, chunk_msgs);
    assert(fs2.files == fs1.files.insert(path, fs1.files[path] + content));
    assert(fs1.files[path] + content =~= content);
    assert(fs2.files =~= fs.files.insert(path, content));
}

/// Reconstruction fidelity: a live connection that receives exactly the
/// messages the client builds for one file ends with the source bytes, byte
/// for byte, at the file's path, holds nothing open, stays live, and has
/// touched no directory.
pub proof fn lemma_reconstruction_fidelity(
    fs: FsView,
    s: HandlerView,
    path: Seq<char>,
    content: Seq<u8>,
)
    requires
        !s.done,
    ensures
        ({
            let msgs = spec_file_messages(path, content);
            let fs_after = run_fs(fs, s, msgs);
            fs_after.files.dom().contains(path) && fs_after.files[path] == content
                && fs_after.dirs == fs.dirs && run_handler(s, msgs) == (HandlerView {
                open_path: None,
                done: false,
            })
        }),
{
    let msgs = spec_file_messages(path, content);
    let prefix = msgs.drop_last();
    let closer = seq![PacketView::EndFile];
    assert(msgs =~= prefix + closer);
    lemma_transfer_prefix(fs, s, path, content);
    lemma_run_append(fs, s, prefix, closer);
    let s2 = run_handler(s, prefix);
    let fs2 = run_fs(fs, s, prefix);
    lemma_run_one(fs2, s2, PacketView::EndFile);
    assert(run_handler(s2, closer) == next_state(s2, PacketView::EndFile));
    assert(run_fs(fs2, s2, closer) == machine_fs(fs2, s2, PacketView::EndFile));
    assert(machine_fs(fs2, s2, PacketView::EndFile) == fs2);
}

/// Digest agreement: after a clean transfer the destination's digest equals
/// the source's, and the acknowledgment the server sends for the closer
/// carries exactly that digest — the digest the client computes locally
/// over the source bytes.
pub proof fn lemma_digest_agreement(fs: FsView, s: HandlerView, path: Seq<char>, content: Seq<u8>)
    requires
        !s.done,
    ensures
        sha1_hex_of(run_fs(fs, s, spec_file_messages(path, content)).files[path]) == sha1_hex_of(
            content,
        ),
        ({
            let prefix = spec_file_messages(path, content).drop_last();
            step_ack(run_fs(fs, s, prefix), run_handler(s, prefix), PacketView::EndFile) == Some(
                PacketView::EndFileAck { checksum: encode_utf8(sha1_hex_of(content)) },
            )
        }),
{
    lemma_transfer_prefix(fs, s, path, content);
    lemma_reconstruction_fidelity(fs, s, path, content);
}

} // verus!
