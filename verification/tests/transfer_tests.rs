use rustsync::client::{entry_messages, evaluate_ack, split_chunks, AckOutcome};
use rustsync::config::{apply_client_args, apply_server_args, ClientConfig, ServerConfig};
use rustsync::digest::digest_hex;
use rustsync::file::FileEntry;
use rustsync::packet::Packet;
use rustsync::server::ModelServer;

const HELLO_SHA1: &str = "2AAE6C35C94FCFB415DBE95F408B9CE91EE846ED";

#[test]
fn chunking_splits_and_rebuilds_exactly() {
    // 150000 bytes fall into blocks of 65536, 65536 and 18928, and the
    // blocks concatenate back to the source.
    let data: Vec<u8> = (0..150000u32).map(|i| (i % 251) as u8).collect();
    let chunks = split_chunks(&data);
    let sizes: Vec<usize> = chunks.iter().map(|c| c.len()).collect();
    assert_eq!(sizes, vec![65536, 65536, 18928]);
    let rebuilt: Vec<u8> = chunks.concat();
    assert_eq!(rebuilt, data);

    // Empty content yields no chunks.
    assert!(split_chunks(&Vec::new()).is_empty());
}

#[test]
fn entry_messages_follow_the_protocol() {
    // A directory is announced in a single message.
    let dir = FileEntry {
        file_path: String::from("root/sub"),
        is_dir: true,
        file_content: None,
    };
    let msgs = entry_messages(&dir);
    assert_eq!(msgs.len(), 1);
    assert!(matches!(&msgs[0], Packet::MakeDir { relative_path } if relative_path == "root/sub"));

    // A small file travels as opener, one chunk, closer.
    let file = FileEntry {
        file_path: String::from("root/a.txt"),
        is_dir: false,
        file_content: Some(b"hello world".to_vec()),
    };
    let msgs = entry_messages(&file);
    assert_eq!(msgs.len(), 3);
    assert!(
        matches!(&msgs[0], Packet::BeginFile { relative_path, file_size }
            if relative_path == "root/a.txt" && *file_size == 11)
    );
    assert!(matches!(&msgs[1], Packet::FileChunk { data } if data == b"hello world"));
    assert!(matches!(&msgs[2], Packet::EndFile));

    // A zero-length file produces no chunk messages.
    let empty = FileEntry {
        file_path: String::from("root/empty"),
        is_dir: false,
        file_content: Some(Vec::new()),
    };
    let msgs = entry_messages(&empty);
    assert_eq!(msgs.len(), 2);
    assert!(matches!(&msgs[0], Packet::BeginFile { file_size, .. } if *file_size == 0));
    assert!(matches!(&msgs[1], Packet::EndFile));
}

#[test]
fn digest_has_known_value() {
    // The digest of "hello world" is its well-known SHA-1, in uppercase hex.
    assert_eq!(digest_hex(&b"hello world".to_vec()), HELLO_SHA1);
    // The digest is not the input handed back: empty input, 40-digit output.
    assert_eq!(
        digest_hex(&Vec::new()),
        "DA39A3EE5E6B4B0D3255BFEF95601890AFD80709"
    );
}

#[test]
fn clean_transfer_scenario() {
    // The worked example: a directory, then an 11-byte file in three chunks.
    let mut server = ModelServer::new();

    assert!(server
        .process(Packet::MakeDir {
            relative_path: String::from("root/sub"),
        })
        .is_none());
    assert!(server.fs.has_dir(&String::from("root/sub")));

    assert!(server
        .process(Packet::BeginFile {
            relative_path: String::from("root/a.txt"),
            file_size: 11,
        })
        .is_none());
    for chunk in [&b"hel"[..], &b"lo w"[..], &b"orld"[..]] {
        assert!(server
            .process(Packet::FileChunk {
                data: chunk.to_vec(),
            })
            .is_none());
    }
    let ack = server.process(Packet::EndFile).expect("an acknowledgment");

    // The destination bytes equal the source bytes.
    assert_eq!(
        server.fs.lookup(&String::from("root/a.txt")).unwrap(),
        b"hello world".to_vec()
    );

    // The acknowledged checksum is the digest of the source bytes, and the
    // client, comparing it to its local digest, reports success.
    let local = digest_hex(&b"hello world".to_vec());
    assert_eq!(local, HELLO_SHA1);
    if let Packet::EndFileAck { checksum } = &ack {
        assert_eq!(checksum, &HELLO_SHA1.as_bytes().to_vec());
    } else {
        panic!("expected EndFileAck");
    }
    assert_eq!(evaluate_ack(&ack, &local), AckOutcome::Match);
}

#[test]
fn truncated_delivery_is_reported_not_fatal() {
    // The middle chunk goes missing: the digests differ, the client reports
    // a mismatch, and nothing aborts.
    let mut server = ModelServer::new();
    server.process(Packet::BeginFile {
        relative_path: String::from("root/a.txt"),
        file_size: 11,
    });
    server.process(Packet::FileChunk {
        data: b"hel".to_vec(),
    });
    server.process(Packet::FileChunk {
        data: b"orld".to_vec(),
    });
    let ack = server.process(Packet::EndFile).expect("an acknowledgment");

    let local = digest_hex(&b"hello world".to_vec());
    assert_eq!(evaluate_ack(&ack, &local), AckOutcome::Mismatch);

    // A frame that is no acknowledgment at all is an anomaly, also not fatal.
    assert_eq!(
        evaluate_ack(&Packet::EndFile, &local),
        AckOutcome::UnexpectedPacket
    );
}

#[test]
fn make_directory_twice_is_idempotent() {
    let mut server = ModelServer::new();
    let msg = || Packet::MakeDir {
        relative_path: String::from("shared/dir"),
    };
    assert!(server.process(msg()).is_none());
    assert!(server.process(msg()).is_none());
    assert!(server.fs.has_dir(&String::from("shared/dir")));
}

#[test]
fn session_ends_and_stays_ended() {
    let mut server = ModelServer::new();
    assert!(server.process(Packet::EndSession).is_none());

    // After the session ends, nothing is written and nothing acknowledged.
    assert!(server
        .process(Packet::BeginFile {
            relative_path: String::from("late.txt"),
            file_size: 4,
        })
        .is_none());
    assert!(server
        .process(Packet::FileChunk {
            data: b"late".to_vec(),
        })
        .is_none());
    assert!(server.process(Packet::EndFile).is_none());
    assert!(server.fs.lookup(&String::from("late.txt")).is_none());
}

#[test]
fn concurrent_sessions_stay_isolated() {
    // Two connections, two independent handlers: disjoint subtrees arrive
    // intact, and ending one session leaves the other running.
    let mut first = ModelServer::new();
    let mut second = ModelServer::new();

    first.process(Packet::BeginFile {
        relative_path: String::from("one/a.bin"),
        file_size: 3,
    });
    second.process(Packet::BeginFile {
        relative_path: String::from("two/b.bin"),
        file_size: 3,
    });
    first.process(Packet::FileChunk {
        data: vec![1, 1, 1],
    });
    second.process(Packet::FileChunk {
        data: vec![2, 2, 2],
    });
    first.process(Packet::EndSession);
    second.process(Packet::EndFile);

    assert_eq!(
        second.fs.lookup(&String::from("two/b.bin")).unwrap(),
        vec![2, 2, 2]
    );
    assert!(second.fs.lookup(&String::from("one/a.bin")).is_none());
}

#[test]
fn overlapping_begin_discards_the_open_file() {
    // A second opener before the closer abandons the first file's handle:
    // the chunk after it lands in the new file only.
    let mut server = ModelServer::new();
    server.process(Packet::BeginFile {
        relative_path: String::from("first"),
        file_size: 2,
    });
    server.process(Packet::FileChunk { data: vec![7] });
    server.process(Packet::BeginFile {
        relative_path: String::from("second"),
        file_size: 1,
    });
    server.process(Packet::FileChunk { data: vec![8] });
    server.process(Packet::EndFile);

    assert_eq!(server.fs.lookup(&String::from("first")).unwrap(), vec![7]);
    assert_eq!(server.fs.lookup(&String::from("second")).unwrap(), vec![8]);
}

#[test]
fn chunk_with_no_open_file_is_ignored() {
    let mut server = ModelServer::new();
    assert!(server
        .process(Packet::FileChunk {
            data: b"stray".to_vec(),
        })
        .is_none());
    // Closing with nothing open earns no acknowledgment either.
    assert!(server.process(Packet::EndFile).is_none());
}

#[test]
fn command_line_overrides_configuration() {
    let mut config = ClientConfig {
        remote_addr: Some(String::from("10.0.0.1:2600")),
    };
    apply_client_args(&mut config, Some(String::from("10.0.0.2:2600")));
    assert_eq!(config.remote_addr, Some(String::from("10.0.0.2:2600")));
    apply_client_args(&mut config, None);
    assert_eq!(config.remote_addr, Some(String::from("10.0.0.2:2600")));

    let loaded = ClientConfig::default();
    assert!(loaded.remote_addr.is_none());

    let mut config = ServerConfig {
        addr: String::from("0.0.0.0:2600"),
        backup_dir: String::from("/srv/backups"),
    };
    apply_server_args(&mut config, Some(String::from("0.0.0.0:2601")), None);
    assert_eq!(config.addr, String::from("0.0.0.0:2601"));
    assert_eq!(config.backup_dir, String::from("/srv/backups"));
}
