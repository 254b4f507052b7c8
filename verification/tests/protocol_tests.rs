use rustsync::framer::{encode_frame, take_frame};
use rustsync::packet::{DecodeError, Packet};
use rustsync::sync_message::SyncMessage;

#[test]
fn wire_format_is_pinned() {
    // Tag 0, an 8-byte length prefix of 2, then the path's bytes.
    let encoded = Packet::MakeDir {
        relative_path: String::from("ab"),
    }
    .encode();
    assert_eq!(
        encoded,
        vec![0, 0, 0, 0, 0, 0, 0, 0, 0, 0, 0, 2, 97, 98]
    );

    // Tag 1, the path, then the 8-byte big-endian size.
    let encoded = Packet::BeginFile {
        relative_path: String::from("a"),
        file_size: 0x0102030405060708,
    }
    .encode();
    assert_eq!(
        encoded,
        vec![0, 0, 0, 1, 0, 0, 0, 0, 0, 0, 0, 1, 97, 1, 2, 3, 4, 5, 6, 7, 8]
    );

    // The fieldless variants are a bare tag.
    assert_eq!(Packet::EndFile.encode(), vec![0, 0, 0, 3]);
    assert_eq!(Packet::EndSession.encode(), vec![0, 0, 0, 5]);
}

#[test]
fn roundtrip_edge_cases() {
    // A zero-length path.
    let decoded = Packet::decode(
        &Packet::MakeDir {
            relative_path: String::new(),
        }
        .encode(),
    )
    .unwrap();
    if let Packet::MakeDir { relative_path } = decoded {
        assert_eq!(relative_path, String::new());
    } else {
        panic!("expected MakeDir");
    }

    // A zero-length chunk.
    let decoded = Packet::decode(&Packet::FileChunk { data: vec![] }.encode()).unwrap();
    if let Packet::FileChunk { data } = decoded {
        assert!(data.is_empty());
    } else {
        panic!("expected FileChunk");
    }

    // The largest file size.
    let decoded = Packet::decode(
        &Packet::BeginFile {
            relative_path: String::from("f"),
            file_size: u64::MAX,
        }
        .encode(),
    )
    .unwrap();
    if let Packet::BeginFile { file_size, .. } = decoded {
        assert_eq!(file_size, u64::MAX);
    } else {
        panic!("expected BeginFile");
    }

    // An acknowledgment with its checksum, and a path beyond ASCII.
    let decoded = Packet::decode(
        &Packet::EndFileAck {
            checksum: vec![0xDE, 0xAD],
        }
        .encode(),
    )
    .unwrap();
    if let Packet::EndFileAck { checksum } = decoded {
        assert_eq!(checksum, vec![0xDE, 0xAD]);
    } else {
        panic!("expected EndFileAck");
    }
    let decoded = Packet::decode(
        &Packet::MakeDir {
            relative_path: String::from("fotos/céu.txt"),
        }
        .encode(),
    )
    .unwrap();
    if let Packet::MakeDir { relative_path } = decoded {
        assert_eq!(relative_path, String::from("fotos/céu.txt"));
    } else {
        panic!("expected MakeDir");
    }
}

#[test]
fn decode_rejects_bad_buffers() {
    // Too short for a tag.
    assert!(matches!(
        Packet::decode(&[0, 0, 0]),
        Err(DecodeError::Truncated)
    ));

    // A tag no variant owns.
    assert!(matches!(
        Packet::decode(&[0, 0, 0, 9]),
        Err(DecodeError::UnknownTag)
    ));

    // A declared field length longer than the buffer.
    assert!(matches!(
        Packet::decode(&[0, 0, 0, 0, 0, 0, 0, 0, 0, 0, 0, 5, 97]),
        Err(DecodeError::Truncated)
    ));

    // Bytes after the message's last field.
    let mut encoded = Packet::EndFile.encode();
    encoded.push(0);
    assert!(matches!(
        Packet::decode(&encoded),
        Err(DecodeError::TrailingData)
    ));

    // A path that is not well-formed text.
    assert!(matches!(
        Packet::decode(&[0, 0, 0, 0, 0, 0, 0, 0, 0, 0, 0, 1, 0xFF]),
        Err(DecodeError::InvalidPath)
    ));

    // The earlier schema revision knows no acknowledgment tag.
    assert!(matches!(
        SyncMessage::decode(&Packet::EndSession.encode()),
        Err(DecodeError::UnknownTag)
    ));
}

#[test]
fn frame_roundtrip_and_atomicity() {
    let payload = vec![1, 2, 3];
    let frame = encode_frame(&payload);
    assert_eq!(frame, vec![0, 0, 0, 3, 1, 2, 3]);

    // A complete frame is taken whole, and the stream hands on just past it.
    let mut stream = frame.clone();
    stream.extend_from_slice(&[9, 9]);
    let (taken, consumed) = take_frame(&stream).unwrap();
    assert_eq!(taken, payload);
    assert_eq!(consumed, 7);

    // Partial frames are never interpreted: mid-length and mid-payload.
    assert!(take_frame(&[0, 0, 0]).is_none());
    assert!(take_frame(&[0, 0, 0, 3, 1, 2]).is_none());

    // A frame around an encoded message carries it across intact.
    let msg = Packet::BeginFile {
        relative_path: String::from("dir/file.bin"),
        file_size: 42,
    };
    let framed = encode_frame(&msg.encode());
    let (body, _) = take_frame(&framed).unwrap();
    if let Packet::BeginFile {
        relative_path,
        file_size,
    } = Packet::decode(&body).unwrap()
    {
        assert_eq!(relative_path, String::from("dir/file.bin"));
        assert_eq!(file_size, 42);
    } else {
        panic!("expected BeginFile");
    }
}
