use rustsync::packet::Packet;

#[test]
fn packet_test_encode_decode_makedir() {
    let original = Packet::MakeDir {
        relative_path: String::from("some/path"),
    };

    let encoded = original.encode();
    let decoded = Packet::decode(&encoded).unwrap();

    if let Packet::MakeDir { relative_path } = decoded {
        assert_eq!(relative_path, String::from("some/path"));
    } else {
        panic!("Decoded variant does not match MakeDir");
    }
}

#[test]
fn packet_test_encode_decode_beginfile() {
    let original = Packet::BeginFile {
        relative_path: String::from("file.txt"),
        file_size: 123456,
    };

    let encoded = original.encode();
    let decoded = Packet::decode(&encoded).unwrap();

    if let Packet::BeginFile {
        relative_path,
        file_size,
    } = decoded
    {
        assert_eq!(relative_path, String::from("file.txt"));
        assert_eq!(file_size, 123456);
    } else {
        panic!("Decoded variant does not match BeginFile");
    }
}

#[test]
fn packet_test_encode_decode_filechunk() {
    let data = vec![1, 2, 3, 4, 5];
    let original = Packet::FileChunk { data: data.clone() };

    let encoded = original.encode();
    let decoded = Packet::decode(&encoded).unwrap();

    if let Packet::FileChunk { data: decoded_data } = decoded {
        assert_eq!(decoded_data, data);
    } else {
        panic!("Decoded variant does not match FileChunk");
    }
}

#[test]
fn packet_test_encode_decode_endfile() {
    let original = Packet::EndFile;

    let encoded = original.encode();
    let decoded = Packet::decode(&encoded).unwrap();

    matches!(decoded, Packet::EndFile);
}
