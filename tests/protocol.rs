use pupynet::protocol::{ByteEater, EncodeError, Introduce, Parser, PeerCmd};

fn introduce(id: &str, name: &str, owner: &str) -> PeerCmd {
    PeerCmd::Introduce(Introduce { id: id.to_string(), name: name.to_string(), owner: owner.to_string() })
}

fn all_commands() -> Vec<PeerCmd> {
    vec![
        PeerCmd::ReadFile { node_id: "n".into(), path: "/a/b".into(), offset: 7, length: u64::MAX },
        PeerCmd::WriteFile { node_id: "n".into(), path: "f".into(), offset: 1 << 40, data: vec![1, 2, 3] },
        PeerCmd::RemoveFile { node_id: "n".into(), path: "f".into() },
        PeerCmd::CreateFolder { node_id: "n".into(), path: "dir".into() },
        PeerCmd::RenameFolder { node_id: "n".into(), path: "dir".into(), new_name: "dür".into() },
        PeerCmd::RemoveFolder { node_id: "n".into(), path: "dir".into() },
        PeerCmd::ListFolderContents { node_id: "n".into(), path: "".into(), offset: 0, length: 10, recursive: true },
        introduce("p1", "Peer One", "alice"),
    ]
}

fn same(a: &PeerCmd, b: &PeerCmd) -> bool {
    format!("{:?}", a) == format!("{:?}", b)
}

#[test]
fn introduce_encoding_is_exact() {
    let bytes = introduce("ab", "c", "").serialize().unwrap();
    assert_eq!(
        bytes,
        vec![1, 0, 9, 0, 0, 0, 2, 0, b'a', b'b', 1, 0, b'c', 0, 0]
    );
}

#[test]
fn read_file_encoding_is_exact() {
    let cmd = PeerCmd::ReadFile { node_id: "n".into(), path: "p".into(), offset: 258, length: 1 };
    let bytes = cmd.serialize().unwrap();
    assert_eq!(
        bytes,
        vec![3, 0, 22, 0, 0, 0, 1, 0, b'n', 1, 0, b'p', 2, 1, 0, 0, 0, 0, 0, 0, 1, 0, 0, 0, 0, 0, 0, 0]
    );
}

#[test]
fn remove_commands_share_an_id_and_differ_in_the_flag() {
    let file = PeerCmd::RemoveFile { node_id: "n".into(), path: "p".into() }.serialize().unwrap();
    let folder = PeerCmd::RemoveFolder { node_id: "n".into(), path: "p".into() }.serialize().unwrap();
    assert_eq!(&file[0..2], &[4, 0]);
    assert_eq!(&folder[0..2], &[4, 0]);
    assert_eq!(*file.last().unwrap(), 0);
    assert_eq!(*folder.last().unwrap(), 1);
}

#[test]
fn introduce_round_trip_keeps_every_field() {
    let bytes = introduce("p1", "Peer One", "alice").serialize().unwrap();
    let mut parser = Parser::new();
    parser.parse(&bytes);
    match parser.next() {
        Some(PeerCmd::Introduce(i)) => {
            assert_eq!(i.id, "p1");
            assert_eq!(i.name, "Peer One");
            assert_eq!(i.owner, "alice");
        }
        other => panic!("unexpected {:?}", other),
    }
    assert!(parser.next().is_none());
}

#[test]
fn every_command_round_trips() {
    let cmds = all_commands();
    let mut stream = Vec::new();
    for c in &cmds {
        stream.extend(c.serialize().unwrap());
    }
    let mut parser = Parser::new();
    parser.parse(&stream);
    for c in &cmds {
        let got = parser.next().expect("a command");
        assert!(same(c, &got), "{:?} != {:?}", c, got);
    }
    assert!(parser.next().is_none());
}

#[test]
fn envelope_split_across_calls_is_reassembled() {
    let bytes = introduce("x", "y", "z").serialize().unwrap();
    let mut parser = Parser::new();
    for b in &bytes[..bytes.len() - 1] {
        parser.parse(&[*b]);
        assert!(parser.next().is_none());
    }
    parser.parse(&bytes[bytes.len() - 1..]);
    assert!(matches!(parser.next(), Some(PeerCmd::Introduce(_))));
}

#[test]
fn unknown_command_id_is_skipped() {
    let mut stream = vec![11, 0, 3, 0, 0, 0, 1, 2, 3];
    stream.extend(introduce("a", "b", "c").serialize().unwrap());
    let mut parser = Parser::new();
    parser.parse(&stream);
    assert!(matches!(parser.next(), Some(PeerCmd::Introduce(_))));
    assert!(parser.next().is_none());
}

#[test]
fn malformed_payload_is_skipped() {
    // a string length that runs past the payload, then bytes that are not UTF-8
    let mut stream = vec![1, 0, 2, 0, 0, 0, 9, 0];
    stream.extend_from_slice(&[5, 0, 5, 0, 0, 0, 1, 0, 0xFF, 0, 0]);
    stream.extend(introduce("a", "b", "c").serialize().unwrap());
    let mut parser = Parser::new();
    parser.parse(&stream);
    assert!(matches!(parser.next(), Some(PeerCmd::Introduce(_))));
    assert!(parser.next().is_none());
}

#[test]
fn hello_has_no_wire_form() {
    assert_eq!(PeerCmd::Hello.serialize().unwrap_err(), EncodeError::Unsupported);
}

#[test]
fn overlong_string_is_refused() {
    let long = "x".repeat(65536);
    let cmd = PeerCmd::CreateFolder { node_id: "n".into(), path: long };
    assert_eq!(cmd.serialize().unwrap_err(), EncodeError::FieldTooLong);
    let fits = PeerCmd::CreateFolder { node_id: "n".into(), path: "x".repeat(65535) };
    assert!(fits.serialize().is_ok());
}

#[test]
fn byte_eater_reads_fields_in_order() {
    let bytes = [2, 0, b'h', b'i', 5, 1, 0, 0, 0, 0, 0, 0, 1];
    let mut eater = ByteEater::new(&bytes);
    assert_eq!(eater.get_string().as_deref(), Some("hi"));
    assert_eq!(eater.get_u64(), Some(261));
    assert_eq!(eater.get_bool(), Some(true));
    assert!(eater.is_empty());
    assert_eq!(eater.get_u16(), None);
}

#[test]
fn byte_eater_u16_and_rest() {
    let bytes = [0x34, 0x12, 9, 8];
    let mut eater = ByteEater::new(&bytes);
    assert_eq!(eater.get_u16(), Some(0x1234));
    // reading the u16 does not move past it
    assert_eq!(eater.get_u16(), Some(0x1234));
    assert_eq!(eater.rest(), vec![0x34, 0x12, 9, 8]);
    assert!(eater.is_empty());
}

#[test]
fn byte_eater_refuses_invalid_utf8_and_short_input() {
    let bytes = [2, 0, 0xC3, 0x28];
    let mut eater = ByteEater::new(&bytes);
    assert_eq!(eater.get_string(), None);
    let bytes = [3, 0, b'a'];
    let mut eater = ByteEater::new(&bytes);
    assert_eq!(eater.get_string(), None);
    let bytes = [2, 0, 0xC3, 0xBC];
    let mut eater = ByteEater::new(&bytes);
    assert_eq!(eater.get_u16(), Some(2));
    assert_eq!(eater.get_string().as_deref(), Some("ü"));
    assert!(eater.is_empty());
}
