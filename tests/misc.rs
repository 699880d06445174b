use pupynet::channel::ChannelDecoder;
use pupynet::protocol::{Introduce, PeerCmd};
use pupynet::release::{is_newer, pick_asset};
use pupynet::route::{split_scheme, Scheme};
use pupynet::version::get_version;

fn start(stream_id: u64, length: u16) -> Vec<u8> {
    let mut v = ((stream_id << 4) | 1).to_le_bytes().to_vec();
    v.extend_from_slice(&length.to_le_bytes());
    v
}

#[test]
fn version_stamp_is_parsed() {
    assert_eq!(get_version(None), 0);
    assert_eq!(get_version(Some("42")), 42);
    assert_eq!(get_version(Some("+7")), 7);
    assert_eq!(get_version(Some("v1")), 0);
    assert_eq!(get_version(Some("4294967296")), 0);
    assert_eq!(get_version(Some("4294967295")), u32::MAX);
}

#[test]
fn schemes_are_split_from_addresses() {
    assert_eq!(split_scheme("udp://1.2.3.4:7764"), Some((Scheme::Udp, "1.2.3.4:7764".to_string())));
    assert_eq!(split_scheme("ws://host:1"), Some((Scheme::Ws, "host:1".to_string())));
    assert_eq!(split_scheme("http://host:1"), None);
    assert_eq!(split_scheme("udp:/x"), None);
}

#[test]
fn channel_decodes_commands_carried_by_a_stream() {
    let cmd = PeerCmd::Introduce(Introduce { id: "p".into(), name: "n".into(), owner: "o".into() });
    let envelope = cmd.serialize().unwrap();
    let mut input = start(1, envelope.len() as u16);
    input.extend_from_slice(&envelope);
    let mut decoder = ChannelDecoder::new();
    // the stream arrives in two pieces; the command comes once it is whole
    let cut = 14;
    assert!(decoder.handle_data(&input[..cut]).is_empty());
    let cmds = decoder.handle_data(&input[cut..]);
    assert_eq!(cmds.len(), 1);
    assert!(matches!(&cmds[0], PeerCmd::Introduce(i) if i.id == "p" && i.name == "n" && i.owner == "o"));
}

#[test]
fn channel_drops_a_partial_envelope_when_its_stream_ends() {
    let cmd = PeerCmd::CreateFolder { node_id: "a".into(), path: "b".into() };
    let envelope = cmd.serialize().unwrap();
    // the first stream carries only half an envelope
    let mut input = start(1, 4);
    input.extend_from_slice(&envelope[..4]);
    input.extend_from_slice(&start(2, envelope.len() as u16));
    input.extend_from_slice(&envelope);
    let mut decoder = ChannelDecoder::new();
    let cmds = decoder.handle_data(&input);
    assert_eq!(cmds.len(), 1);
    assert!(matches!(&cmds[0], PeerCmd::CreateFolder { node_id, path } if node_id == "a" && path == "b"));
}

#[test]
fn newer_release_is_recognised() {
    assert_eq!(is_newer("5", 4), Some(true));
    assert_eq!(is_newer("4", 4), Some(false));
    assert_eq!(is_newer("3", 4), Some(false));
    assert_eq!(is_newer("v5", 4), None);
}

#[test]
fn asset_for_this_system_is_picked() {
    let names = vec![None, Some("pupynet-windows.tar.gz".to_string()), Some("pupynet-linux.tar.gz".to_string())];
    assert_eq!(pick_asset(&names, "linux"), Some(2));
    assert_eq!(pick_asset(&names, "windows"), Some(1));
    assert_eq!(pick_asset(&names, "macos"), None);
    assert_eq!(pick_asset(&Vec::new(), "linux"), None);
}
