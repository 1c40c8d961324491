use beyond_blue::envelope::decode_event;
use beyond_blue::envelope::encode_event;
use beyond_blue::NetworkEvent;

#[test]
fn round_trip_new_connection() {
    let ev: NetworkEvent<Vec<u8>> = NetworkEvent::NewConnection(String::from("12D3KooWPeerA"));
    let bytes = encode_event(&ev);
    assert_eq!(decode_event(&bytes), Some(ev));
}

#[test]
fn round_trip_event_payload() {
    let ev: NetworkEvent<Vec<u8>> =
        NetworkEvent::Event(String::from("12D3KooWPeerA"), vec![1, 2, 3, 255, 0]);
    let bytes = encode_event(&ev);
    assert_eq!(decode_event(&bytes), Some(ev));
}

#[test]
fn round_trip_empty_payload_and_multibyte_id() {
    let ev: NetworkEvent<Vec<u8>> = NetworkEvent::Event(String::from("pĕer-ü"), vec![]);
    let bytes = encode_event(&ev);
    assert_eq!(decode_event(&bytes), Some(ev));
}

#[test]
fn wire_bytes_are_exact() {
    let ev: NetworkEvent<Vec<u8>> = NetworkEvent::NewConnection(String::from("A"));
    let bytes = encode_event(&ev);
    assert_eq!(bytes, vec![0x92, 0x00, 0xdb, 0, 0, 0, 1, 0x41]);

    let ev2: NetworkEvent<Vec<u8>> = NetworkEvent::Event(String::from("A"), vec![7, 8]);
    let bytes2 = encode_event(&ev2);
    assert_eq!(
        bytes2,
        vec![0x93, 0x01, 0xdb, 0, 0, 0, 1, 0x41, 0xc6, 0, 0, 0, 2, 7, 8]
    );
}

#[test]
fn decode_rejects_malformed_input() {
    assert_eq!(decode_event(&vec![]), None);
    assert_eq!(decode_event(&vec![0x92]), None);
    assert_eq!(decode_event(&vec![0x90, 0x00, 0xdb, 0, 0, 0, 0]), None);
    // wrong string tag
    assert_eq!(decode_event(&vec![0x92, 0x00, 0xda, 0, 1, 0x41]), None);
    // declared length runs past the end
    assert_eq!(decode_event(&vec![0x92, 0x00, 0xdb, 0, 0, 0, 9, 0x41]), None);
}

#[test]
fn decode_rejects_invalid_utf8_identifier() {
    assert_eq!(
        decode_event(&vec![0x92, 0x00, 0xdb, 0, 0, 0, 1, 0xff]),
        None
    );
}

#[test]
fn decode_rejects_trailing_bytes() {
    let ev: NetworkEvent<Vec<u8>> = NetworkEvent::NewConnection(String::from("A"));
    let mut bytes = encode_event(&ev);
    bytes.push(0);
    assert_eq!(decode_event(&bytes), None);
}
