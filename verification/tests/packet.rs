use mpeg2ts_demux::packet::{AdaptationControl, Packet, PACKET_SIZE, SYNC_BYTE};

fn packet_bytes(b1: u8, b2: u8, b3: u8, b4: u8) -> Vec<u8> {
    let mut buf = vec![0x47, b1, b2, b3, b4];
    for i in 5..188 {
        buf.push(i as u8);
    }
    buf
}

#[test]
fn sizes() {
    assert_eq!(PACKET_SIZE, 188);
    assert_eq!(SYNC_BYTE, 0x47);
    assert!(Packet::is_sync_byte(0x47));
    assert!(!Packet::is_sync_byte(0x46));
    assert!(!Packet::is_sync_byte(0));
}

#[test]
fn pid_takes_thirteen_bits() {
    let buf = packet_bytes(0xff, 0xff, 0x10, 0);
    assert_eq!(Packet::new(&buf).pid(), 0x1fff);
    let buf = packet_bytes(0xe0, 0x00, 0x10, 0);
    assert_eq!(Packet::new(&buf).pid(), 0);
    let buf = packet_bytes(0x41, 0x23, 0x10, 0);
    assert_eq!(Packet::new(&buf).pid(), 0x123);
}

#[test]
fn payload_unit_start_is_bit_six() {
    assert!(Packet::new(&packet_bytes(0x40, 0, 0x10, 0)).payload_unit_start_indicator());
    assert!(!Packet::new(&packet_bytes(0xbf, 0xff, 0x10, 0)).payload_unit_start_indicator());
}

#[test]
fn adaptation_control_and_counter() {
    let pk = packet_bytes(0, 0, 0x0a, 0);
    assert_eq!(Packet::new(&pk).adaptation_control(), AdaptationControl::Reserved);
    assert_eq!(Packet::new(&pk).continuity_counter(), 10);
    let pk = packet_bytes(0, 0, 0xdf, 0);
    assert_eq!(Packet::new(&pk).adaptation_control(), AdaptationControl::PayloadOnly);
    assert_eq!(Packet::new(&pk).continuity_counter(), 15);
    let pk = packet_bytes(0, 0, 0x20, 0);
    assert_eq!(Packet::new(&pk).adaptation_control(), AdaptationControl::AdaptationFieldOnly);
    let pk = packet_bytes(0, 0, 0x30, 0);
    assert_eq!(
        Packet::new(&pk).adaptation_control(),
        AdaptationControl::AdaptationFieldAndPayload
    );
}

#[test]
fn payload_follows_the_header() {
    let buf = packet_bytes(0, 0, 0x10, 99);
    let pk = Packet::new(&buf);
    let payload = pk.payload().unwrap();
    assert_eq!(payload.len(), 184);
    assert_eq!(payload[0], 99);
    assert_eq!(payload[1], 5);
    assert_eq!(payload[183], 187);
    assert_eq!(pk.bytes(), &buf[..]);
}

#[test]
fn payload_follows_the_adaptation_field() {
    // adaptation field of 7 bytes after its length byte
    let buf = packet_bytes(0, 0, 0x30, 7);
    let payload = Packet::new(&buf).payload().unwrap();
    assert_eq!(payload.len(), 188 - 12);
    assert_eq!(payload[0], 12);
    // an adaptation field of no bytes
    let buf = packet_bytes(0, 0, 0x30, 0);
    let payload = Packet::new(&buf).payload().unwrap();
    assert_eq!(payload.len(), 183);
    assert_eq!(payload[0], 5);
    // the longest that leaves a payload
    let buf = packet_bytes(0, 0, 0x30, 182);
    let payload = Packet::new(&buf).payload().unwrap();
    assert_eq!(payload, &[187]);
}

#[test]
fn no_payload() {
    assert!(Packet::new(&packet_bytes(0, 0, 0x00, 0)).payload().is_none());
    assert!(Packet::new(&packet_bytes(0, 0, 0x20, 0)).payload().is_none());
    // the adaptation field fills the packet, or claims more than the packet has
    assert!(Packet::new(&packet_bytes(0, 0, 0x30, 183)).payload().is_none());
    assert!(Packet::new(&packet_bytes(0, 0, 0x30, 255)).payload().is_none());
}
