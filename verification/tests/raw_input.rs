use rattacker::error::EngineError;
use rattacker::raw_input::Packet;
use rattacker::raw_input::PACKET_LENGTH;

fn flags(set: &[usize]) -> [bool; 11] {
    let mut out = [false; 11];
    for &slot in set {
        out[slot - 1] = true;
    }
    out
}

#[test]
fn parse_reads_axes_and_buttons() {
    let p = Packet::parse(&[0x10, 0x20, 0x80, 0b0000_0101, 0b0000_0010]).unwrap();
    assert_eq!(p.x_axis, 0x10);
    assert_eq!(p.y_axis, 0x20);
    assert_eq!(p.z_axis, 0x80);
    assert_eq!(p.buttons, flags(&[1, 3, 10]));
}

#[test]
fn parse_maps_each_bit_to_its_button() {
    for bit in 0..8 {
        let p = Packet::parse(&[0, 0, 0, 1u8 << bit, 0]).unwrap();
        assert_eq!(p.buttons, flags(&[bit + 1]));
    }
    for bit in 0..3 {
        let p = Packet::parse(&[0, 0, 0, 0, 1u8 << bit]).unwrap();
        assert_eq!(p.buttons, flags(&[bit + 9]));
    }
}

#[test]
fn parse_ignores_the_unused_bits_of_the_last_byte() {
    let p = Packet::parse(&[1, 2, 3, 0x00, 0b1111_1000]).unwrap();
    assert_eq!(p.buttons, [false; 11]);
    let q = Packet::parse(&[1, 2, 3, 0xFF, 0xFF]).unwrap();
    assert_eq!(q.buttons, [true; 11]);
}

#[test]
fn parse_keeps_the_extreme_axis_bytes() {
    let p = Packet::parse(&[0x00, 0xFF, 0x7F, 0, 0]).unwrap();
    assert_eq!((p.x_axis, p.y_axis, p.z_axis), (0x00, 0xFF, 0x7F));
}

#[test]
fn parse_refuses_a_short_buffer() {
    assert_eq!(Packet::parse(&[0x10, 0x20, 0x80, 0x05]), Err(EngineError::MalformedPacket));
}

#[test]
fn parse_refuses_an_empty_buffer() {
    assert_eq!(Packet::parse(&[]), Err(EngineError::MalformedPacket));
}

#[test]
fn parse_refuses_a_long_buffer() {
    assert_eq!(Packet::parse(&[0, 0, 0, 0, 0, 0]), Err(EngineError::MalformedPacket));
    assert_eq!(Packet::parse(&[0; 10]), Err(EngineError::MalformedPacket));
}

#[test]
fn packet_length_is_five_bytes() {
    assert_eq!(PACKET_LENGTH, 5);
    assert!(Packet::parse(&[0; PACKET_LENGTH]).is_ok());
}
