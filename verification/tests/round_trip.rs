use utf8_decode::source::VecSource;
use utf8_decode::Decoder;

fn decodes_back(c: char) {
    let mut buf = [0u8; 4];
    let encoded = c.encode_utf8(&mut buf);
    let mut d = Decoder::new(VecSource::new(encoded.as_bytes().to_vec()));
    assert_eq!(d.next(), Some(Ok(c)));
    assert_eq!(d.next(), None);
}

#[test]
fn boundary_scalar_values_round_trip() {
    for v in [
        0u32, 0x7F, 0x80, 0x7FF, 0x800, 0xD7FF, 0xE000, 0xFFFF, 0x10000, 0x10FFFF,
    ] {
        decodes_back(char::from_u32(v).unwrap());
    }
}

#[test]
fn sampled_scalar_values_round_trip() {
    let mut v: u32 = 0;
    while v <= 0x10FFFF {
        if let Some(c) = char::from_u32(v) {
            decodes_back(c);
        }
        v += 37;
    }
}

#[test]
fn every_ascii_scalar_round_trips() {
    for v in 0u32..=0x7F {
        decodes_back(char::from_u32(v).unwrap());
    }
}
