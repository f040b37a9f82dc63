use utf8_decode::model::DecodeError;
use utf8_decode::source::VecSource;
use utf8_decode::{decode, Decoder};

fn decoder_over(bytes: Vec<u8>) -> Decoder<VecSource> {
    Decoder::new(VecSource::new(bytes))
}

#[test]
fn hello_decodes_to_five_characters() {
    let mut d = decoder_over(vec![72, 101, 108, 108, 111]);
    let mut out = String::new();
    while let Some(r) = d.next() {
        out.push(r.unwrap());
    }
    assert_eq!(out, "Hello");
}

#[test]
fn four_byte_sequence_is_one_character() {
    let mut d = decoder_over(vec![240, 159, 140, 141]);
    let first = d.next();
    assert_eq!(first, Some(Ok('\u{1F30D}')));
    assert_eq!(d.next(), None);
}

#[test]
fn invalid_continuation_is_malformed() {
    let mut d = decoder_over(vec![0xE2, 0x28, 0xA1]);
    assert_eq!(d.next(), Some(Err(DecodeError::MalformedSequence)));
}

#[test]
fn truncated_four_byte_sequence_is_truncated() {
    let mut d = decoder_over(vec![0xF0, 0x9F]);
    assert_eq!(d.next(), Some(Err(DecodeError::TruncatedSequence)));
    assert_eq!(d.next(), None);
}

#[test]
fn truncated_three_byte_sequence_is_truncated() {
    let mut d = decoder_over(vec![0xE2, 0x82]);
    assert_eq!(d.next(), Some(Err(DecodeError::TruncatedSequence)));
}

#[test]
fn empty_input_ends_immediately() {
    let mut d = decoder_over(vec![]);
    assert_eq!(d.next(), None);
}

#[test]
fn end_of_sequence_stays_end_of_sequence() {
    let mut d = decoder_over(vec![0x41]);
    assert_eq!(d.next(), Some(Ok('A')));
    assert_eq!(d.next(), None);
    assert_eq!(d.next(), None);
    assert_eq!(d.next(), None);
}

#[test]
fn ascii_bytes_decode_to_themselves() {
    for b in 0u8..=0x7F {
        let mut d = decoder_over(vec![b]);
        assert_eq!(d.next(), Some(Ok(b as char)));
        assert_eq!(d.next(), None);
    }
}

#[test]
fn two_byte_sequences_follow_the_assembly_formula() {
    for lead in 0xC0u8..=0xDF {
        for cont in 0x80u8..=0xBF {
            let mut d = decoder_over(vec![lead, cont]);
            let v = ((lead as u32) & 0x1F) << 6 | ((cont as u32) & 0x3F);
            assert_eq!(d.next(), Some(Ok(char::from_u32(v).unwrap())));
            assert_eq!(d.next(), None);
        }
    }
}

#[test]
fn stray_continuation_bytes_are_malformed() {
    for b in 0x80u8..=0xBF {
        let mut d = decoder_over(vec![b, 0x41]);
        assert_eq!(d.next(), Some(Err(DecodeError::MalformedSequence)));
        // only the stray byte was consumed
        assert_eq!(d.next(), Some(Ok('A')));
        assert_eq!(d.next(), None);
    }
}

#[test]
fn lead_followed_by_non_continuation_is_malformed() {
    let mut d = decoder_over(vec![0xC3, 0x28]);
    assert_eq!(d.next(), Some(Err(DecodeError::MalformedSequence)));
    let mut d = decoder_over(vec![0xE0, 0x20, 0x80]);
    assert_eq!(d.next(), Some(Err(DecodeError::MalformedSequence)));
    let mut d = decoder_over(vec![0xF0, 0x41, 0x80, 0x80]);
    assert_eq!(d.next(), Some(Err(DecodeError::MalformedSequence)));
}

#[test]
fn overlong_two_byte_encodings_are_accepted() {
    // documented permissiveness: overlong encodings that still decode to a
    // valid scalar value pass
    let mut d = decoder_over(vec![0xC0, 0x80]);
    assert_eq!(d.next(), Some(Ok('\0')));
    let mut d = decoder_over(vec![0xC1, 0xBF]);
    assert_eq!(d.next(), Some(Ok('\u{7F}')));
}

#[test]
fn surrogate_codepoint_is_malformed() {
    // 0xED 0xA0 0x80 assembles to 0xD800, the first high surrogate
    let mut d = decoder_over(vec![0xED, 0xA0, 0x80]);
    assert_eq!(d.next(), Some(Err(DecodeError::MalformedSequence)));
}

#[test]
fn codepoint_beyond_unicode_range_is_malformed() {
    // 0xF7 0xBF 0xBF 0xBF assembles to 0x1FFFFF, above 0x10FFFF
    let mut d = decoder_over(vec![0xF7, 0xBF, 0xBF, 0xBF]);
    assert_eq!(d.next(), Some(Err(DecodeError::MalformedSequence)));
}

#[test]
fn five_bit_lead_class_is_malformed() {
    for b in [0xF8u8, 0xFB, 0xFF] {
        let mut d = decoder_over(vec![b, 0x80]);
        assert_eq!(d.next(), Some(Err(DecodeError::MalformedSequence)));
    }
}

#[test]
fn decoding_resumes_at_the_next_byte_after_an_error() {
    let mut d = decoder_over(vec![0x41, 0xC3, 0x28, 0x42]);
    assert_eq!(d.next(), Some(Ok('A')));
    // the bad pair 0xC3 0x28 is consumed by the failing pull
    assert_eq!(d.next(), Some(Err(DecodeError::MalformedSequence)));
    assert_eq!(d.next(), Some(Ok('B')));
    assert_eq!(d.next(), None);
}

#[test]
fn decode_free_function_pulls_one_character() {
    let mut source = VecSource::new(vec![0xC3, 0xA9, 0x21]);
    assert_eq!(decode(&mut source), Some(Ok('é')));
    assert_eq!(decode(&mut source), Some(Ok('!')));
    assert_eq!(decode(&mut source), None);
}

#[test]
fn mixed_widths_decode_in_order() {
    // "aé€🌍" : 1-, 2-, 3- and 4-byte sequences back to back
    let bytes = vec![0x61, 0xC3, 0xA9, 0xE2, 0x82, 0xAC, 0xF0, 0x9F, 0x8C, 0x8D];
    let mut d = decoder_over(bytes);
    assert_eq!(d.next(), Some(Ok('a')));
    assert_eq!(d.next(), Some(Ok('é')));
    assert_eq!(d.next(), Some(Ok('€')));
    assert_eq!(d.next(), Some(Ok('\u{1F30D}')));
    assert_eq!(d.next(), None);
}
