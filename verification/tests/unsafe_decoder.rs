use utf8_decode::decode_unsafe;
use utf8_decode::model::UnsafeDecodeError;
use utf8_decode::source::FallibleVecSource;
use utf8_decode::UnsafeDecoder;

fn decoder_over(items: Vec<Result<u8, u32>>) -> UnsafeDecoder<FallibleVecSource<u32>> {
    UnsafeDecoder::new(FallibleVecSource::new(items))
}

#[test]
fn unsafe_decoder_decodes_plain_bytes() {
    let items: Vec<Result<u8, u32>> =
        vec![Ok(72), Ok(101), Ok(108), Ok(108), Ok(111)];
    let mut d = decoder_over(items);
    let mut out = String::new();
    while let Some(r) = d.next() {
        out.push(r.unwrap());
    }
    assert_eq!(out, "Hello");
}

#[test]
fn source_error_in_leading_position_is_passed_through() {
    let mut d = decoder_over(vec![Err(7), Ok(0x41)]);
    assert_eq!(d.next(), Some(Err(UnsafeDecodeError::SourceError(7))));
    // the failed item is consumed; the bytes after it still decode
    assert_eq!(d.next(), Some(Ok('A')));
    assert_eq!(d.next(), None);
}

#[test]
fn source_error_inside_a_sequence_is_passed_through() {
    let mut d = decoder_over(vec![Ok(0xE2), Err(9), Ok(0x41)]);
    assert_eq!(d.next(), Some(Err(UnsafeDecodeError::SourceError(9))));
    assert_eq!(d.next(), Some(Ok('A')));
    assert_eq!(d.next(), None);
}

#[test]
fn source_error_value_is_unchanged() {
    let items: Vec<Result<u8, String>> = vec![Err(String::from("read failed"))];
    let mut d = UnsafeDecoder::new(FallibleVecSource::new(items));
    assert_eq!(
        d.next(),
        Some(Err(UnsafeDecodeError::SourceError(String::from("read failed"))))
    );
}

#[test]
fn unsafe_decoder_reports_malformed_sequences() {
    let mut d = decoder_over(vec![Ok(0xE2), Ok(0x28), Ok(0xA1)]);
    assert_eq!(d.next(), Some(Err(UnsafeDecodeError::MalformedSequence)));
}

#[test]
fn unsafe_decoder_reports_truncated_sequences() {
    let mut d = decoder_over(vec![Ok(0xF0), Ok(0x9F)]);
    assert_eq!(d.next(), Some(Err(UnsafeDecodeError::TruncatedSequence)));
    assert_eq!(d.next(), None);
}

#[test]
fn unsafe_decoder_on_empty_input_ends_immediately() {
    let mut d = decoder_over(vec![]);
    assert_eq!(d.next(), None);
    assert_eq!(d.next(), None);
}

#[test]
fn unsafe_decoder_decodes_multi_byte_characters() {
    let mut d = decoder_over(vec![Ok(240), Ok(159), Ok(140), Ok(141)]);
    assert_eq!(d.next(), Some(Ok('\u{1F30D}')));
    assert_eq!(d.next(), None);
}

#[test]
fn decode_unsafe_free_function_pulls_one_character() {
    let mut source: FallibleVecSource<u32> =
        FallibleVecSource::new(vec![Ok(0xC3), Ok(0xA9), Err(3)]);
    assert_eq!(decode_unsafe(&mut source), Some(Ok('é')));
    assert_eq!(
        decode_unsafe(&mut source),
        Some(Err(UnsafeDecodeError::SourceError(3)))
    );
    assert_eq!(decode_unsafe(&mut source), None);
}
