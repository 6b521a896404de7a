use taiko_untitled::analyze::{integrate_some_fraction, LIT_THRESHOLD};
use taiko_untitled::errors::SdlError;
use taiko_untitled::text_encoding::{check_decoding, decode_tja, DecodingError};

#[test]
fn ascii_files_decode_to_themselves() {
    let text = "TITLE:Plain song\nBPM:120\n#START\n1111,\n#END\n";
    assert_eq!(decode_tja(text.as_bytes()).unwrap(), text);
}

#[test]
fn shift_jis_files_are_recognised() {
    let text = "TITLE:さくらさくら\nSUBTITLE:--日本古謡\nBPM:120\nWAVE:さくらさくら.ogg\n#START\n1111,\n2222,\n#END\n";
    let (bytes, _, unmappable) = encoding_rs::SHIFT_JIS.encode(text);
    assert!(!unmappable);
    assert_ne!(&bytes[..], text.as_bytes());
    assert_eq!(decode_tja(&bytes).unwrap(), text);
}

#[test]
fn a_byte_order_mark_for_another_encoding_is_refused() {
    let bytes = [0xFF, 0xFE, b'A', 0, b'B', 0];
    match decode_tja(&bytes) {
        Err(DecodingError::AnotherEncodingWasUsed { used, detected }) => {
            assert_eq!(used, encoding_rs::UTF_16LE);
            assert_ne!(detected, encoding_rs::UTF_16LE);
        }
        other => panic!("{:?}", other),
    }
}

#[test]
fn decoder_results_are_checked() {
    let sjis = encoding_rs::SHIFT_JIS;
    assert_eq!(check_decoding(sjis, ("abc".to_string(), sjis, false)).unwrap(), "abc");
    assert!(matches!(
        check_decoding(sjis, ("a\u{FFFD}".to_string(), sjis, true)),
        Err(DecodingError::MalformedByteSequenceFound(e)) if e == sjis
    ));
    assert!(matches!(
        check_decoding(sjis, ("abc".to_string(), encoding_rs::UTF_8, false)),
        Err(DecodingError::AnotherEncodingWasUsed { .. })
    ));
}

#[test]
fn frame_measurements() {
    let stride = 1920;
    let mut plane = vec![0u8; stride * 1080];
    for b in &mut plane[192..252] {
        *b = 3;
    }
    let result = integrate_some_fraction(&plane, stride);
    assert_eq!(result.top_left, 180);
    assert_eq!(result.bottom, 0);
    // the fourth marker, at (482, 743), is lit
    plane[482 + stride * 743] = LIT_THRESHOLD + 1;
    assert_eq!(integrate_some_fraction(&plane, stride).bottom, 4);
    // a marker at the threshold is not lit
    plane[960 + stride * 743] = LIT_THRESHOLD;
    assert_eq!(integrate_some_fraction(&plane, stride).bottom, 4);
    plane[960 + stride * 743] = 255;
    assert_eq!(integrate_some_fraction(&plane, stride).bottom, 1);
}

#[test]
fn sdl_errors_carry_their_message() {
    let e = SdlError::from("texture too large".to_string());
    assert_eq!(e.0, "texture too large");
}
