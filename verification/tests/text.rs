use zztff::{decode_multiline, decode_oneline, encode_multiline, encode_oneline, EncodeError};

fn serialize_code(input: &str) -> Vec<u8> {
    encode_multiline(input).expect("Error in test")
}

fn serialize_line(input: &str) -> Vec<u8> {
    encode_oneline(input).expect("Error in test")
}

#[test]
fn roundtrip_multiline() {
    let bytes: Vec<u8> = (0..=255).collect();
    assert_eq!(bytes, serialize_code(&decode_multiline(&bytes)))
}

#[test]
fn roundtrip_oneline() {
    let bytes: Vec<u8> = (0..=255).collect();
    assert_eq!(bytes, serialize_line(&decode_oneline(&bytes)))
}

#[test]
fn one_codepoint_per_byte() {
    let bytes: Vec<u8> = (0..=255).collect();
    assert_eq!(256, decode_oneline(&bytes).chars().count());
    assert_eq!(256, decode_multiline(&bytes).chars().count());
}

#[test]
fn newlines_to_cr() {
    assert_eq!(serialize_code("ABC\nDEF"), vec![65, 66, 67, 13, 68, 69, 70]);
}

#[test]
fn byte_13_to_dingbat() {
    let bytes = serialize_code("ABC\nDEF");
    assert!(bytes.contains(&13));
    assert_eq!(decode_oneline(&bytes), "ABC♪DEF");
}

#[test]
fn wingdings() {
    assert_eq!(
        decode_multiline(&(0..32).collect::<Vec<_>>()),
        "\0☺☻♥♦♣♠•◘○◙♂♀\n♫☼►◄↕‼¶§▬↨↑↓→←∟↔▲▼"
    );
    assert_eq!(
        decode_multiline(&(112..144).collect::<Vec<_>>()),
        "pqrstuvwxyz{|}~⌂ÇüéâäàåçêëèïîìÄÅ"
    );
    assert_eq!(
        decode_multiline(&(224..=255).collect::<Vec<_>>()),
        "αßΓπΣσµτΦΘΩδ∞φε∩≡±≥≤⌠⌡÷≈°∙·√ⁿ²■\u{a0}"
    );
}

#[test]
fn oneline_rejects_newline() {
    assert!(matches!(encode_oneline("AB\nC"), Err(EncodeError::EncodingError('\n'))));
}

#[test]
fn unencodable_character_is_reported() {
    assert!(matches!(encode_oneline("aźb"), Err(EncodeError::EncodingError('ź'))));
    assert!(matches!(encode_multiline("x\nź"), Err(EncodeError::EncodingError('ź'))));
}

#[test]
fn first_unencodable_character_wins() {
    assert!(matches!(encode_oneline("ąź"), Err(EncodeError::EncodingError('ą'))));
}

#[test]
fn symbols_encode_to_control_bytes() {
    assert_eq!(serialize_line("☺♪"), vec![1, 13]);
    assert_eq!(decode_oneline(&[1, 2, 65]), "☺☻A");
    assert_eq!(serialize_code("♪"), vec![13]);
    assert_eq!(decode_multiline(&[13]), "\n");
}

#[test]
fn alternative_spelling_encodes_to_table_byte() {
    assert_eq!(serialize_line("∏"), vec![0xE3]);
    assert_eq!(decode_oneline(&[0xE3]), "π");
}

#[test]
fn empty_text() {
    assert_eq!(serialize_line(""), Vec::<u8>::new());
    assert_eq!(decode_oneline(&[]), "");
}

#[test]
fn table_text_reads_back_unchanged() {
    let line = "Hello, ☺ world ÄÅ ▲▼ ß";
    assert_eq!(decode_oneline(&serialize_line(line)), line);
    let code = "@obj\n#end\n'note ♪ here";
    assert_eq!(decode_multiline(&serialize_code(code)), "@obj\n#end\n'note \n here");
}

#[test]
fn alternative_spelling_reads_back_as_table_entry() {
    assert_eq!(serialize_line("β"), vec![0xE1]);
    assert_eq!(decode_oneline(&serialize_line("β")), "ß");
}
