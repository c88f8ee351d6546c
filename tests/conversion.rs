use solana_key_utils::base58::{decode_base58_to_bytes, encode_bytes_to_base58, Base58Error};
use solana_key_utils::byte_list::{parse_u8_array, ByteListError};

fn invalid(token: &str, position: usize) -> ByteListError {
    ByteListError::InvalidByte { token: token.to_string(), position }
}

#[test]
fn test_parse_u8_array() {
    assert_eq!(parse_u8_array("[1, 2, 3]"), Ok(vec![1, 2, 3]));
    assert_eq!(parse_u8_array("1, 2, 3"), Ok(vec![1, 2, 3]));
    assert_eq!(parse_u8_array(""), Ok(vec![]));
    assert!(parse_u8_array("[256]").is_err());
}

#[test]
fn parse_accepts_whitespace_signs_and_leading_zeros() {
    assert_eq!(parse_u8_array("[ 0 ,\t255 , +8,009 ]"), Ok(vec![0, 255, 8, 9]));
    assert_eq!(parse_u8_array("[[7]]"), Ok(vec![7]));
    assert_eq!(parse_u8_array("42"), Ok(vec![42]));
}

#[test]
fn parse_blank_lists_are_empty() {
    assert_eq!(parse_u8_array("[]"), Ok(vec![]));
    assert_eq!(parse_u8_array("[  ]"), Ok(vec![]));
    assert_eq!(parse_u8_array("   "), Ok(vec![]));
}

#[test]
fn parse_reports_the_first_bad_token() {
    assert_eq!(parse_u8_array("[256]"), Err(invalid("256", 0)));
    assert_eq!(parse_u8_array("[1, x, 300]"), Err(invalid(" x", 1)));
    assert_eq!(parse_u8_array("[1,,2]"), Err(invalid("", 1)));
    assert_eq!(parse_u8_array("[1, 2,]"), Err(invalid("", 2)));
    assert_eq!(parse_u8_array("-1"), Err(invalid("-1", 0)));
    assert_eq!(parse_u8_array("[+]"), Err(invalid("+", 0)));
    assert_eq!(parse_u8_array("[1 2]"), Err(invalid("1 2", 0)));
}

#[test]
fn parse_error_message_names_the_token() {
    let e = parse_u8_array("[12, abc]").unwrap_err();
    assert_eq!(e.message(), "Invalid byte ' abc'");
}

#[test]
fn base58_encodes_known_values() {
    assert_eq!(encode_bytes_to_base58(b"Hello World!"), "2NEpo7TZRRrLZSi2U");
    assert_eq!(encode_bytes_to_base58(&[0, 0, 1]), "112");
    assert_eq!(encode_bytes_to_base58(&[0]), "1");
    assert_eq!(encode_bytes_to_base58(&[]), "");
    assert_eq!(encode_bytes_to_base58(&[57]), "z");
    assert_eq!(encode_bytes_to_base58(&[58]), "21");
}

#[test]
fn base58_decodes_known_values() {
    assert_eq!(decode_base58_to_bytes("2NEpo7TZRRrLZSi2U"), Ok(b"Hello World!".to_vec()));
    assert_eq!(decode_base58_to_bytes("112"), Ok(vec![0, 0, 1]));
    assert_eq!(decode_base58_to_bytes(""), Ok(vec![]));
}

#[test]
fn base58_rejects_characters_outside_the_alphabet() {
    assert_eq!(
        decode_base58_to_bytes("21l"),
        Err(Base58Error::InvalidBase58(bs58::decode::Error::InvalidCharacter {
            character: 'l',
            index: 2
        }))
    );
    assert!(decode_base58_to_bytes("0").is_err());
    assert!(decode_base58_to_bytes("O").is_err());
    assert!(decode_base58_to_bytes("I").is_err());
    assert!(decode_base58_to_bytes("é").is_err());
}

#[test]
fn base58_round_trip() {
    let samples: Vec<Vec<u8>> = vec![
        vec![],
        vec![0],
        vec![0, 0, 0, 255],
        (0u8..=255).collect(),
        vec![255; 64],
    ];
    for b in samples {
        let text = encode_bytes_to_base58(&b);
        assert_eq!(decode_base58_to_bytes(&text), Ok(b));
    }
}

#[test]
fn parse_reads_back_printed_byte_lists() {
    let all: Vec<u8> = (0u8..=255).collect();
    assert_eq!(parse_u8_array(&format!("{:?}", all)), Ok(all.clone()));
    assert_eq!(parse_u8_array("[]"), Ok(vec![]));
    let decoded = decode_base58_to_bytes(&encode_bytes_to_base58(&[0, 0, 7, 200])).unwrap();
    assert_eq!(parse_u8_array(&format!("{:?}", decoded)), Ok(vec![0, 0, 7, 200]));
}
