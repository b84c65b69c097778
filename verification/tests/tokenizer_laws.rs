use neural_forge::base64::decode_base64;
use neural_forge::token_map::TokenMap;
use neural_forge::tokenizer::TiktokenTokenizer;

fn b64(bytes: &[u8]) -> String {
    const A: &[u8; 64] = b"ABCDEFGHIJKLMNOPQRSTUVWXYZabcdefghijklmnopqrstuvwxyz0123456789+/";
    let mut out = String::new();
    for chunk in bytes.chunks(3) {
        let b = [chunk[0], *chunk.get(1).unwrap_or(&0), *chunk.get(2).unwrap_or(&0)];
        let n = ((b[0] as u32) << 16) | ((b[1] as u32) << 8) | b[2] as u32;
        out.push(A[(n >> 18) as usize & 63] as char);
        out.push(A[(n >> 12) as usize & 63] as char);
        out.push(if chunk.len() > 1 { A[(n >> 6) as usize & 63] as char } else { '=' });
        out.push(if chunk.len() > 2 { A[n as usize & 63] as char } else { '=' });
    }
    out
}

/// Every byte as its own rank, then `ab` (256) and `abc` (257).
fn full_vocab() -> String {
    let mut data = String::new();
    for b in 0u16..256 {
        data.push_str(&format!("{} {}\n", b64(&[b as u8]), b));
    }
    data.push_str(&format!("{} 256\n", b64(b"ab")));
    data.push_str(&format!("{} 257\n", b64(b"abc")));
    data
}

#[test]
fn base64_decodes_standard_alphabet() {
    assert_eq!(decode_base64("aGVsbG8=").unwrap(), b"hello".to_vec());
    assert_eq!(decode_base64("aGk").unwrap(), b"hi".to_vec());
    assert_eq!(decode_base64("").unwrap(), Vec::<u8>::new());
    assert_eq!(decode_base64("+/+/").unwrap(), vec![0xfb, 0xff, 0xbf]);
    assert_eq!(decode_base64("a?").unwrap_err(), "invalid base64 char: 63");
    assert_eq!(decode_base64("a=b").unwrap_err(), "invalid base64 char: 61");
}

#[test]
fn token_map_get_after_insert() {
    let mut m = TokenMap::new();
    assert_eq!(m.get(b"ab"), None);
    m.insert(b"ab".to_vec(), 7);
    m.insert(b"cd".to_vec(), 9);
    assert_eq!(m.get(b"ab"), Some(7));
    assert!(m.contains_key(b"cd"));
    m.insert(b"ab".to_vec(), 11);
    assert_eq!(m.get(b"ab"), Some(11));
    assert_eq!(m.get(b"cd"), Some(9));
    assert!(!m.contains_key(b"a"));
}

#[test]
fn rank_file_loads() {
    let t = TiktokenTokenizer::from_data(&full_vocab()).unwrap();
    assert_eq!(t.vocab_size(), 258);
    assert_eq!(t.encoder().get(b"ab"), Some(256));
    assert_eq!(t.encoder().get(&[0u8]), Some(0));
    let commented = "# ranks\n\n  YQ== 5  \r\nYg== 6\n";
    let u = TiktokenTokenizer::from_data(commented).unwrap();
    assert_eq!(u.vocab_size(), 7);
    assert_eq!(u.decode(&[5, 6]), "ab");
}

#[test]
fn rank_file_errors() {
    assert_eq!(TiktokenTokenizer::from_data("YQ==\n").err().unwrap(), "missing rank");
    assert_eq!(
        TiktokenTokenizer::from_data("YQ== x1\n").err().unwrap(),
        "invalid rank 'x1': invalid digit found in string"
    );
    assert_eq!(
        TiktokenTokenizer::from_data("YQ== 99999999999999999999999\n").err().unwrap(),
        "invalid rank '99999999999999999999999': number too large to fit in target type"
    );
    assert_eq!(TiktokenTokenizer::from_data("Y!== 1\n").err().unwrap(), "invalid base64 char: 33");
    assert_eq!(
        TiktokenTokenizer::from_data("YQ== 1\nYQ== 2\n").err().unwrap(),
        "duplicate token with different ranks: 1 vs 2"
    );
    assert!(TiktokenTokenizer::from_data("YQ== 1\nYQ== 1\n").is_ok());
}

#[test]
fn bpe_merges_lowest_rank_first() {
    let t = TiktokenTokenizer::from_data(&full_vocab()).unwrap();
    let mut out = Vec::new();
    t.encode_piece(b"abc", &mut out);
    assert_eq!(out, vec![257]);
    let mut out2 = Vec::new();
    t.encode_piece(b"abd", &mut out2);
    assert_eq!(out2, vec![256, b'd' as u32]);
    let mut none = Vec::new();
    t.encode_piece(b"", &mut none);
    assert!(none.is_empty());
}

#[test]
fn encode_splits_then_merges() {
    let t = TiktokenTokenizer::from_data(&full_vocab()).unwrap();
    assert_eq!(t.encode("ab ab"), vec![256, 32, 256]);
    assert_eq!(t.encode_spans(b"xabc", &[(0, 1), (1, 4)]), vec![b'x' as u32, 257]);
}

#[test]
fn decode_inverts_encode() {
    let t = TiktokenTokenizer::from_data(&full_vocab()).unwrap();
    for text in ["hello world", "abcabc ab", "naïve café ✓", "  spaces\tand\nlines", ""] {
        let ids = t.encode(text);
        assert_eq!(t.decode(&ids), text);
    }
}

#[test]
fn decode_skips_unknown_ids_and_replaces_bad_utf8() {
    let t = TiktokenTokenizer::from_data(&full_vocab()).unwrap();
    assert_eq!(t.decode_bytes(&[97, 9999, 98]), b"ab".to_vec());
    assert_eq!(t.decode(&[0xff]), "\u{fffd}");
}

#[test]
fn rank_count_must_fit_a_word() {
    let line = format!("YQ== {}\n", usize::MAX);
    assert!(TiktokenTokenizer::try_from_data(&line).is_none());
    assert!(TiktokenTokenizer::try_from_data("YQ== 3\n").unwrap().is_ok());
    assert_eq!(TiktokenTokenizer::try_from_data("YQ==\n").unwrap().err().unwrap(), "missing rank");
}
