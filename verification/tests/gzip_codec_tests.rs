use just_bash::gzip_codec::{
    compress_gzip, compress_gzip_default, decompress_gzip, is_gzip, DEFAULT_GZIP_LEVEL,
};

#[test]
fn compressed_output_is_recognised_as_gzip() {
    let data = b"hello hello hello hello".to_vec();
    let z = compress_gzip_default(&data).unwrap();
    assert!(is_gzip(&z));
    assert_ne!(z, data);
    assert_eq!(decompress_gzip(&z).unwrap(), data);
}

#[test]
fn every_level_round_trips() {
    let data: Vec<u8> = (0..200u32).map(|i| (i % 7) as u8).collect();
    for level in 0..=9 {
        let z = compress_gzip(&data, level).unwrap();
        assert!(is_gzip(&z));
        assert_eq!(decompress_gzip(&z).unwrap(), data);
    }
    assert_eq!(DEFAULT_GZIP_LEVEL, 6);
}

#[test]
fn empty_input_round_trips() {
    let z = compress_gzip(&[], 1).unwrap();
    assert!(z.len() >= 18);
    assert!(decompress_gzip(&z).unwrap().is_empty());
}

#[test]
fn is_gzip_checks_magic_only() {
    assert!(is_gzip(&[0x1f, 0x8b]));
    assert!(!is_gzip(&[0x1f]));
    assert!(!is_gzip(&[0x8b, 0x1f, 0]));
    assert!(!is_gzip(&[]));
}

#[test]
fn decompress_rejects_garbage() {
    assert!(decompress_gzip(b"not gzip at all").is_err());
}
