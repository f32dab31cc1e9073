use aes::cipher::generic_array::GenericArray;
use aes::cipher::{BlockEncrypt, NewBlockCipher};
use aes::Aes128;
use ncmdump::{
    aes_decrypt, decode_metadata_block, detect_format, join_artists, key_box_from_blob, read_u32,
    split, transform, FormatError, KeyBox, Metadata, MusicFormat,
};

const CORE_KEY: [u8; 16] = [
    0x68, 0x7A, 0x48, 0x52, 0x41, 0x6D, 0x73, 0x6F, 0x35, 0x6B, 0x49, 0x6E, 0x62, 0x61, 0x78, 0x57,
];
const META_KEY: [u8; 16] = [
    0x23, 0x31, 0x34, 0x6C, 0x6A, 0x6B, 0x5F, 0x21, 0x5C, 0x5D, 0x26, 0x30, 0x55, 0x3C, 0x27, 0x28,
];

fn pad_and_encrypt(key: &[u8; 16], plain: &[u8]) -> Vec<u8> {
    let pad = 16 - plain.len() % 16;
    let mut buf = plain.to_vec();
    buf.extend(std::iter::repeat(pad as u8).take(pad));
    let cipher = Aes128::new(&GenericArray::from(*key));
    for chunk in buf.chunks_mut(16) {
        let mut block: [u8; 16] = [0; 16];
        block.copy_from_slice(chunk);
        let mut ga = GenericArray::from(block);
        cipher.encrypt_block(&mut ga);
        chunk.copy_from_slice(&ga);
    }
    buf
}

fn key_blob(key: &[u8]) -> Vec<u8> {
    let mut plain = b"neteasecloudmusic".to_vec();
    plain.extend_from_slice(key);
    pad_and_encrypt(&CORE_KEY, &plain).iter().map(|b| b ^ 0x64).collect()
}

fn meta_block(json: &str) -> Vec<u8> {
    let mut plain = b"music:".to_vec();
    plain.extend_from_slice(json.as_bytes());
    let enc = base64::encode(pad_and_encrypt(&META_KEY, &plain));
    let mut block = b"163 key(Don't modify):".to_vec();
    block.extend(enc.bytes().map(|b| b ^ 0x63));
    block
}

fn container(key: &[u8], meta: &[u8], image: &[u8], audio: &[u8]) -> Vec<u8> {
    let mut c = b"CTENFDAM".to_vec();
    c.extend_from_slice(&[0x01, 0x70]);
    let blob = key_blob(key);
    c.extend_from_slice(&(blob.len() as u32).to_le_bytes());
    c.extend_from_slice(&blob);
    c.extend_from_slice(&(meta.len() as u32).to_le_bytes());
    c.extend_from_slice(meta);
    c.extend_from_slice(&[0u8; 9]);
    c.extend_from_slice(&(image.len() as u32).to_le_bytes());
    c.extend_from_slice(image);
    c.extend_from_slice(audio);
    c
}

fn reference_key_box(key: &[u8]) -> Vec<u8> {
    let mut t: Vec<u8> = (0..=255u8).collect();
    let mut last = 0usize;
    for i in 0..256 {
        let pos = (t[i] as usize + last + key[i % key.len()] as usize) % 256;
        t.swap(i, pos);
        last = pos;
    }
    t
}

fn reference_keystream(t: &[u8], i: usize) -> u8 {
    let j = (i + 1) % 256;
    t[(t[j] as usize + t[(t[j] as usize + j) % 256] as usize) % 256]
}

#[test]
fn split_takes_prefix() {
    let data = [1u8, 2, 3, 4, 5];
    let (a, b) = split(&data, 2).unwrap();
    assert_eq!(a, &[1, 2]);
    assert_eq!(b, &[3, 4, 5]);
    assert!(matches!(split(&data, 6), Err(FormatError::UnexpectedEof)));
    let (a, b) = split(&data, 5).unwrap();
    assert_eq!(a.len(), 5);
    assert!(b.is_empty());
}

#[test]
fn read_u32_is_little_endian() {
    let data = [0x43u8, 0x54, 0x45, 0x4E, 0xAA];
    let (v, rest) = read_u32(&data).unwrap();
    assert_eq!(v, 0x4e455443);
    assert_eq!(rest, &[0xAA]);
    assert!(matches!(read_u32(&data[..3]), Err(FormatError::UnexpectedEof)));
    assert_eq!(read_u32(&[0xFF; 4]).unwrap().0, u32::MAX);
}

#[test]
fn key_box_matches_reference_shuffle() {
    for key in [&b"a"[..], b"abc", b"some longer key material \x00\xff", &[0u8; 300]] {
        let kb = KeyBox::new(key).unwrap();
        let expected = reference_key_box(key);
        for i in 0..4096usize {
            assert_eq!(kb.keystream_byte(i), reference_keystream(&expected, i));
        }
    }
}

#[test]
fn key_box_rejects_empty_key() {
    assert!(matches!(KeyBox::new(&[]), Err(FormatError::BadLength)));
}

#[test]
fn key_box_is_a_permutation() {
    for key in [&b"x"[..], b"\x00\x00\x00", b"0123456789abcdef0123"] {
        let mut t = reference_key_box(key);
        t.sort();
        assert_eq!(t, (0..=255u8).collect::<Vec<u8>>());
    }
}

#[test]
fn key_box_is_deterministic() {
    let a = KeyBox::new(b"deterministic").unwrap();
    let b = KeyBox::new(b"deterministic").unwrap();
    for i in 0..512usize {
        assert_eq!(a.keystream_byte(i), b.keystream_byte(i));
    }
}

#[test]
fn keystream_is_self_inverse() {
    let kb = KeyBox::new(b"round trip").unwrap();
    for len in [0usize, 1, 255, 256, 257, 1000] {
        let original: Vec<u8> = (0..len).map(|i| (i * 7 % 251) as u8).collect();
        let mut data = original.clone();
        kb.apply(&mut data, 0);
        if len > 0 {
            assert_ne!(data, original);
        }
        kb.apply(&mut data, 0);
        assert_eq!(data, original);
    }
}

#[test]
fn keystream_in_pieces_matches_whole() {
    let kb = KeyBox::new(b"pieces").unwrap();
    let original: Vec<u8> = (0..1000).map(|i| (i % 256) as u8).collect();
    let mut whole = original.clone();
    kb.apply(&mut whole, 0);
    let mut first = original[..300].to_vec();
    let mut second = original[300..].to_vec();
    kb.apply(&mut first, 0);
    kb.apply(&mut second, 300);
    first.extend(second);
    assert_eq!(first, whole);
}

#[test]
fn aes_decrypt_known_vector() {
    let key: [u8; 16] = core::array::from_fn(|i| i as u8);
    let ct = [
        0x69, 0xc4, 0xe0, 0xd8, 0x6a, 0x7b, 0x04, 0x30, 0xd8, 0xcd, 0xb7, 0x80, 0x70, 0xb4, 0xc5,
        0x5a,
    ];
    let plain = aes_decrypt(&key, &ct).unwrap();
    let expected: Vec<u8> = (0..16).map(|i| (i * 0x11) as u8).collect();
    assert_eq!(plain, expected);
}

#[test]
fn aes_decrypt_strips_padding() {
    let ct = pad_and_encrypt(&META_KEY, b"hello");
    assert_eq!(ct.len(), 16);
    assert_eq!(aes_decrypt(&META_KEY, &ct).unwrap(), b"hello".to_vec());
    let ct = pad_and_encrypt(&META_KEY, &[7u8; 16]);
    assert_eq!(ct.len(), 32);
    assert_eq!(aes_decrypt(&META_KEY, &ct).unwrap(), vec![7u8; 16]);
}

#[test]
fn aes_decrypt_rejects_bad_lengths() {
    for n in [0usize, 1, 15, 17, 31, 33] {
        assert!(matches!(aes_decrypt(&META_KEY, &vec![0u8; n]), Err(FormatError::BadAes)));
    }
    for n in [16usize, 32, 48] {
        assert!(aes_decrypt(&META_KEY, &vec![0u8; n]).is_ok());
    }
}

#[test]
fn metadata_block_decodes_to_json() {
    let json = r#"{"musicName":"Song","artist":[["A",1],["B",2]],"album":"Record"}"#;
    let out = decode_metadata_block(&meta_block(json)).unwrap();
    assert_eq!(out, json.as_bytes().to_vec());
}

#[test]
fn metadata_block_errors() {
    assert!(matches!(decode_metadata_block(b"too short"), Err(FormatError::BadLength)));
    let mut block = b"163 key(Don't modify):".to_vec();
    block.extend(b"!!!!".iter().map(|b| b ^ 0x63));
    assert!(matches!(decode_metadata_block(&block), Err(FormatError::BadBase64)));
    let mut block = b"163 key(Don't modify):".to_vec();
    block.extend(b"AAAA".iter().map(|b| b ^ 0x63));
    assert!(matches!(decode_metadata_block(&block), Err(FormatError::BadAes)));
    let mut block = b"163 key(Don't modify):".to_vec();
    let enc = base64::encode(pad_and_encrypt(&META_KEY, b"mus"));
    block.extend(enc.bytes().map(|b| b ^ 0x63));
    assert!(matches!(decode_metadata_block(&block), Err(FormatError::BadLength)));
}

#[test]
fn artists_are_joined() {
    assert_eq!(join_artists(&vec![]), "");
    assert_eq!(join_artists(&vec!["Solo".to_string()]), "Solo");
    let names = vec!["A".to_string(), "B".to_string(), "C".to_string()];
    assert_eq!(join_artists(&names), "A, B, C");
}

#[test]
fn format_detection() {
    assert_eq!(detect_format(b"ID3\x04").unwrap(), MusicFormat::MP3);
    assert_eq!(detect_format(b"ID3").unwrap(), MusicFormat::MP3);
    assert_eq!(detect_format(b"fLaC").unwrap(), MusicFormat::FLAC);
    assert_eq!(detect_format(b"ID4").unwrap(), MusicFormat::FLAC);
    assert!(matches!(detect_format(b"ID"), Err(FormatError::UnexpectedEof)));
}

#[test]
fn default_values() {
    let m = Metadata::default();
    assert!(m.name.is_empty() && m.artist.is_empty() && m.album.is_empty());
    assert!(m.image.is_empty() && m.data.is_empty());
    assert_eq!(m.format, MusicFormat::MP3);
    assert_eq!(MusicFormat::default(), MusicFormat::MP3);
    assert_eq!(FormatError::BadMagic.name(), "BadMagic");
}

#[test]
fn bad_magic_is_rejected() {
    let mut c = container(b"k", &[], &[], &[0u8; 16]);
    c[3] = b'X';
    assert!(matches!(transform(&c), Err(FormatError::BadMagic)));
    assert!(matches!(transform(b"CTENFDAX"), Err(FormatError::BadMagic)));
    assert!(matches!(transform(b"CTENFDA"), Err(FormatError::UnexpectedEof)));
}

#[test]
fn end_to_end_zero_audio() {
    let c = container(b"abc", &[], &[], &[0u8; 16]);
    let d = transform(&c).unwrap();
    assert!(d.meta_json.is_none());
    assert!(d.image.is_empty());
    let t = reference_key_box(b"abc");
    let expected: Vec<u8> = (0..16).map(|i| reference_keystream(&t, i)).collect();
    assert_eq!(d.audio, expected);
    let m = d.into_metadata(String::new(), String::new(), String::new());
    assert!(m.name.is_empty() && m.artist.is_empty() && m.album.is_empty());
    assert!(m.image.is_empty());
    assert_eq!(m.data, expected);
}

#[test]
fn round_trip_through_container() {
    let kb = KeyBox::new(b"round").unwrap();
    let mut plain = b"ID3".to_vec();
    plain.extend((0..997).map(|i| (i % 253) as u8));
    let mut enc = plain.clone();
    kb.apply(&mut enc, 0);
    let json = r#"{"musicName":"N","artist":[],"album":"L"}"#;
    let c = container(b"round", &meta_block(json), &[9, 8, 7], &enc);
    let d = transform(&c).unwrap();
    assert_eq!(d.audio, plain);
    assert_eq!(d.format, MusicFormat::MP3);
    assert_eq!(d.image, vec![9, 8, 7]);
    assert_eq!(d.meta_json.unwrap(), json.as_bytes().to_vec());
}

#[test]
fn truncated_containers_fail() {
    // Layout: magic 0..8, revision 8..10, key length 10..14, key blob 14..46,
    // metadata length 46..50, checksum 50..59, image length 59..63,
    // image 63..65, audio 65..81.
    let c = container(b"abc", &[], &[1, 2], &[0u8; 16]);
    assert_eq!(c.len(), 81);
    let cases = [
        (5usize, FormatError::UnexpectedEof),
        (9, FormatError::BadLength),
        (13, FormatError::UnexpectedEof),
        (20, FormatError::BadLength),
        (48, FormatError::UnexpectedEof),
        (55, FormatError::BadLength),
        (61, FormatError::UnexpectedEof),
        (63, FormatError::BadLength),
        (64, FormatError::BadLength),
        (67, FormatError::UnexpectedEof),
    ];
    for (cut, expected) in cases {
        match transform(&c[..cut]) {
            Err(e) => assert_eq!(e, expected, "cut at {}", cut),
            Ok(_) => panic!("cut at {} decoded", cut),
        }
    }
}

#[test]
fn metadata_block_overrun_is_bad_length() {
    let json = r#"{"musicName":"N","artist":[],"album":"L"}"#;
    let c = container(b"abc", &meta_block(json), &[], &[0u8; 16]);
    // The metadata block starts at 50; cut inside it.
    match transform(&c[..60]) {
        Err(e) => assert_eq!(e, FormatError::BadLength),
        Ok(_) => panic!("truncated metadata decoded"),
    }
}

#[test]
fn error_names() {
    assert_eq!(FormatError::UnexpectedEof.name(), "UnexpectedEof");
    assert_eq!(FormatError::BadMagic.name(), "BadMagic");
    assert_eq!(FormatError::BadAes.name(), "BadAes");
    assert_eq!(FormatError::BadBase64.name(), "BadBase64");
    assert_eq!(FormatError::BadLength.name(), "BadLength");
    assert_eq!(FormatError::BadMetadata.name(), "BadMetadata");
}

#[test]
fn key_blob_errors() {
    assert!(matches!(key_box_from_blob(&[0u8; 15]), Err(FormatError::BadAes)));
    let blob = key_blob(b"");
    assert!(matches!(key_box_from_blob(&blob), Err(FormatError::BadLength)));
    assert!(key_box_from_blob(&key_blob(b"k")).is_ok());
}
