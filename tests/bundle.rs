use unity_bundle::bundle::is_unity_tag;
use unity_bundle::codec::{compress, decompress, lzma_alone_to_raw};
use unity_bundle::{AssetBundle, AssetBundleDecoder, AssetBundleEncoder, BundleError};

fn be16(v: u16) -> Vec<u8> {
    v.to_be_bytes().to_vec()
}

fn be32(v: u32) -> Vec<u8> {
    v.to_be_bytes().to_vec()
}

fn be64(v: u64) -> Vec<u8> {
    v.to_be_bytes().to_vec()
}

fn cstr(s: &str) -> Vec<u8> {
    let mut v = s.as_bytes().to_vec();
    v.push(0);
    v
}

/// Uncompressed blocks-info segment: zero hash, block records, directory.
fn blocks_info(blocks: &[(u32, u32, u16)], dirs: &[(u64, u64, u32, &str)]) -> Vec<u8> {
    let mut out = vec![0u8; 16];
    out.extend(be32(blocks.len() as u32));
    for &(u, c, f) in blocks {
        out.extend(be32(u));
        out.extend(be32(c));
        out.extend(be16(f));
    }
    out.extend(be32(dirs.len() as u32));
    for &(o, z, f, p) in dirs {
        out.extend(be64(o));
        out.extend(be64(z));
        out.extend(be32(f));
        out.extend(cstr(p));
    }
    out
}

fn pad16(out: &mut Vec<u8>) {
    while out.len() % 16 != 0 {
        out.push(0);
    }
}

/// A bundle with an uncompressed blocks-info segment stored after the header.
fn synthetic(version: u32, flags: u32, info: &[u8], payload: &[u8]) -> Vec<u8> {
    let mut out = cstr("UnityFS");
    out.extend(be32(version));
    out.extend(cstr("5.x.x"));
    out.extend(cstr("2019.4.31f1"));
    out.extend(be64(0));
    out.extend(be32(info.len() as u32));
    out.extend(be32(info.len() as u32));
    out.extend(be32(flags));
    if version >= 7 {
        pad16(&mut out);
    }
    out.extend_from_slice(info);
    if flags & 0x200 != 0 {
        pad16(&mut out);
    }
    out.extend_from_slice(payload);
    out
}

fn hello_bundle(version: u32, flags: u32) -> Vec<u8> {
    let payload = b"Hello";
    let info = blocks_info(&[(5, 5, 0)], &[(0, 5, 4, "data")]);
    synthetic(version, flags, &info, payload)
}

fn decode(bytes: Vec<u8>) -> Result<AssetBundle, BundleError> {
    AssetBundleDecoder::new(bytes).decode()
}

fn encode(bundle: &AssetBundle) -> Result<Vec<u8>, BundleError> {
    AssetBundleEncoder::new().encode(bundle)
}

fn pattern(n: usize) -> Vec<u8> {
    (0..n).map(|i| ((i * 7 + i / 13) % 251) as u8).collect()
}

fn same_structure(a: &AssetBundle, b: &AssetBundle) {
    assert_eq!(a.signature, b.signature);
    assert_eq!(a.version, b.version);
    assert_eq!(a.unity_version, b.unity_version);
    assert_eq!(a.unity_revision, b.unity_revision);
    assert_eq!(a.flags, b.flags);
    assert_eq!(a.blocks_info.len(), b.blocks_info.len());
    for (x, y) in a.blocks_info.iter().zip(b.blocks_info.iter()) {
        assert_eq!(x.flags, y.flags);
        assert_eq!(x.uncompressed_size, y.uncompressed_size);
    }
    assert_eq!(a.directory_info.len(), b.directory_info.len());
    for (x, y) in a.directory_info.iter().zip(b.directory_info.iter()) {
        assert_eq!(x.offset, y.offset);
        assert_eq!(x.size, y.size);
        assert_eq!(x.flags, y.flags);
        assert_eq!(x.path, y.path);
    }
    assert_eq!(a.block, b.block);
}

#[test]
fn minimal_bundle_decodes_and_recompresses_to_lzma() {
    let mut bundle = decode(hello_bundle(6, 0)).unwrap();
    assert_eq!(bundle.signature, "UnityFS");
    assert_eq!(bundle.version, 6);
    assert_eq!(bundle.directory_info.len(), 1);
    assert_eq!(bundle.directory_info[0].path, "data");
    assert_eq!(bundle.directory_info[0].offset, 0);
    assert_eq!(bundle.directory_info[0].size, 5);
    assert_eq!(bundle.block, vec![0x48, 0x65, 0x6C, 0x6C, 0x6F]);

    bundle.set_blocks_lzma();
    assert_eq!(bundle.blocks_info[0].flags & 0x3F, 1);
    let bytes = encode(&bundle).unwrap();
    let again = decode(bytes).unwrap();
    assert_eq!(again.directory_info[0].path, "data");
    assert_eq!(again.directory_info[0].size, 5);
    assert_eq!(again.blocks_info[0].flags & 0x3F, 1);
    assert_eq!(again.block, vec![0x48, 0x65, 0x6C, 0x6C, 0x6F]);
}

#[test]
fn encoded_size_field_holds_total_length() {
    let bundle = decode(hello_bundle(6, 0)).unwrap();
    let bytes = encode(&bundle).unwrap();
    let again = decode(bytes.clone()).unwrap();
    assert_eq!(again.size, bytes.len() as u64);
}

#[test]
fn round_trip_keeps_structure() {
    let payload = pattern(300);
    let info = blocks_info(
        &[(300, 300, 0x40)],
        &[(0, 100, 4, "CAB-one"), (100, 200, 0, "CAB-one.resS")],
    );
    let bytes = synthetic(7, 0x200, &info, &payload);
    let first = decode(bytes).unwrap();
    let second = decode(encode(&first).unwrap()).unwrap();
    same_structure(&first, &second);
    assert_eq!(second.blocks_info[0].compressed_size, 300);
}

#[test]
fn round_trip_with_lz4_blocks_info_and_payload() {
    let payload = pattern(4095);
    let info = blocks_info(&[(4095, 4095, 0)], &[(0, 4095, 4, "data")]);
    let first = decode(synthetic(6, 0, &info, &payload)).unwrap();
    let mut changed = decode(synthetic(6, 0, &info, &payload)).unwrap();
    changed.flags = 3;
    changed.blocks_info[0].flags = 2;
    let second = decode(encode(&changed).unwrap()).unwrap();
    assert_eq!(second.flags, 3);
    assert_eq!(second.blocks_info[0].flags, 2);
    assert_eq!(second.block, first.block);
    assert_eq!(second.directory_info[0].path, "data");
}

#[test]
fn recompress_twice_is_recompress_once() {
    let mut once = decode(hello_bundle(6, 0)).unwrap();
    once.blocks_info[0].flags = 0x43;
    once.set_blocks_lzma();
    let mut twice = decode(hello_bundle(6, 0)).unwrap();
    twice.blocks_info[0].flags = 0x43;
    twice.set_blocks_lzma();
    twice.set_blocks_lzma();
    assert_eq!(once.blocks_info, twice.blocks_info);
    assert_eq!(once.blocks_info[0].flags, 0x41);
    assert_eq!(encode(&once).unwrap(), encode(&twice).unwrap());
}

fn codec_round_trip(codec: u32, n: usize) {
    let data = pattern(n);
    let packed = compress(codec, &data).unwrap();
    let back = decompress(codec, &packed, n as u32).unwrap();
    assert_eq!(back, data);
}

#[test]
fn codec_none_round_trips() {
    for n in [0usize, 1, 4095, 1048576] {
        codec_round_trip(0, n);
    }
}

#[test]
fn codec_lzma_round_trips() {
    for n in [0usize, 1, 4095, 1048576] {
        codec_round_trip(1, n);
    }
}

#[test]
fn codec_lz4_round_trips() {
    for n in [0usize, 1, 4095, 1048576] {
        codec_round_trip(2, n);
    }
}

#[test]
fn codec_lz4hc_round_trips() {
    for n in [0usize, 1, 4095, 1048576] {
        codec_round_trip(3, n);
    }
}

#[test]
fn codec_zstd_decodes() {
    for n in [0usize, 1, 4095, 1048576] {
        let data = pattern(n);
        let packed = zstd::encode_all(&data[..], 3).unwrap();
        assert_eq!(decompress(4, &packed, n as u32).unwrap(), data);
        assert_eq!(compress(4, &data).unwrap(), data);
    }
}

#[test]
fn unknown_codec_passes_through() {
    let data = pattern(10);
    assert_eq!(compress(9, &data).unwrap(), data);
    assert_eq!(decompress(9, &data, 3).unwrap(), data);
}

#[test]
fn lzma_output_is_raw_stream() {
    let data = pattern(4095);
    let packed = compress(1, &data).unwrap();
    assert_ne!(packed, data);
    assert_eq!(packed[0], 0x5D);
    assert_eq!(&packed[1..5], &524288u32.to_le_bytes());
}

#[test]
fn lz4_output_differs_from_input() {
    let data = vec![7u8; 1000];
    let packed = compress(2, &data).unwrap();
    assert!(packed.len() < data.len());
    assert_eq!(compress(3, &data).unwrap(), packed);
}

#[test]
fn lzma_size_field_is_dropped() {
    let framed: Vec<u8> = (0u8..20).collect();
    let raw = lzma_alone_to_raw(&framed);
    assert_eq!(raw, vec![0, 1, 2, 3, 4, 13, 14, 15, 16, 17, 18, 19]);
}

#[test]
fn wrong_signature_is_refused() {
    let mut bytes = hello_bundle(6, 0);
    bytes[0] = b'X';
    match decode(bytes) {
        Err(BundleError::UnsupportedBundle(s)) => assert_eq!(s, "XnityFS"),
        _ => panic!("expected UnsupportedBundle"),
    }
}

#[test]
fn longer_signature_is_refused() {
    let bytes = b"UnityFSX\0rest of it".to_vec();
    assert!(matches!(decode(bytes), Err(BundleError::UnsupportedBundle(_))));
    assert!(matches!(decode(b"UnityWeb\0".to_vec()), Err(BundleError::UnsupportedBundle(_))));
}

#[test]
fn signature_without_terminator_fails_without_panic() {
    assert!(matches!(decode(b"UnityFS".to_vec()), Err(BundleError::UnexpectedEof)));
    assert!(matches!(decode(Vec::new()), Err(BundleError::UnexpectedEof)));
}

#[test]
fn tag_check() {
    assert!(is_unity_tag(b"UnityFS"));
    assert!(!is_unity_tag(b"UnityF"));
    assert!(!is_unity_tag(b"UnityFs"));
}

#[test]
fn two_blocks_are_refused() {
    let info = blocks_info(&[(5, 5, 1), (5, 5, 1)], &[(0, 10, 4, "data")]);
    // The payload is not valid LZMA: the block count is refused before it is read.
    let bytes = synthetic(6, 0, &info, b"garbage!!!");
    assert!(matches!(decode(bytes), Err(BundleError::MoreThanOneBlock)));
}

#[test]
fn zero_blocks_are_refused() {
    let info = blocks_info(&[], &[]);
    assert!(matches!(decode(synthetic(6, 0, &info, b"")), Err(BundleError::MoreThanOneBlock)));
}

#[test]
fn encoding_two_blocks_is_refused() {
    let mut bundle = decode(hello_bundle(6, 0)).unwrap();
    let b = bundle.blocks_info[0];
    bundle.blocks_info.push(b);
    assert!(matches!(encode(&bundle), Err(BundleError::MoreThanOneBlock)));
}

#[test]
fn version_seven_aligns_blocks_info() {
    let bundle = decode(hello_bundle(7, 0)).unwrap();
    assert_eq!(bundle.block, b"Hello".to_vec());
    let bytes = encode(&bundle).unwrap();
    // Header: "UnityFS\0" + version + two strings + size + three u32 fields.
    let header_len = 8 + 4 + 6 + 12 + 8 + 12;
    let start = (header_len + 15) / 16 * 16;
    assert_eq!(start % 16, 0);
    assert!(bytes[header_len..start].iter().all(|&b| b == 0));
    assert_eq!(&bytes[start..start + 16], &[0u8; 16]);
    assert_eq!(&bytes[start + 16..start + 20], &be32(1)[..]);
}

#[test]
fn version_six_does_not_align() {
    let bundle = decode(hello_bundle(6, 0)).unwrap();
    let bytes = encode(&bundle).unwrap();
    let header_len = 8 + 4 + 6 + 12 + 8 + 12;
    assert_eq!(&bytes[header_len..header_len + 16], &[0u8; 16]);
}

fn at_end_bundle(blocks: &[(u32, u32, u16)], payload: &[u8]) -> Vec<u8> {
    let info = blocks_info(blocks, &[(0, 5, 4, "data")]);
    let mut bytes = cstr("UnityFS");
    bytes.extend(be32(6));
    bytes.extend(cstr("5.x.x"));
    bytes.extend(cstr("2019.4.31f1"));
    bytes.extend(be64(0));
    bytes.extend(be32(info.len() as u32));
    bytes.extend(be32(info.len() as u32));
    bytes.extend(be32(0x80));
    bytes.extend_from_slice(payload);
    bytes.extend_from_slice(&info);
    bytes
}

#[test]
fn blocks_info_at_end_is_found() {
    let bundle = decode(at_end_bundle(&[(0, 0, 0)], b"")).unwrap();
    assert_eq!(bundle.directory_info[0].path, "data");
    assert_eq!(bundle.blocks_info.len(), 1);
    assert!(bundle.block.is_empty());
}

#[test]
fn payload_is_read_after_blocks_info_at_end() {
    // The payload is read where the blocks-info segment ended: at the end.
    let bytes = at_end_bundle(&[(5, 5, 0)], b"Hello");
    assert!(matches!(decode(bytes), Err(BundleError::UnexpectedEof)));
}

#[test]
fn payload_alignment_flag_is_honoured() {
    let bundle = decode(hello_bundle(6, 0x200)).unwrap();
    assert_eq!(bundle.block, b"Hello".to_vec());
    let bytes = encode(&bundle).unwrap();
    assert_eq!(bytes.len() % 16, 5);
    assert_eq!(&bytes[bytes.len() - 5..], b"Hello");
}

#[test]
fn truncated_bundle_fails() {
    let bytes = hello_bundle(6, 0);
    for cut in [5usize, 10, 30, 45, 60, bytes.len() - 1] {
        assert!(matches!(decode(bytes[..cut].to_vec()), Err(BundleError::UnexpectedEof)));
    }
}

#[test]
fn corrupt_lz4_payload_fails() {
    let info = blocks_info(&[(100, 3, 2)], &[(0, 100, 4, "data")]);
    let bytes = synthetic(6, 0, &info, &[0xF0, 0xFF, 0xFF]);
    assert!(matches!(decode(bytes), Err(BundleError::Decompress(_))));
}

#[test]
fn corrupt_lzma_payload_fails() {
    let info = blocks_info(&[(100, 8, 1)], &[(0, 100, 4, "data")]);
    let bytes = synthetic(6, 0, &info, &[0xFF, 0xFF, 0xFF, 0xFF, 0xFF, 1, 2, 3]);
    assert!(matches!(decode(bytes), Err(BundleError::Io(_))));
}

#[test]
fn corrupt_zstd_payload_fails() {
    let info = blocks_info(&[(100, 4, 4)], &[(0, 100, 4, "data")]);
    let bytes = synthetic(6, 0, &info, &[1, 2, 3, 4]);
    assert!(matches!(decode(bytes), Err(BundleError::Io(_))));
}

#[test]
fn invalid_utf8_path_is_replaced() {
    let mut info = blocks_info(&[(5, 5, 0)], &[(0, 5, 4, "dXta")]);
    let at = info.len() - 4;
    info[at] = 0xFF;
    let bundle = decode(synthetic(6, 0, &info, b"Hello")).unwrap();
    assert_eq!(bundle.directory_info[0].path, "d\u{FFFD}ta");
}

#[test]
fn error_messages() {
    assert_eq!(BundleError::MoreThanOneBlock.message(), "More than one block in AssetBundle");
    assert_eq!(BundleError::DirNotFound.message(), "File not in Directory Info");
    assert_eq!(BundleError::UnexpectedEof.message(), "Unexpected end of data");
}
