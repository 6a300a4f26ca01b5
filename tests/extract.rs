use mrow_build::extract::{
    decode_section, extract, load_order, write_flat, Compression, ExtractError, Section,
};

fn stored(name: &str, address: u64, data: &[u8]) -> Section {
    Section {
        name: Some(name.to_string()),
        address,
        size: data.len() as u64,
        loadable: true,
        compression: Compression::Stored,
        data: Some(data.to_vec()),
    }
}

#[test]
fn sections_are_padded_to_their_addresses() {
    let sections = vec![stored(".data", 0x10, &[4, 5]), stored(".text", 0x0, &[1, 2, 3])];
    let mut sink = vec![9u8];
    let n = extract(&sections, 0xee, &mut sink).unwrap();
    assert_eq!(n, 0x12);
    let mut expected = vec![9u8, 1, 2, 3];
    expected.extend(std::iter::repeat(0xee).take(0x10 - 3));
    expected.extend([4, 5]);
    assert_eq!(sink, expected);
}

#[test]
fn output_length_is_contents_plus_gaps() {
    let sections = vec![
        stored("a", 100, &[1; 10]),
        stored("b", 120, &[2; 5]),
        stored("c", 125, &[3; 7]),
    ];
    let mut sink = Vec::new();
    let n = extract(&sections, 0, &mut sink).unwrap();
    assert_eq!(n as usize, sink.len());
    assert_eq!(sink.len(), (10 + 5 + 7) + (10 + 0));
}

#[test]
fn pad_byte_changes_only_padding() {
    let sections = vec![stored("a", 0, &[7, 7]), stored("b", 6, &[8])];
    let mut one = Vec::new();
    let mut two = Vec::new();
    extract(&sections, 0x00, &mut one).unwrap();
    extract(&sections, 0xff, &mut two).unwrap();
    assert_eq!(one, vec![7, 7, 0, 0, 0, 0, 8]);
    assert_eq!(two, vec![7, 7, 0xff, 0xff, 0xff, 0xff, 8]);
}

#[test]
fn only_loadable_sections_in_address_order() {
    let mut hidden = stored(".comment", 0, &[0x55; 4]);
    hidden.loadable = false;
    let sections = vec![
        stored("late", 8, &[2]),
        hidden,
        stored("first", 4, &[1]),
        stored("tie", 8, &[]),
    ];
    assert_eq!(load_order(&sections), vec![2, 0, 3]);
}

#[test]
fn overlapping_sections_are_refused() {
    let sections = vec![stored("a", 0, &[1, 2, 3, 4]), stored("b", 2, &[5])];
    let mut sink = vec![1u8];
    assert_eq!(extract(&sections, 0, &mut sink), Err(ExtractError::OverlappingSections));
    assert_eq!(sink, vec![1u8]);
}

#[test]
fn end_past_64_bits_is_an_overflow() {
    let sections = vec![stored("a", u64::MAX - 1, &[1, 2, 3]), stored("b", u64::MAX, &[5])];
    let mut sink = Vec::new();
    assert_eq!(extract(&sections, 0, &mut sink), Err(ExtractError::LayoutOverflow));
}

#[test]
fn missing_name_or_content_is_corrupt() {
    let mut s = stored("a", 0, &[1]);
    s.name = None;
    assert_eq!(decode_section(&s), Err(ExtractError::CorruptObjectFile));
    let mut s = stored("a", 0, &[1]);
    s.data = None;
    assert_eq!(decode_section(&s), Err(ExtractError::CorruptObjectFile));
    let mut s = stored("a", 0, &[1]);
    s.size = 2;
    assert_eq!(decode_section(&s), Err(ExtractError::CorruptObjectFile));
}

#[test]
fn zlib_section_round_trips() {
    let payload: Vec<u8> = (0..300u32).map(|i| (i * 7 % 256) as u8).collect();
    let packed = miniz_oxide::deflate::compress_to_vec_zlib(&payload, 6);
    assert_ne!(packed, payload);
    let s = Section {
        name: Some(".text".to_string()),
        address: 0,
        size: payload.len() as u64,
        loadable: true,
        compression: Compression::Zlib,
        data: Some(packed),
    };
    assert_eq!(decode_section(&s), Ok(payload));
}

#[test]
fn zstd_section_round_trips() {
    let payload: Vec<u8> = (0..300u32).map(|i| (i * 13 % 256) as u8).collect();
    let packed =
        ruzstd::encoding::compress_to_vec(&payload[..], ruzstd::encoding::CompressionLevel::Fastest);
    assert_ne!(packed, payload);
    let s = Section {
        name: Some(".text".to_string()),
        address: 0,
        size: payload.len() as u64,
        loadable: true,
        compression: Compression::Zstd,
        data: Some(packed),
    };
    assert_eq!(decode_section(&s), Ok(payload));
}

#[test]
fn wrong_declared_size_fails_decompression() {
    let payload = vec![3u8; 64];
    let packed = miniz_oxide::deflate::compress_to_vec_zlib(&payload, 6);
    let s = Section {
        name: Some("z".to_string()),
        address: 0,
        size: 63,
        loadable: true,
        compression: Compression::Zlib,
        data: Some(packed),
    };
    assert_eq!(
        decode_section(&s),
        Err(ExtractError::DecompressionFailed { section_name: "z".to_string() })
    );
    let garbage = Section {
        name: Some("g".to_string()),
        address: 0,
        size: 4,
        loadable: true,
        compression: Compression::Zstd,
        data: Some(vec![1, 2, 3, 4, 5]),
    };
    assert!(matches!(decode_section(&garbage), Err(ExtractError::DecompressionFailed { .. })));
}

#[test]
fn unknown_codec_fails_and_writes_nothing() {
    let sections = vec![
        stored("a", 0, &[1]),
        Section {
            name: Some("odd".to_string()),
            address: 4,
            size: 1,
            loadable: true,
            compression: Compression::Unknown(9),
            data: Some(vec![0]),
        },
    ];
    let mut sink = vec![5u8];
    assert_eq!(
        extract(&sections, 0, &mut sink),
        Err(ExtractError::UnsupportedCompression { format: 9, section_name: "odd".to_string() })
    );
    assert_eq!(sink, vec![5u8]);
}

#[test]
fn write_flat_uses_given_contents() {
    let sections = vec![stored("a", 0, &[0; 2]), stored("b", 5, &[0])];
    let mut sink = Vec::new();
    let n = write_flat(&sections, &vec![0, 1], &vec![vec![1, 2], vec![3]], 0xaa, &mut sink);
    assert_eq!(n, Ok(6));
    assert_eq!(sink, vec![1, 2, 0xaa, 0xaa, 0xaa, 3]);
}

#[test]
fn huge_declared_size_is_refused_without_allocating() {
    for compression in [Compression::Zstd, Compression::Zlib] {
        let s = Section {
            name: Some("big".to_string()),
            address: 0,
            size: 1u64 << 63,
            loadable: true,
            compression,
            data: Some(vec![0x28, 0xb5, 0x2f, 0xfd]),
        };
        assert_eq!(
            decode_section(&s),
            Err(ExtractError::DecompressionFailed { section_name: "big".to_string() })
        );
    }
}

#[test]
fn compressed_and_stored_sections_are_laid_out_together() {
    let payload = vec![0x42u8; 40];
    let packed =
        ruzstd::encoding::compress_to_vec(&payload[..], ruzstd::encoding::CompressionLevel::Fastest);
    let sections = vec![
        Section {
            name: Some(".text".to_string()),
            address: 0x100,
            size: payload.len() as u64,
            loadable: true,
            compression: Compression::Zstd,
            data: Some(packed),
        },
        stored(".data", 0x130, &[1, 2]),
    ];
    let mut sink = Vec::new();
    let n = extract(&sections, 0, &mut sink).unwrap();
    assert_eq!(n, 0x32);
    assert_eq!(&sink[..40], &payload[..]);
    assert_eq!(&sink[40..48], &[0u8; 8]);
    assert_eq!(&sink[48..], &[1, 2]);
}

#[test]
fn overlap_is_found_before_a_later_section_is_decoded() {
    let sections = vec![
        stored("a", 0, &[1; 10]),
        stored("b", 5, &[2; 10]),
        Section {
            name: Some("odd".to_string()),
            address: 100,
            size: 1,
            loadable: true,
            compression: Compression::Unknown(9),
            data: Some(vec![0]),
        },
    ];
    let mut sink = Vec::new();
    assert_eq!(extract(&sections, 0, &mut sink), Err(ExtractError::OverlappingSections));
    assert!(sink.is_empty());
}

#[test]
fn decode_error_of_an_earlier_section_comes_first() {
    let sections = vec![
        Section {
            name: Some("odd".to_string()),
            address: 0,
            size: 1,
            loadable: true,
            compression: Compression::Unknown(3),
            data: Some(vec![0]),
        },
        stored("b", 0, &[2; 10]),
    ];
    let mut sink = Vec::new();
    assert_eq!(
        extract(&sections, 0, &mut sink),
        Err(ExtractError::UnsupportedCompression { format: 3, section_name: "odd".to_string() })
    );
}

#[test]
fn large_zstd_section_decodes_as_room_grows() {
    let payload: Vec<u8> = (0..300_000u32).map(|i| (i % 251) as u8).collect();
    let packed =
        ruzstd::encoding::compress_to_vec(&payload[..], ruzstd::encoding::CompressionLevel::Fastest);
    let s = Section {
        name: Some(".text".to_string()),
        address: 0,
        size: payload.len() as u64,
        loadable: true,
        compression: Compression::Zstd,
        data: Some(packed.clone()),
    };
    assert_eq!(decode_section(&s), Ok(payload.clone()));
    let short = Section { size: payload.len() as u64 - 1, ..s };
    assert!(matches!(decode_section(&short), Err(ExtractError::DecompressionFailed { .. })));
}

#[test]
fn garbage_with_a_large_declared_size_fails_quickly() {
    for compression in [Compression::Zstd, Compression::Zlib] {
        let s = Section {
            name: Some("g".to_string()),
            address: 0,
            size: 1u64 << 40,
            loadable: true,
            compression,
            data: Some(vec![1, 2, 3, 4, 5, 6, 7, 8]),
        };
        assert!(matches!(decode_section(&s), Err(ExtractError::DecompressionFailed { .. })));
    }
}
