//! File-format tests: box headers, the required box sequence, and the
//! error variants on malformed inputs.

use jp2k::jp2::decode_box_header;
use jp2k::jp2::decode_jp2;
use jp2k::jp2::BitDepth;
use jp2k::jp2::BoxTypes;
use jp2k::jp2::ChannelTypes;
use jp2k::jp2::ComponentMapType;
use jp2k::jp2::JP2Error;
use jp2k::jp2::BOX_TYPE_HEADER;
use jp2k::jp2::BOX_TYPE_SIGNATURE;

/// A minimal well-formed file: signature, file type, header with image
/// header and colour specification, and a codestream box to the end.
fn minimal_file() -> Vec<u8> {
    let mut f: Vec<u8> = Vec::new();
    // Signature box
    f.extend_from_slice(&[0x00, 0x00, 0x00, 0x0C, 0x6A, 0x50, 0x20, 0x20, 0x0D, 0x0A, 0x87, 0x0A]);
    // File type box: brand jp2, minor version 0, compatibility [jp2]
    f.extend_from_slice(&[0x00, 0x00, 0x00, 0x14, 0x66, 0x74, 0x79, 0x70]);
    f.extend_from_slice(&[0x6A, 0x70, 0x32, 0x20, 0x00, 0x00, 0x00, 0x00, 0x6A, 0x70, 0x32, 0x20]);
    // Header superbox: image header (22) + colour specification (15)
    f.extend_from_slice(&[0x00, 0x00, 0x00, 0x2D, 0x6A, 0x70, 0x32, 0x68]);
    // Image header: 1x1, one component, 8-bit unsigned, wavelet coding
    f.extend_from_slice(&[0x00, 0x00, 0x00, 0x16, 0x69, 0x68, 0x64, 0x72]);
    f.extend_from_slice(&[
        0x00, 0x00, 0x00, 0x01, 0x00, 0x00, 0x00, 0x01, 0x00, 0x01, 0x07, 0x07, 0x00, 0x00,
    ]);
    // Colour specification: enumerated, sRGB
    f.extend_from_slice(&[0x00, 0x00, 0x00, 0x0F, 0x63, 0x6F, 0x6C, 0x72]);
    f.extend_from_slice(&[0x01, 0x00, 0x00, 0x00, 0x00, 0x00, 0x10]);
    // Contiguous codestream box, running to the end of the file
    f.extend_from_slice(&[0x00, 0x00, 0x00, 0x00, 0x6A, 0x70, 0x32, 0x63]);
    f.extend_from_slice(&[0xFF, 0x4F, 0xFF, 0xD9]);
    f
}

#[test]
fn parses_a_minimal_file() {
    let data = minimal_file();
    let f = decode_jp2(&data).unwrap();
    assert!(f.signature_box().is_some());
    assert!(f.file_type_box().is_some());
    let header = f.header_box().as_ref().unwrap();
    assert_eq!(header.image_header_box.width(), 1);
    assert_eq!(header.image_header_box.height(), 1);
    assert_eq!(header.image_header_box.components_num(), 1);
    assert_eq!(header.image_header_box.components_bits(), 8);
    assert!(!header.image_header_box.values_are_signed());
    assert_eq!(header.image_header_box.compression_type(), 7);
    assert_eq!(header.colour_specification_boxes.len(), 1);
    assert_eq!(f.contiguous_codestreams_boxes().len(), 1);
    assert_eq!(f.contiguous_codestreams_boxes()[0].length, 4);
    assert_eq!(f.length(), data.len() as u64);
}

#[test]
fn rejects_a_bad_signature() {
    let mut data = minimal_file();
    data[8] = 0x0E;
    match decode_jp2(&data) {
        Err(JP2Error::InvalidSignature { .. }) => {}
        other => panic!("expected an invalid signature, got {:?}", other),
    }
}

#[test]
fn rejects_a_missing_signature_box() {
    // A file starting with a file type box has no signature box first.
    let data = minimal_file();
    match decode_jp2(&data[12..]) {
        Err(JP2Error::BoxUnexpected { .. }) => {}
        other => panic!("expected an unexpected box, got {:?}", other),
    }
}

#[test]
fn rejects_an_extended_brand() {
    let mut data = minimal_file();
    // Overwrite the brand with the extended-format one.
    data[20] = 0x6A;
    data[21] = 0x70;
    data[22] = 0x78;
    data[23] = 0x20;
    match decode_jp2(&data) {
        Err(JP2Error::Unsupported) => {}
        other => panic!("expected unsupported, got {:?}", other),
    }
}

#[test]
fn rejects_an_unknown_brand() {
    let mut data = minimal_file();
    data[20] = 0x61;
    match decode_jp2(&data) {
        Err(JP2Error::InvalidBrand { .. }) => {}
        other => panic!("expected an invalid brand, got {:?}", other),
    }
}

#[test]
fn rejects_an_incompatible_compatibility_list() {
    let mut data = minimal_file();
    // Damage the single compatibility entry.
    data[28] = 0x61;
    match decode_jp2(&data) {
        Err(JP2Error::NotCompatible { .. }) => {}
        other => panic!("expected not compatible, got {:?}", other),
    }
}

#[test]
fn rejects_a_codestream_before_the_header() {
    let mut data: Vec<u8> = Vec::new();
    data.extend_from_slice(&minimal_file()[0..32]);
    data.extend_from_slice(&[0x00, 0x00, 0x00, 0x00, 0x6A, 0x70, 0x32, 0x63]);
    match decode_jp2(&data) {
        Err(JP2Error::BoxUnexpected { .. }) => {}
        other => panic!("expected an unexpected box, got {:?}", other),
    }
}

#[test]
fn rejects_a_header_without_colour_specification() {
    let mut data: Vec<u8> = Vec::new();
    data.extend_from_slice(&minimal_file()[0..32]);
    // Header superbox with only the image header inside.
    data.extend_from_slice(&[0x00, 0x00, 0x00, 0x1E, 0x6A, 0x70, 0x32, 0x68]);
    data.extend_from_slice(&[0x00, 0x00, 0x00, 0x16, 0x69, 0x68, 0x64, 0x72]);
    data.extend_from_slice(&[
        0x00, 0x00, 0x00, 0x01, 0x00, 0x00, 0x00, 0x01, 0x00, 0x01, 0x07, 0x07, 0x00, 0x00,
    ]);
    match decode_jp2(&data) {
        Err(JP2Error::BoxMalformed { .. }) => {}
        other => panic!("expected a malformed box, got {:?}", other),
    }
}

#[test]
fn rejects_a_file_without_a_header_box() {
    // Signature and file type alone: the mandatory header is missing.
    let data = &minimal_file()[0..32];
    match decode_jp2(data) {
        Err(JP2Error::BoxMissing { .. }) => {}
        other => panic!("expected a missing box, got {:?}", other),
    }
}

#[test]
fn rejects_a_file_without_a_codestream_box() {
    // Everything up to the codestream box: the codestream is missing.
    let full = minimal_file();
    let data = &full[0..full.len() - 12];
    match decode_jp2(data) {
        Err(JP2Error::BoxMissing { .. }) => {}
        other => panic!("expected a missing box, got {:?}", other),
    }
}

#[test]
fn rejects_a_duplicate_header_box() {
    let full = minimal_file();
    let mut data: Vec<u8> = Vec::new();
    data.extend_from_slice(&full[0..77]);
    // A second copy of the header superbox.
    data.extend_from_slice(&full[32..77]);
    data.extend_from_slice(&full[77..]);
    match decode_jp2(&data) {
        Err(JP2Error::BoxDuplicate { .. }) => {}
        other => panic!("expected a duplicate box, got {:?}", other),
    }
}

#[test]
fn rejects_a_reserved_component_depth() {
    let mut data = minimal_file();
    // The BPC byte of the image header: a depth field beyond 38 bits.
    data[58] = 0x40;
    match decode_jp2(&data) {
        Err(JP2Error::BoxMalformed { .. }) => {}
        other => panic!("expected a malformed box, got {:?}", other),
    }
}

#[test]
fn reports_truncation_on_a_short_file() {
    let data = minimal_file();
    match decode_jp2(&data[0..10]) {
        Err(JP2Error::Truncated { .. }) => {}
        other => panic!("expected truncation, got {:?}", other),
    }
}

#[test]
fn box_header_reads_length_and_type() {
    let (h, body) = decode_box_header(&minimal_file(), 0).unwrap();
    assert_eq!(h.box_type, BOX_TYPE_SIGNATURE);
    assert_eq!(h.box_length, 4);
    assert_eq!(h.header_length, 8);
    assert_eq!(body, 8);
}

#[test]
fn box_header_rejects_reserved_lengths() {
    let data = vec![0x00, 0x00, 0x00, 0x05, 0x6A, 0x70, 0x32, 0x68];
    match decode_box_header(&data, 0) {
        Err(JP2Error::BoxMalformed { .. }) => {}
        other => panic!("expected a malformed box, got {:?}", other),
    }
}

#[test]
fn box_header_supports_extended_lengths() {
    let data = vec![
        0x00, 0x00, 0x00, 0x01, 0x6A, 0x70, 0x32, 0x68, 0x00, 0x00, 0x00, 0x00, 0x00, 0x00, 0x00,
        0x18,
    ];
    let (h, body) = decode_box_header(&data, 0).unwrap();
    assert_eq!(h.box_type, BOX_TYPE_HEADER);
    assert_eq!(h.box_length, 8);
    assert_eq!(h.header_length, 16);
    assert_eq!(body, 16);
}

#[test]
fn box_types_classify_codes() {
    assert_eq!(BoxTypes::new(BOX_TYPE_SIGNATURE), BoxTypes::Signature);
    assert_eq!(BoxTypes::new(BOX_TYPE_HEADER), BoxTypes::Header);
    assert_eq!(BoxTypes::new(0x1234_5678), BoxTypes::Unknown);
}

#[test]
fn channel_types_classify_codes() {
    assert_eq!(ChannelTypes::new(0), ChannelTypes::ColourImageData);
    assert_eq!(ChannelTypes::new(1), ChannelTypes::Opacity);
    assert_eq!(ChannelTypes::new(2), ChannelTypes::PremultipliedOpacity);
    assert_eq!(ChannelTypes::new(5), ChannelTypes::Reserved { value: 5 });
    assert_eq!(
        ChannelTypes::new(0xFFFF),
        ChannelTypes::Unspecified { value: 0xFFFF }
    );
}

#[test]
fn component_map_types_classify_codes() {
    assert_eq!(ComponentMapType::new(1), ComponentMapType::Direct);
    assert_eq!(ComponentMapType::new(2), ComponentMapType::Palette);
    assert_eq!(
        ComponentMapType::new(9),
        ComponentMapType::Reserved { value: 9 }
    );
}

#[test]
fn bit_depths_decode_sign_and_width() {
    assert_eq!(BitDepth::new(7), BitDepth::Unsigned { value: 8 });
    assert_eq!(BitDepth::new(0x87), BitDepth::Signed { value: 8 });
    assert_eq!(BitDepth::new(7).value(), 8);
    assert_eq!(BitDepth::new(7).num_bytes(), 1);
    assert_eq!(BitDepth::new(15).num_bytes(), 2);
}

#[test]
fn bit_depth_encoding_round_trips() {
    assert_eq!(BitDepth::new(7).encoded(), 7);
    assert_eq!(BitDepth::new(0x85).encoded(), 0x85);
    assert_eq!(BitDepth::new(0x00).encoded(), 0x00);
    assert_eq!(BitDepth::new(0xFF).encoded(), 0xFF);
}

#[test]
fn keeps_codestream_boxes_in_file_order() {
    let mut data = minimal_file();
    // The first codestream box now declares its length instead of running
    // to the end, and a second one follows it.
    data[80] = 0x0C;
    data.extend_from_slice(&[0x00, 0x00, 0x00, 0x00, 0x6A, 0x70, 0x32, 0x63]);
    data.extend_from_slice(&[0xFF, 0x4F, 0xFF, 0xD9]);
    let f = decode_jp2(&data).unwrap();
    let cs = f.contiguous_codestreams_boxes();
    assert_eq!(cs.len(), 2);
    assert!(cs[0].offset < cs[1].offset);
    let header = f.header_box().as_ref().unwrap();
    assert!(header.offset < cs[0].offset);
}

#[test]
fn palette_reads_mixed_width_entries() {
    // Two entries, two columns: an 8-bit column stored in one byte and a
    // 12-bit column stored in two.
    let data: Vec<u8> = vec![
        0x00, 0x02, 0x02, 0x07, 0x0B, 0xAA, 0x01, 0x23, 0x55, 0x0F, 0xFF,
    ];
    let (pb, end) = jp2k::jp2::PaletteBox::decode(&data, 0, 11, 0).unwrap();
    assert_eq!(pb.num_entries(), 2);
    assert_eq!(pb.num_components(), 2);
    assert_eq!(pb.entry_rows[0], vec![0xAA, 0x0123]);
    assert_eq!(pb.entry_rows[1], vec![0x55, 0x0FFF]);
    assert_eq!(end, 11);
}

#[test]
fn palette_rejects_entries_wider_than_sixteen_bits() {
    // One entry with a 32-bit column is outside the reader's bounds.
    let data: Vec<u8> = vec![0x00, 0x01, 0x01, 0x1F, 0xFF, 0xFF, 0xFF, 0xFF];
    assert!(jp2k::jp2::PaletteBox::decode(&data, 0, 8, 0).is_err());
}

#[test]
fn palette_with_no_entries_keeps_only_depths() {
    // Zero entries: the depth bytes are read and no rows follow.
    let data: Vec<u8> = vec![0x00, 0x00, 0x01, 0x1F];
    let (pb, end) = jp2k::jp2::PaletteBox::decode(&data, 0, 4, 0).unwrap();
    assert_eq!(pb.num_entries(), 0);
    assert_eq!(pb.num_components(), 1);
    assert_eq!(end, 4);
}
