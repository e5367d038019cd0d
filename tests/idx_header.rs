use tensorgraph::idx::{
    read_be_u32, read_header, read_magic_number, ElementFormat, ScalarKind, IDX_DATA_TYPE,
};

#[test]
fn from_u8_decodes_every_type_code() {
    assert_eq!(IDX_DATA_TYPE::from_u8(0x08), Some(IDX_DATA_TYPE::U8));
    assert_eq!(IDX_DATA_TYPE::from_u8(0x09), Some(IDX_DATA_TYPE::I8));
    assert_eq!(IDX_DATA_TYPE::from_u8(0x0B), Some(IDX_DATA_TYPE::I16));
    assert_eq!(IDX_DATA_TYPE::from_u8(0x0C), Some(IDX_DATA_TYPE::I32));
    assert_eq!(IDX_DATA_TYPE::from_u8(0x0D), Some(IDX_DATA_TYPE::F32));
    assert_eq!(IDX_DATA_TYPE::from_u8(0x0E), Some(IDX_DATA_TYPE::F64));
}

#[test]
fn from_u8_rejects_unknown_codes() {
    assert_eq!(IDX_DATA_TYPE::from_u8(0x00), None);
    assert_eq!(IDX_DATA_TYPE::from_u8(0x0A), None);
    assert_eq!(IDX_DATA_TYPE::from_u8(0x0F), None);
    assert_eq!(IDX_DATA_TYPE::from_u8(0xFF), None);
}

#[test]
fn to_type_gives_kind_and_width() {
    assert_eq!(
        IDX_DATA_TYPE::U8.to_type(),
        ElementFormat { kind: ScalarKind::Unsigned, width: 1 }
    );
    assert_eq!(
        IDX_DATA_TYPE::I16.to_type(),
        ElementFormat { kind: ScalarKind::Signed, width: 2 }
    );
    assert_eq!(
        IDX_DATA_TYPE::I32.to_type(),
        ElementFormat { kind: ScalarKind::Signed, width: 4 }
    );
    assert_eq!(
        IDX_DATA_TYPE::F64.to_type(),
        ElementFormat { kind: ScalarKind::Floating, width: 8 }
    );
}

#[test]
fn magic_number_needs_four_bytes() {
    assert_eq!(read_magic_number(&[]), None);
    assert_eq!(read_magic_number(&[0, 0, 0x08]), None);
}

#[test]
fn magic_number_reads_type_and_dimension_count() {
    assert_eq!(
        read_magic_number(&[0, 0, 0x08, 3]),
        Some((IDX_DATA_TYPE::U8, 3))
    );
    assert_eq!(
        read_magic_number(&[0, 0, 0x0D, 1, 9, 9]),
        Some((IDX_DATA_TYPE::F32, 1))
    );
    assert_eq!(read_magic_number(&[0, 0, 0x07, 1]), None);
}

#[test]
fn big_endian_word() {
    let bytes = [0xAA, 0x00, 0x00, 0xEA, 0x60, 0x01, 0x02, 0x03, 0x04];
    assert_eq!(read_be_u32(&bytes, 1), 60000);
    assert_eq!(read_be_u32(&bytes, 5), 0x01020304);
}

#[test]
fn header_of_image_file() {
    let mut bytes = vec![0, 0, 0x08, 3];
    bytes.extend_from_slice(&[0x00, 0x00, 0xEA, 0x60]);
    bytes.extend_from_slice(&[0, 0, 0, 28]);
    bytes.extend_from_slice(&[0, 0, 0, 28]);
    bytes.extend_from_slice(&[7, 8]);
    let h = read_header(&bytes).unwrap();
    assert_eq!(h.data_type, IDX_DATA_TYPE::U8);
    assert_eq!(h.dims, vec![60000, 28, 28]);
    assert_eq!(h.data_start, 16);
}

#[test]
fn header_cut_short_is_rejected() {
    let bytes = vec![0, 0, 0x08, 2, 0, 0, 0, 5, 0, 0];
    assert_eq!(read_header(&bytes), None);
    assert_eq!(read_header(&[0, 0, 0x01, 0]), None);
}

#[test]
fn header_without_dimensions() {
    let h = read_header(&[0, 0, 0x0E, 0, 1, 2]).unwrap();
    assert_eq!(h.data_type, IDX_DATA_TYPE::F64);
    assert!(h.dims.is_empty());
    assert_eq!(h.data_start, 4);
}
