use lib::boxes::fourcc::FourCC;
use lib::boxes::ftyp::FileTypeBox;
use lib::boxes::grid::ImageGrid;
use lib::boxes::header::{BoxHeader, FullBoxHeader};
use lib::boxes::iter::BoxIter;
use lib::boxes::properties::{HevcConfigProperty, RotationProperty};
use lib::error::HeicError;
use lib::limits::Limits;
use lib::{inspect_container, is_heif_or_heic, parse_heif};

fn make_box(fourcc: &[u8; 4], payload: &[u8]) -> Vec<u8> {
    let size = (8 + payload.len()) as u32;
    let mut b = Vec::with_capacity(size as usize);
    b.extend_from_slice(&size.to_be_bytes());
    b.extend_from_slice(fourcc);
    b.extend_from_slice(payload);
    b
}

fn make_full_box(fourcc: &[u8; 4], version: u8, flags: u32, payload: &[u8]) -> Vec<u8> {
    let size = (12 + payload.len()) as u32;
    let mut b = Vec::with_capacity(size as usize);
    b.extend_from_slice(&size.to_be_bytes());
    b.extend_from_slice(fourcc);
    b.push(version);
    b.push(((flags >> 16) & 0xFF) as u8);
    b.push(((flags >> 8) & 0xFF) as u8);
    b.push((flags & 0xFF) as u8);
    b.extend_from_slice(payload);
    b
}

fn build_synthetic_heic() -> Vec<u8> {
    build_heic(0, 0, &[0xAB; 10])
}

fn build_heic(iloc_version: u8, method: u16, item_bytes: &[u8; 10]) -> Vec<u8> {
    let mut ftyp_payload = Vec::new();
    ftyp_payload.extend_from_slice(b"heic");
    ftyp_payload.extend_from_slice(&[0, 0, 0, 0]);
    ftyp_payload.extend_from_slice(b"mif1");
    let ftyp = make_box(b"ftyp", &ftyp_payload);

    let mut hdlr_payload = Vec::new();
    hdlr_payload.extend_from_slice(&[0; 4]);
    hdlr_payload.extend_from_slice(b"pict");
    hdlr_payload.extend_from_slice(&[0; 12]);
    let hdlr = make_full_box(b"hdlr", 0, 0, &hdlr_payload);

    let pitm = make_full_box(b"pitm", 0, 0, &1u16.to_be_bytes());

    let mut infe_payload = Vec::new();
    infe_payload.extend_from_slice(&1u16.to_be_bytes());
    infe_payload.extend_from_slice(&0u16.to_be_bytes());
    infe_payload.extend_from_slice(b"hvc1");
    infe_payload.push(0);
    let infe = make_full_box(b"infe", 2, 0, &infe_payload);

    let mut iinf_payload = Vec::new();
    iinf_payload.extend_from_slice(&1u16.to_be_bytes());
    iinf_payload.extend_from_slice(&infe);
    let iinf = make_full_box(b"iinf", 0, 0, &iinf_payload);

    let mut ispe_payload = Vec::new();
    ispe_payload.extend_from_slice(&1920u32.to_be_bytes());
    ispe_payload.extend_from_slice(&1080u32.to_be_bytes());
    let ispe = make_full_box(b"ispe", 0, 0, &ispe_payload);

    let ipco = make_box(b"ipco", &ispe);

    let mut ipma_payload = Vec::new();
    ipma_payload.extend_from_slice(&1u32.to_be_bytes());
    ipma_payload.extend_from_slice(&1u16.to_be_bytes());
    ipma_payload.push(1);
    ipma_payload.push(1);
    let ipma = make_full_box(b"ipma", 0, 0, &ipma_payload);

    let mut iprp_payload = Vec::new();
    iprp_payload.extend_from_slice(&ipco);
    iprp_payload.extend_from_slice(&ipma);
    let iprp = make_box(b"iprp", &iprp_payload);

    let mut iloc_payload = Vec::new();
    iloc_payload.push(0x44);
    iloc_payload.push(0x00);
    iloc_payload.extend_from_slice(&1u16.to_be_bytes());
    iloc_payload.extend_from_slice(&1u16.to_be_bytes());
    if iloc_version >= 1 {
        iloc_payload.extend_from_slice(&method.to_be_bytes());
    }
    iloc_payload.extend_from_slice(&0u16.to_be_bytes());
    iloc_payload.extend_from_slice(&1u16.to_be_bytes());
    let offset_placeholder_pos = iloc_payload.len();
    iloc_payload.extend_from_slice(&0u32.to_be_bytes());
    iloc_payload.extend_from_slice(&10u32.to_be_bytes());

    let mut meta_content = Vec::new();
    meta_content.extend_from_slice(&hdlr);
    meta_content.extend_from_slice(&pitm);
    meta_content.extend_from_slice(&iinf);
    meta_content.extend_from_slice(&iprp);

    let meta_total_size = 12 + meta_content.len() + 12 + iloc_payload.len();
    let mdat_payload_offset = ftyp.len() + meta_total_size + 8;

    iloc_payload[offset_placeholder_pos..offset_placeholder_pos + 4]
        .copy_from_slice(&(mdat_payload_offset as u32).to_be_bytes());
    let iloc = make_full_box(b"iloc", iloc_version, 0, &iloc_payload);

    meta_content.extend_from_slice(&iloc);
    let meta = make_full_box(b"meta", 0, 0, &meta_content);

    let mdat = make_box(b"mdat", item_bytes);

    let mut file_bytes = Vec::new();
    file_bytes.extend_from_slice(&ftyp);
    file_bytes.extend_from_slice(&meta);
    file_bytes.extend_from_slice(&mdat);
    file_bytes
}

fn build_synthetic_grid_heic() -> Vec<u8> {
    let mut ftyp_payload = Vec::new();
    ftyp_payload.extend_from_slice(b"heic");
    ftyp_payload.extend_from_slice(&[0, 0, 0, 0]);
    ftyp_payload.extend_from_slice(b"mif1");
    let ftyp = make_box(b"ftyp", &ftyp_payload);

    let mut hdlr_payload = Vec::new();
    hdlr_payload.extend_from_slice(&[0; 4]);
    hdlr_payload.extend_from_slice(b"pict");
    hdlr_payload.extend_from_slice(&[0; 12]);
    let hdlr = make_full_box(b"hdlr", 0, 0, &hdlr_payload);

    let pitm = make_full_box(b"pitm", 0, 0, &1u16.to_be_bytes());

    let infe1 = make_full_box(b"infe", 2, 0, &[0, 1, 0, 0, b'g', b'r', b'i', b'd', 0]);
    let infe2 = make_full_box(b"infe", 2, 0, &[0, 2, 0, 0, b'h', b'v', b'c', b'1', 0]);
    let infe3 = make_full_box(b"infe", 2, 0, &[0, 3, 0, 0, b'h', b'v', b'c', b'1', 0]);

    let mut iinf_payload = Vec::new();
    iinf_payload.extend_from_slice(&3u16.to_be_bytes());
    iinf_payload.extend_from_slice(&infe1);
    iinf_payload.extend_from_slice(&infe2);
    iinf_payload.extend_from_slice(&infe3);
    let iinf = make_full_box(b"iinf", 0, 0, &iinf_payload);

    let mut dimg_payload = Vec::new();
    dimg_payload.extend_from_slice(&1u16.to_be_bytes());
    dimg_payload.extend_from_slice(&2u16.to_be_bytes());
    dimg_payload.extend_from_slice(&2u16.to_be_bytes());
    dimg_payload.extend_from_slice(&3u16.to_be_bytes());
    let dimg_box = make_box(b"dimg", &dimg_payload);
    let iref = make_full_box(b"iref", 0, 0, &dimg_box);

    let mut ispe_payload = Vec::new();
    ispe_payload.extend_from_slice(&1000u32.to_be_bytes());
    ispe_payload.extend_from_slice(&500u32.to_be_bytes());
    let ispe = make_full_box(b"ispe", 0, 0, &ispe_payload);

    let ipco = make_box(b"ipco", &ispe);

    let mut ipma_payload = Vec::new();
    ipma_payload.extend_from_slice(&1u32.to_be_bytes());
    ipma_payload.extend_from_slice(&1u16.to_be_bytes());
    ipma_payload.push(1);
    ipma_payload.push(1);
    let ipma = make_full_box(b"ipma", 0, 0, &ipma_payload);

    let mut iprp_payload = Vec::new();
    iprp_payload.extend_from_slice(&ipco);
    iprp_payload.extend_from_slice(&ipma);
    let iprp = make_box(b"iprp", &iprp_payload);

    let mut iloc_payload = Vec::new();
    iloc_payload.push(0x44);
    iloc_payload.push(0x00);
    iloc_payload.extend_from_slice(&3u16.to_be_bytes());

    iloc_payload.extend_from_slice(&1u16.to_be_bytes());
    iloc_payload.extend_from_slice(&0u16.to_be_bytes());
    iloc_payload.extend_from_slice(&1u16.to_be_bytes());
    let offset_grid_pos = iloc_payload.len();
    iloc_payload.extend_from_slice(&0u32.to_be_bytes());
    iloc_payload.extend_from_slice(&8u32.to_be_bytes());

    iloc_payload.extend_from_slice(&2u16.to_be_bytes());
    iloc_payload.extend_from_slice(&0u16.to_be_bytes());
    iloc_payload.extend_from_slice(&1u16.to_be_bytes());
    let offset_t1_pos = iloc_payload.len();
    iloc_payload.extend_from_slice(&0u32.to_be_bytes());
    iloc_payload.extend_from_slice(&10u32.to_be_bytes());

    iloc_payload.extend_from_slice(&3u16.to_be_bytes());
    iloc_payload.extend_from_slice(&0u16.to_be_bytes());
    iloc_payload.extend_from_slice(&1u16.to_be_bytes());
    let offset_t2_pos = iloc_payload.len();
    iloc_payload.extend_from_slice(&0u32.to_be_bytes());
    iloc_payload.extend_from_slice(&10u32.to_be_bytes());

    let mut meta_content = Vec::new();
    meta_content.extend_from_slice(&hdlr);
    meta_content.extend_from_slice(&pitm);
    meta_content.extend_from_slice(&iinf);
    meta_content.extend_from_slice(&iref);
    meta_content.extend_from_slice(&iprp);

    let meta_total_size = 12 + meta_content.len() + 12 + iloc_payload.len();
    let mdat_payload_offset = ftyp.len() + meta_total_size + 8;

    iloc_payload[offset_grid_pos..offset_grid_pos + 4]
        .copy_from_slice(&(mdat_payload_offset as u32).to_be_bytes());
    iloc_payload[offset_t1_pos..offset_t1_pos + 4]
        .copy_from_slice(&((mdat_payload_offset + 8) as u32).to_be_bytes());
    iloc_payload[offset_t2_pos..offset_t2_pos + 4]
        .copy_from_slice(&((mdat_payload_offset + 18) as u32).to_be_bytes());

    let iloc = make_full_box(b"iloc", 0, 0, &iloc_payload);
    meta_content.extend_from_slice(&iloc);
    let meta = make_full_box(b"meta", 0, 0, &meta_content);

    let mut mdat_payload = Vec::new();
    mdat_payload.extend_from_slice(&[0, 0, 0, 1]);
    mdat_payload.extend_from_slice(&1000u16.to_be_bytes());
    mdat_payload.extend_from_slice(&500u16.to_be_bytes());
    mdat_payload.extend_from_slice(&[0x11; 10]);
    mdat_payload.extend_from_slice(&[0x22; 10]);
    let mdat = make_box(b"mdat", &mdat_payload);

    let mut file_bytes = Vec::new();
    file_bytes.extend_from_slice(&ftyp);
    file_bytes.extend_from_slice(&meta);
    file_bytes.extend_from_slice(&mdat);
    file_bytes
}

#[test]
fn test_parse_valid_ftyp() {
    let mut raw = vec![0x00, 0x00, 0x00, 0x18, b'f', b't', b'y', b'p'];
    raw.extend_from_slice(b"heic");
    raw.extend_from_slice(&[0, 0, 0, 0]);
    raw.extend_from_slice(b"mif1");
    raw.extend_from_slice(b"hevc");

    let ftyp = FileTypeBox::parse(&raw).unwrap();
    assert_eq!(&ftyp.major_brand, b"heic");
    assert_eq!(ftyp.minor_version, 0);
    assert_eq!(ftyp.compatible_brands.len(), 2);
    assert_eq!(&ftyp.compatible_brands[0], b"mif1");
    assert_eq!(&ftyp.compatible_brands[1], b"hevc");

    assert!(ftyp.is_compatible(&[*b"heic", *b"mif1"]));
    assert!(!ftyp.is_compatible(&[*b"avif"]));
}

#[test]
fn test_parse_short_ftyp() {
    let raw = [0x00, 0x00, 0x00, 0x0c, b'f', b't', b'y', b'p', b'h', b'e', b'i', b'c'];
    assert!(FileTypeBox::parse(&raw).is_err());
}

#[test]
fn test_parse_16bit_grid() {
    let limits = Limits::none();
    let payload = [0x00, 0x00, 0x01, 0x01, 0x0f, 0x00, 0x08, 0x70];

    let grid = ImageGrid::parse(&payload, &limits).unwrap();
    assert_eq!(grid.rows, 2);
    assert_eq!(grid.columns, 2);
    assert_eq!(grid.tile_count(), 4);
    assert_eq!(grid.output_width, 3840);
    assert_eq!(grid.output_height, 2160);
}

#[test]
fn test_parse_32bit_grid() {
    let limits = Limits::none();
    let payload = [0x00, 0x01, 0x03, 0x03, 0x00, 0x00, 0x1e, 0x00, 0x00, 0x00, 0x10, 0xe0];

    let grid = ImageGrid::parse(&payload, &limits).unwrap();
    assert_eq!(grid.rows, 4);
    assert_eq!(grid.columns, 4);
    assert_eq!(grid.tile_count(), 16);
    assert_eq!(grid.output_width, 7680);
    assert_eq!(grid.output_height, 4320);
}

#[test]
fn test_rotation_property() {
    let rot0 = RotationProperty { angle_ccw: 0 };
    assert_eq!(rot0.angle_cw(), 0);
    assert_eq!(rot0.to_exif_orientation(), 1);

    let rot90_ccw = RotationProperty { angle_ccw: 1 };
    assert_eq!(rot90_ccw.angle_cw(), 270);
    assert_eq!(rot90_ccw.to_exif_orientation(), 8);

    let rot180 = RotationProperty { angle_ccw: 2 };
    assert_eq!(rot180.angle_cw(), 180);
    assert_eq!(rot180.to_exif_orientation(), 3);

    let rot270_ccw = RotationProperty { angle_ccw: 3 };
    assert_eq!(rot270_ccw.angle_cw(), 90);
    assert_eq!(rot270_ccw.to_exif_orientation(), 6);
}

#[test]
fn test_pitm_parsing() {
    let mut raw = vec![0, 0, 0, 14, b'p', b'i', b't', b'm'];
    raw.extend_from_slice(&[0, 0, 0, 0]);
    raw.extend_from_slice(&1u16.to_be_bytes());

    let full = FullBoxHeader::parse(&raw).unwrap();
    let payload = full.payload(&raw).unwrap();
    let item_id = u16::from_be_bytes([payload[0], payload[1]]) as u32;
    assert_eq!(item_id, 1);
}

#[test]
fn test_parse_standard_header() {
    let raw = [0x00, 0x00, 0x00, 0x18, b'f', b't', b'y', b'p'];
    let header = BoxHeader::parse(&raw).unwrap();
    assert_eq!(header.box_type, FourCC::ftyp());
    assert_eq!(header.size, 24);
    assert_eq!(header.header_size, 8);
    assert_eq!(header.payload_size(), 16);
}

#[test]
fn test_parse_extended_header() {
    let mut raw = vec![0x00, 0x00, 0x00, 0x01, b'm', b'd', b'a', b't'];
    raw.extend_from_slice(&1000u64.to_be_bytes());
    raw.extend_from_slice(&vec![0u8; 1000 - 16]);

    let header = BoxHeader::parse(&raw).unwrap();
    assert_eq!(header.box_type, FourCC::mdat());
    assert_eq!(header.size, 1000);
    assert_eq!(header.header_size, 16);
    assert_eq!(header.payload_size(), 984);
}

#[test]
fn test_box_iter() {
    let mut data = Vec::new();
    data.extend_from_slice(&[0, 0, 0, 16, b'f', b't', b'y', b'p', 0, 0, 0, 0, 0, 0, 0, 0]);
    data.extend_from_slice(&[0, 0, 0, 12, b'm', b'e', b't', b'a', 0, 0, 0, 0]);

    let mut it = BoxIter::new(&data);
    let mut boxes = Vec::new();
    while let Some(item) = it.next_box() {
        boxes.push(item.unwrap());
    }
    assert_eq!(boxes.len(), 2);
    assert_eq!(boxes[0].0.box_type, FourCC::ftyp());
    assert_eq!(boxes[1].0.box_type, FourCC::meta());
}

#[test]
fn lib_test_is_heif_or_heic_invalid() {
    assert!(!is_heif_or_heic(b"not a valid heic"));
}

#[test]
fn lib_test_is_heif_or_heic_valid_ftyp() {
    let mut sample = vec![0x00, 0x00, 0x00, 0x18, b'f', b't', b'y', b'p'];
    sample.extend_from_slice(b"heic");
    sample.extend_from_slice(&[0, 0, 0, 0]);
    sample.extend_from_slice(b"mif1");

    assert!(is_heif_or_heic(&sample));
}

#[test]
fn synthetic_pipeline_tests_test_is_heif_or_heic_valid_ftyp() {
    let mut data = vec![0, 0, 0, 16, b'f', b't', b'y', b'p'];
    data.extend_from_slice(b"heic");
    data.extend_from_slice(&[0, 0, 0, 0]);

    assert!(is_heif_or_heic(&data));
}

#[test]
fn synthetic_pipeline_tests_test_is_heif_or_heic_invalid() {
    assert!(!is_heif_or_heic(&[]));
    assert!(!is_heif_or_heic(b"random_data_here"));
}

#[test]
fn test_parse_synthetic_heic_pipeline() {
    let data = build_synthetic_heic();
    let limits = Limits::default();

    let heif = parse_heif(&data, &limits).expect("Synthetic HEIC parse should succeed");
    assert_eq!(heif.ftyp.major_brand, *b"heic");
    assert_eq!(heif.primary_item_id, 1);

    let primary = heif.items.get(&heif.primary_item_id).expect("Primary image should exist");
    assert_eq!(primary.dimensions.width, 1920);
    assert_eq!(primary.dimensions.height, 1080);
    assert_eq!(primary.item_type, FourCC::hvc1());

    let primary_data = heif.extract_item_data(&data, heif.primary_item_id).unwrap();
    assert_eq!(primary_data, vec![0xAB; 10]);

    let meta = inspect_container(&data, &limits).expect("Inspect should succeed");
    assert_eq!(meta.dimensions.width, 1920);
    assert_eq!(meta.dimensions.height, 1080);
    assert!(!meta.is_grid);
}

#[test]
fn test_parse_synthetic_grid_heic() {
    let data = build_synthetic_grid_heic();
    let limits = Limits::default();

    let heif = parse_heif(&data, &limits).expect("Synthetic Grid HEIC parse should succeed");
    assert!(heif.grid_config.is_some());
    assert_eq!(&heif.grid_tile_item_ids, &[2, 3]);

    let meta = inspect_container(&data, &limits).expect("Inspect should succeed");
    assert!(meta.is_grid);
    assert_eq!(meta.grid_rows, 1);
    assert_eq!(meta.grid_columns, 2);
    assert_eq!(meta.dimensions.width, 1000);
    assert_eq!(meta.dimensions.height, 500);
}

#[test]
fn test_nal_stream_annex_b_extraction() {
    let config = HevcConfigProperty {
        nalu_length_size: 4,
        sps: vec![vec![0x42, 0x01, 0x01]],
        pps: vec![vec![0x44, 0x01, 0xC0]],
        vps: vec![vec![0x40, 0x01, 0x0C]],
    };

    let annex_b_header = config.to_annex_b_header();
    assert_eq!(&annex_b_header[0..4], &[0x00, 0x00, 0x00, 0x01]);
}

#[test]
fn annex_b_header_orders_vps_sps_pps() {
    let config = HevcConfigProperty {
        nalu_length_size: 4,
        sps: vec![vec![0x42, 0x01]],
        pps: vec![vec![0x44]],
        vps: vec![vec![0x40, 0x01, 0x0C]],
    };
    let h = config.to_annex_b_header();
    assert_eq!(h, vec![0, 0, 0, 1, 0x40, 0x01, 0x0C, 0, 0, 0, 1, 0x42, 0x01, 0, 0, 0, 1, 0x44]);
}

#[test]
fn parse_rejects_non_heif_input() {
    let limits = Limits::default();
    let r = parse_heif(b"random_data_here", &limits);
    assert!(matches!(r, Err(HeicError::UnsupportedFormat(_))));
}

#[test]
fn parse_rejects_file_over_size_limit() {
    let data = build_synthetic_heic();
    let limits = Limits::none().with_max_file_size(16);
    let r = parse_heif(&data, &limits);
    assert!(matches!(r, Err(HeicError::LimitExceeded(_))));
}

#[test]
fn parse_requires_meta_box() {
    let mut data = vec![0, 0, 0, 16, b'f', b't', b'y', b'p'];
    data.extend_from_slice(b"heic");
    data.extend_from_slice(&[0, 0, 0, 0]);
    let r = parse_heif(&data, &Limits::default());
    assert!(matches!(r, Err(HeicError::InvalidContainer(_))));
}

#[test]
fn parsed_files_are_detected() {
    let data = build_synthetic_heic();
    assert!(parse_heif(&data, &Limits::default()).is_ok());
    assert!(is_heif_or_heic(&data));
}

#[test]
fn compatible_brand_is_enough_for_detection() {
    let mut data = vec![0, 0, 0, 20, b'f', b't', b'y', b'p'];
    data.extend_from_slice(b"zzzz");
    data.extend_from_slice(&[0, 0, 0, 0]);
    data.extend_from_slice(b"mif1");
    assert!(is_heif_or_heic(&data));
    data[16] = b'x';
    assert!(!is_heif_or_heic(&data));
}

#[test]
fn header_rejects_short_input() {
    assert!(matches!(BoxHeader::parse(&[0, 0, 0]), Err(HeicError::MalformedInput(_))));
}

#[test]
fn grid_rejects_short_payload() {
    assert!(ImageGrid::parse(&[0, 0, 1, 1], &Limits::none()).is_err());
}

#[test]
fn fourcc_text() {
    assert_eq!(FourCC::ftyp().to_string(), "ftyp");
    assert_eq!(FourCC::from_bytes(*b"hvc1"), FourCC::hvc1());
}

#[test]
fn extracted_item_of_unknown_id_fails() {
    let data = build_synthetic_heic();
    let heif = parse_heif(&data, &Limits::default()).unwrap();
    assert!(heif.extract_item_data(&data, 99).is_err());
}

#[test]
fn iloc_version_one_file_offsets() {
    let data = build_heic(1, 0, &[0xAB; 10]);
    let heif = parse_heif(&data, &Limits::default()).unwrap();
    assert_eq!(heif.extract_item_data(&data, 1).unwrap(), vec![0xAB; 10]);
}

#[test]
fn item_offset_construction_is_unsupported() {
    let data = build_heic(1, 2, &[0xAB; 10]);
    let heif = parse_heif(&data, &Limits::default()).unwrap();
    assert!(matches!(heif.extract_item_data(&data, 1), Err(HeicError::UnsupportedFeature(_))));
}

#[test]
fn annex_b_stream_of_primary_item() {
    let data = build_synthetic_heic();
    let heif = parse_heif(&data, &Limits::default()).unwrap();
    // Without an hvcC property, 4-byte NAL lengths are read: 0xABABABAB runs past the data.
    assert!(heif.extract_annex_b_stream(&data, 1).is_err());
}

#[test]
fn annex_b_stream_replaces_lengths_with_start_codes() {
    let data = build_heic(0, 0, &[0, 0, 0, 2, 0x26, 0x01, 0, 0, 0, 0]);
    let heif = parse_heif(&data, &Limits::default()).unwrap();
    let stream = heif.extract_annex_b_stream(&data, 1).unwrap();
    assert_eq!(stream, vec![0, 0, 0, 1, 0x26, 0x01, 0, 0, 0, 1]);
}
