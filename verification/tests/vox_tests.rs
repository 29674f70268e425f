use cross_pattern::vox::{
    check_header, check_length, load, parse_chunk, ChunkType, Point3, Point4, VoxError, Voxel,
};

fn le(value: i32) -> Vec<u8> {
    value.to_le_bytes().to_vec()
}

fn raw_chunk(id: &str, content: &[u8]) -> Vec<u8> {
    let mut bytes = id.as_bytes().to_vec();
    bytes.extend(le(content.len() as i32));
    bytes.extend(le(0));
    bytes.extend_from_slice(content);
    bytes
}

fn size_chunk(x: i32, y: i32, z: i32) -> Vec<u8> {
    let mut content = le(x);
    content.extend(le(y));
    content.extend(le(z));
    raw_chunk("SIZE", &content)
}

fn xyzi_chunk(voxels: &[[u8; 4]]) -> Vec<u8> {
    let mut content = le(voxels.len() as i32);
    for v in voxels {
        content.extend_from_slice(v);
    }
    raw_chunk("XYZI", &content)
}

fn rgba_chunk() -> Vec<u8> {
    let mut content = Vec::new();
    for i in 0..256u32 {
        content.extend_from_slice(&[i as u8, (i / 2) as u8, (255 - i) as u8, 255]);
    }
    raw_chunk("RGBA", &content)
}

fn file(chunks: &[Vec<u8>]) -> Vec<u8> {
    let mut bytes = b"VOX ".to_vec();
    bytes.extend(le(150));
    for c in chunks {
        bytes.extend_from_slice(c);
    }
    bytes
}

fn voxel(x: i32, y: i32, z: i32, color: u8) -> Voxel {
    Voxel { position: Point3 { x, y, z }, color }
}

#[test]
fn length_within_the_data() {
    assert_eq!(check_length(0, 4, &[1, 2, 3, 4]), Ok(()));
    assert_eq!(check_length(2, 2, &[1, 2, 3, 4]), Ok(()));
    assert_eq!(check_length(4, 0, &[1, 2, 3, 4]), Ok(()));
    assert_eq!(check_length(0, 0, &[]), Ok(()));
}

#[test]
fn length_beyond_the_data() {
    assert_eq!(
        check_length(2, 3, &[1, 2, 3, 4]),
        Err(VoxError::TooShort { start: 2, length: 3, total: 4 })
    );
    assert_eq!(check_length(0, 1, &[]), Err(VoxError::TooShort { start: 0, length: 1, total: 0 }));
    assert_eq!(
        check_length(usize::MAX, usize::MAX, &[9]),
        Err(VoxError::TooShort { start: usize::MAX as u64, length: usize::MAX as u64, total: 1 })
    );
}

#[test]
fn header_is_vox_and_a_blank() {
    assert_eq!(check_header(b"VOX "), Ok(()));
    assert_eq!(check_header(b"VOX \x96\0\0\0MAIN"), Ok(()));
}

#[test]
fn header_names_the_first_wrong_byte() {
    assert_eq!(check_header(b"vOX "), Err(VoxError::BadHeader { position: 0 }));
    assert_eq!(check_header(b"VoX "), Err(VoxError::BadHeader { position: 1 }));
    assert_eq!(check_header(b"VOx "), Err(VoxError::BadHeader { position: 2 }));
    assert_eq!(check_header(b"VOX_"), Err(VoxError::BadHeader { position: 3 }));
    assert_eq!(check_header(b"vox "), Err(VoxError::BadHeader { position: 0 }));
    assert_eq!(check_header(b"VOx!"), Err(VoxError::BadHeader { position: 2 }));
}

#[test]
fn header_needs_four_bytes() {
    assert_eq!(check_header(b"VOX"), Err(VoxError::TooShort { start: 0, length: 4, total: 3 }));
    assert_eq!(check_header(b""), Err(VoxError::TooShort { start: 0, length: 4, total: 0 }));
}

#[test]
fn main_chunk() {
    let (chunk, read) = parse_chunk(&raw_chunk("MAIN", &[])).unwrap();
    assert!(matches!(chunk, ChunkType::Main));
    assert!(!chunk.is_not_main());
    assert!(chunk.is_not_size());
    assert_eq!(read, 12);
}

#[test]
fn pack_chunk_counts_models() {
    let (chunk, read) = parse_chunk(&raw_chunk("PACK", &le(3))).unwrap();
    assert!(matches!(chunk, ChunkType::Pack(3)));
    assert!(chunk.is_not_main());
    assert_eq!(read, 16);
    let (chunk, _) = parse_chunk(&raw_chunk("PACK", &le(-1_000_000))).unwrap();
    assert!(matches!(chunk, ChunkType::Pack(-1_000_000)));
    let (chunk, _) = parse_chunk(&raw_chunk("PACK", &[0x78, 0x56, 0x34, 0x12])).unwrap();
    assert!(matches!(chunk, ChunkType::Pack(0x12345678)));
    let (chunk, _) = parse_chunk(&raw_chunk("PACK", &[0, 0, 0, 0x80])).unwrap();
    assert!(matches!(chunk, ChunkType::Pack(i32::MIN)));
}

#[test]
fn size_chunk_gives_the_extent() {
    let (chunk, read) = parse_chunk(&size_chunk(20, -21, 300_000)).unwrap();
    assert!(!chunk.is_not_size());
    match chunk {
        ChunkType::Size(size) => assert_eq!(size, Point3 { x: 20, y: -21, z: 300_000 }),
        other => panic!("{:?}", other),
    }
    assert_eq!(read, 24);
}

#[test]
fn xyzi_chunk_lists_voxels() {
    let bytes = xyzi_chunk(&[[1, 2, 3, 4], [255, 0, 128, 9]]);
    let (chunk, read) = parse_chunk(&bytes).unwrap();
    match chunk {
        ChunkType::Voxels(sub_object) => {
            assert_eq!(sub_object.voxels, vec![voxel(1, 2, 3, 4), voxel(255, 0, 128, 9)]);
        },
        other => panic!("{:?}", other),
    }
    assert_eq!(read, 24);
    let (chunk, read) = parse_chunk(&xyzi_chunk(&[])).unwrap();
    match chunk {
        ChunkType::Voxels(sub_object) => assert_eq!(sub_object.voxels, Vec::new()),
        other => panic!("{:?}", other),
    }
    assert_eq!(read, 16);
}

#[test]
fn rgba_chunk_shifts_the_palette_by_one() {
    let (chunk, read) = parse_chunk(&rgba_chunk()).unwrap();
    assert_eq!(read, 1036);
    match chunk {
        ChunkType::Palette(colors) => {
            assert_eq!(colors.len(), 256);
            assert_eq!(colors[0], Point4 { x: 255, y: 0, z: 127, w: 255 });
            assert_eq!(colors[1], Point4 { x: 255, y: 255, z: 0, w: 0 });
            assert_eq!(colors[2], Point4 { x: 255, y: 254, z: 0, w: 1 });
            assert_eq!(colors[255], Point4 { x: 255, y: 1, z: 127, w: 254 });
        },
        other => panic!("{:?}", other),
    }
}

#[test]
fn other_chunk_is_skipped_by_its_size() {
    let (chunk, read) = parse_chunk(&raw_chunk("nTRN", &[1, 2, 3, 4, 5])).unwrap();
    match chunk {
        ChunkType::Unknown(id) => assert_eq!(id, b"nTRN".to_vec()),
        other => panic!("{:?}", other),
    }
    assert_eq!(read, 17);
    let mut declared = b"LAYR".to_vec();
    declared.extend(le(1000));
    declared.extend(le(0));
    let (_, read) = parse_chunk(&declared).unwrap();
    assert_eq!(read, 1012);
}

#[test]
fn chunk_that_is_cut_off() {
    let too_short = |start, length, total| Err(VoxError::TooShort { start, length, total });
    assert_eq!(parse_chunk(b"MAI").map(|c| c.1), too_short(0, 4, 3));
    assert_eq!(parse_chunk(b"MAIN\0\0\0\0\0\0\0").map(|c| c.1), too_short(4, 8, 11));
    assert_eq!(parse_chunk(&raw_chunk("PACK", &[1, 0, 0])).map(|c| c.1), too_short(12, 4, 15));
    assert_eq!(parse_chunk(&raw_chunk("SIZE", &[0; 11])).map(|c| c.1), too_short(12, 12, 23));
    assert_eq!(parse_chunk(&raw_chunk("XYZI", &[])).map(|c| c.1), too_short(12, 4, 12));
    let mut cut = xyzi_chunk(&[[1, 2, 3, 4], [5, 6, 7, 8]]);
    cut.pop();
    assert_eq!(parse_chunk(&cut).map(|c| c.1), too_short(16, 8, 23));
    assert_eq!(parse_chunk(&raw_chunk("RGBA", &[0; 1023])).map(|c| c.1), too_short(12, 1024, 1035));
}

#[test]
fn negative_lengths_are_refused() {
    assert_eq!(
        parse_chunk(&raw_chunk("XYZI", &le(-1))).map(|c| c.1),
        Err(VoxError::NegativeLength)
    );
    let mut declared = b"LAYR".to_vec();
    declared.extend(le(-5));
    declared.extend(le(0));
    assert_eq!(parse_chunk(&declared).map(|c| c.1), Err(VoxError::NegativeLength));
}

#[test]
fn file_with_one_model() {
    let bytes = file(&[raw_chunk("MAIN", &[]), size_chunk(2, 2, 2), xyzi_chunk(&[[0, 1, 1, 7]])]);
    let object = load(&bytes).unwrap();
    assert_eq!(object.objects.len(), 1);
    assert_eq!(object.objects[0].voxels, vec![voxel(0, 1, 1, 7)]);
    assert!(object.palette.is_none());
    assert_eq!(object.min_bounds, Point3 { x: -1, y: -1, z: -1 });
    assert_eq!(object.max_bounds, Point3 { x: 1, y: 1, z: 1 });
}

#[test]
fn file_with_a_pack_of_models_and_a_palette() {
    let bytes = file(&[
        raw_chunk("MAIN", &[]),
        raw_chunk("PACK", &le(2)),
        size_chunk(2, 2, 2),
        xyzi_chunk(&[[0, 1, 1, 7]]),
        size_chunk(3, 3, 3),
        xyzi_chunk(&[[2, 2, 2, 1], [1, 0, 2, 3]]),
        raw_chunk("nTRN", &[9, 9, 9]),
        rgba_chunk(),
        raw_chunk("MATL", &[]),
    ]);
    let object = load(&bytes).unwrap();
    assert_eq!(object.objects.len(), 2);
    assert_eq!(object.objects[0].voxels, vec![voxel(0, 1, 1, 7)]);
    assert_eq!(object.objects[1].voxels, vec![voxel(2, 2, 2, 1), voxel(1, 0, 2, 3)]);
    let palette = object.palette.unwrap();
    assert_eq!(palette.colors.len(), 256);
    assert_eq!(palette.colors[1], Point4 { x: 255, y: 255, z: 0, w: 0 });
}

#[test]
fn pack_of_no_models() {
    let bytes = file(&[raw_chunk("MAIN", &[]), raw_chunk("PACK", &le(0))]);
    let object = load(&bytes).unwrap();
    assert_eq!(object.objects.len(), 0);
    let bytes = file(&[raw_chunk("MAIN", &[]), raw_chunk("PACK", &le(-4)), rgba_chunk()]);
    let object = load(&bytes).unwrap();
    assert_eq!(object.objects.len(), 0);
    assert!(object.palette.is_some());
}

#[test]
fn optional_chunk_that_runs_past_the_end_ends_the_file() {
    let mut declared = b"LAYR".to_vec();
    declared.extend(le(1000));
    declared.extend(le(0));
    let bytes = file(&[raw_chunk("MAIN", &[]), size_chunk(1, 1, 1), xyzi_chunk(&[]), declared]);
    let object = load(&bytes).unwrap();
    assert_eq!(object.objects.len(), 1);
    assert!(object.palette.is_none());
}

#[test]
fn file_that_is_no_model() {
    let err = |bytes: Vec<u8>| load(&bytes).map(|o| o.objects.len());
    assert_eq!(err(b"VOX".to_vec()), Err(VoxError::TooShort { start: 0, length: 4, total: 3 }));
    assert_eq!(err(b"BOX \x96\0\0\0".to_vec()), Err(VoxError::BadHeader { position: 0 }));
    assert_eq!(
        err(b"VOX \x96\0\0".to_vec()),
        Err(VoxError::TooShort { start: 4, length: 4, total: 3 })
    );
    assert_eq!(
        err(b"VOX \x96\0\0\0MAI".to_vec()),
        Err(VoxError::TooShort { start: 4, length: 4, total: 7 })
    );
    assert_eq!(
        err(b"VOX \x96\0\0\0MAIN".to_vec()),
        Err(VoxError::TooShort { start: 4, length: 8, total: 4 })
    );
    assert_eq!(err(file(&[size_chunk(1, 1, 1)])), Err(VoxError::ExpectedMain));
    assert_eq!(
        err(file(&[raw_chunk("MAIN", &[])])),
        Err(VoxError::TooShort { start: 0, length: 4, total: 0 })
    );
    assert_eq!(
        err(file(&[raw_chunk("MAIN", &[]), xyzi_chunk(&[])])),
        Err(VoxError::ExpectedSize)
    );
    assert_eq!(
        err(file(&[raw_chunk("MAIN", &[]), size_chunk(1, 1, 1), size_chunk(1, 1, 1)])),
        Err(VoxError::ExpectedVoxels)
    );
    assert_eq!(
        err(file(&[raw_chunk("MAIN", &[]), raw_chunk("PACK", &le(2)), size_chunk(1, 1, 1), xyzi_chunk(&[])])),
        Err(VoxError::TooShort { start: 0, length: 4, total: 0 })
    );
    assert_eq!(
        err(file(&[raw_chunk("MAIN", &[]), size_chunk(1, 1, 1), xyzi_chunk(&[]), b"RG".to_vec()])),
        Err(VoxError::TooShort { start: 0, length: 4, total: 2 })
    );
}
