use voxel_engine::voxel_loader::{
    LoadVoxError, PackChunk, RGBAChunk, SizeChunk, TransformChunkError, VoxChunk, VoxFile, XYZIChunk,
};

fn chunk_bytes(tag: &[u8], content: &[u8], children: &[u8]) -> Vec<u8> {
    let mut bytes = tag.to_vec();
    bytes.extend_from_slice(&(content.len() as u32).to_le_bytes());
    bytes.extend_from_slice(&(children.len() as u32).to_le_bytes());
    bytes.extend_from_slice(content);
    bytes.extend_from_slice(children);
    bytes
}

fn vox_bytes(version: u32, main: &[u8]) -> Vec<u8> {
    let mut bytes = b"VOX ".to_vec();
    bytes.extend_from_slice(&version.to_le_bytes());
    bytes.extend_from_slice(main);
    bytes
}

fn u32s_le(values: &[u32]) -> Vec<u8> {
    values.iter().flat_map(|v| v.to_le_bytes()).collect()
}

/// A file laid out like models/monu1.vox: version 150, a 126x126x118 model of
/// 156942 voxels and a palette.
fn monument_like_bytes() -> Vec<u8> {
    let size = u32s_le(&[126, 126, 118]);
    let mut xyzi = 156942u32.to_le_bytes().to_vec();
    for k in 0..156942u32 {
        xyzi.extend_from_slice(&[(k % 126) as u8, ((k / 126) % 126) as u8, (k / (126 * 126)) as u8, 1]);
    }
    let rgba = vec![0xAB; 1024];
    let mut children = chunk_bytes(b"SIZE", &size, &[]);
    children.extend(chunk_bytes(b"XYZI", &xyzi, &[]));
    children.extend(chunk_bytes(b"RGBA", &rgba, &[]));
    vox_bytes(150, &chunk_bytes(b"MAIN", &[], &children))
}

fn parse(bytes: &[u8]) -> Result<VoxFile, LoadVoxError> {
    VoxFile::parse_vox_bytes(bytes).expect("the children sizes are consistent")
}

#[test]
fn test_header() {
    let file = parse(&monument_like_bytes()).unwrap();
    assert_eq!(150, file.version());
}

#[test]
fn test_file_structure() {
    let file = parse(&monument_like_bytes()).unwrap();
    let main_chunk = file.main_chunk();

    assert_eq!("MAIN", main_chunk.name());

    let children = main_chunk.children();

    assert_eq!(3, children.len());

    let first_chunk = children.get(0).unwrap();
    let second_chunk = children.get(1).unwrap();
    let third_chunk = children.get(2).unwrap();

    assert_eq!("SIZE", first_chunk.name());
    assert_eq!("XYZI", second_chunk.name());
    assert_eq!("RGBA", third_chunk.name());

    let size_chunk: SizeChunk = first_chunk.try_into().expect("Couldn't transform chunk into a size chunk");

    assert_eq!(126, size_chunk.x());
    assert_eq!(126, size_chunk.y());
    assert_eq!(118, size_chunk.z());

    let xyzi_chunk: XYZIChunk = second_chunk.try_into().expect("Couldn't transform into an xyzi chunk");

    assert_eq!(156942, xyzi_chunk.voxels().len());

    let _: RGBAChunk = third_chunk.try_into().expect("Couldn't transform chunk into a rgba chunk");
}

#[test]
fn short_files_cannot_be_read() {
    assert_eq!(parse(b"VO").err(), Some(LoadVoxError::CouldNotReadFile));
    assert_eq!(parse(b"VOX \x96\x00").err(), Some(LoadVoxError::CouldNotReadFile));
    // a chunk whose content runs past the end
    let mut bytes = vox_bytes(150, &chunk_bytes(b"MAIN", &[1, 2, 3], &[]));
    bytes.truncate(bytes.len() - 1);
    assert_eq!(parse(&bytes).err(), Some(LoadVoxError::CouldNotReadFile));
}

#[test]
fn wrong_magic_is_an_invalid_header() {
    let mut bytes = vox_bytes(150, &chunk_bytes(b"MAIN", &[], &[]));
    bytes[0] = b'B';
    assert_eq!(parse(&bytes).err(), Some(LoadVoxError::InvalidFileHeader));
    bytes[0] = 0xFF;
    assert_eq!(parse(&bytes).err(), Some(LoadVoxError::InvalidFileHeader));
}

#[test]
fn tag_that_is_not_utf8_is_an_invalid_chunk_name() {
    let bytes = vox_bytes(150, &chunk_bytes(&[0xFF, 0xFE, 0x41, 0x41], &[], &[]));
    assert_eq!(parse(&bytes).err(), Some(LoadVoxError::InvalidChunkName));
}

#[test]
fn first_chunk_must_be_main() {
    let bytes = vox_bytes(150, &chunk_bytes(b"PACK", &[1, 0, 0, 0], &[]));
    assert_eq!(parse(&bytes).err(), Some(LoadVoxError::NoMainChunk));
}

#[test]
fn children_overrunning_their_size_are_refused() {
    // the main chunk gives its children 5 bytes, but its child counts 12
    let child = chunk_bytes(b"PACK", &[], &[]);
    let mut main = b"MAIN".to_vec();
    main.extend_from_slice(&0u32.to_le_bytes());
    main.extend_from_slice(&5u32.to_le_bytes());
    main.extend_from_slice(&child);
    assert!(VoxFile::parse_vox_bytes(&vox_bytes(150, &main)).is_none());
}

#[test]
fn trailing_bytes_after_main_are_ignored() {
    let mut bytes = vox_bytes(7, &chunk_bytes(b"MAIN", &[9, 8], &[]));
    bytes.extend_from_slice(&[1, 2, 3]);
    let file = parse(&bytes).unwrap();
    assert_eq!(file.version(), 7);
    assert_eq!(file.main_chunk().content(), &[9, 8]);
    assert_eq!(file.main_chunk().children().len(), 0);
}

#[test]
fn nested_children_are_read_in_order() {
    let leaf = chunk_bytes(b"nTRN", &[5], &[]);
    let group = chunk_bytes(b"nGRP", &[], &leaf);
    let mut children = group.clone();
    children.extend(chunk_bytes(b"PACK", &[2, 0, 0, 0], &[]));
    // the children size is counted as the reader counts it: content + children + 12 for each child
    let mut main = b"MAIN".to_vec();
    main.extend_from_slice(&0u32.to_le_bytes());
    main.extend_from_slice(&((0 + 1 + 12) + (4 + 0 + 12) as u32).to_le_bytes());
    main.extend_from_slice(&children);
    let file = parse(&vox_bytes(150, &main)).unwrap();
    let kids = file.main_chunk().children();
    assert_eq!(kids.len(), 2);
    assert_eq!(kids[0].name(), "nGRP");
    assert_eq!(kids[0].children()[0].name(), "nTRN");
    assert_eq!(kids[0].children()[0].content(), &[5]);
    assert_eq!(kids[1].name(), "PACK");
}

/// A file whose main chunk has one child, which has `grandchildren` children in `children`.
fn single_chunk_with(tag: &[u8], content: &[u8], children: &[u8], grandchildren: u32) -> VoxFile {
    // the reader counts a child as its content, one byte per child of its own, and its header
    let counted = content.len() as u32 + grandchildren + 12;
    let mut main = b"MAIN".to_vec();
    main.extend_from_slice(&0u32.to_le_bytes());
    main.extend_from_slice(&counted.to_le_bytes());
    main.extend(chunk_bytes(tag, content, children));
    parse(&vox_bytes(150, &main)).unwrap()
}

fn single_chunk(tag: &[u8], content: &[u8], children: &[u8]) -> VoxFile {
    single_chunk_with(tag, content, children, 0)
}

#[test]
fn find_child_gives_the_first_with_the_tag() {
    let mut children = chunk_bytes(b"SIZE", &u32s_le(&[1, 2, 3]), &[]);
    children.extend(chunk_bytes(b"SIZE", &u32s_le(&[4, 5, 6]), &[]));
    let file = parse(&vox_bytes(150, &chunk_bytes(b"MAIN", &[], &children))).unwrap();
    let found = file.main_chunk().find_child("SIZE").unwrap();
    assert_eq!(SizeChunk::try_from_chunk(found).unwrap().x(), 1);
    assert!(file.main_chunk().find_child("XYZI").is_none());
}

#[test]
fn size_chunk_errors() {
    let file = single_chunk(b"SIZE", &u32s_le(&[1, 2]), &[]);
    let chunk = &file.main_chunk().children()[0];
    assert_eq!(SizeChunk::try_from_chunk(chunk).err(), Some(TransformChunkError::UnexpectedContentSize));
    let file = single_chunk(b"XYZI", &u32s_le(&[0]), &[]);
    let chunk = &file.main_chunk().children()[0];
    assert_eq!(SizeChunk::try_from_chunk(chunk).err(), Some(TransformChunkError::WrongTagName));
    let file = single_chunk_with(b"SIZE", &u32s_le(&[1, 2, 3]), &chunk_bytes(b"PACK", &[1, 0, 0, 0], &[]), 1);
    let chunk = &file.main_chunk().children()[0];
    assert_eq!(SizeChunk::try_from_chunk(chunk).err(), Some(TransformChunkError::UnexpectedChildren));
}

#[test]
fn size_chunk_reads_three_little_endian_sizes() {
    let file = single_chunk(b"SIZE", &u32s_le(&[0x0102_0304, 7, 0xFFFF_FFFF]), &[]);
    let size = SizeChunk::try_from_chunk(&file.main_chunk().children()[0]).unwrap();
    assert_eq!((size.x(), size.y(), size.z()), (0x0102_0304, 7, 0xFFFF_FFFF));
    assert_eq!(size.name(), "SIZE");
}

#[test]
fn xyzi_chunk_reads_voxels() {
    let mut content = 2u32.to_le_bytes().to_vec();
    content.extend_from_slice(&[1, 2, 3, 4, 5, 6, 7, 8]);
    let file = single_chunk(b"XYZI", &content, &[]);
    let chunk = XYZIChunk::try_from_chunk(&file.main_chunk().children()[0]).unwrap();
    let v = &chunk.voxels()[1];
    assert_eq!((v.x(), v.y(), v.z(), v.i()), (5, 6, 7, 8));
    let xyz = chunk.voxels()[0].xyz();
    assert_eq!((xyz.x, xyz.y, xyz.z), (1, 2, 3));
    assert_eq!(chunk.get_voxels().len(), 2);
}

#[test]
fn xyzi_chunk_errors() {
    // count says 3 but only 2 voxels follow
    let mut content = 3u32.to_le_bytes().to_vec();
    content.extend_from_slice(&[1, 2, 3, 4, 5, 6, 7, 8]);
    let file = single_chunk(b"XYZI", &content, &[]);
    assert_eq!(XYZIChunk::try_from_chunk(&file.main_chunk().children()[0]).err(), Some(TransformChunkError::UnexpectedContentSize));
    let file = single_chunk(b"XYZI", &[1, 2], &[]);
    assert_eq!(XYZIChunk::try_from_chunk(&file.main_chunk().children()[0]).err(), Some(TransformChunkError::UnexpectedContentSize));
    let file = single_chunk(b"RGBA", &[], &[]);
    assert_eq!(XYZIChunk::try_from_chunk(&file.main_chunk().children()[0]).err(), Some(TransformChunkError::WrongTagName));
}

#[test]
fn rgba_chunk_shifts_the_palette_by_one() {
    let mut content = Vec::new();
    for k in 0..256u32 {
        content.extend_from_slice(&(k * 0x0101_0101).to_be_bytes());
    }
    let file = single_chunk(b"RGBA", &content, &[]);
    let chunk = RGBAChunk::try_from_chunk(&file.main_chunk().children()[0]).unwrap();
    let palette = chunk.palette();
    assert_eq!(palette[0], 0);
    assert_eq!(palette[1], 0);
    assert_eq!(palette[2], 0x0101_0101);
    assert_eq!(palette[255], 254 * 0x0101_0101);
    let palette = chunk.get_palette();
    assert_eq!(palette[100], 99 * 0x0101_0101);
}

#[test]
fn rgba_chunk_errors() {
    let file = single_chunk(b"RGBA", &[0; 1020], &[]);
    assert_eq!(RGBAChunk::try_from_chunk(&file.main_chunk().children()[0]).err(), Some(TransformChunkError::UnexpectedContentSize));
}

#[test]
fn rgba_into_chunk_writes_little_endian_colors() {
    let mut content = vec![0u8; 1024];
    content[0..4].copy_from_slice(&[0x11, 0x22, 0x33, 0x44]);
    let file = single_chunk(b"RGBA", &content, &[]);
    let chunk = RGBAChunk::try_from_chunk(&file.main_chunk().children()[0]).unwrap();
    // palette[1] is 0x11223344
    let out: VoxChunk = chunk.into_chunk();
    assert_eq!(out.name(), "RGBA");
    assert_eq!(out.children().len(), 0);
    assert_eq!(out.content().len(), 1024);
    assert_eq!(&out.content()[4..8], &[0x44, 0x33, 0x22, 0x11]);
    assert_eq!(&out.content()[0..4], &[0, 0, 0, 0]);
}

#[test]
fn pack_chunk_checks() {
    let file = single_chunk(b"PACK", &[3, 0, 0, 0], &[]);
    assert!(PackChunk::try_from_chunk(&file.main_chunk().children()[0]).is_ok());
    let file = single_chunk(b"PACK", &[3, 0, 0], &[]);
    assert_eq!(PackChunk::try_from_chunk(&file.main_chunk().children()[0]).err(), Some(TransformChunkError::UnexpectedContentSize));
}

#[test]
fn std_conversions_match_the_chunk_readers() {
    let file = single_chunk(b"PACK", &[3, 0, 0, 0], &[]);
    let chunk = &file.main_chunk().children()[0];
    assert!(PackChunk::try_from(chunk).is_ok());
    let wrong: Result<SizeChunk, TransformChunkError> = chunk.try_into();
    assert_eq!(wrong.err(), Some(TransformChunkError::WrongTagName));
    let mut colors = vec![0u8; 1024];
    colors[0..4].copy_from_slice(&[0x11, 0x22, 0x33, 0x44]);
    let file = single_chunk(b"RGBA", &colors, &[]);
    let rgba: RGBAChunk = (&file.main_chunk().children()[0]).try_into().unwrap();
    let out: VoxChunk = rgba.into();
    assert_eq!(out.name(), "RGBA");
    assert_eq!(&out.content()[4..8], &[0x44, 0x33, 0x22, 0x11]);
}
