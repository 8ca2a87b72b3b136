use voxel_engine::vec3::UVec3;
use voxel_engine::voxel_data::{VoxelDataError, XYZIVoxelData};
use voxel_engine::voxel_loader::{VoxFile, DEFAULT_PALETTE};

fn chunk(tag: &[u8], content: &[u8], children: &[u8]) -> Vec<u8> {
    let mut bytes = tag.to_vec();
    bytes.extend_from_slice(&(content.len() as u32).to_le_bytes());
    bytes.extend_from_slice(&(children.len() as u32).to_le_bytes());
    bytes.extend_from_slice(content);
    bytes.extend_from_slice(children);
    bytes
}

fn size_chunk(x: u32, y: u32, z: u32) -> Vec<u8> {
    let mut content = Vec::new();
    for v in [x, y, z] {
        content.extend_from_slice(&v.to_le_bytes());
    }
    chunk(b"SIZE", &content, &[])
}

fn xyzi_chunk(voxels: &[[u8; 4]]) -> Vec<u8> {
    let mut content = (voxels.len() as u32).to_le_bytes().to_vec();
    for v in voxels {
        content.extend_from_slice(v);
    }
    chunk(b"XYZI", &content, &[])
}

fn file_of(children: &[Vec<u8>]) -> VoxFile {
    let body: Vec<u8> = children.concat();
    let mut bytes = b"VOX ".to_vec();
    bytes.extend_from_slice(&150u32.to_le_bytes());
    bytes.extend(chunk(b"MAIN", &[], &body));
    VoxFile::parse_vox_bytes(&bytes).unwrap().unwrap()
}

fn data_of(children: &[Vec<u8>]) -> XYZIVoxelData {
    XYZIVoxelData::from_vox_file(file_of(children)).unwrap()
}

fn error_of(children: &[Vec<u8>]) -> VoxelDataError {
    match XYZIVoxelData::from_vox_file(file_of(children)) {
        Ok(_) => panic!("the file should be refused"),
        Err(e) => e,
    }
}

#[test]
fn a_missing_size_chunk_is_reported() {
    let e = error_of(&[xyzi_chunk(&[])]);
    assert!(matches!(e, VoxelDataError::ChunkNotFound(ref s) if s == "SIZE"));
}

#[test]
fn a_missing_xyzi_chunk_is_reported() {
    let e = error_of(&[size_chunk(2, 2, 2)]);
    assert!(matches!(e, VoxelDataError::ChunkNotFound(ref s) if s == "XYZI"));
}

#[test]
fn a_malformed_size_chunk_is_reported_by_name() {
    let e = error_of(&[chunk(b"SIZE", &[0; 8], &[]), xyzi_chunk(&[])]);
    assert!(matches!(e, VoxelDataError::TransformChunkError(ref s) if s == "UnexpectedContentSize"));
}

#[test]
fn a_malformed_xyzi_chunk_is_reported_by_name() {
    let child = chunk(b"PACK", &[1, 0, 0, 0], &[]);
    let children = [size_chunk(2, 2, 2), chunk(b"XYZI", &[0, 0, 0, 0], &child)].concat();
    // the reader counts a read child as its content, its number of children and the
    // 12 header bytes: 24 for SIZE and 4 + 1 + 12 for XYZI
    let mut bytes = b"VOX ".to_vec();
    bytes.extend_from_slice(&150u32.to_le_bytes());
    bytes.extend_from_slice(b"MAIN");
    bytes.extend_from_slice(&0u32.to_le_bytes());
    bytes.extend_from_slice(&41u32.to_le_bytes());
    bytes.extend(children);
    let file = VoxFile::parse_vox_bytes(&bytes).unwrap().unwrap();
    let e = match XYZIVoxelData::from_vox_file(file) {
        Ok(_) => panic!("the file should be refused"),
        Err(e) => e,
    };
    assert!(matches!(e, VoxelDataError::TransformChunkError(ref s) if s == "UnexpectedChildren"));
}

#[test]
fn a_malformed_rgba_chunk_is_reported_by_name() {
    let e = error_of(&[size_chunk(2, 2, 2), xyzi_chunk(&[[0, 0, 0, 1]]), chunk(b"RGBA", &[0; 1020], &[])]);
    assert!(matches!(e, VoxelDataError::TransformChunkError(ref s) if s == "UnexpectedContentSize"));
}

#[test]
fn the_first_size_and_xyzi_chunks_are_used() {
    let data = data_of(&[size_chunk(2, 3, 4), xyzi_chunk(&[[1, 1, 1, 1]]), size_chunk(9, 9, 9), xyzi_chunk(&[])]);
    // the file's y and z axes swap places
    assert_eq!(*data.size(), UVec3 { x: 2, y: 4, z: 3 });
}

#[test]
fn the_farthest_voxel_must_lie_within_the_size() {
    let e = error_of(&[size_chunk(2, 2, 2), xyzi_chunk(&[[0, 0, 0, 1], [3, 0, 0, 1]])]);
    assert!(matches!(e, VoxelDataError::VoxelOutOfBounds));
    // a coordinate equal to the size is still accepted; on x it lands in the next row
    let mut data = data_of(&[size_chunk(2, 2, 2), xyzi_chunk(&[[0, 0, 0, 1], [2, 0, 0, 7]])]);
    assert!(data.voxels_fit_grid());
    // (2, 0, 0) goes to (2, 1, 0): 1 * 2 + 2
    let grid = data.as_palette_indices();
    assert_eq!(grid[4], 7);
    assert_eq!(grid[2], 1);
    // on y at the top it lies past the grid's end
    let data = data_of(&[size_chunk(2, 2, 2), xyzi_chunk(&[[2, 2, 0, 1]])]);
    assert!(!data.voxels_fit_grid());
    // z equal to the height lies above the grid
    let data = data_of(&[size_chunk(2, 2, 2), xyzi_chunk(&[[0, 0, 2, 1]])]);
    assert!(!data.voxels_fit_grid());
    // only the farthest voxel is checked: a nearer voxel sticking out on one axis passes
    let data = data_of(&[size_chunk(1, 9, 9), xyzi_chunk(&[[2, 0, 0, 1], [0, 5, 5, 1]])]);
    assert!(data.voxels_fit_grid());
}

#[test]
fn palette_entry_zero_takes_the_color_of_the_lowest_voxel() {
    let data = data_of(&[size_chunk(4, 4, 4), xyzi_chunk(&[[0, 1, 0, 5], [1, 0, 0, 7], [0, 0, 1, 9]])]);
    let palette = data.color_palette();
    assert_eq!(palette[0], 0xffccffff);
    assert_eq!(palette[0], DEFAULT_PALETTE[7]);
    assert_eq!(&palette[1..], &DEFAULT_PALETTE[1..]);
}

#[test]
fn without_voxels_palette_entry_zero_is_green() {
    let data = data_of(&[size_chunk(4, 4, 4), xyzi_chunk(&[])]);
    let palette = data.color_palette();
    assert_eq!(palette[0], 0xb2c553ff);
    assert_eq!(palette[1], 0xffffffff);
}

#[test]
fn the_file_palette_replaces_the_default() {
    let mut colors = Vec::new();
    for k in 0..256u32 {
        colors.extend_from_slice(&(k * 0x0101_0101).to_be_bytes());
    }
    let data = data_of(&[size_chunk(4, 4, 4), xyzi_chunk(&[[0, 0, 0, 3]]), chunk(b"RGBA", &colors, &[])]);
    let palette = data.color_palette();
    // entries move up by one; entry 3 is the file's entry 2
    assert_eq!(palette[3], 2 * 0x0101_0101);
    assert_eq!(palette[0], 2 * 0x0101_0101);
    assert_eq!(palette[255], 254 * 0x0101_0101);
}

#[test]
fn palette_indices_are_laid_out_x_then_height_then_depth() {
    // file size (2, 3, 4): the grid is 2 wide, 4 high, 3 deep
    let mut data = data_of(&[size_chunk(2, 3, 4), xyzi_chunk(&[[1, 2, 0, 5], [0, 0, 3, 6]])]);
    assert!(data.voxels_fit_grid());
    assert!(data.grid_fits_memory(1));
    let grid = data.as_palette_indices();
    assert_eq!(grid.len(), 24);
    // (1, 2, 0) goes to (1, 4 - 1 - 0, 2): 2 * 2 * 4 + 3 * 2 + 1
    assert_eq!(grid[23], 5);
    // (0, 0, 3) goes to (0, 0, 0)
    assert_eq!(grid[0], 6);
    assert_eq!(grid.iter().filter(|&&b| b != 0).count(), 2);
    // the voxels were consumed
    assert!(data.as_palette_indices().iter().all(|&b| b == 0));
    assert_eq!(*data.size(), UVec3 { x: 2, y: 4, z: 3 });
}

#[test]
fn a_later_voxel_overwrites_an_earlier_one() {
    let mut data = data_of(&[size_chunk(2, 2, 2), xyzi_chunk(&[[1, 1, 1, 5], [1, 1, 1, 9]])]);
    let grid = data.as_palette_indices();
    // (1, 1, 1) goes to (1, 0, 1): 1 * 2 * 2 + 0 + 1
    assert_eq!(grid[5], 9);
}

#[test]
fn rgba_bytes_hold_each_color_high_byte_first() {
    let mut colors = vec![0u8; 1024];
    // file entry 0 becomes palette entry 1
    colors[0..4].copy_from_slice(&[0x11, 0x22, 0x33, 0x44]);
    let mut data = data_of(&[size_chunk(2, 2, 2), xyzi_chunk(&[[1, 0, 1, 1]]), chunk(b"RGBA", &colors, &[])]);
    assert!(data.grid_fits_memory(4));
    let bytes = data.as_rgba_bytes();
    assert_eq!(bytes.len(), 32);
    // (1, 0, 1) goes to (1, 0, 0): index 1, bytes 4..8
    assert_eq!(&bytes[4..8], &[0x11, 0x22, 0x33, 0x44]);
    assert_eq!(bytes.iter().filter(|&&b| b != 0).count(), 4);
    assert!(data.as_rgba_bytes().iter().all(|&b| b == 0));
}

#[test]
fn huge_grids_do_not_fit_in_memory() {
    let data = data_of(&[size_chunk(0xFFFF_FFFF, 0xFFFF_FFFF, 0xFFFF_FFFF), xyzi_chunk(&[])]);
    assert!(!data.grid_fits_memory(1));
    let data = data_of(&[size_chunk(4, 4, 4), xyzi_chunk(&[])]);
    assert!(data.grid_fits_memory(255));
    assert!(data.voxels_fit_grid());
}

#[test]
fn rgba_bytes_are_the_colors_of_the_palette_indices() {
    let voxels = [[0, 0, 0, 3], [1, 2, 1, 200], [2, 1, 3, 17], [2, 1, 3, 41]];
    let children = [size_chunk(3, 3, 4), xyzi_chunk(&voxels)];
    let mut indices_data = data_of(&children);
    let mut colors_data = data_of(&children);
    let palette = data_of(&children).color_palette();
    let indices = indices_data.as_palette_indices();
    let colors = colors_data.as_rgba_bytes();
    assert_eq!(colors.len(), 4 * indices.len());
    for (k, &i) in indices.iter().enumerate() {
        let expected = if i == 0 { [0; 4] } else { palette[i as usize].to_be_bytes() };
        assert_eq!(&colors[4 * k..4 * k + 4], &expected);
    }
}
