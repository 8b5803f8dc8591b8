//! Quilt layouts, compositing, the vertical flip, and output naming.

use quilter::{compose_quilt, plan_quilts, quilt_file_name, QuiltError, Raster};

fn names(list: &[&str]) -> Vec<Vec<u8>> {
    list.iter().map(|s| s.as_bytes().to_vec()).collect()
}

/// A 2x2 tile whose every sample is `v`.
fn flat_tile(v: u8) -> Raster {
    Raster::from_pixels(2, 2, vec![v; 16]).unwrap()
}

#[test]
fn quilt_count_is_floor_of_matched_over_size() {
    // 10 matched files, 2x2 grid: 2 quilts, 2 files unused
    let listing = names(&[
        "f_v0.png", "f_v1.png", "f_v2.png", "f_v3.png", "f_v4.png", "f_v5.png", "f_v6.png",
        "f_v7.png", "f_v8.png", "f_v9.png",
    ]);
    let plan = plan_quilts(listing, 2, 2);
    assert_eq!(plan.quilt_count(), 2);
    assert_eq!(plan.quilt_size(), 4);
}

#[test]
fn plan_filters_and_sorts() {
    let listing = names(&["b_v2.png", "junk.txt", "a_v1.png", "c_v3.png", "more.db"]);
    let plan = plan_quilts(listing, 3, 1);
    assert_eq!(
        plan.names,
        names(&["a_v1.png", "b_v2.png", "c_v3.png"])
    );
    assert_eq!(plan.quilt_count(), 1);
}

#[test]
fn layouts_fill_row_major_from_sorted_names() {
    let listing = names(&[
        "d_v4.png", "a_v1.png", "c_v3.png", "b_v2.png", "f_v6.png", "e_v5.png", "g_v7.png",
        "h_v8.png",
    ]);
    let plan = plan_quilts(listing, 2, 2);
    assert_eq!(plan.quilt_count(), 2);
    // quilt 0, row-major
    assert_eq!(plan.tile_name(0, 0, 0), &b"a_v1.png".to_vec());
    assert_eq!(plan.tile_name(0, 0, 1), &b"b_v2.png".to_vec());
    assert_eq!(plan.tile_name(0, 1, 0), &b"c_v3.png".to_vec());
    assert_eq!(plan.tile_name(0, 1, 1), &b"d_v4.png".to_vec());
    // quilt 1 continues where quilt 0 stopped
    assert_eq!(plan.tile_name(1, 0, 0), &b"e_v5.png".to_vec());
    assert_eq!(plan.tile_name(1, 1, 1), &b"h_v8.png".to_vec());
}

#[test]
fn composed_quilt_has_grid_dimensions() {
    let tiles: Vec<Raster> = (0u8..6).map(flat_tile).collect();
    let quilt = compose_quilt(&tiles, 3, 2).unwrap();
    assert_eq!(quilt.width, 2 * 3);
    assert_eq!(quilt.height, 2 * 2);
}

#[test]
fn first_tile_lands_at_bottom_left() {
    // four 2x2 tiles with distinct values; layout row 0 must land at the
    // bottom of the quilt, so tile 0's pixel (0,0) shows at (0, height-1)
    let tiles: Vec<Raster> = (10u8..14).map(flat_tile).collect();
    let quilt = compose_quilt(&tiles, 2, 2).unwrap();
    for c in 0..4 {
        assert_eq!(quilt.get_chan(0, quilt.height - 1, c), 10);
        // and the top-left belongs to layout row 1 (tile index 2)
        assert_eq!(quilt.get_chan(0, 0, c), 12);
        // bottom-right: layout row 0, column 1 (tile index 1)
        assert_eq!(quilt.get_chan(quilt.width - 1, quilt.height - 1, c), 11);
    }
}

#[test]
fn whole_bands_are_flipped_not_pixel_rows() {
    // one 1x2 tile: pixel (0,0)=1, pixel (0,1)=2; a single-tile quilt keeps
    // the tile's own orientation upside down after the whole-image flip
    let tile = Raster::from_pixels(1, 2, vec![1, 1, 1, 1, 2, 2, 2, 2]).unwrap();
    let quilt = compose_quilt(&vec![tile], 1, 1).unwrap();
    assert_eq!(quilt.get_chan(0, 1, 0), 1); // tile row 0 at the bottom
    assert_eq!(quilt.get_chan(0, 0, 0), 2); // tile row 1 on top
}

#[test]
fn mismatched_tile_size_is_fatal() {
    let tiles = vec![
        flat_tile(1),
        Raster::from_pixels(3, 2, vec![0; 24]).unwrap(),
    ];
    assert_eq!(compose_quilt(&tiles, 2, 1).err(), Some(QuiltError::TileSizeMismatch));
}

#[test]
fn raster_rejects_wrong_buffer_length() {
    assert!(Raster::from_pixels(2, 2, vec![0; 15]).is_none());
    assert!(Raster::from_pixels(2, 2, vec![0; 16]).is_some());
}

#[test]
fn quilt_files_are_numbered_sequentially() {
    assert_eq!(quilt_file_name(0), b"0.png".to_vec());
    assert_eq!(quilt_file_name(7), b"7.png".to_vec());
    assert_eq!(quilt_file_name(120), b"120.png".to_vec());
}

#[test]
fn end_to_end_two_folders_two_quilts() {
    // 2 source folders, 100 views: folder A holds views 0-49, folder B
    // holds 50-99; sorting consolidates all 100, a 10x5 grid yields 2 quilts
    let folder_a: Vec<Vec<u8>> = (0..50)
        .map(|i| format!("a_v{:03}.png", i).into_bytes())
        .collect();
    let folder_b: Vec<Vec<u8>> = (50..100)
        .map(|i| format!("b_v{:03}.png", i).into_bytes())
        .collect();
    let plan = quilter::sort_plan(vec![folder_a, folder_b], 100);
    let mut consolidated: Vec<Vec<u8>> = Vec::new();
    for contribution in plan {
        consolidated.extend(contribution);
    }
    assert_eq!(consolidated.len(), 100);
    let mut unique = consolidated.clone();
    unique.sort();
    unique.dedup();
    assert_eq!(unique.len(), 100);

    let quilt_plan = plan_quilts(consolidated, 10, 5);
    assert_eq!(quilt_plan.quilt_count(), 2);
    // compose both quilts from 2x3 tiles: each quilt is 20 x 15
    for _q in 0..2 {
        let tiles: Vec<Raster> = (0..50)
            .map(|i| Raster::from_pixels(2, 3, vec![i as u8; 24]).unwrap())
            .collect();
        let quilt = compose_quilt(&tiles, 10, 5).unwrap();
        assert_eq!(quilt.width, 2 * 10);
        assert_eq!(quilt.height, 3 * 5);
    }
}
