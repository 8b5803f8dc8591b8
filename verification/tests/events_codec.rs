//! Progress event sequences and the image decode/encode boundary.

use quilter::{
    decode_tile, encode_quilt, progress_sequence, QuiltError, QuiltJob, QuiltStatus,
    QuiltStatusState, Raster,
};

fn in_progress(amount: usize, index: usize) -> QuiltStatus {
    QuiltStatus { amount, index, status: QuiltStatusState::InProgress }
}

#[test]
fn progress_sequence_without_animation() {
    let events = progress_sequence(3, false);
    assert_eq!(
        events,
        vec![
            in_progress(3, 0),
            in_progress(3, 1),
            in_progress(3, 2),
            in_progress(3, 3),
            QuiltStatus { amount: 3, index: 3, status: QuiltStatusState::Finished },
        ]
    );
}

#[test]
fn progress_sequence_with_animation() {
    let events = progress_sequence(1, true);
    assert_eq!(
        events,
        vec![
            in_progress(1, 0),
            in_progress(1, 1),
            QuiltStatus { amount: 1, index: 1, status: QuiltStatusState::Finished },
            QuiltStatus { amount: 1, index: 1, status: QuiltStatusState::CreatingAnimation },
            QuiltStatus { amount: 1, index: 1, status: QuiltStatusState::CreatedAnimation },
        ]
    );
}

#[test]
fn zero_quilt_job_still_reports_start_and_finish() {
    let events = progress_sequence(0, false);
    assert_eq!(
        events,
        vec![
            in_progress(0, 0),
            QuiltStatus { amount: 0, index: 0, status: QuiltStatusState::Finished },
        ]
    );
}

#[test]
fn job_protocol_emits_the_exact_sequence() {
    let (mut job, start) = QuiltJob::start(2);
    let mut events = vec![start];
    events.push(job.complete_one());
    events.push(job.complete_one());
    events.push(job.finish());
    events.push(job.creating_animation());
    events.push(job.created_animation());
    assert_eq!(events, progress_sequence(2, true));
}

#[test]
fn failed_event_carries_progress_so_far() {
    let (mut job, _) = QuiltJob::start(5);
    job.complete_one();
    let ev = job.failed();
    assert_eq!(ev, QuiltStatus { amount: 5, index: 1, status: QuiltStatusState::Failed });
}

#[test]
fn png_round_trip_preserves_pixels() {
    // 2x2 raster with distinct channel values in every pixel
    let pixels: Vec<u8> = (0u8..16).collect();
    let raster = Raster::from_pixels(2, 2, pixels.clone()).unwrap();
    let bytes = encode_quilt(&raster).unwrap();
    // a real PNG stream, not the raw samples handed back
    assert_eq!(&bytes[0..8], &[137, 80, 78, 71, 13, 10, 26, 10]);
    let back = decode_tile(&bytes).unwrap();
    assert_eq!(back.width, 2);
    assert_eq!(back.height, 2);
    assert_eq!(back.pixels, pixels);
}

#[test]
fn decodes_bmp_tiles_as_well() {
    // a minimal 1x1 24-bit BMP: one pixel, B=30 G=20 R=10
    let bmp: Vec<u8> = vec![
        0x42, 0x4D, // "BM"
        58, 0, 0, 0, // file size
        0, 0, 0, 0, // reserved
        54, 0, 0, 0, // pixel data offset
        40, 0, 0, 0, // DIB header size
        1, 0, 0, 0, // width
        1, 0, 0, 0, // height
        1, 0, // planes
        24, 0, // bits per pixel
        0, 0, 0, 0, // no compression
        4, 0, 0, 0, // pixel data size
        0, 0, 0, 0, // x pixels per metre
        0, 0, 0, 0, // y pixels per metre
        0, 0, 0, 0, // colors used
        0, 0, 0, 0, // important colors
        30, 20, 10, 0, // BGR pixel + row padding
    ];
    let tile = decode_tile(&bmp).unwrap();
    assert_eq!(tile.width, 1);
    assert_eq!(tile.height, 1);
    assert_eq!(tile.pixels, vec![10, 20, 30, 255]);
}

#[test]
fn undecodable_bytes_are_a_decode_error() {
    let junk = b"not an image at all".to_vec();
    assert_eq!(decode_tile(&junk).err(), Some(QuiltError::TileDecode));
}
