use flowengine::frame::{padded_bytes_per_row, ppm_snapshot, readback_layout, readback_to_rgba, ReadbackLayout};

#[test]
fn row_pitch_rounds_up_to_alignment() {
    assert_eq!(padded_bytes_per_row(1280, 256), 5120);
    assert_eq!(padded_bytes_per_row(1, 256), 256);
    assert_eq!(padded_bytes_per_row(65, 256), 512);
    assert_eq!(padded_bytes_per_row(0, 256), 0);
    assert_eq!(padded_bytes_per_row(3, 8), 16);
}

#[test]
fn zero_sized_frames_have_no_layout() {
    assert_eq!(readback_layout(0, 720, 256), None);
    assert_eq!(readback_layout(1280, 0, 256), None);
    assert_eq!(
        readback_layout(100, 2, 256),
        Some(ReadbackLayout { padded_bpr: 512, buffer_size: 1024 })
    );
}

#[test]
fn readback_drops_padding_and_keeps_rgba() {
    // 2x2 frame, rows padded to 12 bytes
    let data: Vec<u8> = (0..24).collect();
    let rgba = readback_to_rgba(&data, 2, 2, 12, false);
    assert_eq!(rgba, vec![0, 1, 2, 3, 4, 5, 6, 7, 12, 13, 14, 15, 16, 17, 18, 19]);
}

#[test]
fn readback_swaps_bgra() {
    let data = vec![10u8, 20, 30, 40, 50, 60, 70, 80, 0, 0];
    let rgba = readback_to_rgba(&data, 2, 1, 10, true);
    assert_eq!(rgba, vec![30, 20, 10, 40, 70, 60, 50, 80]);
}

#[test]
fn readback_without_padding_is_the_buffer() {
    let data: Vec<u8> = (0..32).collect();
    assert_eq!(readback_to_rgba(&data, 4, 2, 16, false), data);
}

#[test]
fn ppm_flips_rows_and_drops_alpha() {
    // bottom-up 2x2 RGBA frame
    let rgba = vec![
        1, 2, 3, 99, 4, 5, 6, 99, // bottom row
        7, 8, 9, 99, 10, 11, 12, 99, // top row
    ];
    let ppm = ppm_snapshot(&rgba, 2, 2);
    let mut expected = b"P6\n2 2\n255\n".to_vec();
    expected.extend_from_slice(&[7, 8, 9, 10, 11, 12, 1, 2, 3, 4, 5, 6]);
    assert_eq!(ppm, expected);
}

#[test]
fn ppm_header_spells_the_size() {
    let rgba = vec![0u8; 1280 * 720 * 4];
    let ppm = ppm_snapshot(&rgba, 1280, 720);
    let header = b"P6\n1280 720\n255\n";
    assert_eq!(&ppm[..header.len()], header);
    assert_eq!(ppm.len(), header.len() + 1280 * 720 * 3);
}

#[test]
fn ppm_of_empty_frame_is_just_the_header() {
    assert_eq!(ppm_snapshot(&[], 0, 10), b"P6\n0 10\n255\n".to_vec());
}
