use face_auth::extractor::{
    extract_all_jpegs, extract_next_jpeg, find_frame_boundary, find_jpeg_end, find_jpeg_start,
    FrameBoundary,
};

fn extractor_frame(body: &[u8]) -> Vec<u8> {
    let mut frame = vec![0xFF, 0xD8];
    frame.extend_from_slice(body);
    frame.extend_from_slice(&[0xFF, 0xD9]);
    frame
}

#[test]
fn start_marker_is_found_at_the_head() {
    assert_eq!(find_jpeg_start(&[0xFF, 0xD8, 0x01, 0x02]), Some(0));
}

#[test]
fn start_marker_is_found_behind_other_bytes() {
    assert_eq!(find_jpeg_start(&[0x00, 0xFF, 0x00, 0xFF, 0xD8, 0x07]), Some(3));
}

#[test]
fn first_of_two_start_markers_wins() {
    assert_eq!(find_jpeg_start(&[0x01, 0xFF, 0xD8, 0xFF, 0xD8]), Some(1));
}

#[test]
fn start_marker_is_missing() {
    assert_eq!(find_jpeg_start(&[]), None);
    assert_eq!(find_jpeg_start(&[0xFF]), None);
    assert_eq!(find_jpeg_start(&[0xD8, 0xFF]), None);
    assert_eq!(find_jpeg_start(&[0xFF, 0xD9, 0x00, 0xD8]), None);
}

#[test]
fn end_marker_is_reported_by_its_last_byte() {
    assert_eq!(find_jpeg_end(&[0xFF, 0xD8, 0xFF, 0xD9], 0), Some(3));
    assert_eq!(find_jpeg_end(&[0xFF, 0xD8, 0x11, 0x22, 0xFF, 0xD9, 0x33], 0), Some(5));
}

#[test]
fn end_marker_is_sought_two_bytes_behind_the_start() {
    // The marker at offset 1 begins too early to count.
    assert_eq!(find_jpeg_end(&[0x00, 0xFF, 0xD9, 0xFF, 0xD9], 0), Some(4));
    assert_eq!(find_jpeg_end(&[0x00, 0xFF, 0xD9], 0), None);
}

#[test]
fn end_marker_is_missing() {
    assert_eq!(find_jpeg_end(&[0xFF, 0xD8], 0), None);
    assert_eq!(find_jpeg_end(&[0xFF, 0xD8, 0xFF], 0), None);
    assert_eq!(find_jpeg_end(&[0xFF, 0xD8, 0x01, 0x02, 0x03], 0), None);
    assert_eq!(find_jpeg_end(&[], 0), None);
}

#[test]
fn end_marker_search_survives_a_start_beyond_the_buffer() {
    assert_eq!(find_jpeg_end(&[0xFF, 0xD9], 7), None);
    assert_eq!(find_jpeg_end(&[0xFF, 0xD9], usize::MAX), None);
    assert_eq!(find_jpeg_end(&[0xFF, 0xD9], usize::MAX - 1), None);
}

#[test]
fn boundary_of_the_smallest_frame() {
    assert_eq!(
        find_frame_boundary(&[0xFF, 0xD8, 0xFF, 0xD9]),
        Some(FrameBoundary { start: 0, end: 3 })
    );
}

#[test]
fn boundary_skips_garbage() {
    assert_eq!(
        find_frame_boundary(&[0x09, 0x08, 0xFF, 0xD8, 0x55, 0xFF, 0xD9, 0x01]),
        Some(FrameBoundary { start: 2, end: 6 })
    );
}

#[test]
fn boundary_needs_both_markers() {
    assert_eq!(find_frame_boundary(&[0xFF, 0xD8, 0x55, 0x66]), None);
    assert_eq!(find_frame_boundary(&[0x55, 0x66, 0xFF, 0xD9]), None);
    // An end marker in front of the start marker does not count.
    assert_eq!(find_frame_boundary(&[0xFF, 0xD9, 0xFF, 0xD8, 0x00]), None);
}

#[test]
fn whole_frame_is_extracted_and_the_buffer_emptied() {
    let frame = extractor_frame(&[1, 2, 3]);
    let mut buffer = frame.clone();
    assert_eq!(extract_next_jpeg(&mut buffer), Some(frame));
    assert!(buffer.is_empty());
}

#[test]
fn garbage_only_never_yields_a_frame() {
    let mut buffer = vec![0x00, 0x11, 0xFF, 0x00, 0xD8, 0xD9, 0xFF];
    let before = buffer.clone();
    assert_eq!(extract_next_jpeg(&mut buffer), None);
    assert_eq!(buffer, before);
    assert!(extract_all_jpegs(&mut buffer).is_empty());
    assert_eq!(buffer, before);
}

#[test]
fn partial_frame_is_kept_until_its_end_arrives() {
    let mut buffer = vec![0xFF, 0xD8, 0x10, 0x20, 0x30];
    let before = buffer.clone();
    assert_eq!(extract_next_jpeg(&mut buffer), None);
    assert_eq!(buffer, before);

    buffer.extend_from_slice(&[0xFF, 0xD9]);
    assert_eq!(
        extract_next_jpeg(&mut buffer),
        Some(vec![0xFF, 0xD8, 0x10, 0x20, 0x30, 0xFF, 0xD9])
    );
    assert!(buffer.is_empty());
    assert_eq!(extract_next_jpeg(&mut buffer), None);
}

#[test]
fn partial_frame_behind_garbage_keeps_the_garbage_too() {
    let mut buffer = vec![0x01, 0x02, 0xFF, 0xD8, 0x10];
    let before = buffer.clone();
    assert_eq!(extract_next_jpeg(&mut buffer), None);
    assert_eq!(buffer, before);
    buffer.extend_from_slice(&[0xFF, 0xD9]);
    assert_eq!(extract_all_jpegs(&mut buffer), vec![vec![0xFF, 0xD8, 0x10, 0xFF, 0xD9]]);
    assert!(buffer.is_empty());
}

#[test]
fn end_marker_split_over_two_chunks() {
    let mut buffer = vec![0xFF, 0xD8, 0x42, 0xFF];
    assert_eq!(extract_next_jpeg(&mut buffer), None);
    buffer.push(0xD9);
    assert_eq!(extract_next_jpeg(&mut buffer), Some(vec![0xFF, 0xD8, 0x42, 0xFF, 0xD9]));
    assert!(buffer.is_empty());
}

#[test]
fn leading_garbage_is_discarded_with_the_frame() {
    let frame = extractor_frame(&[0xAA, 0xBB]);
    let mut buffer = vec![0x00, 0xFF, 0x13, 0x37, 0xFF];
    buffer.extend_from_slice(&frame);
    buffer.extend_from_slice(&[0x77, 0x88]);
    assert_eq!(extract_next_jpeg(&mut buffer), Some(frame));
    assert_eq!(buffer, vec![0x77, 0x88]);
}

#[test]
fn two_adjacent_frames_come_out_one_by_one() {
    let first = extractor_frame(&[1]);
    let second = extractor_frame(&[2, 2]);
    let mut buffer = first.clone();
    buffer.extend_from_slice(&second);
    assert_eq!(extract_next_jpeg(&mut buffer), Some(first));
    assert_eq!(buffer, second);
    assert_eq!(extract_next_jpeg(&mut buffer), Some(second));
    assert!(buffer.is_empty());
    assert_eq!(extract_next_jpeg(&mut buffer), None);
}

#[test]
fn back_to_back_frames_are_all_extracted_in_order() {
    let frames: Vec<Vec<u8>> = (0u8..7).map(|i| extractor_frame(&vec![i; i as usize])).collect();
    let mut buffer: Vec<u8> = frames.iter().flatten().copied().collect();
    assert_eq!(extract_all_jpegs(&mut buffer), frames);
    assert!(buffer.is_empty());
}

#[test]
fn no_frames_in_an_empty_buffer() {
    let mut buffer: Vec<u8> = Vec::new();
    assert!(extract_all_jpegs(&mut buffer).is_empty());
    assert!(buffer.is_empty());
}

#[test]
fn exhaustion_leaves_the_partial_tail() {
    let first = extractor_frame(&[9, 9, 9]);
    let mut buffer = vec![0x31];
    buffer.extend_from_slice(&first);
    buffer.extend_from_slice(&[0x32, 0xFF, 0xD8, 0x33]);
    assert_eq!(extract_all_jpegs(&mut buffer), vec![first]);
    assert_eq!(buffer, vec![0x32, 0xFF, 0xD8, 0x33]);
}

#[test]
fn a_start_marker_inside_a_frame_belongs_to_it() {
    let mut buffer = vec![0xFF, 0xD8, 0xFF, 0xD8, 0x01, 0xFF, 0xD9];
    assert_eq!(
        extract_next_jpeg(&mut buffer),
        Some(vec![0xFF, 0xD8, 0xFF, 0xD8, 0x01, 0xFF, 0xD9])
    );
    assert!(buffer.is_empty());
}

#[test]
fn the_first_end_marker_ends_the_frame() {
    let mut buffer = vec![0xFF, 0xD8, 0x01, 0xFF, 0xD9, 0x02, 0xFF, 0xD9];
    assert_eq!(extract_next_jpeg(&mut buffer), Some(vec![0xFF, 0xD8, 0x01, 0xFF, 0xD9]));
    assert_eq!(buffer, vec![0x02, 0xFF, 0xD9]);
    assert_eq!(extract_next_jpeg(&mut buffer), None);
    assert_eq!(buffer, vec![0x02, 0xFF, 0xD9]);
}
