use lvp::command::{channel_distance, put_pixel_command, BINARY_COMMAND_LENGTH};
use lvp::frame::{size_command, CanvasSizeError, Dimensions, Frame};

fn frame(data: Vec<u8>, width: u32, height: u32) -> Frame {
    Frame { data, width, height }
}

#[test]
fn single_pixel_is_sent_in_the_bottom_right_corner() {
    let f = frame(vec![10, 20, 30], 1, 1);
    let mut buffers = vec![Vec::new()];
    let mut cache = vec![255u8; 3];
    f.fill_command_buffers(&mut buffers, &mut cache, &Dimensions::new(2, 2), true);
    assert_eq!(buffers[0], vec![0x50, 0x42, 1, 0, 1, 0, 10, 20, 30, 255]);
    assert_eq!(cache, vec![10, 20, 30]);
}

#[test]
fn unchanged_pixel_is_not_sent() {
    let f = frame(vec![10, 20, 20], 1, 1);
    let mut buffers = vec![vec![1, 2, 3]];
    let mut cache = vec![12, 25, 21];
    f.fill_command_buffers(&mut buffers, &mut cache, &Dimensions::new(1, 1), true);
    // distance 2 + 5 + 1 = 8 < 15: the buffer is cleared and nothing is sent
    assert!(buffers[0].is_empty());
    assert_eq!(cache, vec![12, 25, 21]);
}

#[test]
fn each_channel_is_measured_against_its_own() {
    // pixel 0 equals its cached value; pixel 1 differs by 200 in blue
    let f = frame(vec![0, 0, 100, 0, 0, 200], 2, 1);
    let mut buffers = vec![Vec::new()];
    let mut cache = vec![0, 0, 100, 0, 0, 0];
    f.fill_command_buffers(&mut buffers, &mut cache, &Dimensions::new(2, 1), true);
    assert_eq!(buffers, vec![vec![0x50, 0x42, 1, 0, 0, 0, 0, 0, 200, 255]]);
    assert_eq!(cache, vec![0, 0, 100, 0, 0, 200]);
}

#[test]
fn unchanged_pixel_with_distinct_green_and_blue_is_not_resent() {
    let f = frame(vec![0, 100, 0], 1, 1);
    let mut buffers = vec![vec![5]];
    let mut cache = vec![0, 100, 0];
    f.fill_command_buffers(&mut buffers, &mut cache, &Dimensions::new(1, 1), true);
    assert!(buffers[0].is_empty());
    assert_eq!(cache, vec![0, 100, 0]);
}

#[test]
fn rows_are_split_between_streams() {
    // 1 pixel wide, 3 rows, 2 streams: 2 rows then 1 row
    let f = frame(vec![10, 10, 10, 20, 20, 20, 30, 30, 30], 1, 3);
    let mut buffers = vec![vec![9], vec![9], vec![9]];
    let mut cache = vec![255u8; 9];
    f.fill_command_buffers(&mut buffers[..2], &mut cache, &Dimensions::new(4, 5), true);
    assert_eq!(
        buffers[0],
        vec![0x50, 0x42, 3, 0, 2, 0, 10, 10, 10, 255, 0x50, 0x42, 3, 0, 3, 0, 20, 20, 20, 255]
    );
    assert_eq!(buffers[1], vec![0x50, 0x42, 3, 0, 4, 0, 30, 30, 30, 255]);
    assert_eq!(buffers[2], vec![9]);
    assert_eq!(cache, vec![10, 10, 10, 20, 20, 20, 30, 30, 30]);
}

#[test]
fn streams_past_the_data_are_emptied() {
    // 2x2 frame but only the first row of data: stream 1 gets nothing and ends empty
    let f = frame(vec![1, 1, 1, 2, 2, 2], 2, 2);
    let mut buffers = vec![vec![7], vec![8]];
    let mut cache = vec![255u8; 12];
    f.fill_command_buffers(&mut buffers, &mut cache, &Dimensions::new(2, 2), true);
    assert_eq!(
        buffers[0],
        vec![0x50, 0x42, 0, 0, 0, 0, 1, 1, 1, 255, 0x50, 0x42, 1, 0, 0, 0, 2, 2, 2, 255]
    );
    assert!(buffers[1].is_empty());
    assert_eq!(&cache[..6], &[1, 1, 1, 2, 2, 2]);
    assert_eq!(&cache[6..], &[255u8; 6]);
}

#[test]
fn stream_without_rows_ends_empty() {
    let f = frame(vec![0, 0, 0], 1, 1);
    let mut buffers = vec![vec![], vec![7, 7]];
    let mut cache = vec![255u8; 3];
    f.fill_command_buffers(&mut buffers, &mut cache, &Dimensions::new(1, 1), true);
    assert_eq!(buffers, vec![vec![0x50, 0x42, 0, 0, 0, 0, 0, 0, 0, 255], vec![]]);
    assert_eq!(cache, vec![0, 0, 0]);
}

#[test]
fn huge_frame_without_data_is_accepted() {
    let big = 1_000_000_000u32;
    let f = frame(vec![], big, big);
    let canvas = Dimensions::new(big, big);
    assert!(f.fits_on(&canvas, 1, 0, true));
    let mut buffers = vec![vec![1, 2]];
    let mut cache: Vec<u8> = vec![];
    f.fill_command_buffers(&mut buffers, &mut cache, &canvas, true);
    assert!(buffers[0].is_empty());
    // a stream's share of a 4e9 x 4e9 frame is more bytes than a usize counts
    let huge = 4_000_000_000u32;
    assert!(!frame(vec![], huge, huge).fits_on(&Dimensions::new(huge, huge), 1, 0, true));
}

#[test]
fn partial_rows_are_not_drawn() {
    // the cache holds one row and a half: only the first row is drawn
    let f = frame(vec![1, 1, 1, 2, 2, 2, 3, 3, 3, 4, 4, 4], 2, 2);
    let mut buffers = vec![Vec::new()];
    let mut cache = vec![255u8; 9];
    f.fill_command_buffers(&mut buffers, &mut cache, &Dimensions::new(2, 2), true);
    assert_eq!(buffers[0].len(), 2 * BINARY_COMMAND_LENGTH);
    assert_eq!(cache, vec![1, 1, 1, 2, 2, 2, 255, 255, 255]);
}

#[test]
fn coordinates_wrap_at_sixteen_bits() {
    let f = frame(vec![50, 50, 50], 1, 1);
    let mut buffers = vec![Vec::new()];
    let mut cache = vec![255u8; 3];
    f.fill_command_buffers(&mut buffers, &mut cache, &Dimensions::new(70000, 65537), true);
    // x = 69999 mod 65536 = 4463 = 0x116f, y = 65536 mod 65536 = 0
    assert_eq!(buffers[0], vec![0x50, 0x42, 0x6f, 0x11, 0, 0, 50, 50, 50, 255]);
}

#[test]
fn redrawn_frame_sends_nothing() {
    let data = vec![10, 20, 30, 40, 50, 60, 70, 80, 90, 100, 110, 120];
    let f = frame(data.clone(), 2, 2);
    let mut buffers = vec![Vec::new(), Vec::new()];
    let mut cache = vec![255u8; 12];
    let canvas = Dimensions::new(10, 10);
    f.fill_command_buffers(&mut buffers, &mut cache, &canvas, true);
    assert_eq!(buffers[0].len() + buffers[1].len(), 4 * BINARY_COMMAND_LENGTH);
    let after_first = cache.clone();
    f.fill_command_buffers(&mut buffers, &mut cache, &canvas, true);
    assert!(buffers.iter().all(|b| b.is_empty()));
    assert_eq!(cache, after_first);
}

#[test]
fn streams_carry_whole_commands() {
    let data: Vec<u8> = (0..60u32).map(|v| (v * 37 % 251) as u8).collect();
    let f = frame(data, 4, 5);
    let mut buffers = vec![Vec::new(), Vec::new(), Vec::new()];
    let mut cache = vec![0u8; 60];
    f.fill_command_buffers(&mut buffers, &mut cache, &Dimensions::new(8, 8), true);
    for b in &buffers {
        assert_eq!(b.len() % BINARY_COMMAND_LENGTH, 0);
    }
}

#[test]
fn fits_on_checks_the_frame() {
    let canvas = Dimensions::new(4, 4);
    assert!(frame(vec![], 4, 4).fits_on(&canvas, 3, 48, true));
    assert!(!frame(vec![], 4, 4).fits_on(&canvas, 0, 48, true));
    assert!(!frame(vec![], 0, 4).fits_on(&canvas, 1, 48, true));
    assert!(!frame(vec![], 4, 0).fits_on(&canvas, 1, 48, true));
    assert!(!frame(vec![], 5, 4).fits_on(&canvas, 1, 48, true));
    assert!(!frame(vec![], 4, 5).fits_on(&canvas, 1, 48, true));
}

#[test]
fn pixel_command_layout() {
    let mut buf = vec![0xaa];
    put_pixel_command(&mut buf, 0x0102, 0x0304, 5, 6, 7);
    assert_eq!(buf, vec![0xaa, 0x50, 0x42, 0x02, 0x01, 0x04, 0x03, 5, 6, 7, 255]);
    assert_eq!(&buf[1..3], b"PB");
}

#[test]
fn channel_distance_is_symmetric() {
    assert_eq!(channel_distance(10, 250), 240);
    assert_eq!(channel_distance(250, 10), 240);
    assert_eq!(channel_distance(7, 7), 0);
}

#[test]
fn size_response_is_parsed() {
    let d = Dimensions::from_size_response(b"SIZE 1920 1080").unwrap();
    assert_eq!((d.width(), d.height()), (1920, 1080));
    let d = Dimensions::from_size_response(b"SIZE +640 0360").unwrap();
    assert_eq!((d.width(), d.height()), (640, 360));
}

#[test]
fn malformed_size_response_is_a_parse_error() {
    assert_eq!(Dimensions::from_size_response(b"SIZE 19x0 1080"), Err(CanvasSizeError::Parse));
    assert_eq!(Dimensions::from_size_response(b"SIZE 1920 -108"), Err(CanvasSizeError::Parse));
    assert_eq!(Dimensions::from_size_response(b"SIZE  640 1080"), Err(CanvasSizeError::Parse));
    assert_eq!(Dimensions::from_size_response(b"SIZE 1920 10\xff0"), Err(CanvasSizeError::Parse));
}

#[test]
fn size_command_is_size_newline() {
    assert_eq!(&size_command(), b"SIZE\n");
}

#[test]
fn dimensions_from_pair() {
    let d = Dimensions::from((640u32, 360u32));
    assert_eq!((d.width(), d.height()), (640, 360));
    assert_eq!(d, Dimensions::new(640, 360));
}

#[test]
fn new_empty_frame() {
    let f = Frame::new_empty(640, 360);
    assert!(f.data.is_empty());
    assert!(f.data.capacity() >= 640 * 360 * 3);
    assert_eq!((f.width, f.height), (640, 360));
}

#[test]
fn load_picture_replaces_the_pixels_quantized() {
    let mut f = Frame::new_empty(2, 1);
    f.load_picture(&[11, 22, 33, 44, 55, 255], 2, 1);
    assert_eq!(f.data, vec![10, 20, 30, 40, 50, 250]);
    f.load_picture(&[99, 9, 100], 1, 1);
    assert_eq!(f.data, vec![90, 0, 100]);
    assert_eq!((f.width, f.height), (1, 1));
}

#[test]
fn text_mode_sends_px_lines() {
    let f = frame(vec![10, 20, 30, 255, 0, 171], 2, 1);
    let mut buffers = vec![Vec::new()];
    let mut cache = vec![0u8; 6];
    f.fill_command_buffers(&mut buffers, &mut cache, &Dimensions::new(12345, 7), false);
    assert_eq!(
        String::from_utf8(buffers[0].clone()).unwrap(),
        "PX 12343 6 0a141e\nPX 12344 6 ff00ab\n"
    );
    assert_eq!(cache, vec![10, 20, 30, 255, 0, 171]);
}

#[test]
fn text_mode_caches_like_binary_mode() {
    let f = frame(vec![10, 20, 30], 1, 1);
    let mut buffers = vec![Vec::new()];
    let mut cache = vec![12u8, 21, 30];
    f.fill_command_buffers(&mut buffers, &mut cache, &Dimensions::new(1, 1), false);
    assert!(buffers[0].is_empty());
    let mut cache = vec![255u8; 3];
    f.fill_command_buffers(&mut buffers, &mut cache, &Dimensions::new(70000, 1), false);
    // x = 69999 mod 65536 = 4463
    assert_eq!(buffers[0], b"PX 4463 0 0a141e\n".to_vec());
}

#[test]
fn text_streams_end_with_newline() {
    let data: Vec<u8> = (0..60u32).map(|v| (v * 37 % 251) as u8).collect();
    let f = frame(data, 4, 5);
    let mut buffers = vec![Vec::new(), Vec::new(), Vec::new()];
    let mut cache = vec![0u8; 60];
    f.fill_command_buffers(&mut buffers, &mut cache, &Dimensions::new(100, 100), false);
    for b in &buffers {
        assert!(b.is_empty() || b.last() == Some(&b'\n'));
        assert!(b.starts_with(b"PX ") || b.is_empty());
    }
}
