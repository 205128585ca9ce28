use elevator::render::render_frame;

#[test]
fn frame_shows_shaft_with_cabin_marker() {
    let frame = render_frame(8, 3, 2, 0, &vec![]);
    let expected: Vec<u8> = b"[ ]   \r\n[X]   \r\n        ".to_vec();
    assert_eq!(frame, expected);
}

#[test]
fn frame_marks_top_floor_on_first_row() {
    let frame = render_frame(8, 2, 2, 1, &vec![]);
    assert_eq!(frame, b"[X]   \r\n[ ]   \r\n".to_vec());
}

#[test]
fn frame_overlays_panel_lines() {
    let panel = vec![b"ab".to_vec(), b"".to_vec(), b"cd".to_vec()];
    let frame = render_frame(10, 3, 1, 0, &panel);
    assert_eq!(frame, b"[X]   ab\r\n                cd  ".to_vec());
}

#[test]
fn narrow_frame_keeps_line_ends() {
    assert_eq!(render_frame(3, 1, 1, 0, &vec![]), b"[\r\n".to_vec());
    assert_eq!(render_frame(4, 1, 1, 0, &vec![]), b"[X\r\n".to_vec());
}
