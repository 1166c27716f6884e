use customaio::frame::rotate_into;

fn frame(w: usize) -> Vec<u8> {
    (0..w * w * 4).map(|i| (i * 7 % 251) as u8).collect()
}

fn turned(src: &[u8], w: usize, degrees: u32) -> Vec<u8> {
    let mut out = vec![0u8; src.len()];
    rotate_into(src, &mut out, w, degrees);
    out
}

#[test]
fn quarter_turn_is_counter_clockwise() {
    // Pixels 0 1 / 2 3 of a 2x2 frame.
    let p = |n: u8| [n, n + 10, n + 20, 255];
    let src: Vec<u8> = [p(0), p(1), p(2), p(3)].concat();
    assert_eq!(turned(&src, 2, 90), [p(1), p(3), p(0), p(2)].concat());
    assert_eq!(turned(&src, 2, 180), [p(3), p(2), p(1), p(0)].concat());
    assert_eq!(turned(&src, 2, 270), [p(2), p(0), p(3), p(1)].concat());
    assert_eq!(turned(&src, 2, 0), src);
    assert_eq!(turned(&src, 2, 450), turned(&src, 2, 90));
}

#[test]
fn turns_undo_each_other() {
    let src = frame(5);
    assert_eq!(turned(&turned(&src, 5, 90), 5, 270), src);
    assert_eq!(turned(&turned(&src, 5, 270), 5, 90), src);
    assert_eq!(turned(&turned(&src, 5, 180), 5, 180), src);
}
