use frame_engine::font::draw_text;

const W: u32 = 20;
const H: u32 = 12;

fn lit_count(buffer: &[u32], color: u32) -> usize {
    buffer.iter().filter(|&&p| p == color).count()
}

#[test]
fn glyph_one_lights_its_pixels() {
    let mut buffer = vec![0u32; (W * H) as usize];
    draw_text(&mut buffer, W, H, 0, 0, "1", 1, 9);
    // the top row of '1' is 0b00100: only column 2 is lit.
    assert_eq!(buffer[2], 9);
    assert_eq!(buffer[1], 0);
    assert_eq!(buffer[3], 0);
    // 1 + 2 + 1 + 1 + 1 + 1 + 3 lit font pixels.
    assert_eq!(lit_count(&buffer, 9), 10);
}

#[test]
fn scale_makes_blocks() {
    let mut buffer = vec![0u32; (W * 16) as usize];
    draw_text(&mut buffer, W, 16, 0, 0, "1", 2, 5);
    assert_eq!(lit_count(&buffer, 5), 40);
    // in a 12-row screen only the top six font rows (7 pixels) fit.
    let mut short = vec![0u32; (W * H) as usize];
    draw_text(&mut short, W, H, 0, 0, "1", 2, 5);
    assert_eq!(lit_count(&short, 5), 28);
    assert_eq!(buffer[4], 5);
    assert_eq!(buffer[5], 5);
    assert_eq!(buffer[(W + 4) as usize], 5);
    assert_eq!(buffer[6], 0);
}

#[test]
fn unknown_characters_and_space_are_blank() {
    let mut buffer = vec![3u32; (W * H) as usize];
    draw_text(&mut buffer, W, H, 0, 0, " ?x", 1, 8);
    assert_eq!(lit_count(&buffer, 8), 0);
}

#[test]
fn characters_advance_and_newline_returns() {
    let mut buffer = vec![0u32; (W * H) as usize];
    // the second '1' starts 6 columns right; its top pixel is at column 8.
    draw_text(&mut buffer, W, H, 0, 0, "11", 1, 1);
    assert_eq!(buffer[8], 1);
    let mut lines = vec![0u32; (W * 20) as usize];
    // after '\n' the next glyph starts 8 rows down, back at column 0.
    draw_text(&mut lines, W, 20, 0, 0, "-\n1", 1, 1);
    assert_eq!(lines[(8 * W + 2) as usize], 1);
    assert_eq!(lines[(3 * W + 1) as usize], 1);
}

#[test]
fn drawing_is_clipped_to_the_screen() {
    let mut buffer = vec![0u32; (W * H) as usize];
    draw_text(&mut buffer, W, H, -2, -3, "8", 1, 4);
    // rows 3..7 and columns 2..5 of '8' land on screen.
    assert!(lit_count(&buffer, 4) > 0);
    assert!(lit_count(&buffer, 4) < 17);
    let mut far = vec![0u32; (W * H) as usize];
    draw_text(&mut far, W, H, 100, 100, "8", 1, 4);
    assert_eq!(lit_count(&far, 4), 0);
    let mut none = vec![0u32; (W * H) as usize];
    draw_text(&mut none, W, H, 0, 0, "8", 0, 4);
    assert_eq!(lit_count(&none, 4), 0);
}

#[test]
fn drawing_twice_is_drawing_once() {
    let mut once = vec![0u32; (W * H) as usize];
    draw_text(&mut once, W, H, 1, 1, "E.5", 1, 6);
    let mut twice = once.clone();
    draw_text(&mut twice, W, H, 1, 1, "E.5", 1, 6);
    assert_eq!(once, twice);
}

#[test]
fn text_is_the_union_of_its_characters() {
    let mut whole = vec![0u32; 30 * 30];
    draw_text(&mut whole, 30, 30, 1, 2, "1 2\n3", 1, 9);
    let mut parts = vec![0u32; 30 * 30];
    draw_text(&mut parts, 30, 30, 1, 2, "1", 1, 9);
    draw_text(&mut parts, 30, 30, 1 + 12, 2, "2", 1, 9);
    draw_text(&mut parts, 30, 30, 1, 2 + 8, "3", 1, 9);
    assert_eq!(whole, parts);
    let mut blank = vec![0u32; 30 * 30];
    draw_text(&mut blank, 30, 30, 1, 2, " \n ", 1, 9);
    assert!(blank.iter().all(|&p| p == 0));
}
