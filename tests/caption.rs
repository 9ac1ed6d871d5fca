use meme_caption::canvas::Canvas;
use meme_caption::caption::{Ink, Meme, Point};

#[test]
fn new_moves_position_inward() {
    let meme = Meme::new("hi", 8, 3, 20);
    assert_eq!(meme.text, "hi");
    assert_eq!(meme.position.x, 10);
    assert_eq!(meme.position.y, 5);
    assert_eq!(meme.size, 20);
}

#[test]
fn second_line_is_one_line_height_down() {
    let meme = Meme::new("two lines", 8, 8, 20);
    let strokes = meme.strokes(2);
    assert_eq!(strokes.len(), 10);
    assert_eq!(strokes[4].y, 10);
    assert_eq!(strokes[9].y, 30);
    assert_eq!(strokes[9].x, 10);
    assert_eq!(strokes[9].line, 1);
}

#[test]
fn outline_passes_come_before_fill() {
    let meme = Meme::new("text", 8, 8, 20);
    let strokes = meme.strokes(3);
    for line in 0..3 {
        let passes = &strokes[5 * line..5 * line + 5];
        let top = 10 + 20 * line as i32;
        let at: Vec<(i32, i32)> = passes.iter().map(|s| (s.x, s.y)).collect();
        assert_eq!(at, vec![(8, top), (12, top), (10, top - 2), (10, top + 2), (10, top)]);
        for pass in &passes[..4] {
            assert_eq!(pass.ink, Ink::Outline);
        }
        assert_eq!(passes[4].ink, Ink::Fill);
        assert!(passes.iter().all(|s| s.line == line));
    }
}

#[test]
fn colours_are_black_and_white() {
    assert_eq!(Ink::Outline.rgba(), [0, 0, 0, 255]);
    assert_eq!(Ink::Fill.rgba(), [255, 255, 255, 255]);
}

#[test]
fn no_lines_no_strokes() {
    let meme = Meme::new("", 0, 0, 10);
    assert!(meme.strokes(0).is_empty());
}

#[test]
fn lines_past_the_coordinate_range_are_dropped() {
    let meme = Meme::new("far down", 0, 1073741814, 10);
    let strokes = meme.strokes(3);
    assert_eq!(strokes.len(), 5);
    assert_eq!(strokes[4].y, 1073741816);
    assert_eq!(strokes[3].y, 1073741818);
    let meme = Meme::new("far right", 1073741821, 0, 10);
    assert!(meme.strokes(3).is_empty());
    let meme = Meme::new("just fits", 1073741820, 0, 10);
    assert_eq!(meme.strokes(1).len(), 5);
}

#[test]
fn zero_size_stacks_lines_in_place() {
    let meme = Meme::new("flat", 0, 0, 0);
    let strokes = meme.strokes(2);
    assert_eq!(strokes.len(), 10);
    assert_eq!(strokes[4].y, strokes[9].y);
}

#[test]
fn caption_without_margin_is_not_drawn() {
    let meme = Meme { text: "edge", position: Point { x: 0, y: 5 }, size: 10 };
    assert!(meme.strokes(2).is_empty());
    let meme = Meme { text: "edge", position: Point { x: 5, y: 1 }, size: 10 };
    assert!(meme.strokes(2).is_empty());
}

#[test]
fn canvas_hands_back_its_image() {
    let canvas = Canvas::new(image::DynamicImage::new_rgba8(7, 3));
    let image = canvas.into_image();
    assert_eq!((image.width(), image.height()), (7, 3));
}
