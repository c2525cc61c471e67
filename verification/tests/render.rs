use carokia::render::{AsciiRenderer, Glyph, Heading, Mark};
use carokia::types::ObjectKind;

fn mark(x: usize, y: usize, glyph: Glyph) -> Mark {
    Mark { x, y, glyph }
}

#[test]
fn render_marks_grid_dimensions() {
    let renderer = AsciiRenderer::new(30, 15);
    let output = renderer.render_marks(&[mark(0, 0, Glyph::Wall), mark(29, 14, Glyph::Robot)]);
    let lines: Vec<&str> = output.lines().collect();
    assert_eq!(lines.len(), 15);
    for line in &lines {
        assert_eq!(line.len(), 30);
    }
    assert!(lines[0].starts_with('#'));
    assert!(lines[14].ends_with('@'));
}

#[test]
fn render_shows_marks_in_order() {
    let renderer = AsciiRenderer::new(4, 2);
    let marks = [
        mark(1, 0, Glyph::Obstacle),
        mark(1, 0, Glyph::LidarHit),
        mark(2, 1, Glyph::LidarHit),
        mark(2, 1, Glyph::Robot),
        mark(9, 9, Glyph::Person),
        mark(3, 1, Glyph::Target),
    ];
    assert_eq!(renderer.render_marks(&marks), " O  \n  @T");
}

#[test]
fn render_empty_grid() {
    assert_eq!(AsciiRenderer::new(3, 2).render_marks(&[]), "   \n   ");
    assert_eq!(AsciiRenderer::new(3, 0).render_marks(&[]), "");
}

#[test]
fn clamp_cells_into_grid() {
    let renderer = AsciiRenderer::new(40, 20);
    assert_eq!(renderer.width(), 40);
    assert_eq!(renderer.height(), 20);
    assert_eq!(renderer.clamp_cell(-3, 25), (0, 19));
    assert_eq!(renderer.clamp_cell(12, 7), (12, 7));
    assert_eq!(renderer.clamp_cell(40, -1), (39, 0));
}

#[test]
fn glyph_symbols() {
    assert_eq!(Glyph::Wall.symbol(), '#');
    assert_eq!(Glyph::LidarHit.symbol(), '.');
    assert_eq!(Glyph::Robot.symbol(), '@');
    assert_eq!(Glyph::Arrow(Heading::East).symbol(), '>');
    assert_eq!(Glyph::Arrow(Heading::North).symbol(), '^');
    assert_eq!(Glyph::Arrow(Heading::West).symbol(), '<');
    assert_eq!(Glyph::Arrow(Heading::South).symbol(), 'v');
    assert_eq!(Glyph::of_object(&ObjectKind::Obstacle), Glyph::Obstacle);
    assert_eq!(Glyph::of_object(&ObjectKind::Target).symbol(), 'T');
    assert!(Glyph::Arrow(Heading::West).on_blank_only());
    assert!(!Glyph::Robot.on_blank_only());
}

#[test]
fn arrow_never_covers_the_robot() {
    let renderer = AsciiRenderer::new(3, 1);
    let marks = [mark(1, 0, Glyph::Robot), mark(1, 0, Glyph::Arrow(Heading::East)), mark(2, 0, Glyph::Arrow(Heading::East))];
    assert_eq!(renderer.render_marks(&marks), " @>");
}
