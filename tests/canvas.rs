use drawer::{Canvas, GridError};

#[test]
fn canvas_to_string() {
    let c = Canvas::new(4, 2).unwrap();
    assert_eq!("    \n    \n", c.to_string());
}

#[test]
fn creates_canvas_with_new() {
    Canvas::new(2, 2).unwrap();
}

#[test]
fn new_matches_size() {
    let c = Canvas::new(5, 3).unwrap();
    assert_eq!(5, c.width());
    assert_eq!(3, c.height());
}

#[test]
fn set_matches_the_position() {
    let mut c = Canvas::new(5, 5).unwrap();
    c.set(4, 2, '*');
    assert_eq!('*', c.get(4, 2));
}

#[test]
fn get_works_on_extremes() {
    let c = Canvas::new(10, 5).unwrap();
    for &(x, y) in [(0, 0), (9, 0), (9, 4), (0, 4)].iter() {
        assert_eq!(' ', c.get(x, y));
    }
}

#[test]
fn fresh_canvas_renders_blank_lines() {
    for &(w, h) in [(1, 1), (3, 1), (1, 4), (7, 5)].iter() {
        let text = Canvas::new(w, h).unwrap().to_string();
        let lines: Vec<&str> = text.split_terminator('\n').collect();
        assert_eq!(h, lines.len());
        for line in lines {
            assert_eq!(w, line.chars().count());
            assert!(line.chars().all(|c| c == ' '));
        }
        assert!(text.ends_with('\n'));
        assert!(!text.ends_with("\n\n"));
    }
}

#[test]
fn set_leaves_other_cells_alone() {
    let mut c = Canvas::new(4, 3).unwrap();
    c.set(1, 2, '#');
    c.set(3, 0, '@');
    assert_eq!('#', c.get(1, 2));
    assert_eq!('@', c.get(3, 0));
    assert_eq!("   @\n    \n #  \n", c.to_string());
}

#[test]
fn setp_writes_the_point() {
    let mut c = Canvas::new(3, 3).unwrap();
    c.setp(drawer::Point(2, 1), 'x');
    assert_eq!('x', c.get(2, 1));
    assert_eq!(' ', c.get(1, 2));
}

#[test]
fn zero_sizes_are_refused() {
    assert_eq!(Some(GridError::InvalidDimension), Canvas::new(0, 5).err());
    assert_eq!(Some(GridError::InvalidDimension), Canvas::new(5, 0).err());
    assert_eq!(Some(GridError::InvalidDimension), Canvas::new(0, 0).err());
    assert_eq!(Some(GridError::InvalidDimension), Canvas::new(usize::MAX, 2).err());
}
