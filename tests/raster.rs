use drawer::{draw_circle, draw_line, draw_rect, Action, Canvas, Command, GridError, Point, Session};

fn marked(c: &Canvas, ch: char) -> Vec<(usize, usize)> {
    let mut out = Vec::new();
    for y in 0..c.height() {
        for x in 0..c.width() {
            if c.get(x, y) == ch {
                out.push((x, y));
            }
        }
    }
    out
}

fn never(_x: usize, _y: usize) -> bool {
    false
}

#[test]
fn rectangle_marks_its_border_only() {
    let mut c = Canvas::new(6, 6).unwrap();
    draw_rect(&mut c, Point(1, 1), Point(4, 4), '#');
    let cells = marked(&c, '#');
    assert_eq!(12, cells.len());
    for &(x, y) in &cells {
        assert!((1..=4).contains(&x) && (1..=4).contains(&y));
        assert!(x == 1 || x == 4 || y == 1 || y == 4);
    }
    assert_eq!(' ', c.get(2, 2));
    assert_eq!(' ', c.get(3, 3));
}

#[test]
fn rectangle_corners_in_any_order() {
    let mut a = Canvas::new(6, 6).unwrap();
    let mut b = Canvas::new(6, 6).unwrap();
    draw_rect(&mut a, Point(1, 1), Point(4, 4), '#');
    draw_rect(&mut b, Point(4, 1), Point(1, 4), '#');
    assert_eq!(a.to_string(), b.to_string());
}

#[test]
fn rectangle_off_the_grid_is_clipped() {
    let mut c = Canvas::new(4, 3).unwrap();
    draw_rect(&mut c, Point(2, 1), Point(10, 10), '#');
    assert_eq!("    \n  ##\n  # \n", c.to_string());
}

#[test]
fn vertical_line_marks_its_column() {
    let mut c = Canvas::new(6, 7).unwrap();
    draw_line(&mut c, Point(2, 2), Point(2, 5), '*', never);
    assert_eq!(vec![(2, 2), (2, 3), (2, 4), (2, 5)], marked(&c, '*'));
    let mut d = Canvas::new(6, 7).unwrap();
    draw_line(&mut d, Point(2, 5), Point(2, 2), '*', never);
    assert_eq!(c.to_string(), d.to_string());
}

#[test]
fn line_asks_its_test_inside_the_box() {
    let mut c = Canvas::new(5, 5).unwrap();
    draw_line(&mut c, Point(0, 0), Point(3, 3), '\\', |x, y| x == y);
    assert_eq!(vec![(0, 0), (1, 1), (2, 2), (3, 3)], marked(&c, '\\'));
    let mut d = Canvas::new(5, 5).unwrap();
    draw_line(&mut d, Point(0, 3), Point(3, 0), '/', never);
    assert_eq!(vec![(3, 0), (0, 3)], marked(&d, '/'));
}

#[test]
fn line_endpoints_off_the_grid_are_skipped() {
    let mut c = Canvas::new(3, 3).unwrap();
    draw_line(&mut c, Point(1, 0), Point(1, 8), 'o', never);
    assert_eq!(vec![(1, 0), (1, 1), (1, 2)], marked(&c, 'o'));
    let mut d = Canvas::new(3, 3).unwrap();
    draw_line(&mut d, Point(0, 0), Point(9, 9), 'o', |_x, _y| true);
    assert_eq!(9, marked(&d, 'o').len());
}

#[test]
fn circle_stays_in_its_box() {
    let mut c = Canvas::new(12, 12).unwrap();
    draw_circle(&mut c, Point(5, 5), 3, 'o');
    let cells = marked(&c, 'o');
    assert!(!cells.is_empty());
    for &(x, y) in &cells {
        assert!((1..=9).contains(&x) && (1..=9).contains(&y), "{:?}", (x, y));
        let dx = x as f64 - 2.0;
        let dy = y as f64 - 2.0;
        let d = (dx * dx + dy * dy).sqrt();
        assert!(d > 2.5 && d < 3.5, "{:?}", (x, y));
    }
    assert!(cells.contains(&(5, 2)));
    assert!(cells.contains(&(2, 5)));
    assert!(cells.contains(&(4, 4)));
    assert!(!cells.contains(&(0, 2)));
}

#[test]
fn circle_marks_every_ring_cell_of_its_box() {
    let mut c = Canvas::new(12, 12).unwrap();
    draw_circle(&mut c, Point(5, 5), 3, 'o');
    let mut expected = Vec::new();
    for y in 0..12usize {
        for x in 0..12usize {
            let (dx, dy) = (x as f64 - 2.0, y as f64 - 2.0);
            let d = (dx * dx + dy * dy).sqrt();
            let in_box = (1..=9).contains(&x) && (1..=9).contains(&y);
            if in_box && d > 2.5 && d < 3.5 {
                expected.push((x, y));
            }
        }
    }
    assert_eq!(expected, marked(&c, 'o'));
}

#[test]
fn circle_near_the_corner_does_not_wrap() {
    let mut c = Canvas::new(5, 5).unwrap();
    draw_circle(&mut c, Point(0, 1), 2, 'o');
    for &(x, y) in &marked(&c, 'o') {
        assert!(x <= 3 && y <= 4);
    }
    let mut d = Canvas::new(4, 4).unwrap();
    draw_circle(&mut d, Point(usize::MAX, usize::MAX), usize::MAX, 'o');
    assert_eq!(16, marked(&d, ' ').len());
}

#[test]
fn circle_of_radius_zero_marks_its_center() {
    let mut c = Canvas::new(5, 5).unwrap();
    draw_circle(&mut c, Point(2, 3), 0, 'o');
    assert_eq!(vec![(2, 3)], marked(&c, 'o'));
}

#[test]
fn session_draws_with_its_pen() {
    let mut s = Session::new();
    assert_eq!(20, s.canvas.width());
    assert_eq!(10, s.canvas.height());
    assert_eq!(Ok(Action::Continue), s.apply(&Command::Char('#'), never));
    let cmd = Command::from("rect 1 1 4 4".to_string()).unwrap();
    assert_eq!(Ok(Action::Continue), s.apply(&cmd, never));
    assert_eq!('#', s.canvas.get(1, 1));
    assert_eq!(' ', s.canvas.get(2, 2));
    assert_eq!(12, marked(&s.canvas, '#').len());
}

#[test]
fn bad_resize_keeps_the_canvas() {
    let mut s = Session::new();
    s.apply(&Command::Rectangle { p1: Point(0, 0), p2: Point(3, 2) }, never).unwrap();
    let before = s.canvas.to_string();
    assert_eq!(
        Err(GridError::InvalidDimension),
        s.apply(&Command::Canvas { width: 0, height: 4 }, never)
    );
    assert_eq!(Err(GridError::InvalidDimension), s.resize(7, 0));
    assert_eq!(before, s.canvas.to_string());
    assert_eq!('*', s.pen);
    assert_eq!(Ok(Action::Continue), s.apply(&Command::Canvas { width: 3, height: 2 }, never));
    assert_eq!("   \n   \n", s.canvas.to_string());
}

#[test]
fn session_hands_back_outside_work() {
    let mut s = Session::new();
    assert_eq!(Ok(Action::Show), s.apply(&Command::Show, never));
    assert_eq!(Ok(Action::Info), s.apply(&Command::Info, never));
    assert_eq!(Ok(Action::Quit), s.apply(&Command::Quit, never));
    assert_eq!(
        Ok(Action::Save("a.txt".to_string())),
        s.apply(&Command::Save("a.txt".to_string()), never)
    );
    assert_eq!(
        Ok(Action::Read("b.txt".to_string())),
        s.apply(&Command::Read("b.txt".to_string()), never)
    );
}
