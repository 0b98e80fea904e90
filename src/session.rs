use vstd::prelude::*;
use crate::canvas::{Canvas, GridError};
use crate::command::Command;
use crate::raster::{circle_drawn, draw_circle, draw_line, draw_rect, line_drawn, rect_drawn};

verus! {

/// The width of the canvas a session starts with.
pub const START_WIDTH: usize = 20;

/// The height of the canvas a session starts with.
pub const START_HEIGHT: usize = 10;

/// What is left to do after a command, beyond the canvas and the pen.
#[derive(PartialEq, Eq, Debug)]
pub enum Action {
    /// Nothing: the command took effect on the session.
    Continue,
    /// Print the canvas.
    Show,
    /// Print the canvas's size.
    Info,
    /// Write the canvas's text to this path.
    Save(String),
    /// Run the commands read from this path.
    Read(String),
    /// End the session.
    Quit,
}

/// `c` is a canvas of the given size with every cell a space.
pub open spec fn is_blank(c: Canvas, width: usize, height: usize) -> bool {
    &&& c.wf()
    &&& c.spec_width() == width
    &&& c.spec_height() == height
    &&& forall|x: int, y: int| c.in_bounds(x, y) ==> #[trigger] c.cell(x, y) == ' '
}

/// A size that `Canvas::new` refuses.
pub open spec fn bad_size(width: usize, height: usize) -> bool {
    width == 0 || height == 0 || width * height > usize::MAX
}

/// The state of an interactive drawing session: the canvas and the pen character.
pub struct Session {
    pub canvas: Canvas,
    pub pen: char,
}

impl Session {
    /// The session's canvas is well formed.
    pub open spec fn wf(&self) -> bool {
        self.canvas.wf()
    }

    /// A blank canvas of the starting size, and `*` as the pen.
    pub fn new() -> (s: Session)
        ensures
            s.wf(),
            is_blank(s.canvas, START_WIDTH, START_HEIGHT),
            s.pen == '*',
    {
        let canvas = Canvas::new(START_WIDTH, START_HEIGHT).unwrap();
        Session { canvas, pen: '*' }
    }

    /// Replaces the canvas by a blank one of the new size; a size that
    /// `Canvas::new` refuses leaves the session as it was.
    pub fn resize(&mut self, width: usize, height: usize) -> (r: Result<(), GridError>)
        requires
            old(self).wf(),
        ensures
            final(self).wf(),
            final(self).pen == old(self).pen,
            bad_size(width, height) ==> r == Err::<(), GridError>(GridError::InvalidDimension)
                && *final(self) == *old(self),
            !bad_size(width, height) ==> r is Ok && is_blank(final(self).canvas, width, height),
    {
        match Canvas::new(width, height) {
            Ok(c) => {
                self.canvas = c;
                Ok(())
            },
            Err(e) => Err(e),
        }
    }

    /// Carries out `cmd`: drawing with the pen, resizing, or changing the
    /// pen happen here; what involves the outside world is handed back.
    /// `on_line` decides the cells of a line that is not vertical.
    pub fn apply<F: Fn(usize, usize) -> bool>(&mut self, cmd: &Command, on_line: F) -> (r: Result<
        Action,
        GridError,
    >)
        requires
            old(self).wf(),
            forall|x: usize, y: usize| on_line.requires((x, y)),
        ensures
            final(self).wf(),
            match *cmd {
                Command::Line { from, to } => r == Ok::<Action, GridError>(Action::Continue)
                    && final(self).pen == old(self).pen && line_drawn(
                    old(self).canvas,
                    final(self).canvas,
                    from,
                    to,
                    old(self).pen,
                    on_line,
                ),
                Command::Rectangle { p1, p2 } => r == Ok::<Action, GridError>(Action::Continue)
                    && final(self).pen == old(self).pen && rect_drawn(
                    old(self).canvas,
                    final(self).canvas,
                    p1,
                    p2,
                    old(self).pen,
                ),
                Command::Circle { p, r: radius } => r == Ok::<Action, GridError>(Action::Continue)
                    && final(self).pen == old(self).pen && circle_drawn(
                    old(self).canvas,
                    final(self).canvas,
                    p,
                    radius,
                    old(self).pen,
                ),
                Command::Canvas { width, height } => final(self).pen == old(self).pen && if bad_size(
                    width,
                    height,
                ) {
                    r == Err::<Action, GridError>(GridError::InvalidDimension) && *final(self)
                        == *old(self)
                } else {
                    r == Ok::<Action, GridError>(Action::Continue) && is_blank(
                        final(self).canvas,
                        width,
                        height,
                    )
                },
                Command::Char(c) => r == Ok::<Action, GridError>(Action::Continue)
                    && final(self).pen == c && final(self).canvas == old(self).canvas,
                Command::Read(path) => *final(self) == *old(self) && (r matches Ok(
                    Action::Read(p),
                ) && p@ == path@),
                Command::Save(path) => *final(self) == *old(self) && (r matches Ok(
                    Action::Save(p),
                ) && p@ == path@),
                Command::Info => *final(self) == *old(self) && r == Ok::<Action, GridError>(
                    Action::Info,
                ),
                Command::Show => *final(self) == *old(self) && r == Ok::<Action, GridError>(
                    Action::Show,
                ),
                Command::Quit => *final(self) == *old(self) && r == Ok::<Action, GridError>(
                    Action::Quit,
                ),
            },
    {
        match cmd {
            Command::Line { from, to } => {
                draw_line(&mut self.canvas, *from, *to, self.pen, on_line);
                Ok(Action::Continue)
            },
            Command::Rectangle { p1, p2 } => {
                draw_rect(&mut self.canvas, *p1, *p2, self.pen);
                Ok(Action::Continue)
            },
            Command::Circle { p, r } => {
                draw_circle(&mut self.canvas, *p, *r, self.pen);
                Ok(Action::Continue)
            },
            Command::Canvas { width, height } => match self.resize(*width, *height) {
                Ok(()) => Ok(Action::Continue),
                Err(e) => Err(e),
            },
            Command::Char(c) => {
                self.pen = *c;
                Ok(Action::Continue)
            },
            Command::Read(path) => Ok(Action::Read(path.clone())),
            Command::Save(path) => Ok(Action::Save(path.clone())),
            Command::Info => Ok(Action::Info),
            Command::Show => Ok(Action::Show),
            Command::Quit => Ok(Action::Quit),
        }
    }
}

} // verus!
