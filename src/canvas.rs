use vstd::prelude::*;

verus! {

/// A position on the grid: column first, then row.
#[derive(Copy, Clone, PartialEq, Eq, Structural, PartialOrd, Ord, Debug, Hash)]
pub struct Point(pub usize, pub usize);

/// Why a grid could not be created.
#[derive(Copy, Clone, PartialEq, Eq, Structural, Debug)]
pub enum GridError {
    /// A width or a height of zero, or more cells than memory can index.
    InvalidDimension,
}

/// A fixed-size character grid, stored row after row.
pub struct Canvas {
    width: usize,
    height: usize,
    cells: Vec<char>,
}

/// The text of a sequence of rows: each row followed by a line feed.
pub open spec fn lines(rows: Seq<Seq<char>>) -> Seq<char>
    decreases rows.len(),
{
    if rows.len() == 0 {
        Seq::empty()
    } else {
        lines(rows.drop_last()) + rows.last() + seq!['\n']
    }
}

/// `n` copies of `line`, one after another.
pub open spec fn repeat_line(line: Seq<char>, n: nat) -> Seq<char>
    decreases n,
{
    if n == 0 {
        Seq::empty()
    } else {
        repeat_line(line, (n - 1) as nat) + line
    }
}

/// Relies on `FromIterator<char> for String`: the string holds the characters in order.
#[verifier::external_body]
pub(crate) fn string_of(chars: &Vec<char>) -> (r: String)
    ensures
        r@ == chars@,
{
    chars.iter().collect()
}

/// Rows that are all the same render as that row repeated.
proof fn lemma_lines_uniform(rows: Seq<Seq<char>>, row: Seq<char>)
    requires
        forall|i: int| 0 <= i < rows.len() ==> #[trigger] rows[i] == row,
    ensures
        lines(rows) == repeat_line(row + seq!['\n'], rows.len()),
    decreases rows.len(),
{
    if rows.len() > 0 {
        lemma_lines_uniform(rows.drop_last(), row);
        assert(rows.last() == row);
        assert(lines(rows) == lines(rows.drop_last()) + rows.last() + seq!['\n']);
        assert(repeat_line(row + seq!['\n'], rows.len()) == repeat_line(
            row + seq!['\n'],
            (rows.len() - 1) as nat,
        ) + (row + seq!['\n']));
        assert(lines(rows) =~= repeat_line(row + seq!['\n'], rows.len()));
    }
}

/// A freshly created canvas renders as `height` lines, each made of `width`
/// spaces and a line feed.
pub proof fn lemma_fresh_render(width: usize, height: usize, c: Canvas)
    requires
        c.wf(),
        c.spec_width() == width,
        c.spec_height() == height,
        forall|x: int, y: int| c.in_bounds(x, y) ==> #[trigger] c.cell(x, y) == ' ',
    ensures
        lines(c.rows()) == repeat_line(blank_row(width as nat) + seq!['\n'], height as nat),
{
    let rows = c.rows();
    assert forall|i: int| 0 <= i < rows.len() implies #[trigger] rows[i] == blank_row(
        width as nat,
    ) by {
        assert(rows[i] =~= blank_row(width as nat));
    }
    lemma_lines_uniform(rows, blank_row(width as nat));
}

/// A row of `w` spaces.
pub open spec fn blank_row(w: nat) -> Seq<char> {
    Seq::new(w, |i: int| ' ')
}

/// A cell of the grid has an index into the stored cells.
proof fn lemma_cell_index(x: int, y: int, w: int, h: int)
    requires
        0 <= x < w,
        0 <= y < h,
    ensures
        0 <= y * w + x < w * h,
{
    assert(0 <= y * w) by (nonlinear_arith)
        requires
            0 <= y,
            0 <= w,
    ;
    assert(y * w + x < w * h) by (nonlinear_arith)
        requires
            0 <= x < w,
            0 <= y < h,
    ;
}

/// Distinct cells have distinct indices.
proof fn lemma_cell_index_unique(x1: int, y1: int, x2: int, y2: int, w: int)
    requires
        0 <= x1 < w,
        0 <= x2 < w,
        0 <= y1,
        0 <= y2,
        y1 * w + x1 == y2 * w + x2,
    ensures
        x1 == x2,
        y1 == y2,
{
    assert(y1 == y2) by (nonlinear_arith)
        requires
            0 <= x1 < w,
            0 <= x2 < w,
            0 <= y1,
            0 <= y2,
            y1 * w + x1 == y2 * w + x2,
    ;
}

impl Canvas {
    /// The canvas is well formed: both sides are positive and every cell is stored.
    pub closed spec fn wf(&self) -> bool {
        &&& self.width > 0
        &&& self.height > 0
        &&& self.width * self.height <= usize::MAX
        &&& self.cells@.len() == self.width * self.height
    }

    pub closed spec fn spec_width(&self) -> usize {
        self.width
    }

    pub closed spec fn spec_height(&self) -> usize {
        self.height
    }

    /// The character at column `x` of row `y`.
    pub closed spec fn cell(&self, x: int, y: int) -> char {
        self.cells@[y * self.width + x]
    }

    /// The grid as its rows, top row first.
    pub open spec fn rows(&self) -> Seq<Seq<char>> {
        Seq::new(self.spec_height() as nat, |y: int| Seq::new(self.spec_width() as nat, |x: int| self.cell(x, y)))
    }

    /// Whether `(x, y)` lies on the grid.
    pub open spec fn in_bounds(&self, x: int, y: int) -> bool {
        0 <= x < self.spec_width() && 0 <= y < self.spec_height()
    }

    /// A grid of `width` columns and `height` rows, every cell a space.
    pub fn new(width: usize, height: usize) -> (r: Result<Canvas, GridError>)
        ensures
            (width == 0 || height == 0 || width * height > usize::MAX) <==> r is Err,
            r is Err ==> r == Err::<Canvas, GridError>(GridError::InvalidDimension),
            r matches Ok(c) ==> {
                &&& c.wf()
                &&& c.spec_width() == width
                &&& c.spec_height() == height
                &&& forall|x: int, y: int| c.in_bounds(x, y) ==> #[trigger] c.cell(x, y) == ' '
            },
    {
        if width == 0 || height == 0 || width > usize::MAX / height {
            proof {
                if width > 0 && height > 0 {
                    assert(width * height > usize::MAX) by (nonlinear_arith)
                        requires
                            width > usize::MAX / height,
                            height > 0,
                    ;
                }
            }
            return Err(GridError::InvalidDimension);
        }
        assert(width * height <= usize::MAX) by (nonlinear_arith)
            requires
                width <= usize::MAX / height,
                height > 0,
        ;
        let n: usize = width * height;
        let mut cells: Vec<char> = Vec::new();
        let mut i: usize = 0;
        while i < n
            invariant
                i <= n,
                cells@.len() == i,
                forall|k: int| 0 <= k < i ==> #[trigger] cells@[k] == ' ',
            decreases n - i,
        {
            cells.push(' ');
            i = i + 1;
        }
        let c = Canvas { width, height, cells };
        assert forall|x: int, y: int| c.in_bounds(x, y) implies #[trigger] c.cell(x, y) == ' ' by {
            lemma_cell_index(x, y, width as int, height as int);
        }
        Ok(c)
    }

    /// The character at `(x, y)`.
    pub fn get(&self, x: usize, y: usize) -> (r: char)
        requires
            self.wf(),
            self.in_bounds(x as int, y as int),
        ensures
            r == self.cell(x as int, y as int),
    {
        proof {
            lemma_cell_index(x as int, y as int, self.width as int, self.height as int);
        }
        self.cells[y * self.width + x]
    }

    /// Writes `ch` at `(x, y)`; every other cell keeps its character.
    pub fn set(&mut self, x: usize, y: usize, ch: char)
        requires
            old(self).wf(),
            old(self).in_bounds(x as int, y as int),
        ensures
            final(self).wf(),
            final(self).spec_width() == old(self).spec_width(),
            final(self).spec_height() == old(self).spec_height(),
            forall|i: int, j: int|
                old(self).in_bounds(i, j) ==> #[trigger] final(self).cell(i, j) == if i == x && j == y {
                    ch
                } else {
                    old(self).cell(i, j)
                },
    {
        proof {
            lemma_cell_index(x as int, y as int, self.width as int, self.height as int);
        }
        let k: usize = y * self.width + x;
        let ghost before = self.cells@;
        self.cells.set(k, ch);
        proof {
            assert forall|i: int, j: int| old(self).in_bounds(i, j) implies #[trigger] self.cell(i, j)
                == if i == x && j == y {
                ch
            } else {
                old(self).cell(i, j)
            } by {
                lemma_cell_index(i, j, self.width as int, self.height as int);
                if j * self.width + i == k {
                    lemma_cell_index_unique(i, j, x as int, y as int, self.width as int);
                }
            }
        }
    }

    /// Writes `ch` at the point `p`; every other cell keeps its character.
    pub fn setp(&mut self, p: Point, ch: char)
        requires
            old(self).wf(),
            old(self).in_bounds(p.0 as int, p.1 as int),
        ensures
            final(self).wf(),
            final(self).spec_width() == old(self).spec_width(),
            final(self).spec_height() == old(self).spec_height(),
            forall|i: int, j: int|
                old(self).in_bounds(i, j) ==> #[trigger] final(self).cell(i, j) == if i == p.0 && j == p.1 {
                    ch
                } else {
                    old(self).cell(i, j)
                },
    {
        self.set(p.0, p.1, ch);
    }

    /// The grid as text: one line per row, top row first, each line ended by a line feed.
    pub fn to_string(&self) -> (r: String)
        requires
            self.wf(),
        ensures
            r@ == lines(self.rows()),
    {
        let ghost rows = self.rows();
        let mut out: Vec<char> = Vec::new();
        let mut y: usize = 0;
        while y < self.height
            invariant
                self.wf(),
                rows == self.rows(),
                y <= self.height,
                out@ == lines(rows.take(y as int)),
            decreases self.height - y,
        {
            let mut x: usize = 0;
            while x < self.width
                invariant
                    self.wf(),
                    rows == self.rows(),
                    y < self.height,
                    x <= self.width,
                    out@ == lines(rows.take(y as int)) + rows[y as int].take(x as int),
                decreases self.width - x,
            {
                let ch = self.get(x, y);
                out.push(ch);
                x = x + 1;
                assert(rows[y as int].take(x as int) =~= rows[y as int].take(x - 1) + seq![ch]);
            }
            out.push('\n');
            proof {
                assert(rows[y as int].take(self.width as int) =~= rows[y as int]);
                assert(rows.take(y + 1).drop_last() =~= rows.take(y as int));
            }
            y = y + 1;
        }
        assert(rows.take(self.height as int) =~= rows);
        string_of(&out)
    }

    #[verifier::when_used_as_spec(spec_width)]
    pub fn width(&self) -> (r: usize)
        requires
            self.wf(),
        ensures
            r == self.spec_width(),
            r > 0,
    {
        self.width
    }

    #[verifier::when_used_as_spec(spec_height)]
    pub fn height(&self) -> (r: usize)
        requires
            self.wf(),
        ensures
            r == self.spec_height(),
            r > 0,
    {
        self.height
    }
}

} // verus!
