//! The character grid of the terminal view of the simulated world.
use vstd::prelude::*;

use crate::text::{join_lines, lemma_lines_of_join, lines, push_char, slice_chars, views};
use crate::types::ObjectKind;

verus! {

/// Renders the simulated world as a grid of characters, `width` columns by
/// `height` rows, row 0 at the top.
pub struct AsciiRenderer {
    width: usize,
    height: usize,
}

/// The direction the robot faces, by quarter turns.
#[derive(Debug, Clone, Copy, PartialEq, Eq, Structural)]
pub enum Heading {
    East,
    North,
    West,
    South,
}

/// What a cell of the view shows.
#[derive(Debug, Clone, Copy, PartialEq, Eq, Structural)]
pub enum Glyph {
    Wall,
    Obstacle,
    Target,
    Person,
    LidarHit,
    Robot,
    Arrow(Heading),
}

/// The character of a glyph: `#` wall, `O` obstacle, `T` target, `P`
/// person, `.` lidar hit, `@` robot, and `>` `^` `<` `v` for the heading.
pub open spec fn glyph_char(g: Glyph) -> char {
    match g {
        Glyph::Wall => '#',
        Glyph::Obstacle => 'O',
        Glyph::Target => 'T',
        Glyph::Person => 'P',
        Glyph::LidarHit => '.',
        Glyph::Robot => '@',
        Glyph::Arrow(Heading::East) => '>',
        Glyph::Arrow(Heading::North) => '^',
        Glyph::Arrow(Heading::West) => '<',
        Glyph::Arrow(Heading::South) => 'v',
    }
}

/// Whether a glyph only draws on a blank cell: lidar hits and the heading
/// arrow never cover what is already drawn.
pub open spec fn draws_on_blank_only(g: Glyph) -> bool {
    g is LidarHit || g is Arrow
}

impl Glyph {
    /// The glyph of a kind of object.
    pub fn of_object(kind: &ObjectKind) -> (g: Glyph)
        ensures
            glyph_char(g) == kind.spec_symbol(),
            !draws_on_blank_only(g),
    {
        match kind {
            ObjectKind::Obstacle => Glyph::Obstacle,
            ObjectKind::Target => Glyph::Target,
            ObjectKind::Person { .. } => Glyph::Person,
        }
    }

    /// The character of the glyph.
    pub fn symbol(&self) -> (c: char)
        ensures
            c == glyph_char(*self),
    {
        match self {
            Glyph::Wall => '#',
            Glyph::Obstacle => 'O',
            Glyph::Target => 'T',
            Glyph::Person => 'P',
            Glyph::LidarHit => '.',
            Glyph::Robot => '@',
            Glyph::Arrow(Heading::East) => '>',
            Glyph::Arrow(Heading::North) => '^',
            Glyph::Arrow(Heading::West) => '<',
            Glyph::Arrow(Heading::South) => 'v',
        }
    }

    /// Whether the glyph only draws on a blank cell.
    pub fn on_blank_only(&self) -> (b: bool)
        ensures
            b == draws_on_blank_only(*self),
    {
        match self {
            Glyph::LidarHit => true,
            Glyph::Arrow(_) => true,
            _ => false,
        }
    }
}

/// One glyph to draw at a grid cell. Cells outside the grid are ignored.
#[derive(Debug, Clone, Copy, PartialEq, Eq)]
pub struct Mark {
    pub x: usize,
    pub y: usize,
    pub glyph: Glyph,
}

/// `v` clamped into `0..n` (`n` positive).
pub open spec fn clamp_index(v: int, n: nat) -> nat {
    if v < 0 {
        0
    } else if v >= n {
        (n - 1) as nat
    } else {
        v as nat
    }
}

/// A grid of `h` rows of `w` blanks.
pub open spec fn blank_grid(w: nat, h: nat) -> Seq<Seq<char>> {
    Seq::new(h, |_i: int| Seq::new(w, |_j: int| ' '))
}

/// The grid after drawing one mark.
pub open spec fn paint(g: Seq<Seq<char>>, m: Mark) -> Seq<Seq<char>> {
    if m.y < g.len() && m.x < g[m.y as int].len() && (!draws_on_blank_only(m.glyph)
        || g[m.y as int][m.x as int] == ' ') {
        g.update(m.y as int, g[m.y as int].update(m.x as int, glyph_char(m.glyph)))
    } else {
        g
    }
}

/// The grid after drawing the marks in order, later marks over earlier ones.
pub open spec fn paint_all(g: Seq<Seq<char>>, ms: Seq<Mark>) -> Seq<Seq<char>>
    decreases ms.len(),
{
    if ms.len() == 0 {
        g
    } else {
        paint(paint_all(g, ms.drop_last()), ms.last())
    }
}

/// The text of a drawing: the rows of the painted blank grid, joined by
/// line breaks.
pub open spec fn drawing(w: nat, h: nat, ms: Seq<Mark>) -> Seq<char> {
    join_lines(paint_all(blank_grid(w, h), ms))
}

/// Whether a grid has `h` rows of `w` cells, none of them a line break or
/// a carriage return.
pub open spec fn grid_shape(g: Seq<Seq<char>>, w: nat, h: nat) -> bool {
    &&& g.len() == h
    &&& forall|i: int| 0 <= i < h ==> (#[trigger] g[i]).len() == w
    &&& forall|i: int, j: int|
        0 <= i < h && 0 <= j < w ==> #[trigger] g[i][j] != '\n' && g[i][j] != '\r'
}

/// Painting keeps the shape of a blank grid.
proof fn lemma_paint_shape(w: nat, h: nat, ms: Seq<Mark>)
    ensures
        grid_shape(paint_all(blank_grid(w, h), ms), w, h),
    decreases ms.len(),
{
    if ms.len() > 0 {
        let front = ms.drop_last();
        lemma_paint_shape(w, h, front);
        let g = paint_all(blank_grid(w, h), front);
        let m = ms.last();
        let g2 = paint(g, m);
        assert(glyph_char(m.glyph) != '\n' && glyph_char(m.glyph) != '\r');
        assert forall|i: int, j: int| 0 <= i < h && 0 <= j < w implies #[trigger] g2[i][j] != '\n'
            && g2[i][j] != '\r' by {
            if i == m.y && j == m.x {
            } else {
                assert(g2[i][j] == g[i][j]);
            }
        }
    }
}

/// The drawing on a grid at least one column wide reads back as exactly
/// `h` lines of `w` characters, whatever the marks: the painted rows.
pub proof fn lemma_drawing_lines(w: nat, h: nat, ms: Seq<Mark>)
    requires
        w > 0,
    ensures
        lines(drawing(w, h, ms)) == paint_all(blank_grid(w, h), ms),
        lines(drawing(w, h, ms)).len() == h,
        forall|i: int| 0 <= i < h ==> (#[trigger] lines(drawing(w, h, ms))[i]).len() == w,
{
    lemma_paint_shape(w, h, ms);
    let g = paint_all(blank_grid(w, h), ms);
    lemma_lines_of_join(g);
}

/// Painting keeps the dimensions of a blank grid.
proof fn lemma_paint_dims(w: nat, h: nat, ms: Seq<Mark>)
    ensures
        paint_all(blank_grid(w, h), ms).len() == h,
        forall|i: int| 0 <= i < h ==> (#[trigger] paint_all(blank_grid(w, h), ms)[i]).len() == w,
    decreases ms.len(),
{
    if ms.len() > 0 {
        lemma_paint_dims(w, h, ms.drop_last());
    }
}

/// A mark inside the grid that draws over anything shows in the drawing
/// unless a later mark that draws over anything lands on the same cell.
pub proof fn lemma_mark_shows(w: nat, h: nat, ms: Seq<Mark>, k: int)
    requires
        0 <= k < ms.len(),
        ms[k].x < w,
        ms[k].y < h,
        !draws_on_blank_only(ms[k].glyph),
        forall|j: int|
            k < j < ms.len() && (#[trigger] ms[j]).x == ms[k].x && ms[j].y == ms[k].y
                ==> draws_on_blank_only(ms[j].glyph),
    ensures
        paint_all(blank_grid(w, h), ms)[ms[k].y as int][ms[k].x as int] == glyph_char(ms[k].glyph),
    decreases ms.len(),
{
    let front = ms.drop_last();
    lemma_paint_dims(w, h, front);
    let m = ms.last();
    assert(m == ms[ms.len() - 1]);
    if k < ms.len() - 1 {
        assert(front[k] == ms[k]);
        assert forall|j: int|
            k < j < front.len() && (#[trigger] front[j]).x == front[k].x && front[j].y == front[k].y
                implies draws_on_blank_only(front[j].glyph) by {
            assert(front[j] == ms[j]);
        }
        lemma_mark_shows(w, h, front, k);
    }
}

impl AsciiRenderer {
    /// The number of columns.
    pub closed spec fn columns(&self) -> nat {
        self.width as nat
    }

    /// The number of rows.
    pub closed spec fn rows(&self) -> nat {
        self.height as nat
    }

    /// A renderer of `width` columns and `height` rows.
    pub fn new(width: usize, height: usize) -> (r: Self)
        ensures
            r.columns() == width,
            r.rows() == height,
    {
        AsciiRenderer { width, height }
    }

    /// The number of columns.
    pub fn width(&self) -> (w: usize)
        ensures
            w == self.columns(),
    {
        self.width
    }

    /// The number of rows.
    pub fn height(&self) -> (h: usize)
        ensures
            h == self.rows(),
    {
        self.height
    }

    /// The grid cell of rounded grid coordinates: each clamped into the grid.
    pub fn clamp_cell(&self, gx: isize, gy: isize) -> (cell: (usize, usize))
        requires
            0 < self.columns() <= isize::MAX,
            0 < self.rows() <= isize::MAX,
        ensures
            cell.0 == clamp_index(gx as int, self.columns()),
            cell.1 == clamp_index(gy as int, self.rows()),
    {
        let max_x = self.width as isize - 1;
        let max_y = self.height as isize - 1;
        let x: usize = if gx < 0 {
            0
        } else if gx > max_x {
            max_x as usize
        } else {
            gx as usize
        };
        let y: usize = if gy < 0 {
            0
        } else if gy > max_y {
            max_y as usize
        } else {
            gy as usize
        };
        (x, y)
    }

    /// Draw the marks, in order, on a blank grid and give its rows joined by
    /// line breaks.
    pub fn render_marks(&self, marks: &[Mark]) -> (s: String)
        ensures
            s@ == drawing(self.columns(), self.rows(), marks@),
    {
        let w = self.width;
        let h = self.height;
        let mut grid: Vec<Vec<char>> = Vec::new();
        let mut r: usize = 0;
        while r < h
            invariant
                r <= h,
                views(grid@) == blank_grid(w as nat, h as nat).take(r as int),
            decreases h - r,
        {
            let mut row: Vec<char> = Vec::new();
            let mut c: usize = 0;
            while c < w
                invariant
                    c <= w,
                    row@ == Seq::new(c as nat, |_j: int| ' '),
                decreases w - c,
            {
                row.push(' ');
                c = c + 1;
                assert(row@ =~= Seq::new(c as nat, |_j: int| ' '));
            }
            let ghost before = grid@;
            grid.push(row);
            proof {
                assert(views(grid@) =~= views(before).push(row@));
                assert(blank_grid(w as nat, h as nat).take(r + 1) =~= blank_grid(
                    w as nat,
                    h as nat,
                ).take(r as int).push(row@));
            }
            r = r + 1;
        }
        assert(blank_grid(w as nat, h as nat).take(h as int) =~= blank_grid(w as nat, h as nat));
        assert forall|i: int| 0 <= i < h implies (#[trigger] grid@[i])@.len() == w by {
            assert(views(grid@)[i] == grid@[i]@);
        }
        assert(marks@.take(0) =~= Seq::<Mark>::empty());
        let mut k: usize = 0;
        while k < marks.len()
            invariant
                k <= marks@.len(),
                grid@.len() == h,
                views(grid@) == paint_all(blank_grid(w as nat, h as nat), marks@.take(k as int)),
                forall|i: int| 0 <= i < h ==> (#[trigger] grid@[i])@.len() == w,
            decreases marks.len() - k,
        {
            let m = marks[k];
            let ghost g = views(grid@);
            proof {
                assert(marks@.take(k + 1).drop_last() =~= marks@.take(k as int));
                assert(marks@.take(k + 1).last() == m);
            }
            if m.x < w && m.y < h {
                assert(g[m.y as int] == grid@[m.y as int]@);
                let cur = grid[m.y][m.x];
                if !m.glyph.on_blank_only() || cur == ' ' {
                    let mut row = slice_chars(&grid[m.y], 0, w);
                    assert(row@ =~= grid@[m.y as int]@);
                    row.set(m.x, m.glyph.symbol());
                    let ghost before = grid@;
                    grid.set(m.y, row);
                    proof {
                        assert(views(grid@) =~= g.update(m.y as int, g[m.y as int].update(m.x as int, glyph_char(m.glyph))));
                        assert forall|i: int| 0 <= i < h implies (#[trigger] grid@[i])@.len() == w by {
                            if i != m.y {
                                assert(grid@[i] == before[i]);
                            }
                        }
                    }
                }
            }
            k = k + 1;
        }
        assert(marks@.take(marks.len() as int) =~= marks@);
        let ghost painted = views(grid@);
        let mut s = String::new();
        let mut y: usize = 0;
        while y < h
            invariant
                y <= h,
                grid@.len() == h,
                painted == views(grid@),
                s@ == join_lines(painted.take(y as int)),
            decreases h - y,
        {
            let ghost start = s@;
            if y > 0 {
                push_char(&mut s, '\n');
            }
            let ghost mid = s@;
            let row = &grid[y];
            let mut x: usize = 0;
            while x < row.len()
                invariant
                    x <= row.len(),
                    s@ == mid + row@.take(x as int),
                decreases row.len() - x,
            {
                push_char(&mut s, row[x]);
                assert(row@.take(x + 1) =~= row@.take(x as int).push(row@[x as int]));
                x = x + 1;
            }
            proof {
                assert(row@.take(row.len() as int) =~= row@);
                let pre = painted.take(y + 1);
                assert(pre.drop_last() =~= painted.take(y as int));
                assert(pre.last() == row@);
                if y == 0 {
                    assert(s@ =~= row@);
                } else {
                    assert(s@ =~= start + "\n"@ + row@) by {
                        reveal_strlit("\n");
                    }
                }
            }
            y = y + 1;
        }
        assert(painted.take(h as int) =~= painted);
        s
    }
}

} // verus!
