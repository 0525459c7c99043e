use vstd::prelude::*;

verus! {

/// A grid of cells, each filled or blank, as a sequence of rows.
pub struct Diagram {
    cells: Vec<Vec<bool>>,
}

/// The rows of `rows` as sequences.
pub open spec fn rows_view(rows: Seq<Vec<bool>>) -> Seq<Seq<bool>> {
    rows.map_values(|row: Vec<bool>| row@)
}

impl View for Diagram {
    type V = Seq<Seq<bool>>;

    closed spec fn view(&self) -> Seq<Seq<bool>> {
        rows_view(self.cells@)
    }
}

/// Pushing a row pushes its view.
pub proof fn lemma_rows_view_push(rows: Seq<Vec<bool>>, row: Vec<bool>)
    ensures
        rows_view(rows.push(row)) == rows_view(rows).push(row@),
{
    assert(rows_view(rows.push(row)) =~= rows_view(rows).push(row@));
}

/// The length of the longest row (0 for a grid without rows).
pub open spec fn grid_width(g: Seq<Seq<bool>>) -> nat
    decreases g.len(),
{
    if g.len() == 0 {
        0
    } else {
        let w = grid_width(g.drop_last());
        if g.last().len() > w {
            g.last().len()
        } else {
            w
        }
    }
}

/// One row as a line of `w` characters and a newline: `filled` for a filled
/// cell, a space for a blank one and for each place past the row's end.
pub open spec fn line_of(row: Seq<bool>, w: nat, filled: char) -> Seq<char> {
    Seq::new(w, |x: int| if x < row.len() && row[x] { filled } else { ' ' }) + seq!['\n']
}

/// The lines of all rows, top to bottom, each `w` characters wide.
pub open spec fn text_of(g: Seq<Seq<bool>>, w: nat, filled: char) -> Seq<char>
    decreases g.len(),
{
    if g.len() == 0 {
        Seq::empty()
    } else {
        text_of(g.drop_last(), w, filled) + line_of(g.last(), w, filled)
    }
}

/// The text of a diagram: one line per row, as wide as the widest row.
pub open spec fn diagram_text(g: Seq<Seq<bool>>, filled: char) -> Seq<char> {
    text_of(g, grid_width(g), filled)
}

/// Where all rows have length `w`, the grid's width is `w`.
pub proof fn lemma_rectangular_width(g: Seq<Seq<bool>>, w: nat)
    requires
        g.len() > 0,
        forall|y: int| 0 <= y < g.len() ==> #[trigger] g[y].len() == w,
    ensures
        grid_width(g) == w,
    decreases g.len(),
{
    if g.len() > 1 {
        let h = g.drop_last();
        assert forall|y: int| 0 <= y < h.len() implies #[trigger] h[y].len() == w by {
            assert(h[y] == g[y]);
        }
        lemma_rectangular_width(h, w);
    } else {
        assert(grid_width(g.drop_last()) == 0);
    }
    assert(g.last().len() == w);
}

/// The text of a grid has one line of `w + 1` characters per row: at column
/// `x` of line `y` stands `filled` exactly where the cell is filled, a space
/// elsewhere, and each line ends with a newline.
pub proof fn lemma_text_layout(g: Seq<Seq<bool>>, w: nat, filled: char)
    ensures
        text_of(g, w, filled).len() == g.len() * (w + 1),
        forall|y: int, x: int|
            0 <= y < g.len() && 0 <= x < w ==> #[trigger] text_of(g, w, filled)[y * (w + 1) + x]
                == (if x < g[y].len() && g[y][x] {
                filled
            } else {
                ' '
            }),
        forall|y: int|
            0 <= y < g.len() ==> #[trigger] text_of(g, w, filled)[y * (w + 1) + w] == '\n',
    decreases g.len(),
{
    if g.len() > 0 {
        let h = g.drop_last();
        lemma_text_layout(h, w, filled);
        let t = text_of(g, w, filled);
        let th = text_of(h, w, filled);
        let last = line_of(g.last(), w, filled);
        let n = h.len();
        assert(t == th + last);
        assert(th.len() == n * (w + 1));
        assert(g.len() * (w + 1) == n * (w + 1) + (w + 1)) by (nonlinear_arith)
            requires
                g.len() == n + 1,
        ;
        assert forall|y: int, x: int| 0 <= y < g.len() && 0 <= x < w implies #[trigger] t[y * (w
            + 1) + x] == (if x < g[y].len() && g[y][x] {
            filled
        } else {
            ' '
        }) by {
            if y < n {
                assert(y * (w + 1) + x < n * (w + 1)) by (nonlinear_arith)
                    requires
                        y < n,
                        0 <= x < w,
                ;
                assert(h[y] == g[y]);
            } else {
                assert(y * (w + 1) == n * (w + 1));
            }
        }
        assert forall|y: int| 0 <= y < g.len() implies #[trigger] t[y * (w + 1) + w] == '\n' by {
            if y < n {
                assert(y * (w + 1) + w < n * (w + 1)) by (nonlinear_arith)
                    requires
                        y < n,
                ;
            } else {
                assert(y * (w + 1) == n * (w + 1));
            }
        }
    }
}

/// Two texts of one grid differ only in the character of the filled cells:
/// where one has `a` the other has `b`, and elsewhere they agree.
pub proof fn lemma_glyphs_interchangeable(g: Seq<Seq<bool>>, w: nat, a: char, b: char)
    requires
        a != ' ' && a != '\n',
        b != ' ' && b != '\n',
    ensures
        text_of(g, w, a).len() == text_of(g, w, b).len(),
        forall|i: int|
            0 <= i < text_of(g, w, a).len() ==> {
                &&& (#[trigger] text_of(g, w, a)[i] == a <==> text_of(g, w, b)[i] == b)
                &&& (text_of(g, w, a)[i] != a ==> text_of(g, w, a)[i] == text_of(g, w, b)[i])
            },
    decreases g.len(),
{
    if g.len() > 0 {
        lemma_glyphs_interchangeable(g.drop_last(), w, a, b);
        let ta = text_of(g.drop_last(), w, a);
        let tb = text_of(g.drop_last(), w, b);
        let la = line_of(g.last(), w, a);
        let lb = line_of(g.last(), w, b);
        assert(text_of(g, w, a) == ta + la);
        assert(text_of(g, w, b) == tb + lb);
        assert forall|i: int| 0 <= i < (ta + la).len() implies {
            &&& (#[trigger] (ta + la)[i] == a <==> (tb + lb)[i] == b)
            &&& ((ta + la)[i] != a ==> (ta + la)[i] == (tb + lb)[i])
        } by {
            if i >= ta.len() {
                assert((ta + la)[i] == la[i - ta.len()]);
                assert((tb + lb)[i] == lb[i - ta.len()]);
            } else {
                assert((ta + la)[i] == ta[i]);
                assert((tb + lb)[i] == tb[i]);
            }
        }
    }
}

/// The period text and the full-block text of a diagram agree once the
/// filled-cell character is exchanged.
pub proof fn lemma_text_glyphs(g: Seq<Seq<bool>>)
    ensures
        diagram_text(g, '.').len() == diagram_text(g, '\u{2588}').len(),
        forall|i: int|
            0 <= i < diagram_text(g, '.').len() ==> {
                &&& (#[trigger] diagram_text(g, '.')[i] == '.' <==> diagram_text(g, '\u{2588}')[i]
                    == '\u{2588}')
                &&& (diagram_text(g, '.')[i] != '.' ==> diagram_text(g, '.')[i] == diagram_text(
                    g,
                    '\u{2588}',
                )[i])
            },
{
    lemma_glyphs_interchangeable(g, grid_width(g), '.', '\u{2588}');
}

/// Relies on String::push: appends `c` to the end of `s`.
#[verifier::external_body]
fn push_char(s: &mut String, c: char)
    ensures
        final(s)@ == old(s)@.push(c),
{
    s.push(c)
}

impl Diagram {
    /// The diagram with the given rows.
    pub(crate) fn from_rows(rows: Vec<Vec<bool>>) -> (d: Diagram)
        ensures
            d@ == rows_view(rows@),
    {
        Diagram { cells: rows }
    }

    /// The rows of the diagram.
    pub(crate) fn rows(&self) -> (r: &Vec<Vec<bool>>)
        ensures
            rows_view(r@) == self@,
    {
        &self.cells
    }

    /// The length of the longest row.
    pub fn width(&self) -> (r: usize)
        ensures
            r == grid_width(self@),
    {
        let ghost g = self@;
        let mut r: usize = 0;
        let mut i: usize = 0;
        while i < self.cells.len()
            invariant
                g == self@,
                i <= self.cells.len(),
                r == grid_width(g.take(i as int)),
            decreases self.cells.len() - i,
        {
            assert(g.take(i + 1).drop_last() =~= g.take(i as int));
            if self.cells[i].len() > r {
                r = self.cells[i].len();
            }
            i = i + 1;
        }
        assert(g.take(i as int) =~= g);
        r
    }

    /// The number of rows.
    pub fn height(&self) -> (r: usize)
        ensures
            r == self@.len(),
    {
        self.cells.len()
    }

    /// Row `y` as characters: `.` for a filled cell, a space for a blank one.
    pub fn row(&self, y: usize) -> (r: Vec<char>)
        requires
            y < self@.len(),
        ensures
            r@ == Seq::new(self@[y as int].len(), |x: int| if self@[y as int][x] { '.' } else { ' ' }),
    {
        let row = &self.cells[y];
        let mut r: Vec<char> = Vec::new();
        let mut x: usize = 0;
        while x < row.len()
            invariant
                x <= row.len(),
                row@ == self@[y as int],
                r@ == Seq::new(x as nat, |i: int| if row@[i] { '.' } else { ' ' }),
            decreases row.len() - x,
        {
            r.push(if row[x] { '.' } else { ' ' });
            x = x + 1;
            assert(r@ =~= Seq::new(x as nat, |i: int| if row@[i] { '.' } else { ' ' }));
        }
        r
    }

    /// The diagram as text: one line per row, as wide as the widest row,
    /// `filled` for a filled cell and a space for a blank one.
    pub fn text_with(&self, filled: char) -> (r: String)
        ensures
            r@ == diagram_text(self@, filled),
    {
        let w = self.width();
        let ghost g = self@;
        let mut r = String::new();
        let mut y: usize = 0;
        while y < self.cells.len()
            invariant
                g == self@,
                w == grid_width(g),
                y <= self.cells.len(),
                r@ == text_of(g.take(y as int), w as nat, filled),
            decreases self.cells.len() - y,
        {
            let row = &self.cells[y];
            let ghost before = r@;
            let mut x: usize = 0;
            while x < w
                invariant
                    x <= w,
                    row@ == g[y as int],
                    r@ == before + Seq::new(
                        x as nat,
                        |i: int| if i < row@.len() && row@[i] { filled } else { ' ' },
                    ),
                decreases w - x,
            {
                let c = if x < row.len() && row[x] { filled } else { ' ' };
                push_char(&mut r, c);
                x = x + 1;
                assert(r@ =~= before + Seq::new(
                    x as nat,
                    |i: int| if i < row@.len() && row@[i] { filled } else { ' ' },
                ));
            }
            push_char(&mut r, '\n');
            assert(g.take(y + 1).drop_last() =~= g.take(y as int));
            assert(r@ =~= text_of(g.take(y + 1), w as nat, filled));
            y = y + 1;
        }
        assert(g.take(y as int) =~= g);
        r
    }

    /// The diagram as text, with a full block for each filled cell.
    pub fn to_string(&self) -> (r: String)
        ensures
            r@ == diagram_text(self@, '\u{2588}'),
    {
        self.text_with('\u{2588}')
    }
}

/// The diagram as text, with a period for each filled cell.
pub fn cells_of_diagram(diagram: &Diagram) -> (r: String)
    ensures
        r@ == diagram_text(diagram@, '.'),
{
    diagram.text_with('.')
}

/// The text of a diagram has one line per row, each as long as the widest
/// row and followed by a newline, with a period exactly at each filled cell
/// and a space at each blank cell and past the end of a shorter row.
pub proof fn lemma_cells_of_diagram_lines(g: Seq<Seq<bool>>)
    ensures
        ({
            let w = grid_width(g);
            let t = diagram_text(g, '.');
            &&& t.len() == g.len() * (w + 1)
            &&& forall|y: int| 0 <= y < g.len() ==> #[trigger] t[y * (w + 1) + w] == '\n'
            &&& forall|y: int, x: int|
                0 <= y < g.len() && 0 <= x < w ==> (#[trigger] t[y * (w + 1) + x] == '.' <==> x
                    < g[y].len() && g[y][x])
        }),
{
    lemma_text_layout(g, grid_width(g), '.');
}

} // verus!
