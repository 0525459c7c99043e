use vstd::prelude::*;

use crate::diagram::{grid_width, lemma_rectangular_width, lemma_rows_view_push, rows_view, Diagram};
use crate::term::{lemma_depth_below_size, lemma_occurrences, occurrences, variable_connections, Term};

verus! {

/// The largest term that can be rendered: all sizes and counters of its
/// diagram then fit in a `usize`.
pub const MAX_TERM_SIZE: usize = usize::MAX / 4;

/// The diagram of a variable: a wire two cells high in the middle of three
/// columns.
pub open spec fn stub() -> Seq<Seq<bool>> {
    seq![seq![false, true, false], seq![false, true, false]]
}

/// An occurrence (depth, index) is bound by the abstraction at `depth` or by
/// one that encloses it. A free variable, whose index exceeds the number of
/// abstractions above it, counts as bound by every abstraction above it, so
/// its wire rises through all their bars; an index of 0 is bound by none.
pub open spec fn reaches(occ: (nat, nat), depth: nat) -> bool {
    occ.0 - occ.1 + 1 <= depth
}

/// The row under a binder's bar: a tick at column `1 + 4 * i` for each
/// occurrence `i` that the binder or one above it binds.
pub open spec fn tick_row(occ: Seq<(nat, nat)>, depth: nat, w: nat) -> Seq<bool> {
    Seq::new(w, |x: int| x % 4 == 1 && x / 4 < occ.len() && reaches(occ[x / 4], depth))
}

/// An abstraction at `depth` over a body with diagram `body` and
/// occurrences `occ`: a full bar, the tick row, then the body.
pub open spec fn wrap(body: Seq<Seq<bool>>, occ: Seq<(nat, nat)>, depth: nat) -> Seq<Seq<bool>> {
    let w = grid_width(body);
    Seq::new(
        body.len() + 2,
        |y: int|
            if y == 0 {
                Seq::new(w, |x: int| true)
            } else if y == 1 {
                tick_row(occ, depth, w)
            } else {
                body[y - 2]
            },
    )
}

/// The height of an application of diagrams of heights `lh` and `rh`.
pub open spec fn merged_height(lh: nat, rh: nat) -> nat {
    if lh >= rh {
        lh + 2
    } else {
        rh + 2
    }
}

/// Cell (y, x) of the application of `l` to `r`.
pub open spec fn merged_cell(l: Seq<Seq<bool>>, r: Seq<Seq<bool>>, y: int, x: int) -> bool {
    let lw = grid_width(l);
    let h = merged_height(l.len(), r.len());
    if y == h - 1 {
        x == 1
    } else {
        ||| y == h - 2 && 1 <= x < lw + 3
        ||| x == 1 && l.len() - 1 <= y
        ||| x == lw + 2 && r.len() - 1 <= y
        ||| x < lw && y < l.len() && x < l[y].len() && l[y][x]
        ||| lw < x && y < r.len() && x - lw - 1 < r[y].len() && r[y][x - lw - 1]
    }
}

/// The application of `l` to `r`: the two side by side with a blank column
/// between, both wires dropped to a junction bar, and one wire out below.
pub open spec fn merge(l: Seq<Seq<bool>>, r: Seq<Seq<bool>>) -> Seq<Seq<bool>> {
    Seq::new(
        merged_height(l.len(), r.len()),
        |y: int| Seq::new(grid_width(l) + grid_width(r) + 1, |x: int| merged_cell(l, r, y, x)),
    )
}

/// The diagram of `t`, when `t` stands under `depth` abstractions.
pub open spec fn diagram_of(t: Term, depth: nat) -> Seq<Seq<bool>>
    decreases t,
{
    match t {
        Term::Var(_) => stub(),
        Term::Abs(b) => wrap(diagram_of(*b, depth + 1), occurrences(*b, depth + 1), depth + 1),
        Term::App(l, r) => merge(diagram_of(*l, depth), diagram_of(*r, depth)),
    }
}

/// The diagram of a whole term.
pub open spec fn diagram(t: Term) -> Seq<Seq<bool>> {
    diagram_of(t, 0)
}

/// Every row of `g` has length `w`.
pub open spec fn rectangular(g: Seq<Seq<bool>>, w: nat) -> bool {
    forall|y: int| 0 <= y < g.len() ==> #[trigger] g[y].len() == w
}

/// A diagram is rectangular, `4 * leaves - 1` wide, between two and
/// `2 * size` rows high, and its last row holds one filled cell, at column 1.
pub proof fn lemma_shape(t: Term, depth: nat)
    ensures
        rectangular(diagram_of(t, depth), (4 * t.leaves() - 1) as nat),
        grid_width(diagram_of(t, depth)) == 4 * t.leaves() - 1,
        2 <= diagram_of(t, depth).len() <= 2 * t.size(),
        forall|x: int|
            0 <= x < 4 * t.leaves() - 1 ==> #[trigger] diagram_of(t, depth).last()[x] == (x == 1),
    decreases t,
{
    lemma_depth_below_size(t);
    let g = diagram_of(t, depth);
    let w = (4 * t.leaves() - 1) as nat;
    match t {
        Term::Var(_) => {
            assert(g[0] =~= seq![false, true, false]);
        },
        Term::Abs(b) => {
            lemma_shape(*b, depth + 1);
            lemma_rectangular_width(diagram_of(*b, depth + 1), w);
            assert(g.last() == diagram_of(*b, depth + 1).last());
        },
        Term::App(l, r) => {
            lemma_shape(*l, depth);
            lemma_shape(*r, depth);
            lemma_rectangular_width(diagram_of(*l, depth), (4 * l.leaves() - 1) as nat);
            lemma_rectangular_width(diagram_of(*r, depth), (4 * r.leaves() - 1) as nat);
        },
    }
    lemma_rectangular_width(g, w);
}

/// A row of `w` cells, all `value`.
fn uniform_row(w: usize, value: bool) -> (r: Vec<bool>)
    ensures
        r@ == Seq::new(w as nat, |x: int| value),
{
    let mut r: Vec<bool> = Vec::new();
    let mut x: usize = 0;
    while x < w
        invariant
            x <= w,
            r@ == Seq::new(x as nat, |i: int| value),
        decreases w - x,
    {
        r.push(value);
        x = x + 1;
        assert(r@ =~= Seq::new(x as nat, |i: int| value));
    }
    r
}

/// A copy of `row`.
fn copy_row(row: &Vec<bool>) -> (r: Vec<bool>)
    ensures
        r@ == row@,
{
    let mut r: Vec<bool> = Vec::new();
    let mut x: usize = 0;
    while x < row.len()
        invariant
            x <= row.len(),
            r@ == row@.take(x as int),
        decreases row.len() - x,
    {
        r.push(row[x]);
        x = x + 1;
        assert(r@ =~= row@.take(x as int));
    }
    assert(row@.take(x as int) =~= row@);
    r
}

impl Diagram {
    /// The diagram of a whole term.
    pub fn from(term: Term) -> (d: Diagram)
        requires
            term.size() <= MAX_TERM_SIZE,
        ensures
            d@ == diagram(term),
    {
        render(&term, 0)
    }
}

/// Every diagram is at least two rows high and three columns wide, and its
/// last row holds exactly one filled cell, at column 1.
pub proof fn lemma_single_output(t: Term)
    ensures
        diagram(t).len() >= 2,
        grid_width(diagram(t)) >= 3,
        forall|x: int|
            0 <= x < grid_width(diagram(t)) ==> (#[trigger] diagram(t).last()[x] <==> x == 1),
{
    lemma_shape(t, 0);
    lemma_depth_below_size(t);
}

/// A variable, whatever its index, is drawn as a grid of three columns and
/// two rows, filled in column 1 and blank in columns 0 and 2.
pub proof fn lemma_variable_stub(index: usize, depth: nat)
    ensures
        diagram_of(Term::Var(index), depth).len() == 2,
        grid_width(diagram_of(Term::Var(index), depth)) == 3,
        forall|y: int, x: int|
            0 <= y < 2 && 0 <= x < 3 ==> #[trigger] diagram_of(Term::Var(index), depth)[y][x] == (x
                == 1),
{
    lemma_shape(Term::Var(index), depth);
}

/// An abstraction is two rows higher than its body and exactly as wide.
pub proof fn lemma_abstraction_dims(body: Term, depth: nat)
    ensures
        diagram_of(Term::Abs(Box::new(body)), depth).len() == diagram_of(body, depth + 1).len()
            + 2,
        grid_width(diagram_of(Term::Abs(Box::new(body)), depth)) == grid_width(
            diagram_of(body, depth + 1),
        ),
{
    lemma_shape(Term::Abs(Box::new(body)), depth);
    lemma_shape(body, depth + 1);
}

/// An application is as wide as its two sides and one column more, and two
/// rows higher than the higher side.
pub proof fn lemma_application_dims(lhs: Term, rhs: Term, depth: nat)
    ensures
        ({
            let d = diagram_of(Term::App(Box::new(lhs), Box::new(rhs)), depth);
            let l = diagram_of(lhs, depth);
            let r = diagram_of(rhs, depth);
            &&& grid_width(d) == grid_width(l) + grid_width(r) + 1
            &&& d.len() == (if l.len() >= r.len() {
                l.len()
            } else {
                r.len()
            }) + 2
        }),
{
    lemma_shape(Term::App(Box::new(lhs), Box::new(rhs)), depth);
    lemma_shape(lhs, depth);
    lemma_shape(rhs, depth);
}

/// The row under the bar of an abstraction at `depth` whose body is `w`
/// cells wide and has the occurrences `vars`.
fn ticks(
    vars: &Vec<(usize, usize)>,
    occ: Ghost<Seq<(nat, nat)>>,
    depth: usize,
    w: usize,
) -> (r: Vec<bool>)
    requires
        crate::term::occurrences_match(vars@, occ@),
        4 * vars@.len() <= w + 1,
    ensures
        r@ == tick_row(occ@, depth as nat, w as nat),
{
    let mut r = uniform_row(w, false);
    let mut i: usize = 0;
    while i < vars.len()
        invariant
            crate::term::occurrences_match(vars@, occ@),
            4 * vars@.len() <= w + 1,
            i <= vars.len(),
            r@ == Seq::new(
                w as nat,
                |x: int| x % 4 == 1 && x / 4 < i && reaches(occ@[x / 4], depth as nat),
            ),
        decreases vars.len() - i,
    {
        let (depth_of_variable, index) = vars[i];
        assert((depth_of_variable as nat, index as nat) == occ@[i as int]);
        let bound_here = index > depth_of_variable || depth_of_variable - index < depth;
        if bound_here {
            r.set(1 + 4 * i, true);
        }
        i = i + 1;
        assert(r@ =~= Seq::new(
            w as nat,
            |x: int| x % 4 == 1 && x / 4 < i && reaches(occ@[x / 4], depth as nat),
        ));
    }
    assert(r@ =~= tick_row(occ@, depth as nat, w as nat));
    r
}

/// Renders `term`, which stands under `depth` abstractions.
fn render(term: &Term, depth: usize) -> (d: Diagram)
    requires
        depth + 4 * term.size() <= usize::MAX,
    ensures
        d@ == diagram_of(*term, depth as nat),
    decreases term,
{
    proof {
        lemma_depth_below_size(*term);
        lemma_shape(*term, depth as nat);
    }
    match term {
        Term::App(lhs, rhs) => {
            let lhs_diagram = render(lhs, depth);
            let rhs_diagram = render(rhs, depth);
            merge_diagrams(&lhs_diagram, &rhs_diagram, Ghost(**lhs), Ghost(**rhs), Ghost(depth as nat))
        },
        Term::Abs(body) => {
            let depth = depth + 1;
            let body_variables = variable_connections(body, depth);
            let body_diagram = render(body, depth);
            proof {
                lemma_occurrences(**body, depth as nat);
                lemma_shape(**body, depth as nat);
            }
            let w = body_diagram.width();
            let body_rows = body_diagram.rows();
            let ghost g = diagram_of(**body, depth as nat);
            let mut rows: Vec<Vec<bool>> = Vec::new();
            rows.push(uniform_row(w, true));
            rows.push(ticks(&body_variables, Ghost(occurrences(**body, depth as nat)), depth, w));
            let mut y: usize = 0;
            while y < body_rows.len()
                invariant
                    rows_view(body_rows@) == g,
                    y <= body_rows.len(),
                    rows_view(rows@) == wrap(g, occurrences(**body, depth as nat), depth as nat).take(
                        y + 2,
                    ),
                decreases body_rows.len() - y,
            {
                let row = copy_row(&body_rows[y]);
                assert(row@ == g[y as int]);
                proof {
                    lemma_rows_view_push(rows@, row);
                }
                rows.push(row);
                y = y + 1;
                assert(rows_view(rows@) =~= wrap(g, occurrences(**body, depth as nat), depth as nat).take(
                    y + 2,
                ));
            }
            assert(wrap(g, occurrences(**body, depth as nat), depth as nat).take(y + 2) =~= wrap(
                g,
                occurrences(**body, depth as nat),
                depth as nat,
            ));
            Diagram::from_rows(rows)
        },
        Term::Var(_) => {
            let rows = vec![vec![false, true, false], vec![false, true, false]];
            assert(rows_view(rows@) =~= stub());
            Diagram::from_rows(rows)
        },
    }
}

/// The application of the diagram `lhs` of `l` to the diagram `rhs` of `r`.
fn merge_diagrams(
    lhs: &Diagram,
    rhs: &Diagram,
    l: Ghost<Term>,
    r: Ghost<Term>,
    depth: Ghost<nat>,
) -> (d: Diagram)
    requires
        lhs@ == diagram_of(l@, depth@),
        rhs@ == diagram_of(r@, depth@),
        4 * (l@.size() + r@.size() + 1) <= usize::MAX,
    ensures
        d@ == merge(lhs@, rhs@),
{
    proof {
        lemma_shape(l@, depth@);
        lemma_shape(r@, depth@);
        lemma_depth_below_size(l@);
        lemma_depth_below_size(r@);
    }
    let lw = lhs.width();
    let rw = rhs.width();
    let lh = lhs.height();
    let rh = rhs.height();
    let final_height = if lh >= rh { lh + 2 } else { rh + 2 };
    let mut rows: Vec<Vec<bool>> = Vec::new();
    let mut y: usize = 0;
    while y < final_height
        invariant
            lw == grid_width(lhs@),
            rw == grid_width(rhs@),
            lh == lhs@.len(),
            rh == rhs@.len(),
            rectangular(lhs@, lw as nat),
            rectangular(rhs@, rw as nat),
            2 <= lh,
            2 <= rh,
            3 <= lw,
            3 <= rw,
            lw + rw + 4 <= usize::MAX,
            final_height == merged_height(lh as nat, rh as nat),
            y <= final_height,
            rows_view(rows@) == merge(lhs@, rhs@).take(y as int),
        decreases final_height - y,
    {
        let row = merged_row(lhs, rhs, y, lw, rw, final_height);
        assert(row@ =~= merge(lhs@, rhs@)[y as int]);
        proof {
            lemma_rows_view_push(rows@, row);
        }
        rows.push(row);
        y = y + 1;
        assert(rows_view(rows@) =~= merge(lhs@, rhs@).take(y as int));
    }
    assert(merge(lhs@, rhs@).take(y as int) =~= merge(lhs@, rhs@));
    Diagram::from_rows(rows)
}

/// Row `y` of the application of `lhs` to `rhs`: the two rows side by side,
/// then the wires, the junction bar and the output wire drawn over them.
fn merged_row(
    lhs: &Diagram,
    rhs: &Diagram,
    y: usize,
    lw: usize,
    rw: usize,
    final_height: usize,
) -> (r: Vec<bool>)
    requires
        lw == grid_width(lhs@),
        rw == grid_width(rhs@),
        rectangular(lhs@, lw as nat),
        rectangular(rhs@, rw as nat),
        2 <= lhs@.len(),
        2 <= rhs@.len(),
        3 <= lw,
        3 <= rw,
        lw + rw + 4 <= usize::MAX,
        final_height == merged_height(lhs@.len(), rhs@.len()),
        y < final_height,
    ensures
        r@ == Seq::new((lw + rw + 1) as nat, |x: int| merged_cell(lhs@, rhs@, y as int, x)),
{
    let lhs_rows = lhs.rows();
    let rhs_rows = rhs.rows();
    let lh = lhs_rows.len();
    let rh = rhs_rows.len();
    let ghost l = lhs@;
    let ghost rr = rhs@;
    let mut row: Vec<bool> = Vec::new();
    let mut x: usize = 0;
    while x < lw
        invariant
            rows_view(lhs_rows@) == l,
            lh == l.len(),
            rectangular(l, lw as nat),
            x <= lw,
            row@ == Seq::new(x as nat, |i: int| y < lh && l[y as int][i]),
        decreases lw - x,
    {
        row.push(y < lh && lhs_rows[y][x]);
        x = x + 1;
        assert(row@ =~= Seq::new(x as nat, |i: int| y < lh && l[y as int][i]));
    }
    row.push(false);
    let mut x: usize = 0;
    while x < rw
        invariant
            rows_view(rhs_rows@) == rr,
            rh == rr.len(),
            rectangular(rr, rw as nat),
            x <= rw,
            lw + rw + 4 <= usize::MAX,
            row@ == Seq::new(lw as nat, |i: int| y < lh && l[y as int][i]) + seq![false]
                + Seq::new(x as nat, |i: int| y < rh && rr[y as int][i]),
        decreases rw - x,
    {
        row.push(y < rh && rhs_rows[y][x]);
        x = x + 1;
        assert(row@ =~= Seq::new(lw as nat, |i: int| y < lh && l[y as int][i]) + seq![false]
            + Seq::new(x as nat, |i: int| y < rh && rr[y as int][i]));
    }
    assert(row@.len() == lw + 1 + rw);
    // Drop the left wire down to the junction bar.
    if lh - 1 <= y && y < final_height - 1 {
        row.set(1, true);
    }
    // Drop the right wire down to the junction bar.
    if rh - 1 <= y && y < final_height - 1 {
        row.set(lw + 2, true);
    }
    // The junction bar spans both wires.
    if y == final_height - 2 {
        let ghost before_bar = row@;
        let mut x: usize = 1;
        while x < lw + 3
            invariant
                1 <= x <= lw + 3,
                3 <= rw,
                lw + rw + 4 <= usize::MAX,
                before_bar.len() == lw + rw + 1,
                row@.len() == lw + rw + 1,
                forall|i: int|
                    0 <= i < row@.len() ==> #[trigger] row@[i] == (before_bar[i] || 1 <= i < x),
            decreases lw + 3 - x,
        {
            row.set(x, true);
            x = x + 1;
        }
    }
    // The output wire.
    if y == final_height - 1 {
        row.set(1, true);
    }
    assert(row@ =~= Seq::new((lw + rw + 1) as nat, |x: int| merged_cell(l, rr, y as int, x)));
    row
}

} // verus!
