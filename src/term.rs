use vstd::prelude::*;

verus! {

/// A lambda term in de Bruijn notation: `Var(k)` refers to the `k`-th
/// enclosing abstraction, counting outward from the variable, nearest = 1.
#[derive(Debug)]
pub enum Term {
    Var(usize),
    Abs(Box<Term>),
    App(Box<Term>, Box<Term>),
}

impl Term {
    /// Number of nodes of the term tree.
    pub open spec fn size(self) -> nat
        decreases self,
    {
        match self {
            Term::Var(_) => 1,
            Term::Abs(b) => 1 + b.size(),
            Term::App(l, r) => 1 + l.size() + r.size(),
        }
    }

    /// Number of variable leaves.
    pub open spec fn leaves(self) -> nat
        decreases self,
    {
        match self {
            Term::Var(_) => 1,
            Term::Abs(b) => b.leaves(),
            Term::App(l, r) => l.leaves() + r.leaves(),
        }
    }

    /// The greatest number of abstractions on a path from the root to a leaf.
    pub open spec fn depth(self) -> nat
        decreases self,
    {
        match self {
            Term::Var(_) => 0,
            Term::Abs(b) => 1 + b.depth(),
            Term::App(l, r) => if l.depth() >= r.depth() {
                l.depth()
            } else {
                r.depth()
            },
        }
    }

    /// A variable with de Bruijn index `index`.
    pub fn var(index: usize) -> (t: Term)
        ensures
            t == Term::Var(index),
    {
        Term::Var(index)
    }

    /// An abstraction over `body`.
    pub fn abs(body: Term) -> (t: Term)
        ensures
            t == Term::Abs(Box::new(body)),
    {
        Term::Abs(Box::new(body))
    }

    /// The application of `lhs` to `rhs`.
    pub fn app(lhs: Term, rhs: Term) -> (t: Term)
        ensures
            t == Term::App(Box::new(lhs), Box::new(rhs)),
    {
        Term::App(Box::new(lhs), Box::new(rhs))
    }

    /// The number of nodes, when it is at most `limit`.
    pub fn count_nodes(&self, limit: usize) -> (r: Option<usize>)
        ensures
            r == (if self.size() <= limit {
                Some(self.size() as usize)
            } else {
                None::<usize>
            }),
        decreases self,
    {
        if limit == 0 {
            return None;
        }
        match self {
            Term::Var(_) => Some(1),
            Term::Abs(b) => match b.count_nodes(limit - 1) {
                Some(n) => Some(n + 1),
                None => None,
            },
            Term::App(l, r) => match l.count_nodes(limit - 1) {
                Some(a) => match r.count_nodes(limit - 1 - a) {
                    Some(b) => Some(a + b + 1),
                    None => None,
                },
                None => None,
            },
        }
    }
}

/// The greatest number of abstractions on any path from the root of `term`
/// to a variable leaf.
pub fn max_depth(term: &Term) -> (r: usize)
    requires
        term.size() <= usize::MAX,
    ensures
        r == term.depth(),
    decreases term,
{
    proof {
        lemma_depth_below_size(*term);
    }
    match term {
        Term::App(l, r) => {
            let a = max_depth(l);
            let b = max_depth(r);
            if a >= b {
                a
            } else {
                b
            }
        },
        Term::Abs(b) => 1 + max_depth(b),
        Term::Var(_) => 0,
    }
}

/// A term has fewer abstraction levels than nodes, and no more leaves.
pub proof fn lemma_depth_below_size(t: Term)
    ensures
        t.depth() < t.size(),
        1 <= t.leaves() <= t.size(),
    decreases t,
{
    match t {
        Term::Var(_) => {},
        Term::Abs(b) => lemma_depth_below_size(*b),
        Term::App(l, r) => {
            lemma_depth_below_size(*l);
            lemma_depth_below_size(*r);
        },
    }
}

/// The variable leaves of `t` in pre-order, left to right, each as the pair
/// (number of abstractions above it, counted from the root of the whole term,
/// its de Bruijn index), when `t` itself stands under `depth` abstractions.
pub open spec fn occurrences(t: Term, depth: nat) -> Seq<(nat, nat)>
    decreases t,
{
    match t {
        Term::Var(k) => seq![(depth, k as nat)],
        Term::Abs(b) => occurrences(*b, depth + 1),
        Term::App(l, r) => occurrences(*l, depth) + occurrences(*r, depth),
    }
}

/// The pairs of `occurrences`, with the integers that hold them.
pub open spec fn occurrences_match(v: Seq<(usize, usize)>, occ: Seq<(nat, nat)>) -> bool {
    &&& v.len() == occ.len()
    &&& forall|i: int| 0 <= i < v.len() ==> (v[i].0 as nat, v[i].1 as nat) == #[trigger] occ[i]
}

/// There is one occurrence per leaf, and each lies between `depth` and
/// `depth + t.depth()` abstractions deep.
pub proof fn lemma_occurrences(t: Term, depth: nat)
    ensures
        occurrences(t, depth).len() == t.leaves(),
        forall|i: int|
            0 <= i < occurrences(t, depth).len() ==> depth <= #[trigger] occurrences(t, depth)[i].0
                <= depth + t.depth(),
    decreases t,
{
    match t {
        Term::Var(_) => {},
        Term::Abs(b) => lemma_occurrences(*b, depth + 1),
        Term::App(l, r) => {
            lemma_occurrences(*l, depth);
            lemma_occurrences(*r, depth);
            let a = occurrences(*l, depth);
            let c = occurrences(*r, depth);
            assert forall|i: int| 0 <= i < (a + c).len() implies depth <= #[trigger] (a + c)[i].0
                <= depth + t.depth() by {
                if i >= a.len() {
                    assert((a + c)[i] == c[i - a.len()]);
                }
            }
        },
    }
}

/// For every variable leaf of `term`, in pre-order, the number of
/// abstractions above it (starting from `depth` for `term` itself) and its
/// de Bruijn index.
pub fn variable_connections(term: &Term, depth: usize) -> (r: Vec<(usize, usize)>)
    requires
        depth + term.depth() <= usize::MAX,
    ensures
        occurrences_match(r@, occurrences(*term, depth as nat)),
    decreases term,
{
    match term {
        Term::App(lhs, rhs) => {
            let mut result = variable_connections(lhs, depth);
            let mut tail = variable_connections(rhs, depth);
            let ghost a = result@;
            let ghost c = tail@;
            result.append(&mut tail);
            proof {
                let occ = occurrences(*term, depth as nat);
                let ol = occurrences(**lhs, depth as nat);
                assert forall|i: int| 0 <= i < result@.len() implies (
                result@[i].0 as nat,
                result@[i].1 as nat,
            ) == #[trigger] occ[i] by {
                    if i < a.len() {
                        assert(result@[i] == a[i]);
                        assert(occ[i] == ol[i]);
                    } else {
                        assert(result@[i] == c[i - a.len()]);
                    }
                }
            }
            result
        },
        Term::Abs(body) => variable_connections(body, depth + 1),
        Term::Var(index) => vec![(depth, *index)],
    }
}

} // verus!
