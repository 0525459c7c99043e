use lambda_diagram::{max_depth, Diagram, Term};

#[test]
fn test_max_depth() {
    let results = vec![
        // I
        (Term::abs(Term::var(1)), 1),
        // K
        (Term::abs(Term::abs(Term::var(2))), 2),
        // S
        (
            Term::abs(Term::abs(Term::abs(Term::app(
                Term::app(Term::var(3), Term::var(1)),
                Term::app(Term::var(2), Term::var(1)),
            )))),
            3,
        ),
        // Y
        (
            Term::abs(Term::app(
                Term::abs(Term::app(Term::var(2), Term::app(Term::var(1), Term::var(1)))),
                Term::abs(Term::app(Term::var(2), Term::app(Term::var(1), Term::var(1)))),
            )),
            2,
        ),
        // false
        (Term::abs(Term::abs(Term::var(1))), 2),
        // Church 2
        (
            Term::abs(Term::abs(Term::app(
                Term::var(2),
                Term::app(Term::var(2), Term::var(1)),
            ))),
            2,
        ),
        // Church 3
        (
            Term::abs(Term::abs(Term::app(
                Term::var(2),
                Term::app(Term::var(2), Term::app(Term::var(2), Term::var(1))),
            ))),
            2,
        ),
        // Church 4
        (
            Term::abs(Term::abs(Term::app(
                Term::var(2),
                Term::app(
                    Term::var(2),
                    Term::app(Term::var(2), Term::app(Term::var(2), Term::var(1))),
                ),
            ))),
            2,
        ),
        // predecessor
        (
            Term::abs(Term::abs(Term::abs(Term::app(
                Term::app(
                    Term::app(
                        Term::var(3),
                        Term::abs(Term::abs(Term::app(
                            Term::var(1),
                            Term::app(Term::var(2), Term::var(4)),
                        ))),
                    ),
                    Term::abs(Term::var(2)),
                ),
                Term::abs(Term::var(1)),
            )))),
            5,
        ),
    ];
    for (term, expected) in results {
        let result = max_depth(&term);
        assert_eq!(
            result, expected,
            "max_depth of {:?} should be {}",
            term, expected
        );
    }
}
