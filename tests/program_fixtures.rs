use lambda_diagram::{Diagram, Term};

#[test]
fn main_test_identity() {
    let term = Term::abs(Term::var(1));
    let diagram = Diagram::from(term);
    assert_eq!(diagram.width(), 3);
    assert_eq!(diagram.height(), 4);
    assert_eq!(diagram.row(0), vec!['.', '.', '.']);
    assert_eq!(diagram.row(1), vec![' ', '.', ' ']);
    assert_eq!(diagram.row(2), vec![' ', '.', ' ']);
    assert_eq!(diagram.row(3), vec![' ', '.', ' ']);
}

#[test]
fn main_test_k() {
    let term = Term::abs(Term::abs(Term::var(2)));
    let diagram = Diagram::from(term);
    assert_eq!(diagram.width(), 3);
    assert_eq!(diagram.height(), 6);
    assert_eq!(diagram.row(0), vec!['.', '.', '.']);
    assert_eq!(diagram.row(1), vec![' ', '.', ' ']);
    assert_eq!(diagram.row(2), vec!['.', '.', '.']);
    assert_eq!(diagram.row(3), vec![' ', '.', ' ']);
    assert_eq!(diagram.row(4), vec![' ', '.', ' ']);
    assert_eq!(diagram.row(5), vec![' ', '.', ' ']);
}

#[test]
fn main_test_false() {
    let term = Term::abs(Term::abs(Term::var(1)));
    let diagram = Diagram::from(term);
    assert_eq!(diagram.width(), 3);
    assert_eq!(diagram.height(), 6);
    assert_eq!(diagram.row(0), vec!['.', '.', '.']);
    assert_eq!(diagram.row(1), vec![' ', ' ', ' ']);
    assert_eq!(diagram.row(2), vec!['.', '.', '.']);
    assert_eq!(diagram.row(3), vec![' ', '.', ' ']);
    assert_eq!(diagram.row(4), vec![' ', '.', ' ']);
    assert_eq!(diagram.row(5), vec![' ', '.', ' ']);
}

#[test]
fn main_test_s() {
    let term = Term::abs(Term::abs(Term::abs(Term::app(
        Term::app(Term::var(3), Term::var(1)),
        Term::app(Term::var(2), Term::var(1)),
    ))));
    let diagram = Diagram::from(term);
    let resultstring = diagram.to_string().replace("\u{2588}", ".");
    assert_eq!(
        resultstring,
        vec![
            "...............",
            " .             ",
            "...............",
            " .       .     ",
            "...............",
            " .   .   .   . ",
            " .   .   .   . ",
            " .   .   .   . ",
            " .....   ..... ",
            " .       .     ",
            " .........     ",
            " .             ",
        ]
        .join("\n")
            + "\n"
    );
}

#[test]
fn main_test_2() {
    let term = Term::abs(Term::abs(Term::app(
        Term::var(2),
        Term::app(Term::var(2), Term::var(1)),
    )));
    let diagram = Diagram::from(term);
    let resultstring = diagram.to_string().replace("\u{2588}", ".");
    assert_eq!(
        resultstring,
        vec![
            "...........",
            " .   .     ",
            "...........",
            " .   .   . ",
            " .   .   . ",
            " .   .   . ",
            " .   ..... ",
            " .   .     ",
            " .....     ",
            " .         ",
        ]
        .join("\n")
            + "\n"
    );
}

#[test]
fn main_test_3() {
    let term = Term::abs(Term::abs(Term::app(
        Term::var(2),
        Term::app(Term::var(2), Term::app(Term::var(2), Term::var(1))),
    )));
    let diagram = Diagram::from(term);
    let resultstring = diagram.to_string().replace("\u{2588}", ".");
    assert_eq!(
        resultstring,
        vec![
            "...............",
            " .   .   .     ",
            "...............",
            " .   .   .   . ",
            " .   .   .   . ",
            " .   .   .   . ",
            " .   .   ..... ",
            " .   .   .     ",
            " .   .....     ",
            " .   .         ",
            " .....         ",
            " .             ",
        ]
        .join("\n")
            + "\n"
    );
}
