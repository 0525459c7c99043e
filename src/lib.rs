//! Tromp-style diagrams of lambda terms: abstractions become horizontal bars,
//! variable occurrences vertical wires, and applications side-by-side
//! composition joined by a junction line.

pub mod diagram;
pub mod layout;
pub mod notation;
pub mod term;

pub use diagram::{
    cells_of_diagram, diagram_text, grid_width, lemma_cells_of_diagram_lines, lemma_text_glyphs,
    line_of, text_of, Diagram,
};
pub use layout::{
    diagram, diagram_of, lemma_abstraction_dims, lemma_application_dims, lemma_single_output,
    lemma_variable_stub, merge, stub, wrap, MAX_TERM_SIZE,
};
pub use notation::{
    classic_term, debruijn_term, render_from_classic, render_from_debrujin, render_parsed, rendered,
    ParseFailure, RenderError,
};
pub use term::{max_depth, occurrences, variable_connections, Term};
