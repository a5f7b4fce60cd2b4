//! Lexical front end of a finite-state-machine description language, with
//! the data model that a parser of that language fills in.
pub mod char_class;
pub mod fsm_syntax;
pub mod lexical_analyzer;
pub mod scan_laws;
