pub mod lexer;
pub mod types;
pub mod parser;
pub mod token_stream;
pub mod grammar;
pub mod names;
pub mod semantic_analysis;
pub mod resolve_loops;
pub mod name_map;
pub mod resolve_labels;
pub mod resolve_lvalues;
pub mod resolve_identifiers;
pub mod resolve_types;
pub mod tacky;
pub mod codegen;
pub mod codeemission;
pub mod semantic_laws;
pub mod resolve_variables;
pub mod evaluation;
pub mod short_circuit;
