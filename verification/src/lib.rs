//! Parsers for the Acheron configuration language.
pub mod text;
pub mod str_map;
pub mod lexer;
pub mod nom_parser_impl;
pub mod chars;
pub mod headers;
pub mod combined_parser;
pub mod manual;
pub mod load_balancer;
pub mod idk;
pub mod sections;
pub mod ini;
pub mod structures;
