//! Markdown parsing on an arena, HTML rendering, search indexing, site page
//! pieces and i18n tools (dictionaries, MessageFormat 2, key checks), with
//! their behaviour stated in contracts and proved.

pub mod allocator;
pub mod ast;
pub mod check_run;
pub mod checker;
pub mod dict_json;
pub mod dict_tree;
pub mod dict_yaml;
pub mod dictionary;
pub mod i18n_error;
pub mod inline;
pub mod key;
pub mod laws;
pub mod lexer_state;
pub mod locale;
pub mod lsp_queries;
pub mod md_keys;
pub mod md_lexer;
pub mod mf2_ast;
pub mod mf2_lexer;
pub mod mf2_parser;
pub mod mf2_validator;
pub mod og_image;
pub mod parser;
pub mod renderer;
pub mod scan;
pub mod search_index;
pub mod search_indexer;
pub mod search_tokenizer;
pub mod span;
pub mod ssg;
pub mod text;
pub mod toc;
pub mod transform;
