//! The shell (`/bin/init`): environment, line expansion, tokenizing,
//! pipelines and redirection.
pub mod envvars;
pub mod lexer;
pub mod paths;
pub mod parse;
pub mod shell;
