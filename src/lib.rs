pub mod bundle;
pub mod cli;
pub mod errors;
pub mod lex;
pub mod paths;
pub mod resolve;
pub mod resolver;
pub mod rewrite;
pub mod scan;
pub mod sourcemap;
pub mod text;
pub mod vlq;
pub mod watch;
pub mod writer;
