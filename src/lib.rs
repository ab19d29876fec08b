//! Turns annotated SQL query files into typed data-access source text.
pub mod text;
pub mod sqlfile;
pub mod php_lib;
pub mod php;
pub mod pipeline;
