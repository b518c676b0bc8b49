pub mod dispatch;
pub mod errors;
pub mod lexer;
pub mod native_functions;
pub mod nodes;
pub mod parser;
pub mod rs2js;
pub mod runner;
pub mod runtime;
pub mod scope;
pub mod script;
pub mod structures;
pub mod values;
