pub mod errors;
pub mod types;
pub mod ast;
pub mod ast_copy;
pub mod text;
pub mod decimal;
pub mod strmap;
pub mod lexer;
pub mod grammar;
pub mod parser;
pub mod statements;
pub mod items;
pub mod typeck;
pub mod channels;
pub mod config;
pub mod stdtext;
pub mod storage;
pub mod docker;
pub mod llm;
pub mod interpreter;
pub mod sdk;
pub mod cli;
pub mod plan;
pub mod dispatch;
pub mod filter_plan;
pub mod definitions;
pub mod value;
pub mod machine;
