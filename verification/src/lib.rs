pub mod text;
pub mod shell_error;
pub mod token;
pub mod command_parser;
pub mod pattern;
pub mod instruction;
pub mod number;
pub mod shell_variables;
pub mod executer;
pub mod string_index;
pub mod line_editor;
pub mod laws;
