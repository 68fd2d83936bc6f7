//! Verified core of a stateless game-asset command line tool: argument
//! parsing, validation rules, prompt construction, layout arithmetic and
//! pixel analyses. File, process and network work lives outside the library.

pub mod codex;
pub mod commands;
pub mod doctor;
pub mod error;
pub mod events;
pub mod external;
pub mod instruction;
pub mod kinds;
pub mod layout;
pub mod manifest;
pub mod number;
pub mod parse;
pub mod path;
pub mod pixels;
pub mod prompt;
pub mod shell;
pub mod text;
pub mod upgrade;
pub mod version;
