//! The logic of the ITMO team site's terminal page: the commands it
//! understands, the resolution of the paths they take, the line editor with
//! its tab completion, and the small rules of the pages around it.

pub mod text;
pub mod path;
pub mod commands;
pub mod completion;
pub mod terminal;
pub mod nav;
pub mod records;
