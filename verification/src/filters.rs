//! The filters: the line window and the structural filter for C# sources.

pub mod csharp_parser;
pub mod filter_manager;
pub mod line_window;
pub mod structural;
