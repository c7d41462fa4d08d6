//! Explains regular expressions: a simplified syntax tree, plain-language
//! descriptions, syntax colouring roles, match trees and the navigation state
//! of the description tree.
pub mod types;
pub mod syntax;
pub mod text;
pub mod convert;
pub mod desc;
pub mod matcher;
pub mod colorize;
pub mod desctree;
pub mod textarea_ext;
pub mod state;
pub mod tui;
pub mod editor;
pub mod tree;
