//! Verified core of a small suite of Unix-style command line utilities:
//! line shrinking, a pager, a command shell's word grouping, a line editor,
//! permission and ownership computations, user records and more.

pub mod text;
pub mod lines;
pub mod shrink;
pub mod pager;
pub mod parse;
pub mod rush;
pub mod editor;
pub mod div;
pub mod perm;
pub mod own;
pub mod list;
pub mod switches;
pub mod userutil;
pub mod fileops;
pub mod fields;
pub mod confirm;
pub mod wipe;
pub mod rex;
