pub mod inodes;
pub mod line_parser;
