//! A string splitter for which delimiters inside quoted substrings are not
//! separators: `xterm -e "vi /some/path"` splits on spaces into `xterm`,
//! `-e` and `"vi /some/path"`, or `vi /some/path` once quotes are unwrapped.
//! Quotes that neither start nor end a token are ordinary characters.
pub mod blank;
pub mod laws;
pub mod model;
mod split_unquoted_char;

pub use split_unquoted_char::{
    split_unquoted_char, split_unquoted_whitespace, SplitUnquotedChar,
};
