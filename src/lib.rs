//! Streaming converters between legacy CJK encodings (Big5, EUC-JP,
//! GBK/GB18030) and Unicode, with UTF-8 and UTF-16 as the two in-memory
//! forms, plus the ASCII helpers and the UTF-8 validator they rest on.

pub mod ascii;
pub mod big5;
pub mod data;
pub mod euc_jp;
pub mod gb18030;
pub mod handles;
pub mod replacement;
pub mod results;
pub mod stream;
pub mod utf_8_core;
pub mod variant;
