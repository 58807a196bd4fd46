pub mod cursor;
pub mod varint;
