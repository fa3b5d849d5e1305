pub mod registers;
pub mod opcodes;
pub mod bigendian;
pub mod text;
pub mod manifest;
pub mod cartridge;
pub mod varint;
pub mod operand_types;
pub mod split;
pub mod trim;
pub mod format;
