pub mod errors;
pub mod numbers;
pub mod operand_checking;
pub mod labels;
pub mod parsing;
pub mod assembler;
pub mod palette;
pub mod packaging;
pub mod images;
pub mod label_laws;
