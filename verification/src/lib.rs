pub mod col;
pub mod cell;
pub mod date;
pub mod reader;
pub mod text;
pub mod xml;

pub use col::{excel_str_cell, index_to_letters, letters_to_index};
pub use date::excel_date;
pub use cell::{RawCell, reconcile, resolve_cell};
pub use reader::{parse_xlsx, parse_xlsx_file_to_parts, get_strings_map, get_parsed_xlsx};