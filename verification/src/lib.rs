mod ansi;
mod document;
mod filetype;
mod highlighter;
mod highlighting;
mod row;
mod text;

pub use document::Document;
pub use document::Position;
pub use filetype::FileType;
pub use filetype::HighlightingOptions;
pub use highlighting::Type;
pub use row::Row;
pub use row::SearchDirection;
