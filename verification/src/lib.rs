pub mod aggregate;
pub mod codec;
pub mod copy;
pub mod error;
pub mod fill;
pub mod headers;
pub mod options;
pub mod refs;
pub mod sheet;
pub mod table;
pub mod template;
pub mod text;

pub use error::ExcelError;
pub use options::{Action, Coerce, Mode, Value};
pub use refs::{ExcelCell, ExcelHeader, ExcelRange};
pub use table::{Column, Table};
pub use template::ExcelTemplate;
pub use headers::HeaderMap;
