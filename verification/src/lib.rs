//! The DNT table format: a header of typed columns, a body of rows, and the
//! byte layout that carries both.
//!
//! `model` holds the table and its mathematical view, `wire` the layout as
//! functions on sequences of bytes, `reader` and `writer` the decoder and the
//! encoder, and `laws` what holds between the two.

pub mod endian;
pub mod laws;
pub mod model;
pub mod reader;
pub mod text;
pub mod wire;
pub mod writer;

pub use model::{
    ColumnView, DntColumn, DntDataType, DntError, DntRow, DntTable, DntValue, TableView, ValueView,
};
pub use reader::DntFileReader;
pub use writer::DntFileWriter;
