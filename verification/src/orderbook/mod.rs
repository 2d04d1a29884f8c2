//! Order book storage.

pub mod book_side;
pub mod laws;
pub mod operation_laws;
pub mod quantity_laws;
