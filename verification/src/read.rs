//! Reading one HTTP request line from a byte stream: line extraction and
//! request-line tokenization.

pub mod line;
pub mod request;
pub mod scan;
