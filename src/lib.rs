pub mod text;
pub mod range_check;
pub mod nits;
pub mod queue;
pub mod settings;
pub mod batch;
pub mod values;
pub mod export;
pub mod csv;
pub mod filter;
pub mod timeline;
pub mod column;
