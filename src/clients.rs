pub mod adapters;
pub mod entities;
