//! A small persistence layer with paged, filtered search over a table of clients.

pub mod entities;
pub mod pagination;
pub mod use_cases;
pub mod clients;
