use vstd::prelude::*;

use crate::entities::{Identifiable, SoftDeletable};

verus! {

/// Why a repository operation failed.
#[derive(Debug, Clone)]
pub enum RepoError {
    /// The store could not be reached or is not configured.
    Connection(String),
    /// The operation targets a row, and the item has no identifier.
    MissingIdentifier,
    /// The store refused the operation.
    Storage(String),
    /// The item broke a business rule before reaching the store.
    Validation(String),
}

/// One page of a search: its rows, and how many pages the search has.
#[derive(Debug, Clone)]
pub struct ResultPage<Model> {
    pub rows: Vec<Model>,
    pub total_pages: usize,
}

pub trait Adder<Item> {
    /// Inserts one row; the store assigns its identifier.
    fn add(&mut self, item: &Item) -> Result<(), RepoError>;
}

pub trait Updater<Item, IdType> where Item: Identifiable<IdType> {
    /// Overwrites every column of the row that has the item's identifier.
    fn update(&mut self, item: &Item) -> Result<(), RepoError>;
}

pub trait LogicalDeleter<Item> where Item: SoftDeletable {
    /// Marks the item's row inactive and keeps it.
    fn logically_delete(&mut self, item: &Item) -> Result<(), RepoError>;
}

pub trait PermanentlyDeleter<Item, IdType> where Item: Identifiable<IdType> {
    /// Removes the row that has the item's identifier.
    fn permanently_delete(&mut self, item: &Item) -> Result<(), RepoError>;
}

pub trait Finder<Model, IdType, Criteria> where Model: Identifiable<IdType> {
    /// The row with this identifier, or `None` if there is none.
    fn search_by_id(&self, id: usize) -> Result<Option<Model>, RepoError>;

    /// The 1-based page `page_number` of the rows that satisfy `criteria`.
    fn search_by(&self, criteria: &Criteria, page_number: usize) -> Result<
        ResultPage<Model>,
        RepoError,
    >
        requires
            page_number >= 1,
    ;
}

/// Every capability together, for one kind of entity.
pub trait Repository<Item, IdType, Criteria>: Adder<Item> + Updater<Item, IdType> +
    LogicalDeleter<Item> + PermanentlyDeleter<Item, IdType> + Finder<Item, IdType, Criteria> where
    Item: SoftDeletable + Identifiable<IdType>,
 {

}

/// A check of business rules that an item must pass before it is added.
pub trait Checker<Item, Repository> {
    fn item_is_valid(item: &Item) -> Result<(), String>;
}

} // verus!
