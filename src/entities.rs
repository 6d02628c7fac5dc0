use vstd::prelude::*;

verus! {

/// An entity that exposes its identifier.
pub trait Identifiable<T> {
    /// The identifier that `id` hands out.
    spec fn identifier(&self) -> T;

    fn id(&self) -> (r: &T)
        ensures
            *r == self.identifier(),
    ;
}

/// An entity that carries a flag for logical deletion.
///
/// The flag is the record's `active` state: `set_deleted(false)` marks the
/// record inactive while keeping it stored.
pub trait SoftDeletable {
    /// The value of the flag.
    spec fn active_flag(&self) -> bool;

    fn is_deleted(&self) -> (r: &bool)
        ensures
            *r == self.active_flag(),
    ;

    fn set_deleted(&mut self, deleted: bool)
        ensures
            final(self).active_flag() == deleted,
    ;
}

/// One page of a filtered search, together with what produced it.
///
/// `result` holds the rows of the page already serialized, so that the type
/// does not depend on the shape of the entity.
#[derive(Debug, Clone)]
pub struct Search<Criteria> {
    pub total_pages: usize,
    pub page: usize,
    pub criteria: Criteria,
    pub result: String,
}

impl<Criteria> Search<Criteria> {
    /// Builds a search result; nothing is validated.
    pub fn new(page: usize, total_pages: usize, criteria: Criteria, result: String) -> (r: Search<
        Criteria,
    >)
        ensures
            r.page == page,
            r.total_pages == total_pages,
            r.criteria == criteria,
            r.result@ == result@,
    {
        Search { total_pages, page, criteria, result }
    }
}

} // verus!
