use vstd::prelude::*;

use crate::clients::entities::{
    Client,
    ClientCriteria,
    NewClient,
    is_empty_criteria,
    new_client_row,
    satisfies,
    with_active,
    with_id,
};
use crate::entities::Identifiable;
use crate::pagination::{page_bounds, page_of, total_pages_for};
use crate::use_cases::{
    Adder,
    Checker,
    Finder,
    LogicalDeleter,
    PermanentlyDeleter,
    RepoError,
    Repository,
    ResultPage,
    Updater,
};

verus! {

/// Rows per page of a search.
pub const PAGE_SIZE: usize = 15;

/// The identifier of a stored row (stored rows always have one).
pub open spec fn id_of(c: Client) -> int {
    match c.client_id {
        Some(x) => x as int,
        None => 0,
    }
}

/// The rows after an update with `item`: each row with the item's identifier
/// holds the item's values.
pub open spec fn replaced(rows: Seq<Client>, item: Client) -> Seq<Client> {
    Seq::new(
        rows.len(),
        |i: int|
            if rows[i].client_id == item.client_id {
                item
            } else {
                rows[i]
            },
    )
}

/// The rows after a logical deletion of the row with identifier `id`.
pub open spec fn deactivated(rows: Seq<Client>, id: Option<i32>) -> Seq<Client> {
    Seq::new(
        rows.len(),
        |i: int|
            if rows[i].client_id == id {
                with_active(rows[i], false)
            } else {
                rows[i]
            },
    )
}

pub open spec fn keeps(id: Option<i32>, c: Client) -> bool {
    c.client_id != id
}

/// The rows after a permanent deletion of the row with identifier `id`.
pub open spec fn without_id(rows: Seq<Client>, id: Option<i32>) -> Seq<Client> {
    rows.filter(|c: Client| keeps(id, c))
}

/// The rows that satisfy `crit`, in the table's order.
pub open spec fn matching(rows: Seq<Client>, crit: ClientCriteria) -> Seq<Client> {
    rows.filter(|c: Client| satisfies(crit, c))
}

/// The bytes by which rows are ordered: the username in UTF-8.
pub open spec fn name_key(c: Client) -> Seq<u8> {
    vstd::utf8::encode_utf8(c.username@)
}

/// Lexicographic order on bytes, strict.
pub open spec fn bytes_lt(a: Seq<u8>, b: Seq<u8>) -> bool
    decreases a.len(),
{
    if a.len() == 0 {
        b.len() > 0
    } else if b.len() == 0 {
        false
    } else if a[0] != b[0] {
        a[0] < b[0]
    } else {
        bytes_lt(a.drop_first(), b.drop_first())
    }
}

/// `x` placed into `s` before the first row whose username it precedes.
pub open spec fn insert_by_name(s: Seq<Client>, x: Client) -> Seq<Client>
    decreases s.len(),
{
    if s.len() == 0 {
        seq![x]
    } else if bytes_lt(name_key(x), name_key(s[0])) {
        seq![x] + s
    } else {
        seq![s[0]] + insert_by_name(s.drop_first(), x)
    }
}

/// `s` ordered by username; rows with equal usernames keep their order.
pub open spec fn sort_by_name(s: Seq<Client>) -> Seq<Client>
    decreases s.len(),
{
    if s.len() == 0 {
        s
    } else {
        insert_by_name(sort_by_name(s.drop_last()), s.last())
    }
}

/// The rows that a search with `crit` pages through.
pub open spec fn searched(rows: Seq<Client>, crit: ClientCriteria) -> Seq<Client> {
    sort_by_name(matching(rows, crit))
}

/// `c` has the identifier `id`.
pub open spec fn has_id(c: Client, id: int) -> bool {
    c.client_id matches Some(x) && x == id
}

/// Row `i` is the first with identifier `id`.
pub open spec fn first_with_id(rows: Seq<Client>, id: int, i: int) -> bool {
    &&& 0 <= i < rows.len()
    &&& has_id(rows[i], id)
    &&& forall|j: int| 0 <= j < i ==> !has_id(#[trigger] rows[j], id)
}

/// Whether `a` comes strictly before `b` in byte order.
fn name_precedes(a: &String, b: &String) -> (r: bool)
    ensures
        r == bytes_lt(vstd::utf8::encode_utf8(a@), vstd::utf8::encode_utf8(b@)),
{
    let x = a.as_str().as_bytes();
    let y = b.as_str().as_bytes();
    let ghost xs = vstd::utf8::encode_utf8(a@);
    let ghost ys = vstd::utf8::encode_utf8(b@);
    assert(x@ == xs);
    assert(y@ == ys);
    let mut i: usize = 0;
    assert(xs.skip(0) =~= xs);
    assert(ys.skip(0) =~= ys);
    while i < x.len() && i < y.len()
        invariant
            x@ == xs,
            y@ == ys,
            xs == vstd::utf8::encode_utf8(a@),
            ys == vstd::utf8::encode_utf8(b@),
            i <= xs.len(),
            i <= ys.len(),
            bytes_lt(xs, ys) == bytes_lt(xs.skip(i as int), ys.skip(i as int)),
        decreases xs.len() - i,
    {
        assert(xs.skip(i as int)[0] == xs[i as int]);
        assert(ys.skip(i as int)[0] == ys[i as int]);
        if x[i] != y[i] {
            assert(xs.skip(i as int).len() > 0 && ys.skip(i as int).len() > 0);
            return x[i] < y[i];
        }
        assert(xs.skip(i as int).drop_first() =~= xs.skip(i + 1));
        assert(ys.skip(i as int).drop_first() =~= ys.skip(i + 1));
        i = i + 1;
    }
    assert(xs.skip(i as int).len() == 0 || ys.skip(i as int).len() == 0);
    i < y.len()
}

/// Where `insert_by_name` places a row: after every row it does not precede.
proof fn lemma_insert_at(s: Seq<Client>, x: Client, p: int)
    requires
        0 <= p <= s.len(),
        forall|j: int| 0 <= j < p ==> !bytes_lt(name_key(x), name_key(#[trigger] s[j])),
        p < s.len() ==> bytes_lt(name_key(x), name_key(s[p])),
    ensures
        insert_by_name(s, x) =~= s.insert(p, x),
    decreases s.len(),
{
    if s.len() > 0 && p > 0 {
        let t = s.drop_first();
        assert forall|j: int| 0 <= j < p - 1 implies !bytes_lt(
            name_key(x),
            name_key(#[trigger] t[j]),
        ) by {
            assert(t[j] == s[j + 1]);
        }
        lemma_insert_at(t, x, p - 1);
        assert(seq![s[0]] + t.insert(p - 1, x) =~= s.insert(p, x));
    }
}

/// A copy of `s` ordered by username, stable.
fn sort_rows_by_name(s: &Vec<Client>) -> (r: Vec<Client>)
    ensures
        r@ == sort_by_name(s@),
{
    let mut r: Vec<Client> = Vec::new();
    let mut i: usize = 0;
    while i < s.len()
        invariant
            i <= s@.len(),
            r@ == sort_by_name(s@.take(i as int)),
        decreases s@.len() - i,
    {
        let x = &s[i];
        let mut p: usize = 0;
        while p < r.len() && !name_precedes(&x.username, &r[p].username)
            invariant
                p <= r@.len(),
                forall|j: int| 0 <= j < p ==> !bytes_lt(name_key(*x), name_key(#[trigger] r@[j])),
            decreases r@.len() - p,
        {
            p = p + 1;
        }
        proof {
            lemma_insert_at(r@, *x, p as int);
            assert(s@.take(i + 1).drop_last() =~= s@.take(i as int));
        }
        r.insert(p, x.duplicate());
        i = i + 1;
    }
    assert(s@.take(s@.len() as int) =~= s@);
    r
}

/// A table of clients held in memory.
///
/// Rows keep the order of insertion; the store gives each inserted row the
/// next identifier, so identifiers grow strictly along the rows.
pub struct ClientRepository {
    rows: Vec<Client>,
    next_id: i32,
}

impl View for ClientRepository {
    type V = Seq<Client>;

    closed spec fn view(&self) -> Seq<Client> {
        self.rows@
    }
}

impl ClientRepository {
    /// The identifier that the next inserted row receives.
    pub closed spec fn next_identifier(&self) -> int {
        self.next_id as int
    }

    /// Every row has an identifier, below the next one to hand out, and
    /// identifiers grow strictly along the rows.
    pub closed spec fn wf(&self) -> bool {
        &&& self.next_id >= 1
        &&& forall|i: int|
            0 <= i < self.rows@.len() ==> {
                &&& (#[trigger] self.rows@[i]).client_id is Some
                &&& 1 <= id_of(self.rows@[i]) < self.next_id
            }
        &&& forall|i: int, j: int|
            0 <= i < j < self.rows@.len() ==> id_of(#[trigger] self.rows@[i]) < id_of(
                #[trigger] self.rows@[j],
            )
    }

    /// An empty table.
    pub fn new() -> (r: ClientRepository)
        ensures
            r@ == Seq::<Client>::empty(),
            r.next_identifier() == 1,
            r.wf(),
    {
        ClientRepository { rows: Vec::new(), next_id: 1 }
    }

    /// The identifier that the next inserted row receives.
    pub fn next_id(&self) -> (r: i32)
        ensures
            r == self.next_identifier(),
    {
        self.next_id
    }

    /// Business rules for a new client; none are defined, so every client passes.
    pub fn item_is_valid(item: &Client) -> (r: Result<(), String>)
        ensures
            r is Ok,
    {
        Ok(())
    }

    /// Rows per page of a search.
    pub fn page_size() -> (r: usize)
        ensures
            r == PAGE_SIZE,
    {
        PAGE_SIZE
    }

    /// Number of rows that satisfy `criteria`; fails only where the number
    /// does not fit in an `i64`.
    pub fn count_clients(&self, criteria: &ClientCriteria) -> (r: Result<i64, RepoError>)
        ensures
            matching(self@, *criteria).len() <= i64::MAX <==> r is Ok,
            r matches Ok(n) ==> n == matching(self@, *criteria).len(),
            r matches Err(e) ==> e is Storage,
    {
        let found = self.matching_rows(criteria);
        let count: u64 = found.len() as u64;
        if count > i64::MAX as u64 {
            return Err(RepoError::Storage("the count does not fit in 64 bits".to_string()));
        }
        Ok(count as i64)
    }

    /// Number of pages that `total_count` rows fill at `page_size` rows each:
    /// the quotient rounded up, and 0 where either is not positive.
    pub fn calculate_total_pages(total_count: i64, page_size: i64) -> (r: i64)
        ensures
            r == total_pages_for(total_count as int, page_size as int),
            r >= 0,
    {
        if page_size <= 0 || total_count <= 0 {
            return 0;
        }
        proof {
            vstd::arithmetic::div_mod::lemma_div_plus_one(total_count - 1, page_size as int);
            vstd::arithmetic::div_mod::lemma_div_pos_is_pos(total_count - 1, page_size as int);
            vstd::arithmetic::div_mod::lemma_div_is_ordered_by_denominator(
                total_count - 1,
                1,
                page_size as int,
            );
        }
        (total_count - 1) / page_size + 1
    }

    /// Copies of the rows that satisfy `criteria`, in the table's order.
    fn matching_rows(&self, criteria: &ClientCriteria) -> (r: Vec<Client>)
        ensures
            r@ == matching(self@, *criteria),
    {
        let ghost rows = self.rows@;
        let ghost pred = |c: Client| satisfies(*criteria, c);
        let mut found: Vec<Client> = Vec::new();
        let mut i: usize = 0;
        while i < self.rows.len()
            invariant
                rows == self.rows@,
                pred == (|c: Client| satisfies(*criteria, c)),
                i <= rows.len(),
                found@ == rows.take(i as int).filter(pred),
            decreases rows.len() - i,
        {
            proof {
                rows.take(i as int).lemma_filter_push(rows[i as int], pred);
                assert(rows.take(i as int).push(rows[i as int]) =~= rows.take(i + 1));
            }
            if criteria.accepts(&self.rows[i]) {
                found.push(self.rows[i].duplicate());
            }
            i = i + 1;
        }
        assert(rows.take(rows.len() as int) =~= rows);
        found
    }
}

impl Finder<Client, Option<i32>, ClientCriteria> for ClientRepository {
    /// The row with identifier `id`; `None` where no row has it, which is not
    /// an error.
    fn search_by_id(&self, id: usize) -> (r: Result<Option<Client>, RepoError>)
        ensures
            r is Ok,
            r matches Ok(Some(c)) ==> exists|i: int|
                first_with_id(self@, id as int, i) && c == #[trigger] self@[i],
            r matches Ok(None) ==> forall|i: int|
                0 <= i < self@.len() ==> !has_id(#[trigger] self@[i], id as int),
    {
        if id > i32::MAX as usize {
            return Ok(None);
        }
        let target = id as i32;
        let mut i: usize = 0;
        while i < self.rows.len()
            invariant
                i <= self.rows@.len(),
                target == id,
                forall|j: int| 0 <= j < i ==> !has_id(#[trigger] self.rows@[j], id as int),
            decreases self.rows@.len() - i,
        {
            if self.rows[i].client_id == Some(target) {
                let found = self.rows[i].duplicate();
                assert(first_with_id(self@, id as int, i as int));
                return Ok(Some(found));
            }
            i = i + 1;
        }
        Ok(None)
    }

    /// The 1-based page `page_number` of the rows that satisfy `criteria`,
    /// ordered by username, with the number of pages they fill. A page past
    /// the last is empty. Fails only where the count does not fit in an
    /// `i64`.
    fn search_by(&self, criteria: &ClientCriteria, page_number: usize) -> (r: Result<
        ResultPage<Client>,
        RepoError,
    >)
        ensures
            matching(self@, *criteria).len() <= i64::MAX <==> r is Ok,
            r matches Err(e) ==> e is Storage,
            r matches Ok(p) ==> p.rows@ == page_of(
                searched(self@, *criteria),
                page_number as int,
                PAGE_SIZE as int,
            ),
            r matches Ok(p) ==> p.total_pages == total_pages_for(
                searched(self@, *criteria).len() as int,
                PAGE_SIZE as int,
            ),
    {
        let found = self.matching_rows(criteria);
        let ordered = sort_rows_by_name(&found);
        proof {
            lemma_sort_len(found@);
        }
        let total_count = match self.count_clients(criteria) {
            Ok(n) => n,
            Err(e) => return Err(e),
        };
        let total_pages = Self::calculate_total_pages(total_count, PAGE_SIZE as i64);
        proof {
            lemma_total_pages_at_most(total_count as int, PAGE_SIZE as int);
        }
        let (start, end) = page_bounds(ordered.len(), page_number, PAGE_SIZE);
        let mut rows: Vec<Client> = Vec::new();
        let mut k: usize = start;
        while k < end
            invariant
                start <= k <= end,
                end <= ordered@.len(),
                rows@ == ordered@.subrange(start as int, k as int),
            decreases end - k,
        {
            rows.push(ordered[k].duplicate());
            proof {
                assert(ordered@.subrange(start as int, k + 1) =~= ordered@.subrange(
                    start as int,
                    k as int,
                ).push(ordered@[k as int]));
            }
            k = k + 1;
        }
        Ok(ResultPage { rows, total_pages: total_pages as usize })
    }
}

impl Repository<Client, Option<i32>, ClientCriteria> for ClientRepository {

}

/// Ordering keeps the number of rows.
proof fn lemma_sort_len(s: Seq<Client>)
    ensures
        sort_by_name(s).len() == s.len(),
    decreases s.len(),
{
    if s.len() > 0 {
        lemma_sort_len(s.drop_last());
        lemma_insert_len(sort_by_name(s.drop_last()), s.last());
    }
}

proof fn lemma_insert_len(s: Seq<Client>, x: Client)
    ensures
        insert_by_name(s, x).len() == s.len() + 1,
    decreases s.len(),
{
    if s.len() > 0 {
        lemma_insert_len(s.drop_first(), x);
    }
}

/// There are never more pages than rows.
proof fn lemma_total_pages_at_most(n: int, page_size: int)
    requires
        page_size >= 1,
    ensures
        0 <= total_pages_for(n, page_size),
        total_pages_for(n, page_size) <= if n > 0 { n } else { 0 },
{
    if n > 0 {
        vstd::arithmetic::div_mod::lemma_div_is_ordered_by_denominator(
            n + page_size - 1,
            1,
            page_size,
        );
        vstd::arithmetic::div_mod::lemma_div_pos_is_pos(n + page_size - 1, page_size);
        vstd::arithmetic::div_mod::lemma_div_plus_one(n - 1, page_size);
        vstd::arithmetic::div_mod::lemma_div_is_ordered_by_denominator(n - 1, 1, page_size);
        vstd::arithmetic::div_mod::lemma_div_pos_is_pos(n - 1, page_size);
    }
}

/// Creates a client from what a caller supplies: the record gets no
/// identifier and is active, passes the business rules, and is then added.
pub fn add_client(repo: &mut ClientRepository, persona: NewClient) -> (r: Result<(), RepoError>)
    ensures
        old(repo).next_identifier() == i32::MAX <==> r is Err,
        r matches Err(e) ==> e is Storage && final(repo)@ == old(repo)@,
        r is Ok ==> final(repo)@ == old(repo)@.push(
            with_id(new_client_row(persona), old(repo).next_identifier() as i32),
        ),
        old(repo).wf() ==> final(repo).wf(),
{
    let persona = Client::from_new(persona);
    if let Err(e) = ClientRepository::item_is_valid(&persona) {
        return Err(RepoError::Validation(e));
    }
    repo.add(&persona)
}

/// After a row is added to a well-formed table, the first (and only) row with
/// the identifier it was given holds exactly the added values.
pub proof fn lemma_insert_then_find(r: ClientRepository, item: Client)
    requires
        r.wf(),
        r.next_identifier() < i32::MAX,
    ensures
        ({
            let id = r.next_identifier();
            let rows = r@.push(with_id(item, id as i32));
            &&& first_with_id(rows, id, rows.len() - 1)
            &&& forall|i: int| #[trigger] first_with_id(rows, id, i) ==> i == rows.len() - 1
            &&& rows[rows.len() - 1] == with_id(item, id as i32)
        }),
{
    let id = r.next_identifier();
    let rows = r@.push(with_id(item, id as i32));
    assert forall|j: int| 0 <= j < rows.len() - 1 implies !has_id(#[trigger] rows[j], id) by {
        assert(rows[j] == r@[j]);
    }
}

/// Logical deletion keeps the row, found under its identifier with the active
/// flag false; a permanent deletion after it leaves no row with that
/// identifier.
pub proof fn lemma_soft_delete_then_remove(r: ClientRepository, id: i32, i: int)
    requires
        r.wf(),
        0 <= i < r@.len(),
        r@[i].client_id == Some(id),
    ensures
        ({
            let soft = deactivated(r@, Some(id));
            let gone = without_id(soft, Some(id));
            &&& first_with_id(soft, id as int, i)
            &&& forall|j: int| #[trigger] first_with_id(soft, id as int, j) ==> j == i
            &&& soft[i] == with_active(r@[i], false)
            &&& !soft[i].active
            &&& forall|j: int| 0 <= j < gone.len() ==> !has_id(#[trigger] gone[j], id as int)
        }),
{
    let soft = deactivated(r@, Some(id));
    let gone = without_id(soft, Some(id));
    assert forall|j: int| 0 <= j < i implies !has_id(#[trigger] soft[j], id as int) by {
        assert(id_of(r@[j]) < id_of(r@[i]));
    }
    assert forall|j: int| #[trigger] first_with_id(soft, id as int, j) implies j == i by {
        if j > i {
            assert(!has_id(soft[i], id as int));
        }
    }
    assert forall|j: int| 0 <= j < gone.len() implies !has_id(#[trigger] gone[j], id as int) by {
        soft.lemma_filter_pred(|c: Client| keeps(Some(id), c), j);
    }
}

/// Criteria with every field absent select every row, in the table's order;
/// a search with them pages through the whole table.
pub proof fn lemma_empty_criteria_selects_all(rows: Seq<Client>, crit: ClientCriteria)
    requires
        is_empty_criteria(crit),
    ensures
        matching(rows, crit) == rows,
        searched(rows, crit) == sort_by_name(rows),
    decreases rows.len(),
{
    reveal(Seq::filter);
    if rows.len() > 0 {
        lemma_empty_criteria_selects_all(rows.drop_last(), crit);
        assert(rows.drop_last().push(rows.last()) =~= rows);
    }
}

impl Checker<Client, ClientRepository> for ClientRepository {
    fn item_is_valid(item: &Client) -> (r: Result<(), String>)
        ensures
            r is Ok,
    {
        ClientRepository::item_is_valid(item)
    }
}

impl Adder<Client> for ClientRepository {
    /// Appends the item with the next identifier; the item's own identifier
    /// is ignored. Fails when no identifier is left to hand out.
    fn add(&mut self, item: &Client) -> (r: Result<(), RepoError>)
        ensures
            old(self).next_identifier() == i32::MAX <==> r is Err,
            r matches Err(e) ==> e is Storage && final(self)@ == old(self)@
                && final(self).next_identifier() == old(self).next_identifier(),
            r is Ok ==> final(self)@ == old(self)@.push(
                with_id(*item, old(self).next_identifier() as i32),
            ) && final(self).next_identifier() == old(self).next_identifier() + 1,
            old(self).wf() ==> final(self).wf(),
    {
        if self.next_id == i32::MAX {
            return Err(RepoError::Storage("no identifier is left for a new row".to_string()));
        }
        let mut row = item.duplicate();
        row.client_id = Some(self.next_id);
        self.rows.push(row);
        self.next_id = self.next_id + 1;
        Ok(())
    }
}

impl Updater<Client, Option<i32>> for ClientRepository {
    /// Overwrites the row with the item's identifier; an item without one is
    /// refused before the table is touched.
    fn update(&mut self, item: &Client) -> (r: Result<(), RepoError>)
        ensures
            item.client_id is None <==> r is Err,
            r matches Err(e) ==> e is MissingIdentifier && final(self)@ == old(self)@,
            r is Ok ==> final(self)@ == replaced(old(self)@, *item),
            final(self).next_identifier() == old(self).next_identifier(),
            old(self).wf() ==> final(self).wf(),
    {
        if item.id().is_none() {
            return Err(RepoError::MissingIdentifier);
        }
        let n = self.rows.len();
        let mut i: usize = 0;
        while i < n
            invariant
                n == self.rows@.len(),
                n == old(self).rows@.len(),
                self.next_id == old(self).next_id,
                i <= n,
                forall|k: int|
                    0 <= k < n ==> #[trigger] self.rows@[k] == if k < i {
                        replaced(old(self).rows@, *item)[k]
                    } else {
                        old(self).rows@[k]
                    },
            decreases n - i,
        {
            if self.rows[i].client_id == item.client_id {
                self.rows.set(i, item.duplicate());
            }
            i = i + 1;
        }
        assert(self.rows@ =~= replaced(old(self).rows@, *item));
        Ok(())
    }
}

impl LogicalDeleter<Client> for ClientRepository {
    /// Marks the row with the item's identifier inactive; no other column or
    /// row changes. An item without identifier is refused before the table is
    /// touched.
    fn logically_delete(&mut self, item: &Client) -> (r: Result<(), RepoError>)
        ensures
            item.client_id is None <==> r is Err,
            r matches Err(e) ==> e is MissingIdentifier && final(self)@ == old(self)@,
            r is Ok ==> final(self)@ == deactivated(old(self)@, item.client_id),
            final(self).next_identifier() == old(self).next_identifier(),
            old(self).wf() ==> final(self).wf(),
    {
        if item.id().is_none() {
            return Err(RepoError::MissingIdentifier);
        }
        let n = self.rows.len();
        let mut i: usize = 0;
        while i < n
            invariant
                n == self.rows@.len(),
                n == old(self).rows@.len(),
                self.next_id == old(self).next_id,
                i <= n,
                forall|k: int|
                    0 <= k < n ==> #[trigger] self.rows@[k] == if k < i {
                        deactivated(old(self).rows@, item.client_id)[k]
                    } else {
                        old(self).rows@[k]
                    },
            decreases n - i,
        {
            if self.rows[i].client_id == item.client_id {
                let mut row = self.rows[i].duplicate();
                row.active = false;
                self.rows.set(i, row);
            }
            i = i + 1;
        }
        assert(self.rows@ =~= deactivated(old(self).rows@, item.client_id));
        Ok(())
    }
}

impl PermanentlyDeleter<Client, Option<i32>> for ClientRepository {
    /// Removes the row with the item's identifier; an item without one is
    /// refused before the table is touched.
    fn permanently_delete(&mut self, item: &Client) -> (r: Result<(), RepoError>)
        ensures
            item.client_id is None <==> r is Err,
            r matches Err(e) ==> e is MissingIdentifier && final(self)@ == old(self)@,
            r is Ok ==> final(self)@ == without_id(old(self)@, item.client_id),
            final(self).next_identifier() == old(self).next_identifier(),
            old(self).wf() ==> final(self).wf(),
    {
        if item.id().is_none() {
            return Err(RepoError::MissingIdentifier);
        }
        let ghost rows = self.rows@;
        let ghost keep = |c: Client| keeps(item.client_id, c);
        let mut kept: Vec<Client> = Vec::new();
        let n = self.rows.len();
        let mut i: usize = 0;
        while i < n
            invariant
                n == self.rows@.len(),
                rows == self.rows@,
                self.rows@ == old(self).rows@,
                self.next_id == old(self).next_id,
                keep == (|c: Client| keeps(item.client_id, c)),
                i <= n,
                kept@ == rows.take(i as int).filter(keep),
                old(self).wf() ==> forall|k: int|
                    0 <= k < kept@.len() ==> {
                        &&& (#[trigger] kept@[k]).client_id is Some
                        &&& 1 <= id_of(kept@[k]) < self.next_id
                        &&& forall|j: int| i <= j < n ==> id_of(kept@[k]) < id_of(rows[j])
                    },
                old(self).wf() ==> forall|a: int, b: int|
                    0 <= a < b < kept@.len() ==> id_of(#[trigger] kept@[a]) < id_of(
                        #[trigger] kept@[b],
                    ),
            decreases n - i,
        {
            let row = &self.rows[i];
            proof {
                rows.take(i as int).lemma_filter_push(rows[i as int], keep);
                assert(rows.take(i as int).push(rows[i as int]) =~= rows.take(i + 1));
            }
            if row.client_id != item.client_id {
                kept.push(row.duplicate());
            }
            i = i + 1;
        }
        assert(rows.take(n as int) =~= rows);
        self.rows = kept;
        Ok(())
    }
}

} // verus!
