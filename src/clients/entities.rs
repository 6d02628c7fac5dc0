use vstd::prelude::*;

use crate::entities::{Identifiable, SoftDeletable};

verus! {

/// Leap years of the proleptic Gregorian calendar.
pub open spec fn is_leap_year(year: int) -> bool {
    (year % 4 == 0 && year % 100 != 0) || year % 400 == 0
}

pub open spec fn days_in_month(year: int, month: int) -> int {
    if month == 2 {
        if is_leap_year(year) {
            29
        } else {
            28
        }
    } else if month == 4 || month == 6 || month == 9 || month == 11 {
        30
    } else {
        31
    }
}

/// A day of the proleptic Gregorian calendar, in the years that chrono's
/// `NaiveDate` can hold.
pub open spec fn is_calendar_date(year: int, month: int, day: int) -> bool {
    &&& -262143 <= year <= 262142
    &&& 1 <= month <= 12
    &&& 1 <= day <= days_in_month(year, month)
}

/// chrono's calendar date, carried through opaque.
#[verifier::external_type_specification]
#[verifier::external_body]
pub struct ExNaiveDate(chrono::NaiveDate);

/// Relies on chrono::NaiveDate::from_ymd_opt: it gives a date exactly for a
/// calendar day with year, month and day in range.
#[verifier::external_body]
fn naive_date(year: i32, month: u32, day: u32) -> (r: Option<chrono::NaiveDate>)
    ensures
        r is Some <==> is_calendar_date(year as int, month as int, day as int),
{
    chrono::NaiveDate::from_ymd_opt(year, month, day)
}

/// A calendar date as year, month and day; always a day that exists.
#[derive(Debug, Clone, Copy, PartialEq, Eq, Structural)]
pub struct Date {
    year: i32,
    month: u32,
    day: u32,
}

impl Date {
    #[verifier::type_invariant]
    spec fn is_real_day(&self) -> bool {
        is_calendar_date(self.year as int, self.month as int, self.day as int)
    }

    pub closed spec fn spec_year(&self) -> int {
        self.year as int
    }

    pub closed spec fn spec_month(&self) -> int {
        self.month as int
    }

    pub closed spec fn spec_day(&self) -> int {
        self.day as int
    }

    /// The date with this year, month and day, if that day exists.
    pub fn from_ymd(year: i32, month: u32, day: u32) -> (r: Option<Date>)
        ensures
            r is Some <==> is_calendar_date(year as int, month as int, day as int),
            r matches Some(d) ==> d.spec_year() == year && d.spec_month() == month
                && d.spec_day() == day,
    {
        match naive_date(year, month, day) {
            Some(_) => Some(Date { year, month, day }),
            None => None,
        }
    }

    pub fn year(&self) -> (r: i32)
        ensures
            r == self.spec_year(),
            is_calendar_date(self.spec_year(), self.spec_month(), self.spec_day()),
    {
        proof {
            use_type_invariant(self);
        }
        self.year
    }

    pub fn month(&self) -> (r: u32)
        ensures
            r == self.spec_month(),
    {
        self.month
    }

    pub fn day(&self) -> (r: u32)
        ensures
            r == self.spec_day(),
    {
        self.day
    }
}

/// A client of the system, as stored in its table.
///
/// `client_id` is absent until the store assigns one on insertion.
#[derive(Debug, Clone)]
pub struct Client {
    pub client_id: Option<i32>,
    pub active: bool,
    pub username: String,
    pub pwd: String,
    pub birth_date: Date,
}

/// The values a search filters on; an absent field does not filter.
#[derive(Debug, Clone)]
pub struct ClientCriteria {
    pub client_id: Option<i32>,
    pub active: Option<bool>,
    pub username: Option<String>,
    pub pwd: Option<String>,
    pub birth_date: Option<Date>,
}

/// What a caller supplies to create a client: no identifier, no flag.
#[derive(Debug, Clone)]
pub struct NewClient {
    pub username: String,
    pub pwd: String,
    pub birth_date: Date,
}

/// Two clients hold the same values in every column.
pub open spec fn same_client(a: Client, b: Client) -> bool {
    &&& a.client_id == b.client_id
    &&& a.active == b.active
    &&& a.username@ == b.username@
    &&& a.pwd@ == b.pwd@
    &&& a.birth_date == b.birth_date
}

/// `c` satisfies every equality that a present field of `crit` asks for.
pub open spec fn satisfies(crit: ClientCriteria, c: Client) -> bool {
    &&& (crit.client_id matches Some(id) ==> c.client_id == Some(id))
    &&& (crit.active matches Some(a) ==> c.active == a)
    &&& (crit.username matches Some(u) ==> c.username@ == u@)
    &&& (crit.pwd matches Some(p) ==> c.pwd@ == p@)
    &&& (crit.birth_date matches Some(d) ==> c.birth_date == d)
}

/// Every field of the criteria is absent.
pub open spec fn is_empty_criteria(crit: ClientCriteria) -> bool {
    &&& crit.client_id is None
    &&& crit.active is None
    &&& crit.username is None
    &&& crit.pwd is None
    &&& crit.birth_date is None
}

impl PartialEq for Client {
    fn eq(&self, o: &Client) -> (r: bool) {
        let same_id = match (self.client_id, o.client_id) {
            (Some(a), Some(b)) => a == b,
            (None, None) => true,
            _ => false,
        };
        same_id && self.active == o.active && self.username == o.username && self.pwd == o.pwd
            && self.birth_date == o.birth_date
    }
}

impl vstd::std_specs::cmp::PartialEqSpecImpl for Client {
    open spec fn obeys_eq_spec() -> bool {
        true
    }

    open spec fn eq_spec(&self, o: &Client) -> bool {
        same_client(*self, *o)
    }
}

/// `c` with its identifier set to `id`.
pub open spec fn with_id(c: Client, id: i32) -> Client {
    Client { client_id: Some(id), ..c }
}

/// `c` with its active flag set to `active`.
pub open spec fn with_active(c: Client, active: bool) -> Client {
    Client { active, ..c }
}

/// The full record for a new client: no identifier yet, and active.
pub open spec fn new_client_row(n: NewClient) -> Client {
    Client {
        client_id: None,
        active: true,
        username: n.username,
        pwd: n.pwd,
        birth_date: n.birth_date,
    }
}

impl Client {
    /// A copy of every column.
    pub fn duplicate(&self) -> (r: Client)
        ensures
            r == *self,
    {
        Client {
            client_id: self.client_id,
            active: self.active,
            username: self.username.clone(),
            pwd: self.pwd.clone(),
            birth_date: self.birth_date,
        }
    }

    /// The full record for a new client: no identifier yet, and active.
    pub fn from_new(n: NewClient) -> (r: Client)
        ensures
            r == new_client_row(n),
    {
        Client {
            client_id: None,
            active: true,
            username: n.username,
            pwd: n.pwd,
            birth_date: n.birth_date,
        }
    }
}

impl Identifiable<Option<i32>> for Client {
    open spec fn identifier(&self) -> Option<i32> {
        self.client_id
    }

    fn id(&self) -> (r: &Option<i32>) {
        &self.client_id
    }
}

impl SoftDeletable for Client {
    open spec fn active_flag(&self) -> bool {
        self.active
    }

    fn is_deleted(&self) -> (r: &bool) {
        &self.active
    }

    fn set_deleted(&mut self, deleted: bool)
        ensures
            final(self).active == deleted,
            final(self).client_id == old(self).client_id,
            final(self).username == old(self).username,
            final(self).pwd == old(self).pwd,
            final(self).birth_date == old(self).birth_date,
    {
        self.active = deleted;
    }
}

impl ClientCriteria {
    /// Whether `c` satisfies every present field.
    pub fn accepts(&self, c: &Client) -> (r: bool)
        ensures
            r == satisfies(*self, *c),
    {
        let id_ok = match self.client_id {
            Some(id) => match c.client_id {
                Some(cid) => cid == id,
                None => false,
            },
            None => true,
        };
        let active_ok = match self.active {
            Some(a) => c.active == a,
            None => true,
        };
        let username_ok = match &self.username {
            Some(u) => c.username == *u,
            None => true,
        };
        let pwd_ok = match &self.pwd {
            Some(p) => c.pwd == *p,
            None => true,
        };
        let date_ok = match self.birth_date {
            Some(d) => c.birth_date == d,
            None => true,
        };
        id_ok && active_ok && username_ok && pwd_ok && date_ok
    }
}

} // verus!
