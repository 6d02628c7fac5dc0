use client_repository::clients::adapters::{add_client, ClientRepository};
use client_repository::clients::entities::{Client, ClientCriteria, Date, NewClient};
use client_repository::entities::{Identifiable, Search, SoftDeletable};
use client_repository::use_cases::{
    Adder, Checker, Finder, LogicalDeleter, PermanentlyDeleter, RepoError, Updater,
};

fn date(year: i32, month: u32, day: u32) -> Date {
    Date::from_ymd(year, month, day).unwrap()
}

fn client(name: &str) -> Client {
    Client {
        client_id: None,
        active: true,
        username: name.to_string(),
        pwd: format!("{}-secret", name),
        birth_date: date(1990, 1, 1),
    }
}

fn no_criteria() -> ClientCriteria {
    ClientCriteria {
        client_id: None,
        active: None,
        username: None,
        pwd: None,
        birth_date: None,
    }
}

fn names(rows: &[Client]) -> Vec<String> {
    rows.iter().map(|c| c.username.clone()).collect()
}

/// A table with 32 clients named user01 .. user32, inserted in reverse.
fn thirty_two() -> ClientRepository {
    let mut repo = ClientRepository::new();
    for i in (1..=32).rev() {
        repo.add(&client(&format!("user{:02}", i))).unwrap();
    }
    repo
}

#[test]
fn missing_identifier_is_refused() {
    let mut repo = ClientRepository::new();
    repo.add(&client("ana")).unwrap();
    let no_id = client("ana");
    assert!(matches!(repo.update(&no_id), Err(RepoError::MissingIdentifier)));
    assert!(matches!(
        repo.logically_delete(&no_id),
        Err(RepoError::MissingIdentifier)
    ));
    assert!(matches!(
        repo.permanently_delete(&no_id),
        Err(RepoError::MissingIdentifier)
    ));
    let stored = repo.search_by_id(1).unwrap().unwrap();
    assert!(stored.active);
    assert_eq!(stored.username, "ana");
    assert_eq!(repo.search_by(&no_criteria(), 1).unwrap().rows.len(), 1);
}

#[test]
fn insert_then_find() {
    let mut repo = ClientRepository::new();
    repo.add(&client("ana")).unwrap();
    let id = repo.next_id();
    assert_eq!(id, 2);
    let mut bob = client("bob");
    bob.client_id = Some(77);
    bob.birth_date = date(1985, 6, 30);
    repo.add(&bob).unwrap();
    let found = repo.search_by_id(id as usize).unwrap().unwrap();
    assert_eq!(found.client_id, Some(2));
    assert_eq!(found.username, "bob");
    assert_eq!(found.pwd, "bob-secret");
    assert_eq!(found.birth_date, date(1985, 6, 30));
    assert!(found.active);
    assert_eq!(repo.next_id(), 3);
}

#[test]
fn find_unknown_identifier_is_none() {
    let mut repo = ClientRepository::new();
    repo.add(&client("ana")).unwrap();
    assert!(repo.search_by_id(5).unwrap().is_none());
    assert!(repo.search_by_id(0).unwrap().is_none());
    assert!(repo.search_by_id(usize::MAX).unwrap().is_none());
}

#[test]
fn soft_delete_then_remove() {
    let mut repo = ClientRepository::new();
    repo.add(&client("ana")).unwrap();
    repo.add(&client("bob")).unwrap();
    let ana = repo.search_by_id(1).unwrap().unwrap();
    repo.logically_delete(&ana).unwrap();
    let after = repo.search_by_id(1).unwrap().unwrap();
    assert!(!after.active);
    assert_eq!(after.username, "ana");
    assert_eq!(after.pwd, "ana-secret");
    assert!(repo.search_by_id(2).unwrap().unwrap().active);
    repo.permanently_delete(&after).unwrap();
    assert!(repo.search_by_id(1).unwrap().is_none());
    assert_eq!(repo.search_by_id(2).unwrap().unwrap().username, "bob");
}

#[test]
fn update_replaces_every_column() {
    let mut repo = ClientRepository::new();
    repo.add(&client("ana")).unwrap();
    repo.add(&client("bob")).unwrap();
    let changed = Client {
        client_id: Some(1),
        active: false,
        username: "anna".to_string(),
        pwd: "new".to_string(),
        birth_date: date(2000, 2, 29),
    };
    repo.update(&changed).unwrap();
    assert_eq!(repo.search_by_id(1).unwrap().unwrap(), changed);
    assert_eq!(repo.search_by_id(2).unwrap().unwrap().username, "bob");
}

#[test]
fn update_of_unknown_row_changes_nothing() {
    let mut repo = ClientRepository::new();
    repo.add(&client("ana")).unwrap();
    let mut ghost_row = client("zed");
    ghost_row.client_id = Some(9);
    repo.update(&ghost_row).unwrap();
    assert_eq!(names(&repo.search_by(&no_criteria(), 1).unwrap().rows), vec!["ana"]);
}

#[test]
fn pages_of_thirty_two_rows() {
    let repo = thirty_two();
    let crit = no_criteria();
    let p1 = repo.search_by(&crit, 1).unwrap();
    let p2 = repo.search_by(&crit, 2).unwrap();
    let p3 = repo.search_by(&crit, 3).unwrap();
    assert_eq!(p1.total_pages, 3);
    assert_eq!(p2.total_pages, 3);
    assert_eq!(p3.total_pages, 3);
    assert_eq!(p1.rows.len(), 15);
    assert_eq!(p2.rows.len(), 15);
    assert_eq!(p3.rows.len(), 2);
    assert_eq!(names(&p3.rows), vec!["user31", "user32"]);
    assert_eq!(p1.rows[0].username, "user01");
    assert_eq!(p2.rows[0].username, "user16");
}

#[test]
fn pages_cover_every_row_once() {
    let repo = thirty_two();
    let crit = no_criteria();
    let total = repo.search_by(&crit, 1).unwrap().total_pages;
    let mut all: Vec<String> = Vec::new();
    for page in 1..=total {
        all.extend(names(&repo.search_by(&crit, page).unwrap().rows));
    }
    let expected: Vec<String> = (1..=32).map(|i| format!("user{:02}", i)).collect();
    assert_eq!(all, expected);
}

#[test]
fn page_past_the_end_is_empty() {
    let repo = thirty_two();
    let page = repo.search_by(&no_criteria(), 4).unwrap();
    assert!(page.rows.is_empty());
    assert_eq!(page.total_pages, 3);
    let far = repo.search_by(&no_criteria(), usize::MAX).unwrap();
    assert!(far.rows.is_empty());
    assert_eq!(far.total_pages, 3);
}

#[test]
fn empty_criteria_selects_everything() {
    let mut repo = ClientRepository::new();
    repo.add(&client("carol")).unwrap();
    repo.add(&client("alice")).unwrap();
    repo.add(&client("bob")).unwrap();
    let page = repo.search_by(&no_criteria(), 1).unwrap();
    assert_eq!(names(&page.rows), vec!["alice", "bob", "carol"]);
    assert_eq!(page.total_pages, 1);
}

#[test]
fn empty_table_has_no_pages() {
    let repo = ClientRepository::new();
    let page = repo.search_by(&no_criteria(), 1).unwrap();
    assert!(page.rows.is_empty());
    assert_eq!(page.total_pages, 0);
    assert_eq!(repo.count_clients(&no_criteria()).unwrap(), 0);
}

#[test]
fn equal_usernames_keep_insertion_order() {
    let mut repo = ClientRepository::new();
    let mut first = client("sam");
    first.pwd = "first".to_string();
    let mut second = client("sam");
    second.pwd = "second".to_string();
    repo.add(&client("zoe")).unwrap();
    repo.add(&first).unwrap();
    repo.add(&client("Bea")).unwrap();
    repo.add(&second).unwrap();
    let rows = repo.search_by(&no_criteria(), 1).unwrap().rows;
    assert_eq!(names(&rows), vec!["Bea", "sam", "sam", "zoe"]);
    assert_eq!(rows[1].pwd, "first");
    assert_eq!(rows[2].pwd, "second");
}

#[test]
fn ordering_is_by_bytes() {
    let mut repo = ClientRepository::new();
    repo.add(&client("ab")).unwrap();
    repo.add(&client("a")).unwrap();
    repo.add(&client("\u{e9}")).unwrap();
    repo.add(&client("z")).unwrap();
    let rows = repo.search_by(&no_criteria(), 1).unwrap().rows;
    assert_eq!(names(&rows), vec!["a", "ab", "z", "\u{e9}"]);
}

#[test]
fn criteria_filter_conjunctively() {
    let mut repo = ClientRepository::new();
    let mut a = client("ana");
    a.birth_date = date(2001, 5, 5);
    let mut b = client("bob");
    b.birth_date = date(2001, 5, 5);
    let c = client("cid");
    repo.add(&a).unwrap();
    repo.add(&b).unwrap();
    repo.add(&c).unwrap();
    let bob = repo.search_by_id(2).unwrap().unwrap();
    repo.logically_delete(&bob).unwrap();

    let mut by_date = no_criteria();
    by_date.birth_date = Some(date(2001, 5, 5));
    assert_eq!(names(&repo.search_by(&by_date, 1).unwrap().rows), vec!["ana", "bob"]);

    let mut date_and_active = by_date.clone();
    date_and_active.active = Some(true);
    assert_eq!(names(&repo.search_by(&date_and_active, 1).unwrap().rows), vec!["ana"]);
    assert_eq!(repo.count_clients(&date_and_active).unwrap(), 1);

    let mut by_name = no_criteria();
    by_name.username = Some("cid".to_string());
    assert_eq!(names(&repo.search_by(&by_name, 1).unwrap().rows), vec!["cid"]);

    let mut by_pwd = no_criteria();
    by_pwd.pwd = Some("bob-secret".to_string());
    assert_eq!(names(&repo.search_by(&by_pwd, 1).unwrap().rows), vec!["bob"]);

    let mut by_id = no_criteria();
    by_id.client_id = Some(3);
    assert_eq!(names(&repo.search_by(&by_id, 1).unwrap().rows), vec!["cid"]);

    let mut nothing = no_criteria();
    nothing.username = Some("nobody".to_string());
    let page = repo.search_by(&nothing, 1).unwrap();
    assert!(page.rows.is_empty());
    assert_eq!(page.total_pages, 0);
}

#[test]
fn filtered_search_pages_by_matching_count() {
    let mut repo = ClientRepository::new();
    for i in 1..=20 {
        let mut c = client(&format!("u{:02}", i));
        c.active = i % 2 == 0;
        repo.add(&c).unwrap();
    }
    let mut active = no_criteria();
    active.active = Some(true);
    assert_eq!(repo.count_clients(&active).unwrap(), 10);
    let page = repo.search_by(&active, 1).unwrap();
    assert_eq!(page.total_pages, 1);
    assert_eq!(page.rows.len(), 10);
    assert_eq!(page.rows[0].username, "u02");
}

#[test]
fn add_client_creates_active_row() {
    let mut repo = ClientRepository::new();
    let new = NewClient {
        username: "ana".to_string(),
        pwd: "pw".to_string(),
        birth_date: date(1999, 12, 31),
    };
    add_client(&mut repo, new).unwrap();
    let stored = repo.search_by_id(1).unwrap().unwrap();
    assert_eq!(stored.client_id, Some(1));
    assert!(stored.active);
    assert_eq!(stored.username, "ana");
    assert_eq!(stored.pwd, "pw");
    assert_eq!(stored.birth_date, date(1999, 12, 31));
}

#[test]
fn from_new_has_no_identifier() {
    let c = Client::from_new(NewClient {
        username: "ana".to_string(),
        pwd: "pw".to_string(),
        birth_date: date(2000, 1, 1),
    });
    assert_eq!(c.client_id, None);
    assert!(c.active);
    assert_eq!(c.username, "ana");
}

#[test]
fn validation_accepts_every_client() {
    assert!(ClientRepository::item_is_valid(&client("ana")).is_ok());
    assert!(<ClientRepository as Checker<Client, ClientRepository>>::item_is_valid(&client("x"))
        .is_ok());
}

#[test]
fn capabilities_of_a_client() {
    let mut c = client("ana");
    assert_eq!(*c.id(), None);
    c.client_id = Some(4);
    assert_eq!(*c.id(), Some(4));
    assert!(*c.is_deleted());
    c.set_deleted(false);
    assert!(!*c.is_deleted());
    assert!(!c.active);
    assert_eq!(c.username, "ana");
}

#[test]
fn criteria_accepts() {
    let c = client("ana");
    assert!(no_criteria().accepts(&c));
    let mut by_id = no_criteria();
    by_id.client_id = Some(1);
    assert!(!by_id.accepts(&c));
    let mut by_name = no_criteria();
    by_name.username = Some("ana".to_string());
    assert!(by_name.accepts(&c));
}

#[test]
fn client_equality_compares_columns() {
    let a = client("ana");
    let mut b = client("ana");
    assert_eq!(a, b);
    b.pwd = "other".to_string();
    assert_ne!(a, b);
    let d = a.duplicate();
    assert_eq!(a, d);
}

#[test]
fn search_new_keeps_fields() {
    let s = Search::new(2, 5, no_criteria(), "[]".to_string());
    assert_eq!(s.page, 2);
    assert_eq!(s.total_pages, 5);
    assert_eq!(s.result, "[]");
    assert!(s.criteria.username.is_none());
}
