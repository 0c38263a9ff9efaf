use pw::credential::Credential;
use pw::errors::StoreError;
use pw::store::Store;

fn add(s: &mut Store, name: &str, category: &str, username: &str, password: &str) -> Credential {
    s.insert(
        name.to_string(),
        category.to_string(),
        username.to_string(),
        password.to_string(),
    )
    .expect("insert should succeed")
}

#[test]
fn insert_then_get_round_trip() {
    let mut s = Store::new();
    add(&mut s, "mail", "personal", "me@example.com", "hunter2");
    let c = s.get("mail").expect("stored credential should be found");
    assert_eq!(c.name, "mail");
    assert_eq!(c.category, "personal");
    assert_eq!(c.username, "me@example.com");
    assert_eq!(c.password, "hunter2");
}

#[test]
fn duplicate_insert_rejected_and_one_record_kept() {
    let mut s = Store::new();
    add(&mut s, "mail", "a", "first", "1");
    let r = s.insert(
        "mail".to_string(),
        "b".to_string(),
        "second".to_string(),
        "2".to_string(),
    );
    assert_eq!(r.unwrap_err(), StoreError::DuplicateName);
    let names = s.all_names();
    assert_eq!(names.len(), 1);
    assert_eq!(names[0], "mail");
    let c = s.get("mail").unwrap();
    assert_eq!(c.username, "first");
}

#[test]
fn reserved_category_rejected_before_any_write() {
    let mut s = Store::new();
    let r = s.insert(
        "mail".to_string(),
        "categories".to_string(),
        "u".to_string(),
        "p".to_string(),
    );
    assert_eq!(r.unwrap_err(), StoreError::ReservedName);
    assert_eq!(s.all_names().len(), 0);
    assert_eq!(s.get("mail").unwrap_err(), StoreError::NotFound);
}

#[test]
fn delete_then_get_not_found() {
    let mut s = Store::new();
    let c = add(&mut s, "mail", "a", "u", "p");
    s.delete(c.id);
    assert_eq!(s.get("mail").unwrap_err(), StoreError::NotFound);
}

#[test]
fn delete_unknown_id_is_a_no_op() {
    let mut s = Store::new();
    add(&mut s, "mail", "a", "u", "p");
    s.delete(999);
    assert_eq!(s.all_names().len(), 1);
}

#[test]
fn ids_are_fresh_and_never_reused() {
    let mut s = Store::new();
    let a = add(&mut s, "one", "", "u", "p");
    let b = add(&mut s, "two", "", "u", "p");
    assert_ne!(a.id, b.id);
    s.delete(b.id);
    let c = add(&mut s, "three", "", "u", "p");
    assert_ne!(c.id, b.id);
    assert_ne!(c.id, a.id);
}

#[test]
fn name_lookup_is_case_sensitive() {
    let mut s = Store::new();
    add(&mut s, "Mail", "a", "u", "p");
    assert!(s.name_exists("Mail"));
    assert!(!s.name_exists("mail"));
    assert_eq!(s.get("mail").unwrap_err(), StoreError::NotFound);
}

#[test]
fn update_replaces_every_field_by_id() {
    let mut s = Store::new();
    let c = add(&mut s, "mail", "a", "u", "p");
    let edited = Credential {
        id: c.id,
        name: "post".to_string(),
        category: "b".to_string(),
        username: "u2".to_string(),
        password: "p2".to_string(),
    };
    s.update(&edited).expect("update should succeed");
    assert_eq!(s.get("mail").unwrap_err(), StoreError::NotFound);
    let c2 = s.get("post").unwrap();
    assert_eq!(c2.id, c.id);
    assert_eq!(c2.category, "b");
    assert_eq!(c2.username, "u2");
    assert_eq!(c2.password, "p2");
}

#[test]
fn update_unknown_id_not_found() {
    let mut s = Store::new();
    let c = Credential {
        id: 42,
        name: "mail".to_string(),
        category: "".to_string(),
        username: "".to_string(),
        password: "".to_string(),
    };
    assert_eq!(s.update(&c).unwrap_err(), StoreError::NotFound);
}

#[test]
fn update_rename_collision_rejected() {
    let mut s = Store::new();
    add(&mut s, "one", "", "u", "p");
    let c = add(&mut s, "two", "", "u", "p");
    let edited = Credential {
        id: c.id,
        name: "one".to_string(),
        category: "".to_string(),
        username: "u".to_string(),
        password: "p".to_string(),
    };
    assert_eq!(s.update(&edited).unwrap_err(), StoreError::DuplicateName);
    let kept = s.get("two").unwrap();
    assert_eq!(kept.id, c.id);
}

#[test]
fn update_reserved_category_rejected() {
    let mut s = Store::new();
    let c = add(&mut s, "one", "a", "u", "p");
    let edited = Credential {
        id: c.id,
        name: "one".to_string(),
        category: "categories".to_string(),
        username: "u".to_string(),
        password: "p".to_string(),
    };
    assert_eq!(s.update(&edited).unwrap_err(), StoreError::ReservedName);
    assert_eq!(s.get("one").unwrap().category, "a");
}

#[test]
fn from_rows_accepts_valid_rows_and_assigns_fresh_ids() {
    let mut s = Store::new();
    add(&mut s, "one", "a", "u", "p");
    add(&mut s, "two", "b", "u", "p");
    let rows = vec![
        Credential {
            id: 1,
            name: "one".to_string(),
            category: "a".to_string(),
            username: "u".to_string(),
            password: "p".to_string(),
        },
        Credential {
            id: 7,
            name: "two".to_string(),
            category: "b".to_string(),
            username: "u".to_string(),
            password: "p".to_string(),
        },
    ];
    let mut loaded = Store::from_rows(rows).expect("valid rows should load");
    let c = loaded
        .insert("three".to_string(), "".to_string(), "".to_string(), "".to_string())
        .unwrap();
    assert!(c.id > 7);
}

#[test]
fn from_rows_rejects_duplicate_names() {
    let rows = vec![
        Credential {
            id: 1,
            name: "one".to_string(),
            category: "".to_string(),
            username: "".to_string(),
            password: "".to_string(),
        },
        Credential {
            id: 2,
            name: "one".to_string(),
            category: "".to_string(),
            username: "".to_string(),
            password: "".to_string(),
        },
    ];
    assert_eq!(
        Store::from_rows(rows).unwrap_err(),
        StoreError::StorageUnavailable
    );
}

#[test]
fn from_rows_rejects_duplicate_ids() {
    let rows = vec![
        Credential {
            id: 1,
            name: "one".to_string(),
            category: "".to_string(),
            username: "".to_string(),
            password: "".to_string(),
        },
        Credential {
            id: 1,
            name: "two".to_string(),
            category: "".to_string(),
            username: "".to_string(),
            password: "".to_string(),
        },
    ];
    assert_eq!(
        Store::from_rows(rows).unwrap_err(),
        StoreError::StorageUnavailable
    );
}

#[test]
fn from_rows_rejects_empty_names() {
    let rows = vec![Credential {
        id: 1,
        name: "".to_string(),
        category: "".to_string(),
        username: "".to_string(),
        password: "".to_string(),
    }];
    assert_eq!(
        Store::from_rows(rows).unwrap_err(),
        StoreError::StorageUnavailable
    );
}

#[test]
fn from_rows_rejects_reserved_category() {
    let rows = vec![Credential {
        id: 1,
        name: "one".to_string(),
        category: "categories".to_string(),
        username: "".to_string(),
        password: "".to_string(),
    }];
    assert_eq!(
        Store::from_rows(rows).unwrap_err(),
        StoreError::StorageUnavailable
    );
}

#[test]
fn prepare_new_credential_normalizes_and_checks() {
    let mut s = Store::new();
    let c = s
        .prepare_new_credential("my mail", "web shops")
        .expect("fresh name should be accepted");
    assert_eq!(c.name, "my_mail");
    assert_eq!(c.category, "web_shops");
    assert_eq!(c.username, "");
    assert_eq!(c.password, "");
    add(&mut s, "taken", "", "u", "p");
    assert_eq!(
        s.prepare_new_credential("taken", "").unwrap_err(),
        StoreError::DuplicateName
    );
    assert_eq!(
        s.prepare_new_credential("fresh", "categories").unwrap_err(),
        StoreError::ReservedName
    );
}
