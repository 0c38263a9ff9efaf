use pw::credential::{merge_edits, normalize_token, Credential};

#[test]
fn normalize_replaces_every_space_with_underscore() {
    assert_eq!(normalize_token("my bank login"), "my_bank_login");
    assert_eq!(normalize_token("nospace"), "nospace");
    assert_eq!(normalize_token(""), "");
    assert_eq!(normalize_token("  "), "__");
}

#[test]
fn merge_edits_keeps_old_values_on_empty_input() {
    let mut c = Credential {
        id: 3,
        name: "old".to_string(),
        category: "cat".to_string(),
        username: "user".to_string(),
        password: "pass".to_string(),
    };
    merge_edits(&mut c, false, "", "newcat", "", "");
    assert_eq!(c.id, 3);
    assert_eq!(c.name, "old");
    assert_eq!(c.category, "newcat");
    assert_eq!(c.username, "user");
    assert_eq!(c.password, "pass");
}

#[test]
fn merge_edits_replaces_fields_with_non_empty_input() {
    let mut c = Credential {
        id: 3,
        name: "old".to_string(),
        category: "cat".to_string(),
        username: "user".to_string(),
        password: "pass".to_string(),
    };
    merge_edits(&mut c, false, "newname", "newcat", "newuser", "newpass");
    assert_eq!(c.name, "newname");
    assert_eq!(c.category, "newcat");
    assert_eq!(c.username, "newuser");
    assert_eq!(c.password, "newpass");
}

#[test]
fn merge_edits_skips_name_and_category_for_fresh_records() {
    let mut c = Credential::new("fresh".to_string(), "cat".to_string());
    merge_edits(&mut c, true, "ignored", "ignored", "user", "pass");
    assert_eq!(c.name, "fresh");
    assert_eq!(c.category, "cat");
    assert_eq!(c.username, "user");
    assert_eq!(c.password, "pass");
}

#[test]
fn secret_picks_username_or_password() {
    let c = Credential {
        id: 1,
        name: "n".to_string(),
        category: "".to_string(),
        username: "user".to_string(),
        password: "pass".to_string(),
    };
    assert_eq!(c.secret(true), "user");
    assert_eq!(c.secret(false), "pass");
}
