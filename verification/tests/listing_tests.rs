use pw::render::{render_grouped, ListLine};
use pw::store::Store;

fn add(s: &mut Store, name: &str, category: &str) {
    s.insert(name.to_string(), category.to_string(), String::new(), String::new())
        .expect("insert should succeed");
}

#[test]
fn list_all_orders_by_category_then_name() {
    let mut s = Store::new();
    add(&mut s, "z", "b");
    add(&mut s, "y", "a");
    add(&mut s, "x", "a");
    let rows = s.list_all();
    assert_eq!(rows.len(), 3);
    assert_eq!((rows[0].category.as_str(), rows[0].name.as_str()), ("a", "x"));
    assert_eq!((rows[1].category.as_str(), rows[1].name.as_str()), ("a", "y"));
    assert_eq!((rows[2].category.as_str(), rows[2].name.as_str()), ("b", "z"));
}

#[test]
fn grouped_output_emits_exactly_one_header_per_category_run() {
    let mut s = Store::new();
    add(&mut s, "z", "b");
    add(&mut s, "y", "a");
    add(&mut s, "x", "a");
    let lines = render_grouped(&s.list_all());
    let mut headers = 0;
    for line in &lines {
        if matches!(line, ListLine::Header(_)) {
            headers += 1;
        }
    }
    assert_eq!(headers, 2);
    assert!(matches!(&lines[0], ListLine::Header(c) if c == "a"));
    assert!(matches!(&lines[1], ListLine::Entry(n) if n == "x"));
    assert!(matches!(&lines[2], ListLine::Entry(n) if n == "y"));
    assert!(matches!(&lines[3], ListLine::Header(c) if c == "b"));
    assert!(matches!(&lines[4], ListLine::Entry(n) if n == "z"));
}

#[test]
fn empty_category_is_its_own_group_with_blank_header() {
    let mut s = Store::new();
    add(&mut s, "n", "");
    add(&mut s, "m", "work");
    let lines = render_grouped(&s.list_all());
    assert!(matches!(&lines[0], ListLine::Header(c) if c.is_empty()));
    assert!(matches!(&lines[1], ListLine::Entry(n) if n == "n"));
    assert!(matches!(&lines[2], ListLine::Header(c) if c == "work"));
    assert!(matches!(&lines[3], ListLine::Entry(n) if n == "m"));
}

#[test]
fn list_by_category_filters_and_sorts() {
    let mut s = Store::new();
    add(&mut s, "z", "b");
    add(&mut s, "y", "a");
    add(&mut s, "x", "a");
    let rows = s.list_by_category("a");
    assert_eq!(rows.len(), 2);
    assert_eq!(rows[0].name, "x");
    assert_eq!(rows[1].name, "y");
    assert!(rows.iter().all(|e| e.category == "a"));
    assert_eq!(s.list_by_category("missing").len(), 0);
}

#[test]
fn distinct_categories_ascending_and_deduplicated() {
    let mut s = Store::new();
    add(&mut s, "p", "a");
    add(&mut s, "q", "");
    add(&mut s, "r", "a");
    add(&mut s, "t", "b");
    let cats = s.distinct_categories();
    assert_eq!(cats, vec!["".to_string(), "a".to_string(), "b".to_string()]);
}

#[test]
fn empty_store_lists_nothing() {
    let s = Store::new();
    assert_eq!(s.list_all().len(), 0);
    assert_eq!(render_grouped(&s.list_all()).len(), 0);
    assert_eq!(s.distinct_categories().len(), 0);
    assert_eq!(s.all_names().len(), 0);
}

#[test]
fn all_names_lists_every_record() {
    let mut s = Store::new();
    add(&mut s, "one", "a");
    add(&mut s, "two", "b");
    let mut names = s.all_names();
    names.sort();
    assert_eq!(names, vec!["one".to_string(), "two".to_string()]);
}
