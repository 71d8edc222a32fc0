use raurman::db::PackageDb;
use raurman::types::Package;

fn pkg(name: &str) -> Package {
    Package::new(name, false)
}

fn names(list: &[Package]) -> Vec<&str> {
    list.iter().map(|p| p.name.as_str()).collect()
}

fn group<'a>(db: &'a PackageDb, name: &str) -> Option<&'a Vec<Package>> {
    db.groups.iter().find(|(g, _)| g == name).map(|(_, l)| l)
}

fn db_of(groups: &[(&str, &[&str])]) -> PackageDb {
    PackageDb {
        groups: groups
            .iter()
            .map(|(g, l)| (g.to_string(), l.iter().map(|n| pkg(n)).collect()))
            .collect(),
    }
}

fn strings(v: &[&str]) -> Vec<String> {
    v.iter().map(|s| s.to_string()).collect()
}

#[test]
fn add_to_seeded_default_group() {
    let mut db = PackageDb::empty();
    db.add(vec![pkg("foo")], vec![]);
    assert_eq!(db.groups.len(), 1);
    assert_eq!(db.groups[0].0, "default");
    assert_eq!(names(&db.groups[0].1), vec!["foo"]);
}

#[test]
fn remove_from_all_groups_drops_emptied_group() {
    let mut db = db_of(&[("default", &["bar", "foo"]), ("extra", &["foo"])]);
    db.remove(vec![pkg("foo")], vec![]);
    assert_eq!(db.groups.len(), 1);
    assert_eq!(db.groups[0].0, "default");
    assert_eq!(names(&db.groups[0].1), vec!["bar"]);
    assert!(group(&db, "extra").is_none());
}

#[test]
fn add_sorts_and_dedups() {
    let mut db = PackageDb::empty();
    db.add(vec![pkg("zsh"), pkg("git"), pkg("vim"), pkg("git")], vec![]);
    assert_eq!(names(&db.groups[0].1), vec!["git", "vim", "zsh"]);
}

#[test]
fn add_is_idempotent() {
    let mut once = db_of(&[("default", &["bar"]), ("tools", &["make"])]);
    let mut twice = db_of(&[("default", &["bar"]), ("tools", &["make"])]);
    let pkgs = vec![pkg("foo"), Package::new("yay", true)];
    once.add(pkgs.clone(), strings(&["tools", "new"]));
    twice.add(pkgs.clone(), strings(&["tools", "new"]));
    twice.add(pkgs.clone(), strings(&["tools", "new"]));
    assert_eq!(once.to_text(), twice.to_text());
    assert_eq!(names(group(&twice, "tools").unwrap()), vec!["foo", "make", "yay"]);
    assert_eq!(names(group(&twice, "new").unwrap()), vec!["foo", "yay"]);
    assert_eq!(names(group(&twice, "default").unwrap()), vec!["bar"]);
}

#[test]
fn add_creates_missing_group_once() {
    let mut db = PackageDb::empty();
    db.add(vec![pkg("b"), pkg("a")], strings(&["dev", "dev"]));
    assert_eq!(db.groups.len(), 2);
    assert_eq!(db.groups[1].0, "dev");
    assert_eq!(names(&db.groups[1].1), vec!["a", "b"]);
    assert!(db.groups[0].1.is_empty());
}

#[test]
fn add_keeps_listed_origin_on_name_collision() {
    let mut db = PackageDb::empty();
    db.add(vec![pkg("foo")], vec![]);
    db.add(vec![Package::new("foo", true)], vec![]);
    assert_eq!(db.groups[0].1.len(), 1);
    assert_eq!(db.groups[0].1[0].name, "foo");
}

#[test]
fn remove_named_groups_only() {
    let mut db = db_of(&[("default", &["bar", "foo"]), ("extra", &["foo", "zed"])]);
    db.remove(vec![pkg("foo")], strings(&["extra"]));
    assert_eq!(names(group(&db, "default").unwrap()), vec!["bar", "foo"]);
    assert_eq!(names(group(&db, "extra").unwrap()), vec!["zed"]);
}

#[test]
fn remove_twice_is_no_op() {
    let mut db = db_of(&[("default", &["bar", "foo"])]);
    db.remove(vec![pkg("foo")], vec![]);
    let after_once = db.to_text();
    db.remove(vec![pkg("foo")], vec![]);
    assert_eq!(db.to_text(), after_once);
}

#[test]
fn remove_matches_by_name_only() {
    let mut db = db_of(&[("default", &["bar", "foo"])]);
    db.remove(vec![Package::new("foo", true)], vec![]);
    assert_eq!(names(&db.groups[0].1), vec!["bar"]);
}

#[test]
fn add_then_remove_round_trip() {
    let mut db = db_of(&[("default", &["bar"]), ("tools", &["make"])]);
    let before = db.to_text();
    let pkgs = vec![pkg("foo"), pkg("aaa")];
    db.add(pkgs.clone(), strings(&["tools", "fresh"]));
    assert!(group(&db, "fresh").is_some());
    db.remove(pkgs, strings(&["tools", "fresh"]));
    assert_eq!(db.to_text(), before);
    assert!(group(&db, "fresh").is_none());
}

#[test]
fn empty_database_text() {
    let db = PackageDb::empty();
    assert_eq!(db.to_text(), "default: \n\n");
}

#[test]
fn database_text_marks_external_packages() {
    let db = PackageDb {
        groups: vec![(
            "default".to_string(),
            vec![pkg("bar"), Package::new("yay", true)],
        )],
    };
    assert_eq!(db.to_text(), "default: \n|  bar\n|  yay, AUR\n\n");
}

#[test]
fn listing_requested_groups_skips_missing() {
    let db = db_of(&[("default", &["bar"]), ("extra", &["foo"])]);
    let text = raurman::listing::list_packages(&db, &strings(&["extra", "missing", "default"]));
    assert_eq!(text, "extra: \n|  foo\n\n\ndefault: \n|  bar\n\n\n");
    let none = raurman::listing::list_packages(&db, &strings(&["missing"]));
    assert_eq!(none, "");
    let all = raurman::listing::list_packages(&db, &vec![]);
    assert_eq!(all, format!("{}\n", db.to_text()));
}

#[test]
fn names_order_by_code_point() {
    assert!(raurman::order::name_lt("abc", "abd"));
    assert!(raurman::order::name_lt("ab", "abc"));
    assert!(!raurman::order::name_lt("abc", "abc"));
    assert!(raurman::order::name_lt("Zed", "apple"));
    assert!(!raurman::order::name_lt("b", "a"));
}
