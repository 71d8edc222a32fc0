use raurman::db::PackageDb;
use raurman::dispatch::{after_answer, after_execute, after_save, begin, Action, Invocation};
use raurman::error::AppError;
use raurman::logger::{enabled, init, Level, LoggerFlags};
use raurman::sync::{handle_sync, SyncStep};
use raurman::types::{OpType, Operation, Package};
use raurman::util::{
    check_privileges, confirmation_accepted, confirmation_prompt, explicit_packages,
    needs_confirmation, pkgdb_path, recovery_command, targets_from_db, update_pkgdb, use_db_pkgs, use_db_pkgs_if_empty,
    Targets, NOT_ROOT_DENIED, ROOT_BUILD_DENIED,
};

fn strings(v: &[&str]) -> Vec<String> {
    v.iter().map(|s| s.to_string()).collect()
}

fn invocation(op: OpType, aur: bool, db_only: bool, from_db: bool) -> Invocation {
    Invocation {
        op,
        aur,
        debug: false,
        db_only,
        save: true,
        from_db,
        names: strings(&["foo"]),
        groups: strings(&["dev"]),
    }
}

#[test]
fn sync_as_root_with_external_flag_is_denied() {
    match check_privileges(&OpType::Sync, true, true, false, false) {
        Err(AppError::AclError(m)) => assert_eq!(m, ROOT_BUILD_DENIED),
        _ => panic!("expected an access-control error"),
    }
}

#[test]
fn native_operation_without_root_is_denied() {
    match check_privileges(&OpType::Remove, false, false, false, false) {
        Err(AppError::AclError(m)) => assert_eq!(m, NOT_ROOT_DENIED),
        _ => panic!("expected an access-control error"),
    }
}

#[test]
fn privilege_checks_skipped_in_debug_and_db_only() {
    assert!(check_privileges(&OpType::Sync, true, true, true, false).is_ok());
    assert!(check_privileges(&OpType::Sync, false, false, false, true).is_ok());
    assert!(check_privileges(&OpType::List, false, false, false, false).is_ok());
    assert!(check_privileges(&OpType::Sync, false, true, false, false).is_ok());
    assert!(check_privileges(&OpType::Sync, true, false, false, false).is_ok());
}

#[test]
fn declined_confirmation_leaves_everything_alone() {
    assert!(needs_confirmation(false, true));
    assert!(!needs_confirmation(true, true));
    assert!(!needs_confirmation(false, false));
    assert!(!confirmation_accepted(Some(b'n')));
    assert!(!confirmation_accepted(Some(b'\n')));
    assert!(!confirmation_accepted(None));
    assert!(confirmation_accepted(Some(b'y')));
    assert!(confirmation_accepted(Some(b'Y')));
    assert_eq!(
        confirmation_prompt(&OpType::Sync),
        "This will install many packages. Do you want to continue? [y/N]"
    );
    assert_eq!(
        confirmation_prompt(&OpType::Remove),
        "This will remove many packages. Do you want to continue? [y/N]"
    );
}

#[test]
fn recovery_command_after_failed_save() {
    let cmd = recovery_command(&OpType::Sync, &strings(&["bar", "foo"]), &vec![]);
    assert_eq!(cmd, "raurman -S bar foo --save --db-only");
    let cmd = recovery_command(&OpType::Remove, &strings(&["foo"]), &strings(&["dev", "extra"]));
    assert_eq!(cmd, "raurman -R foo --save -G dev,extra --db-only");
    let cmd = recovery_command(&OpType::Sync, &vec![], &vec![]);
    assert_eq!(cmd, "raurman -S  --save --db-only");
}

#[test]
fn elevated_external_sync_denied_before_anything_runs() {
    for from_db in [false, true] {
        let inv = invocation(OpType::Sync, true, false, from_db);
        match begin(&inv, true) {
            Action::Fail(AppError::AclError(m)) => assert_eq!(m, ROOT_BUILD_DENIED),
            _ => panic!("expected an access-control error"),
        }
    }
}

#[test]
fn declined_confirmation_finishes_without_acting() {
    let inv = invocation(OpType::Sync, false, false, true);
    match begin(&inv, true) {
        Action::Ask(q) => assert_eq!(q, "This will install many packages. Do you want to continue? [y/N]"),
        _ => panic!("expected the question"),
    }
    assert!(matches!(after_answer(&inv, Some(b'n')), Action::Finish));
    assert!(matches!(after_answer(&inv, None), Action::Finish));
    assert!(matches!(after_answer(&inv, Some(b'Y')), Action::Execute));
}

#[test]
fn dispatch_saves_only_after_success() {
    let inv = invocation(OpType::Remove, false, false, false);
    assert!(matches!(begin(&inv, true), Action::Execute));
    assert!(matches!(after_execute(&inv, false), Action::Abort));
    assert!(matches!(after_execute(&inv, true), Action::Save));
    assert!(matches!(after_save(&inv, true), Action::Finish));
    match after_save(&inv, false) {
        Action::Recover(c) => assert_eq!(c, "raurman -R foo --save -G dev --db-only"),
        _ => panic!("expected the repair command"),
    }
    let db_only = invocation(OpType::Remove, false, true, false);
    assert!(matches!(begin(&db_only, false), Action::Save));
}

#[test]
fn database_path_prefers_elevating_user() {
    let p = pkgdb_path(Some("ann".to_string()), Some("/root".to_string()));
    assert_eq!(p.unwrap(), "/home/ann/.config/raurman/pkgdb.json");
    let p = pkgdb_path(None, Some("/home/bob".to_string()));
    assert_eq!(p.unwrap(), "/home/bob/.config/raurman/pkgdb.json");
    assert!(pkgdb_path(None, None).is_none());
}

#[test]
fn explicit_names_are_sorted_and_deduplicated() {
    let pkgs = explicit_packages(&strings(&["zsh", "git", "zsh"]), true);
    let names: Vec<&str> = pkgs.iter().map(|p| p.name.as_str()).collect();
    assert_eq!(names, vec!["git", "zsh"]);
    assert!(pkgs.iter().all(|p| p.aur));
}

#[test]
fn explicit_targets_do_not_read_database() {
    match use_db_pkgs_if_empty(vec![Package::new("foo", false)]) {
        Targets::Explicit(v) => assert_eq!(v[0].name, "foo"),
        Targets::FromDb => panic!("explicit names must be used as they are"),
    }
    assert!(matches!(use_db_pkgs_if_empty(vec![]), Targets::FromDb));
}

#[test]
fn database_targets_follow_groups() {
    let mut db = PackageDb::empty();
    db.add(vec![Package::new("foo", false)], vec![]);
    db.add(vec![Package::new("bar", true)], strings(&["extra"]));
    let (all, from_db) = use_db_pkgs(&db, &vec![]);
    assert!(from_db);
    let names: Vec<&str> = all.iter().map(|p| p.name.as_str()).collect();
    assert_eq!(names, vec!["foo", "bar"]);
    let (some, _) = use_db_pkgs(&db, &strings(&["extra"]));
    assert_eq!(some.len(), 1);
    assert_eq!(some[0].name, "bar");
}

#[test]
fn sync_steps_batch_native_and_build_external_one_by_one() {
    let pkgs = vec![
        Package::new("a", false),
        Package::new("x", true),
        Package::new("b", false),
        Package::new("y", true),
        Package::new("c", false),
    ];
    let steps = handle_sync(&pkgs);
    assert_eq!(steps.len(), 3);
    match &steps[0] {
        SyncStep::InstallNative(ns) => assert_eq!(ns, &strings(&["a", "b", "c"])),
        _ => panic!("expected one native batch"),
    }
    match &steps[1] {
        SyncStep::BuildExternal(n) => assert_eq!(n, "x"),
        _ => panic!("expected a build"),
    }
    match &steps[2] {
        SyncStep::BuildExternal(n) => assert_eq!(n, "y"),
        _ => panic!("expected a build"),
    }
    assert!(handle_sync(&vec![]).is_empty());
    let only_external = handle_sync(&vec![Package::new("x", true)]);
    assert_eq!(only_external.len(), 1);
    assert!(matches!(&only_external[0], SyncStep::BuildExternal(n) if n == "x"));
}

#[test]
fn save_applies_operation() {
    let mut db = PackageDb::empty();
    update_pkgdb(&mut db, vec![Package::new("foo", false)], &OpType::Sync, vec![]);
    assert_eq!(db.to_text(), "default: \n|  foo\n\n");
    update_pkgdb(&mut db, vec![Package::new("foo", false)], &OpType::List, vec![]);
    assert_eq!(db.to_text(), "default: \n|  foo\n\n");
    update_pkgdb(&mut db, vec![Package::new("foo", false)], &OpType::Remove, vec![]);
    assert_eq!(db.to_text(), "");
}

#[test]
fn operation_flags_select_one_operation() {
    let op = Operation { sync: false, remove: true, list: false, backup: None };
    assert!(matches!(OpType::from_operation(op), Some(OpType::Remove)));
    let op = Operation { sync: false, remove: false, list: false, backup: Some("/tmp".to_string()) };
    match OpType::from_operation(op) {
        Some(OpType::Backup(to)) => assert_eq!(to, "/tmp"),
        _ => panic!("expected a backup"),
    }
    let op = Operation { sync: false, remove: false, list: false, backup: None };
    assert!(OpType::from_operation(op).is_none());
}

#[test]
fn logger_level_from_flags() {
    assert_eq!(init(LoggerFlags { verbose: true, debug: true }), Level::Debug);
    assert_eq!(init(LoggerFlags { verbose: true, debug: false }), Level::Warn);
    assert_eq!(init(LoggerFlags { verbose: false, debug: false }), Level::Info);
    assert!(enabled(Level::Info, Level::Warn));
    assert!(!enabled(Level::Info, Level::Debug));
}

#[test]
fn empty_names_read_database_and_pass_on_its_error() {
    match targets_from_db(Err(AppError::IoError("no such file".to_string())), &vec![]) {
        Err(AppError::IoError(m)) => assert_eq!(m, "no such file"),
        _ => panic!("expected the read error"),
    }
    let mut db = PackageDb::empty();
    db.add(vec![Package::new("foo", false)], vec![]);
    match targets_from_db(Ok(db), &vec![]) {
        Ok((pkgs, from_db)) => {
            assert!(from_db);
            assert_eq!(pkgs.len(), 1);
            assert_eq!(pkgs[0].name, "foo");
        }
        Err(_) => panic!("expected the database's packages"),
    }
}
