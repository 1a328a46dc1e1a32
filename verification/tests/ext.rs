use db::ext::Extension;
use db::ext::ExtensionManager;
use db::ext::LoadError;
use db::ext::NullDB;
use std::cell::Cell;
use std::rc::Rc;

/// An extension that counts its runs and remembers where it came from.
struct Counter {
    path: String,
    runs: Rc<Cell<u32>>,
}

impl Extension for Counter {
    fn load(path: &str) -> Option<Self> {
        if path.is_empty() {
            None
        } else {
            Some(Counter { path: path.to_string(), runs: Rc::new(Cell::new(0)) })
        }
    }

    fn call(&self, _db: &NullDB) {
        self.runs.set(self.runs.get() + 1);
    }
}

fn counter(runs: &Rc<Cell<u32>>) -> Counter {
    Counter { path: String::new(), runs: runs.clone() }
}

#[test]
fn new_manager_binds_nothing() {
    let manager: ExtensionManager<Counter> = ExtensionManager::new();
    assert!(manager.get(1, "get").is_none());
    assert!(manager.get(0, "").is_none());
}

#[test]
fn load_binds_the_loaded_unit() {
    let mut manager: ExtensionManager<Counter> = ExtensionManager::new();
    assert_eq!(manager.load("lib/one.so", 1, "one"), Ok(()));
    assert_eq!(manager.load("lib/two.so", 1, "two"), Ok(()));
    assert_eq!(manager.get(1, "one").unwrap().path, "lib/one.so");
    assert_eq!(manager.get(1, "two").unwrap().path, "lib/two.so");
    assert!(manager.get(2, "one").is_none());
    assert!(manager.get(1, "on").is_none());
}

#[test]
fn load_failure_binds_nothing() {
    let mut manager: ExtensionManager<Counter> = ExtensionManager::new();
    assert_eq!(manager.load("lib/one.so", 1, "one"), Ok(()));
    assert_eq!(manager.load("", 1, "one"), Err(LoadError::NotLoadable));
    assert_eq!(manager.load("", 1, "two"), Err(LoadError::NotLoadable));
    assert_eq!(manager.get(1, "one").unwrap().path, "lib/one.so");
    assert!(manager.get(1, "two").is_none());
}

#[test]
fn install_replaces_the_unit_of_the_same_tenant_and_name() {
    let first = Rc::new(Cell::new(0));
    let second = Rc::new(Cell::new(0));
    let db = NullDB::new();
    let mut manager: ExtensionManager<Counter> = ExtensionManager::new();
    assert_eq!(manager.install(Some(counter(&first)), 7, "ext"), Ok(()));
    manager.call(&db, 7, "ext");
    assert_eq!(manager.install(Some(counter(&second)), 7, "ext"), Ok(()));
    manager.call(&db, 7, "ext");
    manager.call(&db, 7, "ext");
    assert_eq!(first.get(), 1);
    assert_eq!(second.get(), 2);
}

#[test]
fn install_without_a_unit_is_an_error() {
    let mut manager: ExtensionManager<Counter> = ExtensionManager::new();
    assert_eq!(manager.install(None, 7, "ext"), Err(LoadError::NotLoadable));
    assert!(manager.get(7, "ext").is_none());
}

#[test]
fn call_runs_only_the_named_extension_of_the_tenant() {
    let mine = Rc::new(Cell::new(0));
    let theirs = Rc::new(Cell::new(0));
    let other = Rc::new(Cell::new(0));
    let db = NullDB::new();
    let mut manager: ExtensionManager<Counter> = ExtensionManager::new();
    manager.install(Some(counter(&mine)), 1, "get").unwrap();
    manager.install(Some(counter(&theirs)), 2, "get").unwrap();
    manager.install(Some(counter(&other)), 1, "put").unwrap();
    manager.call(&db, 1, "get");
    assert_eq!((mine.get(), theirs.get(), other.get()), (1, 0, 0));
    manager.call(&db, 2, "get");
    manager.call(&db, 1, "put");
    manager.call(&db, 1, "put");
    assert_eq!((mine.get(), theirs.get(), other.get()), (1, 1, 2));
}

#[test]
fn call_of_an_unbound_name_runs_nothing() {
    let runs = Rc::new(Cell::new(0));
    let db = NullDB::new();
    let mut manager: ExtensionManager<Counter> = ExtensionManager::new();
    manager.install(Some(counter(&runs)), 1, "get").unwrap();
    manager.call(&db, 1, "missing");
    manager.call(&db, 3, "get");
    assert_eq!(runs.get(), 0);
}

#[test]
fn names_are_compared_as_text() {
    let runs = Rc::new(Cell::new(0));
    let db = NullDB::new();
    let mut manager: ExtensionManager<Counter> = ExtensionManager::new();
    manager.install(Some(counter(&runs)), 1, "gr\u{fc}n").unwrap();
    manager.call(&db, 1, "gr\u{fc}n");
    manager.call(&db, 1, "grun");
    assert_eq!(runs.get(), 1);
}
