use rust_ami::paths::{join, master_path, symbol_path, symbol_root_folder};

#[test]
fn shard_folders() {
    assert_eq!(symbol_root_folder("^GSPC"), "_");
    assert_eq!(symbol_root_folder("~X"), "_");
    assert_eq!(symbol_root_folder("@ES"), "_");
    assert_eq!(symbol_root_folder("aapl"), "a");
    assert_eq!(symbol_root_folder("AAPL"), "a");
    assert_eq!(symbol_root_folder("1ABC"), "1");
    assert_eq!(symbol_root_folder("Éclair"), "É");
}

#[test]
fn empty_symbol_uses_space_folder() {
    assert_eq!(symbol_root_folder(""), " ");
}

#[test]
fn symbol_paths() {
    assert_eq!(symbol_path("db", "AAPL"), "db/a/AAPL");
    assert_eq!(symbol_path("db/", "msft"), "db/m/msft");
    assert_eq!(symbol_path("db", "^GSPC"), "db/_/^GSPC");
    assert_eq!(symbol_path("", "IBM"), "i/IBM");
}

#[test]
fn master_name_is_not_sharded() {
    assert_eq!(symbol_path("db", "broker.master"), "db/broker.master");
    assert_eq!(symbol_path("db", "Broker.MASTER"), "db/Broker.MASTER");
    assert_eq!(master_path("/data/ami"), "/data/ami/broker.master");
}

#[test]
fn join_follows_path_rules() {
    assert_eq!(join("a", "b"), "a/b");
    assert_eq!(join("a/", "b"), "a/b");
    assert_eq!(join("", "b"), "b");
    assert_eq!(join("a", "/b"), "/b");
}
