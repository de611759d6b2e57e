//! Object metadata, table difference, configuration, and checksum checks.

use strikeout::check::check_md5_sum;
use strikeout::config::Config;
use strikeout::meta::{Meta, MetaTable};

fn meta(name: &str, id: &str, md5_hash: &str) -> Meta {
    Meta {
        name: name.into(),
        media_link: "aaa".into(),
        id: id.into(),
        md5_hash: md5_hash.into(),
        size: 3333,
    }
}

#[test]
fn sub() {
    let meta1 = Meta {
        name: "ccc".into(),
        id: "1".into(),
        media_link: "aaa".into(),
        md5_hash: "aaa".into(),
        size: 3333,
    };
    let meta2 = Meta {
        name: "ccc2".into(),
        id: "2".into(),
        media_link: "aaa".into(),
        md5_hash: "aaa".into(),
        size: 3333,
    };
    let table1 = MetaTable::from_items(vec![meta1]);
    let table2 = MetaTable::from_items(vec![meta2]);
    let sub = table1.sub(table2);
    assert_eq!("1", sub.first().unwrap().id);
}

#[test]
fn sub_drops_known_ids() {
    let a = MetaTable::from_items(vec![meta("x", "1", "h"), meta("y", "2", "h")]);
    let b = MetaTable::from_items(vec![meta("other-name", "1", "other-hash")]);
    let delta = a.sub(b);
    assert_eq!(delta.len(), 1);
    assert_eq!(delta[0].id, "2");
}

#[test]
fn sub_of_equal_tables_is_empty() {
    let a = MetaTable::from_items(vec![meta("x", "1", "h")]);
    let b = MetaTable::from_items(vec![meta("x", "1", "h")]);
    assert!(a.sub(b).is_empty());
}

#[test]
fn default_table_is_empty() {
    let t = MetaTable::default();
    assert!(t.items().is_empty());
}

#[test]
fn meta_name_is_final_component() {
    assert_eq!(meta("dir/sub/tool.bin", "1", "h").name(), "tool.bin");
    assert_eq!(meta("plain", "1", "h").name(), "plain");
    assert_eq!(meta("", "1", "h").name(), "");
}

#[test]
fn metas_compare_by_id() {
    assert_eq!(meta("a", "1", "h1"), meta("b", "1", "h2"));
    assert_ne!(meta("a", "1", "h"), meta("a", "2", "h"));
}

#[test]
fn config_directories_and_endpoint() {
    let c = Config::new(
        "https://storage.example.com/storage/v1/".to_owned(),
        "example_bucket".to_owned(),
        "/home/u/.cache".to_owned(),
        "/home/u/.local/share".to_owned(),
    );
    assert_eq!(c.cache_dir(), "/home/u/.cache/seiran");
    assert_eq!(c.data_dir(), "/home/u/.local/share/seiran");
    assert_eq!(c.list_api(), "https://storage.example.com/storage/v1/b/example_bucket/o");
}

#[test]
fn checksum_matches_known_vector() {
    // MD5("abc") rendered in padded standard base64.
    let m = meta("obj", "1", "kAFQmDzST7DWlj99KOF/cg==");
    assert!(check_md5_sum(&b"abc".to_vec(), &m));
    assert!(!check_md5_sum(&b"abd".to_vec(), &m));
    let empty = meta("obj", "1", "1B2M2Y8AsgTpgAmY7PhCfg==");
    assert!(check_md5_sum(&Vec::new(), &empty));
}
