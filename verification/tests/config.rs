use bpaf::config::{Config, ConfigReader, Cursors};
use std::collections::BTreeMap;

#[test]
fn basic_cursor_logic() {
    let mut cursors = Cursors::default();
    assert_eq!(0, cursors.get(&[], "hello"));
    assert_eq!(0, cursors.get(&[], "bob"));
    assert_eq!(1, cursors.get(&[], "hello"));
    assert_eq!(2, cursors.get(&[], "hello"));
    cursors.enter(&[], "nest");
    assert_eq!(0, cursors.get(&[("nest", 0)], "hello"));
    assert_eq!(1, cursors.get(&[("nest", 0)], "hello"));
    assert_eq!(2, cursors.get(&[("nest", 0)], "hello"));
    cursors.enter(&[], "nest");
    assert_eq!(0, cursors.get(&[("nest", 1)], "hello"));
    assert_eq!(1, cursors.get(&[("nest", 1)], "hello"));
    assert_eq!(2, cursors.get(&[("nest", 1)], "hello"));
    assert_eq!(3, cursors.get(&[], "hello"));
}

#[test]
fn entering_twice_counts_up() {
    let mut cursors = Cursors::new();
    assert_eq!(0, cursors.enter(&[], "nest"));
    assert_eq!(1, cursors.enter(&[], "nest"));
    assert_eq!(0, cursors.enter(&[("nest", 1)], "deeper"));
    assert_eq!(2, cursors.enter(&[], "nest"));
    // entering "nest" again restarted the positions directly below it
    assert_eq!(0, cursors.enter(&[("nest", 2)], "deeper"));
}

#[test]
fn btree_config_answers_top_level_first_read_only() {
    let mut map = BTreeMap::new();
    map.insert("name".to_string(), "value".to_string());
    assert_eq!(Some("value".to_string()), Config::get(&map, &[], "name", 0));
    assert_eq!(None, Config::get(&map, &[], "name", 1));
    assert_eq!(None, Config::get(&map, &[("nest", 0)], "name", 0));
    assert_eq!(None, Config::get(&map, &[], "other", 0));
}

#[test]
fn reader_reads_once_and_counts() {
    let mut map = BTreeMap::new();
    map.insert("name".to_string(), "value".to_string());
    let mut reader = ConfigReader::new(map);
    assert_eq!(1000000000, reader.unconsumed());
    assert_eq!(Some("value".to_string()), reader.get("name"));
    assert_eq!(999999999, reader.unconsumed());
    assert_eq!(None, reader.get("name"));
    reader.enter("nest");
    assert_eq!(None, reader.get("name"));
    reader.exit();
    assert_eq!(999999999, reader.unconsumed());
}
