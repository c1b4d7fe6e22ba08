use zee_edit::watch::{
    path_begins_with, same_bytes, same_path, EventClass, WatchList, WatchToken, Watchee,
};

fn path(text: &str) -> Vec<Vec<u8>> {
    text.split('/').filter(|part| !part.is_empty()).map(|part| part.as_bytes().to_vec()).collect()
}

fn watchee(text: &str, recursive: bool) -> Watchee {
    Watchee { path: path(text), recursive, token: WatchToken(1) }
}

#[test]
fn comparing_bytes_and_paths() {
    assert!(same_bytes(&b"abc".to_vec(), &b"abc".to_vec()));
    assert!(!same_bytes(&b"abc".to_vec(), &b"abd".to_vec()));
    assert!(!same_bytes(&b"abc".to_vec(), &b"ab".to_vec()));
    assert!(same_bytes(&Vec::new(), &Vec::new()));
    assert!(same_path(&path("/a/b"), &path("/a/b")));
    assert!(!same_path(&path("/a/b"), &path("/a/c")));
    assert!(!same_path(&path("/a/b"), &path("/a")));
    assert!(!same_path(&path("/a"), &path("/a/b")));
}

#[test]
fn a_path_begins_with_whole_components_only() {
    assert!(path_begins_with(&path("/a/b/c"), &path("/a/b")));
    assert!(path_begins_with(&path("/a/b"), &path("/a/b")));
    assert!(path_begins_with(&path("/a/b"), &path("")));
    assert!(!path_begins_with(&path("/a/bc"), &path("/a/b")));
    assert!(!path_begins_with(&path("/a"), &path("/a/b")));
    assert!(!path_begins_with(&path("/x/b/c"), &path("/a/b")));
}

#[test]
fn a_plain_watch_concerns_the_path_and_what_lies_directly_in_it() {
    let watched = watchee("/home/me", false);
    assert!(watched.applies_to_path(&path("/home/me")));
    assert!(watched.applies_to_path(&path("/home/me/file")));
    assert!(!watched.applies_to_path(&path("/home/me/dir/file")));
    assert!(!watched.applies_to_path(&path("/home")));
    assert!(!watched.applies_to_path(&path("/home/you/file")));
}

#[test]
fn a_recursive_watch_concerns_everything_below() {
    let watched = watchee("/home/me", true);
    assert!(watched.applies_to_path(&path("/home/me")));
    assert!(watched.applies_to_path(&path("/home/me/dir/sub/file")));
    assert!(!watched.applies_to_path(&path("/home")));
    assert!(!watched.applies_to_path(&path("/home/meme")));
}

#[test]
fn changes_come_with_one_path_and_renames_with_two() {
    let watched = watchee("/home/me", false);
    let inside = path("/home/me/file");
    let outside = path("/tmp/file");
    assert!(watched.wants_event(EventClass::Change, &vec![inside.clone()]));
    assert!(!watched.wants_event(EventClass::Change, &vec![outside.clone()]));
    assert!(!watched.wants_event(EventClass::Change, &vec![]));
    assert!(!watched.wants_event(EventClass::Change, &vec![inside.clone(), inside.clone()]));
    assert!(watched.wants_event(EventClass::Rename, &vec![inside.clone(), outside.clone()]));
    assert!(watched.wants_event(EventClass::Rename, &vec![outside.clone(), inside.clone()]));
    assert!(!watched.wants_event(EventClass::Rename, &vec![outside.clone(), outside.clone()]));
    assert!(!watched.wants_event(EventClass::Rename, &vec![inside.clone()]));
    assert!(!watched.wants_event(EventClass::Other, &vec![inside.clone()]));
    assert!(!watched.wants_event(EventClass::Other, &vec![inside.clone(), inside]));
}

#[test]
fn watching_starts_with_the_first_entry_for_a_path() {
    let mut list = WatchList::new();
    assert_eq!(list.len(), 0);
    assert!(!list.is_watching(&path("/a")));
    assert!(list.watch(path("/a"), false, WatchToken(1)));
    assert!(!list.watch(path("/a"), true, WatchToken(2)));
    assert!(list.watch(path("/a/b"), false, WatchToken(1)));
    assert_eq!(list.len(), 3);
    assert!(list.is_watching(&path("/a")));
    assert!(!list.is_watching(&path("/b")));
    let second = list.get(1).unwrap();
    assert_eq!(second.path, path("/a"));
    assert!(second.recursive);
    assert_eq!(second.token, WatchToken(2));
    assert!(list.get(3).is_none());
}

#[test]
fn every_entry_that_an_event_concerns_is_told() {
    let mut list = WatchList::new();
    list.watch(path("/a"), false, WatchToken(1));
    list.watch(path("/b"), false, WatchToken(2));
    list.watch(path("/a"), true, WatchToken(3));
    list.watch(path("/a/x"), false, WatchToken(1));
    assert_eq!(list.tell(EventClass::Change, &vec![path("/a/f")]), vec![0, 2]);
    assert_eq!(list.tell(EventClass::Change, &vec![path("/a/x/f")]), vec![2, 3]);
    assert_eq!(list.tell(EventClass::Change, &vec![path("/c")]), Vec::<usize>::new());
    assert_eq!(list.tell(EventClass::Rename, &vec![path("/b/f"), path("/a/x")]), vec![0, 1, 2, 3]);
    assert_eq!(list.tell(EventClass::Other, &vec![path("/a/f")]), Vec::<usize>::new());
}

#[test]
fn unwatching_stops_with_the_last_entry_for_a_path() {
    let mut list = WatchList::new();
    list.watch(path("/a"), false, WatchToken(1));
    list.watch(path("/a"), false, WatchToken(2));
    list.watch(path("/a"), false, WatchToken(1));

    let first = list.unwatch(&path("/a"), WatchToken(1)).unwrap();
    assert_eq!(first.index, 0);
    assert!(!first.stop);
    assert!(first.rewatch.is_empty());
    assert_eq!(list.len(), 2);
    assert_eq!(list.get(0).unwrap().token, WatchToken(2));

    assert!(list.unwatch(&path("/a"), WatchToken(7)).is_none());
    assert!(list.unwatch(&path("/b"), WatchToken(1)).is_none());
    assert_eq!(list.len(), 2);

    let second = list.unwatch(&path("/a"), WatchToken(1)).unwrap();
    assert_eq!(second.index, 1);
    assert!(!second.stop);
    let third = list.unwatch(&path("/a"), WatchToken(2)).unwrap();
    assert_eq!(third.index, 0);
    assert!(third.stop);
    assert_eq!(list.len(), 0);
}

#[test]
fn unwatching_a_recursive_entry_asks_to_watch_what_it_covered() {
    let mut list = WatchList::new();
    list.watch(path("/a/b"), false, WatchToken(1));
    list.watch(path("/a"), true, WatchToken(2));
    list.watch(path("/c"), false, WatchToken(3));
    list.watch(path("/a/b/c"), true, WatchToken(4));
    list.watch(path("/a"), false, WatchToken(5));

    let outcome = list.unwatch(&path("/a"), WatchToken(2)).unwrap();
    assert_eq!(outcome.index, 1);
    assert!(!outcome.stop);
    // by their places in the list as it is now
    assert_eq!(outcome.rewatch, vec![0, 2, 3]);

    // an entry that was not recursive covered nothing
    let outcome = list.unwatch(&path("/a"), WatchToken(5)).unwrap();
    assert_eq!(outcome.index, 3);
    assert!(outcome.stop);
    assert!(outcome.rewatch.is_empty());
}
