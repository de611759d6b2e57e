//! Path mapping from source tree to destination tree.

use strikeout::error::Error;
use strikeout::link::map_to_dest;

#[test]
fn map_1() {
    assert_eq!(map_to_dest("a/b/1.text", "a", "d").unwrap(), "d/b/b 1.text");
}

#[test]
fn map_2() {
    assert_eq!(map_to_dest("a/1.mkv", "a", "d").unwrap(), "d/a 1.mkv");
}

#[test]
fn map_3() {
    assert_eq!(map_to_dest("a/sss.mkv", "a", "d").unwrap(), "d/sss.mkv");
}

#[test]
fn map_preserves_depth() {
    // Every directory level between source root and file reappears under
    // the destination root.
    assert_eq!(map_to_dest("a/b/c/1.mkv", "a", "d").unwrap(), "d/b/c/c 1.mkv");
    let out = map_to_dest("root/x/y/z/7.mkv", "root", "dst").unwrap();
    let depth_in = "root/x/y/z/7.mkv".split('/').count();
    let depth_out = out.split('/').count();
    assert_eq!(depth_in, depth_out);
}

#[test]
fn map_outside_source_root() {
    assert_eq!(map_to_dest("x/1.mkv", "a", "d"), Err(Error::InvalidPath));
    assert_eq!(map_to_dest("a", "a", "d"), Err(Error::InvalidPath));
    assert_eq!(map_to_dest("ab/1.mkv", "a", "d"), Err(Error::InvalidPath));
}

#[test]
fn map_keeps_unparsable_names() {
    // No extractable digit token: the original filename is kept verbatim.
    assert_eq!(map_to_dest("a/b/opening.mkv", "a", "d").unwrap(), "d/b/opening.mkv");
}
