use roracache::path::{canonicalize, file_name, has_root, is_dots, join};
use roracache::path_map::PathMap;

fn text(bytes: Vec<u8>) -> String {
    String::from_utf8(bytes).unwrap()
}

#[test]
fn join_puts_one_slash_between() {
    assert_eq!(text(join(b".", b"a")), "./a");
    assert_eq!(text(join(b"a/", b"b")), "a/b");
    assert_eq!(text(join(b"", b"b")), "b");
    assert_eq!(text(join(b"/mnt/box", b"./x")), "/mnt/box/./x");
}

#[test]
fn join_gives_way_to_a_rooted_name() {
    assert_eq!(text(join(b"a/b", b"/c")), "/c");
}

#[test]
fn join_agrees_with_std() {
    let parts: [&str; 8] = ["", ".", "a", "a/", "/", "/a", "a//b", ".."];
    for base in parts {
        for name in parts {
            let expected = std::path::Path::new(base).join(name);
            assert_eq!(text(join(base.as_bytes(), name.as_bytes())), expected.to_str().unwrap());
        }
    }
}

#[test]
fn canonical_spellings() {
    assert_eq!(text(canonicalize(b"./a//b/./c/")), "./a/b/c");
    assert_eq!(text(canonicalize(b"//a/.")), "/a");
    assert_eq!(text(canonicalize(b"a/../b")), "a/../b");
    assert_eq!(text(canonicalize(b".")), ".");
    assert_eq!(text(canonicalize(b"")), "");
    assert_eq!(text(canonicalize(b"/")), "/");
}

#[test]
fn canonical_spellings_compare_like_std_paths() {
    let paths: [&str; 14] = [
        "", ".", "./", "a", "./a", "a/.", "a//", "/a", "//a", "/./a", "a/b", "a/./b", "a/../b", "..",
    ];
    for a in paths {
        for b in paths {
            let same = std::path::Path::new(a) == std::path::Path::new(b);
            assert_eq!(canonicalize(a.as_bytes()) == canonicalize(b.as_bytes()), same, "{} {}", a, b);
        }
    }
}

#[test]
fn file_names_like_std() {
    let paths: [&str; 9] = ["", ".", "./a", "a/b", "a/b/", "a/..", "/", "a/.", "./x.mkv"];
    for path in paths {
        let expected = std::path::Path::new(path).file_name().map(|name| name.to_str().unwrap());
        assert_eq!(file_name(path.as_bytes()).map(text).as_deref(), expected, "{}", path);
    }
}

#[test]
fn roots_and_dots() {
    assert!(has_root(b"/x"));
    assert!(!has_root(b"x/"));
    assert!(!has_root(b""));
    assert!(is_dots(b".") && is_dots(b".."));
    assert!(!is_dots(b"...") && !is_dots(b"") && !is_dots(b".a"));
}

#[test]
fn path_map_finds_equal_paths() {
    let mut map: PathMap<u32> = PathMap::new();
    assert!(map.get(b"./a").is_none());
    map.insert(b"./a", 1);
    map.insert(b"a", 2);
    assert_eq!(map.get(b".//a/").copied(), Some(1));
    assert_eq!(map.get(b"a").copied(), Some(2));
    map.insert(b"./a/.", 3);
    assert_eq!(map.get(b"./a").copied(), Some(3));
    assert_eq!(map.get(b"./b").copied(), None);
}

#[test]
fn path_map_holds_many() {
    let mut map: PathMap<usize> = PathMap::new();
    for i in 0..2000usize {
        map.insert(format!("./dir/{}", i).as_bytes(), i);
    }
    for i in 0..2000usize {
        assert_eq!(map.get(format!("./dir//{}", i).as_bytes()).copied(), Some(i));
    }
}
