use roracache::dingus::{add_lookup, Dingus};
use roracache::attr::Metadata;
use roracache::file::{RoraFile, BUFFER_AHEAD};
use roracache::status::{highlight, status_row, write_decimal, Shade};

fn row(name: &str, size: u64, buffered: usize, width: u16) -> (Shade, String, String) {
    let mut file: RoraFile<u8> = RoraFile::new(format!("./{}", name).into_bytes(), 2, size, 0);
    file.maybe_accept_moar(0, &vec![0u8; buffered]);
    let row = status_row(&file, width);
    (row.shade, row.lit, row.plain)
}

fn parts(lit: &str, plain: &str) -> (String, String) {
    (lit.to_string(), plain.to_string())
}

#[test]
fn names_are_lit_in_proportion() {
    assert_eq!(row("abcd", 100, 50, 4), (Shade::Green, "ab".to_string(), "cd".to_string()));
    assert_eq!(row("abcd", 100, 49, 4), (Shade::Yellow, "a".to_string(), "bcd".to_string()));
    assert_eq!(row("abcd", 100, 25, 4), (Shade::Yellow, "a".to_string(), "bcd".to_string()));
    assert_eq!(row("abcd", 100, 24, 4), (Shade::Red, "".to_string(), "abcd".to_string()));
    assert_eq!(row("abcd", 100, 100, 4), (Shade::Green, "abcd".to_string(), "".to_string()));
    assert_eq!(row("abcd", 100, 100, 7), (Shade::Green, "abcd   ".to_string(), "".to_string()));
    assert_eq!(row("abcd", 0, 0, 6), (Shade::Green, "abcd  ".to_string(), "".to_string()));
}

#[test]
fn large_files_aim_for_the_read_ahead() {
    let size = 4 * BUFFER_AHEAD as u64;
    assert_eq!(row("abcd", size, 1000, 4), (Shade::Red, "".to_string(), "abcd".to_string()));
}

#[test]
fn wide_and_control_characters_take_two_cells() {
    assert_eq!(row("\u{4e00}x", 4, 2, 4), (Shade::Green, "\u{4e00}".to_string(), "x".to_string()));
    assert_eq!(row("\u{1}x", 4, 2, 4), (Shade::Green, "\u{1}".to_string(), "x".to_string()));
    assert_eq!(row("\u{4e00}x", 4, 1, 4), (Shade::Yellow, "\u{4e00}x".to_string(), "".to_string()));
}

#[test]
fn names_that_are_not_text_are_patched() {
    let file: RoraFile<u8> = RoraFile::new(b"./a\xff".to_vec(), 2, 0, 0);
    assert_eq!(status_row(&file, 2).lit, "a\u{fffd}");
}

#[test]
fn printable_names_are_cut_at_the_very_cell() {
    let name = " ~az09";
    for width in 0..9u16 {
        let expected = if (width as usize) < name.len() {
            let (lit, plain) = name.split_at(width as usize);
            (Shade::Green, lit.to_string(), plain.to_string())
        } else {
            (Shade::Green, format!("{:width$}", name, width = width as usize), String::new())
        };
        assert_eq!(row(name, 10, 10, width), expected);
    }
}

#[test]
fn control_characters_beyond_ascii_take_two_cells() {
    assert_eq!(row("\u{7f}x", 4, 2, 4), (Shade::Green, "\u{7f}".to_string(), "x".to_string()));
    assert_eq!(row("\u{9f}x", 4, 2, 4), (Shade::Green, "\u{9f}".to_string(), "x".to_string()));
    assert_eq!(row("\u{a0}x", 4, 2, 2), (Shade::Green, "\u{a0}".to_string(), "x".to_string()));
}

#[test]
fn highlighting() {
    assert_eq!(highlight("abc", &vec![1, 1, 1], 0), parts("", "abc"));
    assert_eq!(highlight("abc", &vec![1, 1, 1], 2), parts("ab", "c"));
    assert_eq!(highlight("abc", &vec![1, 1, 1], 3), parts("abc", ""));
    assert_eq!(highlight("abc", &vec![1, 1, 1], 5), parts("abc  ", ""));
    assert_eq!(highlight("abc", &vec![2, 2, 2], 3), parts("abc", ""));
    assert_eq!(highlight("abc", &vec![0, 0, 2], 0), parts("", "abc"));
    assert_eq!(highlight("", &vec![], 2), parts("  ", ""));
}

#[test]
fn decimals() {
    for n in [0u64, 7, 10, 99, 1234567890, u64::MAX] {
        assert_eq!(write_decimal(n), n.to_string());
    }
}

#[test]
fn the_whole_display() {
    let metadata = Metadata {
        size: 10,
        atime: 0,
        atime_nsec: 0,
        mtime: 0,
        mtime_nsec: 0,
        ctime: 0,
        ctime_nsec: 0,
        created: None,
        is_symlink: false,
        is_dir: false,
        is_file: true,
        mode: 0,
    };
    let mut dingus: Dingus<u8> = Dingus::new();
    add_lookup(&metadata, b"./one", &mut dingus, 0, 0, 0);
    add_lookup(&metadata, b"./two", &mut dingus, 0, 0, 0);
    assert_eq!(dingus.status(80).heading, "0 files open");
    for ino in [2u64, 3, 2] {
        match dingus.plan_open(ino) {
            Ok(plan) => dingus.finish_open(plan, 0),
            Err(errno) => panic!("{:?}", errno),
        };
    }
    assert_eq!(dingus.close(1), Ok(()));
    assert!(dingus.all_named());
    let status = dingus.status(80);
    assert_eq!(status.heading, "2 files open");
    let names: Vec<&str> = status.rows.iter().map(|row| row.plain.as_str()).collect();
    assert_eq!(names, vec!["one", "one"]);
    assert_eq!(dingus.close(0), Ok(()));
    assert_eq!(dingus.status(80).heading, "1 file open");
    let nameless: RoraFile<u8> = RoraFile::new(b".".to_vec(), 1, 0, 0);
    dingus.open_files.push(Some(nameless));
    assert!(!dingus.all_named());
}
