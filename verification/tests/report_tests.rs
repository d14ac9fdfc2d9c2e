use file_watcher::event::{FileEvent, FileStatus};
use file_watcher::report::format_event;

#[test]
fn erased_line_is_red() {
    let event = FileEvent { status: FileStatus::Erased, path: String::from("a.txt") };
    assert_eq!(format_event(&event), "Erased: \u{1b}[31ma.txt\u{1b}[0m");
}

#[test]
fn created_line_is_green() {
    let event = FileEvent { status: FileStatus::Created, path: String::from("a.txt") };
    assert_eq!(format_event(&event), "Created: \u{1b}[32ma.txt\u{1b}[0m");
}

#[test]
fn modified_line_is_yellow() {
    let event = FileEvent { status: FileStatus::Modified, path: String::from("dir/a.txt") };
    assert_eq!(format_event(&event), "Modified: \u{1b}[33mdir/a.txt\u{1b}[0m");
}

#[test]
fn empty_path_keeps_the_codes() {
    let event = FileEvent { status: FileStatus::Created, path: String::new() };
    assert_eq!(format_event(&event), "Created: \u{1b}[32m\u{1b}[0m");
}
