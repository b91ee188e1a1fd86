use nxcloud::listing::{contains_char, format_listing, replace_text};

fn entries(raw: &[&str]) -> Vec<String> {
    raw.iter().map(|s| s.to_string()).collect()
}

#[test]
fn replace_removes_every_occurrence() {
    assert_eq!(replace_text("/files/a/files/b", "/files/", ""), "ab");
    assert_eq!(replace_text("no match", "xyz", "-"), "no match");
    assert_eq!(replace_text("a%20b%20c", "%20", " "), "a b c");
    assert_eq!(replace_text("aaaa", "aa", "b"), "bb");
}

#[test]
fn contains_char_finds_spaces() {
    assert!(contains_char("a b", ' '));
    assert!(!contains_char("ab", ' '));
    assert!(!contains_char("", ' '));
}

#[test]
fn listing_strips_base_and_joins() {
    let raw = entries(&[
        "/files/user/",
        "/files/user/notes.txt",
        "/files/user/photos/",
    ]);
    assert_eq!(format_listing(&raw, false, false), "notes.txt  photos/");
    assert_eq!(format_listing(&raw, true, false), "notes.txt\nphotos/");
}

#[test]
fn listing_hides_dotfiles_unless_all() {
    let raw = entries(&["/files/u/", "/files/u/.hidden", "/files/u/seen.txt"]);
    assert_eq!(format_listing(&raw, false, false), "seen.txt");
    assert_eq!(format_listing(&raw, false, true), ".hidden  seen.txt");
}

#[test]
fn listing_quotes_names_with_spaces() {
    let raw = entries(&["/files/u/", "/files/u/two%20words.txt"]);
    assert_eq!(format_listing(&raw, false, false), "'two words.txt'");
}

#[test]
fn listing_of_bare_directory_is_empty() {
    let raw = entries(&["/files/u/"]);
    assert_eq!(format_listing(&raw, false, false), "");
    let raw: Vec<String> = Vec::new();
    assert_eq!(format_listing(&raw, true, true), "");
}
