use dirlist::entry::{
    classify, determine_file_type, hidden_attribute_set, is_hidden, Category, Entry,
};

fn make(name: &str, is_directory: bool, is_readonly: bool, is_hidden: bool) -> Entry {
    Entry {
        path: format!("./{}", name),
        display_name: name.to_string(),
        is_directory,
        is_readonly,
        is_hidden,
    }
}

#[test]
fn directory_wins_over_permissions() {
    assert_eq!(classify(&make("d", true, true, false)), (Category::Directory, false));
    assert_eq!(classify(&make("d", true, false, false)), (Category::Directory, false));
}

#[test]
fn files_are_split_by_writability() {
    assert_eq!(classify(&make("f", false, true, false)), (Category::ReadOnlyFile, false));
    assert_eq!(classify(&make("f", false, false, false)), (Category::RegularFile, false));
}

#[test]
fn dot_names_are_hidden() {
    assert_eq!(classify(&make(".env", false, false, false)), (Category::RegularFile, true));
    assert_eq!(classify(&make(".git", true, false, false)), (Category::Directory, true));
    assert!(is_hidden(".", false));
    assert!(!is_hidden("a.b", false));
    assert!(!is_hidden("", false));
}

#[test]
fn hidden_attribute_hides_too() {
    assert_eq!(classify(&make("desktop.ini", false, false, true)), (Category::RegularFile, true));
    assert!(is_hidden("desktop.ini", true));
    assert!(is_hidden(".both", true));
}

#[test]
fn hidden_bit_of_attribute_word() {
    assert!(hidden_attribute_set(0x2));
    assert!(hidden_attribute_set(0x22));
    assert!(hidden_attribute_set(0xffff_ffff));
    assert!(!hidden_attribute_set(0));
    assert!(!hidden_attribute_set(0x1));
    assert!(!hidden_attribute_set(0x20));
}

#[test]
fn file_type_keys() {
    assert_eq!(determine_file_type(&make("d", true, true, false)), "dir");
    assert_eq!(determine_file_type(&make("f", false, true, false)), "readonly");
    assert_eq!(determine_file_type(&make("f", false, false, false)), "file");
}

#[test]
fn category_groups() {
    assert!(Category::Directory.is_directory());
    assert!(!Category::ReadOnlyFile.is_directory());
    assert!(!Category::RegularFile.is_directory());
}
