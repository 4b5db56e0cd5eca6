use pinscrape::target::{effective_quota, folder_name, output_file_name, search_url, single_target_folder};

#[test]
fn search_url_encodes_query() {
    assert_eq!(
        search_url("Hatsune Miku", "fanart"),
        "https://www.pinterest.com/search/pins/?q=Hatsune%20Miku%20fanart"
    );
}

#[test]
fn search_url_with_empty_suffix() {
    assert_eq!(search_url("abc", ""), "https://www.pinterest.com/search/pins/?q=abc%20");
}

#[test]
fn record_quota_wins_over_run_quota() {
    assert_eq!(effective_quota(Some(3), Some(10)), Some(3));
    assert_eq!(effective_quota(None, Some(10)), Some(10));
    assert_eq!(effective_quota(None, None), None);
}

#[test]
fn folder_name_is_sanitized() {
    assert_eq!(folder_name("a/b:c", false), "abc");
    assert_eq!(single_target_folder(false), "pinterest_search");
}

#[test]
fn output_file_names_are_zero_padded() {
    assert_eq!(output_file_name("dir", 0), "dir/001.jpg");
    assert_eq!(output_file_name("dir", 9), "dir/010.jpg");
    assert_eq!(output_file_name("dir", 99), "dir/100.jpg");
    assert_eq!(output_file_name("dir", 1233), "dir/1234.jpg");
}

#[test]
fn folder_name_under_windows_rules() {
    assert_eq!(folder_name("con", true), "");
    assert_eq!(folder_name("con", false), "con");
    assert_eq!(folder_name("name.", true), "name");
}

#[test]
fn search_url_percent_encodes_symbols() {
    assert_eq!(search_url("a&b", "c/d"), "https://www.pinterest.com/search/pins/?q=a%26b%20c%2Fd");
}
