use partlookup::error::LookupError;
use partlookup::lookup::{jlcpcb_page, lcsc_page};
use partlookup::state::{MyApp, HISTORY_LIMIT};
use partlookup::table::PartTable;
use partlookup::text::replace_text;

fn table_with(items: &[(&str, &str)]) -> PartTable {
    let mut table = PartTable::new();
    for (k, v) in items {
        table.insert(k.to_string(), v.to_string());
    }
    table
}

fn strings(items: &[&str]) -> Vec<String> {
    items.iter().map(|s| s.to_string()).collect()
}

#[test]
fn fresh_state_has_the_default_settings() {
    let app = MyApp::default();
    assert_eq!(app.part, "C11702");
    assert_eq!(app.exe_path, "JLC2KiCadLib");
    assert_eq!(app.output_path, "~/kicad_libs/");
    assert_eq!(app.symbol_lib, "default_lib");
    assert_eq!(app.symbol_lib_dir, "symbol");
    assert_eq!(app.footprint_lib, "footprint");
    assert_eq!(app.model_dir, "packages3d");
    assert_eq!(app.model_base_variable, "");
    assert_eq!(app.datasheet_dir, "~/kicad_libs/datasheets");
    assert!(app.download_datasheet);
    assert!(!app.skip_existing);
    assert!(!app.no_footprint);
    assert!(!app.no_symbol);
    assert!(app.history.is_empty());
    assert!(!app.settings_open);
    assert!(!app.is_init);
    assert!(app.search_good);
    assert_eq!(app.current_part.len(), 0);
}

#[test]
fn stored_state_is_taken_as_it_is() {
    let mut stored = MyApp::default();
    stored.part = "C5".to_string();
    stored.skip_existing = true;
    stored.history.push_back("C7".to_string());
    let app = MyApp::new(Some(stored));
    assert_eq!(app.part, "C5");
    assert!(app.skip_existing);
    assert_eq!(app.history.len(), 1);
    let fresh = MyApp::new(None);
    assert_eq!(fresh.part, "C11702");
    assert!(fresh.history.is_empty());
}

#[test]
fn first_lookup_is_due_once() {
    let mut app = MyApp::default();
    assert!(app.needs_first_lookup());
    app.finish_first_lookup(Err(LookupError::Network));
    assert!(!app.needs_first_lookup());
    assert!(app.is_init);
    assert!(!app.search_good);
    assert_eq!(app.current_part.len(), 0);

    let mut app = MyApp::default();
    app.finish_first_lookup(Ok(table_with(&[("Component Code", "C11702")])));
    assert!(app.is_init);
    assert!(app.search_good);
    assert_eq!(app.current_part.len(), 1);
    assert!(app.history.is_empty());

    let mut app = MyApp::default();
    app.part = String::new();
    assert!(!app.needs_first_lookup());
    let mut app = MyApp::default();
    app.current_part = table_with(&[("a", "b")]);
    assert!(!app.needs_first_lookup());
}

#[test]
fn search_trims_what_was_entered() {
    let mut app = MyApp::default();
    app.part = "  C25804 \n".to_string();
    app.begin_search();
    assert_eq!(app.part, "C25804");
    assert!(app.search_good);
}

#[test]
fn good_search_goes_to_the_front_of_the_history() {
    let mut app = MyApp::default();
    for i in 0..12 {
        app.part = format!("C{}", i);
        app.finish_search(Ok(table_with(&[("Component Code", &format!("C{}", i))])));
        assert!(app.search_good);
        assert_eq!(app.history.len(), std::cmp::min(i + 1, HISTORY_LIMIT));
        assert_eq!(app.history[0], format!("C{}", i));
    }
    let kept: Vec<String> = app.history.iter().cloned().collect();
    assert_eq!(kept, strings(&["C11", "C10", "C9", "C8", "C7", "C6", "C5", "C4", "C3", "C2"]));
    assert_eq!(app.current_part.component_code(), Some(&"C11".to_string()));
}

#[test]
fn failed_search_keeps_part_and_history() {
    let mut app = MyApp::default();
    app.part = "C1".to_string();
    app.finish_search(Ok(table_with(&[("Component Code", "C1")])));
    app.part = "C2".to_string();
    app.finish_search(Err(LookupError::NotFound));
    assert!(!app.search_good);
    assert_eq!(app.part, "C2");
    assert_eq!(app.history.len(), 1);
    assert_eq!(app.current_part.component_code(), Some(&"C1".to_string()));
}

#[test]
fn library_arguments_follow_the_settings() {
    let mut app = MyApp::default();
    assert_eq!(app.library_args(), None);
    app.current_part = table_with(&[("Type", "Basic"), ("Component Code", "C11702")]);
    assert_eq!(
        app.library_args(),
        Some(strings(&[
            "C11702",
            "-dir",
            "~/kicad_libs/",
            "-symbol_lib",
            "default_lib",
            "-symbol_lib_dir",
            "symbol",
            "-footprint_lib",
            "footprint",
            "-model_dir",
            "packages3d",
        ]))
    );
    app.model_base_variable = "$KICAD_LIBS".to_string();
    app.skip_existing = true;
    app.no_symbol = true;
    assert_eq!(
        app.library_args(),
        Some(strings(&[
            "C11702",
            "-dir",
            "~/kicad_libs/",
            "-symbol_lib",
            "default_lib",
            "-symbol_lib_dir",
            "symbol",
            "-footprint_lib",
            "footprint",
            "-model_dir",
            "packages3d",
            "-model_base_variable",
            "$KICAD_LIBS",
            "--skip_existing",
            "--no_symbol",
        ]))
    );
    app.no_footprint = true;
    app.skip_existing = false;
    let args = app.library_args().unwrap();
    assert_eq!(args[13..], strings(&["--no_footprint", "--no_symbol"])[..]);
}

#[test]
fn footprint_arguments_name_the_part_twice() {
    let mut app = MyApp::default();
    assert_eq!(app.footprint_args("/tmp/x"), None);
    assert_eq!(app.footprint_pattern("/tmp/x"), None);
    app.current_part = table_with(&[("Component Code", "C25804")]);
    assert_eq!(
        app.footprint_args("/tmp/x"),
        Some(strings(&[
            "C25804",
            "--no_symbol",
            "-dir",
            "/tmp/x",
            "-footprint_lib",
            "C25804",
            "-model_dir",
            "packages3d",
        ]))
    );
    assert_eq!(app.footprint_pattern("/tmp/x"), Some("/tmp/x/C25804/*.kicad_mod".to_string()));
}

#[test]
fn datasheet_is_downloaded_from_the_file_store() {
    let mut app = MyApp::default();
    assert_eq!(app.datasheet_download_url(), None);
    app.current_part = table_with(&[(
        "meta_datasheeturl",
        "https://datasheet.lcsc.com/lcsc/2206010216_UNI-ROYAL-Uniroyal-Elec-0402WGF1001TCE_C11702.pdf",
    )]);
    assert_eq!(
        app.datasheet_download_url(),
        Some(
            "https://wmsc.lcsc.com/wmsc/upload/file/pdf/v2/lcsc/2206010216_UNI-ROYAL-Uniroyal-Elec-0402WGF1001TCE_C11702.pdf"
                .to_string()
        )
    );
    app.current_part = table_with(&[("meta_datasheeturl", "https://example.com/x.pdf")]);
    assert_eq!(app.datasheet_download_url(), Some("https://example.com/x.pdf".to_string()));
}

#[test]
fn replace_text_replaces_what_std_replaces() {
    let cases = [
        ("", "a", "b"),
        ("a", "a", "b"),
        ("aaa", "aa", "b"),
        ("aaaa", "aa", "b"),
        ("abcabc", "bc", ""),
        ("abcabc", "abcabcd", "x"),
        ("abcabc", "c", "cc"),
        ("xäöx", "ö", "oe"),
        ("ababab", "aba", "-"),
    ];
    for (s, from, to) in cases {
        assert_eq!(replace_text(s, from, to), s.replace(from, to), "{:?} {:?} {:?}", s, from, to);
    }
    assert_eq!(replace_text("abc", "", "-"), "abc");
    assert_eq!(replace_text("xaay", "a", "aa"), "xaaaay");
}

#[test]
fn part_pages_are_built_from_the_code() {
    assert_eq!(lcsc_page("C11702"), "https://www.lcsc.com/product-detail/C11702.html");
    assert_eq!(jlcpcb_page("C11702"), "https://jlcpcb.com/partdetail/C11702");
}
