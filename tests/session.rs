use migemo_everything::cache::{FileResult, PageRequest};
use migemo_everything::format::CalendarTime;
use migemo_everything::session::{
    cell_text, command_from, highlighted_cell, hiword, loword, status_text, window_title,
    AppState, Command, EDIT_ID, IDA_EXIT, IDA_MIGEMO, IDA_REGEX, IDM_CONTEXT_COPY_PATH,
    IDM_CONTEXT_OPEN, IDM_CONTEXT_OPEN_FOLDER, IDM_FILE_EXIT, IDM_SEARCH_MIGEMO,
    IDM_SEARCH_REGEX, MI_BUTTON_ID, PAGE_SIZE, RE_BUTTON_ID, SHELL_CONTEXT_TOGGLE_ID,
};

fn sample() -> FileResult {
    FileResult {
        name: "report.pdf".to_string(),
        path: "C:\\docs".to_string(),
        size: 2048,
        modified_date: 133_539_000_000_000_000,
        highlighted_name: "*rep*ort.pdf".to_string(),
        highlighted_path: String::new(),
        is_folder: false,
    }
}

#[test]
fn commands_from_controls() {
    assert_eq!(command_from(IDA_EXIT, false), Some(Command::Exit));
    assert_eq!(command_from(IDM_FILE_EXIT, false), Some(Command::Exit));
    for id in [IDA_REGEX, IDM_SEARCH_REGEX, RE_BUTTON_ID] {
        assert_eq!(command_from(id, false), Some(Command::ToggleRegex));
    }
    for id in [IDA_MIGEMO, IDM_SEARCH_MIGEMO, MI_BUTTON_ID] {
        assert_eq!(command_from(id, false), Some(Command::ToggleMigemo));
    }
    assert_eq!(command_from(SHELL_CONTEXT_TOGGLE_ID, false), Some(Command::ShellContextToggled));
    assert_eq!(command_from(EDIT_ID, true), Some(Command::QueryEdited));
    assert_eq!(command_from(EDIT_ID, false), None);
    assert_eq!(command_from(IDM_CONTEXT_OPEN, false), Some(Command::Open));
    assert_eq!(command_from(IDM_CONTEXT_OPEN_FOLDER, false), Some(Command::OpenFolder));
    assert_eq!(command_from(IDM_CONTEXT_COPY_PATH, false), Some(Command::CopyPath));
    assert_eq!(command_from(42, false), None);
}

#[test]
fn words_of_a_parameter() {
    assert_eq!(hiword(0x1234_5678), 0x1234);
    assert_eq!(loword(0x1234_5678), 0x5678);
    assert_eq!(hiword(0xFFFF), 0);
}

#[test]
fn toggles_exclude_each_other() {
    let mut s = AppState::new();
    assert!(s.migemo_enabled && !s.regex_enabled);
    s.toggle_regex();
    assert!(s.regex_enabled && !s.migemo_enabled);
    s.toggle_migemo();
    assert!(s.migemo_enabled && !s.regex_enabled);
    s.toggle_migemo();
    assert!(!s.migemo_enabled && !s.regex_enabled);
    assert!(!s.regex_mode());
}

#[test]
fn search_uses_expansion_when_migemo_is_on() {
    let mut s = AppState::new();
    let req = s.begin_search("kensaku".to_string(), Some("(kensaku|検索)".to_string()));
    assert_eq!(req, Some(PageRequest { offset: 0, max: PAGE_SIZE }));
    assert_eq!(s.results.current_search_term(), "(kensaku|検索)");
    s.toggle_regex();
    s.begin_search("kensaku".to_string(), Some("(kensaku|検索)".to_string()));
    assert_eq!(s.results.current_search_term(), "kensaku");
}

#[test]
fn search_without_expansion_uses_term() {
    let mut s = AppState::new();
    s.begin_search("abc".to_string(), None);
    assert_eq!(s.results.current_search_term(), "abc");
}

#[test]
fn empty_search_clears() {
    let mut s = AppState::new();
    s.begin_search("abc".to_string(), None);
    s.finish_search(&"abc".to_string(), 3, vec![sample(), sample(), sample()]);
    assert_eq!(s.total_results, 3);
    assert!(s.display_record(2).is_some());
    assert_eq!(s.begin_search(String::new(), None), None);
    assert_eq!(s.total_results, 0);
    assert_eq!(s.results.resident_len(), 0);
    assert_eq!(s.results.current_search_term(), "");
}

#[test]
fn rows_past_total_are_not_displayed() {
    let mut s = AppState::new();
    s.begin_search("abc".to_string(), None);
    s.finish_search(&"abc".to_string(), 250, vec![sample(); 100]);
    assert_eq!(s.display_request(250), None);
    assert!(s.display_record(250).is_none());
    assert_eq!(s.display_request(99), None);
    assert_eq!(s.display_request(150), Some(PageRequest { offset: 100, max: PAGE_SIZE }));
}

#[test]
fn cell_texts() {
    let r = sample();
    let t = CalendarTime { year: 2024, month: 3, day: 5, hour: 7, minute: 9 };
    assert_eq!(cell_text(&r, 0, None), "report.pdf");
    assert_eq!(cell_text(&r, 1, None), "C:\\docs");
    assert_eq!(cell_text(&r, 2, None), "2 KB");
    assert_eq!(cell_text(&r, 3, Some(t)), "2024-03-05 07:09");
    assert_eq!(cell_text(&r, 4, Some(t)), "");
}

#[test]
fn folder_cells() {
    let mut r = sample();
    r.is_folder = true;
    r.size = 4096;
    r.highlighted_name = String::new();
    assert_eq!(cell_text(&r, 0, None), "report.pdf");
    assert_eq!(cell_text(&r, 2, None), "");
}

#[test]
fn highlighted_cells() {
    let r = sample();
    let (text, ranges) = highlighted_cell(&r, 0).unwrap();
    assert_eq!(text, "report.pdf");
    assert_eq!(ranges, vec![(0, 3)]);
    assert!(highlighted_cell(&r, 1).is_none());
    assert!(highlighted_cell(&r, 2).is_none());
    let mut r = sample();
    r.highlighted_name = "report.pdf".to_string();
    assert!(highlighted_cell(&r, 0).is_none());
}

#[test]
fn titles_and_status() {
    assert_eq!(window_title(""), "Migemo Everything");
    assert_eq!(window_title("abc"), "abc - Migemo Everything");
    assert_eq!(status_text(0), "0 items found");
    assert_eq!(status_text(12345), "12345 items found");
}

#[test]
fn outdated_search_answer_is_dropped() {
    let mut s = AppState::new();
    s.begin_search("abc".to_string(), None);
    s.begin_search("abd".to_string(), None);
    s.finish_search(&"abc".to_string(), 7, vec![sample()]);
    assert_eq!(s.total_results, 0);
    assert_eq!(s.results.resident_len(), 0);
    s.finish_search(&"abd".to_string(), 1, vec![sample()]);
    assert_eq!(s.total_results, 1);
    assert_eq!(s.results.resident_len(), 1);
}

#[test]
fn search_asks_for_one_page() {
    let mut s = AppState::new();
    let req = s.begin_search("abc".to_string(), None).unwrap();
    assert_eq!(req.max, s.results.page_size());
    assert_eq!(req.offset, 0);
}
