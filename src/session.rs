//! The search session: option toggles, the decisions of a search and of each
//! displayed cell, and the mapping of control identifiers to commands.
use crate::cache::{after_set_query, CacheView, FileResult, PageRequest, PagedResultCache};
use crate::format::{
    date_text, decimal, decimal_digits, format_date, format_size, push_all, size_text,
    CalendarTime,
};
use crate::highlight::{parse, parse_highlight_text, ranges_view};
use vstd::prelude::*;

verus! {

/// Control identifier of the query text box.
pub const EDIT_ID: u16 = 1000;
/// Control identifier of the regular-expression button.
pub const RE_BUTTON_ID: u16 = 1001;
/// Control identifier of the Migemo button.
pub const MI_BUTTON_ID: u16 = 1002;
/// Control identifier of the shell context menu check box.
pub const SHELL_CONTEXT_TOGGLE_ID: u16 = 1003;
/// Menu item: quit.
pub const IDM_FILE_EXIT: u16 = 2001;
/// Menu item: toggle regular-expression search.
pub const IDM_SEARCH_REGEX: u16 = 3001;
/// Menu item: toggle Migemo search.
pub const IDM_SEARCH_MIGEMO: u16 = 3002;
/// Context menu item: open the file.
pub const IDM_CONTEXT_OPEN: u16 = 4001;
/// Context menu item: open the containing folder.
pub const IDM_CONTEXT_OPEN_FOLDER: u16 = 4002;
/// Context menu item: copy the full path.
pub const IDM_CONTEXT_COPY_PATH: u16 = 4003;
/// Accelerator: quit.
pub const IDA_EXIT: u16 = 5001;
/// Accelerator: toggle regular-expression search.
pub const IDA_REGEX: u16 = 5002;
/// Accelerator: toggle Migemo search.
pub const IDA_MIGEMO: u16 = 5003;

/// Number of results fetched at a time.
pub const PAGE_SIZE: usize = 100;

/// What a command message asks for.
#[derive(Clone, Copy, Debug, PartialEq, Eq, Structural)]
pub enum Command {
    Exit,
    ToggleRegex,
    ToggleMigemo,
    ShellContextToggled,
    QueryEdited,
    Open,
    OpenFolder,
    CopyPath,
}

/// The command for a message from `control_id`; `text_changed` tells whether
/// the message reports an edit of a text box's contents.
pub open spec fn command_spec(control_id: u16, text_changed: bool) -> Option<Command> {
    if control_id == IDA_EXIT || control_id == IDM_FILE_EXIT {
        Some(Command::Exit)
    } else if control_id == IDA_REGEX || control_id == IDM_SEARCH_REGEX || control_id
        == RE_BUTTON_ID {
        Some(Command::ToggleRegex)
    } else if control_id == IDA_MIGEMO || control_id == IDM_SEARCH_MIGEMO || control_id
        == MI_BUTTON_ID {
        Some(Command::ToggleMigemo)
    } else if control_id == SHELL_CONTEXT_TOGGLE_ID {
        Some(Command::ShellContextToggled)
    } else if control_id == EDIT_ID && text_changed {
        Some(Command::QueryEdited)
    } else if control_id == IDM_CONTEXT_OPEN {
        Some(Command::Open)
    } else if control_id == IDM_CONTEXT_OPEN_FOLDER {
        Some(Command::OpenFolder)
    } else if control_id == IDM_CONTEXT_COPY_PATH {
        Some(Command::CopyPath)
    } else {
        None
    }
}

/// The command for a message from `control_id`, if it is one.
pub fn command_from(control_id: u16, text_changed: bool) -> (r: Option<Command>)
    ensures
        r == command_spec(control_id, text_changed),
{
    if control_id == IDA_EXIT || control_id == IDM_FILE_EXIT {
        Some(Command::Exit)
    } else if control_id == IDA_REGEX || control_id == IDM_SEARCH_REGEX || control_id
        == RE_BUTTON_ID {
        Some(Command::ToggleRegex)
    } else if control_id == IDA_MIGEMO || control_id == IDM_SEARCH_MIGEMO || control_id
        == MI_BUTTON_ID {
        Some(Command::ToggleMigemo)
    } else if control_id == SHELL_CONTEXT_TOGGLE_ID {
        Some(Command::ShellContextToggled)
    } else if control_id == EDIT_ID && text_changed {
        Some(Command::QueryEdited)
    } else if control_id == IDM_CONTEXT_OPEN {
        Some(Command::Open)
    } else if control_id == IDM_CONTEXT_OPEN_FOLDER {
        Some(Command::OpenFolder)
    } else if control_id == IDM_CONTEXT_COPY_PATH {
        Some(Command::CopyPath)
    } else {
        None
    }
}

/// The high 16 bits of `val`.
pub fn hiword(val: u32) -> (r: u16)
    ensures
        r as int == val as int / 65536,
{
    (val / 65536) as u16
}

/// The low 16 bits of `val`.
pub fn loword(val: u32) -> (r: u16)
    ensures
        r as int == val as int % 65536,
{
    (val % 65536) as u16
}

/// The term that is searched for: the Migemo expansion when Migemo is on and
/// an expansion was had, else the typed term.
pub open spec fn final_term(
    migemo_enabled: bool,
    search_term: Seq<char>,
    expanded: Option<Seq<char>>,
) -> Seq<char> {
    if migemo_enabled && expanded is Some {
        expanded->0
    } else {
        search_term
    }
}

/// An optional string as an optional character sequence.
pub open spec fn option_view(o: Option<String>) -> Option<Seq<char>> {
    match o {
        Some(s) => Some(s@),
        None => None,
    }
}

/// The text shown in cell `column` of a row: the name or the path with the
/// highlight markers removed (the plain field when no highlighted form is
/// known), the size (empty for a folder), or the date of `time`.
pub open spec fn cell_spec(record: FileResult, column: int, time: Option<CalendarTime>) -> Seq<
    char,
> {
    if column == 0 {
        if record.highlighted_name@.len() > 0 {
            parse(record.highlighted_name@).plain
        } else {
            record.name@
        }
    } else if column == 1 {
        if record.highlighted_path@.len() > 0 {
            parse(record.highlighted_path@).plain
        } else {
            record.path@
        }
    } else if column == 2 {
        if record.is_folder {
            Seq::empty()
        } else {
            size_text(record.size as nat)
        }
    } else if column == 3 {
        if record.modified_date == 0 {
            Seq::empty()
        } else {
            match time {
                Some(t) => date_text(t),
                None => Seq::empty(),
            }
        }
    } else {
        Seq::empty()
    }
}

/// The text of cell `column` of `record`; `time` is the calendar time of the
/// record's modification time, where one could be had.
pub fn cell_text(record: &FileResult, column: usize, time: Option<CalendarTime>) -> (r: String)
    ensures
        r@ == cell_spec(*record, column as int, time),
{
    if column == 0 {
        if !record.highlighted_name.as_str().is_empty() {
            parse_highlight_text(record.highlighted_name.as_str()).0
        } else {
            record.name.clone()
        }
    } else if column == 1 {
        if !record.highlighted_path.as_str().is_empty() {
            parse_highlight_text(record.highlighted_path.as_str()).0
        } else {
            record.path.clone()
        }
    } else if column == 2 {
        if record.is_folder {
            String::new()
        } else {
            format_size(record.size)
        }
    } else if column == 3 {
        format_date(record.modified_date, time)
    } else {
        String::new()
    }
}

/// The highlighted form of cell `column`, if it has one with at least one range.
pub open spec fn highlighted_source(record: FileResult, column: int) -> Option<Seq<char>> {
    if column == 0 && record.highlighted_name@.len() > 0 {
        Some(record.highlighted_name@)
    } else if column == 1 && record.highlighted_path@.len() > 0 {
        Some(record.highlighted_path@)
    } else {
        None
    }
}

/// The plain text and highlight ranges to draw in cell `column` of `record`, or
/// `None` when the cell is drawn the ordinary way: it is neither the name nor
/// the path, it has no highlighted form, or that form has no range.
pub fn highlighted_cell(record: &FileResult, column: usize) -> (r: Option<
    (String, Vec<(usize, usize)>),
>)
    ensures
        match highlighted_source(*record, column as int) {
            None => r is None,
            Some(src) => if parse(src).ranges.len() == 0 {
                r is None
            } else {
                r matches Some(p) && p.0@ == parse(src).plain && ranges_view(p.1@) == parse(
                    src,
                ).ranges
            },
        },
{
    let parsed = if column == 0 && !record.highlighted_name.as_str().is_empty() {
        parse_highlight_text(record.highlighted_name.as_str())
    } else if column == 1 && !record.highlighted_path.as_str().is_empty() {
        parse_highlight_text(record.highlighted_path.as_str())
    } else {
        return None;
    };
    if parsed.1.len() == 0 {
        return None;
    }
    Some(parsed)
}

/// The window title for `search_term`.
pub fn window_title(search_term: &str) -> (r: String)
    ensures
        search_term@.len() == 0 ==> r@ == "Migemo Everything"@,
        search_term@.len() > 0 ==> r@ == search_term@ + " - Migemo Everything"@,
{
    if search_term.is_empty() {
        String::from_str("Migemo Everything")
    } else {
        let mut r = String::from_str(search_term);
        r.append(" - Migemo Everything");
        r
    }
}

/// The status line after a search that matched `total` items.
pub fn status_text(total: u32) -> (r: String)
    ensures
        r@ == decimal(total as nat) + " items found"@,
{
    let mut r = String::new();
    push_all(&mut r, &decimal_digits(total as u64));
    r.append(" items found");
    r
}

/// The state of a search session.
pub struct AppState {
    pub regex_enabled: bool,
    pub migemo_enabled: bool,
    pub shell_context_enabled: bool,
    /// Match count reported by the last full search.
    pub total_results: u32,
    /// The resident page of results and the active term.
    pub results: PagedResultCache,
}

impl AppState {
    /// The session's invariant: that of its cache.
    pub open spec fn wf(&self) -> bool {
        self.results.wf()
    }

    /// A session with Migemo search on, nothing searched yet, and pages of
    /// `PAGE_SIZE` results.
    pub fn new() -> (r: AppState)
        ensures
            r.wf(),
            !r.regex_enabled,
            r.migemo_enabled,
            !r.shell_context_enabled,
            r.total_results == 0,
            r.results@ == (CacheView {
                page_size: PAGE_SIZE as int,
                offset: 0,
                records: Seq::empty(),
                term: Seq::empty(),
            }),
    {
        AppState {
            regex_enabled: false,
            migemo_enabled: true,
            shell_context_enabled: false,
            total_results: 0,
            results: PagedResultCache::new(PAGE_SIZE),
        }
    }

    /// Turns regular-expression search on or off; turning it on turns Migemo off.
    pub fn toggle_regex(&mut self)
        ensures
            final(self).regex_enabled == !old(self).regex_enabled,
            final(self).migemo_enabled == (old(self).migemo_enabled && old(self).regex_enabled),
            final(self).shell_context_enabled == old(self).shell_context_enabled,
            final(self).total_results == old(self).total_results,
            final(self).results == old(self).results,
    {
        self.regex_enabled = !self.regex_enabled;
        if self.regex_enabled {
            self.migemo_enabled = false;
        }
    }

    /// Turns Migemo search on or off; turning it on turns regular expressions off.
    pub fn toggle_migemo(&mut self)
        ensures
            final(self).migemo_enabled == !old(self).migemo_enabled,
            final(self).regex_enabled == (old(self).regex_enabled && old(self).migemo_enabled),
            final(self).shell_context_enabled == old(self).shell_context_enabled,
            final(self).total_results == old(self).total_results,
            final(self).results == old(self).results,
    {
        self.migemo_enabled = !self.migemo_enabled;
        if self.migemo_enabled {
            self.regex_enabled = false;
        }
    }

    /// Whether the provider reads the term as a regular expression (a Migemo
    /// expansion is one).
    pub fn regex_mode(&self) -> (r: bool)
        ensures
            r == (self.regex_enabled || self.migemo_enabled),
    {
        self.regex_enabled || self.migemo_enabled
    }

    /// Starts a search for the typed `search_term`; `expanded` is its Migemo
    /// expansion, where one was had.
    ///
    /// An empty term clears the results and asks for nothing. Any other term
    /// becomes the active term (dropping the resident page if it changed), and
    /// the first page is asked for.
    pub fn begin_search(&mut self, search_term: String, expanded: Option<String>) -> (r: Option<
        PageRequest,
    >)
        requires
            old(self).wf(),
        ensures
            final(self).wf(),
            final(self).regex_enabled == old(self).regex_enabled,
            final(self).migemo_enabled == old(self).migemo_enabled,
            final(self).shell_context_enabled == old(self).shell_context_enabled,
            search_term@.len() == 0 ==> {
                &&& r is None
                &&& final(self).total_results == 0
                &&& final(self).results@ == (CacheView {
                    records: Seq::empty(),
                    term: Seq::empty(),
                    offset: 0,
                    ..old(self).results@
                })
            },
            search_term@.len() > 0 ==> {
                &&& r == Some(
                    PageRequest { offset: 0, max: old(self).results@.page_size as usize },
                )
                &&& final(self).total_results == old(self).total_results
                &&& final(self).results@ == after_set_query(
                    old(self).results@,
                    final_term(old(self).migemo_enabled, search_term@, option_view(expanded)),
                )
            },
    {
        if search_term.as_str().is_empty() {
            self.results.clear();
            self.total_results = 0;
            return None;
        }
        let term = if self.migemo_enabled {
            match expanded {
                Some(e) => e,
                None => search_term,
            }
        } else {
            search_term
        };
        self.results.set_query(term);
        Some(PageRequest { offset: 0, max: self.results.page_size() })
    }

    /// Completes a search for `term`: the provider matched `total` items and
    /// returned `records` from the first one on. The answer is taken only while
    /// `term` is still the active term; an answer to an outdated search changes
    /// nothing.
    pub fn finish_search(&mut self, term: &String, total: u32, records: Vec<FileResult>)
        requires
            old(self).wf(),
        ensures
            final(self).wf(),
            term@ == old(self).results@.term ==> {
                &&& final(self).total_results == total
                &&& final(self).results@ == (CacheView {
                    offset: 0,
                    records: crate::cache::page_of(records@, old(self).results@.page_size),
                    ..old(self).results@
                })
            },
            term@ != old(self).results@.term ==> {
                &&& final(self).total_results == old(self).total_results
                &&& final(self).results@ == old(self).results@
            },
            final(self).regex_enabled == old(self).regex_enabled,
            final(self).migemo_enabled == old(self).migemo_enabled,
            final(self).shell_context_enabled == old(self).shell_context_enabled,
    {
        if *term != *self.results.current_search_term() {
            return;
        }
        self.total_results = total;
        proof {
            assert(0int % self.results@.page_size == 0);
        }
        self.results.store_page(0, records);
    }

    /// The page to fetch before row `item_index` can be displayed: none for a
    /// row past the match count.
    pub fn display_request(&self, item_index: usize) -> (r: Option<PageRequest>)
        requires
            self.wf(),
        ensures
            item_index >= self.total_results ==> r is None,
            item_index < self.total_results ==> r == crate::cache::request_for(
                self.results@,
                item_index as int,
            ),
    {
        if item_index >= self.total_results as usize {
            return None;
        }
        self.results.ensure_data_available(item_index)
    }

    /// The record to display in row `item_index`: none for a row past the match
    /// count or not resident.
    pub fn display_record(&self, item_index: usize) -> (r: Option<&FileResult>)
        requires
            self.wf(),
        ensures
            item_index >= self.total_results ==> r is None,
            item_index < self.total_results ==> (r is None <==> crate::cache::record_at(
                self.results@,
                item_index as int,
            ) is None),
            r matches Some(f) ==> crate::cache::record_at(self.results@, item_index as int) == Some(
                *f,
            ),
    {
        if item_index >= self.total_results as usize {
            return None;
        }
        self.results.record(item_index)
    }
}

} // verus!
