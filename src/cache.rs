//! A cache that holds one page of search results.
//!
//! Rows are asked for by absolute index; pages are fixed-size, zero-based
//! windows of the result list. When a row outside the resident page is asked
//! for, the cache names the page that must be fetched; the caller fetches it
//! and hands it back with `load_page`.
use vstd::arithmetic::div_mod::{
    lemma_div_pos_is_pos, lemma_fundamental_div_mod, lemma_fundamental_div_mod_converse,
    lemma_mod_multiples_basic, lemma_mod_pos_bound,
};
use vstd::prelude::*;

verus! {

/// One matched file or folder.
#[derive(Clone, Debug)]
pub struct FileResult {
    pub name: String,
    /// Parent directory, without the name.
    pub path: String,
    pub size: u64,
    /// 100-nanosecond ticks since 1601-01-01.
    pub modified_date: u64,
    /// `name` with highlighted runs enclosed in markers; empty when unknown.
    pub highlighted_name: String,
    /// `path` with highlighted runs enclosed in markers; empty when unknown.
    pub highlighted_path: String,
    pub is_folder: bool,
}

/// A page that must be fetched: `max` results from absolute index `offset`.
#[derive(Clone, Copy, Debug, PartialEq, Eq, Structural)]
pub struct PageRequest {
    pub offset: usize,
    pub max: usize,
}

/// The cache's state as mathematical values.
pub struct CacheView {
    pub page_size: int,
    /// Absolute index of the first resident record.
    pub offset: int,
    pub records: Seq<FileResult>,
    /// The query term that the resident records answer.
    pub term: Seq<char>,
}

impl CacheView {
    /// A positive page size, a page-aligned offset, and at most one page of
    /// records.
    pub open spec fn wf(self) -> bool {
        &&& 0 < self.page_size <= usize::MAX
        &&& 0 <= self.offset <= usize::MAX
        &&& self.offset % self.page_size == 0
        &&& self.records.len() <= self.page_size
    }
}

/// Start of the page that holds index `i`.
pub open spec fn page_start(page_size: int, i: int) -> int {
    (i / page_size) * page_size
}

/// The first `page_size` records of `records`.
pub open spec fn page_of(records: Seq<FileResult>, page_size: int) -> Seq<FileResult> {
    if records.len() <= page_size {
        records
    } else {
        records.take(page_size)
    }
}

/// The page that must be fetched before index `i` can be served, if any.
///
/// Nothing is fetched while no term is active; otherwise index `i` is served
/// from memory exactly when its page is resident and holds it.
pub open spec fn request_for(v: CacheView, i: int) -> Option<PageRequest> {
    if v.term.len() == 0 {
        None
    } else if page_start(v.page_size, i) == v.offset && i - v.offset < v.records.len() {
        None
    } else {
        Some(PageRequest { offset: page_start(v.page_size, i) as usize, max: v.page_size as usize })
    }
}

/// The state after the page at `offset`, fetched for `term`, came back as
/// `records`. A page fetched for any term but the active one is dropped.
pub open spec fn after_load(
    v: CacheView,
    term: Seq<char>,
    offset: int,
    records: Seq<FileResult>,
) -> CacheView {
    if v.term.len() == 0 || term != v.term {
        v
    } else {
        CacheView { offset, records: page_of(records, v.page_size), ..v }
    }
}

/// The state after index `i` was ensured, the provider answering any fetch with
/// `records`.
pub open spec fn after_ensure(v: CacheView, i: int, records: Seq<FileResult>) -> CacheView {
    match request_for(v, i) {
        None => v,
        Some(req) => after_load(v, v.term, req.offset as int, records),
    }
}

/// The state after the active term was set to `term`.
pub open spec fn after_set_query(v: CacheView, term: Seq<char>) -> CacheView {
    if term == v.term {
        v
    } else {
        CacheView { term, records: Seq::empty(), offset: 0, ..v }
    }
}

/// The resident record at absolute index `i`, if there is one.
pub open spec fn record_at(v: CacheView, i: int) -> Option<FileResult> {
    if v.offset <= i < v.offset + v.records.len() {
        Some(v.records[i - v.offset])
    } else {
        None
    }
}

/// Idempotence: once ensuring index `i` has left its record resident, ensuring
/// `i` again asks for no page, changes nothing and serves the same record; so
/// the two calls together fetch at most one page. Without an active term
/// neither call fetches anything.
pub proof fn lemma_ensure_idempotent(
    v: CacheView,
    i: int,
    first: Seq<FileResult>,
    second: Seq<FileResult>,
)
    requires
        v.wf(),
        0 <= i <= usize::MAX,
    ensures
        record_at(after_ensure(v, i, first), i) is Some || v.term.len() == 0 ==> {
            &&& request_for(after_ensure(v, i, first), i) is None
            &&& after_ensure(after_ensure(v, i, first), i, second) == after_ensure(v, i, first)
            &&& record_at(after_ensure(after_ensure(v, i, first), i, second), i) == record_at(
                after_ensure(v, i, first),
                i,
            )
        },
{
    lemma_page_start(v.page_size, i);
}

/// Reload: with a term active and the first record not resident, ensuring
/// index 0, then index `page_size`, then index 0 again fetches a page each
/// time, since only one page is ever kept; the resident page then starts at 0,
/// at `page_size`, and at 0 again, and holds (the first page of) each answer.
pub proof fn lemma_reload_sequence(
    v: CacheView,
    first: Seq<FileResult>,
    second: Seq<FileResult>,
    third: Seq<FileResult>,
)
    requires
        v.wf(),
        v.term.len() > 0,
        record_at(v, 0) is None,
    ensures
        request_for(v, 0) == Some(PageRequest { offset: 0, max: v.page_size as usize }),
        after_ensure(v, 0, first).offset == 0,
        request_for(after_ensure(v, 0, first), v.page_size) == Some(
            PageRequest { offset: v.page_size as usize, max: v.page_size as usize },
        ),
        after_ensure(after_ensure(v, 0, first), v.page_size, second).offset == v.page_size,
        request_for(after_ensure(after_ensure(v, 0, first), v.page_size, second), 0) == Some(
            PageRequest { offset: 0, max: v.page_size as usize },
        ),
        after_ensure(
            after_ensure(after_ensure(v, 0, first), v.page_size, second),
            0,
            third,
        ).offset == 0,
        after_ensure(v, 0, first).records == page_of(first, v.page_size),
        after_ensure(after_ensure(v, 0, first), v.page_size, second).records == page_of(
            second,
            v.page_size,
        ),
        after_ensure(
            after_ensure(after_ensure(v, 0, first), v.page_size, second),
            0,
            third,
        ).records == page_of(third, v.page_size),
        after_ensure(
            after_ensure(after_ensure(v, 0, first), v.page_size, second),
            0,
            third,
        ).term == v.term,
{
    let ps = v.page_size;
    vstd::arithmetic::div_mod::lemma_div_basics(ps);
    assert(page_start(ps, 0) == 0);
    assert(page_start(ps, ps) == ps);
}

/// Switching the query: after index `i` was ensured under one term and the
/// term was changed, nothing is resident; ensuring `i` again asks for its page
/// under the new term (when that term is not empty), and the record then
/// served for `i` comes from the page fetched for the new term, never from
/// the old one: every resident record is then one of that page.
pub proof fn lemma_query_switch(
    v: CacheView,
    i: int,
    first: Seq<FileResult>,
    term: Seq<char>,
    second: Seq<FileResult>,
)
    requires
        v.wf(),
        0 <= i <= usize::MAX,
        term != v.term,
    ensures
        after_set_query(after_ensure(v, i, first), term).records.len() == 0,
        term.len() > 0 ==> request_for(after_set_query(after_ensure(v, i, first), term), i)
            == Some(PageRequest { offset: page_start(v.page_size, i) as usize, max: v.page_size as usize }),
        term.len() > 0 ==> {
            &&& after_ensure(after_set_query(after_ensure(v, i, first), term), i, second).term
                == term
            &&& after_ensure(after_set_query(after_ensure(v, i, first), term), i, second).offset
                == page_start(v.page_size, i)
            &&& after_ensure(after_set_query(after_ensure(v, i, first), term), i, second).records
                == page_of(second, v.page_size)
        },
        record_at(after_ensure(after_set_query(after_ensure(v, i, first), term), i, second), i) is Some
            ==> {
            &&& term.len() > 0
            &&& record_at(
                after_ensure(after_set_query(after_ensure(v, i, first), term), i, second),
                i,
            ) == Some(page_of(second, v.page_size)[i - page_start(v.page_size, i)])
        },
{
    lemma_page_start(v.page_size, i);
}

/// One resident page of results and the term that produced it.
pub struct PagedResultCache {
    page_size: usize,
    current_page_offset: usize,
    search_results: Vec<FileResult>,
    current_search_term: String,
}

impl View for PagedResultCache {
    type V = CacheView;

    closed spec fn view(&self) -> CacheView {
        CacheView {
            page_size: self.page_size as int,
            offset: self.current_page_offset as int,
            records: self.search_results@,
            term: self.current_search_term@,
        }
    }
}

proof fn lemma_page_start(page_size: int, i: int)
    requires
        page_size > 0,
        i >= 0,
    ensures
        0 <= page_start(page_size, i) <= i,
        page_start(page_size, i) % page_size == 0,
        i - page_start(page_size, i) < page_size,
{
    let q = i / page_size;
    lemma_fundamental_div_mod(i, page_size);
    lemma_mod_pos_bound(i, page_size);
    lemma_div_pos_is_pos(i, page_size);
    lemma_mod_multiples_basic(q, page_size);
    assert(q * page_size == page_size * q && q * page_size >= 0) by (nonlinear_arith)
        requires
            q >= 0,
            page_size > 0,
    ;
}

proof fn lemma_page_of_window(page_size: int, offset: int, i: int)
    requires
        page_size > 0,
        offset >= 0,
        offset % page_size == 0,
        offset <= i < offset + page_size,
    ensures
        page_start(page_size, i) == offset,
{
    let k = offset / page_size;
    lemma_fundamental_div_mod(offset, page_size);
    assert(k * page_size == page_size * k) by (nonlinear_arith);
    lemma_fundamental_div_mod_converse(i, page_size, k, i - offset);
}

impl PagedResultCache {
    /// The cache's invariant.
    pub open spec fn wf(&self) -> bool {
        self@.wf()
    }

    /// An empty cache with no active term.
    pub fn new(page_size: usize) -> (r: PagedResultCache)
        requires
            page_size > 0,
        ensures
            r.wf(),
            r@ == (CacheView {
                page_size: page_size as int,
                offset: 0,
                records: Seq::empty(),
                term: Seq::empty(),
            }),
    {
        PagedResultCache {
            page_size,
            current_page_offset: 0,
            search_results: Vec::new(),
            current_search_term: String::new(),
        }
    }

    /// Number of records in a page.
    pub fn page_size(&self) -> (r: usize)
        ensures
            r as int == self@.page_size,
    {
        self.page_size
    }

    /// Absolute index of the first resident record.
    pub fn current_page_offset(&self) -> (r: usize)
        ensures
            r as int == self@.offset,
    {
        self.current_page_offset
    }

    /// Number of resident records.
    pub fn resident_len(&self) -> (r: usize)
        ensures
            r as int == self@.records.len(),
    {
        self.search_results.len()
    }

    /// The active query term.
    pub fn current_search_term(&self) -> (r: &String)
        ensures
            r@ == self@.term,
    {
        &self.current_search_term
    }

    /// Start of the page that holds `item_index`.
    pub fn page_start(&self, item_index: usize) -> (r: usize)
        requires
            self.wf(),
        ensures
            r as int == page_start(self@.page_size, item_index as int),
    {
        proof {
            lemma_page_start(self.page_size as int, item_index as int);
        }
        (item_index / self.page_size) * self.page_size
    }

    /// Makes `term` the active term. A new term drops the resident page, so no
    /// record of an earlier term is ever served again.
    pub fn set_query(&mut self, term: String)
        requires
            old(self).wf(),
        ensures
            final(self).wf(),
            final(self)@ == after_set_query(old(self)@, term@),
    {
        if self.current_search_term != term {
            self.search_results = Vec::new();
            self.current_search_term = term;
            self.current_page_offset = 0;
        }
    }

    /// Drops the resident page and the active term.
    pub fn clear(&mut self)
        requires
            old(self).wf(),
        ensures
            final(self).wf(),
            final(self)@ == (CacheView {
                records: Seq::empty(),
                term: Seq::empty(),
                offset: 0,
                ..old(self)@
            }),
    {
        self.search_results = Vec::new();
        self.current_search_term = String::new();
        self.current_page_offset = 0;
    }

    /// The page that must be fetched before `item_index` can be served, or
    /// `None` when the row is resident or no term is active.
    pub fn ensure_data_available(&self, item_index: usize) -> (r: Option<PageRequest>)
        requires
            self.wf(),
        ensures
            r == request_for(self@, item_index as int),
            r is None <==> (self@.term.len() == 0 || record_at(self@, item_index as int) is Some),
    {
        proof {
            lemma_page_start(self.page_size as int, item_index as int);
            if self.current_page_offset <= item_index < self.current_page_offset
                + self.search_results.len() {
                lemma_page_of_window(
                    self.page_size as int,
                    self.current_page_offset as int,
                    item_index as int,
                );
            }
        }
        if self.current_search_term.as_str().is_empty() {
            return None;
        }
        let page_start = self.page_start(item_index);
        if self.current_page_offset == page_start {
            let local_index = item_index - page_start;
            if local_index < self.search_results.len() {
                return None;
            }
        }
        Some(PageRequest { offset: page_start, max: self.page_size })
    }

    /// Makes `records` the resident page at `offset`, keeping at most a page of
    /// them.
    pub(crate) fn store_page(&mut self, offset: usize, records: Vec<FileResult>)
        requires
            old(self).wf(),
            offset as int % old(self)@.page_size == 0,
        ensures
            final(self).wf(),
            final(self)@ == (CacheView {
                offset: offset as int,
                records: page_of(records@, old(self)@.page_size),
                ..old(self)@
            }),
    {
        let ghost given = records@;
        let mut page = records;
        page.truncate(self.page_size);
        proof {
            assert(page@ =~= page_of(given, self.page_size as int));
        }
        self.search_results = page;
        self.current_page_offset = offset;
    }

    /// Installs the page at `offset` that the provider returned for `term`.
    /// Nothing changes without an active term, or when `term` is no longer the
    /// active term: a response to an outdated query is dropped.
    pub fn load_page(&mut self, term: &String, offset: usize, records: Vec<FileResult>)
        requires
            old(self).wf(),
            offset as int % old(self)@.page_size == 0,
        ensures
            final(self).wf(),
            final(self)@ == after_load(old(self)@, term@, offset as int, records@),
    {
        if self.current_search_term.as_str().is_empty() || *term != self.current_search_term {
            return;
        }
        self.store_page(offset, records);
    }

    /// The resident record at absolute index `item_index`, if there is one.
    pub fn record(&self, item_index: usize) -> (r: Option<&FileResult>)
        requires
            self.wf(),
        ensures
            r is None <==> record_at(self@, item_index as int) is None,
            r matches Some(f) ==> record_at(self@, item_index as int) == Some(*f),
    {
        if item_index < self.current_page_offset {
            return None;
        }
        let local_index = item_index - self.current_page_offset;
        if local_index < self.search_results.len() {
            Some(&self.search_results[local_index])
        } else {
            None
        }
    }
}

} // verus!
