//! Pagination arithmetic for list endpoints.

use vstd::prelude::*;

verus! {

/// Page selection carried by list requests; the defaults are the first
/// page with ten items.
#[derive(Clone, Copy, Debug, PartialEq, Eq, Structural)]
pub struct ListQuery {
    pub page: u64,
    pub page_size: u64,
}

/// The page a list request falls back to.
pub fn default_page() -> (r: u64)
    ensures
        r == 1,
{
    1
}

/// The page size a list request falls back to.
pub fn default_page_size() -> (r: u64)
    ensures
        r == 10,
{
    10
}

/// Pagination facts derived from a total count, the requested page and
/// the page size: the number of pages rounded up, and whether pages
/// exist after and before the requested one.
#[derive(Clone, Copy, Debug, PartialEq, Eq, Structural)]
pub struct PaginationMeta {
    pub total: u64,
    pub page: u64,
    pub page_size: u64,
    pub total_pages: u64,
    pub has_next: bool,
    pub has_prev: bool,
}

impl PaginationMeta {
    /// Derives the metadata: `total_pages` is `total / page_size`
    /// rounded up, `has_next` holds when the requested page lies before
    /// the last page, `has_prev` when it lies after the first.
    pub fn new(total: u64, page: u64, page_size: u64) -> (m: PaginationMeta)
        requires
            1 <= page_size,
            total + page_size - 1 <= u64::MAX,
        ensures
            m.total == total,
            m.page == page,
            m.page_size == page_size,
            m.total_pages == (total + page_size - 1) / (page_size as int),
            m.has_next == (page < m.total_pages),
            m.has_prev == (page > 1),
    {
        let total_pages = (total + (page_size - 1)) / page_size;
        PaginationMeta {
            total,
            page,
            page_size,
            total_pages,
            has_next: page < total_pages,
            has_prev: page > 1,
        }
    }
}

} // verus!
