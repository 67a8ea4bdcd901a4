//! Pagination: a page of results with navigation metadata, and the
//! parameters that select one page out of a larger result list.

use vstd::prelude::*;

verus! {

/// One page of results: the selected items, the total count across all
/// pages, and the neighbouring page numbers when they exist.
#[derive(Debug)]
pub struct Page<T> {
    /// The items of this page.
    pub items: Vec<T>,
    /// The total count of items across all pages.
    pub count: usize,
    /// The next page number, when more pages exist.
    pub next_page: Option<usize>,
    /// The previous page number, when this is not the first page.
    pub previous_page: Option<usize>,
}

impl<T> Page<T> {
    /// A builder holding the given items and empty metadata.
    pub fn builder(items: Vec<T>) -> (r: PageBuilder<T>)
        ensures
            r.items == items,
            r.count == 0,
            r.next_page is None,
            r.previous_page is None,
    {
        PageBuilder::new(items)
    }
}

impl<T> Default for Page<T> {
    /// The empty page: no items, count zero, no neighbours.
    fn default() -> (r: Page<T>)
        ensures
            r.items@.len() == 0,
            r.count == 0,
            r.next_page is None,
            r.previous_page is None,
    {
        Page { items: Vec::new(), count: 0, next_page: None, previous_page: None }
    }
}

/// Builds a page step by step.
pub struct PageBuilder<T> {
    /// The items of the page being built.
    pub items: Vec<T>,
    /// The total count across all pages, once set.
    pub count: usize,
    /// The next page number, once set.
    pub next_page: Option<usize>,
    /// The previous page number, once set.
    pub previous_page: Option<usize>,
}

impl<T> PageBuilder<T> {
    /// A builder holding the given items and empty metadata.
    pub fn new(items: Vec<T>) -> (r: PageBuilder<T>)
        ensures
            r.items == items,
            r.count == 0,
            r.next_page is None,
            r.previous_page is None,
    {
        PageBuilder { items, count: 0, next_page: None, previous_page: None }
    }

    /// Sets the total count of items across all pages.
    pub fn with_count(self, count: usize) -> (r: PageBuilder<T>)
        ensures
            r.items == self.items,
            r.count == count,
            r.next_page == self.next_page,
            r.previous_page == self.previous_page,
    {
        let mut this = self;
        this.count = count;
        this
    }

    /// Sets the next page number, or clears it.
    pub fn with_next_page(self, next_page: Option<usize>) -> (r: PageBuilder<T>)
        ensures
            r.items == self.items,
            r.count == self.count,
            r.next_page == next_page,
            r.previous_page == self.previous_page,
    {
        let mut this = self;
        this.next_page = next_page;
        this
    }

    /// Sets the previous page number, or clears it.
    pub fn with_previous_page(self, previous_page: Option<usize>) -> (r: PageBuilder<T>)
        ensures
            r.items == self.items,
            r.count == self.count,
            r.next_page == self.next_page,
            r.previous_page == previous_page,
    {
        let mut this = self;
        this.previous_page = previous_page;
        this
    }

    /// The finished page.
    pub fn build(self) -> (r: Page<T>)
        ensures
            r.items == self.items,
            r.count == self.count,
            r.next_page == self.next_page,
            r.previous_page == self.previous_page,
    {
        Page {
            items: self.items,
            count: self.count,
            next_page: self.next_page,
            previous_page: self.previous_page,
        }
    }
}

/// Which page to select and how many items each page holds.
/// Pages are numbered from one.
#[derive(Debug, Clone)]
pub struct PaginationParams {
    /// The page number, starting at one.
    pub page: usize,
    /// The number of items per page.
    pub per_page: usize,
}

impl PaginationParams {
    /// Parameters selecting the given page with the given page size.
    pub fn new(page: usize, per_page: usize) -> (r: PaginationParams)
        ensures
            r.page == page,
            r.per_page == per_page,
    {
        PaginationParams { page, per_page }
    }

    /// A builder for pagination parameters.
    pub fn builder() -> (r: PaginationParamsBuilder)
        ensures
            r.page is None,
            r.per_page is None,
    {
        PaginationParamsBuilder::new()
    }

    /// How many items come before the selected page.
    ///
    /// The page number must be at least one, and the offset must fit the
    /// machine word.
    pub fn offset(&self) -> (r: usize)
        requires
            self.page >= 1,
            (self.page - 1) * self.per_page <= usize::MAX,
        ensures
            r == (self.page - 1) * self.per_page,
    {
        (self.page - 1) * self.per_page
    }

    /// The selected page of `items`, with its navigation metadata.
    ///
    /// An empty input, or an offset at or past the end, yields the empty
    /// page. Otherwise the page holds the items from the offset on, at most
    /// `per_page` of them; the count is the full input length; the next page
    /// number is present when items follow the page, and the previous page
    /// number when the page is not the first.
    pub fn paginate<T: Clone>(&self, items: Vec<T>) -> (r: Page<T>)
        requires
            self.page >= 1,
            self.page < usize::MAX,
            (self.page - 1) * self.per_page <= usize::MAX,
        ensures
            ({
                let n = items@.len();
                let off = (self.page - 1) * self.per_page;
                if n == 0 || off >= n {
                    &&& r.items@.len() == 0
                    &&& r.count == 0
                    &&& r.next_page is None
                    &&& r.previous_page is None
                } else {
                    let end = if off + self.per_page <= n {
                        off + self.per_page
                    } else {
                        n as int
                    };
                    &&& r.items@ == items@.subrange(off as int, end)
                    &&& r.count == n
                    &&& r.next_page == (if end < n {
                        Some((self.page + 1) as usize)
                    } else {
                        Option::<usize>::None
                    })
                    &&& r.previous_page == (if self.page > 1 {
                        Some((self.page - 1) as usize)
                    } else {
                        Option::<usize>::None
                    })
                }
            }),
    {
        let off = self.offset();
        if items.len() == 0 || off >= items.len() {
            return Page::default();
        }
        let count = items.len();
        let end: usize = if self.per_page <= count - off {
            off + self.per_page
        } else {
            count
        };
        let mut page_items = items;
        let mut tail = page_items.split_off(off);
        proof {
            assert(tail@.len() == count - off);
        }
        tail.truncate(end - off);
        let next_page = if end < count {
            Some(self.page + 1)
        } else {
            None
        };
        let previous_page = if self.page > 1 {
            Some(self.page - 1)
        } else {
            None
        };
        Page::builder(tail).with_count(count).with_next_page(next_page).with_previous_page(
            previous_page,
        ).build()
    }
}

impl Default for PaginationParams {
    /// The first page, ten items per page.
    fn default() -> (r: PaginationParams)
        ensures
            r.page == 1,
            r.per_page == 10,
    {
        PaginationParams { page: 1, per_page: 10 }
    }
}

/// Builds pagination parameters step by step; unset values fall back to the
/// first page and ten items per page.
pub struct PaginationParamsBuilder {
    /// The page number, once set.
    pub page: Option<usize>,
    /// The items per page, once set.
    pub per_page: Option<usize>,
}

impl PaginationParamsBuilder {
    /// A builder with nothing set.
    pub fn new() -> (r: PaginationParamsBuilder)
        ensures
            r.page is None,
            r.per_page is None,
    {
        PaginationParamsBuilder { page: None, per_page: None }
    }

    /// Sets the page number, starting at one.
    pub fn with_page(self, page: usize) -> (r: PaginationParamsBuilder)
        ensures
            r.page == Some(page),
            r.per_page == self.per_page,
    {
        let mut this = self;
        this.page = Some(page);
        this
    }

    /// Sets the number of items per page.
    pub fn with_per_page(self, per_page: usize) -> (r: PaginationParamsBuilder)
        ensures
            r.page == self.page,
            r.per_page == Some(per_page),
    {
        let mut this = self;
        this.per_page = Some(per_page);
        this
    }

    /// The finished parameters: unset values fall back to the first page and
    /// ten items per page.
    pub fn build(self) -> (r: PaginationParams)
        ensures
            r.page == (match self.page {
                Some(p) => p,
                None => 1usize,
            }),
            r.per_page == (match self.per_page {
                Some(p) => p,
                None => 10usize,
            }),
    {
        PaginationParams {
            page: match self.page {
                Some(p) => p,
                None => 1,
            },
            per_page: match self.per_page {
                Some(p) => p,
                None => 10,
            },
        }
    }
}

impl Default for PaginationParamsBuilder {
    /// A builder with nothing set.
    fn default() -> (r: PaginationParamsBuilder)
        ensures
            r.page is None,
            r.per_page is None,
    {
        PaginationParamsBuilder::new()
    }
}

} // verus!
