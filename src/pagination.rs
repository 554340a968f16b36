use vstd::prelude::*;

verus! {

/// The number of pages that `total_items` items fill at `items_per_page`
/// items per page; 0 items per page puts everything on one page.
pub open spec fn total_pages_of(items_per_page: int, total_items: int) -> int {
    if items_per_page == 0 {
        1
    } else if items_per_page == 1 {
        total_items
    } else {
        total_items / items_per_page + if total_items % items_per_page == 0 {
            0int
        } else {
            1int
        }
    }
}

/// A page number brought into `[1, total_pages]`.
pub open spec fn clamp_page(page: int, total_pages: int) -> int {
    if page == 0 {
        1
    } else if page > total_pages {
        total_pages
    } else {
        page
    }
}

/// The numbers of a pagination.
pub struct PaginationView {
    pub page: int,
    pub total_pages: int,
    pub items_per_page: int,
    pub total_items: int,
}

/// Page information: the current page, the page count, and the item counts
/// that determine it.
#[derive(Debug, Clone)]
pub struct Pagination {
    page: usize,
    total_pages: usize,
    items_per_page: usize,
    total_items: usize,
}

impl View for Pagination {
    type V = PaginationView;

    closed spec fn view(&self) -> PaginationView {
        PaginationView {
            page: self.page as int,
            total_pages: self.total_pages as int,
            items_per_page: self.items_per_page as int,
            total_items: self.total_items as int,
        }
    }
}

impl Pagination {
    /// Page 1 of 1, with no items and 0 items per page.
    pub fn new() -> (r: Self)
        ensures
            r@ == (PaginationView { page: 1, total_pages: 1, items_per_page: 0, total_items: 0 }),
    {
        Pagination { page: 1, total_pages: 1, items_per_page: 0, total_items: 0 }
    }

    /// Sets the page number: 0 becomes 1, and a number past the last page
    /// becomes the last page.
    pub fn page(self, page: usize) -> (r: Self)
        ensures
            r@ == (PaginationView {
                page: clamp_page(page as int, self@.total_pages),
                ..self@
            }),
    {
        let mut s = self;
        s.page = if page == 0 {
            1
        } else if page > s.total_pages {
            s.total_pages
        } else {
            page
        };
        s
    }

    /// Sets the number of items per page (0: all items on one page) and
    /// recomputes the page count.
    pub fn items_per_page(self, items_per_page: usize) -> (r: Self)
        ensures
            r@.items_per_page == items_per_page,
            r@.total_items == self@.total_items,
            r@.total_pages == total_pages_of(items_per_page as int, self@.total_items),
            r@.page == clamp_page(self@.page, r@.total_pages),
    {
        let mut s = self;
        s.items_per_page = items_per_page;
        s.update_total_pages()
    }

    /// Sets the total number of items and recomputes the page count.
    pub fn total_items(self, total_items: usize) -> (r: Self)
        ensures
            r@.items_per_page == self@.items_per_page,
            r@.total_items == total_items,
            r@.total_pages == total_pages_of(self@.items_per_page, total_items as int),
            r@.page == clamp_page(self@.page, r@.total_pages),
    {
        let mut s = self;
        s.total_items = total_items;
        s.update_total_pages()
    }

    fn update_total_pages(self) -> (r: Self)
        ensures
            r@.items_per_page == self@.items_per_page,
            r@.total_items == self@.total_items,
            r@.total_pages == total_pages_of(self@.items_per_page, self@.total_items),
            r@.page == clamp_page(self@.page, r@.total_pages),
    {
        let mut s = self;
        s.total_pages = match s.items_per_page {
            0 => 1,
            1 => s.total_items,
            n => {
                let t = s.total_items;
                assert(t / n < usize::MAX) by (nonlinear_arith)
                    requires
                        n >= 2,
                        t <= usize::MAX,
                ;
                t / n + if t % n == 0 {
                    0
                } else {
                    1
                }
            },
        };
        s.page = if s.page == 0 {
            1
        } else if s.page > s.total_pages {
            s.total_pages
        } else {
            s.page
        };
        s
    }

    /// The page number.
    pub fn get_page(&self) -> (r: usize)
        ensures
            r == self@.page,
    {
        self.page
    }

    /// The number of pages.
    pub fn get_total_pages(&self) -> (r: usize)
        ensures
            r == self@.total_pages,
    {
        self.total_pages
    }

    /// The number of items per page; 0 means all items on one page.
    pub fn get_items_per_page(&self) -> (r: usize)
        ensures
            r == self@.items_per_page,
    {
        self.items_per_page
    }

    /// The total number of items.
    pub fn get_total_items(&self) -> (r: usize)
        ensures
            r == self@.total_items,
    {
        self.total_items
    }
}

} // verus!
