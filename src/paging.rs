use vstd::prelude::*;

verus! {

/// One page of a listing.
#[derive(Debug)]
pub struct PagedResponse<T> {
    pub total_count: usize,
    pub items: Vec<T>,
}

/// How many items a page of a listing asks for.
pub const MAX_ITEMS_PER_PAGE: usize = 100;

/// The page to fetch after page `page_number` brought `items_on_page` items:
/// none once a page comes back short. Pages are numbered from 0.
pub fn next_page(page_number: usize, items_on_page: usize) -> (r: Option<usize>)
    ensures
        items_on_page < MAX_ITEMS_PER_PAGE ==> r is None,
        items_on_page >= MAX_ITEMS_PER_PAGE && page_number < usize::MAX ==> r == Some((page_number + 1) as usize),
        items_on_page >= MAX_ITEMS_PER_PAGE && page_number == usize::MAX ==> r is None,
{
    if items_on_page < MAX_ITEMS_PER_PAGE {
        None
    } else {
        page_number.checked_add(1)
    }
}

} // verus!
