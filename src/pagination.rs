use vstd::prelude::*;

verus! {

/// Number of messages in one page of room history.
pub const MAX_FETCH: i32 = 5;

/// Offset of the first message of `page`; a negative page reads as the first page.
pub open spec fn page_offset_spec(page: int) -> int {
    if page < 0 {
        0
    } else {
        page * MAX_FETCH as int
    }
}

/// The history offset at which `page` starts.
pub fn page_offset(page: i32) -> (r: i64)
    ensures
        r as int == page_offset_spec(page as int),
{
    if page < 0 {
        0
    } else {
        page as i64 * 5
    }
}

/// The cursor that follows page `page` when it held `len` messages: 0 when the
/// page was short, so that no further page exists, and `page + 1` otherwise.
pub open spec fn next_page_spec(page: int, len: int) -> int {
    if len < MAX_FETCH as int || page >= i32::MAX as int {
        0
    } else {
        page + 1
    }
}

/// The cursor of the page after `page`, given how many messages `page` held.
/// The last representable page has no successor.
pub fn next_page(page: i32, len: usize) -> (r: i32)
    ensures
        r as int == next_page_spec(page as int, len as int),
{
    if len < MAX_FETCH as usize || page == i32::MAX {
        0
    } else {
        page + 1
    }
}

} // verus!
