//! Pages of a list.
use vstd::prelude::*;

verus! {

/// Where a page stands in a list.
#[derive(Clone, Copy, Debug, PartialEq, Eq, Structural)]
pub struct PageInfo {
    /// How many items stand before the page.
    pub offset: i64,
    /// How many pages the list has.
    pub total_pages: u32,
    /// Whether items stand behind the page.
    pub has_more: bool,
}

/// How many items stand before page `page`, pages counted from 0, as far as
/// an `i64` holds it.
pub open spec fn page_offset(page: int, page_size: int) -> int {
    if page * page_size > i64::MAX {
        i64::MAX as int
    } else {
        page * page_size
    }
}

/// How many pages of `page_size` items a list of `total_count` items has,
/// the last page counted though it may not be full, as far as a `u32` holds
/// it. A list without items has no page; pages without items are never
/// enough for a list with items.
pub open spec fn page_count(total_count: int, page_size: int) -> int {
    if total_count <= 0 {
        0
    } else if page_size <= 0 {
        u32::MAX as int
    } else {
        let pages = (total_count + page_size - 1) / page_size;
        if pages > u32::MAX {
            u32::MAX as int
        } else {
            pages
        }
    }
}

/// Whether items stand behind page `page`.
pub open spec fn more_behind(total_count: int, page: int, page_size: int) -> bool {
    (page + 1) * page_size < total_count
}

/// The pages are enough for the list, and one page fewer would not be.
pub proof fn lemma_page_count(total_count: int, page_size: int)
    requires
        total_count > 0,
        page_size > 0,
        (total_count + page_size - 1) / page_size <= u32::MAX,
    ensures
        page_count(total_count, page_size) * page_size >= total_count,
        (page_count(total_count, page_size) - 1) * page_size < total_count,
{
    let n = total_count + page_size - 1;
    vstd::arithmetic::div_mod::lemma_fundamental_div_mod(n, page_size);
    vstd::arithmetic::div_mod::lemma_mod_bound(n, page_size);
    assert(page_size * (n / page_size) == (n / page_size) * page_size) by (nonlinear_arith);
    assert((n / page_size - 1) * page_size == (n / page_size) * page_size - page_size)
        by (nonlinear_arith);
}

/// Where page `page` of a list of `total_count` items stands, pages of
/// `page_size` items counted from 0.
pub fn paginate(total_count: i64, page: u32, page_size: u32) -> (info: PageInfo)
    ensures
        info.offset == page_offset(page as int, page_size as int),
        info.total_pages == page_count(total_count as int, page_size as int),
        info.has_more == more_behind(total_count as int, page as int, page_size as int),
{
    assert(0 <= page * page_size <= (page + 1) * page_size <= 0x1_0000_0000 * 0x1_0000_0000)
        by (nonlinear_arith)
        requires
            0 <= page <= 0xffff_ffff,
            0 <= page_size <= 0xffff_ffff,
    ;
    let wide_offset: u128 = (page as u128) * (page_size as u128);
    let offset: i64 = if wide_offset > 9223372036854775807u128 {
        i64::MAX
    } else {
        wide_offset as i64
    };
    let total_pages: u32 = if total_count <= 0 {
        0
    } else if page_size == 0 {
        u32::MAX
    } else {
        let pages: u128 = (total_count as u128 + page_size as u128 - 1) / (page_size as u128);
        if pages > 4294967295u128 {
            u32::MAX
        } else {
            pages as u32
        }
    };
    let behind: u128 = (page as u128 + 1) * (page_size as u128);
    let has_more = total_count > 0 && behind < total_count as u128;
    PageInfo { offset, total_pages, has_more }
}

} // verus!
