use vstd::prelude::*;
use crate::num::{decimal_text, format_u64, lemma_parse_decimal_text, parse_usize, spec_parse_unsigned};

verus! {

/// The offset and page size that a listing request asks for: the offset
/// is read from `next_token` (0 without one), the size is `max_results`
/// (or `default_max`) clamped to `1..=max_max`; `None` when the token is
/// not a number.
pub open spec fn spec_page_bounds(
    next_token: Option<Seq<char>>,
    max_results: Option<u64>,
    default_max: usize,
    max_max: usize,
) -> Option<(usize, usize)> {
    let limit: int = match max_results {
        Some(m) => m as int,
        None => default_max as int,
    };
    let clamped: usize = if limit < 1 {
        1
    } else if limit > max_max {
        max_max
    } else {
        limit as usize
    };
    match next_token {
        None => Some((0, clamped)),
        Some(t) => match spec_parse_unsigned(t) {
            Some(n) => if n <= usize::MAX {
                Some((n as usize, clamped))
            } else {
                None
            },
            None => None,
        },
    }
}

/// The offset and page size that a listing request asks for.
pub fn page_bounds(
    next_token: Option<&str>,
    max_results: Option<u64>,
    default_max: usize,
    max_max: usize,
) -> (res: Option<(usize, usize)>)
    requires
        1 <= max_max,
    ensures
        res == spec_page_bounds(
            match next_token {
                Some(t) => Some(t@),
                None => None,
            },
            max_results,
            default_max,
            max_max,
        ),
{
    let offset: usize = match next_token {
        Some(token) => match parse_usize(token) {
            Some(v) => v,
            None => return None,
        },
        None => 0,
    };
    let limit: u64 = match max_results {
        Some(m) => m,
        None => default_max as u64,
    };
    let clamped: usize = if limit < 1 {
        1
    } else if limit > max_max as u64 {
        max_max
    } else {
        limit as usize
    };
    Some((offset, clamped))
}

/// The page that starts at `offset` and holds at most `limit` items, with
/// the token of the next page when items remain; `None` when `offset` is
/// past the end.
pub open spec fn spec_take_page<T>(items: Seq<T>, offset: usize, limit: usize) -> Option<(Seq<T>, Option<Seq<char>>)> {
    if offset > items.len() {
        None
    } else {
        let next = offset + limit;
        let end = if next < items.len() { next } else { items.len() as int };
        Some((
            items.subrange(offset as int, end),
            if next < items.len() { Some(decimal_text(next)) } else { None },
        ))
    }
}

/// Cuts one page out of `items`.
pub fn take_page<T>(items: Vec<T>, offset: usize, limit: usize) -> (res: Option<(Vec<T>, Option<String>)>)
    requires
        offset <= items@.len() ==> offset + limit <= usize::MAX,
    ensures
        match spec_take_page(items@, offset, limit) {
            None => res.is_none(),
            Some((page, token)) => res.is_some() && res.unwrap().0@ == page && match res.unwrap().1 {
                Some(t) => token == Some(t@),
                None => token.is_none(),
            },
        },
{
    let mut items = items;
    if offset > items.len() {
        return None;
    }
    let next_offset = offset + limit;
    let next_token = if next_offset < items.len() {
        Some(format_u64(next_offset as u64))
    } else {
        None
    };
    let end = if next_offset < items.len() { next_offset } else { items.len() };
    items.truncate(end);
    let page = items.split_off(offset);
    Some((page, next_token))
}

/// A page token handed out for the next page reads back as that page's
/// offset: the listing continues where the last page ended.
pub proof fn lemma_next_token_reads_back<T>(
    items: Seq<T>,
    offset: usize,
    limit: usize,
    max_results: Option<u64>,
    default_max: usize,
    max_max: usize,
)
    requires
        offset + limit <= usize::MAX,
        spec_take_page(items, offset, limit) matches Some((_, Some(_))),
    ensures
        ({
            let token = spec_take_page(items, offset, limit).unwrap().1.unwrap();
            match spec_page_bounds(Some(token), max_results, default_max, max_max) {
                Some((o, _)) => o == offset + limit,
                None => false,
            }
        }),
{
    lemma_parse_decimal_text((offset + limit) as int);
}

} // verus!
