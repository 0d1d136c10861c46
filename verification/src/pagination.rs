//! Paging across house listings: the transport-facing pagination
//! parameters, their decoded exclusive-start key, and the listing flow
//! that drives a paged house query through the storage port.

use vstd::prelude::*;

use crate::attr::{AttrVal, Record};
use crate::cursor::{deserialise_db_key, serialise_db_key, spec_decode_cursor, spec_encode_cursor};
use crate::errors::StoreError;
use crate::house_item::{HouseItem, house_views, spec_decode_house_items};
use crate::port::StoragePort;
use crate::store::{TableKind, opt_rec_view, spec_query};

verus! {

/// The paging inputs a request carries: an optional page size and the
/// opaque token of the last key seen.
#[derive(Debug)]
pub struct PaginationParams {
    pub limit: Option<i32>,
    pub last_evaluated_key: Option<String>,
}

impl PaginationParams {
    /// Decodes the opaque token into the exclusive-start key record;
    /// absent token, absent key.
    pub fn decode_last_evaluated_key(&self) -> (r: Result<Option<Record>, StoreError>)
        ensures
            match self.last_evaluated_key {
                Option::None => r matches Ok(out) && out is None,
                Option::Some(token) => match r {
                    Ok(out) => out matches Some(rec) && spec_decode_cursor(token@) == Some(rec@),
                    Err(e) => spec_decode_cursor(token@) is None && e == StoreError::InvalidCursor,
                },
            },
    {
        match &self.last_evaluated_key {
            Option::None => Ok(None),
            Option::Some(token) => match deserialise_db_key(token.as_str()) {
                Ok(rec) => Ok(Some(rec)),
                Err(e) => Err(e),
            },
        }
    }
}

/// One page of results with the token to resume after, when more remain.
#[derive(Debug)]
pub struct PaginatedResponse<T> {
    pub items: Vec<T>,
    pub last_evaluated_key: Option<String>,
}

/// One page of decoded rows with the raw key record to resume after.
#[derive(Debug)]
pub struct PaginatedDbResponse<T> {
    pub items: Vec<T>,
    pub last_evaluated_key: Option<Record>,
}

/// A house listing request filters by exactly one of the two access
/// paths.
#[derive(Debug)]
pub struct HouseRequestFilter {
    pub city_code: Option<String>,
    pub h3_index: Option<String>,
}

/// The one access path a filter selects.
#[derive(Debug)]
pub enum HouseFilter {
    ByCity(String),
    ByH3Index(String),
}

impl HouseRequestFilter {
    /// The selected access path; `None` when none or both were given.
    pub fn selector(&self) -> (r: Option<HouseFilter>)
        ensures
            match r {
                Some(HouseFilter::ByH3Index(h)) => self.h3_index matches Some(g) && g@ == h@
                    && self.city_code is None,
                Some(HouseFilter::ByCity(c)) => self.city_code matches Some(g) && g@ == c@
                    && self.h3_index is None,
                None => (self.city_code is Some && self.h3_index is Some) || (self.city_code
                    is None && self.h3_index is None),
            },
    {
        match (&self.h3_index, &self.city_code) {
            (Option::Some(h), Option::None) => Some(HouseFilter::ByH3Index(h.clone())),
            (Option::None, Option::Some(c)) => Some(HouseFilter::ByCity(c.clone())),
            _ => None,
        }
    }
}

/// Lists houses through one access path, one page at a time: decodes the
/// incoming token, runs the paged query, decodes the page, and encodes the
/// outgoing token.
pub fn list_houses<P: StoragePort>(
    port: &P,
    filter: &HouseFilter,
    limit: Option<usize>,
    pagination: &PaginationParams,
) -> (r: Result<PaginatedDbResponse<HouseItem>, StoreError>)
    requires
        port.inv(),
    ensures
        ({
            let field = match filter {
                HouseFilter::ByH3Index(_) => "H3Index"@,
                HouseFilter::ByCity(_) => "CityCode"@,
            };
            let value = match filter {
                HouseFilter::ByH3Index(h) => h@,
                HouseFilter::ByCity(c) => c@,
            };
            match pagination.last_evaluated_key {
                Option::Some(token) if spec_decode_cursor(token@) is None => r == Err::<
                    PaginatedDbResponse<HouseItem>,
                    StoreError,
                >(StoreError::InvalidCursor),
                _ => {
                    let start = match pagination.last_evaluated_key {
                        Option::Some(token) => spec_decode_cursor(token@),
                        Option::None => None,
                    };
                    match spec_query(
                        port.model(),
                        TableKind::Houses,
                        field,
                        AttrVal::S(value),
                        limit,
                        start,
                    ) {
                        Err(e) => r == Err::<PaginatedDbResponse<HouseItem>, StoreError>(e),
                        Ok(pair) => match spec_decode_house_items(pair.0) {
                            Err(e) => r == Err::<PaginatedDbResponse<HouseItem>, StoreError>(e),
                            Ok(houses) => (r matches Ok(page) && house_views(page.items@)
                                == houses && opt_rec_view(page.last_evaluated_key) == pair.1),
                        },
                    }
                },
            }
        }),
{
    let start_key = match pagination.decode_last_evaluated_key() {
        Ok(k) => k,
        Err(e) => {
            return Err(e);
        },
    };
    match filter {
        HouseFilter::ByH3Index(h) => HouseItem::list_by_h3_index_from_db(h, limit, start_key, port),
        HouseFilter::ByCity(c) => HouseItem::list_by_city_from_db(c, limit, start_key, port),
    }
}

/// Encodes a page's resume key as the opaque token of the response.
pub fn encode_page_token(page: &PaginatedDbResponse<HouseItem>) -> (r: Option<String>)
    ensures
        match page.last_evaluated_key {
            Option::Some(krec) => r matches Some(t) && t@ == spec_encode_cursor(krec@),
            Option::None => r is None,
        },
{
    match &page.last_evaluated_key {
        Option::Some(krec) => Some(serialise_db_key(krec)),
        Option::None => None,
    }
}

} // verus!
