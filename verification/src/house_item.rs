//! The house entity: immutable reference data keyed by tile and address,
//! with its coordinates kept as exact decimal text and its listing fields
//! as 32-bit numbers. Saved rows carry a time-to-live stamp the caller
//! supplies.

use vstd::prelude::*;

use crate::attr::{AttrVal, AttrValue, Record, RecV, rec_lookup, rec_wf};
use crate::codec::{
    encode_i32, encode_string, is_decimal_text, parse_decimal, parse_i32, parse_string,
    spec_parse_decimal, spec_parse_i32, spec_parse_string,
};
use crate::deci::int_text;
use crate::errors::StoreError;
use crate::pagination::PaginatedDbResponse;
use crate::port::StoragePort;
use crate::store::{
    PutCondition, PutRequest, QueryRequest, TableKind, WriteOperation, opt_rec_view, spec_query,
};

verus! {

/// The stored shape of a house.
pub struct HouseV {
    pub h3_index: Seq<char>,
    pub address: Seq<char>,
    pub city_code: Seq<char>,
    pub url: Seq<char>,
    pub lat: Seq<char>,
    pub lng: Seq<char>,
    pub price_lower: int,
    pub price_upper: int,
    pub num_bathrooms: int,
    pub num_bedrooms: int,
    pub num_carspaces: int,
    pub property_type: Seq<char>,
}

/// One listed house; latitude and longitude are kept as the exact decimal
/// text the wire carries.
#[derive(Debug)]
pub struct HouseItem {
    pub h3_index: String,
    pub address: String,
    pub city_code: String,
    pub url: String,
    pub lat: String,
    pub lng: String,
    pub price_lower: i32,
    pub price_upper: i32,
    pub num_bathrooms: i32,
    pub num_bedrooms: i32,
    pub num_carspaces: i32,
    pub property_type: String,
}

impl View for HouseItem {
    type V = HouseV;

    open spec fn view(&self) -> HouseV {
        HouseV {
            h3_index: self.h3_index@,
            address: self.address@,
            city_code: self.city_code@,
            url: self.url@,
            lat: self.lat@,
            lng: self.lng@,
            price_lower: self.price_lower as int,
            price_upper: self.price_upper as int,
            num_bathrooms: self.num_bathrooms as int,
            num_bedrooms: self.num_bedrooms as int,
            num_carspaces: self.num_carspaces as int,
            property_type: self.property_type@,
        }
    }
}

/// The views of a house list.
pub open spec fn house_views(items: Seq<HouseItem>) -> Seq<HouseV> {
    Seq::new(items.len(), |i: int| items[i]@)
}

/// Coordinates in decimal-text shape, and numbers that fit the wire.
pub open spec fn house_wf(v: HouseV) -> bool {
    &&& is_decimal_text(v.lat)
    &&& is_decimal_text(v.lng)
    &&& -0x8000_0000 <= v.price_lower <= 0x7fff_ffff
    &&& -0x8000_0000 <= v.price_upper <= 0x7fff_ffff
    &&& -0x8000_0000 <= v.num_bathrooms <= 0x7fff_ffff
    &&& -0x8000_0000 <= v.num_bedrooms <= 0x7fff_ffff
    &&& -0x8000_0000 <= v.num_carspaces <= 0x7fff_ffff
}

/// The record a house stores as; the time-to-live stamp rides along but is
/// not part of the entity.
pub open spec fn spec_house_to_rec(v: HouseV, ttl_epoch_seconds: int) -> RecV {
    seq![
        ("H3Index"@, AttrVal::S(v.h3_index)),
        ("Address"@, AttrVal::S(v.address)),
        ("CityCode"@, AttrVal::S(v.city_code)),
        ("Url"@, AttrVal::S(v.url)),
        ("Lat"@, AttrVal::S(v.lat)),
        ("Lng"@, AttrVal::S(v.lng)),
        ("PriceLower"@, AttrVal::N(int_text(v.price_lower))),
        ("PriceUpper"@, AttrVal::N(int_text(v.price_upper))),
        ("NumBathrooms"@, AttrVal::N(int_text(v.num_bathrooms))),
        ("NumBedrooms"@, AttrVal::N(int_text(v.num_bedrooms))),
        ("NumCarSpaces"@, AttrVal::N(int_text(v.num_carspaces))),
        ("PropertyType"@, AttrVal::S(v.property_type)),
        ("TimeToLive"@, AttrVal::N(int_text(ttl_epoch_seconds))),
    ]
}

/// The houses a stored record denotes.
pub open spec fn spec_house_from_rec(r: RecV) -> Result<HouseV, StoreError> {
    match spec_parse_string(rec_lookup(r, "H3Index"@)) {
        Err(e) => Err(e),
        Ok(h3_index) => match spec_parse_string(rec_lookup(r, "Address"@)) {
            Err(e) => Err(e),
            Ok(address) => match spec_parse_string(rec_lookup(r, "CityCode"@)) {
                Err(e) => Err(e),
                Ok(city_code) => match spec_parse_string(rec_lookup(r, "Url"@)) {
                    Err(e) => Err(e),
                    Ok(url) => match spec_parse_decimal(rec_lookup(r, "Lat"@)) {
                        Err(e) => Err(e),
                        Ok(lat) => match spec_parse_decimal(rec_lookup(r, "Lng"@)) {
                            Err(e) => Err(e),
                            Ok(lng) => match spec_parse_i32(rec_lookup(r, "PriceLower"@)) {
                                Err(e) => Err(e),
                                Ok(price_lower) => match spec_parse_i32(
                                    rec_lookup(r, "PriceUpper"@),
                                ) {
                                    Err(e) => Err(e),
                                    Ok(price_upper) => match spec_parse_i32(
                                        rec_lookup(r, "NumBathrooms"@),
                                    ) {
                                        Err(e) => Err(e),
                                        Ok(num_bathrooms) => match spec_parse_i32(
                                            rec_lookup(r, "NumBedrooms"@),
                                        ) {
                                            Err(e) => Err(e),
                                            Ok(num_bedrooms) => match spec_parse_i32(
                                                rec_lookup(r, "NumCarSpaces"@),
                                            ) {
                                                Err(e) => Err(e),
                                                Ok(num_carspaces) => match spec_parse_string(
                                                    rec_lookup(r, "PropertyType"@),
                                                ) {
                                                    Err(e) => Err(e),
                                                    Ok(property_type) => Ok(
                                                        HouseV {
                                                            h3_index,
                                                            address,
                                                            city_code,
                                                            url,
                                                            lat,
                                                            lng,
                                                            price_lower,
                                                            price_upper,
                                                            num_bathrooms,
                                                            num_bedrooms,
                                                            num_carspaces,
                                                            property_type,
                                                        },
                                                    ),
                                                },
                                            },
                                        },
                                    },
                                },
                            },
                        },
                    },
                },
            },
        },
    }
}

/// The thirteen attribute names are pairwise distinct.
pub proof fn lemma_house_columns_distinct()
    ensures
        forall|v: HouseV, ttl: int| rec_wf(#[trigger] spec_house_to_rec(v, ttl)),
{
    reveal_strlit("H3Index");
    reveal_strlit("Address");
    reveal_strlit("CityCode");
    reveal_strlit("Url");
    reveal_strlit("Lat");
    reveal_strlit("Lng");
    reveal_strlit("PriceLower");
    reveal_strlit("PriceUpper");
    reveal_strlit("NumBathrooms");
    reveal_strlit("NumBedrooms");
    reveal_strlit("NumCarSpaces");
    reveal_strlit("PropertyType");
    reveal_strlit("TimeToLive");
    assert("H3Index"@.len() == 7);
    assert("Address"@.len() == 7);
    assert("CityCode"@.len() == 8);
    assert("Url"@.len() == 3);
    assert("Lat"@.len() == 3);
    assert("Lng"@.len() == 3);
    assert("PriceLower"@.len() == 10);
    assert("PriceUpper"@.len() == 10);
    assert("NumBathrooms"@.len() == 12);
    assert("NumBedrooms"@.len() == 11);
    assert("NumCarSpaces"@.len() == 12);
    assert("PropertyType"@.len() == 12);
    assert("TimeToLive"@.len() == 10);
    assert("H3Index"@[0] == 'H' && "Address"@[0] == 'A');
    assert("Url"@[0] == 'U' && "Lat"@[0] == 'L' && "Lng"@[0] == 'L');
    assert("Lat"@[1] == 'a' && "Lng"@[1] == 'n');
    assert("PriceLower"@[5] == 'L' && "PriceUpper"@[5] == 'U');
    assert("PriceLower"@[0] == 'P' && "TimeToLive"@[0] == 'T');
    assert("NumBathrooms"@[3] == 'B' && "NumCarSpaces"@[3] == 'C' && "PropertyType"@[3] == 'p');
    assert("NumBathrooms"@[4] == 'a' && "NumBedrooms"@[4] == 'e');
    assert forall|v: HouseV, ttl: int| rec_wf(#[trigger] spec_house_to_rec(v, ttl)) by {
        let r = spec_house_to_rec(v, ttl);
        assert(r[0].0 == "H3Index"@ && r[1].0 == "Address"@ && r[2].0 == "CityCode"@ && r[3].0
            == "Url"@ && r[4].0 == "Lat"@ && r[5].0 == "Lng"@ && r[6].0 == "PriceLower"@ && r[7].0
            == "PriceUpper"@ && r[8].0 == "NumBathrooms"@ && r[9].0 == "NumBedrooms"@ && r[10].0
            == "NumCarSpaces"@ && r[11].0 == "PropertyType"@ && r[12].0 == "TimeToLive"@);
    }
}

/// A saved house reads back as itself, whatever time-to-live stamp rode
/// along.
pub proof fn lemma_house_record_round_trip(v: HouseV, ttl: int)
    requires
        house_wf(v),
    ensures
        spec_house_from_rec(spec_house_to_rec(v, ttl)) == Ok::<_, StoreError>(v),
{
    let r = spec_house_to_rec(v, ttl);
    lemma_house_columns_distinct();
    crate::assoc::lemma_assoc_first_match(r, "H3Index"@, 0);
    crate::assoc::lemma_assoc_first_match(r, "Address"@, 1);
    crate::assoc::lemma_assoc_first_match(r, "CityCode"@, 2);
    crate::assoc::lemma_assoc_first_match(r, "Url"@, 3);
    crate::assoc::lemma_assoc_first_match(r, "Lat"@, 4);
    crate::assoc::lemma_assoc_first_match(r, "Lng"@, 5);
    crate::assoc::lemma_assoc_first_match(r, "PriceLower"@, 6);
    crate::assoc::lemma_assoc_first_match(r, "PriceUpper"@, 7);
    crate::assoc::lemma_assoc_first_match(r, "NumBathrooms"@, 8);
    crate::assoc::lemma_assoc_first_match(r, "NumBedrooms"@, 9);
    crate::assoc::lemma_assoc_first_match(r, "NumCarSpaces"@, 10);
    crate::assoc::lemma_assoc_first_match(r, "PropertyType"@, 11);
    crate::deci::lemma_int_text_round_trip(v.price_lower);
    crate::deci::lemma_int_text_round_trip(v.price_upper);
    crate::deci::lemma_int_text_round_trip(v.num_bathrooms);
    crate::deci::lemma_int_text_round_trip(v.num_bedrooms);
    crate::deci::lemma_int_text_round_trip(v.num_carspaces);
}

impl HouseItem {
    /// Builds this house from its stored record.
    pub fn from_map(rec: &Record) -> (r: Result<HouseItem, StoreError>)
        ensures
            match r {
                Ok(item) => spec_house_from_rec(rec@) == Ok::<_, StoreError>(item@),
                Err(e) => spec_house_from_rec(rec@) == Err::<HouseV, _>(e),
            },
    {
        let h3_index = match parse_string(rec.get("H3Index")) {
            Ok(s) => s,
            Err(e) => {
                return Err(e);
            },
        };
        let address = match parse_string(rec.get("Address")) {
            Ok(s) => s,
            Err(e) => {
                return Err(e);
            },
        };
        let city_code = match parse_string(rec.get("CityCode")) {
            Ok(s) => s,
            Err(e) => {
                return Err(e);
            },
        };
        let url = match parse_string(rec.get("Url")) {
            Ok(s) => s,
            Err(e) => {
                return Err(e);
            },
        };
        let lat = match parse_decimal(rec.get("Lat")) {
            Ok(s) => s,
            Err(e) => {
                return Err(e);
            },
        };
        let lng = match parse_decimal(rec.get("Lng")) {
            Ok(s) => s,
            Err(e) => {
                return Err(e);
            },
        };
        let price_lower = match parse_i32(rec.get("PriceLower")) {
            Ok(n) => n,
            Err(e) => {
                return Err(e);
            },
        };
        let price_upper = match parse_i32(rec.get("PriceUpper")) {
            Ok(n) => n,
            Err(e) => {
                return Err(e);
            },
        };
        let num_bathrooms = match parse_i32(rec.get("NumBathrooms")) {
            Ok(n) => n,
            Err(e) => {
                return Err(e);
            },
        };
        let num_bedrooms = match parse_i32(rec.get("NumBedrooms")) {
            Ok(n) => n,
            Err(e) => {
                return Err(e);
            },
        };
        let num_carspaces = match parse_i32(rec.get("NumCarSpaces")) {
            Ok(n) => n,
            Err(e) => {
                return Err(e);
            },
        };
        let property_type = match parse_string(rec.get("PropertyType")) {
            Ok(s) => s,
            Err(e) => {
                return Err(e);
            },
        };
        Ok(
            HouseItem {
                h3_index,
                address,
                city_code,
                url,
                lat,
                lng,
                price_lower,
                price_upper,
                num_bathrooms,
                num_bedrooms,
                num_carspaces,
                property_type,
            },
        )
    }

    /// The record this house stores as, stamped with the caller's
    /// time-to-live moment in epoch seconds.
    pub fn to_record(&self, ttl_epoch_seconds: i32) -> (r: Record)
        ensures
            r@ == spec_house_to_rec(self@, ttl_epoch_seconds as int),
            rec_wf(r@),
    {
        let mut rec = Record::new();
        proof {
            lemma_house_columns_distinct();
            assert(spec_house_to_rec(self@, ttl_epoch_seconds as int)[0].0 == "H3Index"@);
        }
        rec.push("H3Index", encode_string(&self.h3_index));
        proof {
            crate::assoc::lemma_assoc_no_match(rec@, "Address"@);
        }
        rec.push("Address", encode_string(&self.address));
        proof {
            crate::assoc::lemma_assoc_no_match(rec@, "CityCode"@);
        }
        rec.push("CityCode", encode_string(&self.city_code));
        proof {
            crate::assoc::lemma_assoc_no_match(rec@, "Url"@);
        }
        rec.push("Url", encode_string(&self.url));
        proof {
            crate::assoc::lemma_assoc_no_match(rec@, "Lat"@);
        }
        rec.push("Lat", encode_string(&self.lat));
        proof {
            crate::assoc::lemma_assoc_no_match(rec@, "Lng"@);
        }
        rec.push("Lng", encode_string(&self.lng));
        proof {
            crate::assoc::lemma_assoc_no_match(rec@, "PriceLower"@);
        }
        rec.push("PriceLower", encode_i32(self.price_lower));
        proof {
            crate::assoc::lemma_assoc_no_match(rec@, "PriceUpper"@);
        }
        rec.push("PriceUpper", encode_i32(self.price_upper));
        proof {
            crate::assoc::lemma_assoc_no_match(rec@, "NumBathrooms"@);
        }
        rec.push("NumBathrooms", encode_i32(self.num_bathrooms));
        proof {
            crate::assoc::lemma_assoc_no_match(rec@, "NumBedrooms"@);
        }
        rec.push("NumBedrooms", encode_i32(self.num_bedrooms));
        proof {
            crate::assoc::lemma_assoc_no_match(rec@, "NumCarSpaces"@);
        }
        rec.push("NumCarSpaces", encode_i32(self.num_carspaces));
        proof {
            crate::assoc::lemma_assoc_no_match(rec@, "PropertyType"@);
        }
        rec.push("PropertyType", encode_string(&self.property_type));
        proof {
            crate::assoc::lemma_assoc_no_match(rec@, "TimeToLive"@);
        }
        rec.push("TimeToLive", encode_i32(ttl_epoch_seconds));
        proof {
            assert(rec@ =~= spec_house_to_rec(self@, ttl_epoch_seconds as int));
        }
        rec
    }

    /// The unconditional overwrite that persists this house, stamped with
    /// its time-to-live moment.
    pub fn save(&self, ttl_epoch_seconds: i32) -> (r: WriteOperation)
        ensures
            r@ == crate::store::OpV::Put(
                TableKind::Houses,
                spec_house_to_rec(self@, ttl_epoch_seconds as int),
                PutCondition::Unconditional,
            ),
            crate::store::op_wf(r@),
    {
        WriteOperation::Put(
            PutRequest {
                table: TableKind::Houses,
                item: self.to_record(ttl_epoch_seconds),
                condition: PutCondition::Unconditional,
            },
        )
    }

    /// The paged query for the houses of one tile.
    pub fn query_by_h3_index(
        h3_index: &String,
        limit: Option<usize>,
        exclusive_start_key: Option<Record>,
    ) -> (r: QueryRequest)
        ensures
            r.table == TableKind::Houses,
            r.field@ == "H3Index"@,
            r.value@ == AttrVal::S(h3_index@),
            r.limit == limit,
            crate::store::opt_rec_view(r.exclusive_start_key) == crate::store::opt_rec_view(
                exclusive_start_key,
            ),
    {
        QueryRequest {
            table: TableKind::Houses,
            index_name: None,
            field: "H3Index".to_owned(),
            value: AttrValue::S(h3_index.clone()),
            limit,
            exclusive_start_key,
        }
    }

    /// The paged query for the houses of one city, through its secondary
    /// access path.
    pub fn query_by_city(
        city_code: &String,
        limit: Option<usize>,
        exclusive_start_key: Option<Record>,
    ) -> (r: QueryRequest)
        ensures
            r.table == TableKind::Houses,
            r.field@ == "CityCode"@,
            r.value@ == AttrVal::S(city_code@),
            r.limit == limit,
            crate::store::opt_rec_view(r.exclusive_start_key) == crate::store::opt_rec_view(
                exclusive_start_key,
            ),
    {
        QueryRequest {
            table: TableKind::Houses,
            index_name: Some("CityCodeIndex".to_owned()),
            field: "CityCode".to_owned(),
            value: AttrValue::S(city_code.clone()),
            limit,
            exclusive_start_key,
        }
    }
}

/// The houses a query's record page denotes, first failure first.
pub open spec fn spec_decode_house_items(items: Seq<RecV>) -> Result<Seq<HouseV>, StoreError>
    decreases items.len(),
{
    if items.len() == 0 {
        Ok(Seq::empty())
    } else {
        match spec_house_from_rec(items[0]) {
            Err(e) => Err(e),
            Ok(v) => match spec_decode_house_items(items.drop_first()) {
                Err(e) => Err(e),
                Ok(rest) => Ok(seq![v] + rest),
            },
        }
    }
}

/// Decodes a page of records into houses, stopping at the first failure.
pub fn decode_house_rows(items: Vec<Record>) -> (r: Result<Vec<HouseItem>, StoreError>)
    ensures
        match r {
            Ok(out) => spec_decode_house_items(crate::store::recs_view(items@)) == Ok::<
                _,
                StoreError,
            >(house_views(out@)),
            Err(e) => spec_decode_house_items(crate::store::recs_view(items@)) == Err::<
                Seq<HouseV>,
                _,
            >(e),
        },
{
    let ghost iv = crate::store::recs_view(items@);
    let mut out: Vec<HouseItem> = Vec::new();
    let n = items.len();
    proof {
        assert(iv.skip(0) =~= iv);
        assert(house_views(out@) =~= Seq::<HouseV>::empty());
        if spec_decode_house_items(iv) is Ok {
            assert(house_views(out@) + spec_decode_house_items(iv)->Ok_0
                =~= spec_decode_house_items(iv)->Ok_0);
        }
    }
    for i in 0..n
        invariant
            n == items@.len(),
            iv == crate::store::recs_view(items@),
            spec_decode_house_items(iv) == (match spec_decode_house_items(iv.skip(i as int)) {
                Ok(rest) => Ok::<_, StoreError>(house_views(out@) + rest),
                Err(e) => Err::<Seq<HouseV>, _>(e),
            }),
    {
        let ghost herev = iv.skip(i as int);
        proof {
            assert(herev[0] == iv[i as int]);
            assert(herev.drop_first() =~= iv.skip(i + 1));
        }
        let item = match HouseItem::from_map(&items[i]) {
            Ok(v) => v,
            Err(e) => {
                proof {
                    assert(spec_house_from_rec(herev[0]) == Err::<HouseV, StoreError>(e));
                }
                return Err(e);
            },
        };
        let ghost out0 = house_views(out@);
        out.push(item);
        proof {
            assert(house_views(out@) =~= out0.push(item@));
            if spec_decode_house_items(iv.skip(i + 1)) is Ok {
                let rest = spec_decode_house_items(iv.skip(i + 1))->Ok_0;
                assert(spec_decode_house_items(herev) == Ok::<_, StoreError>(
                    seq![item@] + rest,
                ));
                assert(out0 + (seq![item@] + rest) =~= house_views(out@) + rest);
            }
        }
    }
    proof {
        assert(iv.skip(n as int) =~= Seq::<RecV>::empty());
        assert(house_views(out@) + Seq::<HouseV>::empty() =~= house_views(out@));
    }
    Ok(out)
}


impl HouseItem {
    /// Loads one page of the houses of a tile.
    pub fn list_by_h3_index_from_db<P: StoragePort>(
        h3_index: &String,
        limit: Option<usize>,
        last_evaluated_key: Option<Record>,
        port: &P,
    ) -> (r: Result<PaginatedDbResponse<HouseItem>, StoreError>)
        requires
            port.inv(),
        ensures
            ({
                let q = spec_query(
                    port.model(),
                    TableKind::Houses,
                    "H3Index"@,
                    AttrVal::S(h3_index@),
                    limit,
                    opt_rec_view(last_evaluated_key),
                );
                match q {
                    Err(e) => r == Err::<PaginatedDbResponse<HouseItem>, StoreError>(e),
                    Ok(pair) => match spec_decode_house_items(pair.0) {
                        Err(e) => r == Err::<PaginatedDbResponse<HouseItem>, StoreError>(e),
                        Ok(houses) => (r matches Ok(page) && house_views(page.items@) == houses
                            && opt_rec_view(page.last_evaluated_key) == pair.1),
                    },
                }
            }),
    {
        let request = Self::query_by_h3_index(h3_index, limit, last_evaluated_key);
        list_page(port, request)
    }

    /// Loads one page of the houses of a city, through its secondary
    /// access path.
    pub fn list_by_city_from_db<P: StoragePort>(
        city_code: &String,
        limit: Option<usize>,
        last_evaluated_key: Option<Record>,
        port: &P,
    ) -> (r: Result<PaginatedDbResponse<HouseItem>, StoreError>)
        requires
            port.inv(),
        ensures
            ({
                let q = spec_query(
                    port.model(),
                    TableKind::Houses,
                    "CityCode"@,
                    AttrVal::S(city_code@),
                    limit,
                    opt_rec_view(last_evaluated_key),
                );
                match q {
                    Err(e) => r == Err::<PaginatedDbResponse<HouseItem>, StoreError>(e),
                    Ok(pair) => match spec_decode_house_items(pair.0) {
                        Err(e) => r == Err::<PaginatedDbResponse<HouseItem>, StoreError>(e),
                        Ok(houses) => (r matches Ok(page) && house_views(page.items@) == houses
                            && opt_rec_view(page.last_evaluated_key) == pair.1),
                    },
                }
            }),
    {
        let request = Self::query_by_city(city_code, limit, last_evaluated_key);
        list_page(port, request)
    }
}

/// Runs one paged house query and decodes the page.
fn list_page<P: StoragePort>(port: &P, request: QueryRequest) -> (r: Result<
    PaginatedDbResponse<HouseItem>,
    StoreError,
>)
    requires
        port.inv(),
    ensures
        ({
            let q = spec_query(
                port.model(),
                request.table,
                request.field@,
                request.value@,
                request.limit,
                opt_rec_view(request.exclusive_start_key),
            );
            match q {
                Err(e) => r == Err::<PaginatedDbResponse<HouseItem>, StoreError>(e),
                Ok(pair) => match spec_decode_house_items(pair.0) {
                    Err(e) => r == Err::<PaginatedDbResponse<HouseItem>, StoreError>(e),
                    Ok(houses) => (r matches Ok(page) && house_views(page.items@) == houses
                        && opt_rec_view(page.last_evaluated_key) == pair.1),
                },
            }
        }),
{
    let response = match port.query(&request) {
        Ok(resp) => resp,
        Err(e) => {
            return Err(e);
        },
    };
    let last_evaluated_key = response.last_evaluated_key;
    let items = match decode_house_rows(response.items) {
        Ok(items) => items,
        Err(e) => {
            return Err(e);
        },
    };
    Ok(PaginatedDbResponse { items, last_evaluated_key })
}

} // verus!
