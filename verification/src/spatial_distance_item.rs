//! The spatial distance entity: precomputed travel durations between a
//! source tile and a destination tile, one row per ordered pair. Symmetric
//! pairs are written independently; the store does not enforce symmetry.

use vstd::prelude::*;

use crate::attr::{AttrVal, AttrValue, Record, RecV, rec_lookup, rec_wf};
use crate::codec::{encode_i32, encode_string, parse_i32, parse_string, spec_parse_i32,
    spec_parse_string};
use crate::deci::int_text;
use crate::errors::StoreError;
use crate::port::StoragePort;
use crate::store::{
    GetRequest, PutCondition, PutRequest, QueryRequest, TableKind, WriteOperation, recs_view,
    spec_query,
};

verus! {

/// The stored shape of a distance row.
pub struct SpatialV {
    pub city_code: Seq<char>,
    pub source_index: Seq<char>,
    pub destination_index: Seq<char>,
    pub duration_walk: int,
    pub duration_cycle: int,
    pub duration_drive: int,
    pub duration_transit: int,
}

/// Travel durations between one ordered pair of tiles, in whole seconds.
#[derive(Debug)]
pub struct SpatialDistanceItem {
    pub city_code: String,
    pub source_index: String,
    pub destination_index: String,
    pub duration_walk: i32,
    pub duration_cycle: i32,
    pub duration_drive: i32,
    pub duration_transit: i32,
}

impl Clone for SpatialDistanceItem {
    fn clone(&self) -> (r: Self)
        ensures
            r@ == self@,
    {
        SpatialDistanceItem {
            city_code: self.city_code.clone(),
            source_index: self.source_index.clone(),
            destination_index: self.destination_index.clone(),
            duration_walk: self.duration_walk,
            duration_cycle: self.duration_cycle,
            duration_drive: self.duration_drive,
            duration_transit: self.duration_transit,
        }
    }
}

impl View for SpatialDistanceItem {
    type V = SpatialV;

    open spec fn view(&self) -> SpatialV {
        SpatialV {
            city_code: self.city_code@,
            source_index: self.source_index@,
            destination_index: self.destination_index@,
            duration_walk: self.duration_walk as int,
            duration_cycle: self.duration_cycle as int,
            duration_drive: self.duration_drive as int,
            duration_transit: self.duration_transit as int,
        }
    }
}

/// The views of a row list.
pub open spec fn sdi_views(items: Seq<SpatialDistanceItem>) -> Seq<SpatialV> {
    Seq::new(items.len(), |i: int| items[i]@)
}

/// Durations that fit the wire's 32-bit number encoding.
pub open spec fn sdi_wf(v: SpatialV) -> bool {
    &&& -0x8000_0000 <= v.duration_walk <= 0x7fff_ffff
    &&& -0x8000_0000 <= v.duration_cycle <= 0x7fff_ffff
    &&& -0x8000_0000 <= v.duration_drive <= 0x7fff_ffff
    &&& -0x8000_0000 <= v.duration_transit <= 0x7fff_ffff
}

/// The record a distance row stores as.
pub open spec fn spec_sdi_to_rec(v: SpatialV) -> RecV {
    seq![
        ("CityCode"@, AttrVal::S(v.city_code)),
        ("SourceIndex"@, AttrVal::S(v.source_index)),
        ("DestinationIndex"@, AttrVal::S(v.destination_index)),
        ("DurationWalk"@, AttrVal::N(int_text(v.duration_walk))),
        ("DurationCycle"@, AttrVal::N(int_text(v.duration_cycle))),
        ("DurationDrive"@, AttrVal::N(int_text(v.duration_drive))),
        ("DurationTransit"@, AttrVal::N(int_text(v.duration_transit))),
    ]
}

/// The distance rows a stored record denotes.
pub open spec fn spec_sdi_from_rec(r: RecV) -> Result<SpatialV, StoreError> {
    match spec_parse_string(rec_lookup(r, "CityCode"@)) {
        Err(e) => Err(e),
        Ok(city_code) => match spec_parse_string(rec_lookup(r, "SourceIndex"@)) {
            Err(e) => Err(e),
            Ok(source_index) => match spec_parse_string(rec_lookup(r, "DestinationIndex"@)) {
                Err(e) => Err(e),
                Ok(destination_index) => match spec_parse_i32(rec_lookup(r, "DurationWalk"@)) {
                    Err(e) => Err(e),
                    Ok(duration_walk) => match spec_parse_i32(rec_lookup(r, "DurationCycle"@)) {
                        Err(e) => Err(e),
                        Ok(duration_cycle) => match spec_parse_i32(
                            rec_lookup(r, "DurationDrive"@),
                        ) {
                            Err(e) => Err(e),
                            Ok(duration_drive) => match spec_parse_i32(
                                rec_lookup(r, "DurationTransit"@),
                            ) {
                                Err(e) => Err(e),
                                Ok(duration_transit) => Ok(
                                    SpatialV {
                                        city_code,
                                        source_index,
                                        destination_index,
                                        duration_walk,
                                        duration_cycle,
                                        duration_drive,
                                        duration_transit,
                                    },
                                ),
                            },
                        },
                    },
                },
            },
        },
    }
}

/// The seven attribute names are pairwise distinct.
pub proof fn lemma_sdi_columns_distinct()
    ensures
        rec_wf(spec_sdi_to_rec(
            SpatialV {
                city_code: Seq::empty(),
                source_index: Seq::empty(),
                destination_index: Seq::empty(),
                duration_walk: 0,
                duration_cycle: 0,
                duration_drive: 0,
                duration_transit: 0,
            },
        )),
        forall|v: SpatialV| rec_wf(#[trigger] spec_sdi_to_rec(v)),
{
    reveal_strlit("CityCode");
    reveal_strlit("SourceIndex");
    reveal_strlit("DestinationIndex");
    reveal_strlit("DurationWalk");
    reveal_strlit("DurationCycle");
    reveal_strlit("DurationDrive");
    reveal_strlit("DurationTransit");
    assert("CityCode"@.len() == 8);
    assert("SourceIndex"@.len() == 11);
    assert("DestinationIndex"@.len() == 16);
    assert("DurationWalk"@.len() == 12);
    assert("DurationCycle"@.len() == 13);
    assert("DurationDrive"@.len() == 13);
    assert("DurationTransit"@.len() == 15);
    assert("DurationCycle"@[8] == 'C');
    assert("DurationDrive"@[8] == 'D');
    assert forall|v: SpatialV| rec_wf(#[trigger] spec_sdi_to_rec(v)) by {
        let r = spec_sdi_to_rec(v);
        assert(r[0].0 == "CityCode"@ && r[1].0 == "SourceIndex"@ && r[2].0
            == "DestinationIndex"@ && r[3].0 == "DurationWalk"@ && r[4].0 == "DurationCycle"@
            && r[5].0 == "DurationDrive"@ && r[6].0 == "DurationTransit"@);
    }
}

/// A saved distance row reads back as itself.
pub proof fn lemma_sdi_record_round_trip(v: SpatialV)
    requires
        sdi_wf(v),
    ensures
        spec_sdi_from_rec(spec_sdi_to_rec(v)) == Ok::<_, StoreError>(v),
{
    let r = spec_sdi_to_rec(v);
    lemma_sdi_columns_distinct();
    crate::assoc::lemma_assoc_first_match(r, "CityCode"@, 0);
    crate::assoc::lemma_assoc_first_match(r, "SourceIndex"@, 1);
    crate::assoc::lemma_assoc_first_match(r, "DestinationIndex"@, 2);
    crate::assoc::lemma_assoc_first_match(r, "DurationWalk"@, 3);
    crate::assoc::lemma_assoc_first_match(r, "DurationCycle"@, 4);
    crate::assoc::lemma_assoc_first_match(r, "DurationDrive"@, 5);
    crate::assoc::lemma_assoc_first_match(r, "DurationTransit"@, 6);
    crate::deci::lemma_int_text_round_trip(v.duration_walk);
    crate::deci::lemma_int_text_round_trip(v.duration_cycle);
    crate::deci::lemma_int_text_round_trip(v.duration_drive);
    crate::deci::lemma_int_text_round_trip(v.duration_transit);
}

/// The rows a query's record page denotes, first failure first.
pub open spec fn spec_decode_sdi_items(items: Seq<RecV>) -> Result<Seq<SpatialV>, StoreError>
    decreases items.len(),
{
    if items.len() == 0 {
        Ok(Seq::empty())
    } else {
        match spec_sdi_from_rec(items[0]) {
            Err(e) => Err(e),
            Ok(v) => match spec_decode_sdi_items(items.drop_first()) {
                Err(e) => Err(e),
                Ok(rest) => Ok(seq![v] + rest),
            },
        }
    }
}

impl SpatialDistanceItem {
    /// A distance row from its fields.
    pub fn new(
        city_code: String,
        source_index: String,
        destination_index: String,
        duration_walk: i32,
        duration_cycle: i32,
        duration_drive: i32,
        duration_transit: i32,
    ) -> (r: SpatialDistanceItem)
        ensures
            r@ == (SpatialV {
                city_code: city_code@,
                source_index: source_index@,
                destination_index: destination_index@,
                duration_walk: duration_walk as int,
                duration_cycle: duration_cycle as int,
                duration_drive: duration_drive as int,
                duration_transit: duration_transit as int,
            }),
    {
        SpatialDistanceItem {
            city_code,
            source_index,
            destination_index,
            duration_walk,
            duration_cycle,
            duration_drive,
            duration_transit,
        }
    }

    /// Builds this row from its stored record.
    pub fn from_map(rec: &Record) -> (r: Result<SpatialDistanceItem, StoreError>)
        ensures
            match r {
                Ok(item) => spec_sdi_from_rec(rec@) == Ok::<_, StoreError>(item@),
                Err(e) => spec_sdi_from_rec(rec@) == Err::<SpatialV, _>(e),
            },
    {
        let city_code = match parse_string(rec.get("CityCode")) {
            Ok(s) => s,
            Err(e) => {
                return Err(e);
            },
        };
        let source_index = match parse_string(rec.get("SourceIndex")) {
            Ok(s) => s,
            Err(e) => {
                return Err(e);
            },
        };
        let destination_index = match parse_string(rec.get("DestinationIndex")) {
            Ok(s) => s,
            Err(e) => {
                return Err(e);
            },
        };
        let duration_walk = match parse_i32(rec.get("DurationWalk")) {
            Ok(v) => v,
            Err(e) => {
                return Err(e);
            },
        };
        let duration_cycle = match parse_i32(rec.get("DurationCycle")) {
            Ok(v) => v,
            Err(e) => {
                return Err(e);
            },
        };
        let duration_drive = match parse_i32(rec.get("DurationDrive")) {
            Ok(v) => v,
            Err(e) => {
                return Err(e);
            },
        };
        let duration_transit = match parse_i32(rec.get("DurationTransit")) {
            Ok(v) => v,
            Err(e) => {
                return Err(e);
            },
        };
        Ok(
            SpatialDistanceItem {
                city_code,
                source_index,
                destination_index,
                duration_walk,
                duration_cycle,
                duration_drive,
                duration_transit,
            },
        )
    }

    /// The record this row stores as.
    pub fn to_record(&self) -> (r: Record)
        ensures
            r@ == spec_sdi_to_rec(self@),
            rec_wf(r@),
    {
        let mut rec = Record::new();
        proof {
            lemma_sdi_columns_distinct();
        }
        rec.push("CityCode", encode_string(&self.city_code));
        proof {
            crate::assoc::lemma_assoc_no_match(rec@, "SourceIndex"@);
        }
        rec.push("SourceIndex", encode_string(&self.source_index));
        proof {
            crate::assoc::lemma_assoc_no_match(rec@, "DestinationIndex"@);
        }
        rec.push("DestinationIndex", encode_string(&self.destination_index));
        proof {
            crate::assoc::lemma_assoc_no_match(rec@, "DurationWalk"@);
        }
        rec.push("DurationWalk", encode_i32(self.duration_walk));
        proof {
            crate::assoc::lemma_assoc_no_match(rec@, "DurationCycle"@);
        }
        rec.push("DurationCycle", encode_i32(self.duration_cycle));
        proof {
            crate::assoc::lemma_assoc_no_match(rec@, "DurationDrive"@);
        }
        rec.push("DurationDrive", encode_i32(self.duration_drive));
        proof {
            crate::assoc::lemma_assoc_no_match(rec@, "DurationTransit"@);
        }
        rec.push("DurationTransit", encode_i32(self.duration_transit));
        proof {
            assert(rec@ =~= spec_sdi_to_rec(self@));
        }
        rec
    }

    /// The unconditional overwrite that persists this row.
    pub fn save(&self) -> (r: WriteOperation)
        ensures
            r@ == crate::store::OpV::Put(
                TableKind::SpatialDistances,
                spec_sdi_to_rec(self@),
                PutCondition::Unconditional,
            ),
            crate::store::op_wf(r@),
    {
        WriteOperation::Put(
            PutRequest {
                table: TableKind::SpatialDistances,
                item: self.to_record(),
                condition: PutCondition::Unconditional,
            },
        )
    }

    /// The point lookup for one ordered pair of tiles.
    pub fn get(source_index: &String, destination_index: &String) -> (r: GetRequest)
        ensures
            r.table == TableKind::SpatialDistances,
            r.key@ == seq![
                ("SourceIndex"@, AttrVal::S(source_index@)),
                ("DestinationIndex"@, AttrVal::S(destination_index@)),
            ],
    {
        let mut key = Record::new();
        proof {
            lemma_sdi_columns_distinct();
            reveal_strlit("SourceIndex");
            reveal_strlit("DestinationIndex");
        }
        key.push("SourceIndex", encode_string(source_index));
        proof {
            crate::assoc::lemma_assoc_no_match(key@, "DestinationIndex"@);
        }
        key.push("DestinationIndex", encode_string(destination_index));
        proof {
            assert(key@ =~= seq![
                ("SourceIndex"@, AttrVal::S(source_index@)),
                ("DestinationIndex"@, AttrVal::S(destination_index@)),
            ]);
        }
        GetRequest { table: TableKind::SpatialDistances, key }
    }

    /// The query for every row keyed by a source tile.
    pub fn query_by_source_index(source_index: &String) -> (r: QueryRequest)
        ensures
            r.table == TableKind::SpatialDistances,
            r.index_name is None,
            r.field@ == "SourceIndex"@,
            r.value@ == AttrVal::S(source_index@),
            r.limit is None,
            r.exclusive_start_key is None,
    {
        QueryRequest {
            table: TableKind::SpatialDistances,
            index_name: None,
            field: "SourceIndex".to_owned(),
            value: AttrValue::S(source_index.clone()),
            limit: None,
            exclusive_start_key: None,
        }
    }

    /// The query for every row of a city, through its secondary access
    /// path.
    pub fn query_by_city(city_code: &String) -> (r: QueryRequest)
        ensures
            r.table == TableKind::SpatialDistances,
            r.field@ == "CityCode"@,
            r.value@ == AttrVal::S(city_code@),
            r.limit is None,
            r.exclusive_start_key is None,
    {
        QueryRequest {
            table: TableKind::SpatialDistances,
            index_name: Some("CityCodeIndex".to_owned()),
            field: "CityCode".to_owned(),
            value: AttrValue::S(city_code.clone()),
            limit: None,
            exclusive_start_key: None,
        }
    }

    /// Loads and decodes every row keyed by a source tile.
    pub fn list_by_source_from_db<P: StoragePort>(source_index: &String, port: &P) -> (r: Result<
        Vec<SpatialDistanceItem>,
        StoreError,
    >)
        requires
            port.inv(),
        ensures
            ({
                let q = spec_query(
                    port.model(),
                    TableKind::SpatialDistances,
                    "SourceIndex"@,
                    AttrVal::S(source_index@),
                    None,
                    None,
                );
                &&& q is Ok
                &&& match r {
                    Ok(items) => spec_decode_sdi_items(q->Ok_0.0) == Ok::<_, StoreError>(
                        sdi_views(items@),
                    ),
                    Err(e) => spec_decode_sdi_items(q->Ok_0.0) == Err::<Seq<SpatialV>, _>(e),
                }
            }),
    {
        let request = Self::query_by_source_index(source_index);
        let response = match port.query(&request) {
            Ok(resp) => resp,
            Err(_) => {
                return vstd::pervasive::unreached();
            },
        };
        decode_rows(response.items)
    }

    /// Loads and decodes every row of a city.
    pub fn list_by_city_from_db<P: StoragePort>(city_code: &String, port: &P) -> (r: Result<
        Vec<SpatialDistanceItem>,
        StoreError,
    >)
        requires
            port.inv(),
        ensures
            ({
                let q = spec_query(
                    port.model(),
                    TableKind::SpatialDistances,
                    "CityCode"@,
                    AttrVal::S(city_code@),
                    None,
                    None,
                );
                &&& q is Ok
                &&& match r {
                    Ok(items) => spec_decode_sdi_items(q->Ok_0.0) == Ok::<_, StoreError>(
                        sdi_views(items@),
                    ),
                    Err(e) => spec_decode_sdi_items(q->Ok_0.0) == Err::<Seq<SpatialV>, _>(e),
                }
            }),
    {
        let request = Self::query_by_city(city_code);
        let response = match port.query(&request) {
            Ok(resp) => resp,
            Err(_) => {
                return vstd::pervasive::unreached();
            },
        };
        decode_rows(response.items)
    }
}

/// Decodes a page of records into rows, stopping at the first failure.
fn decode_rows(items: Vec<Record>) -> (r: Result<Vec<SpatialDistanceItem>, StoreError>)
    ensures
        match r {
            Ok(out) => spec_decode_sdi_items(recs_view(items@)) == Ok::<_, StoreError>(
                sdi_views(out@),
            ),
            Err(e) => spec_decode_sdi_items(recs_view(items@)) == Err::<Seq<SpatialV>, _>(e),
        },
{
    let ghost iv = recs_view(items@);
    let mut out: Vec<SpatialDistanceItem> = Vec::new();
    let n = items.len();
    proof {
        assert(iv.skip(0) =~= iv);
        assert(sdi_views(out@) =~= Seq::<SpatialV>::empty());
        if spec_decode_sdi_items(iv) is Ok {
            assert(sdi_views(out@) + spec_decode_sdi_items(iv)->Ok_0 =~= spec_decode_sdi_items(
                iv,
            )->Ok_0);
        }
    }
    for i in 0..n
        invariant
            n == items@.len(),
            iv == recs_view(items@),
            spec_decode_sdi_items(iv) == (match spec_decode_sdi_items(iv.skip(i as int)) {
                Ok(rest) => Ok::<_, StoreError>(sdi_views(out@) + rest),
                Err(e) => Err::<Seq<SpatialV>, _>(e),
            }),
    {
        let ghost herev = iv.skip(i as int);
        proof {
            assert(herev[0] == iv[i as int]);
            assert(herev.drop_first() =~= iv.skip(i + 1));
        }
        let item = match SpatialDistanceItem::from_map(&items[i]) {
            Ok(v) => v,
            Err(e) => {
                proof {
                    assert(spec_sdi_from_rec(herev[0]) == Err::<SpatialV, StoreError>(e));
                }
                return Err(e);
            },
        };
        let ghost out0 = sdi_views(out@);
        out.push(item);
        proof {
            assert(sdi_views(out@) =~= out0.push(item@));
            if spec_decode_sdi_items(iv.skip(i + 1)) is Ok {
                let rest = spec_decode_sdi_items(iv.skip(i + 1))->Ok_0;
                assert(spec_decode_sdi_items(herev) == Ok::<_, StoreError>(seq![item@] + rest));
                assert(out0 + (seq![item@] + rest) =~= sdi_views(out@) + rest);
            }
        }
    }
    proof {
        assert(iv.skip(n as int) =~= Seq::<RecV>::empty());
        assert(sdi_views(out@) + Seq::<SpatialV>::empty() =~= sdi_views(out@));
    }
    Ok(out)
}


impl SpatialDistanceItem {
    /// Loads the row stored for one ordered pair: `Ok(None)` when absent,
    /// the record's own error when it does not parse.
    pub fn from_db<P: StoragePort>(
        source_index: &String,
        destination_index: &String,
        port: &P,
    ) -> (r: Result<Option<SpatialDistanceItem>, StoreError>)
        requires
            port.inv(),
        ensures
            ({
                let stored = crate::assoc::assoc_lookup(
                    crate::store::model_table(port.model(), TableKind::SpatialDistances),
                    crate::store::spec_join(source_index@, destination_index@),
                );
                match stored {
                    Option::None => r matches Ok(out) && out is None,
                    Option::Some(recv) => match spec_sdi_from_rec(recv) {
                        Ok(v) => (r matches Ok(Some(item)) && item@ == v),
                        Err(e) => r == Err::<Option<SpatialDistanceItem>, StoreError>(e),
                    },
                }
            }),
    {
        let get = Self::get(source_index, destination_index);
        proof {
            lemma_sdi_columns_distinct();
            crate::assoc::lemma_assoc_first_match(get.key@, "SourceIndex"@, 0);
            crate::assoc::lemma_assoc_first_match(get.key@, "DestinationIndex"@, 1);
        }
        let rec = match port.read_single(&get) {
            Ok(Some(rec)) => rec,
            Ok(None) => {
                return Ok(None);
            },
            Err(_) => {
                return vstd::pervasive::unreached();
            },
        };
        match Self::from_map(&rec) {
            Ok(item) => Ok(Some(item)),
            Err(e) => Err(e),
        }
    }
}

} // verus!
