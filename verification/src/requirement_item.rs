//! The requirement entity: a commute constraint's stored form, carrying
//! its computed per-tile scores. The tile list is stored in one string
//! attribute as a JSON object from tile index to tagged score, and is
//! fully replaced on every save of the same requirement id.

use vstd::prelude::*;

use crate::attr::{AttrVal, AttrValue, Record, RecV, rec_lookup, rec_wf};
use crate::codec::{
    encode_string, encode_uuid, parse_string, parse_uuid, spec_parse_string, spec_parse_uuid,
};
use crate::cursor::{enc_obj, lemma_obj_round_trip, parse_obj, parse_record_json,
    record_json_chars};
use crate::deci::{format_i32, int_text, parse_i32_chars, parse_i32_text};
use crate::errors::StoreError;
use crate::store::{GetRequest, PutCondition, PutRequest, TableKind, WriteOperation};
use crate::text::{chars_string, str_chars};
use crate::uid::{uuid_text, UuidValue};

verus! {

/// One scored tile: a geospatial cell index and its accessibility score.
#[derive(Debug)]
pub struct MapTile {
    pub h3_index: String,
    pub score: i32,
}

impl Clone for MapTile {
    fn clone(&self) -> (r: Self)
        ensures
            r@ == self@,
    {
        MapTile { h3_index: self.h3_index.clone(), score: self.score }
    }
}

impl View for MapTile {
    type V = (Seq<char>, int);

    open spec fn view(&self) -> (Seq<char>, int) {
        (self.h3_index@, self.score as int)
    }
}

/// The views of a tile list.
pub open spec fn tiles_view(tiles: Seq<MapTile>) -> Seq<(Seq<char>, int)> {
    Seq::new(tiles.len(), |i: int| tiles[i]@)
}

/// The tile list as the record the JSON object codec writes: each tile
/// index mapped to its score as a number attribute.
pub open spec fn tiles_rec(tiles: Seq<(Seq<char>, int)>) -> RecV {
    Seq::new(tiles.len(), |i: int| (tiles[i].0, AttrVal::N(int_text(tiles[i].1))))
}

/// The tile lists a stored record view denotes: every value must be a
/// number attribute holding a 32-bit score.
pub open spec fn tiles_from_rec(r: RecV) -> Result<Seq<(Seq<char>, int)>, StoreError>
    decreases r.len(),
{
    if r.len() == 0 {
        Ok(Seq::empty())
    } else {
        match r[0].1 {
            AttrVal::N(s) => match parse_i32_text(s) {
                Option::Some(v) => match tiles_from_rec(r.drop_first()) {
                    Ok(rest) => Ok(seq![(r[0].0, v)] + rest),
                    Err(e) => Err(e),
                },
                Option::None => Err(StoreError::TypeMismatch),
            },
            _ => Err(StoreError::TypeMismatch),
        }
    }
}

/// The text under the `MapTiles` attribute.
pub open spec fn spec_tiles_text(tiles: Seq<(Seq<char>, int)>) -> Seq<char> {
    enc_obj(tiles_rec(tiles))
}

/// The tile lists a `MapTiles` text denotes.
pub open spec fn spec_tiles_from_text(s: Seq<char>) -> Result<Seq<(Seq<char>, int)>, StoreError> {
    match parse_obj(s) {
        Option::Some(r) => tiles_from_rec(r),
        Option::None => Err(StoreError::TypeMismatch),
    }
}

/// A written tile list reads back as itself.
pub proof fn lemma_tiles_round_trip(tiles: Seq<(Seq<char>, int)>)
    requires
        forall|i: int|
            0 <= i < tiles.len() ==> -0x8000_0000 <= (#[trigger] tiles[i]).1 <= 0x7fff_ffff,
    ensures
        spec_tiles_from_text(spec_tiles_text(tiles)) == Ok::<_, StoreError>(tiles),
{
    lemma_obj_round_trip(tiles_rec(tiles));
    lemma_tiles_rec_round_trip(tiles);
}

/// Reading the written record back yields the tile list.
proof fn lemma_tiles_rec_round_trip(tiles: Seq<(Seq<char>, int)>)
    requires
        forall|i: int|
            0 <= i < tiles.len() ==> -0x8000_0000 <= (#[trigger] tiles[i]).1 <= 0x7fff_ffff,
    ensures
        tiles_from_rec(tiles_rec(tiles)) == Ok::<_, StoreError>(tiles),
    decreases tiles.len(),
{
    let r = tiles_rec(tiles);
    if tiles.len() == 0 {
        assert(r.len() == 0);
        assert(tiles =~= Seq::<(Seq<char>, int)>::empty());
    } else {
        crate::deci::lemma_int_text_round_trip(tiles[0].1);
        assert(r[0] == (tiles[0].0, AttrVal::N(int_text(tiles[0].1))));
        assert(parse_i32_text(int_text(tiles[0].1)) == Some(tiles[0].1));
        assert(r.drop_first() =~= tiles_rec(tiles.drop_first()));
        assert(forall|i: int|
            0 <= i < tiles.drop_first().len() ==> (#[trigger] tiles.drop_first()[i]) == tiles[i
                + 1]);
        lemma_tiles_rec_round_trip(tiles.drop_first());
        assert(tiles_from_rec(r.drop_first()) == Ok::<_, StoreError>(tiles.drop_first()));
        assert(tiles_from_rec(r) == Ok::<_, StoreError>(
            seq![(r[0].0, tiles[0].1)] + tiles.drop_first(),
        ));
        assert(seq![(r[0].0, tiles[0].1)] + tiles.drop_first() =~= tiles);
    }
}

/// The stored shape of a requirement.
pub struct RequirementV {
    pub city_code: Seq<char>,
    pub requirement_id: u128,
    pub map_tiles: Seq<(Seq<char>, int)>,
}

/// A user-defined commute requirement with its computed tile scores.
#[derive(Debug)]
pub struct RequirementItem {
    pub city_code: String,
    pub requirement_id: UuidValue,
    pub map_tiles: Vec<MapTile>,
}

impl View for RequirementItem {
    type V = RequirementV;

    open spec fn view(&self) -> RequirementV {
        RequirementV {
            city_code: self.city_code@,
            requirement_id: self.requirement_id.bits,
            map_tiles: tiles_view(self.map_tiles@),
        }
    }
}

/// Scores that fit the wire's 32-bit number encoding.
pub open spec fn req_wf(v: RequirementV) -> bool {
    forall|i: int|
        0 <= i < v.map_tiles.len() ==> -0x8000_0000 <= (#[trigger] v.map_tiles[i]).1
            <= 0x7fff_ffff
}

/// The record a requirement stores as.
pub open spec fn spec_req_to_rec(v: RequirementV) -> RecV {
    seq![
        ("CityCode"@, AttrVal::S(v.city_code)),
        ("RequirementId"@, AttrVal::S(uuid_text(v.requirement_id))),
        ("MapTiles"@, AttrVal::S(spec_tiles_text(v.map_tiles))),
    ]
}

/// The requirements a stored record denotes.
pub open spec fn spec_req_from_rec(r: RecV) -> Result<RequirementV, StoreError> {
    match spec_parse_string(rec_lookup(r, "CityCode"@)) {
        Err(e) => Err(e),
        Ok(city_code) => match spec_parse_uuid(rec_lookup(r, "RequirementId"@)) {
            Err(e) => Err(e),
            Ok(requirement_id) => match spec_parse_string(rec_lookup(r, "MapTiles"@)) {
                Err(e) => Err(e),
                Ok(tiles_text) => match spec_tiles_from_text(tiles_text) {
                    Err(e) => Err(e),
                    Ok(map_tiles) => Ok(RequirementV { city_code, requirement_id, map_tiles }),
                },
            },
        },
    }
}

/// The three attribute names are distinct.
pub proof fn lemma_req_columns_distinct()
    ensures
        "CityCode"@ != "RequirementId"@,
        "CityCode"@ != "MapTiles"@,
        "RequirementId"@ != "MapTiles"@,
{
    reveal_strlit("CityCode");
    reveal_strlit("RequirementId");
    reveal_strlit("MapTiles");
    assert("CityCode"@.len() == 8);
    assert("RequirementId"@.len() == 13);
    assert("MapTiles"@.len() == 8);
    assert("CityCode"@[0] == 'C');
    assert("MapTiles"@[0] == 'M');
}

/// A saved requirement reads back as itself: the record round trip of the
/// requirement entity.
pub proof fn lemma_req_record_round_trip(v: RequirementV)
    requires
        req_wf(v),
    ensures
        spec_req_from_rec(spec_req_to_rec(v)) == Ok::<_, StoreError>(v),
{
    let r = spec_req_to_rec(v);
    lemma_req_columns_distinct();
    crate::assoc::lemma_assoc_first_match(r, "CityCode"@, 0);
    crate::assoc::lemma_assoc_first_match(r, "RequirementId"@, 1);
    crate::assoc::lemma_assoc_first_match(r, "MapTiles"@, 2);
    assert(rec_lookup(r, "CityCode"@) == Some(AttrVal::S(v.city_code)));
    assert(rec_lookup(r, "RequirementId"@) == Some(AttrVal::S(uuid_text(v.requirement_id))));
    assert(rec_lookup(r, "MapTiles"@) == Some(AttrVal::S(spec_tiles_text(v.map_tiles))));
    crate::uid::lemma_uuid_text_round_trip(v.requirement_id);
    lemma_tiles_round_trip(v.map_tiles);
}

impl RequirementItem {
    /// A fresh requirement with its computed tiles.
    pub fn new(city_code: String, requirement_id: UuidValue, map_tiles: Vec<MapTile>) -> (r:
        RequirementItem)
        ensures
            r@.city_code == city_code@,
            r@.requirement_id == requirement_id.bits,
            r@.map_tiles == tiles_view(map_tiles@),
    {
        RequirementItem { city_code, requirement_id, map_tiles }
    }

    /// The tile list as its stored JSON text.
    pub fn serialise_map_tiles(&self) -> (r: String)
        ensures
            r@ == spec_tiles_text(self@.map_tiles),
    {
        let mut fields: Vec<(String, AttrValue)> = Vec::new();
        let n = self.map_tiles.len();
        for i in 0..n
            invariant
                n == self.map_tiles@.len(),
                crate::cursor::fields_view(fields@) =~= tiles_rec(
                    tiles_view(self.map_tiles@),
                ).take(i as int),
        {
            let tile = &self.map_tiles[i];
            let digits = format_i32(tile.score);
            let ghost fields0 = fields@;
            fields.push((tile.h3_index.clone(), AttrValue::N(chars_string(&digits))));
            proof {
                let tr = tiles_rec(tiles_view(self.map_tiles@));
                assert(tr[i as int] == (self.map_tiles@[i as int].h3_index@, AttrVal::N(
                    int_text(self.map_tiles@[i as int].score as int),
                )));
                assert(crate::cursor::fields_view(fields@) =~= crate::cursor::fields_view(
                    fields0,
                ).push(tr[i as int]));
                assert(tr.take(i + 1) =~= tr.take(i as int).push(tr[i as int]));
                assert(crate::cursor::fields_view(fields@) =~= tr.take(i + 1));
            }
        }
        let rec = Record { fields };
        proof {
            assert(rec@ =~= tiles_rec(tiles_view(self.map_tiles@)));
        }
        let json = record_json_chars(&rec);
        chars_string(&json)
    }

    /// Reads a tile list back from its stored JSON text.
    pub fn deserialise_map_tiles(text: &str) -> (r: Result<Vec<MapTile>, StoreError>)
        ensures
            match r {
                Ok(tiles) => spec_tiles_from_text(text@) == Ok::<_, StoreError>(
                    tiles_view(tiles@),
                ),
                Err(e) => spec_tiles_from_text(text@) == Err::<Seq<(Seq<char>, int)>, _>(e),
            },
    {
        let cs = str_chars(text);
        let rec = match parse_record_json(&cs) {
            Option::Some(rec) => rec,
            Option::None => {
                return Err(StoreError::TypeMismatch);
            },
        };
        let mut tiles: Vec<MapTile> = Vec::new();
        let n = rec.len();
        let ghost rv = rec@;
        proof {
            assert(rv.skip(0) =~= rv);
            assert(tiles_view(tiles@) =~= Seq::<(Seq<char>, int)>::empty());
            if tiles_from_rec(rv) is Ok {
                assert(tiles_view(tiles@) + tiles_from_rec(rv)->Ok_0 =~= tiles_from_rec(
                    rv,
                )->Ok_0);
            }
        }
        for i in 0..n
            invariant
                n == rv.len(),
                rv == rec@,
                parse_obj(text@) == Some(rv),
                tiles_from_rec(rv) == (match tiles_from_rec(rv.skip(i as int)) {
                    Ok(rest) => Ok::<_, StoreError>(tiles_view(tiles@) + rest),
                    Err(e) => Err::<Seq<(Seq<char>, int)>, _>(e),
                }),
        {
            let (name, value) = rec.field_at(i);
            let ghost herev = rv.skip(i as int);
            proof {
                assert(herev[0] == rv[i as int]);
                assert(herev.drop_first() =~= rv.skip(i + 1));
            }
            let score: i32 = match value {
                AttrValue::N(s) => {
                    let ds = str_chars(s.as_str());
                    match parse_i32_chars(&ds) {
                        Option::Some(v) => v,
                        Option::None => {
                            proof {
                                assert(tiles_from_rec(herev) == Err::<Seq<(Seq<char>, int)>,
                                    StoreError>(StoreError::TypeMismatch));
                            }
                            return Err(StoreError::TypeMismatch);
                        },
                    }
                },
                _ => {
                    proof {
                        assert(tiles_from_rec(herev) == Err::<Seq<(Seq<char>, int)>, StoreError>(
                            StoreError::TypeMismatch,
                        ));
                    }
                    return Err(StoreError::TypeMismatch);
                },
            };
            let ghost tiles0 = tiles_view(tiles@);
            tiles.push(MapTile { h3_index: name.clone(), score });
            proof {
                assert(tiles_view(tiles@) =~= tiles0.push((rv[i as int].0, score as int)));
                if tiles_from_rec(rv.skip(i + 1)) is Ok {
                    let rest = tiles_from_rec(rv.skip(i + 1))->Ok_0;
                    assert(tiles_from_rec(herev) == Ok::<_, StoreError>(
                        seq![(rv[i as int].0, score as int)] + rest,
                    ));
                    assert(tiles0 + (seq![(rv[i as int].0, score as int)] + rest) =~= tiles_view(
                        tiles@,
                    ) + rest);
                }
            }
        }
        proof {
            assert(rv.skip(n as int) =~= Seq::<(Seq<char>, AttrVal)>::empty());
            assert(tiles_view(tiles@) + Seq::<(Seq<char>, int)>::empty() =~= tiles_view(tiles@));
        }
        Ok(tiles)
    }

    /// Builds this requirement from its stored record.
    pub fn from_map(rec: &Record) -> (r: Result<RequirementItem, StoreError>)
        ensures
            match r {
                Ok(item) => spec_req_from_rec(rec@) == Ok::<_, StoreError>(item@),
                Err(e) => spec_req_from_rec(rec@) == Err::<RequirementV, _>(e),
            },
    {
        let city_code = match parse_string(rec.get("CityCode")) {
            Ok(s) => s,
            Err(e) => {
                return Err(e);
            },
        };
        let requirement_id = match parse_uuid(rec.get("RequirementId")) {
            Ok(u) => u,
            Err(e) => {
                return Err(e);
            },
        };
        let tiles_text = match parse_string(rec.get("MapTiles")) {
            Ok(s) => s,
            Err(e) => {
                return Err(e);
            },
        };
        let map_tiles = match Self::deserialise_map_tiles(tiles_text.as_str()) {
            Ok(t) => t,
            Err(e) => {
                return Err(e);
            },
        };
        Ok(RequirementItem { city_code, requirement_id, map_tiles })
    }

    /// The record this requirement stores as.
    pub fn to_record(&self) -> (r: Record)
        ensures
            r@ == spec_req_to_rec(self@),
            rec_wf(r@),
    {
        let mut rec = Record::new();
        proof {
            lemma_req_columns_distinct();
        }
        rec.push("CityCode", encode_string(&self.city_code));
        proof {
            crate::assoc::lemma_assoc_no_match(rec@, "RequirementId"@);
        }
        rec.push("RequirementId", encode_uuid(&self.requirement_id));
        proof {
            crate::assoc::lemma_assoc_no_match(rec@, "MapTiles"@);
        }
        rec.push("MapTiles", AttrValue::S(self.serialise_map_tiles()));
        proof {
            assert(rec@ =~= spec_req_to_rec(self@));
        }
        rec
    }

    /// The unconditional overwrite that persists this requirement,
    /// replacing any prior value under the same id.
    pub fn save(&self) -> (r: WriteOperation)
        ensures
            r@ == crate::store::OpV::Put(
                TableKind::Requirements,
                spec_req_to_rec(self@),
                PutCondition::Unconditional,
            ),
            crate::store::op_wf(r@),
    {
        WriteOperation::Put(
            PutRequest {
                table: TableKind::Requirements,
                item: self.to_record(),
                condition: PutCondition::Unconditional,
            },
        )
    }

    /// The point lookup for a requirement id.
    pub fn get(requirement_id: &UuidValue) -> (r: GetRequest)
        ensures
            r.table == TableKind::Requirements,
            r.key@ == seq![("RequirementId"@, AttrVal::S(uuid_text(requirement_id.bits)))],
    {
        let mut key = Record::new();
        key.push("RequirementId", encode_uuid(requirement_id));
        proof {
            assert(key@ =~= seq![("RequirementId"@, AttrVal::S(uuid_text(requirement_id.bits)))]);
        }
        GetRequest { table: TableKind::Requirements, key }
    }

    /// The unconditional delete of this requirement's key.
    pub fn delete(&self) -> (r: WriteOperation)
        ensures
            r@ == crate::store::OpV::Delete(
                TableKind::Requirements,
                seq![("RequirementId"@, AttrVal::S(uuid_text(self.requirement_id.bits)))],
                crate::store::DeleteCondition::Unconditional,
            ),
            crate::store::op_wf(r@),
    {
        let mut key = Record::new();
        key.push("RequirementId", encode_uuid(&self.requirement_id));
        proof {
            assert(key@ =~= seq![
                ("RequirementId"@, AttrVal::S(uuid_text(self.requirement_id.bits))),
            ]);
        }
        WriteOperation::Delete(
            crate::store::DeleteRequest {
                table: TableKind::Requirements,
                key,
                condition: crate::store::DeleteCondition::Unconditional,
            },
        )
    }
}


impl RequirementItem {
    /// Loads the requirement stored under an id: `Ok(None)` when the id is
    /// absent, the record's own error when it does not parse.
    pub fn from_db<P: crate::port::StoragePort>(requirement_id: &UuidValue, port: &P) -> (r:
        Result<Option<RequirementItem>, StoreError>)
        requires
            port.inv(),
        ensures
            ({
                let stored = crate::assoc::assoc_lookup(
                    crate::store::model_table(port.model(), TableKind::Requirements),
                    uuid_text(requirement_id.bits),
                );
                match stored {
                    Option::None => r matches Ok(out) && out is None,
                    Option::Some(recv) => match spec_req_from_rec(recv) {
                        Ok(v) => (r matches Ok(Some(item)) && item@ == v),
                        Err(e) => r == Err::<Option<RequirementItem>, StoreError>(e),
                    },
                }
            }),
    {
        let get = Self::get(requirement_id);
        proof {
            crate::assoc::lemma_assoc_first_match(get.key@, "RequirementId"@, 0);
        }
        let rec = match port.read_single(&get) {
            Ok(Some(rec)) => rec,
            Ok(None) => {
                return Ok(None);
            },
            Err(_) => {
                return vstd::pervasive::unreached();
            },
        };
        match Self::from_map(&rec) {
            Ok(item) => Ok(Some(item)),
            Err(e) => Err(e),
        }
    }
}

} // verus!
