//! The accessibility scoring engine: for one requirement, a normalized
//! score from 0 to 100 for every tile covering its city, from the minimum
//! anchor-to-tile travel duration; and the composite map that aggregates
//! several stored requirements by the minimum score per tile.

use vstd::prelude::*;

use crate::errors::StoreError;
use crate::requirement_item::{MapTile, RequirementItem, RequirementV, tiles_view};
use crate::spatial_distance_item::{SpatialDistanceItem, SpatialV, sdi_views};
use crate::uid::UuidValue;

verus! {

/// The travel mode a requirement tolerates its duration in.
#[derive(Clone, Copy, PartialEq, Eq, Structural, Debug)]
pub enum TravelMode {
    Driving,
    Walking,
    Bicycling,
    PublicTransport,
}

impl TravelMode {
    /// The directions-service name of the mode.
    pub fn as_str(&self) -> (r: &'static str)
        ensures
            r@ == self.spec_str(),
    {
        match self {
            TravelMode::Driving => "driving",
            TravelMode::Walking => "walking",
            TravelMode::Bicycling => "bicycling",
            TravelMode::PublicTransport => "transit",
        }
    }

    pub open spec fn spec_str(&self) -> Seq<char> {
        match self {
            TravelMode::Driving => "driving"@,
            TravelMode::Walking => "walking"@,
            TravelMode::Bicycling => "bicycling"@,
            TravelMode::PublicTransport => "transit"@,
        }
    }
}

/// One anchor location of a requirement, known to the scorer by its tile.
#[derive(Debug)]
pub struct Location {
    pub id: i32,
    pub address: String,
    pub h3_index: String,
}

/// The anchor tiles of a location list, in order.
pub open spec fn locs_h3(locs: Seq<Location>) -> Seq<Seq<char>> {
    Seq::new(locs.len(), |i: int| locs[i].h3_index@)
}

/// The duration field a travel mode selects.
pub open spec fn spec_mode_duration(v: SpatialV, mode: TravelMode) -> int {
    match mode {
        TravelMode::Driving => v.duration_drive,
        TravelMode::Walking => v.duration_walk,
        TravelMode::Bicycling => v.duration_cycle,
        TravelMode::PublicTransport => v.duration_transit,
    }
}

/// The duration stored for an ordered pair among the fetched rows; when a
/// pair appears more than once, the last row wins.
pub open spec fn spec_pair_duration(
    rows: Seq<SpatialV>,
    source: Seq<char>,
    dest: Seq<char>,
    mode: TravelMode,
) -> Option<int>
    decreases rows.len(),
{
    if rows.len() == 0 {
        None
    } else if rows.last().source_index == source && rows.last().destination_index == dest {
        Some(spec_mode_duration(rows.last(), mode))
    } else {
        spec_pair_duration(rows.drop_last(), source, dest, mode)
    }
}

/// The smaller of two optional durations; an absent pair simply does not
/// take part.
pub open spec fn opt_min(a: Option<int>, b: Option<int>) -> Option<int> {
    match (a, b) {
        (Option::Some(x), Option::Some(y)) => Some(
            if x <= y {
                x
            } else {
                y
            },
        ),
        (Option::Some(x), Option::None) => Some(x),
        (Option::None, Option::Some(y)) => Some(y),
        (Option::None, Option::None) => None,
    }
}

/// The minimum anchor-to-destination duration over the anchors, among the
/// pairs present in the fetched rows.
pub open spec fn spec_min_over_anchors(
    anchors: Seq<Seq<char>>,
    rows: Seq<SpatialV>,
    dest: Seq<char>,
    mode: TravelMode,
) -> Option<int>
    decreases anchors.len(),
{
    if anchors.len() == 0 {
        None
    } else {
        opt_min(
            spec_pair_duration(rows, anchors[0], dest, mode),
            spec_min_over_anchors(anchors.drop_first(), rows, dest, mode),
        )
    }
}

/// The duration the scorer assigns a destination tile: zero when the tile
/// is itself an anchor, else the minimum found duration, else nothing.
pub open spec fn spec_tile_duration(
    anchors: Seq<Seq<char>>,
    rows: Seq<SpatialV>,
    dest: Seq<char>,
    mode: TravelMode,
) -> Option<int> {
    if anchors.contains(dest) {
        Some(0)
    } else {
        spec_min_over_anchors(anchors, rows, dest, mode)
    }
}

/// The score of a duration: pairs absent from the rows exceed tolerance
/// and score zero; otherwise the duration's share of the tolerated
/// duration, inverted onto 0 to 100. The result is clamped into that
/// range, so a malformed negative duration can never push a score over
/// 100.
pub open spec fn spec_score(dur: Option<int>, tolerated: int) -> int {
    match dur {
        Option::None => 0,
        Option::Some(d) => {
            let q = (100 * d) / tolerated;
            if q >= 100 {
                0
            } else if q < 0 {
                100
            } else {
                100 - q
            }
        },
    }
}

/// The scored tiles of one requirement, one per enumerated city tile, in
/// enumeration order.
pub open spec fn spec_tile_scores(
    anchors: Seq<Seq<char>>,
    rows: Seq<SpatialV>,
    city_tiles: Seq<Seq<char>>,
    mode: TravelMode,
    tolerated: int,
) -> Seq<(Seq<char>, int)> {
    Seq::new(
        city_tiles.len(),
        |i: int|
            (
                city_tiles[i],
                spec_score(spec_tile_duration(anchors, rows, city_tiles[i], mode), tolerated),
            ),
    )
}

/// Scores stay within 0 to 100, whatever duration is found: the clamping
/// makes the bound unconditional.
pub proof fn lemma_score_bounds(dur: Option<int>, tolerated: int)
    requires
        tolerated >= 1,
    ensures
        0 <= spec_score(dur, tolerated) <= 100,
{
}

/// Looks up the travel-mode duration stored for one ordered pair among
/// the fetched rows.
fn pair_duration(
    rows: &Vec<SpatialDistanceItem>,
    source: &String,
    dest: &String,
    mode: &TravelMode,
) -> (r: Option<i32>)
    ensures
        match r {
            Some(d) => spec_pair_duration(sdi_views(rows@), source@, dest@, *mode) == Some(
                d as int,
            ),
            None => spec_pair_duration(sdi_views(rows@), source@, dest@, *mode) is None,
        },
{
    let ghost rv = sdi_views(rows@);
    let n = rows.len();
    let mut found: Option<i32> = None;
    for i in 0..n
        invariant
            n == rows@.len(),
            rv == sdi_views(rows@),
            match found {
                Option::Some(d) => spec_pair_duration(rv.take(i as int), source@, dest@, *mode)
                    == Some(d as int),
                Option::None => spec_pair_duration(rv.take(i as int), source@, dest@, *mode)
                    is None,
            },
    {
        let row = &rows[i];
        proof {
            assert(rv.take(i + 1).last() == rv[i as int]);
            assert(rv.take(i + 1).drop_last() =~= rv.take(i as int));
        }
        if row.source_index == *source && row.destination_index == *dest {
            let d = match mode {
                TravelMode::Driving => row.duration_drive,
                TravelMode::Walking => row.duration_walk,
                TravelMode::Bicycling => row.duration_cycle,
                TravelMode::PublicTransport => row.duration_transit,
            };
            found = Some(d);
        }
    }
    proof {
        assert(rv.take(n as int) =~= rv);
    }
    found
}

/// The minimum anchor-to-destination duration across the requirement's
/// locations.
fn min_over_anchors(
    locations: &Vec<Location>,
    rows: &Vec<SpatialDistanceItem>,
    dest: &String,
    mode: &TravelMode,
) -> (r: Option<i32>)
    ensures
        match r {
            Some(d) => spec_min_over_anchors(locs_h3(locations@), sdi_views(rows@), dest@, *mode)
                == Some(d as int),
            None => spec_min_over_anchors(locs_h3(locations@), sdi_views(rows@), dest@, *mode)
                is None,
        },
{
    let ghost anchors = locs_h3(locations@);
    let ghost rv = sdi_views(rows@);
    let n = locations.len();
    let mut best: Option<i32> = None;
    proof {
        assert(anchors.skip(0) =~= anchors);
    }
    for i in 0..n
        invariant
            n == locations@.len(),
            anchors == locs_h3(locations@),
            rv == sdi_views(rows@),
            spec_min_over_anchors(anchors, rv, dest@, *mode) == opt_min(
                match best {
                    Option::Some(d) => Some(d as int),
                    Option::None => None,
                },
                spec_min_over_anchors(anchors.skip(i as int), rv, dest@, *mode),
            ),
    {
        let ghost herev = anchors.skip(i as int);
        proof {
            assert(herev[0] == anchors[i as int]);
            assert(herev.drop_first() =~= anchors.skip(i + 1));
        }
        let loc = &locations[i];
        match pair_duration(rows, &loc.h3_index, dest, mode) {
            Option::Some(d) => {
                best = match best {
                    Option::Some(b) => if d <= b {
                        Some(d)
                    } else {
                        Some(b)
                    },
                    Option::None => Some(d),
                };
            },
            Option::None => {},
        }
    }
    proof {
        assert(anchors.skip(n as int) =~= Seq::<Seq<char>>::empty());
    }
    best
}

/// Whether the destination tile is itself one of the anchors.
fn is_anchor(locations: &Vec<Location>, dest: &String) -> (r: bool)
    ensures
        r == locs_h3(locations@).contains(dest@),
{
    let ghost anchors = locs_h3(locations@);
    let n = locations.len();
    for i in 0..n
        invariant
            n == locations@.len(),
            anchors == locs_h3(locations@),
            forall|k: int| 0 <= k < i ==> anchors[k] != dest@,
    {
        if locations[i].h3_index == *dest {
            proof {
                assert(anchors[i as int] == dest@);
            }
            return true;
        }
    }
    proof {
        assert(!anchors.contains(dest@));
    }
    false
}

/// Computes the scored tile list of one requirement: for every enumerated
/// city tile, in order, the 0-to-100 score of its best anchor duration.
pub fn compute_tile_scores(
    locations: &Vec<Location>,
    rows: &Vec<SpatialDistanceItem>,
    city_tiles: &Vec<String>,
    mode: &TravelMode,
    tolerated_duration: i32,
) -> (tiles: Vec<MapTile>)
    requires
        tolerated_duration >= 1,
    ensures
        tiles_view(tiles@) == spec_tile_scores(
            locs_h3(locations@),
            sdi_views(rows@),
            Seq::new(city_tiles@.len(), |i: int| city_tiles@[i]@),
            *mode,
            tolerated_duration as int,
        ),
        forall|i: int| 0 <= i < tiles@.len() ==> 0 <= (#[trigger] tiles@[i]).score <= 100,
{
    let ghost anchors = locs_h3(locations@);
    let ghost rv = sdi_views(rows@);
    let ghost ctv = Seq::new(city_tiles@.len(), |i: int| city_tiles@[i]@);
    let mut tiles: Vec<MapTile> = Vec::new();
    let n = city_tiles.len();
    for i in 0..n
        invariant
            n == city_tiles@.len(),
            anchors == locs_h3(locations@),
            rv == sdi_views(rows@),
            ctv == Seq::new(city_tiles@.len(), |k: int| city_tiles@[k]@),
            tolerated_duration >= 1,
            tiles_view(tiles@) =~= spec_tile_scores(anchors, rv, ctv, *mode, tolerated_duration as int).take(i as int),
            forall|k: int| 0 <= k < tiles@.len() ==> 0 <= (#[trigger] tiles@[k]).score <= 100,
    {
        let dest = &city_tiles[i];
        let dur: Option<i32> = if is_anchor(locations, dest) {
            Some(0)
        } else {
            min_over_anchors(locations, rows, dest, mode)
        };
        proof {
            match dur {
                Option::Some(d) => {
                    assert(spec_tile_duration(anchors, rv, dest@, *mode) == Some(d as int));
                },
                Option::None => {
                    assert(spec_tile_duration(anchors, rv, dest@, *mode) is None);
                },
            }
        }
        let score: i32 = match dur {
            Option::Some(d) => {
                if d < 0 {
                    proof {
                        assert((100 * (d as int)) / (tolerated_duration as int) < 0)
                            by (nonlinear_arith)
                            requires
                                (d as int) < 0,
                                (tolerated_duration as int) >= 1,
                        ;
                    }
                    100
                } else {
                    let q: i64 = (100i64 * (d as i64)) / (tolerated_duration as i64);
                    proof {
                        assert((100 * (d as int)) / (tolerated_duration as int) >= 0)
                            by (nonlinear_arith)
                            requires
                                (d as int) >= 0,
                                (tolerated_duration as int) >= 1,
                        ;
                    }
                    if q >= 100 {
                        0
                    } else {
                        (100 - q) as i32
                    }
                }
            },
            Option::None => 0,
        };
        proof {
            assert(score as int == spec_score(
                spec_tile_duration(anchors, rv, dest@, *mode),
                tolerated_duration as int,
            ));
        }
        let ghost tiles0 = tiles_view(tiles@);
        tiles.push(MapTile { h3_index: dest.clone(), score });
        proof {
            let full = spec_tile_scores(anchors, rv, ctv, *mode, tolerated_duration as int);
            assert(tiles_view(tiles@) =~= tiles0.push((dest@, score as int)));
            assert(full[i as int] == (ctv[i as int], spec_score(
                spec_tile_duration(anchors, rv, ctv[i as int], *mode),
                tolerated_duration as int,
            )));
            assert(full.take(i + 1) =~= full.take(i as int).push(full[i as int]));
            assert(tiles_view(tiles@) =~= full.take(i + 1));
        }
    }
    proof {
        let full = spec_tile_scores(anchors, rv, ctv, *mode, tolerated_duration as int);
        assert(full.take(n as int) =~= full);
    }
    tiles
}


/// The inputs of a scoring request: the requirement's identity, city,
/// mode, anchors and tolerated duration in seconds.
#[derive(Debug)]
pub struct ScoreRequest {
    pub requirement_id: UuidValue,
    pub city_code: String,
    pub travel_mode: TravelMode,
    pub locations: Vec<Location>,
    pub tolerated_duration: i32,
}

/// The views of a string list.
pub open spec fn str_views(v: Seq<String>) -> Seq<Seq<char>> {
    Seq::new(v.len(), |i: int| v[i]@)
}

/// The distinct values of a list, each at its first appearance.
pub open spec fn distinct_firsts(v: Seq<Seq<char>>) -> Seq<Seq<char>>
    decreases v.len(),
{
    if v.len() == 0 {
        Seq::empty()
    } else {
        let pre = distinct_firsts(v.drop_last());
        if pre.contains(v.last()) {
            pre
        } else {
            pre.push(v.last())
        }
    }
}

/// Whether a string list holds a value.
fn contains_string(v: &Vec<String>, s: &String) -> (r: bool)
    ensures
        r == str_views(v@).contains(s@),
{
    let n = v.len();
    for i in 0..n
        invariant
            n == v@.len(),
            forall|k: int| 0 <= k < i ==> str_views(v@)[k] != s@,
    {
        if v[i] == *s {
            proof {
                assert(str_views(v@)[i as int] == s@);
            }
            return true;
        }
    }
    proof {
        assert(!str_views(v@).contains(s@));
    }
    false
}

/// The distinct anchor tiles of the locations, in first-seen order.
fn distinct_sources(locations: &Vec<Location>) -> (r: Vec<String>)
    ensures
        str_views(r@) == distinct_firsts(locs_h3(locations@)),
{
    let ghost anchors = locs_h3(locations@);
    let mut out: Vec<String> = Vec::new();
    let n = locations.len();
    for i in 0..n
        invariant
            n == locations@.len(),
            anchors == locs_h3(locations@),
            str_views(out@) =~= distinct_firsts(anchors.take(i as int)),
    {
        proof {
            assert(anchors.take(i + 1).drop_last() =~= anchors.take(i as int));
            assert(anchors.take(i + 1).last() == anchors[i as int]);
        }
        if !contains_string(&out, &locations[i].h3_index) {
            let ghost out0 = str_views(out@);
            out.push(locations[i].h3_index.clone());
            proof {
                assert(str_views(out@) =~= out0.push(anchors[i as int]));
            }
        }
        proof {
            assert(str_views(out@) =~= distinct_firsts(anchors.take(i + 1)));
        }
    }
    proof {
        assert(anchors.take(n as int) =~= anchors);
    }
    out
}

/// The distance rows the scoring flow works from: for each distinct
/// anchor, in order, the decoded result of the query keyed by that anchor,
/// concatenated; the first decode failure fails the whole gather.
pub open spec fn gather_rows(m: crate::store::StoreModel, sources: Seq<Seq<char>>) -> Result<
    Seq<SpatialV>,
    StoreError,
>
    decreases sources.len(),
{
    if sources.len() == 0 {
        Ok(Seq::empty())
    } else {
        let q = crate::store::spec_query(
            m,
            crate::store::TableKind::SpatialDistances,
            "SourceIndex"@,
            crate::attr::AttrVal::S(sources[0]),
            None,
            None,
        );
        match crate::spatial_distance_item::spec_decode_sdi_items(q->Ok_0.0) {
            Err(e) => Err(e),
            Ok(rows) => match gather_rows(m, sources.drop_first()) {
                Err(e) => Err(e),
                Ok(rest) => Ok(rows + rest),
            },
        }
    }
}

/// Scores one requirement against the stored distances and persists it:
/// one query per distinct anchor, one score per enumerated city tile, and
/// one unconditional overwrite under the requirement id.
pub fn score_and_store<P: crate::port::StoragePort>(
    port: &mut P,
    request: &ScoreRequest,
    city_tiles: &Vec<String>,
) -> (r: Result<RequirementItem, StoreError>)
    requires
        old(port).inv(),
        request.tolerated_duration >= 1,
    ensures
        final(port).inv(),
        ({
            let m0 = old(port).model();
            let anchors = locs_h3(request.locations@);
            let ctv = Seq::new(city_tiles@.len(), |i: int| city_tiles@[i]@);
            match gather_rows(m0, distinct_firsts(anchors)) {
                Err(e) => r == Err::<RequirementItem, StoreError>(e) && final(port).model() == m0,
                Ok(rows) => {
                    let item_v = RequirementV {
                        city_code: request.city_code@,
                        requirement_id: request.requirement_id.bits,
                        map_tiles: spec_tile_scores(
                            anchors,
                            rows,
                            ctv,
                            request.travel_mode,
                            request.tolerated_duration as int,
                        ),
                    };
                    match crate::store::spec_apply_op(
                        m0,
                        crate::store::OpV::Put(
                            crate::store::TableKind::Requirements,
                            crate::requirement_item::spec_req_to_rec(item_v),
                            crate::store::PutCondition::Unconditional,
                        ),
                    ) {
                        Ok(m2) => (r matches Ok(item) && item@ == item_v && final(port).model()
                            == m2),
                        Err(e) => r == Err::<RequirementItem, StoreError>(e)
                            && final(port).model() == m0,
                    }
                },
            }
        }),
{
    let ghost m0 = port.model();
    let ghost anchors = locs_h3(request.locations@);
    let sources = distinct_sources(&request.locations);
    let ghost srcs = str_views(sources@);
    let mut rows: Vec<SpatialDistanceItem> = Vec::new();
    let n = sources.len();
    proof {
        assert(srcs.skip(0) =~= srcs);
        assert(sdi_views(rows@) =~= Seq::<SpatialV>::empty());
        if gather_rows(m0, srcs) is Ok {
            assert(sdi_views(rows@) + gather_rows(m0, srcs)->Ok_0 =~= gather_rows(m0, srcs)->Ok_0);
        }
    }
    for i in 0..n
        invariant
            n == sources@.len(),
            srcs == str_views(sources@),
            anchors == locs_h3(request.locations@),
            srcs == distinct_firsts(anchors),
            port.inv(),
            port.model() == m0,
            m0 == old(port).model(),
            gather_rows(m0, srcs) == (match gather_rows(m0, srcs.skip(i as int)) {
                Ok(rest) => Ok::<Seq<SpatialV>, StoreError>(sdi_views(rows@) + rest),
                Err(e) => Err::<Seq<SpatialV>, StoreError>(e),
            }),
    {
        let ghost herev = srcs.skip(i as int);
        proof {
            assert(herev[0] == srcs[i as int]);
            assert(herev.drop_first() =~= srcs.skip(i + 1));
        }
        let fetched = match crate::spatial_distance_item::SpatialDistanceItem::list_by_source_from_db(
            &sources[i],
            port,
        ) {
            Ok(items) => items,
            Err(e) => {
                proof {
                    assert(gather_rows(m0, herev) == Err::<Seq<SpatialV>, StoreError>(e));
                }
                return Err(e);
            },
        };
        let ghost rows0 = sdi_views(rows@);
        let ghost fv = sdi_views(fetched@);
        let mut fetched = fetched;
        rows.append(&mut fetched);
        proof {
            assert(sdi_views(rows@) =~= rows0 + fv);
            if gather_rows(m0, srcs.skip(i + 1)) is Ok {
                let rest = gather_rows(m0, srcs.skip(i + 1))->Ok_0;
                assert(gather_rows(m0, herev) == Ok::<Seq<SpatialV>, StoreError>(fv + rest));
                assert(rows0 + (fv + rest) =~= sdi_views(rows@) + rest);
            }
        }
    }
    proof {
        assert(srcs.skip(n as int) =~= Seq::<Seq<char>>::empty());
        assert(sdi_views(rows@) + Seq::<SpatialV>::empty() =~= sdi_views(rows@));
    }
    let map_tiles = compute_tile_scores(
        &request.locations,
        &rows,
        city_tiles,
        &request.travel_mode,
        request.tolerated_duration,
    );
    let item = RequirementItem::new(request.city_code.clone(), request.requirement_id, map_tiles);
    let op = item.save();
    match port.write_single(op) {
        Ok(_) => Ok(item),
        Err(e) => Err(e),
    }
}


/// One requirement's contribution to a tile of the composite map.
#[derive(Debug)]
pub struct RequirementScore {
    pub requirement_id: UuidValue,
    pub score: i32,
}

impl Clone for RequirementScore {
    fn clone(&self) -> (r: Self)
        ensures
            r@ == self@,
    {
        RequirementScore { requirement_id: self.requirement_id, score: self.score }
    }
}

impl View for RequirementScore {
    type V = (u128, int);

    open spec fn view(&self) -> (u128, int) {
        (self.requirement_id.bits, self.score as int)
    }
}

/// One tile of the composite map: its minimum score across the
/// contributing requirements, and the contributions themselves.
#[derive(Debug)]
pub struct TileAggregate {
    pub h3_index: String,
    pub score: i32,
    pub requirement_scores: Vec<RequirementScore>,
}

/// The view of one composite tile.
pub open spec fn agg_view(t: TileAggregate) -> (Seq<char>, int, Seq<(u128, int)>) {
    (t.h3_index@, t.score as int, Seq::new(t.requirement_scores@.len(), |i: int| t.requirement_scores@[i]@))
}

/// The views of a composite map.
pub open spec fn aggs_view(v: Seq<TileAggregate>) -> Seq<(Seq<char>, int, Seq<(u128, int)>)> {
    Seq::new(v.len(), |i: int| agg_view(v[i]))
}

/// One scored entry: tile, contributing requirement, score.
pub type EntryV = (Seq<char>, u128, int);

/// The entries of one requirement, in tile order.
pub open spec fn entries_of(v: RequirementV) -> Seq<EntryV> {
    Seq::new(v.map_tiles.len(), |i: int| (v.map_tiles[i].0, v.requirement_id, v.map_tiles[i].1))
}

/// All entries of the loaded requirements, in requirement order.
pub open spec fn all_entries(items: Seq<RequirementV>) -> Seq<EntryV>
    decreases items.len(),
{
    if items.len() == 0 {
        Seq::empty()
    } else {
        all_entries(items.drop_last()) + entries_of(items.last())
    }
}

/// The tiles of the entries, in entry order.
pub open spec fn entry_tiles(entries: Seq<EntryV>) -> Seq<Seq<char>> {
    Seq::new(entries.len(), |i: int| entries[i].0)
}

/// The entries scored for one tile, in entry order.
pub open spec fn tile_entries(entries: Seq<EntryV>, tile: Seq<char>) -> Seq<EntryV>
    decreases entries.len(),
{
    if entries.len() == 0 {
        Seq::empty()
    } else {
        let rest = tile_entries(entries.drop_last(), tile);
        if entries.last().0 == tile {
            rest.push(entries.last())
        } else {
            rest
        }
    }
}

/// The minimum score among entries; zero for no entries.
pub open spec fn min_entry_score(entries: Seq<EntryV>) -> int
    decreases entries.len(),
{
    if entries.len() == 0 {
        0
    } else if entries.len() == 1 {
        entries[0].2
    } else {
        let m = min_entry_score(entries.drop_last());
        if entries.last().2 <= m {
            entries.last().2
        } else {
            m
        }
    }
}

/// The composite map of the loaded requirements: each scored tile once, in
/// first-seen order, with the minimum score across its contributions. A
/// tile no requirement scored does not appear.
pub open spec fn spec_aggregate(items: Seq<RequirementV>) -> Seq<(Seq<char>, int, Seq<(u128, int)>)> {
    let entries = all_entries(items);
    let tiles = distinct_firsts(entry_tiles(entries));
    Seq::new(
        tiles.len(),
        |i: int|
            {
                let te = tile_entries(entries, tiles[i]);
                (tiles[i], min_entry_score(te), Seq::new(te.len(), |k: int| (te[k].1, te[k].2)))
            },
    )
}

/// Flattens the loaded requirements into scored entries.
fn collect_entries(items: &Vec<RequirementItem>) -> (r: Vec<(String, UuidValue, i32)>)
    ensures
        Seq::new(r@.len(), |i: int| (r@[i].0@, r@[i].1.bits, r@[i].2 as int)) == all_entries(
            Seq::new(items@.len(), |i: int| items@[i]@),
        ),
{
    let ghost iv = Seq::new(items@.len(), |i: int| items@[i]@);
    let mut out: Vec<(String, UuidValue, i32)> = Vec::new();
    let n = items.len();
    for i in 0..n
        invariant
            n == items@.len(),
            iv == Seq::new(items@.len(), |k: int| items@[k]@),
            Seq::new(out@.len(), |k: int| (out@[k].0@, out@[k].1.bits, out@[k].2 as int))
                =~= all_entries(iv.take(i as int)),
    {
        let item = &items[i];
        let m = item.map_tiles.len();
        proof {
            assert(iv.take(i + 1).drop_last() =~= iv.take(i as int));
            assert(iv.take(i + 1).last() == iv[i as int]);
        }
        for j in 0..m
            invariant
                m == item.map_tiles@.len(),
                iv == Seq::new(items@.len(), |k: int| items@[k]@),
                n == items@.len(),
                i < n,
                item@ == iv[i as int],
                Seq::new(out@.len(), |k: int| (out@[k].0@, out@[k].1.bits, out@[k].2 as int))
                    =~= all_entries(iv.take(i as int)) + entries_of(iv[i as int]).take(j as int),
        {
            let tile = &item.map_tiles[j];
            let ghost prev = Seq::new(out@.len(), |k: int| (out@[k].0@, out@[k].1.bits, out@[k].2
                as int));
            out.push((tile.h3_index.clone(), item.requirement_id, tile.score));
            proof {
                assert(Seq::new(out@.len(), |k: int| (out@[k].0@, out@[k].1.bits, out@[k].2
                    as int)) =~= prev.push(
                    (tile.h3_index@, item.requirement_id.bits, tile.score as int),
                ));
                assert(entries_of(iv[i as int]).take(j + 1) =~= entries_of(iv[i as int]).take(
                    j as int,
                ).push(entries_of(iv[i as int])[j as int]));
                assert(iv[i as int].map_tiles == crate::requirement_item::tiles_view(
                    item.map_tiles@,
                ));
                assert(iv[i as int].map_tiles[j as int] == (
                    item.map_tiles@[j as int].h3_index@,
                    item.map_tiles@[j as int].score as int,
                ));
                assert(entries_of(iv[i as int])[j as int] == (
                    item.map_tiles@[j as int].h3_index@,
                    item.requirement_id.bits,
                    item.map_tiles@[j as int].score as int,
                ));
                assert(Seq::new(out@.len(), |k: int| (out@[k].0@, out@[k].1.bits, out@[k].2 as int))
                    =~= all_entries(iv.take(i as int)) + entries_of(iv[i as int]).take(j + 1));
            }
        }
        proof {
            assert(entries_of(iv[i as int]).take(m as int) =~= entries_of(iv[i as int]));
            assert(all_entries(iv.take(i + 1)) =~= all_entries(iv.take(i as int)) + entries_of(
                iv[i as int],
            ));
        }
    }
    proof {
        assert(iv.take(n as int) =~= iv);
    }
    out
}

/// Aggregates loaded requirements into the composite map: group by tile in
/// first-seen order, composite score the minimum across contributions.
pub fn aggregate_requirements(items: &Vec<RequirementItem>) -> (r: Vec<TileAggregate>)
    ensures
        aggs_view(r@) == spec_aggregate(Seq::new(items@.len(), |i: int| items@[i]@)),
{
    let ghost iv = Seq::new(items@.len(), |i: int| items@[i]@);
    let entries = collect_entries(items);
    let ghost ev = all_entries(iv);
    proof {
        assert(Seq::new(entries@.len(), |i: int| (entries@[i].0@, entries@[i].1.bits, entries@[i].2
            as int)) == ev);
    }
    // the tiles, each at its first appearance
    let mut tiles: Vec<String> = Vec::new();
    let n = entries.len();
    proof {
        assert(ev.len() == entries@.len());
    }
    for i in 0..n
        invariant
            n == entries@.len(),
            ev == Seq::new(entries@.len(), |k: int| (entries@[k].0@, entries@[k].1.bits,
                entries@[k].2 as int)),
            str_views(tiles@) =~= distinct_firsts(entry_tiles(ev).take(i as int)),
    {
        proof {
            assert(entry_tiles(ev).take(i + 1).drop_last() =~= entry_tiles(ev).take(i as int));
            assert(entry_tiles(ev).take(i + 1).last() == entry_tiles(ev)[i as int]);
            assert(entry_tiles(ev)[i as int] == entries@[i as int].0@);
        }
        if !contains_string(&tiles, &entries[i].0) {
            let ghost t0 = str_views(tiles@);
            tiles.push(entries[i].0.clone());
            proof {
                assert(str_views(tiles@) =~= t0.push(entry_tiles(ev)[i as int]));
            }
        }
        proof {
            assert(str_views(tiles@) =~= distinct_firsts(entry_tiles(ev).take(i + 1)));
        }
    }
    proof {
        assert(entry_tiles(ev).take(n as int) =~= entry_tiles(ev));
    }
    let ghost tv = distinct_firsts(entry_tiles(ev));
    // one composite row per tile
    let mut out: Vec<TileAggregate> = Vec::new();
    let tn = tiles.len();
    for t in 0..tn
        invariant
            tn == tiles@.len(),
            str_views(tiles@) == tv,
            tv == distinct_firsts(entry_tiles(ev)),
            n == entries@.len(),
            ev == Seq::new(entries@.len(), |k: int| (entries@[k].0@, entries@[k].1.bits,
                entries@[k].2 as int)),
            aggs_view(out@) =~= spec_aggregate(iv).take(t as int),
            iv == Seq::new(items@.len(), |k: int| items@[k]@),
            ev == all_entries(iv),
    {
        let tile = &tiles[t];
        proof {
            assert(tv[t as int] == tile@);
        }
        // scan the entries for this tile, tracking the minimum
        let mut contribs: Vec<RequirementScore> = Vec::new();
        let mut best: i32 = 0;
        for i in 0..n
            invariant
                n == entries@.len(),
                ev == Seq::new(entries@.len(), |k: int| (entries@[k].0@, entries@[k].1.bits,
                    entries@[k].2 as int)),
                contribs@.len() == tile_entries(ev.take(i as int), tile@).len(),
                Seq::new(contribs@.len(), |k: int| contribs@[k]@) =~= Seq::new(
                    tile_entries(ev.take(i as int), tile@).len(),
                    |k: int|
                        (
                            tile_entries(ev.take(i as int), tile@)[k].1,
                            tile_entries(ev.take(i as int), tile@)[k].2,
                        ),
                ),
                best as int == min_entry_score(tile_entries(ev.take(i as int), tile@)),
        {
            proof {
                assert(ev.take(i + 1).drop_last() =~= ev.take(i as int));
                assert(ev.take(i + 1).last() == ev[i as int]);
                assert(ev[i as int] == (entries@[i as int].0@, entries@[i as int].1.bits,
                    entries@[i as int].2 as int));
            }
            if entries[i].0 == *tile {
                let ghost te0 = tile_entries(ev.take(i as int), tile@);
                let sc = entries[i].2;
                if contribs.len() == 0 {
                    best = sc;
                } else if sc <= best {
                    best = sc;
                }
                proof {
                    assert(contribs@.len() == te0.len());
                    let te1 = tile_entries(ev.take(i + 1), tile@);
                    assert(te1 =~= te0.push(ev[i as int]));
                    if te0.len() == 0 {
                        assert(min_entry_score(te1) == sc as int);
                    } else {
                        assert(te1.drop_last() =~= te0);
                        assert(min_entry_score(te1) == (if ev[i as int].2 <= min_entry_score(te0) {
                            ev[i as int].2
                        } else {
                            min_entry_score(te0)
                        }));
                    }
                }
                let ghost c0 = Seq::new(contribs@.len(), |k: int| contribs@[k]@);
                contribs.push(RequirementScore { requirement_id: entries[i].1, score: sc });
                proof {
                    assert(Seq::new(contribs@.len(), |k: int| contribs@[k]@) =~= c0.push(
                        (ev[i as int].1, ev[i as int].2),
                    ));
                    let te1 = tile_entries(ev.take(i + 1), tile@);
                    assert(Seq::new(contribs@.len(), |k: int| contribs@[k]@) =~= Seq::new(
                        te1.len(),
                        |k: int| (te1[k].1, te1[k].2),
                    ));
                }
            } else {
                proof {
                    assert(tile_entries(ev.take(i + 1), tile@) =~= tile_entries(
                        ev.take(i as int),
                        tile@,
                    ));
                }
            }
        }
        proof {
            assert(ev.take(n as int) =~= ev);
        }
        let ghost out0 = aggs_view(out@);
        out.push(TileAggregate { h3_index: tile.clone(), score: best, requirement_scores: contribs });
        proof {
            let full = spec_aggregate(iv);
            assert(aggs_view(out@) =~= out0.push(agg_view(out@[out@.len() - 1])));
            let te = tile_entries(ev, tv[t as int]);
            assert(full[t as int] == (tv[t as int], min_entry_score(te), Seq::new(
                te.len(),
                |k: int| (te[k].1, te[k].2),
            )));
            assert(agg_view(out@[out@.len() - 1]) == full[t as int]);
            assert(full.take(t + 1) =~= full.take(t as int).push(full[t as int]));
            assert(aggs_view(out@) =~= full.take(t + 1));
        }
    }
    proof {
        assert(spec_aggregate(iv).take(tn as int) =~= spec_aggregate(iv));
    }
    out
}


/// The ids' views.
pub open spec fn ids_view(ids: Seq<UuidValue>) -> Seq<u128> {
    Seq::new(ids.len(), |i: int| ids[i].bits)
}

/// The requirements stored under the ids, in id order: a missing id fails
/// the whole load with `RequirementNotFound`; a record that does not parse
/// fails with its own error.
pub open spec fn spec_load_requirements(m: crate::store::StoreModel, ids: Seq<u128>) -> Result<
    Seq<RequirementV>,
    StoreError,
>
    decreases ids.len(),
{
    if ids.len() == 0 {
        Ok(Seq::empty())
    } else {
        match crate::assoc::assoc_lookup(
            crate::store::model_table(m, crate::store::TableKind::Requirements),
            crate::uid::uuid_text(ids[0]),
        ) {
            Option::None => Err(StoreError::RequirementNotFound),
            Option::Some(recv) => match crate::requirement_item::spec_req_from_rec(recv) {
                Err(e) => Err(e),
                Ok(v) => match spec_load_requirements(m, ids.drop_first()) {
                    Err(e) => Err(e),
                    Ok(rest) => Ok(seq![v] + rest),
                },
            },
        }
    }
}

/// Loads the requirements named by the ids; any missing id fails the whole
/// aggregation.
pub fn load_requirements<P: crate::port::StoragePort>(port: &P, ids: &Vec<UuidValue>) -> (r:
    Result<Vec<RequirementItem>, StoreError>)
    requires
        port.inv(),
    ensures
        match r {
            Ok(items) => spec_load_requirements(port.model(), ids_view(ids@)) == Ok::<
                Seq<RequirementV>,
                StoreError,
            >(Seq::new(items@.len(), |i: int| items@[i]@)),
            Err(e) => spec_load_requirements(port.model(), ids_view(ids@)) == Err::<
                Seq<RequirementV>,
                StoreError,
            >(e),
        },
{
    let ghost idsv = ids_view(ids@);
    let mut items: Vec<RequirementItem> = Vec::new();
    let n = ids.len();
    proof {
        assert(idsv.skip(0) =~= idsv);
        assert(Seq::new(items@.len(), |i: int| items@[i]@) =~= Seq::<RequirementV>::empty());
        if spec_load_requirements(port.model(), idsv) is Ok {
            assert(Seq::new(items@.len(), |i: int| items@[i]@) + spec_load_requirements(
                port.model(),
                idsv,
            )->Ok_0 =~= spec_load_requirements(port.model(), idsv)->Ok_0);
        }
    }
    for i in 0..n
        invariant
            n == ids@.len(),
            idsv == ids_view(ids@),
            port.inv(),
            spec_load_requirements(port.model(), idsv) == (match spec_load_requirements(
                port.model(),
                idsv.skip(i as int),
            ) {
                Ok(rest) => Ok::<Seq<RequirementV>, StoreError>(
                    Seq::new(items@.len(), |k: int| items@[k]@) + rest,
                ),
                Err(e) => Err::<Seq<RequirementV>, StoreError>(e),
            }),
    {
        let ghost herev = idsv.skip(i as int);
        proof {
            assert(herev[0] == idsv[i as int]);
            assert(herev.drop_first() =~= idsv.skip(i + 1));
        }
        let get = RequirementItem::get(&ids[i]);
        proof {
            crate::assoc::lemma_assoc_first_match(get.key@, "RequirementId"@, 0);
            assert(crate::store::spec_key_of(crate::store::TableKind::Requirements, get.key@)
                == Ok::<Seq<char>, StoreError>(crate::uid::uuid_text(idsv[i as int])));
        }
        let rec = match port.read_single(&get) {
            Ok(Some(rec)) => rec,
            Ok(None) => {
                return Err(StoreError::RequirementNotFound);
            },
            Err(_) => {
                return vstd::pervasive::unreached();
            },
        };
        let item = match RequirementItem::from_map(&rec) {
            Ok(item) => item,
            Err(e) => {
                return Err(e);
            },
        };
        let ghost items0 = Seq::new(items@.len(), |k: int| items@[k]@);
        items.push(item);
        proof {
            assert(Seq::new(items@.len(), |k: int| items@[k]@) =~= items0.push(item@));
            if spec_load_requirements(port.model(), idsv.skip(i + 1)) is Ok {
                let rest = spec_load_requirements(port.model(), idsv.skip(i + 1))->Ok_0;
                assert(spec_load_requirements(port.model(), herev) == Ok::<
                    Seq<RequirementV>,
                    StoreError,
                >(seq![item@] + rest));
                assert(items0 + (seq![item@] + rest) =~= Seq::new(
                    items@.len(),
                    |k: int| items@[k]@,
                ) + rest);
            }
        }
    }
    proof {
        assert(idsv.skip(n as int) =~= Seq::<u128>::empty());
        assert(Seq::new(items@.len(), |k: int| items@[k]@) + Seq::<RequirementV>::empty()
            =~= Seq::new(items@.len(), |k: int| items@[k]@));
    }
    Ok(items)
}

/// Builds the composite map for a set of requirement ids. With no ids at
/// all, every enumerated city tile is returned at score zero with no
/// contributions; with ids given, only tiles some requirement scored
/// appear, aggregated by minimum.
pub fn build_composite_map<P: crate::port::StoragePort>(
    port: &P,
    city_tiles: &Vec<String>,
    requirement_ids: &Vec<UuidValue>,
) -> (r: Result<Vec<TileAggregate>, StoreError>)
    requires
        port.inv(),
    ensures
        match r {
            Ok(aggs) => if requirement_ids@.len() == 0 {
                aggs_view(aggs@) == Seq::new(
                    city_tiles@.len(),
                    |i: int| (city_tiles@[i]@, 0int, Seq::<(u128, int)>::empty()),
                )
            } else {
                spec_load_requirements(port.model(), ids_view(requirement_ids@)) matches Ok(items)
                    && aggs_view(aggs@) == spec_aggregate(items)
            },
            Err(e) => requirement_ids@.len() > 0 && spec_load_requirements(
                port.model(),
                ids_view(requirement_ids@),
            ) == Err::<Seq<RequirementV>, StoreError>(e),
        },
{
    if requirement_ids.len() == 0 {
        let mut aggs: Vec<TileAggregate> = Vec::new();
        let n = city_tiles.len();
        let ghost blank = Seq::new(
            city_tiles@.len(),
            |i: int| (city_tiles@[i]@, 0int, Seq::<(u128, int)>::empty()),
        );
        for i in 0..n
            invariant
                n == city_tiles@.len(),
                blank == Seq::new(
                    city_tiles@.len(),
                    |k: int| (city_tiles@[k]@, 0int, Seq::<(u128, int)>::empty()),
                ),
                aggs_view(aggs@) =~= blank.take(i as int),
        {
            let ghost a0 = aggs_view(aggs@);
            aggs.push(
                TileAggregate {
                    h3_index: city_tiles[i].clone(),
                    score: 0,
                    requirement_scores: Vec::new(),
                },
            );
            proof {
                assert(agg_view(aggs@[aggs@.len() - 1]) == blank[i as int]);
                assert(aggs_view(aggs@) =~= a0.push(blank[i as int]));
                assert(blank.take(i + 1) =~= blank.take(i as int).push(blank[i as int]));
            }
        }
        proof {
            assert(blank.take(n as int) =~= blank);
        }
        return Ok(aggs);
    }
    let items = match load_requirements(port, requirement_ids) {
        Ok(items) => items,
        Err(e) => {
            return Err(e);
        },
    };
    Ok(aggregate_requirements(&items))
}

/// The empty acknowledgment a successful scoring request answers with.
#[derive(Debug)]
pub struct RequirementResponse {}

} // verus!
