//! Deterministic ordering applied uniformly before serialization, so that
//! repeated runs on identical input produce identical output.
//!
//! Positions are ordered by facility type, highest ordinal first, then by
//! identifier ascending; stations by identifier ascending.  The sorts are
//! stable: records the order considers equal keep their input order.

use vstd::prelude::*;
use crate::model::{PositionConfigFile, PositionRaw, PositionRecord, StationConfigFile, StationRaw,
    StationRecord};
use crate::text::{lemma_lex_total, lemma_lex_trans, lex_le, lex_lt};

verus! {

/// Output order of positions: facility type of strictly higher ordinal
/// first; within one facility type, identifiers ascending.
pub open spec fn pos_le(a: PositionRecord, b: PositionRecord) -> bool {
    a.facility_type.ordinal_spec() > b.facility_type.ordinal_spec() || (
    a.facility_type.ordinal_spec() == b.facility_type.ordinal_spec() && lex_le(a.id, b.id))
}

/// Output order of stations: identifiers ascending.
pub open spec fn st_le(a: StationRecord, b: StationRecord) -> bool {
    lex_le(a.id, b.id)
}

/// `x` placed into `s` behind every record at or below it; the insertion
/// step of a stable insertion sort.
pub open spec fn insert_pos(x: PositionRecord, s: Seq<PositionRecord>) -> Seq<PositionRecord>
    decreases s.len(),
{
    if s.len() == 0 {
        seq![x]
    } else if pos_le(s[0], x) {
        seq![s[0]] + insert_pos(x, s.drop_first())
    } else {
        seq![x] + s
    }
}

/// The positions of `s` in output order, equal keys keeping input order.
pub open spec fn sort_positions_spec(s: Seq<PositionRecord>) -> Seq<PositionRecord>
    decreases s.len(),
{
    if s.len() == 0 {
        Seq::empty()
    } else {
        insert_pos(s.last(), sort_positions_spec(s.drop_last()))
    }
}

/// `x` placed into `s` behind every record at or below it.
pub open spec fn insert_st(x: StationRecord, s: Seq<StationRecord>) -> Seq<StationRecord>
    decreases s.len(),
{
    if s.len() == 0 {
        seq![x]
    } else if st_le(s[0], x) {
        seq![s[0]] + insert_st(x, s.drop_first())
    } else {
        seq![x] + s
    }
}

/// The stations of `s` in output order, equal ids keeping input order.
pub open spec fn sort_stations_spec(s: Seq<StationRecord>) -> Seq<StationRecord>
    decreases s.len(),
{
    if s.len() == 0 {
        Seq::empty()
    } else {
        insert_st(s.last(), sort_stations_spec(s.drop_last()))
    }
}

/// Every pair of positions is ordered.
pub open spec fn pos_sorted(s: Seq<PositionRecord>) -> bool {
    forall|i: int, j: int| 0 <= i < j < s.len() ==> pos_le(s[i], s[j])
}

/// Every pair of stations is ordered.
pub open spec fn st_sorted(s: Seq<StationRecord>) -> bool {
    forall|i: int, j: int| 0 <= i < j < s.len() ==> st_le(s[i], s[j])
}

/// The position order is total.
pub proof fn lemma_pos_le_total(a: PositionRecord, b: PositionRecord)
    ensures
        pos_le(a, b) || pos_le(b, a),
{
    lemma_lex_total(a.id, b.id);
}

/// The position order is transitive.
pub proof fn lemma_pos_le_trans(a: PositionRecord, b: PositionRecord, c: PositionRecord)
    requires
        pos_le(a, b),
        pos_le(b, c),
    ensures
        pos_le(a, c),
{
    if a.facility_type.ordinal_spec() == b.facility_type.ordinal_spec()
        && b.facility_type.ordinal_spec() == c.facility_type.ordinal_spec() {
        lemma_lex_trans(a.id, b.id, c.id);
    }
}

/// Inserting adds one record; everything in the result is `x` or a record
/// of `s`, and `x` and every record of `s` are in the result.
proof fn lemma_insert_pos_elems(x: PositionRecord, s: Seq<PositionRecord>)
    ensures
        insert_pos(x, s).len() == s.len() + 1,
        forall|k: int|
            0 <= k < insert_pos(x, s).len() ==> insert_pos(x, s)[k] == x || s.contains(
                #[trigger] insert_pos(x, s)[k],
            ),
        insert_pos(x, s).contains(x),
        forall|k: int| 0 <= k < s.len() ==> insert_pos(x, s).contains(#[trigger] s[k]),
    decreases s.len(),
{
    let r = insert_pos(x, s);
    if s.len() == 0 {
        assert(r[0] == x);
    } else if pos_le(s[0], x) {
        let t = s.drop_first();
        lemma_insert_pos_elems(x, t);
        let rt = insert_pos(x, t);
        assert(r == seq![s[0]] + rt);
        assert forall|k: int| 0 <= k < r.len() implies r[k] == x || s.contains(#[trigger] r[k]) by {
            if k == 0 {
                assert(r[0] == s[0]);
                assert(s.contains(s[0]));
            } else {
                assert(r[k] == rt[k - 1]);
                if rt[k - 1] != x {
                    let m = choose|m: int| 0 <= m < t.len() && t[m] == rt[k - 1];
                    assert(s[m + 1] == t[m]);
                    assert(s.contains(s[m + 1]));
                }
            }
        }
        assert(r.contains(x)) by {
            let m = choose|m: int| 0 <= m < rt.len() && rt[m] == x;
            assert(r[m + 1] == x);
        }
        assert forall|k: int| 0 <= k < s.len() implies r.contains(#[trigger] s[k]) by {
            if k == 0 {
                assert(r[0] == s[0]);
            } else {
                assert(t[k - 1] == s[k]);
                assert(rt.contains(t[k - 1]));
                let m = choose|m: int| 0 <= m < rt.len() && rt[m] == t[k - 1];
                assert(r[m + 1] == s[k]);
            }
        }
    } else {
        assert(r == seq![x] + s);
        assert(r[0] == x);
        assert forall|k: int| 0 <= k < s.len() implies r.contains(#[trigger] s[k]) by {
            assert(r[k + 1] == s[k]);
        }
    }
}

/// Insertion keeps the sequence sorted.
proof fn lemma_insert_pos_sorted(x: PositionRecord, s: Seq<PositionRecord>)
    requires
        pos_sorted(s),
    ensures
        pos_sorted(insert_pos(x, s)),
    decreases s.len(),
{
    let r = insert_pos(x, s);
    if s.len() == 0 {
    } else if pos_le(s[0], x) {
        let t = s.drop_first();
        assert(pos_sorted(t)) by {
            assert(forall|i: int, j: int|
                0 <= i < j < t.len() ==> t[i] == s[i + 1] && t[j] == s[j + 1]);
        }
        lemma_insert_pos_sorted(x, t);
        lemma_insert_pos_elems(x, t);
        let rt = insert_pos(x, t);
        assert(r == seq![s[0]] + rt);
        assert forall|i: int, j: int| 0 <= i < j < r.len() implies pos_le(r[i], r[j]) by {
            if i == 0 {
                assert(r[j] == rt[j - 1]);
                if rt[j - 1] == x {
                    assert(pos_le(s[0], x));
                } else {
                    let m = choose|m: int| 0 <= m < t.len() && t[m] == rt[j - 1];
                    assert(t[m] == s[m + 1]);
                    assert(pos_le(s[0], s[m + 1]));
                }
            } else {
                assert(r[i] == rt[i - 1] && r[j] == rt[j - 1]);
            }
        }
    } else {
        assert forall|i: int, j: int| 0 <= i < j < r.len() implies pos_le(r[i], r[j]) by {
            if i == 0 {
                assert(r[j] == s[j - 1]);
                lemma_pos_le_total(x, s[0]);
                if j > 1 {
                    assert(pos_le(s[0], s[j - 1]));
                    lemma_pos_le_trans(x, s[0], s[j - 1]);
                }
            } else {
                assert(r[i] == s[i - 1] && r[j] == s[j - 1]);
            }
        }
    }
}

/// Inserting a record adds exactly it to the contents.
proof fn lemma_insert_pos_ms(x: PositionRecord, s: Seq<PositionRecord>)
    ensures
        insert_pos(x, s).to_multiset() == s.to_multiset().insert(x),
    decreases s.len(),
{
    broadcast use vstd::seq_lib::group_to_multiset_ensures;

    let r = insert_pos(x, s);
    if s.len() == 0 {
        assert(seq![x] =~= Seq::empty().push(x));
        assert(r.to_multiset() =~= s.to_multiset().insert(x));
    } else if pos_le(s[0], x) {
        let t = s.drop_first();
        lemma_insert_pos_ms(x, t);
        vstd::seq_lib::lemma_multiset_commutative(seq![s[0]], insert_pos(x, t));
        vstd::seq_lib::lemma_multiset_commutative(seq![s[0]], t);
        assert(s =~= seq![s[0]] + t);
        assert(r.to_multiset() =~= s.to_multiset().insert(x));
    } else {
        vstd::seq_lib::lemma_multiset_commutative(seq![x], s);
        assert(seq![x] =~= Seq::empty().push(x));
        assert(r.to_multiset() =~= s.to_multiset().insert(x));
    }
}

/// Sorting the positions reorders them and does nothing else: the output
/// is sorted and its contents are exactly the input's.
pub proof fn lemma_sort_positions(s: Seq<PositionRecord>)
    ensures
        pos_sorted(sort_positions_spec(s)),
        sort_positions_spec(s).to_multiset() == s.to_multiset(),
        sort_positions_spec(s).len() == s.len(),
    decreases s.len(),
{
    broadcast use vstd::seq_lib::group_to_multiset_ensures;

    if s.len() > 0 {
        let dl = s.drop_last();
        lemma_sort_positions(dl);
        lemma_insert_pos_sorted(s.last(), sort_positions_spec(dl));
        lemma_insert_pos_ms(s.last(), sort_positions_spec(dl));
        lemma_insert_pos_elems(s.last(), sort_positions_spec(dl));
        assert(s =~= dl.push(s.last()));
        assert(sort_positions_spec(s).to_multiset() =~= s.to_multiset());
    }
}

/// The sort law for positions, stated directly: in the output, a record
/// with a strictly higher facility-type ordinal comes first, and records
/// of one facility type have ascending identifiers.
pub proof fn lemma_positions_sort_law(s: Seq<PositionRecord>)
    ensures
        forall|i: int, j: int|
            0 <= i < j < sort_positions_spec(s).len() ==> (#[trigger] sort_positions_spec(
                s,
            )[i]).facility_type.ordinal_spec() >= (#[trigger] sort_positions_spec(
                s,
            )[j]).facility_type.ordinal_spec(),
        forall|i: int, j: int|
            0 <= i < j < sort_positions_spec(s).len() && (#[trigger] sort_positions_spec(
                s,
            )[i]).facility_type.ordinal_spec() == (#[trigger] sort_positions_spec(
                s,
            )[j]).facility_type.ordinal_spec() ==> lex_le(
                sort_positions_spec(s)[i].id,
                sort_positions_spec(s)[j].id,
            ),
{
    lemma_sort_positions(s);
    let r = sort_positions_spec(s);
    assert forall|i: int, j: int| 0 <= i < j < r.len() implies (#[trigger] r[i]).facility_type.ordinal_spec()
        >= (#[trigger] r[j]).facility_type.ordinal_spec() by {
        assert(pos_le(r[i], r[j]));
    }
    assert forall|i: int, j: int|
        0 <= i < j < r.len() && (#[trigger] r[i]).facility_type.ordinal_spec() == (
        #[trigger] r[j]).facility_type.ordinal_spec() implies lex_le(r[i].id, r[j].id) by {
        assert(pos_le(r[i], r[j]));
    }
}

/// The station order is transitive.
pub proof fn lemma_st_le_trans(a: StationRecord, b: StationRecord, c: StationRecord)
    requires
        st_le(a, b),
        st_le(b, c),
    ensures
        st_le(a, c),
{
    lemma_lex_trans(a.id, b.id, c.id);
}

/// Inserting adds one record; everything in the result is `x` or a record
/// of `s`, and `x` and every record of `s` are in the result.
proof fn lemma_insert_st_elems(x: StationRecord, s: Seq<StationRecord>)
    ensures
        insert_st(x, s).len() == s.len() + 1,
        forall|k: int|
            0 <= k < insert_st(x, s).len() ==> insert_st(x, s)[k] == x || s.contains(
                #[trigger] insert_st(x, s)[k],
            ),
        insert_st(x, s).contains(x),
        forall|k: int| 0 <= k < s.len() ==> insert_st(x, s).contains(#[trigger] s[k]),
    decreases s.len(),
{
    let r = insert_st(x, s);
    if s.len() == 0 {
        assert(r[0] == x);
    } else if st_le(s[0], x) {
        let t = s.drop_first();
        lemma_insert_st_elems(x, t);
        let rt = insert_st(x, t);
        assert(r == seq![s[0]] + rt);
        assert forall|k: int| 0 <= k < r.len() implies r[k] == x || s.contains(#[trigger] r[k]) by {
            if k == 0 {
                assert(r[0] == s[0]);
                assert(s.contains(s[0]));
            } else {
                assert(r[k] == rt[k - 1]);
                if rt[k - 1] != x {
                    let m = choose|m: int| 0 <= m < t.len() && t[m] == rt[k - 1];
                    assert(s[m + 1] == t[m]);
                    assert(s.contains(s[m + 1]));
                }
            }
        }
        assert(r.contains(x)) by {
            let m = choose|m: int| 0 <= m < rt.len() && rt[m] == x;
            assert(r[m + 1] == x);
        }
        assert forall|k: int| 0 <= k < s.len() implies r.contains(#[trigger] s[k]) by {
            if k == 0 {
                assert(r[0] == s[0]);
            } else {
                assert(t[k - 1] == s[k]);
                assert(rt.contains(t[k - 1]));
                let m = choose|m: int| 0 <= m < rt.len() && rt[m] == t[k - 1];
                assert(r[m + 1] == s[k]);
            }
        }
    } else {
        assert(r == seq![x] + s);
        assert(r[0] == x);
        assert forall|k: int| 0 <= k < s.len() implies r.contains(#[trigger] s[k]) by {
            assert(r[k + 1] == s[k]);
        }
    }
}

/// Insertion keeps the sequence sorted.
proof fn lemma_insert_st_sorted(x: StationRecord, s: Seq<StationRecord>)
    requires
        st_sorted(s),
    ensures
        st_sorted(insert_st(x, s)),
    decreases s.len(),
{
    let r = insert_st(x, s);
    if s.len() == 0 {
    } else if st_le(s[0], x) {
        let t = s.drop_first();
        assert(st_sorted(t)) by {
            assert(forall|i: int, j: int|
                0 <= i < j < t.len() ==> t[i] == s[i + 1] && t[j] == s[j + 1]);
        }
        lemma_insert_st_sorted(x, t);
        lemma_insert_st_elems(x, t);
        let rt = insert_st(x, t);
        assert(r == seq![s[0]] + rt);
        assert forall|i: int, j: int| 0 <= i < j < r.len() implies st_le(r[i], r[j]) by {
            if i == 0 {
                assert(r[j] == rt[j - 1]);
                if rt[j - 1] == x {
                    assert(st_le(s[0], x));
                } else {
                    let m = choose|m: int| 0 <= m < t.len() && t[m] == rt[j - 1];
                    assert(t[m] == s[m + 1]);
                    assert(st_le(s[0], s[m + 1]));
                }
            } else {
                assert(r[i] == rt[i - 1] && r[j] == rt[j - 1]);
            }
        }
    } else {
        assert forall|i: int, j: int| 0 <= i < j < r.len() implies st_le(r[i], r[j]) by {
            if i == 0 {
                assert(r[j] == s[j - 1]);
                lemma_lex_total(x.id, s[0].id);
                if j > 1 {
                    assert(st_le(s[0], s[j - 1]));
                    lemma_st_le_trans(x, s[0], s[j - 1]);
                }
            } else {
                assert(r[i] == s[i - 1] && r[j] == s[j - 1]);
            }
        }
    }
}

/// Inserting a record adds exactly it to the contents.
proof fn lemma_insert_st_ms(x: StationRecord, s: Seq<StationRecord>)
    ensures
        insert_st(x, s).to_multiset() == s.to_multiset().insert(x),
    decreases s.len(),
{
    broadcast use vstd::seq_lib::group_to_multiset_ensures;

    let r = insert_st(x, s);
    if s.len() == 0 {
        assert(seq![x] =~= Seq::empty().push(x));
        assert(r.to_multiset() =~= s.to_multiset().insert(x));
    } else if st_le(s[0], x) {
        let t = s.drop_first();
        lemma_insert_st_ms(x, t);
        vstd::seq_lib::lemma_multiset_commutative(seq![s[0]], insert_st(x, t));
        vstd::seq_lib::lemma_multiset_commutative(seq![s[0]], t);
        assert(s =~= seq![s[0]] + t);
        assert(r.to_multiset() =~= s.to_multiset().insert(x));
    } else {
        vstd::seq_lib::lemma_multiset_commutative(seq![x], s);
        assert(seq![x] =~= Seq::empty().push(x));
        assert(r.to_multiset() =~= s.to_multiset().insert(x));
    }
}

/// Sorting the stations reorders them and does nothing else: the output
/// is sorted by identifier and its contents are exactly the input's.
pub proof fn lemma_sort_stations(s: Seq<StationRecord>)
    ensures
        st_sorted(sort_stations_spec(s)),
        sort_stations_spec(s).to_multiset() == s.to_multiset(),
        sort_stations_spec(s).len() == s.len(),
    decreases s.len(),
{
    broadcast use vstd::seq_lib::group_to_multiset_ensures;

    if s.len() > 0 {
        let dl = s.drop_last();
        lemma_sort_stations(dl);
        lemma_insert_st_sorted(s.last(), sort_stations_spec(dl));
        lemma_insert_st_ms(s.last(), sort_stations_spec(dl));
        lemma_insert_st_elems(s.last(), sort_stations_spec(dl));
        assert(s =~= dl.push(s.last()));
        assert(sort_stations_spec(s).to_multiset() =~= s.to_multiset());
    }
}

/// Some record of `s` has the identifier `id`.
pub open spec fn has_station_id(s: Seq<StationRecord>, id: Seq<char>) -> bool {
    exists|k: int| 0 <= k < s.len() && s[k].id == id
}

/// No two records of `s` share an identifier.
pub open spec fn unique_station_ids(s: Seq<StationRecord>) -> bool {
    forall|i: int, j: int| 0 <= i < s.len() && 0 <= j < s.len() && i != j ==> s[i].id != s[j].id
}

/// Insertion neither invents nor loses identifiers, and keeps them unique
/// when the inserted one is new.
proof fn lemma_insert_st_unique(x: StationRecord, s: Seq<StationRecord>)
    ensures
        forall|id: Seq<char>|
            #[trigger] has_station_id(insert_st(x, s), id) <==> has_station_id(s, id) || x.id
                == id,
        unique_station_ids(s) && !has_station_id(s, x.id) ==> unique_station_ids(insert_st(x, s)),
    decreases s.len(),
{
    let r = insert_st(x, s);
    lemma_insert_st_elems(x, s);
    assert forall|id: Seq<char>| #[trigger]
        has_station_id(r, id) <==> has_station_id(s, id) || x.id == id by {
        if has_station_id(r, id) {
            let k = choose|k: int| 0 <= k < r.len() && r[k].id == id;
            if r[k] != x {
                let m = choose|m: int| 0 <= m < s.len() && s[m] == r[k];
                assert(has_station_id(s, id));
            }
        }
        if has_station_id(s, id) {
            let k = choose|k: int| 0 <= k < s.len() && s[k].id == id;
            assert(r.contains(s[k]));
            let m = choose|m: int| 0 <= m < r.len() && r[m] == s[k];
            assert(has_station_id(r, id));
        }
        if x.id == id {
            let m = choose|m: int| 0 <= m < r.len() && r[m] == x;
            assert(has_station_id(r, id));
        }
    }
    if unique_station_ids(s) && !has_station_id(s, x.id) {
        if s.len() == 0 {
        } else if st_le(s[0], x) {
            let t = s.drop_first();
            assert(forall|k: int| 0 <= k < t.len() ==> t[k] == s[k + 1]);
            assert(unique_station_ids(t));
            assert(!has_station_id(t, x.id)) by {
                if has_station_id(t, x.id) {
                    let k = choose|k: int| 0 <= k < t.len() && t[k].id == x.id;
                    assert(s[k + 1].id == x.id);
                    assert(has_station_id(s, x.id));
                }
            }
            lemma_insert_st_unique(x, t);
            let rt = insert_st(x, t);
            assert(r == seq![s[0]] + rt);
            assert forall|i: int, j: int|
                0 <= i < r.len() && 0 <= j < r.len() && i != j implies r[i].id != r[j].id by {
                if i != 0 && j != 0 {
                    assert(r[i] == rt[i - 1] && r[j] == rt[j - 1]);
                } else {
                    let o = if i == 0 { j } else { i };
                    assert(r[o] == rt[o - 1]);
                    if r[o].id == s[0].id {
                        assert(has_station_id(rt, s[0].id));
                        if has_station_id(t, s[0].id) {
                            let k = choose|k: int| 0 <= k < t.len() && t[k].id == s[0].id;
                            assert(s[k + 1].id == s[0].id);
                        } else {
                            assert(x.id == s[0].id);
                            assert(has_station_id(s, x.id));
                        }
                    }
                }
            }
        } else {
            assert(r == seq![x] + s);
            assert forall|i: int, j: int|
                0 <= i < r.len() && 0 <= j < r.len() && i != j implies r[i].id != r[j].id by {
                if i != 0 && j != 0 {
                    assert(r[i] == s[i - 1] && r[j] == s[j - 1]);
                } else {
                    let o = if i == 0 { j } else { i };
                    assert(r[o] == s[o - 1]);
                    if s[o - 1].id == x.id {
                        assert(has_station_id(s, x.id));
                    }
                }
            }
        }
    }
}

/// Sorting keeps the set of identifiers and their uniqueness.
proof fn lemma_sort_stations_unique(s: Seq<StationRecord>)
    ensures
        forall|id: Seq<char>|
            #[trigger] has_station_id(sort_stations_spec(s), id) <==> has_station_id(s, id),
        unique_station_ids(s) ==> unique_station_ids(sort_stations_spec(s)),
    decreases s.len(),
{
    let r = sort_stations_spec(s);
    if s.len() == 0 {
    } else {
        let dl = s.drop_last();
        let x = s.last();
        lemma_sort_stations_unique(dl);
        lemma_insert_st_unique(x, sort_stations_spec(dl));
        assert forall|id: Seq<char>| #[trigger] has_station_id(r, id) <==> has_station_id(s, id) by {
            assert(has_station_id(r, id) <==> has_station_id(sort_stations_spec(dl), id) || x.id
                == id);
            if has_station_id(dl, id) {
                let k = choose|k: int| 0 <= k < dl.len() && dl[k].id == id;
                assert(s[k].id == id);
                assert(has_station_id(s, id));
            }
            if x.id == id {
                assert(s[s.len() - 1].id == id);
                assert(has_station_id(s, id));
            }
            if has_station_id(s, id) {
                let k = choose|k: int| 0 <= k < s.len() && s[k].id == id;
                if k < s.len() - 1 {
                    assert(dl[k].id == id);
                    assert(has_station_id(dl, id));
                } else {
                    assert(x.id == id);
                }
            }
        }
        if unique_station_ids(s) {
            assert(forall|k: int| 0 <= k < dl.len() ==> dl[k] == s[k]);
            assert(unique_station_ids(dl));
            assert(!has_station_id(dl, x.id)) by {
                if has_station_id(dl, x.id) {
                    let k = choose|k: int| 0 <= k < dl.len() && dl[k].id == x.id;
                    assert(s[k].id == s[s.len() - 1].id);
                }
            }
        }
    }
}

/// The sort law for stations: identifiers ascend in the output, and
/// strictly so when no two input records share an identifier.  Two records
/// sharing an identifier are both kept, so their ids can only tie.
pub proof fn lemma_stations_sort_law(s: Seq<StationRecord>)
    ensures
        forall|i: int, j: int|
            0 <= i < j < sort_stations_spec(s).len() ==> lex_le(
                (#[trigger] sort_stations_spec(s)[i]).id,
                (#[trigger] sort_stations_spec(s)[j]).id,
            ),
        unique_station_ids(s) ==> forall|i: int, j: int|
            0 <= i < j < sort_stations_spec(s).len() ==> lex_lt(
                (#[trigger] sort_stations_spec(s)[i]).id,
                (#[trigger] sort_stations_spec(s)[j]).id,
            ),
{
    lemma_sort_stations(s);
    lemma_sort_stations_unique(s);
    let r = sort_stations_spec(s);
    assert forall|i: int, j: int| 0 <= i < j < r.len() implies lex_le(
        (#[trigger] r[i]).id,
        (#[trigger] r[j]).id,
    ) by {
        assert(st_le(r[i], r[j]));
    }
    if unique_station_ids(s) {
        assert forall|i: int, j: int| 0 <= i < j < r.len() implies lex_lt(
            (#[trigger] r[i]).id,
            (#[trigger] r[j]).id,
        ) by {
            assert(st_le(r[i], r[j]));
            assert(r[i].id != r[j].id);
        }
    }
}

/// Where the insertion step places the new record: at the first index
/// whose record is not at or below it.
proof fn lemma_insert_pos_at(x: PositionRecord, s: Seq<PositionRecord>, j: int)
    requires
        0 <= j <= s.len(),
        forall|k: int| 0 <= k < j ==> pos_le(#[trigger] s[k], x),
        j < s.len() ==> !pos_le(s[j], x),
    ensures
        insert_pos(x, s) == s.insert(j, x),
    decreases s.len(),
{
    if s.len() == 0 {
        assert(insert_pos(x, s) =~= s.insert(0, x));
    } else if j == 0 {
        assert(insert_pos(x, s) =~= s.insert(0, x));
    } else {
        let t = s.drop_first();
        assert(forall|k: int| 0 <= k < t.len() ==> t[k] == s[k + 1]);
        lemma_insert_pos_at(x, t, j - 1);
        assert(insert_pos(x, s) == seq![s[0]] + t.insert(j - 1, x));
        assert(seq![s[0]] + t.insert(j - 1, x) =~= s.insert(j, x));
    }
}

/// Where the insertion step places the new record.
proof fn lemma_insert_st_at(x: StationRecord, s: Seq<StationRecord>, j: int)
    requires
        0 <= j <= s.len(),
        forall|k: int| 0 <= k < j ==> st_le(#[trigger] s[k], x),
        j < s.len() ==> !st_le(s[j], x),
    ensures
        insert_st(x, s) == s.insert(j, x),
    decreases s.len(),
{
    if s.len() == 0 {
        assert(insert_st(x, s) =~= s.insert(0, x));
    } else if j == 0 {
        assert(insert_st(x, s) =~= s.insert(0, x));
    } else {
        let t = s.drop_first();
        assert(forall|k: int| 0 <= k < t.len() ==> t[k] == s[k + 1]);
        lemma_insert_st_at(x, t, j - 1);
        assert(insert_st(x, s) == seq![s[0]] + t.insert(j - 1, x));
        assert(seq![s[0]] + t.insert(j - 1, x) =~= s.insert(j, x));
    }
}

/// Executable form of the position order.
fn pos_le_exec(a: &PositionRaw, b: &PositionRaw) -> (r: bool)
    ensures
        r == pos_le(a@, b@),
{
    let oa = a.facility_type.ordinal();
    let ob = b.facility_type.ordinal();
    if oa > ob {
        true
    } else if oa < ob {
        false
    } else {
        crate::text::str_lex_le(a.id.0.as_str(), b.id.0.as_str())
    }
}

/// Executable form of the station order.
fn st_le_exec(a: &StationRaw, b: &StationRaw) -> (r: bool)
    ensures
        r == st_le(a@, b@),
{
    crate::text::str_lex_le(a.id.0.as_str(), b.id.0.as_str())
}

/// Places one position into an already sorted vector.
fn insert_position_sorted(out: &mut Vec<PositionRaw>, x: PositionRaw)
    ensures
        final(out).deep_view() == insert_pos(x@, old(out).deep_view()),
{
    let mut j: usize = 0;
    while j < out.len() && pos_le_exec(&out[j], &x)
        invariant
            j <= out.len(),
            forall|k: int| 0 <= k < j ==> pos_le(#[trigger] out.deep_view()[k], x@),
        decreases out.len() - j,
    {
        j += 1;
    }
    proof {
        lemma_insert_pos_at(x@, out.deep_view(), j as int);
    }
    out.insert(j, x);
    proof {
        assert(out.deep_view() =~= old(out).deep_view().insert(j as int, x@));
    }
}

/// Places one station into an already sorted vector.
fn insert_station_sorted(out: &mut Vec<StationRaw>, x: StationRaw)
    ensures
        final(out).deep_view() == insert_st(x@, old(out).deep_view()),
{
    let mut j: usize = 0;
    while j < out.len() && st_le_exec(&out[j], &x)
        invariant
            j <= out.len(),
            forall|k: int| 0 <= k < j ==> st_le(#[trigger] out.deep_view()[k], x@),
        decreases out.len() - j,
    {
        j += 1;
    }
    proof {
        lemma_insert_st_at(x@, out.deep_view(), j as int);
    }
    out.insert(j, x);
    proof {
        assert(out.deep_view() =~= old(out).deep_view().insert(j as int, x@));
    }
}

impl PositionConfigFile {
    /// Sorts the positions into output order: facility type of higher
    /// ordinal first, then identifiers ascending; stable for equal keys.
    pub fn normalize(&mut self)
        ensures
            final(self)@ == sort_positions_spec(old(self)@),
    {
        let ghost opos: Seq<PositionRaw> = self.positions@;
        let ghost deepo: Seq<PositionRecord> = self.positions.deep_view();
        let n = self.positions.len();
        let mut sorted: Vec<PositionRaw> = Vec::new();
        proof {
            assert(deepo.subrange(0, 0) =~= Seq::<PositionRecord>::empty());
            assert(sorted.deep_view() =~= Seq::<PositionRecord>::empty());
        }
        while self.positions.len() > 0
            invariant
                n == opos.len(),
                n == deepo.len(),
                self.positions.len() <= n,
                self.positions@ =~= opos.subrange(n - self.positions.len(), n as int),
                forall|i: int| 0 <= i < n ==> deepo[i] == (#[trigger] opos[i])@,
                sorted.deep_view() == sort_positions_spec(
                    deepo.subrange(0, n - self.positions.len()),
                ),
            decreases self.positions.len(),
        {
            let ghost k: int = n - self.positions.len();
            let x = self.positions.remove(0);
            proof {
                assert(x == opos[k]);
                assert(self.positions@ =~= opos.subrange(k + 1, n as int));
            }
            insert_position_sorted(&mut sorted, x);
            proof {
                let pre = deepo.subrange(0, k);
                let post = deepo.subrange(0, k + 1);
                assert(post.drop_last() =~= pre);
                assert(post.last() == deepo[k]);
                assert(sorted.deep_view() == sort_positions_spec(post));
            }
        }
        proof {
            assert(deepo.subrange(0, n as int) =~= deepo);
        }
        self.positions = sorted;
    }
}

impl StationConfigFile {
    /// Sorts the stations into output order: identifiers ascending; stable
    /// for equal identifiers, so duplicate ids keep their input order.
    pub fn normalize(&mut self)
        ensures
            final(self)@ == sort_stations_spec(old(self)@),
    {
        let ghost ost: Seq<StationRaw> = self.stations@;
        let ghost deepo: Seq<StationRecord> = self.stations.deep_view();
        let n = self.stations.len();
        let mut sorted: Vec<StationRaw> = Vec::new();
        proof {
            assert(deepo.subrange(0, 0) =~= Seq::<StationRecord>::empty());
            assert(sorted.deep_view() =~= Seq::<StationRecord>::empty());
        }
        while self.stations.len() > 0
            invariant
                n == ost.len(),
                n == deepo.len(),
                self.stations.len() <= n,
                self.stations@ =~= ost.subrange(n - self.stations.len(), n as int),
                forall|i: int| 0 <= i < n ==> deepo[i] == (#[trigger] ost[i])@,
                sorted.deep_view() == sort_stations_spec(
                    deepo.subrange(0, n - self.stations.len()),
                ),
            decreases self.stations.len(),
        {
            let ghost k: int = n - self.stations.len();
            let x = self.stations.remove(0);
            proof {
                assert(x == ost[k]);
                assert(self.stations@ =~= ost.subrange(k + 1, n as int));
            }
            insert_station_sorted(&mut sorted, x);
            proof {
                let pre = deepo.subrange(0, k);
                let post = deepo.subrange(0, k + 1);
                assert(post.drop_last() =~= pre);
                assert(post.last() == deepo[k]);
                assert(sorted.deep_view() == sort_stations_spec(post));
            }
        }
        proof {
            assert(deepo.subrange(0, n as int) =~= deepo);
        }
        self.stations = sorted;
    }
}

} // verus!
