//! Parser for the JSON coverage export: converts the decoded document —
//! airspace entries and a position map — into the canonical schema.
//!
//! The two facility-type conversions differ on purpose: a position's
//! `type` is parsed strictly and a single unparsable entry fails the whole
//! conversion, while an airspace's `group` label is mapped leniently and an
//! unrecognized label still yields a station, typed as unknown.

use vstd::prelude::*;
use crate::ImportError;
use crate::facility::FacilityType;
use crate::model::{PositionConfigFile, PositionId, PositionRaw, PositionRecord, StationConfigFile,
    StationId, StationRaw, StationRecord};
use crate::normalize::{sort_positions_spec, sort_stations_spec};
use crate::text::str_eq;

verus! {

/// Mathematical view of a position entry's value.
#[verifier::ext_equal]
pub ghost struct PositionView {
    pub pre: Seq<Seq<char>>,
    pub type_label: Seq<char>,
    pub frequency: Option<Seq<char>>,
}

/// One value of the document's position map: covered prefixes, the
/// facility-type label, and an optional frequency.
#[derive(Debug, Clone)]
pub struct Position {
    pub pre: Vec<String>,
    pub type_label: String,
    pub frequency: Option<String>,
}

impl DeepView for Position {
    type V = PositionView;

    open spec fn deep_view(&self) -> PositionView {
        PositionView {
            pre: self.pre.deep_view(),
            type_label: self.type_label@,
            frequency: self.frequency.deep_view(),
        }
    }
}

/// Mathematical view of a keyed position entry.
#[verifier::ext_equal]
pub ghost struct PositionEntryView {
    pub id: Seq<char>,
    pub position: PositionView,
}

/// One entry of the document's position map: the key and its value, in
/// the document's order.
#[derive(Debug, Clone)]
pub struct PositionEntry {
    pub id: String,
    pub position: Position,
}

impl DeepView for PositionEntry {
    type V = PositionEntryView;

    open spec fn deep_view(&self) -> PositionEntryView {
        PositionEntryView { id: self.id@, position: self.position.deep_view() }
    }
}

/// Mathematical view of an airspace entry.
#[verifier::ext_equal]
pub ghost struct AirspaceView {
    pub id: Seq<char>,
    pub group: Seq<char>,
    pub owner: Seq<Seq<char>>,
}

/// One airspace entry of the document: identifier, group label, and the
/// identifiers of the positions that own it.
#[derive(Debug, Clone)]
pub struct Airspace {
    pub id: String,
    pub group: String,
    pub owner: Vec<String>,
}

impl DeepView for Airspace {
    type V = AirspaceView;

    open spec fn deep_view(&self) -> AirspaceView {
        AirspaceView { id: self.id@, group: self.group@, owner: self.owner.deep_view() }
    }
}

/// The decoded document: the airspace list and the position map as a list
/// of keyed entries.
#[derive(Debug, Clone)]
pub struct VatglassesData {
    pub airspace: Vec<Airspace>,
    pub positions: Vec<PositionEntry>,
}

/// Conversion from a borrowed source document.
pub trait TryFromRef<T>: Sized {
    /// Why the conversion failed.
    type Error;

    /// Converts a borrowed `T` into `Self`.
    fn try_from_ref(value: &T) -> Result<Self, Self::Error>;
}

/// The sentinel frequency used when the source omits one.
pub open spec fn default_frequency() -> Seq<char> {
    "199.998"@
}

/// `s` with duplicates removed; each element keeps its first occurrence's
/// place.  This is how the importer represents a set while keeping output
/// reproducible.
pub open spec fn dedup_first(s: Seq<Seq<char>>) -> Seq<Seq<char>>
    decreases s.len(),
{
    if s.len() == 0 {
        Seq::empty()
    } else {
        let rest = dedup_first(s.drop_last());
        if s.drop_last().contains(s.last()) {
            rest
        } else {
            rest + seq![s.last()]
        }
    }
}

/// What one position entry converts to: its key as the identifier, the
/// strictly parsed type, the given or default frequency, and the prefix
/// list as a set.  `None` when the type label does not parse.
pub open spec fn position_record_of(e: PositionEntryView) -> Option<PositionRecord> {
    match FacilityType::strict_of(e.position.type_label) {
        None => None,
        Some(ft) => Some(
            PositionRecord {
                id: e.id,
                frequency: match e.position.frequency {
                    Some(f) => f,
                    None => default_frequency(),
                },
                prefixes: dedup_first(e.position.pre),
                facility_type: ft,
                profile_id: None,
            },
        ),
    }
}

/// Index of the first entry at or after `i` whose type label does not
/// parse strictly, or the entry count if every one parses.
pub open spec fn find_bad(entries: Seq<PositionEntryView>, i: int) -> int
    decreases entries.len() - i when 0 <= i <= entries.len()
{
    if i >= entries.len() {
        entries.len() as int
    } else if FacilityType::strict_of(entries[i].position.type_label) is None {
        i
    } else {
        find_bad(entries, i + 1)
    }
}

/// `find_bad` points at a failing entry (if any) and nothing before it
/// fails.
pub proof fn lemma_find_bad(entries: Seq<PositionEntryView>, i: int)
    requires
        0 <= i <= entries.len(),
    ensures
        i <= find_bad(entries, i) <= entries.len(),
        find_bad(entries, i) < entries.len() ==> FacilityType::strict_of(
            entries[find_bad(entries, i)].position.type_label,
        ) is None,
        forall|k: int|
            i <= k < find_bad(entries, i) ==> FacilityType::strict_of(
                (#[trigger] entries[k]).position.type_label,
            ) is Some,
    decreases entries.len() - i,
{
    if i < entries.len() && FacilityType::strict_of(entries[i].position.type_label) is Some {
        lemma_find_bad(entries, i + 1);
    }
}

/// The position records of a document whose entries all parse.
pub open spec fn positions_of(entries: Seq<PositionEntryView>) -> Seq<PositionRecord> {
    Seq::new(entries.len(), |i: int| position_record_of(entries[i]).unwrap())
}

/// What one airspace entry converts to: a station owned by the listed
/// positions (as a set), with no parent.
pub open spec fn station_record_of(a: AirspaceView) -> StationRecord {
    StationRecord { id: a.id, parent_id: None, controlled_by: dedup_first(a.owner) }
}

/// The station records of a document: one per airspace entry, duplicates
/// included.
pub open spec fn stations_of(airspace: Seq<AirspaceView>) -> Seq<StationRecord> {
    Seq::new(airspace.len(), |i: int| station_record_of(airspace[i]))
}

/// Mathematical view of a duplicate warning.
#[verifier::ext_equal]
pub ghost struct WarningRecord {
    pub id: Seq<char>,
    pub facility_type: FacilityType,
}

/// An airspace identifier together with its leniently resolved facility
/// type; reported once for every entry that repeats an earlier pair.
#[derive(Debug, Clone)]
pub struct DuplicateWarning {
    pub id: String,
    pub facility_type: FacilityType,
}

impl DeepView for DuplicateWarning {
    type V = WarningRecord;

    open spec fn deep_view(&self) -> WarningRecord {
        WarningRecord { id: self.id@, facility_type: self.facility_type }
    }
}

/// The duplicate-detection key of an airspace entry.
pub open spec fn station_key(a: AirspaceView) -> WarningRecord {
    WarningRecord { id: a.id, facility_type: FacilityType::lenient_of(a.group) }
}

/// Entry `i` repeats the key of an earlier entry.
pub open spec fn is_duplicate_at(airspace: Seq<AirspaceView>, i: int) -> bool {
    exists|j: int| 0 <= j < i && station_key(airspace[j]) == station_key(airspace[i])
}

/// The warnings the first `i` airspace entries produce, in order: one per
/// entry whose key repeats an earlier entry's.
pub open spec fn duplicate_warnings(airspace: Seq<AirspaceView>, i: int) -> Seq<WarningRecord>
    decreases i,
{
    if i <= 0 {
        Seq::empty()
    } else {
        duplicate_warnings(airspace, i - 1) + (if is_duplicate_at(airspace, i - 1) {
            seq![station_key(airspace[i - 1])]
        } else {
            Seq::empty()
        })
    }
}

/// Removes duplicate strings, keeping each first occurrence in place.
fn dedup_strings(v: &Vec<String>) -> (r: Vec<String>)
    ensures
        r.deep_view() == dedup_first(v.deep_view()),
{
    let ghost s = v.deep_view();
    let n = v.len();
    let mut out: Vec<String> = Vec::new();
    let mut i: usize = 0;
    proof {
        assert(s.subrange(0, 0) =~= Seq::<Seq<char>>::empty());
        assert(out.deep_view() =~= dedup_first(s.subrange(0, 0)));
    }
    while i < n
        invariant
            n == s.len(),
            s == v.deep_view(),
            i <= n,
            out.deep_view() == dedup_first(s.subrange(0, i as int)),
        decreases n - i,
    {
        let mut found = false;
        let mut k: usize = 0;
        proof {
            assert(s.subrange(0, 0) =~= Seq::<Seq<char>>::empty());
        }
        while k < i
            invariant
                n == s.len(),
                s == v.deep_view(),
                k <= i < n,
                found == s.subrange(0, k as int).contains(s[i as int]),
            decreases i - k,
        {
            proof {
                let pre = s.subrange(0, k as int);
                let post = s.subrange(0, k + 1);
                assert(post =~= pre.push(s[k as int]));
                if pre.contains(s[i as int]) {
                    let m = choose|m: int| 0 <= m < pre.len() && pre[m] == s[i as int];
                    assert(post[m] == s[i as int]);
                }
                if s[k as int] == s[i as int] {
                    assert(post[k as int] == s[i as int]);
                }
                if post.contains(s[i as int]) && s[k as int] != s[i as int] {
                    let m = choose|m: int| 0 <= m < post.len() && post[m] == s[i as int];
                    assert(m < k + 1);
                    if m < k {
                        assert(pre[m] == s[i as int]);
                    }
                }
            }
            if str_eq(v[k].as_str(), v[i].as_str()) {
                found = true;
            }
            k += 1;
        }
        proof {
            let pre = s.subrange(0, i as int);
            let post = s.subrange(0, i + 1);
            assert(post.drop_last() =~= pre);
            assert(post.last() == s[i as int]);
            assert(found == pre.contains(s[i as int]));
        }
        if !found {
            let ghost before = out.deep_view();
            out.push(v[i].clone());
            proof {
                assert(out.deep_view() =~= before + seq![s[i as int]]);
            }
        }
        i += 1;
    }
    proof {
        assert(s.subrange(0, n as int) =~= s);
    }
    out
}

/// Wraps each string as a position identifier, in place.
fn to_position_ids(v: Vec<String>) -> (r: Vec<PositionId>)
    ensures
        r.deep_view() == v.deep_view(),
{
    let ghost s = v.deep_view();
    let mut rest = v;
    let mut out: Vec<PositionId> = Vec::new();
    while rest.len() > 0
        invariant
            out@.len() + rest@.len() == s.len(),
            forall|m: int| 0 <= m < rest@.len() ==> (#[trigger] rest@[m])@ == s[out@.len() + m],
            forall|m: int| 0 <= m < out@.len() ==> (#[trigger] out@[m]).deep_view() == s[m],
        decreases rest.len(),
    {
        let ghost pre = rest@;
        let x = rest.remove(0);
        proof {
            assert(x == pre[0]);
            assert(rest@ =~= pre.subrange(1, pre.len() as int));
            assert(forall|m: int| 0 <= m < rest@.len() ==> rest@[m] == pre[m + 1]);
        }
        out.push(PositionId(x));
    }
    proof {
        assert(out.deep_view() =~= s);
    }
    out
}

impl PositionConfigFile {
    /// Converts the document's position entries, in document order; a
    /// single entry whose type label does not parse fails the whole
    /// conversion.
    pub fn positions_from(data: &VatglassesData) -> (r: Result<PositionConfigFile, ImportError>)
        ensures
            r is Ok <==> find_bad(data.positions.deep_view(), 0) == data.positions.deep_view().len(),
            (r matches Ok(f) ==> f@ == positions_of(data.positions.deep_view())),
            (r matches Err(err) ==> err == ImportError::InvalidFacilityType),
    {
        let ghost e = data.positions.deep_view();
        let n = data.positions.len();
        let mut out: Vec<PositionRaw> = Vec::new();
        let mut i: usize = 0;
        while i < n
            invariant
                n == e.len(),
                e == data.positions.deep_view(),
                i <= n,
                find_bad(e, 0) == find_bad(e, i as int),
                out.deep_view().len() == i,
                forall|k: int|
                    0 <= k < i ==> FacilityType::strict_of(
                        (#[trigger] e[k]).position.type_label,
                    ) is Some && out.deep_view()[k] == position_record_of(e[k]).unwrap(),
            decreases n - i,
        {
            let entry = &data.positions[i];
            proof {
                assert(e[i as int] == data.positions@[i as int].deep_view());
            }
            let ft = match FacilityType::parse_strict(entry.position.type_label.as_str()) {
                None => {
                    proof {
                        assert(find_bad(e, i as int) == i as int);
                    }
                    return Err(ImportError::InvalidFacilityType);
                },
                Some(ft) => ft,
            };
            proof {
                assert(find_bad(e, i as int) == find_bad(e, i + 1));
            }
            let freq = match &entry.position.frequency {
                Some(f) => f.clone(),
                None => String::from_str("199.998"),
            };
            let prefixes = dedup_strings(&entry.position.pre);
            let p = PositionRaw {
                id: PositionId::new(entry.id.clone()),
                frequency: freq,
                prefixes,
                facility_type: ft,
                profile_id: None,
            };
            proof {
                assert(p@ =~= position_record_of(e[i as int]).unwrap());
            }
            out.push(p);
            i += 1;
        }
        proof {
            lemma_find_bad(e, i as int);
            assert(out.deep_view() =~= positions_of(e));
        }
        Ok(PositionConfigFile { positions: out })
    }
}

impl TryFromRef<VatglassesData> for PositionConfigFile {
    type Error = ImportError;

    fn try_from_ref(value: &VatglassesData) -> (r: Result<Self, Self::Error>)
        ensures
            r is Ok <==> find_bad(value.positions.deep_view(), 0) == value.positions.deep_view().len(),
            (r matches Ok(f) ==> f@ == positions_of(value.positions.deep_view())),
    {
        PositionConfigFile::positions_from(value)
    }
}

impl StationConfigFile {
    /// Converts the document's airspace entries, in document order.  Every
    /// entry yields a station, duplicates included; an entry repeating an
    /// earlier (id, facility type) pair additionally yields a warning.
    pub fn stations_from(data: &VatglassesData) -> (r: (StationConfigFile, Vec<DuplicateWarning>))
        ensures
            r.0@ == stations_of(data.airspace.deep_view()),
            r.1.deep_view() == duplicate_warnings(
                data.airspace.deep_view(),
                data.airspace.deep_view().len() as int,
            ),
    {
        let ghost a = data.airspace.deep_view();
        let n = data.airspace.len();
        let mut stations: Vec<StationRaw> = Vec::new();
        let mut seen: Vec<DuplicateWarning> = Vec::new();
        let mut warnings: Vec<DuplicateWarning> = Vec::new();
        let mut i: usize = 0;
        proof {
            assert(warnings.deep_view() =~= duplicate_warnings(a, 0));
        }
        while i < n
            invariant
                n == a.len(),
                a == data.airspace.deep_view(),
                i <= n,
                stations.deep_view().len() == i,
                forall|k: int|
                    0 <= k < i ==> stations.deep_view()[k] == station_record_of(#[trigger] a[k]),
                seen.deep_view().len() == i,
                forall|k: int| 0 <= k < i ==> seen.deep_view()[k] == station_key(#[trigger] a[k]),
                warnings.deep_view() == duplicate_warnings(a, i as int),
            decreases n - i,
        {
            let entry = &data.airspace[i];
            proof {
                assert(a[i as int] == data.airspace@[i as int].deep_view());
            }
            let ft = FacilityType::from_label(entry.group.as_str());
            let mut dup = false;
            let mut k: usize = 0;
            while k < i
                invariant
                    n == a.len(),
                    a == data.airspace.deep_view(),
                    k <= i < n,
                    seen.deep_view().len() == i,
                    forall|m: int|
                        0 <= m < i ==> seen.deep_view()[m] == station_key(#[trigger] a[m]),
                    ft == FacilityType::lenient_of(a[i as int].group),
                    a[i as int].id == entry.id@,
                    dup == exists|m: int|
                        0 <= m < k && station_key(#[trigger] a[m]) == station_key(a[i as int]),
                decreases i - k,
            {
                let sk = &seen[k];
                proof {
                    assert(seen.deep_view()[k as int] == seen@[k as int].deep_view());
                }
                let same_id = str_eq(sk.id.as_str(), entry.id.as_str());
                let same_ft = sk.facility_type == ft;
                if same_id && same_ft {
                    proof {
                        assert(station_key(a[k as int]) =~= station_key(a[i as int]));
                    }
                    dup = true;
                } else {
                    proof {
                        assert(station_key(a[k as int]) != station_key(a[i as int])) by {
                            if station_key(a[k as int]) == station_key(a[i as int]) {
                                assert(sk.id@ == entry.id@);
                                assert(sk.facility_type == ft);
                            }
                        }
                    }
                }
                k += 1;
            }
            proof {
                assert(dup == is_duplicate_at(a, i as int));
                assert(duplicate_warnings(a, i + 1) == duplicate_warnings(a, i as int) + (
                if is_duplicate_at(a, i as int) {
                    seq![station_key(a[i as int])]
                } else {
                    Seq::<WarningRecord>::empty()
                }));
            }
            if dup {
                let ghost before = warnings.deep_view();
                warnings.push(DuplicateWarning { id: entry.id.clone(), facility_type: ft });
                proof {
                    assert(warnings.deep_view() =~= before + seq![station_key(a[i as int])]);
                }
            } else {
                proof {
                    assert(warnings.deep_view() =~= duplicate_warnings(a, i + 1));
                }
            }
            seen.push(DuplicateWarning { id: entry.id.clone(), facility_type: ft });
            let owners = to_position_ids(dedup_strings(&entry.owner));
            let st = StationRaw {
                id: StationId::new(entry.id.clone()),
                parent_id: None,
                controlled_by: owners,
            };
            proof {
                assert(st@ =~= station_record_of(a[i as int]));
            }
            stations.push(st);
            i += 1;
        }
        proof {
            assert(stations.deep_view() =~= stations_of(a));
        }
        (StationConfigFile { stations }, warnings)
    }
}

impl TryFromRef<VatglassesData> for StationConfigFile {
    type Error = ImportError;

    fn try_from_ref(value: &VatglassesData) -> (r: Result<Self, Self::Error>)
        ensures
            r matches Ok(f) && f@ == stations_of(value.airspace.deep_view()),
    {
        let (stations, _) = StationConfigFile::stations_from(value);
        Ok(stations)
    }
}

/// Everything one import of a document produces.
#[derive(Debug, Clone)]
pub struct VatglassesImport {
    pub positions: PositionConfigFile,
    pub stations: StationConfigFile,
    pub duplicates: Vec<DuplicateWarning>,
}

/// Imports a decoded document: converts stations and positions and sorts
/// both into output order.  One position entry with an unparsable type
/// label fails the import as a whole; duplicate airspace entries do not.
pub fn import(data: &VatglassesData) -> (r: Result<VatglassesImport, ImportError>)
    ensures
        r is Ok <==> find_bad(data.positions.deep_view(), 0) == data.positions.deep_view().len(),
        (r matches Ok(v) ==> v.positions@ == sort_positions_spec(
            positions_of(data.positions.deep_view()),
        ) && v.stations@ == sort_stations_spec(stations_of(data.airspace.deep_view()))
            && v.duplicates.deep_view() == duplicate_warnings(
            data.airspace.deep_view(),
            data.airspace.deep_view().len() as int,
        )),
        (r matches Err(err) ==> err == ImportError::InvalidFacilityType),
{
    let (mut stations, duplicates) = StationConfigFile::stations_from(data);
    stations.normalize();
    let mut positions = match PositionConfigFile::positions_from(data) {
        Ok(p) => p,
        Err(e) => {
            return Err(e);
        },
    };
    positions.normalize();
    Ok(VatglassesImport { positions, stations, duplicates })
}

/// The determinism law for this importer: both sorted outputs and the
/// warning list are functions of the decoded document alone, so two runs
/// on identical input produce identical records.
pub proof fn lemma_import_deterministic(
    entries: Seq<PositionEntryView>,
    airspace: Seq<AirspaceView>,
    pa: Seq<PositionRecord>,
    pb: Seq<PositionRecord>,
    sa: Seq<StationRecord>,
    sb: Seq<StationRecord>,
)
    requires
        pa == sort_positions_spec(positions_of(entries)),
        pb == sort_positions_spec(positions_of(entries)),
        sa == sort_stations_spec(stations_of(airspace)),
        sb == sort_stations_spec(stations_of(airspace)),
    ensures
        pa == pb,
        sa == sb,
{
}

/// The default-frequency law: a position entry that omits its frequency
/// converts to a record carrying the sentinel value.
pub proof fn lemma_default_frequency(e: PositionEntryView)
    requires
        e.position.frequency is None,
        FacilityType::strict_of(e.position.type_label) is Some,
    ensures
        position_record_of(e) matches Some(r) && r.frequency == default_frequency(),
{
}

/// The unknown-type asymmetry: a sectorfile record whose facility code
/// resolves to the unknown sentinel is dropped silently; a position entry
/// of this document whose type label does not parse fails the whole
/// conversion; an airspace entry whose group label is unrecognized is
/// still converted, with its duplicate-detection type the sentinel.
pub proof fn lemma_unknown_type_asymmetry(
    t: Seq<char>,
    ps: Seq<Seq<char>>,
    entries: Seq<PositionEntryView>,
    label: Seq<char>,
)
    ensures
        (crate::euroscope::parse_line(t) matches Some(r) && r.facility_type
            == FacilityType::Unknown) ==> crate::euroscope::line_record(t, ps) is None,
        (exists|k: int|
            0 <= k < entries.len() && FacilityType::strict_of(
                (#[trigger] entries[k]).position.type_label,
            ) is None) ==> find_bad(entries, 0) < entries.len(),
        FacilityType::strict_of(label) is None ==> FacilityType::lenient_of(label)
            == FacilityType::Unknown,
{
    if exists|k: int|
        0 <= k < entries.len() && FacilityType::strict_of(
            (#[trigger] entries[k]).position.type_label,
        ) is None {
        lemma_find_bad(entries, 0);
        if find_bad(entries, 0) == entries.len() {
            let k = choose|k: int|
                0 <= k < entries.len() && FacilityType::strict_of(
                    (#[trigger] entries[k]).position.type_label,
                ) is None;
            assert(FacilityType::strict_of(entries[k].position.type_label) is Some);
        }
    }
}

/// A later duplicate's warning is in the full warning list.
proof fn lemma_warning_emitted(a: Seq<AirspaceView>, j: int, n: int)
    requires
        0 <= j < n <= a.len(),
        is_duplicate_at(a, j),
    ensures
        duplicate_warnings(a, n).contains(station_key(a[j])),
    decreases n,
{
    if n == j + 1 {
        let w = duplicate_warnings(a, j);
        assert(duplicate_warnings(a, n) == w + seq![station_key(a[j])]);
        assert(duplicate_warnings(a, n)[w.len() as int] == station_key(a[j]));
    } else {
        lemma_warning_emitted(a, j, n - 1);
        let w = duplicate_warnings(a, n - 1);
        let m = choose|m: int| 0 <= m < w.len() && w[m] == station_key(a[j]);
        assert(duplicate_warnings(a, n)[m] == station_key(a[j]));
    }
}

/// The duplicate-stations law: two airspace entries sharing an identifier
/// and resolved facility type are both converted — every entry yields a
/// station — and the later one's key is in the warning list.
pub proof fn lemma_duplicates_kept(a: Seq<AirspaceView>, i: int, j: int)
    requires
        0 <= i < j < a.len(),
        station_key(a[i]) == station_key(a[j]),
    ensures
        stations_of(a).len() == a.len(),
        stations_of(a)[i] == station_record_of(a[i]),
        stations_of(a)[j] == station_record_of(a[j]),
        duplicate_warnings(a, a.len() as int).contains(station_key(a[j])),
{
    assert(is_duplicate_at(a, j));
    lemma_warning_emitted(a, j, a.len() as int);
}

} // verus!
