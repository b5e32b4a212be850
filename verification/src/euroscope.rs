//! Line-oriented state-machine parser for the legacy sectorfile format.
//!
//! The file is Windows-1252 encoded text.  Only the positions section is
//! read: a line equal to the section header opens it, the next bracketed
//! header line ends parsing entirely, and in between each colon-delimited
//! record of at least seven fields with a known facility-type code becomes
//! a position.  Malformed lines, filtered-out lines and records of unknown
//! facility type are dropped silently.

use vstd::prelude::*;
use crate::facility::FacilityType;
use crate::model::{PositionConfigFile, PositionId, PositionRaw, PositionRecord};
use crate::text::{has_prefix, split_on, split_str, starts_with_str, str_eq, trim_spec, trim_str};

verus! {

/// The trimmed line that opens the positions section.
pub open spec fn header() -> Seq<char> {
    "[POSITIONS]"@
}

/// A trimmed line skipped in either state: blank or a comment.
pub open spec fn skippable(t: Seq<char>) -> bool {
    t.len() == 0 || t[0] == ';'
}

/// A trimmed line in bracket form.
pub open spec fn bracketed(t: Seq<char>) -> bool {
    t.len() > 0 && t[0] == '[' && t[t.len() - 1] == ']'
}

/// A trimmed line that ends the positions section: any bracketed header
/// other than the positions header itself.
pub open spec fn boundary(t: Seq<char>) -> bool {
    bracketed(t) && t != header()
}

/// The prefix filter: an empty filter passes everything; otherwise some
/// configured prefix must open the line.
pub open spec fn passes_filter(t: Seq<char>, ps: Seq<Seq<char>>) -> bool {
    ps.len() == 0 || exists|k: int| 0 <= k < ps.len() && has_prefix(t, ps[k])
}

/// What a trimmed record line yields: at least seven colon-separated
/// fields whose seventh is a facility-type code, read as id, frequency
/// (third field), a single covered prefix (sixth field), and the type.
pub open spec fn parse_line(t: Seq<char>) -> Option<PositionRecord> {
    let fields = split_on(t, ':');
    if fields.len() < 7 {
        None
    } else {
        match FacilityType::strict_of(fields[6]) {
            None => None,
            Some(ft) => Some(
                PositionRecord {
                    id: fields[0],
                    frequency: fields[2],
                    prefixes: seq![fields[5]],
                    facility_type: ft,
                    profile_id: None,
                },
            ),
        }
    }
}

/// What a trimmed line inside the positions section contributes: nothing
/// if it is blank, a comment, the header again, filtered out, malformed,
/// or of unknown facility type; otherwise its record.
pub open spec fn line_record(t: Seq<char>, ps: Seq<Seq<char>>) -> Option<PositionRecord> {
    if skippable(t) || t == header() {
        None
    } else if !passes_filter(t, ps) {
        None
    } else {
        match parse_line(t) {
            None => None,
            Some(r) => if r.facility_type == FacilityType::Unknown {
                None
            } else {
                Some(r)
            },
        }
    }
}

/// Index of the first line at or after `i` whose trimmed form is the
/// section header, or the line count if there is none.
pub open spec fn find_header(lines: Seq<Seq<char>>, i: int) -> int
    decreases lines.len() - i when 0 <= i <= lines.len()
{
    if i >= lines.len() {
        lines.len() as int
    } else if trim_spec(lines[i]) == header() {
        i
    } else {
        find_header(lines, i + 1)
    }
}

/// Index of the first line at or after `i` whose trimmed form is a
/// section boundary, or the line count if there is none.
pub open spec fn find_boundary(lines: Seq<Seq<char>>, i: int) -> int
    decreases lines.len() - i when 0 <= i <= lines.len()
{
    if i >= lines.len() {
        lines.len() as int
    } else if boundary(trim_spec(lines[i])) {
        i
    } else {
        find_boundary(lines, i + 1)
    }
}

/// `find_header` stays within `[i, lines.len()]`.
proof fn lemma_find_header_bounds(lines: Seq<Seq<char>>, i: int)
    requires
        0 <= i <= lines.len(),
    ensures
        i <= find_header(lines, i) <= lines.len(),
    decreases lines.len() - i,
{
    if i < lines.len() && trim_spec(lines[i]) != header() {
        lemma_find_header_bounds(lines, i + 1);
    }
}

/// `find_boundary` stays within `[i, lines.len()]`.
proof fn lemma_find_boundary_bounds(lines: Seq<Seq<char>>, i: int)
    requires
        0 <= i <= lines.len(),
    ensures
        i <= find_boundary(lines, i) <= lines.len(),
    decreases lines.len() - i,
{
    if i < lines.len() && !boundary(trim_spec(lines[i])) {
        lemma_find_boundary_bounds(lines, i + 1);
    }
}

/// The records the lines with indices in `[i, e)` contribute, in order.
pub open spec fn records_in(lines: Seq<Seq<char>>, i: int, e: int, ps: Seq<Seq<char>>) -> Seq<
    PositionRecord,
>
    decreases e - i when i <= e
{
    if i >= e {
        Seq::empty()
    } else {
        let rest = records_in(lines, i + 1, e, ps);
        match line_record(trim_spec(lines[i]), ps) {
            Some(r) => seq![r] + rest,
            None => rest,
        }
    }
}

/// Extending the range by one line appends that line's contribution.
proof fn lemma_records_in_snoc(lines: Seq<Seq<char>>, a: int, b: int, ps: Seq<Seq<char>>)
    requires
        a <= b,
    ensures
        records_in(lines, a, b + 1, ps) == match line_record(trim_spec(lines[b]), ps) {
            Some(r) => records_in(lines, a, b, ps) + seq![r],
            None => records_in(lines, a, b, ps),
        },
    decreases b - a,
{
    if a < b {
        lemma_records_in_snoc(lines, a + 1, b, ps);
        match line_record(trim_spec(lines[b]), ps) {
            Some(r) => {
                match line_record(trim_spec(lines[a]), ps) {
                    Some(q) => {
                        assert(seq![q] + (records_in(lines, a + 1, b, ps) + seq![r]) =~= (seq![q]
                            + records_in(lines, a + 1, b, ps)) + seq![r]);
                    },
                    None => {},
                }
            },
            None => {},
        }
    } else {
        assert(records_in(lines, a + 1, b + 1, ps) =~= Seq::empty());
        assert(records_in(lines, a, b, ps) =~= Seq::empty());
        match line_record(trim_spec(lines[b]), ps) {
            Some(r) => {
                assert(records_in(lines, a, b + 1, ps) =~= seq![r] + Seq::empty());
                assert(seq![r] + Seq::empty() =~= records_in(lines, a, b, ps) + seq![r]);
            },
            None => {
                assert(records_in(lines, a, b + 1, ps) =~= Seq::empty());
            },
        }
    }
}

/// The records of a sectorfile's lines: the contributions of the lines
/// strictly between the first header line and the next boundary line.
pub open spec fn es_records(lines: Seq<Seq<char>>, ps: Seq<Seq<char>>) -> Seq<PositionRecord> {
    let h = find_header(lines, 0);
    if h >= lines.len() {
        Seq::empty()
    } else {
        records_in(lines, h + 1, find_boundary(lines, h + 1), ps)
    }
}

/// The positions parsed from decoded sectorfile text under a prefix
/// filter.
pub open spec fn es_positions(text: Seq<char>, ps: Seq<Seq<char>>) -> Seq<PositionRecord> {
    es_records(split_on(text, '\n'), ps)
}

/// Why a line fails to parse as a position record.
#[derive(Debug, Clone, Copy, PartialEq, Eq, Structural)]
pub enum EseLineError {
    /// Fewer than seven colon-separated fields.
    InvalidFormat,
    /// The seventh field is not a facility-type code.
    InvalidFacilityType,
}

impl PositionRaw {
    /// Reads one trimmed sectorfile line as a position record.
    pub fn from_ese_line(line: &str) -> (r: Result<PositionRaw, EseLineError>)
        ensures
            r is Ok <==> parse_line(line@) is Some,
            r matches Ok(p) ==> parse_line(line@) == Some(p@),
            r matches Err(e) ==> (e == EseLineError::InvalidFormat <==> split_on(
                line@,
                ':',
            ).len() < 7),
    {
        let fields = split_str(line, ':');
        if fields.len() < 7 {
            return Err(EseLineError::InvalidFormat);
        }
        let ft = match FacilityType::parse_strict(fields[6].as_str()) {
            None => {
                return Err(EseLineError::InvalidFacilityType);
            },
            Some(ft) => ft,
        };
        let prefixes = vec![fields[5].clone()];
        let p = PositionRaw {
            id: PositionId::new(fields[0].clone()),
            frequency: fields[2].clone(),
            prefixes,
            facility_type: ft,
            profile_id: None,
        };
        proof {
            let spec_fields = split_on(line@, ':');
            assert(fields.deep_view()[6] == fields@[6]@);
            assert(fields.deep_view()[0] == fields@[0]@);
            assert(fields.deep_view()[2] == fields@[2]@);
            assert(fields.deep_view()[5] == fields@[5]@);
            assert(p@.prefixes =~= seq![spec_fields[5]]);
            assert(p@ =~= parse_line(line@).unwrap());
        }
        Ok(p)
    }
}

/// Parses decoded sectorfile text: walks the lines through the two-state
/// machine and collects the positions section's records, unsorted.
pub fn parse_positions(text: &str, prefixes: &Vec<String>) -> (r: PositionConfigFile)
    ensures
        r@ == es_positions(text@, prefixes.deep_view()),
{
    let lines = split_str(text, '\n');
    let ghost l = lines.deep_view();
    let ghost ps = prefixes.deep_view();
    let ghost h0 = find_header(l, 0);
    let ghost e0 = find_boundary(l, h0 + 1);
    let n = lines.len();
    let mut positions: Vec<PositionRaw> = Vec::new();
    let mut in_section = false;
    let mut i: usize = 0;
    proof {
        assert(positions.deep_view() =~= Seq::<PositionRecord>::empty());
        lemma_find_header_bounds(l, 0);
    }
    loop
        invariant
            n == l.len(),
            l == lines.deep_view(),
            ps == prefixes.deep_view(),
            h0 == find_header(l, 0),
            e0 == find_boundary(l, h0 + 1),
            i <= n,
            !in_section ==> find_header(l, i as int) == h0 && i <= h0 && positions.deep_view()
                =~= Seq::<PositionRecord>::empty(),
            in_section ==> 0 <= h0 < i <= e0 && e0 == find_boundary(l, i as int)
                && positions.deep_view() == records_in(l, h0 + 1, i as int, ps),
        ensures
            positions.deep_view() == es_records(l, ps),
        decreases n - i,
    {
        if i >= n {
            proof {
                if !in_section {
                    assert(h0 == n);
                } else {
                    lemma_find_boundary_bounds(l, i as int);
                    assert(e0 == n);
                }
            }
            break;
        }
        proof {
            assert(l[i as int] == lines@[i as int]@);
        }
        let t = trim_str(lines[i].as_str());
        let ghost tl = trim_spec(l[i as int]);
        let tn = t.unicode_len();
        proof {
            reveal_strlit("[POSITIONS]");
        }
        if tn == 0 || t.get_char(0) == ';' {
            // blank line or comment: skipped in either state
            proof {
                assert(skippable(tl));
                assert(tl != header());
                assert(!bracketed(tl));
                if in_section {
                    assert(!boundary(tl));
                    assert(find_boundary(l, i as int) == find_boundary(l, i + 1));
                    lemma_find_boundary_bounds(l, i + 1);
                    lemma_records_in_snoc(l, h0 + 1, i as int, ps);
                    assert(line_record(tl, ps) is None);
                } else {
                    assert(find_header(l, i as int) == find_header(l, i + 1));
                    lemma_find_header_bounds(l, i + 1);
                }
            }
            i += 1;
        } else if str_eq(t, "[POSITIONS]") {
            // the section header: enters the section, or is skipped inside it
            proof {
                assert(tl == header());
                assert(!boundary(tl));
                if in_section {
                    assert(!boundary(tl));
                    assert(find_boundary(l, i as int) == find_boundary(l, i + 1));
                    lemma_find_boundary_bounds(l, i + 1);
                    lemma_records_in_snoc(l, h0 + 1, i as int, ps);
                    assert(line_record(tl, ps) is None);
                } else {
                    assert(find_header(l, i as int) == i as int);
                    lemma_find_boundary_bounds(l, i + 1);
                    assert(records_in(l, i + 1, i + 1, ps) =~= Seq::<PositionRecord>::empty());
                }
            }
            in_section = true;
            i += 1;
        } else if in_section && t.get_char(0) == '[' && t.get_char(tn - 1) == ']' {
            // a later bracketed header: the section is over, the rest of
            // the file is ignored
            proof {
                assert(tl.len() == tn);
                assert(boundary(tl));
                assert(find_boundary(l, i as int) == i as int);
                assert(i as int == e0);
            }
            break;
        } else if !in_section {
            // before the section: everything else is ignored
            proof {
                assert(tl != header());
                assert(find_header(l, i as int) == find_header(l, i + 1));
                lemma_find_header_bounds(l, i + 1);
            }
            i += 1;
        } else {
            // a candidate record line inside the section
            proof {
                assert(!skippable(tl));
                assert(tl != header());
                assert(!bracketed(tl)) by {
                    assert(tl.len() == tn);
                }
                assert(!boundary(tl));
                assert(find_boundary(l, i as int) == find_boundary(l, i + 1));
                lemma_find_boundary_bounds(l, i + 1);
                lemma_records_in_snoc(l, h0 + 1, i as int, ps);
            }
            if !passes_filter_exec(t, prefixes) {
                proof {
                    assert(line_record(tl, ps) is None);
                }
            } else {
                match PositionRaw::from_ese_line(t) {
                    Err(_) => {
                        proof {
                            assert(line_record(tl, ps) is None);
                        }
                    },
                    Ok(p) => {
                        if p.facility_type == FacilityType::Unknown {
                            proof {
                                assert(line_record(tl, ps) is None);
                            }
                        } else {
                            proof {
                                assert(line_record(tl, ps) == Some(p@));
                                assert(records_in(l, h0 + 1, i + 1, ps) == records_in(
                                    l,
                                    h0 + 1,
                                    i as int,
                                    ps,
                                ) + seq![p@]);
                            }
                            let ghost before = positions.deep_view();
                            positions.push(p);
                            proof {
                                assert(positions.deep_view() =~= before + seq![p@]);
                            }
                        }
                    },
                }
            }
            i += 1;
        }
    }
    PositionConfigFile { positions }
}

/// The text that decoding a byte sequence as Windows-1252 yields.  The
/// decoding is a pure function of the bytes; it is named here rather than
/// spelled out.
pub uninterp spec fn windows_1252_decoding(bytes: Seq<u8>) -> Seq<char>;

/// Relies on encoding_rs's `Encoding::decode` on `WINDOWS_1252`: decodes a
/// complete byte buffer to text (with BOM sniffing, as the importer always
/// decoded its input); the result depends on the bytes alone.  The length
/// bound keeps the decoder's backing-buffer size calculation, documented
/// to panic on overflow, within `usize`.
#[verifier::external_body]
fn decode_windows_1252(bytes: &[u8]) -> (r: String)
    requires
        bytes@.len() * 3 <= usize::MAX,
    ensures
        r@ == windows_1252_decoding(bytes@),
{
    let (text, _, _) = encoding_rs::WINDOWS_1252.decode(bytes);
    text.into_owned()
}

/// Parses a sectorfile from its raw bytes: decodes the Windows-1252 text
/// and collects the positions section's records, unsorted.
pub fn parse_sectorfile(bytes: &[u8], prefixes: &Vec<String>) -> (r: PositionConfigFile)
    requires
        bytes@.len() * 3 <= usize::MAX,
    ensures
        r@ == es_positions(windows_1252_decoding(bytes@), prefixes.deep_view()),
{
    let text = decode_windows_1252(bytes);
    parse_positions(text.as_str(), prefixes)
}

/// Imports a sectorfile: parses its bytes and sorts the positions into
/// output order.
pub fn import(bytes: &[u8], prefixes: &Vec<String>) -> (r: PositionConfigFile)
    requires
        bytes@.len() * 3 <= usize::MAX,
    ensures
        r@ == crate::normalize::sort_positions_spec(
            es_positions(windows_1252_decoding(bytes@), prefixes.deep_view()),
        ),
{
    let mut file = parse_sectorfile(bytes, prefixes);
    file.normalize();
    file
}

/// The determinism law for this importer: the sorted output is a
/// function of the input bytes and the configured prefixes alone, so two
/// runs on identical input produce identical records.  Re-running with
/// overwrite enabled is permitted to write them again (see
/// `crate::check_output_file`), giving identical files.
pub proof fn lemma_import_deterministic(
    bytes: Seq<u8>,
    ps: Seq<Seq<char>>,
    ra: Seq<PositionRecord>,
    rb: Seq<PositionRecord>,
)
    requires
        ra == crate::normalize::sort_positions_spec(
            es_positions(windows_1252_decoding(bytes), ps),
        ),
        rb == crate::normalize::sort_positions_spec(
            es_positions(windows_1252_decoding(bytes), ps),
        ),
    ensures
        ra == rb,
{
}

/// Every record a line range contributes comes from one of its lines.
proof fn lemma_records_in_source(
    lines: Seq<Seq<char>>,
    a: int,
    e: int,
    ps: Seq<Seq<char>>,
    m: int,
)
    requires
        a <= e,
        0 <= m < records_in(lines, a, e, ps).len(),
    ensures
        exists|i: int|
            a <= i < e && line_record(trim_spec(lines[i]), ps) == Some(
                records_in(lines, a, e, ps)[m],
            ),
    decreases e - a,
{
    let r = records_in(lines, a, e, ps);
    match line_record(trim_spec(lines[a]), ps) {
        Some(x) => {
            if m == 0 {
                assert(r[0] == x);
                assert(line_record(trim_spec(lines[a]), ps) == Some(r[m]));
            } else {
                lemma_records_in_source(lines, a + 1, e, ps, m - 1);
                assert(records_in(lines, a + 1, e, ps)[m - 1] == r[m]);
            }
        },
        None => {
            lemma_records_in_source(lines, a + 1, e, ps, m);
        },
    }
}

/// The section-boundary law: every record in the parse result comes from a
/// line strictly inside the positions section, that is, after the first
/// header line and before the next bracketed header.  Lines before the
/// header, and lines at or after the boundary, never contribute a record,
/// however well they match the position grammar.
pub proof fn lemma_section_boundary(lines: Seq<Seq<char>>, ps: Seq<Seq<char>>, m: int)
    requires
        0 <= m < es_records(lines, ps).len(),
    ensures
        find_header(lines, 0) < lines.len(),
        exists|i: int|
            find_header(lines, 0) < i < find_boundary(lines, find_header(lines, 0) + 1)
                && line_record(trim_spec(lines[i]), ps) == Some(es_records(lines, ps)[m]),
{
    let h = find_header(lines, 0);
    lemma_find_header_bounds(lines, 0);
    assert(h < lines.len()) by {
        if h >= lines.len() {
            assert(es_records(lines, ps).len() == 0);
        }
    }
    lemma_find_boundary_bounds(lines, h + 1);
    lemma_records_in_source(lines, h + 1, find_boundary(lines, h + 1), ps, m);
}

/// The prefix-filter law: under a non-empty filter, a line that starts
/// with none of the configured prefixes contributes nothing, and a line
/// that starts with a configured prefix is filtered in: it contributes its
/// record whenever the state machine and the grammar accept it.
pub proof fn lemma_prefix_filter(t: Seq<char>, ps: Seq<Seq<char>>)
    requires
        ps.len() > 0,
    ensures
        (forall|k: int| 0 <= k < ps.len() ==> !has_prefix(t, #[trigger] ps[k])) ==> line_record(
            t,
            ps,
        ) is None,
        ((exists|k: int| 0 <= k < ps.len() && has_prefix(t, ps[k])) && !skippable(t) && t
            != header() && (parse_line(t) matches Some(r) && r.facility_type
            != FacilityType::Unknown)) ==> line_record(t, ps) == parse_line(t),
{
}

/// The executable prefix filter.
fn passes_filter_exec(t: &str, prefixes: &Vec<String>) -> (r: bool)
    ensures
        r == passes_filter(t@, prefixes.deep_view()),
{
    if prefixes.len() == 0 {
        return true;
    }
    let ghost ps = prefixes.deep_view();
    let n = prefixes.len();
    let mut k: usize = 0;
    while k < n
        invariant
            n == ps.len(),
            ps == prefixes.deep_view(),
            k <= n,
            forall|m: int| 0 <= m < k ==> !has_prefix(t@, #[trigger] ps[m]),
        decreases n - k,
    {
        if starts_with_str(t, prefixes[k].as_str()) {
            assert(has_prefix(t@, ps[k as int]));
            return true;
        }
        k += 1;
    }
    false
}

} // verus!
