use vacs_data::euroscope;
use vacs_data::facility::FacilityType;
use vacs_data::model::PositionRaw;

fn parse(text: &str, prefixes: &[&str]) -> Vec<PositionRaw> {
    let prefixes: Vec<String> = prefixes.iter().map(|p| p.to_string()).collect();
    euroscope::parse_positions(text, &prefixes).positions
}

#[test]
fn line_with_seven_fields_parses() {
    let p = PositionRaw::from_ese_line("LON_S_CTR:London Control:129.430:LS:L:LON:CTR:x:y")
        .expect("line should parse");
    assert_eq!(p.id.0, "LON_S_CTR");
    assert_eq!(p.frequency, "129.430");
    assert_eq!(p.prefixes, vec!["LON".to_string()]);
    assert_eq!(p.facility_type, FacilityType::Center);
    assert!(p.profile_id.is_none());
}

#[test]
fn line_with_too_few_fields_is_invalid_format() {
    let r = PositionRaw::from_ese_line("LON_S_CTR:London Control:129.430");
    assert!(matches!(r, Err(euroscope::EseLineError::InvalidFormat)));
}

#[test]
fn line_with_bad_type_code_is_invalid_facility_type() {
    let r = PositionRaw::from_ese_line("A:B:C:D:E:F:NOPE");
    assert!(matches!(r, Err(euroscope::EseLineError::InvalidFacilityType)));
}

#[test]
fn section_boundary_is_respected() {
    // A grammar-conforming line before the header and one after the next
    // bracketed header must both be ignored.
    let text = "[GENERAL]\nEGLL_TWR:Tower:118.500:LT:L:EGLL:TWR\n[POSITIONS]\nLON_S_CTR:London:118.500:LS:L:LON:CTR\n[AIRSPACE]\nLON_N_CTR:London:133.700:LN:L:LON:CTR\n";
    let out = parse(text, &[]);
    assert_eq!(out.len(), 1);
    assert_eq!(out[0].id.0, "LON_S_CTR");
}

#[test]
fn no_header_means_no_records() {
    let text = "LON_S_CTR:London:118.500:LS:L:LON:CTR\n";
    assert!(parse(text, &[]).is_empty());
}

#[test]
fn repeated_header_line_is_skipped_not_a_boundary() {
    let text = "[POSITIONS]\n[POSITIONS]\nLON_S_CTR:London:118.500:LS:L:LON:CTR\n";
    let out = parse(text, &[]);
    assert_eq!(out.len(), 1);
}

#[test]
fn prefix_filter_excludes_and_includes() {
    let text = "[POSITIONS]\nEGLL_TWR:Tower:118.500:LT:L:EGLL:TWR\nLON_CTR:London:127.825:LC:L:LON:CTR\n";
    let out = parse(text, &["LON"]);
    assert_eq!(out.len(), 1);
    assert_eq!(out[0].id.0, "LON_CTR");
    // Either prefix matching suffices.
    let out = parse(text, &["XXX", "EGLL"]);
    assert_eq!(out.len(), 1);
    assert_eq!(out[0].id.0, "EGLL_TWR");
    // An empty filter keeps everything.
    let out = parse(text, &[]);
    assert_eq!(out.len(), 2);
}

#[test]
fn blank_and_comment_lines_are_skipped() {
    let text = "[POSITIONS]\n\n   \n; a comment with:enough:colons:to:look:like:a:record\nLON_CTR:London:127.825:LC:L:LON:CTR\n";
    let out = parse(text, &[]);
    assert_eq!(out.len(), 1);
}

#[test]
fn unknown_type_record_is_dropped_silently() {
    let text = "[POSITIONS]\nZZZ_X:Odd:199.998:ZX:Z:ZZZ:UNK\nLON_CTR:London:127.825:LC:L:LON:CTR\n";
    let out = parse(text, &[]);
    assert_eq!(out.len(), 1);
    assert_eq!(out[0].id.0, "LON_CTR");
}

#[test]
fn malformed_line_is_dropped_silently() {
    let text = "[POSITIONS]\nnot a record\nLON_CTR:London:127.825:LC:L:LON:CTR\n";
    let out = parse(text, &[]);
    assert_eq!(out.len(), 1);
}

#[test]
fn lines_are_trimmed_before_parsing() {
    let text = "  [POSITIONS]  \r\n  LON_CTR:London:127.825:LC:L:LON:CTR  \r\n";
    let out = parse(text, &[]);
    assert_eq!(out.len(), 1);
    assert_eq!(out[0].id.0, "LON_CTR");
}

#[test]
fn sectorfile_bytes_are_decoded_as_windows_1252() {
    // 0xE9 is "e with acute" in Windows-1252; it must survive decoding
    // (and would be invalid as UTF-8).
    let mut bytes = Vec::new();
    bytes.extend_from_slice(b"[POSITIONS]\nZ");
    bytes.push(0xE9);
    bytes.extend_from_slice(b"A:Nice:123.450:NC:N:LFMN:TWR\n");
    let file = euroscope::parse_sectorfile(&bytes, &Vec::new());
    assert_eq!(file.positions.len(), 1);
    assert_eq!(file.positions[0].id.0, "Z\u{e9}A");
}

#[test]
fn import_sorts_by_type_then_id() {
    let text = "[POSITIONS]\nEGLL_TWR:Tower:118.500:LT:L:EGLL:TWR\nLON_S_CTR:London:129.430:LS:L:LON:CTR\nEGLL_GND:Ground:121.900:LG:L:EGLL:GND\nEGKK_TWR:Tower:124.225:KT:K:EGKK:TWR\n";
    let file = euroscope::import(text.as_bytes(), &Vec::new());
    let ids: Vec<&str> = file.positions.iter().map(|p| p.id.0.as_str()).collect();
    // Center (highest ordinal) first, towers by ascending id, ground last.
    assert_eq!(ids, vec!["LON_S_CTR", "EGKK_TWR", "EGLL_TWR", "EGLL_GND"]);
}

#[test]
fn sectorfile_import_twice_gives_identical_output() {
    let text = "[POSITIONS]\nEGLL_TWR:Tower:118.500:LT:L:EGLL:TWR\nLON_S_CTR:London:129.430:LS:L:LON:CTR\n";
    let a = euroscope::import(text.as_bytes(), &Vec::new());
    let b = euroscope::import(text.as_bytes(), &Vec::new());
    assert_eq!(a.positions.len(), b.positions.len());
    for (x, y) in a.positions.iter().zip(b.positions.iter()) {
        assert_eq!(x.id.0, y.id.0);
        assert_eq!(x.frequency, y.frequency);
        assert_eq!(x.prefixes, y.prefixes);
        assert_eq!(x.facility_type, y.facility_type);
        assert_eq!(x.profile_id, y.profile_id);
    }
}
