use vacs_data::coverage::{CoverageError, ErrorContext, StructureError, ValidationError,
    render_human, unwind_error};

fn ctx(location: &str, inner: CoverageError) -> CoverageError {
    CoverageError::Context(ErrorContext { location: location.to_string(), error: Box::new(inner) })
}

fn missing_reference(field: &str, ref_id: &str) -> CoverageError {
    CoverageError::Validation(ValidationError::MissingReference {
        field: field.to_string(),
        ref_id: ref_id.to_string(),
    })
}

#[test]
fn unwind_collects_locations_outer_to_inner() {
    let err = ctx(
        "dataset",
        ctx("station:EGLL_S_APP", missing_reference("controlled_by", "EGLL_APP")),
    );
    let (path, terminal) = unwind_error(&err);
    assert_eq!(path, vec!["dataset".to_string(), "station:EGLL_S_APP".to_string()]);
    assert_eq!(
        render_human(terminal),
        "referenced `controlled_by` `EGLL_APP` does not exist"
    );
}

#[test]
fn unwind_of_a_terminal_error_has_an_empty_path() {
    let err = missing_reference("controlled_by", "EGLL_APP");
    let (path, terminal) = unwind_error(&err);
    assert!(path.is_empty());
    assert!(matches!(terminal, CoverageError::Validation(_)));
}

#[test]
fn unwind_of_a_deep_chain() {
    let err = ctx("a", ctx("b", ctx("c", CoverageError::Other("boom".to_string()))));
    let (path, terminal) = unwind_error(&err);
    assert_eq!(path, vec!["a".to_string(), "b".to_string(), "c".to_string()]);
    assert_eq!(render_human(terminal), "boom");
}

#[test]
fn duplicate_renders_as_a_sentence() {
    let err = CoverageError::Structure(StructureError::Duplicate {
        entity: "station".to_string(),
        id: "EGLL_S_APP".to_string(),
    });
    assert_eq!(render_human(&err), "duplicate `station` `EGLL_S_APP`");
}

#[test]
fn other_errors_keep_their_own_text() {
    let err = CoverageError::Other("directory is unreadable".to_string());
    assert_eq!(render_human(&err), "directory is unreadable");
}

#[test]
fn rendering_is_pure() {
    let err = missing_reference("controlled_by", "EGLL_APP");
    assert_eq!(render_human(&err), render_human(&err));
}
