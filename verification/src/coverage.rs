//! The validation failures the dataset loader reports, and their
//! rendering: a failure is a chain of context frames, each naming where it
//! arose, around one terminal error.
//!
//! Unwinding peels the frames outermost-first into an ordered location
//! path and the terminal error.  Human rendering phrases the two known
//! terminal shapes as sentences; any other terminal keeps its own text.
//! Machine rendering is the unwound pair itself, left to the caller to
//! emit.  All of this is pure: the same error always renders the same way.

use vstd::prelude::*;
use vstd::string::StringExecFns;

verus! {

/// A referential failure: something points at an entity that is absent.
#[derive(Debug, Clone)]
pub enum ValidationError {
    /// The field `field` references the identifier `ref_id`, which no
    /// entity carries.
    MissingReference { field: String, ref_id: String },
}

/// A structural failure of the dataset itself.
#[derive(Debug, Clone)]
pub enum StructureError {
    /// Two entities of kind `entity` share the identifier `id`.
    Duplicate { entity: String, id: String },
}

/// One context frame: where the inner error arose.
#[derive(Debug)]
pub struct ErrorContext {
    pub location: String,
    pub error: Box<CoverageError>,
}

/// A validation failure: context frames nested arbitrarily deep around a
/// referential, structural, or opaque terminal error.
#[derive(Debug)]
pub enum CoverageError {
    /// A frame naming where the wrapped error arose.
    Context(ErrorContext),
    /// A terminal referential error.
    Validation(ValidationError),
    /// A terminal structural error.
    Structure(StructureError),
    /// Any other terminal error, kept as its own text.
    Other(String),
}

/// How many context frames wrap the terminal error.
pub open spec fn context_depth(e: CoverageError) -> nat
    decreases e,
{
    match e {
        CoverageError::Context(c) => 1 + context_depth(*c.error),
        _ => 0,
    }
}

/// The locations of the context frames, outermost first.
pub open spec fn context_path(e: CoverageError) -> Seq<Seq<char>>
    decreases e,
{
    match e {
        CoverageError::Context(c) => seq![c.location@] + context_path(*c.error),
        _ => Seq::empty(),
    }
}

/// The terminal error inside the context frames.
pub open spec fn terminal_of(e: CoverageError) -> CoverageError
    decreases e,
{
    match e {
        CoverageError::Context(c) => terminal_of(*c.error),
        _ => e,
    }
}

/// Peels the context frames off an error: returns the frame locations in
/// outer-to-inner order and a reference to the terminal error.  This pair
/// is also the machine-readable rendering.
pub fn unwind_error(error: &CoverageError) -> (r: (Vec<String>, &CoverageError))
    ensures
        r.0.deep_view() == context_path(*error),
        *r.1 == terminal_of(*error),
        !(*r.1 is Context),
{
    let mut context: Vec<String> = Vec::new();
    let mut current: &CoverageError = error;
    proof {
        assert(context.deep_view() =~= Seq::<Seq<char>>::empty());
        assert(context.deep_view() + context_path(*error) =~= context_path(*error));
    }
    loop
        invariant
            context.deep_view() + context_path(*current) == context_path(*error),
            terminal_of(*current) == terminal_of(*error),
        decreases context_depth(*current),
    {
        match current {
            CoverageError::Context(ctx) => {
                let ghost before = context.deep_view();
                context.push(ctx.location.clone());
                proof {
                    assert(context.deep_view() =~= before + seq![ctx.location@]);
                    assert((before + seq![ctx.location@]) + context_path(*ctx.error) =~= before
                        + (seq![ctx.location@] + context_path(*ctx.error)));
                }
                current = &ctx.error;
            },
            _ => {
                return (context, current);
            },
        }
    }
}

/// The human phrasing of a terminal error: a sentence for each of the two
/// known shapes, the error's own text otherwise.
pub open spec fn render_human_spec(e: CoverageError) -> Seq<char> {
    match e {
        CoverageError::Validation(
            ValidationError::MissingReference { field, ref_id },
        ) => "referenced `"@ + field@ + "` `"@ + ref_id@ + "` does not exist"@,
        CoverageError::Structure(StructureError::Duplicate { entity, id }) => "duplicate `"@
            + entity@ + "` `"@ + id@ + "`"@,
        CoverageError::Other(msg) => msg@,
        CoverageError::Context(_) => Seq::empty(),
    }
}

/// Renders a terminal error for human output.
pub fn render_human(error: &CoverageError) -> (r: String)
    requires
        !(error is Context),
    ensures
        r@ == render_human_spec(*error),
{
    match error {
        CoverageError::Validation(ValidationError::MissingReference { field, ref_id }) => {
            String::from_str("referenced `").concat(field.as_str()).concat("` `").concat(
                ref_id.as_str(),
            ).concat("` does not exist")
        },
        CoverageError::Structure(StructureError::Duplicate { entity, id }) => {
            String::from_str("duplicate `").concat(entity.as_str()).concat("` `").concat(
                id.as_str(),
            ).concat("`")
        },
        CoverageError::Other(msg) => msg.clone(),
        CoverageError::Context(_) => String::new(),
    }
}

} // verus!
