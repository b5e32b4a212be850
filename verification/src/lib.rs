//! Importers and validation-error rendering for an ATC coverage dataset.
//!
//! Two third-party data sources are normalized into one canonical schema of
//! positions and stations: a legacy line-oriented sectorfile and a JSON
//! export keyed by airspace groups and position identifiers.  The crate also
//! renders the nested context chains that the dataset validator reports.

pub mod cli;
pub mod coverage;
pub mod euroscope;
pub mod facility;
pub mod model;
pub mod normalize;
pub mod text;
pub mod vatglasses;

use vstd::prelude::*;

verus! {

/// Errors an import operation can surface.  I/O-level failures are decided
/// here from plain facts about the filesystem (does a path exist, is it a
/// directory); the caller performs the actual I/O.
#[derive(Debug, Clone, PartialEq, Eq, Structural)]
pub enum ImportError {
    /// The input file does not exist.
    InputMissing,
    /// The output path exists but is not a directory.
    OutputNotDirectory,
    /// An output file already exists and overwriting was not requested.
    OutputFileExists,
    /// A position entry carried a facility type label that does not parse.
    InvalidFacilityType,
}

/// Decides whether an import may proceed given whether its input exists.
pub fn check_input_exists(input_exists: bool) -> (r: Result<(), ImportError>)
    ensures
        r is Ok <==> input_exists,
        !input_exists ==> r == Result::<(), ImportError>::Err(ImportError::InputMissing),
{
    if input_exists {
        Ok(())
    } else {
        Err(ImportError::InputMissing)
    }
}

/// What the caller must do to make the output directory available.
#[derive(Debug, Clone, Copy, PartialEq, Eq, Structural)]
pub enum DirAction {
    /// The directory is already in place; nothing to create.
    AlreadyThere,
    /// The path does not exist yet and must be created.
    Create,
}

/// Decides how to provide the output directory from whether the path exists
/// and whether it is a directory.
pub fn ensure_output_directory(output_exists: bool, output_is_dir: bool) -> (r: Result<
    DirAction,
    ImportError,
>)
    ensures
        output_exists && output_is_dir ==> r == Result::<DirAction, ImportError>::Ok(
            DirAction::AlreadyThere,
        ),
        output_exists && !output_is_dir ==> r == Result::<DirAction, ImportError>::Err(
            ImportError::OutputNotDirectory,
        ),
        !output_exists ==> r == Result::<DirAction, ImportError>::Ok(DirAction::Create),
{
    if output_exists {
        if output_is_dir {
            Ok(DirAction::AlreadyThere)
        } else {
            Err(ImportError::OutputNotDirectory)
        }
    } else {
        Ok(DirAction::Create)
    }
}

/// How an output file may be written.
#[derive(Debug, Clone, Copy, PartialEq, Eq, Structural)]
pub enum WriteAction {
    /// The file does not exist yet.
    WriteNew,
    /// The file exists and will be overwritten; a warning should be logged.
    Overwrite,
}

/// Decides whether an output file may be written, from whether it already
/// exists and whether overwriting was requested.
pub fn check_output_file(file_exists: bool, overwrite: bool) -> (r: Result<
    WriteAction,
    ImportError,
>)
    ensures
        r is Ok <==> (!file_exists || overwrite),
        !file_exists ==> r == Result::<WriteAction, ImportError>::Ok(WriteAction::WriteNew),
        file_exists && overwrite ==> r == Result::<WriteAction, ImportError>::Ok(
            WriteAction::Overwrite,
        ),
        file_exists && !overwrite ==> r == Result::<WriteAction, ImportError>::Err(
            ImportError::OutputFileExists,
        ),
{
    if !file_exists {
        Ok(WriteAction::WriteNew)
    } else if overwrite {
        Ok(WriteAction::Overwrite)
    } else {
        Err(ImportError::OutputFileExists)
    }
}

} // verus!
