//! The command surface: which operation was requested, and the resolution
//! of its paths.  Each path may arrive as a flag or as a positional
//! argument; the flag wins, and a missing required path is a usage error.

use vstd::prelude::*;

verus! {

/// A requested operation, as the argument parser hands it over.
#[derive(Debug, Clone)]
pub enum Command {
    /// Run validations on the whole dataset.
    Validate { input_pos: Option<String>, input: Option<String> },
    /// Import data from an external source.
    Import { cmd: ImportCommand },
}

/// Which importer to run, with its raw path arguments.
#[derive(Debug, Clone)]
pub enum ImportCommand {
    /// Import a VATglasses JSON export.
    Vatglasses {
        input_pos: Option<String>,
        output_pos: Option<String>,
        input: Option<String>,
        output: Option<String>,
        overwrite: bool,
    },
    /// Import a EuroScope sectorfile.
    Euroscope {
        input_pos: Option<String>,
        output_pos: Option<String>,
        input: Option<String>,
        output: Option<String>,
        prefixes: Option<Vec<String>>,
        overwrite: bool,
    },
}

/// A missing required argument; reported before any I/O, with its own
/// exit status.
#[derive(Debug, Clone, Copy, PartialEq, Eq, Structural)]
pub enum UsageError {
    /// No input path was given, by flag or positionally.
    MissingInput,
    /// No output path was given, by flag or positionally.
    MissingOutput,
}

/// A fully resolved operation, every required path present.
#[derive(Debug, Clone)]
pub enum Action {
    /// Validate the dataset rooted at `input`.
    Validate { input: String },
    /// Import the VATglasses export at `input` into `output`.
    ImportVatglasses { input: String, output: String, overwrite: bool },
    /// Import the sectorfile at `input` into `output`, keeping only lines
    /// opened by one of `prefixes` if any are given.
    ImportEuroscope {
        input: String,
        output: String,
        prefixes: Option<Vec<String>>,
        overwrite: bool,
    },
}

/// The flag value wins over the positional one.
pub open spec fn resolved(flag: Option<String>, positional: Option<String>) -> Option<String> {
    if flag is Some {
        flag
    } else {
        positional
    }
}

/// The operation a command resolves to, or the usage error it raises: a
/// missing input is reported first, then a missing output.
pub open spec fn plan_spec(cmd: Command) -> Result<Action, UsageError> {
    match cmd {
        Command::Validate { input_pos, input } => match resolved(input, input_pos) {
            Some(i) => Ok(Action::Validate { input: i }),
            None => Err(UsageError::MissingInput),
        },
        Command::Import { cmd } => match cmd {
            ImportCommand::Vatglasses {
                input_pos,
                output_pos,
                input,
                output,
                overwrite,
            } => match resolved(input, input_pos) {
                None => Err(UsageError::MissingInput),
                Some(i) => match resolved(output, output_pos) {
                    None => Err(UsageError::MissingOutput),
                    Some(o) => Ok(
                        Action::ImportVatglasses { input: i, output: o, overwrite },
                    ),
                },
            },
            ImportCommand::Euroscope {
                input_pos,
                output_pos,
                input,
                output,
                prefixes,
                overwrite,
            } => match resolved(input, input_pos) {
                None => Err(UsageError::MissingInput),
                Some(i) => match resolved(output, output_pos) {
                    None => Err(UsageError::MissingOutput),
                    Some(o) => Ok(
                        Action::ImportEuroscope { input: i, output: o, prefixes, overwrite },
                    ),
                },
            },
        },
    }
}

/// Resolves a command into the operation to run, or the usage error to
/// report.
pub fn plan(cmd: Command) -> (r: Result<Action, UsageError>)
    ensures
        r == plan_spec(cmd),
{
    match cmd {
        Command::Validate { input_pos, input } => match resolve(input, input_pos) {
            Some(i) => Ok(Action::Validate { input: i }),
            None => Err(UsageError::MissingInput),
        },
        Command::Import { cmd } => match cmd {
            ImportCommand::Vatglasses { input_pos, output_pos, input, output, overwrite } => {
                match resolve(input, input_pos) {
                    None => Err(UsageError::MissingInput),
                    Some(i) => match resolve(output, output_pos) {
                        None => Err(UsageError::MissingOutput),
                        Some(o) => Ok(Action::ImportVatglasses { input: i, output: o, overwrite }),
                    },
                }
            },
            ImportCommand::Euroscope {
                input_pos,
                output_pos,
                input,
                output,
                prefixes,
                overwrite,
            } => {
                match resolve(input, input_pos) {
                    None => Err(UsageError::MissingInput),
                    Some(i) => match resolve(output, output_pos) {
                        None => Err(UsageError::MissingOutput),
                        Some(o) => Ok(
                            Action::ImportEuroscope { input: i, output: o, prefixes, overwrite },
                        ),
                    },
                }
            },
        },
    }
}

/// Picks the flag value if present, else the positional one.
fn resolve(flag: Option<String>, positional: Option<String>) -> (r: Option<String>)
    ensures
        r == resolved(flag, positional),
{
    match flag {
        Some(f) => Some(f),
        None => positional,
    }
}

} // verus!
