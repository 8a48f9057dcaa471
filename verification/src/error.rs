//! Error kinds for grid operations.
//!
//! Structural and positional mutations fail silently as no-ops; these
//! variants cover the failures that are reported to the caller, plus the
//! collaborator-side failures a host may need to carry.

use vstd::prelude::*;
use vstd::string::*;
use crate::text::{dec_rep, u64_to_string};

verus! {

/// A reportable grid failure.
#[derive(Debug)]
pub enum GridError {
    /// A position outside the grid bounds.
    OutOfBounds { row: usize, col: usize },
    /// A write to a cell that does not allow editing.
    CellNotEditable { row: usize, col: usize },
    /// A search pattern that does not compile.
    InvalidRegex { pattern: String, error: String },
    /// A paste that could not start.
    PasteFailed { reason: String },
    /// An interchange payload that could not be read.
    InvalidJson { error: String },
    /// A renderer that could not start (collaborator-side).
    RenderInitFailed { error: String },
    /// A shader that could not compile (collaborator-side).
    ShaderError { error: String },
    /// Any other failure.
    OperationError { message: String },
}

/// The text a position renders as inside an error message.
pub open spec fn position_text(row: int, col: int) -> Seq<char> {
    "cell ("@ + dec_rep(row as nat) + ", "@ + dec_rep(col as nat) + ")"@
}

/// The message of each error kind.
pub open spec fn message_of(e: GridError) -> Seq<char> {
    match e {
        GridError::OutOfBounds { row, col } =>
            position_text(row as int, col as int) + " is out of bounds"@,
        GridError::CellNotEditable { row, col } =>
            position_text(row as int, col as int) + " is not editable"@,
        GridError::InvalidRegex { pattern, error } =>
            "invalid pattern '"@ + pattern@ + "': "@ + error@,
        GridError::PasteFailed { reason } => "paste failed: "@ + reason@,
        GridError::InvalidJson { error } => "invalid data: "@ + error@,
        GridError::RenderInitFailed { error } =>
            "renderer initialization failed: "@ + error@,
        GridError::ShaderError { error } => "shader error: "@ + error@,
        GridError::OperationError { message } => message@,
    }
}

fn position_string(row: usize, col: usize) -> (r: String)
    ensures
        r@ == position_text(row as int, col as int),
{
    proof {
        reveal_strlit("cell (");
        reveal_strlit(", ");
        reveal_strlit(")");
    }
    let mut s = String::from_str("cell (");
    let rn = u64_to_string(row as u64);
    s.append(rn.as_str());
    s.append(", ");
    let cn = u64_to_string(col as u64);
    s.append(cn.as_str());
    s.append(")");
    proof {
        assert(s@ =~= position_text(row as int, col as int));
    }
    s
}

impl GridError {
    /// Renders the error as text; mirrors [`message_of`] exactly.
    pub fn message(&self) -> (r: String)
        ensures
            r@ == message_of(*self),
    {
        match self {
            GridError::OutOfBounds { row, col } => {
                proof { reveal_strlit(" is out of bounds"); }
                let mut s = position_string(*row, *col);
                s.append(" is out of bounds");
                s
            },
            GridError::CellNotEditable { row, col } => {
                proof { reveal_strlit(" is not editable"); }
                let mut s = position_string(*row, *col);
                s.append(" is not editable");
                s
            },
            GridError::InvalidRegex { pattern, error } => {
                proof {
                    reveal_strlit("invalid pattern '");
                    reveal_strlit("': ");
                }
                let mut s = String::from_str("invalid pattern '");
                s.append(pattern.as_str());
                s.append("': ");
                s.append(error.as_str());
                s
            },
            GridError::PasteFailed { reason } => {
                proof { reveal_strlit("paste failed: "); }
                let mut s = String::from_str("paste failed: ");
                s.append(reason.as_str());
                s
            },
            GridError::InvalidJson { error } => {
                proof { reveal_strlit("invalid data: "); }
                let mut s = String::from_str("invalid data: ");
                s.append(error.as_str());
                s
            },
            GridError::RenderInitFailed { error } => {
                proof { reveal_strlit("renderer initialization failed: "); }
                let mut s = String::from_str("renderer initialization failed: ");
                s.append(error.as_str());
                s
            },
            GridError::ShaderError { error } => {
                proof { reveal_strlit("shader error: "); }
                let mut s = String::from_str("shader error: ");
                s.append(error.as_str());
                s
            },
            GridError::OperationError { message } => message.clone(),
        }
    }
}

} // verus!
