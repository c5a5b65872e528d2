//! The terminal width argparse formats its help and usage messages for:
//! Python's `shutil.get_terminal_size().columns`.

use vstd::prelude::*;

use crate::pystr::{py_int, spec_py_int, PyStr};

verus! {

/// `shutil.get_terminal_size()`'s fallback width.
pub const FALLBACK_COLUMNS: i64 = 80;

/// `COLUMNS` gives a positive width.
pub open spec fn env_columns(columns_env: Option<&PyStr>) -> Option<i64> {
    match columns_env {
        Some(e) => match spec_py_int(e@) {
            Some(c) => if c > 0 {
                Some(c)
            } else {
                None
            },
            None => None,
        },
        None => None,
    }
}

/// The width of a terminal of `width` columns, or the fallback width.
pub open spec fn terminal_columns(width: Option<u16>) -> i64 {
    match width {
        Some(w) => if w > 0 {
            w as i64
        } else {
            FALLBACK_COLUMNS
        },
        None => FALLBACK_COLUMNS,
    }
}

/// Python's `shutil.get_terminal_size().columns`, given the value of the
/// `COLUMNS` environment variable and a function returning the width of
/// the terminal on stdout (`None` when stdout is not a terminal; the
/// function is only called when `COLUMNS` does not give a positive width).
///
/// `COLUMNS` is used if `int()` accepts it and it is positive; otherwise
/// the width of the terminal on stdout, if it is a terminal of non zero
/// width; otherwise 80.
pub fn columns_from(columns_env: Option<&PyStr>, stdout_width: impl FnOnce() -> Option<u16>) -> (r: i64)
    requires
        env_columns(columns_env) is None ==> call_requires(stdout_width, ()),
    ensures
        env_columns(columns_env) matches Some(c) ==> r == c,
        env_columns(columns_env) is None ==> exists|w: Option<u16>|
            call_ensures(stdout_width, (), w) && r == #[trigger] terminal_columns(w),
{
    if let Some(e) = columns_env {
        if let Some(columns) = py_int(e) {
            if columns > 0 {
                return columns;
            }
        }
    }
    let w = stdout_width();
    let r = match w {
        Some(width) if width > 0 => width as i64,
        _ => FALLBACK_COLUMNS,
    };
    assert(r == terminal_columns(w));
    r
}

} // verus!
