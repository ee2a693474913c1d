//! The output writer's data contract: what the target file holds after
//! a write in each mode.  The file system call itself lives outside the
//! library; it writes exactly the text computed here.

use vstd::prelude::*;
use vstd::string::StringExecFns;

verus! {

/// How an existing target file is treated when writing.
#[derive(Debug, PartialEq, Eq, Structural, Clone, Copy)]
pub enum WriteMode {
    Overwrite,
    Append,
}

/// The text the target file holds after a write: appending puts the new
/// content after the prior bytes, overwriting replaces them entirely.
pub open spec fn written_content(prior: Seq<char>, fresh: Seq<char>, mode: WriteMode) -> Seq<
    char,
> {
    match mode {
        WriteMode::Append => prior + fresh,
        WriteMode::Overwrite => fresh,
    }
}

/// Computes the full text the target file holds after a write in the
/// given mode, from the file's prior text (empty when it did not exist)
/// and the newly generated content.
pub fn write_result_text(prior: &str, fresh: &str, mode: WriteMode) -> (r: String)
    ensures
        r@ == written_content(prior@, fresh@, mode),
{
    match mode {
        WriteMode::Append => {
            let mut s = String::from_str(prior);
            s.append(fresh);
            s
        },
        WriteMode::Overwrite => String::from_str(fresh),
    }
}

} // verus!
