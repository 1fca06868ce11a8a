//! Errors of the engines as text, and the directories that output files need.
use vstd::prelude::*;
use vstd::string::StringExecFns;

verus! {

/// The text under which an error of the ONNX runtime is passed on.
pub fn oe(error: &str) -> (text: String)
    ensures
        text@ == "ort: "@ + error@,
{
    let mut text = "ort: ".to_owned();
    text.append(error);
    text
}

/// Whether the directory of an output file has to be made before the file:
/// where the path names one. `parent_len` is the length of its name.
pub fn needs_directory(parent_len: Option<usize>) -> (needed: bool)
    ensures
        needed == (parent_len matches Some(len) && len > 0),
{
    match parent_len {
        Some(len) => len > 0,
        None => false,
    }
}

/// An error of the runtime keeps its text behind a fixed mark.
pub proof fn law_errors_are_marked(error: &str, text: String)
    requires
        call_ensures(oe, (error,), text),
    ensures
        text@ == "ort: "@ + error@,
{
}

/// A directory is needed exactly where the path names one.
pub proof fn law_named_directories_are_needed(parent_len: Option<usize>, needed: bool)
    requires
        call_ensures(needs_directory, (parent_len,), needed),
    ensures
        parent_len is None ==> !needed,
        parent_len matches Some(len) ==> (needed <==> len > 0),
{
}

} // verus!
