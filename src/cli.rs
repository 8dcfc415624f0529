//! Checks on the command-line values: the input file, the output path and
//! the question count.

use vstd::prelude::*;
use crate::text::{byte_parse_error, byte_value, decimal_string, decimal_text, parse_byte};

verus! {

/// Question counts must stay below this.
pub const MAX_COUNT: u8 = 100;

/// The message for a path that names no file.
pub open spec fn missing_file_message() -> Seq<char> {
    "file does not exist"@
}

/// The message for a count that is not below `MAX_COUNT`.
pub open spec fn count_limit_message() -> Seq<char> {
    "value should be less than "@ + decimal_text(MAX_COUNT as nat)
}

/// Relies on `std::path::Path::is_file`: whether a regular file stands at
/// `path` right now. What is on disk decides, so nothing is stated.
#[verifier::external_body]
fn path_is_file(path: &str) -> (r: bool) {
    std::path::Path::new(path).is_file()
}

/// The answer to a file check, given whether the file is there.
pub fn file_check(is_file: bool) -> (r: Result<(), String>)
    ensures
        r is Ok <==> is_file,
        r matches Err(e) ==> e@ == missing_file_message(),
{
    if is_file {
        Ok(())
    } else {
        Err(String::from_str("file does not exist"))
    }
}

/// Accepts a path that names an existing file.
pub fn is_valid_file(val: String) -> (r: Result<(), String>)
    ensures
        r matches Err(e) ==> e@ == missing_file_message(),
{
    file_check(path_is_file(val.as_str()))
}

/// What `std::path::Path::with_extension` makes of `path` and `extension`.
pub uninterp spec fn path_with_extension(path: Seq<char>, extension: Seq<char>) -> Seq<char>;

/// Relies on `std::path::Path::with_extension`: the path with its extension
/// set; both inputs are UTF-8, so the result is too and converts losslessly.
/// It panics on an extension that holds a path separator.
#[verifier::external_body]
fn with_extension(path: &str, extension: &str) -> (r: String)
    requires
        forall|i: int|
            0 <= i < extension@.len() ==> #[trigger] extension@[i] != '/' && extension@[i] != '\\',
    ensures
        r@ == path_with_extension(path@, extension@),
{
    std::path::Path::new(path).with_extension(extension).to_string_lossy().into_owned()
}

/// The default output path: the input path with the extension `csv`.
pub fn get_output_path(input_path: &str) -> (r: String)
    ensures
        r@ == path_with_extension(input_path@, "csv"@),
{
    proof {
        reveal_strlit("csv");
    }
    with_extension(input_path, "csv")
}

/// Accepts a count written as a byte below `MAX_COUNT`. Text that is no byte
/// is refused with the parser's message; a byte from `MAX_COUNT` on with a
/// message that names the limit.
pub fn is_valid_count(val: String) -> (r: Result<(), String>)
    ensures
        r is Ok <==> (byte_value(val@) matches Some(n) && n < MAX_COUNT),
        byte_value(val@) is None ==> (r matches Err(e) && e@ == byte_parse_error(val@)),
        byte_value(val@) matches Some(n) && n >= MAX_COUNT ==> (r matches Err(e) && e@
            == count_limit_message()),
{
    let count = match parse_byte(val.as_str()) {
        Ok(count) => count,
        Err(e) => return Err(e),
    };
    if count < MAX_COUNT {
        Ok(())
    } else {
        let mut message = String::from_str("value should be less than ");
        let limit = decimal_string(MAX_COUNT);
        message.append(limit.as_str());
        Err(message)
    }
}

} // verus!
