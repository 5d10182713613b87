//! The per-app options file: each line names an app and the options it
//! starts with, as `app.id: --option --option`; `#` starts a comment.
use crate::options::text_fields::{char_from, find_char, trim, trimmed};
use crate::text::{decimal_chars, push_decimal};
use vstd::prelude::*;
use vstd::string::{StrSliceExecFns, StringExecFns};

verus! {

/// What is left of a line once a comment is cut off and white space is
/// trimmed from both ends.
pub open spec fn line_content(line: Seq<char>) -> Seq<char> {
    trimmed(line.subrange(0, char_from(line, '#', 0)))
}

/// The error for line number `n` (counted from 1) when it has no colon.
pub open spec fn missing_colon_message(n: nat) -> Seq<char> {
    "Line "@ + decimal_chars(n)
        + " is not a comment and is missing a colon (:) to separate the app ID from the options"@
}

/// What the lines from index `k` on say of the app `app_id`: the first
/// line that is neither empty nor a comment and has no colon is an error;
/// the first line whose app ID (before the colon, trimmed) is `app_id`
/// gives its options (after the colon, trimmed), or none if they are
/// empty; with no such line there are none.
pub open spec fn options_from_lines(lines: Seq<Seq<char>>, app_id: Seq<char>, k: int) -> Result<Option<Seq<char>>, Seq<char>>
    decreases lines.len() - k,
{
    if k < 0 || k >= lines.len() {
        Ok(None)
    } else {
        let content = line_content(lines[k]);
        let colon = char_from(content, ':', 0);
        if content.len() == 0 {
            options_from_lines(lines, app_id, k + 1)
        } else if colon >= content.len() {
            Err(missing_colon_message((k + 1) as nat))
        } else if trimmed(content.subrange(0, colon)) != app_id {
            options_from_lines(lines, app_id, k + 1)
        } else {
            let options = trimmed(content.subrange(colon + 1, content.len() as int));
            if options.len() == 0 {
                Ok(None)
            } else {
                Ok(Some(options))
            }
        }
    }
}

/// The options that the lines of the options file give the app `app_id`,
/// as [options_from_lines] says.
pub fn options_for_app(lines: &[String], app_id: &str) -> (r: Result<Option<String>, String>)
    ensures
        match options_from_lines(lines@.map_values(|l: String| l@), app_id@, 0) {
            Ok(None) => r matches Ok(None),
            Ok(Some(o)) => r matches Ok(Some(s)) && s@ == o,
            Err(e) => r matches Err(m) && m@ == e,
        },
{
    let ghost ls = lines@.map_values(|l: String| l@);
    let mut k: usize = 0;
    while k < lines.len()
        invariant
            k <= lines@.len(),
            ls == lines@.map_values(|l: String| l@),
            options_from_lines(ls, app_id@, 0) == options_from_lines(ls, app_id@, k as int),
        decreases lines@.len() - k,
    {
        let line = lines[k].as_str();
        assert(line@ == ls[k as int]);
        let cut = find_char(line, '#', 0);
        let content = trim(line.substring_char(0, cut));
        let n = content.unicode_len();
        if n > 0 {
            let colon = find_char(content, ':', 0);
            if colon >= n {
                let mut message = String::from_str("Line ");
                push_decimal(&mut message, (k as u64) + 1);
                message.append(" is not a comment and is missing a colon (:) to separate the app ID from the options");
                return Err(message);
            }
            let id = trim(content.substring_char(0, colon));
            if crate::text::str_eq(id, app_id) {
                let options = trim(content.substring_char(colon + 1, n));
                if options.unicode_len() == 0 {
                    return Ok(None);
                }
                return Ok(Some(String::from_str(options)));
            }
        }
        k = k + 1;
    }
    Ok(None)
}

} // verus!
