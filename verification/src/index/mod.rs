//! Per-file structure: languages, skeletons and public API summaries.
use vstd::prelude::*;

pub mod body;
pub mod skeleton;
pub mod syntax;
pub mod api;
pub mod outline;
pub mod python;
pub mod golang;
pub mod typescript;
pub mod java;
pub mod rust_items;

pub use outline::{build_skeleton, extract_all, index_source};

use crate::text::{chars_of, decimal, decimal_of, push_all, push_str, str_is, string_of};

verus! {

/// A supported source language.
#[derive(Debug, Clone, Copy, PartialEq, Eq, Structural)]
pub enum Language {
    Rust,
    Python,
    TypeScript,
    JavaScript,
    Go,
    Java,
}

/// The language of a file extension.
pub open spec fn language_of_extension(ext: Seq<char>) -> Option<Language> {
    if ext == "rs"@ {
        Some(Language::Rust)
    } else if ext == "py"@ || ext == "pyi"@ {
        Some(Language::Python)
    } else if ext == "ts"@ || ext == "tsx"@ {
        Some(Language::TypeScript)
    } else if ext == "js"@ || ext == "jsx"@ || ext == "mjs"@ || ext == "cjs"@ {
        Some(Language::JavaScript)
    } else if ext == "go"@ {
        Some(Language::Go)
    } else if ext == "java"@ {
        Some(Language::Java)
    } else {
        None
    }
}

impl Language {
    /// The language of a file extension (without the dot), if it is supported.
    pub fn from_extension(ext: &str) -> (r: Option<Language>)
        ensures
            r == language_of_extension(ext@),
    {
        if str_is(ext, "rs") {
            Some(Language::Rust)
        } else if str_is(ext, "py") || str_is(ext, "pyi") {
            Some(Language::Python)
        } else if str_is(ext, "ts") || str_is(ext, "tsx") {
            Some(Language::TypeScript)
        } else if str_is(ext, "js") || str_is(ext, "jsx") || str_is(ext, "mjs") || str_is(ext, "cjs") {
            Some(Language::JavaScript)
        } else if str_is(ext, "go") {
            Some(Language::Go)
        } else if str_is(ext, "java") {
            Some(Language::Java)
        } else {
            None
        }
    }
}

/// The average line length above which a file counts as minified.
pub const MINIFIED_AVG_LINE_LEN: usize = 500;

/// The largest file that is indexed, in bytes.
pub const MAX_FILE_SIZE: u64 = 2 * 1024 * 1024;

/// How many fields of a type a skeleton lists.
pub const FIELD_TRUNCATE_THRESHOLD: usize = 8;

/// How many times the byte `b` occurs in `s`.
pub open spec fn count_byte(s: Seq<u8>, b: u8) -> nat
    decreases s.len(),
{
    if s.len() == 0 {
        0
    } else {
        count_byte(s.drop_last(), b) + if s.last() == b {
            1nat
        } else {
            0nat
        }
    }
}

/// The number of lines of `s`: its line breaks, plus one for a last line
/// without a break, and at least one.
pub open spec fn line_count(s: Seq<u8>) -> nat {
    let n = count_byte(s, 10u8);
    if n == 0 {
        1
    } else if s.last() == 10u8 {
        n
    } else {
        n + 1
    }
}

/// The source is minified: it is not empty and its average line length
/// (in whole bytes) exceeds the limit.
pub open spec fn minified(s: Seq<u8>) -> bool {
    s.len() > 0 && s.len() / line_count(s) > MINIFIED_AVG_LINE_LEN
}

/// Whether the source looks minified or bundled: its average line length
/// exceeds 500 bytes.
pub fn is_minified(source: &[u8]) -> (r: bool)
    ensures
        r == minified(source@),
{
    if source.len() == 0 {
        return false;
    }
    let mut newlines: usize = 0;
    let mut i: usize = 0;
    while i < source.len()
        invariant
            i <= source@.len(),
            newlines == count_byte(source@.take(i as int), 10u8),
            newlines <= i,
            i > 0 && source@[i - 1] != 10u8 ==> newlines < i,
        decreases source@.len() - i,
    {
        assert(source@.take(i + 1).drop_last() =~= source@.take(i as int));
        if source[i] == 10u8 {
            newlines += 1;
        }
        i += 1;
    }
    assert(source@.take(i as int) =~= source@);
    let lines: usize = if newlines == 0 {
        1
    } else if source[source.len() - 1] == 10u8 {
        newlines
    } else {
        newlines + 1
    };
    source.len() / lines > MINIFIED_AVG_LINE_LEN
}

/// A line range: `[start]`, or `[start-end]` when they differ.
pub open spec fn range_text(start: nat, end: nat) -> Seq<char> {
    if start == end {
        "["@ + decimal(start) + "]"@
    } else {
        "["@ + decimal(start) + "-"@ + decimal(end) + "]"@
    }
}

/// The line range `[start]` or `[start-end]`.
pub fn line_range(start: usize, end: usize) -> (r: String)
    ensures
        r@ == range_text(start as nat, end as nat),
{
    let mut v = chars_of("[");
    let a = decimal_of(start);
    push_all(&mut v, a.as_slice());
    if start != end {
        push_str(&mut v, "-");
        let b = decimal_of(end);
        push_all(&mut v, b.as_slice());
    }
    push_str(&mut v, "]");
    string_of(v.as_slice())
}

/// `s` cut to `max_chars` characters: unchanged when it fits, else its
/// first `max_chars - 3` characters (none below 3) and "...".
pub open spec fn truncated(s: Seq<char>, max_chars: nat) -> Seq<char> {
    if s.len() <= max_chars {
        s
    } else {
        s.take(if max_chars >= 3 {
            max_chars - 3
        } else {
            0
        }) + "..."@
    }
}

/// `s` cut to at most `max_chars` characters, ending in "..." when cut.
pub fn truncate(s: &str, max_chars: usize) -> (r: String)
    ensures
        r@ == truncated(s@, max_chars as nat),
{
    let c = chars_of(s);
    if c.len() <= max_chars {
        return string_of(c.as_slice());
    }
    let keep = if max_chars >= 3 {
        max_chars - 3
    } else {
        0
    };
    let mut v = crate::text::copy_range(c.as_slice(), 0, keep);
    push_str(&mut v, "...");
    assert(v@ =~= truncated(s@, max_chars as nat));
    string_of(v.as_slice())
}

/// A cut text fits its limit: `truncate` gives at most `max_chars`
/// characters for a limit of 3 or more, and leaves a text that fits
/// unchanged.
pub proof fn law_truncated_fits(s: Seq<char>, max_chars: nat)
    ensures
        max_chars >= 3 ==> truncated(s, max_chars).len() <= max_chars,
        s.len() <= max_chars ==> truncated(s, max_chars) == s,
{
    reveal_strlit("...");
}

} // verus!
