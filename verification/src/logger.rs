//! What the log settings come to.
use crate::config::Config;
use crate::text::{
    chars_of, is_white_space, is_whitespace, pieces, pieces_are_of_the_text, split, split_on,
};
use tracing_subscriber::EnvFilter;
use vstd::prelude::*;
use vstd::utf8::is_ascii_chars;

verus! {

/// The level where none is configured, or where the configured one is no filter.
pub open spec fn default_log_level_spec() -> Seq<char> {
    "info"@
}

/// The level where none is configured, or where the configured one is no filter.
pub fn default_log_level() -> (r: &'static str)
    ensures
        r@ == default_log_level_spec(),
{
    "info"
}

/// Whether a character ends a part of a filter directive.
pub open spec fn is_delimiter(c: char) -> bool {
    c == '=' || c == '[' || c == ']' || c == '{' || c == '}'
}

/// Whether some character ends a part of a filter directive.
pub open spec fn has_delimiter(directive: Seq<char>) -> bool {
    exists|i: int| 0 <= i < directive.len() && is_delimiter(#[trigger] directive[i])
}

/// Whether a directive can be handed to the filter parser. The parser finds the parts of a
/// directive in its trimmed text and cuts them out of the untrimmed one, so white space in
/// front of a directive that is not ASCII and has parts may make it cut inside a character.
pub open spec fn is_safe_directive(directive: Seq<char>) -> bool {
    ||| directive.len() == 0
    ||| !is_white_space(directive[0])
    ||| is_ascii_chars(directive)
    ||| !has_delimiter(directive)
}

/// Whether every directive in a filter can be handed to the filter parser.
pub open spec fn is_safe_filter(text: Seq<char>) -> bool {
    forall|i: int|
        0 <= i < split_on(text, ',').len() ==> is_safe_directive(#[trigger] split_on(text, ',')[i])
}

fn safe_directive(v: &Vec<char>) -> (r: bool)
    ensures
        r == is_safe_directive(v@),
{
    if v.len() == 0 || !is_whitespace(v[0]) {
        return true;
    }
    let mut ascii: bool = true;
    let mut parts: bool = false;
    let mut i: usize = 0;
    while i < v.len()
        invariant
            i <= v.len(),
            ascii ==> forall|k: int| 0 <= k < i ==> '\0' <= #[trigger] v@[k] <= '\u{7f}',
            !ascii ==> exists|k: int| 0 <= k < i && !('\0' <= #[trigger] v@[k] <= '\u{7f}'),
            parts <==> exists|k: int| 0 <= k < i && is_delimiter(#[trigger] v@[k]),
        decreases v.len() - i,
    {
        let c = v[i];
        if !('\0' <= c && c <= '\u{7f}') {
            assert(!('\0' <= v@[i as int] <= '\u{7f}'));
            ascii = false;
        }
        if c == '=' || c == '[' || c == ']' || c == '{' || c == '}' {
            parts = true;
        }
        i = i + 1;
    }
    ascii || !parts
}

/// Tells whether every directive in a filter can be handed to the filter parser.
pub fn safe_filter(text: &str) -> (r: bool)
    ensures
        r == is_safe_filter(text@),
{
    let directives = split(&chars_of(text), ',');
    let ghost all = split_on(text@, ',');
    let mut i: usize = 0;
    while i < directives.len()
        invariant
            i <= directives.len(),
            all == split_on(text@, ','),
            all == pieces(directives@),
            forall|k: int| 0 <= k < i ==> is_safe_directive(#[trigger] all[k]),
        decreases directives.len() - i,
    {
        assert(all[i as int] == directives@[i as int]@);
        if !safe_directive(&directives[i]) {
            return false;
        }
        i = i + 1;
    }
    true
}

/// Whether `EnvFilter::try_new` reads a text as a filter.
pub uninterp spec fn is_filter(text: Seq<char>) -> bool;

/// `tracing_subscriber::EnvFilter::try_new`: whether a text is a filter depends on the text
/// alone. On a text with a directive that is not safe it may panic.
#[verifier::external_body]
fn reads_as_filter(text: &str) -> (r: bool)
    requires
        is_safe_filter(text@),
    ensures
        r == is_filter(text@),
{
    EnvFilter::try_new(text).is_ok()
}

/// The level to log at where `level` is asked for, and is a filter or not.
pub fn level_or_default<'a>(level: &'a str, readable: bool) -> (r: &'a str)
    ensures
        r@ == if readable {
            level@
        } else {
            default_log_level_spec()
        },
{
    if readable {
        level
    } else {
        default_log_level()
    }
}

/// The filter to log with: the configured level, or `info` where none is configured or the
/// configured one is no filter.
pub fn filter_text(config: &Config) -> (r: &str)
    ensures
        r@ == match config.log_level {
            Some(level) => if is_safe_filter(level@) && is_filter(level@) {
                level@
            } else {
                "info"@
            },
            None => "info"@,
        },
{
    match &config.log_level {
        Some(level) => level_or_default(
            level.as_str(),
            safe_filter(level.as_str()) && reads_as_filter(level.as_str()),
        ),
        None => default_log_level(),
    }
}

/// The directory of the log file: that of its path, or `/tmp` where the path has none.
pub fn log_directory<'a>(parent: Option<&'a str>) -> (r: &'a str)
    ensures
        r@ == match parent {
            Some(p) => p@,
            None => "/tmp"@,
        },
{
    match parent {
        Some(p) => p,
        None => "/tmp",
    }
}

/// The name of the log file: that in its path, or `loom.log` where the path has none.
pub fn log_file_name<'a>(name: Option<&'a str>) -> (r: &'a str)
    ensures
        r@ == match name {
            Some(n) => n@,
            None => "loom.log"@,
        },
{
    match name {
        Some(n) => n,
        None => "loom.log",
    }
}

/// The file to log to: the configured one, or `/tmp/loom.log`.
pub fn log_file(config: &Config) -> (r: &str)
    ensures
        r@ == match config.log_file {
            Some(file) => file@,
            None => "/tmp/loom.log"@,
        },
{
    match &config.log_file {
        Some(file) => file.as_str(),
        None => "/tmp/loom.log",
    }
}

/// A text that is ASCII, or holds no white space, or none of the characters that end a part of
/// a directive, can be handed to the filter parser.
pub proof fn ordinary_levels_are_safe(text: Seq<char>)
    requires
        is_ascii_chars(text) || (forall|k: int|
            0 <= k < text.len() ==> !is_white_space(#[trigger] text[k])) || (forall|k: int|
            0 <= k < text.len() ==> !is_delimiter(#[trigger] text[k])),
    ensures
        is_safe_filter(text),
{
    let all = split_on(text, ',');
    assert forall|i: int| 0 <= i < all.len() implies is_safe_directive(#[trigger] all[i]) by {
        let d = all[i];
        assert forall|k: int| 0 <= k < d.len() implies text.contains(#[trigger] d[k]) by {
            pieces_are_of_the_text(text, ',', i, k);
        }
        if d.len() > 0 && is_white_space(d[0]) && has_delimiter(d) {
            assert(text.contains(d[0]));
            let k = choose|k: int| 0 <= k < d.len() && is_delimiter(#[trigger] d[k]);
            assert(text.contains(d[k]));
            assert(is_ascii_chars(text));
            assert(is_ascii_chars(d));
        }
    }
}

/// A directive is kept from the filter parser only where it starts with white space, holds a
/// character that is not ASCII, and one of `=`, `[`, `]`, `{` and `}`.
pub proof fn few_directives_are_kept_back(d: Seq<char>)
    ensures
        !is_safe_directive(d) <==> d.len() > 0 && is_white_space(d[0]) && !is_ascii_chars(d) && (
        d.contains('=') || d.contains('[') || d.contains(']') || d.contains('{') || d.contains(
            '}',
        )),
        default_log_level_spec() == "info"@,
{
    if has_delimiter(d) {
        let k = choose|k: int| 0 <= k < d.len() && is_delimiter(#[trigger] d[k]);
        assert(d.contains(d[k]));
    }
    if d.contains('=') {
        let k = choose|k: int| 0 <= k < d.len() && d[k] == '=';
        assert(is_delimiter(d[k]));
    }
    if d.contains('[') {
        let k = choose|k: int| 0 <= k < d.len() && d[k] == '[';
        assert(is_delimiter(d[k]));
    }
    if d.contains(']') {
        let k = choose|k: int| 0 <= k < d.len() && d[k] == ']';
        assert(is_delimiter(d[k]));
    }
    if d.contains('{') {
        let k = choose|k: int| 0 <= k < d.len() && d[k] == '{';
        assert(is_delimiter(d[k]));
    }
    if d.contains('}') {
        let k = choose|k: int| 0 <= k < d.len() && d[k] == '}';
        assert(is_delimiter(d[k]));
    }
}

} // verus!
