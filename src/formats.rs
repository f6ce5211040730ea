//! Choosing a reader for a file: by extension, by format name, or by a
//! look at the content.
use vstd::prelude::*;
use crate::error::XtvError;
use crate::text::{append_str, chars_of, string_of_range, trim_start};

verus! {

/// The file formats that the viewer reads.
#[derive(Debug, Clone, Copy, PartialEq, Eq, Structural)]
pub enum Format {
    Json,
    JsonLines,
    Xml,
    Html,
    Ldif,
    Toml,
    Yaml,
}

/// The last position of `c` in `s`, if any.
pub open spec fn last_index_of(s: Seq<char>, c: char) -> Option<int>
    decreases s.len(),
{
    if s.len() == 0 {
        None
    } else if s.last() == c {
        Some(s.len() - 1)
    } else {
        last_index_of(s.drop_last(), c)
    }
}

/// The last component of a path.
pub open spec fn file_name(p: Seq<char>) -> Seq<char> {
    match last_index_of(p, '/') {
        Some(i) => p.subrange(i + 1, p.len() as int),
        None => p,
    }
}

/// What follows the last `.` of the file name, unless that `.` starts it.
pub open spec fn extension(p: Seq<char>) -> Option<Seq<char>> {
    let n = file_name(p);
    match last_index_of(n, '.') {
        Some(i) => if i > 0 {
            Some(n.subrange(i + 1, n.len() as int))
        } else {
            None
        },
        None => None,
    }
}

/// `c` with ASCII upper case mapped to lower case.
pub open spec fn ascii_lower(c: char) -> char {
    if 'A' <= c && c <= 'Z' {
        ((c as u32) + 32) as char
    } else {
        c
    }
}

/// Equality up to ASCII case.
pub open spec fn eq_ignore_case(a: Seq<char>, b: Seq<char>) -> bool {
    a.len() == b.len() && forall|i: int| 0 <= i < a.len() ==> ascii_lower(#[trigger] a[i]) == ascii_lower(b[i])
}

/// Whether the path's extension is `e`, up to ASCII case.
pub open spec fn has_extension(p: Seq<char>, e: Seq<char>) -> bool {
    match extension(p) {
        Some(x) => eq_ignore_case(x, e),
        None => false,
    }
}

fn lower_char(c: char) -> (r: char)
    ensures
        r == ascii_lower(c),
{
    if 'A' <= c && c <= 'Z' {
        ((c as u32) + 32) as u8 as char
    } else {
        c
    }
}

/// The last position of `c` in `s[..hi]`.
fn last_index(s: &Vec<char>, c: char) -> (r: Option<usize>)
    ensures
        match r {
            Some(i) => last_index_of(s@, c) == Some(i as int) && i < s@.len(),
            None => last_index_of(s@, c) is None,
        },
{
    let mut j = s.len();
    assert(s@.subrange(0, s@.len() as int) =~= s@);
    while j > 0
        invariant
            j <= s@.len(),
            last_index_of(s@, c) == last_index_of(s@.subrange(0, j as int), c),
        decreases j,
    {
        let ghost t = s@.subrange(0, j as int);
        assert(t.drop_last() =~= s@.subrange(0, j - 1));
        if s[j - 1] == c {
            return Some(j - 1);
        }
        j = j - 1;
    }
    None
}

/// Whether `a` equals `b` up to ASCII case.
pub fn same_ignore_case(a: &Vec<char>, b: &Vec<char>) -> (r: bool)
    ensures
        r == eq_ignore_case(a@, b@),
{
    if a.len() != b.len() {
        return false;
    }
    let mut i: usize = 0;
    while i < a.len()
        invariant
            i <= a@.len(),
            a@.len() == b@.len(),
            forall|k: int| 0 <= k < i ==> ascii_lower(#[trigger] a@[k]) == ascii_lower(b@[k]),
        decreases a@.len() - i,
    {
        if lower_char(a[i]) != lower_char(b[i]) {
            return false;
        }
        i = i + 1;
    }
    true
}

/// The extension of a path, if it has one.
pub fn extension_of(path: &str) -> (r: Option<Vec<char>>)
    ensures
        match r {
            Some(x) => extension(path@) == Some(x@),
            None => extension(path@) is None,
        },
{
    let p = chars_of(path);
    let _pl = p.len();
    let name: Vec<char> = match last_index(&p, '/') {
        Some(i) => {
            let mut v: Vec<char> = Vec::new();
            let mut k = i + 1;
            while k < p.len()
                invariant
                    i + 1 <= k <= p@.len(),
                    v@ == p@.subrange(i + 1, k as int),
                decreases p@.len() - k,
            {
                v.push(p[k]);
                assert(p@.subrange(i + 1, k + 1) =~= p@.subrange(i + 1, k as int).push(p@[k as int]));
                k = k + 1;
            }
            v
        },
        None => p,
    };
    match last_index(&name, '.') {
        Some(i) => {
            if i > 0 {
                let mut v: Vec<char> = Vec::new();
                let mut k = i + 1;
                while k < name.len()
                    invariant
                        i + 1 <= k <= name@.len(),
                        v@ == name@.subrange(i + 1, k as int),
                    decreases name@.len() - k,
                {
                    v.push(name[k]);
                    assert(name@.subrange(i + 1, k + 1) =~= name@.subrange(i + 1, k as int).push(name@[k as int]));
                    k = k + 1;
                }
                Some(v)
            } else {
                None
            }
        },
        None => None,
    }
}

/// Whether the extension of `path` is `ext`, up to ASCII case.
pub fn extension_is(path: &str, ext: &str) -> (r: bool)
    ensures
        r == has_extension(path@, ext@),
{
    match extension_of(path) {
        Some(x) => {
            let e = chars_of(ext);
            same_ignore_case(&x, &e)
        },
        None => false,
    }
}

/// The format that an extension names.
pub open spec fn format_of_extension(e: Seq<char>) -> Option<Format> {
    if eq_ignore_case(e, "json"@) {
        Some(Format::Json)
    } else if eq_ignore_case(e, "jsonl"@) {
        Some(Format::JsonLines)
    } else if eq_ignore_case(e, "xml"@) {
        Some(Format::Xml)
    } else if eq_ignore_case(e, "html"@) || eq_ignore_case(e, "htm"@) {
        Some(Format::Html)
    } else if eq_ignore_case(e, "ldif"@) {
        Some(Format::Ldif)
    } else if eq_ignore_case(e, "toml"@) {
        Some(Format::Toml)
    } else if eq_ignore_case(e, "yaml"@) || eq_ignore_case(e, "yml"@) {
        Some(Format::Yaml)
    } else {
        None
    }
}

/// The format that a format name given by the user names.
pub open spec fn format_of_name(e: Seq<char>) -> Option<Format> {
    if eq_ignore_case(e, "jsonlines"@) {
        Some(Format::JsonLines)
    } else {
        format_of_extension(e)
    }
}

fn is_ci(x: &Vec<char>, name: &str) -> (r: bool)
    ensures
        r == eq_ignore_case(x@, name@),
{
    let n = chars_of(name);
    same_ignore_case(x, &n)
}

fn format_for(e: &Vec<char>) -> (r: Option<Format>)
    ensures
        r == format_of_extension(e@),
{
    if is_ci(e, "json") {
        Some(Format::Json)
    } else if is_ci(e, "jsonl") {
        Some(Format::JsonLines)
    } else if is_ci(e, "xml") {
        Some(Format::Xml)
    } else if is_ci(e, "html") || is_ci(e, "htm") {
        Some(Format::Html)
    } else if is_ci(e, "ldif") {
        Some(Format::Ldif)
    } else if is_ci(e, "toml") {
        Some(Format::Toml)
    } else if is_ci(e, "yaml") || is_ci(e, "yml") {
        Some(Format::Yaml)
    } else {
        None
    }
}

/// The format of a file by its extension; an error when it has none or
/// names no known format.
pub fn detect_parser(file_path: &str) -> (r: Result<Format, XtvError>)
    ensures
        match extension(file_path@) {
            Some(e) => match format_of_extension(e) {
                Some(f) => r == Ok::<Format, XtvError>(f),
                None => r matches Err(XtvError::UnsupportedFormat(_)),
            },
            None => r matches Err(XtvError::UnsupportedFormat(_)),
        },
{
    match extension_of(file_path) {
        Some(e) => match format_for(&e) {
            Some(f) => Ok(f),
            None => {
                let mut m = String::new();
                append_str(&mut m, "File extension '.");
                let es = string_of_range(&e, 0, e.len());
                append_str(&mut m, es.as_str());
                append_str(&mut m, "' is not supported");
                Err(XtvError::UnsupportedFormat(m))
            },
        },
        None => {
            let mut m = String::new();
            append_str(&mut m, "File has no extension");
            Err(XtvError::UnsupportedFormat(m))
        },
    }
}

/// The format that a name such as `json` or `yml` gives, up to ASCII case.
pub fn get_parser_from_format(format: &str) -> (r: Result<Format, XtvError>)
    ensures
        match format_of_name(format@) {
            Some(f) => r == Ok::<Format, XtvError>(f),
            None => r matches Err(XtvError::UnsupportedFormat(_)),
        },
{
    let e = chars_of(format);
    if is_ci(&e, "jsonlines") {
        return Ok(Format::JsonLines);
    }
    match format_for(&e) {
        Some(f) => Ok(f),
        None => {
            let mut m = String::new();
            append_str(&mut m, "Format '");
            append_str(&mut m, format);
            append_str(&mut m, "' is not supported");
            Err(XtvError::UnsupportedFormat(m))
        },
    }
}

/// Whether `p` occurs in `s` at some position.
pub open spec fn contains_seq(s: Seq<char>, p: Seq<char>) -> bool {
    exists|i: int| 0 <= i <= s.len() - p.len() && #[trigger] s.subrange(i, i + p.len()) == p
}

/// Whether `p` occurs in `s`.
pub fn contains_str(s: &Vec<char>, p: &str) -> (r: bool)
    ensures
        r == contains_seq(s@, p@),
{
    let pc = chars_of(p);
    if pc.len() > s.len() {
        proof {
            assert forall|i: int| 0 <= i <= s@.len() - p@.len() implies #[trigger] s@.subrange(i, i + p@.len()) != p@ by {}
        }
        return false;
    }
    let last = s.len() - pc.len();
    let mut i: usize = 0;
    while i <= last
        invariant
            pc@ == p@,
            pc@.len() <= s@.len(),
            last == s@.len() - pc@.len(),
            i <= last + 1,
            forall|k: int| 0 <= k < i ==> #[trigger] s@.subrange(k, k + p@.len()) != p@,
        decreases last + 1 - i,
    {
        if crate::text::prefix_at(s, i, p) {
            proof {
                let u = s@.subrange(i as int, s@.len() as int);
                assert(u.subrange(0, p@.len() as int) =~= s@.subrange(i as int, i + p@.len()));
            }
            return true;
        }
        proof {
            let u = s@.subrange(i as int, s@.len() as int);
            assert(u.subrange(0, p@.len() as int) =~= s@.subrange(i as int, i + p@.len()));
        }
        if i == last {
            return false;
        }
        i = i + 1;
    }
    false
}

/// Whether the text begins with `p`.
pub open spec fn begins(s: Seq<char>, p: Seq<char>) -> bool {
    crate::text::has_prefix(s, p)
}

/// The format that the content looks like, by its first characters.
pub open spec fn format_of_content(content: Seq<char>) -> Option<Format> {
    let t = trim_start(content);
    if begins(t, "<?xml"@) || begins(t, "<"@) {
        if contains_seq(t, "<!DOCTYPE html"@) || contains_seq(t, "<html"@) {
            Some(Format::Html)
        } else {
            Some(Format::Xml)
        }
    } else if begins(t, "{"@) || begins(t, "["@) {
        Some(Format::Json)
    } else if begins(t, "version:"@) || begins(t, "dn:"@) {
        Some(Format::Ldif)
    } else if begins(t, "---"@) || begins(t, "%YAML"@) {
        Some(Format::Yaml)
    } else if contains_seq(t, ":"@) && !contains_seq(t, "::"@) {
        Some(Format::Yaml)
    } else {
        None
    }
}

/// The format of content read without a file name.
pub fn detect_parser_from_content(content: &str) -> (r: Result<Format, XtvError>)
    ensures
        match format_of_content(content@) {
            Some(f) => r == Ok::<Format, XtvError>(f),
            None => r matches Err(XtvError::UnsupportedFormat(_)),
        },
{
    let all = chars_of(content);
    let a = crate::text::trim_start_index(&all);
    let t = crate::text::chars_of(string_of_range(&all, a, all.len()).as_str());
    if crate::text::starts_with(&t, "<?xml") || crate::text::starts_with(&t, "<") {
        if contains_str(&t, "<!DOCTYPE html") || contains_str(&t, "<html") {
            Ok(Format::Html)
        } else {
            Ok(Format::Xml)
        }
    } else if crate::text::starts_with(&t, "{") || crate::text::starts_with(&t, "[") {
        Ok(Format::Json)
    } else if crate::text::starts_with(&t, "version:") || crate::text::starts_with(&t, "dn:") {
        Ok(Format::Ldif)
    } else if crate::text::starts_with(&t, "---") || crate::text::starts_with(&t, "%YAML") {
        Ok(Format::Yaml)
    } else if contains_str(&t, ":") && !contains_str(&t, "::") {
        Ok(Format::Yaml)
    } else {
        let mut m = String::new();
        append_str(&mut m, "Could not detect format from content. Use --format to specify the format.");
        Err(XtvError::UnsupportedFormat(m))
    }
}



/// The reader of XML documents; the decoding itself stands outside this library.
pub struct XmlParser;

impl XmlParser {
    /// Whether a path names a file of this format, by its extension.
    pub fn can_parse(&self, file_path: &str) -> (r: bool)
        ensures
            r == (has_extension(file_path@, "xml"@)),
    {
        extension_is(file_path, "xml")
    }
}

/// The reader of HTML documents; the decoding itself stands outside this library.
pub struct HtmlParser;

impl HtmlParser {
    /// Whether a path names a file of this format, by its extension.
    pub fn can_parse(&self, file_path: &str) -> (r: bool)
        ensures
            r == (has_extension(file_path@, "html"@) || has_extension(file_path@, "htm"@)),
    {
        extension_is(file_path, "html") || extension_is(file_path, "htm")
    }
}

/// The reader of TOML documents; the decoding itself stands outside this library.
pub struct TomlParser;

impl TomlParser {
    /// Whether a path names a file of this format, by its extension.
    pub fn can_parse(&self, file_path: &str) -> (r: bool)
        ensures
            r == (has_extension(file_path@, "toml"@)),
    {
        extension_is(file_path, "toml")
    }
}

/// The reader of YAML documents; the decoding itself stands outside this library.
pub struct YamlParser;

impl YamlParser {
    /// Whether a path names a file of this format, by its extension.
    pub fn can_parse(&self, file_path: &str) -> (r: bool)
        ensures
            r == (has_extension(file_path@, "yaml"@) || has_extension(file_path@, "yml"@)),
    {
        extension_is(file_path, "yaml") || extension_is(file_path, "yml")
    }
}

/// Whether a file is read in streaming mode: streaming is enabled, the
/// file is larger than the threshold, and it is a record file.
pub fn use_streaming(enabled: bool, file_size: u64, threshold: u64, file_path: &str) -> (r: bool)
    ensures
        r == (enabled && file_size > threshold && has_extension(file_path@, "ldif"@)),
{
    enabled && file_size > threshold && extension_is(file_path, "ldif")
}

} // verus!
