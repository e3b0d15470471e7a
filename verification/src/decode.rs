//! Decoder for the header half of a post file. The header is a sequence
//! of lines, each blank, a `#` comment, or `key = value`; keys are
//! `title`, `subtitle` and `author` (quoted strings with `\"`, `\\`,
//! `\n` and `\t` escapes), `tags` (a bracketed list of quoted strings
//! without escapes) and `published` (an integer count of Unix seconds).
//! `title` and `author` are required; a failure names the offending
//! field.

use vstd::prelude::*;

use crate::header::Header;
use crate::text::chars_eq_str;
use crate::text::first_ch;
use crate::text::is_hspace;
use crate::text::spec_split_lines;
use crate::text::spec_trim;
use crate::text::split_lines;
use crate::text::subvec;
use crate::text::trim;
use crate::text::chars_to_string;
use crate::time::Timestamp;

verus! {

/// A field of the header, named in decode errors.
#[derive(Clone, Copy, PartialEq, Eq, Structural, Debug)]
pub enum HeaderField {
    Title,
    Subtitle,
    Author,
    Tags,
    Published,
}

/// Why a header failed to decode.
#[derive(Clone, Copy, PartialEq, Eq, Structural, Debug)]
pub enum HeaderError {
    /// A required field never appeared.
    Missing(HeaderField),
    /// A field appeared with a malformed value.
    Invalid(HeaderField),
    /// A field appeared twice.
    Duplicate(HeaderField),
    /// A line assigned to a key that is not a header field.
    UnknownKey,
    /// A non-blank, non-comment line without `=`.
    BadLine,
}

/// The decoded header, as mathematical values.
pub ghost struct SpecHeader {
    pub title: Seq<char>,
    pub subtitle: Option<Seq<char>>,
    pub author: Seq<char>,
    pub tags: Seq<Seq<char>>,
    pub published: Timestamp,
}

/// The character an escape code stands for, if it is one of the four
/// recognized codes.
pub open spec fn spec_escape_code(c: char) -> Option<char> {
    if c == '"' {
        Some('"')
    } else if c == '\\' {
        Some('\\')
    } else if c == 'n' {
        Some('\n')
    } else if c == 't' {
        Some('\t')
    } else {
        None
    }
}

/// Decode the remainder of a quoted string. `s` holds the characters
/// after the opening quote; `acc` what is already decoded. The value is
/// the decoded contents exactly when `s` is a well-formed body closed by
/// a final quote with nothing after it.
pub open spec fn spec_string_body(s: Seq<char>, acc: Seq<char>) -> Option<Seq<char>>
    decreases s.len(),
{
    if s.len() == 0 {
        None
    } else if s[0] == '"' {
        if s.len() == 1 {
            Some(acc)
        } else {
            None
        }
    } else if s[0] == '\\' {
        if s.len() >= 2 {
            match spec_escape_code(s[1]) {
                Some(c) => spec_string_body(s.skip(2), acc.push(c)),
                None => None,
            }
        } else {
            None
        }
    } else {
        spec_string_body(s.drop_first(), acc.push(s[0]))
    }
}

/// The contents of a quoted string value, or nothing when malformed.
pub open spec fn spec_string_value(s: Seq<char>) -> Option<Seq<char>> {
    if s.len() >= 1 && s[0] == '"' {
        spec_string_body(s.drop_first(), Seq::empty())
    } else {
        None
    }
}

/// Where a scan of a tag list stands.
#[derive(Clone, Copy, PartialEq, Eq, Structural, Debug)]
pub enum TagsMode {
    /// Before the first item.
    Start,
    /// Inside a quoted item.
    InItem,
    /// After an item, before a comma or the end.
    AfterItem,
    /// After a comma, an item is owed.
    ExpectItem,
}

/// Run the tag-list scanner over `s` (the characters between the
/// brackets): items are quoted strings without escapes, separated by
/// commas, with horizontal whitespace free between tokens.
pub open spec fn spec_tags_run(
    s: Seq<char>,
    mode: TagsMode,
    cur: Seq<char>,
    acc: Seq<Seq<char>>,
) -> Option<Seq<Seq<char>>>
    decreases s.len(),
{
    if s.len() == 0 {
        match mode {
            TagsMode::Start => Some(acc),
            TagsMode::AfterItem => Some(acc),
            TagsMode::InItem => None,
            TagsMode::ExpectItem => None,
        }
    } else {
        let c = s[0];
        let rest = s.drop_first();
        match mode {
            TagsMode::Start => if is_hspace(c) {
                spec_tags_run(rest, TagsMode::Start, cur, acc)
            } else if c == '"' {
                spec_tags_run(rest, TagsMode::InItem, Seq::empty(), acc)
            } else {
                None
            },
            TagsMode::InItem => if c == '"' {
                spec_tags_run(rest, TagsMode::AfterItem, Seq::empty(), acc.push(cur))
            } else {
                spec_tags_run(rest, TagsMode::InItem, cur.push(c), acc)
            },
            TagsMode::AfterItem => if is_hspace(c) {
                spec_tags_run(rest, TagsMode::AfterItem, cur, acc)
            } else if c == ',' {
                spec_tags_run(rest, TagsMode::ExpectItem, cur, acc)
            } else {
                None
            },
            TagsMode::ExpectItem => if is_hspace(c) {
                spec_tags_run(rest, TagsMode::ExpectItem, cur, acc)
            } else if c == '"' {
                spec_tags_run(rest, TagsMode::InItem, Seq::empty(), acc)
            } else {
                None
            },
        }
    }
}

/// The items of a bracketed tag list, or nothing when malformed.
pub open spec fn spec_tags_value(s: Seq<char>) -> Option<Seq<Seq<char>>> {
    if s.len() >= 2 && s[0] == '[' && s.last() == ']' {
        spec_tags_run(s.subrange(1, s.len() - 1), TagsMode::Start, Seq::empty(), Seq::empty())
    } else {
        None
    }
}

/// Is `c` a decimal digit?
pub open spec fn is_digit(c: char) -> bool {
    48 <= (c as u32) <= 57
}

/// The value of a decimal digit.
pub open spec fn digit_val(c: char) -> int {
    (c as u32) - 48
}

/// The value of a digit run appended to `acc`, or nothing when a
/// non-digit occurs.
pub open spec fn spec_digits_run(s: Seq<char>, acc: int) -> Option<int>
    decreases s.len(),
{
    if s.len() == 0 {
        Some(acc)
    } else if is_digit(s[0]) {
        spec_digits_run(s.drop_first(), acc * 10 + digit_val(s[0]))
    } else {
        None
    }
}

/// A digit run never shrinks a non-negative accumulator.
pub proof fn lemma_digits_run_monotone(s: Seq<char>, acc: int)
    requires
        acc >= 0,
    ensures
        spec_digits_run(s, acc) matches Some(v) ==> v >= acc,
    decreases s.len(),
{
    if s.len() > 0 && is_digit(s[0]) {
        lemma_digits_run_monotone(s.drop_first(), acc * 10 + digit_val(s[0]));
    }
}

/// The integer a value denotes: an optional minus sign and at least one
/// digit.
pub open spec fn spec_int_value(s: Seq<char>) -> Option<int> {
    if s.len() == 0 {
        None
    } else if s[0] == '-' {
        if s.len() >= 2 {
            match spec_digits_run(s.skip(1), 0) {
                Some(v) => Some(-v),
                None => None,
            }
        } else {
            None
        }
    } else {
        spec_digits_run(s, 0)
    }
}

/// The publication instant a value denotes: an integer count of Unix
/// seconds that fits in an `i64`.
pub open spec fn spec_published_value(s: Seq<char>) -> Option<Timestamp> {
    match spec_int_value(s) {
        Some(v) => if i64::MIN <= v <= i64::MAX {
            Some(Timestamp { secs: v as i64, nanos: 0 })
        } else {
            None
        },
        None => None,
    }
}

/// The key sequences of the five header fields.
pub open spec fn key_title() -> Seq<char> {
    seq!['t', 'i', 't', 'l', 'e']
}

pub open spec fn key_subtitle() -> Seq<char> {
    seq!['s', 'u', 'b', 't', 'i', 't', 'l', 'e']
}

pub open spec fn key_author() -> Seq<char> {
    seq!['a', 'u', 't', 'h', 'o', 'r']
}

pub open spec fn key_tags() -> Seq<char> {
    seq!['t', 'a', 'g', 's']
}

pub open spec fn key_published() -> Seq<char> {
    seq!['p', 'u', 'b', 'l', 'i', 's', 'h', 'e', 'd']
}

/// What one line of the header is.
pub ghost enum SpecLine {
    /// Blank, or a comment: carries nothing.
    Skip,
    /// Not blank, not a comment, and without `=`.
    Bad,
    /// An assignment, with trimmed key and raw (trimmed) value text.
    Pair { key: Seq<char>, raw: Seq<char> },
}

/// Classify one line of the header.
pub open spec fn spec_line(line: Seq<char>) -> SpecLine {
    let t = spec_trim(line);
    if t.len() == 0 {
        SpecLine::Skip
    } else if t[0] == '#' {
        SpecLine::Skip
    } else {
        let i = first_ch(t, '=');
        if i >= t.len() {
            SpecLine::Bad
        } else {
            SpecLine::Pair {
                key: spec_trim(t.take(i as int)),
                raw: spec_trim(t.skip(i as int + 1)),
            }
        }
    }
}

/// The fields collected so far while folding over the lines.
pub ghost struct SpecAcc {
    pub title: Option<Seq<char>>,
    pub subtitle: Option<Seq<char>>,
    pub author: Option<Seq<char>>,
    pub tags: Option<Seq<Seq<char>>>,
    pub published: Option<Timestamp>,
}

/// No field seen yet.
pub open spec fn spec_acc_init() -> SpecAcc {
    SpecAcc { title: None, subtitle: None, author: None, tags: None, published: None }
}

/// Fold one line into the accumulated fields: a repeated key is a
/// duplicate, a malformed value is invalid, an unrecognized key is an
/// error.
pub open spec fn spec_apply_line(acc: SpecAcc, line: Seq<char>) -> Result<SpecAcc, HeaderError> {
    match spec_line(line) {
        SpecLine::Skip => Ok(acc),
        SpecLine::Bad => Err(HeaderError::BadLine),
        SpecLine::Pair { key, raw } => {
            if key == key_title() {
                if acc.title is Some {
                    Err(HeaderError::Duplicate(HeaderField::Title))
                } else {
                    match spec_string_value(raw) {
                        Some(v) => Ok(SpecAcc { title: Some(v), ..acc }),
                        None => Err(HeaderError::Invalid(HeaderField::Title)),
                    }
                }
            } else if key == key_subtitle() {
                if acc.subtitle is Some {
                    Err(HeaderError::Duplicate(HeaderField::Subtitle))
                } else {
                    match spec_string_value(raw) {
                        Some(v) => Ok(SpecAcc { subtitle: Some(v), ..acc }),
                        None => Err(HeaderError::Invalid(HeaderField::Subtitle)),
                    }
                }
            } else if key == key_author() {
                if acc.author is Some {
                    Err(HeaderError::Duplicate(HeaderField::Author))
                } else {
                    match spec_string_value(raw) {
                        Some(v) => Ok(SpecAcc { author: Some(v), ..acc }),
                        None => Err(HeaderError::Invalid(HeaderField::Author)),
                    }
                }
            } else if key == key_tags() {
                if acc.tags is Some {
                    Err(HeaderError::Duplicate(HeaderField::Tags))
                } else {
                    match spec_tags_value(raw) {
                        Some(v) => Ok(SpecAcc { tags: Some(v), ..acc }),
                        None => Err(HeaderError::Invalid(HeaderField::Tags)),
                    }
                }
            } else if key == key_published() {
                if acc.published is Some {
                    Err(HeaderError::Duplicate(HeaderField::Published))
                } else {
                    match spec_published_value(raw) {
                        Some(v) => Ok(SpecAcc { published: Some(v), ..acc }),
                        None => Err(HeaderError::Invalid(HeaderField::Published)),
                    }
                }
            } else {
                Err(HeaderError::UnknownKey)
            }
        },
    }
}

/// Fold all lines, stopping at the first error.
pub open spec fn spec_fold_lines(lines: Seq<Seq<char>>, acc: SpecAcc) -> Result<
    SpecAcc,
    HeaderError,
>
    decreases lines.len(),
{
    if lines.len() == 0 {
        Ok(acc)
    } else {
        match spec_apply_line(acc, lines[0]) {
            Ok(a) => spec_fold_lines(lines.drop_first(), a),
            Err(e) => Err(e),
        }
    }
}

/// Check required fields and fill defaults: `title` and `author` are
/// required; `tags` defaults to the empty list; `published` to the Unix
/// epoch.
pub open spec fn spec_finalize(acc: SpecAcc) -> Result<SpecHeader, HeaderError> {
    if acc.title is None {
        Err(HeaderError::Missing(HeaderField::Title))
    } else if acc.author is None {
        Err(HeaderError::Missing(HeaderField::Author))
    } else {
        Ok(
            SpecHeader {
                title: acc.title->0,
                subtitle: acc.subtitle,
                author: acc.author->0,
                tags: match acc.tags {
                    Some(t) => t,
                    None => Seq::empty(),
                },
                published: match acc.published {
                    Some(p) => p,
                    None => Timestamp { secs: 0, nanos: 0 },
                },
            },
        )
    }
}

/// What the header text decodes to.
pub open spec fn spec_decode_header(s: Seq<char>) -> Result<SpecHeader, HeaderError> {
    match spec_fold_lines(spec_split_lines(s), spec_acc_init()) {
        Ok(acc) => spec_finalize(acc),
        Err(e) => Err(e),
    }
}

/// Does the decoded exec header equal the spec header, field for field?
pub open spec fn header_matches(h: Header, sh: SpecHeader) -> bool {
    &&& h.title@ == sh.title
    &&& h.subtitle.deep_view() == sh.subtitle
    &&& h.author@ == sh.author
    &&& h.tags.deep_view() == sh.tags
    &&& h.published == sh.published
}

/// The character an escape code stands for.
fn escape_code(c: char) -> (r: Option<char>)
    ensures
        r == spec_escape_code(c),
{
    if c == '"' {
        Some('"')
    } else if c == '\\' {
        Some('\\')
    } else if c == 'n' {
        Some('\n')
    } else if c == 't' {
        Some('\t')
    } else {
        None
    }
}

/// Decode a quoted string value.
fn parse_string_value(v: &[char]) -> (r: Option<String>)
    ensures
        match (r, spec_string_value(v@)) {
            (Some(s), Some(sp)) => s@ == sp,
            (None, None) => true,
            _ => false,
        },
{
    let n: usize = v.len();
    if n == 0 || v[0] != '"' {
        return None;
    }
    let mut out: Vec<char> = Vec::new();
    let mut i: usize = 1;
    proof {
        assert(v@.skip(1) =~= v@.drop_first());
    }
    loop
        invariant
            1 <= i <= n,
            n == v@.len(),
            v@[0] == '"',
            spec_string_value(v@) == spec_string_body(v@.skip(i as int), out@),
        decreases n - i,
    {
        if i == n {
            return None;
        }
        let c = v[i];
        proof {
            assert(v@.skip(i as int)[0] == c);
        }
        if c == '"' {
            if i == n - 1 {
                let s = chars_to_string(out.as_slice());
                return Some(s);
            } else {
                return None;
            }
        } else if c == '\\' {
            if i + 1 == n {
                return None;
            }
            let e = escape_code(v[i + 1]);
            proof {
                assert(v@.skip(i as int)[1] == v@[i + 1]);
            }
            match e {
                Some(d) => {
                    out.push(d);
                    proof {
                        assert(v@.skip(i as int).skip(2) =~= v@.skip(i as int + 2));
                    }
                    i = i + 2;
                },
                None => {
                    return None;
                },
            }
        } else {
            out.push(c);
            proof {
                assert(v@.skip(i as int).drop_first() =~= v@.skip(i as int + 1));
            }
            i = i + 1;
        }
    }
}

/// Decode a bracketed tag list.
fn parse_tags_value(v: &[char]) -> (r: Option<Vec<String>>)
    ensures
        match (r, spec_tags_value(v@)) {
            (Some(t), Some(tp)) => t.deep_view() == tp,
            (None, None) => true,
            _ => false,
        },
{
    let n: usize = v.len();
    if n < 2 || v[0] != '[' || v[n - 1] != ']' {
        return None;
    }
    let ghost inner = v@.subrange(1, n - 1);
    let mut mode = TagsMode::Start;
    let mut cur: Vec<char> = Vec::new();
    let mut acc: Vec<String> = Vec::new();
    let mut i: usize = 1;
    proof {
        assert(inner.skip(0) =~= inner);
        assert(acc.deep_view() =~~= Seq::<Seq<char>>::empty());
    }
    loop
        invariant
            1 <= i <= n - 1,
            n == v@.len(),
            n >= 2,
            inner == v@.subrange(1, n - 1),
            spec_tags_value(v@) == spec_tags_run(
                inner.skip(i - 1),
                mode,
                cur@,
                acc.deep_view(),
            ),
        decreases n - i,
    {
        if i == n - 1 {
            proof {
                assert(inner.skip(i - 1) =~= Seq::<char>::empty());
            }
            match mode {
                TagsMode::Start => {
                    return Some(acc);
                },
                TagsMode::AfterItem => {
                    return Some(acc);
                },
                TagsMode::InItem => {
                    return None;
                },
                TagsMode::ExpectItem => {
                    return None;
                },
            }
        }
        let c = v[i];
        proof {
            assert(inner.skip(i - 1)[0] == inner[i - 1] == c);
            assert(inner.skip(i - 1).drop_first() =~= inner.skip(i as int));
        }
        match mode {
            TagsMode::Start => {
                if c == ' ' || c == '\t' || c == '\r' {
                } else if c == '"' {
                    mode = TagsMode::InItem;
                    cur = Vec::new();
                } else {
                    return None;
                }
            },
            TagsMode::InItem => {
                if c == '"' {
                    let ghost pre = acc.deep_view();
                    let item = chars_to_string(cur.as_slice());
                    acc.push(item);
                    proof {
                        assert(acc.deep_view() =~~= pre.push(cur@));
                    }
                    mode = TagsMode::AfterItem;
                    cur = Vec::new();
                } else {
                    cur.push(c);
                }
            },
            TagsMode::AfterItem => {
                if c == ' ' || c == '\t' || c == '\r' {
                } else if c == ',' {
                    mode = TagsMode::ExpectItem;
                } else {
                    return None;
                }
            },
            TagsMode::ExpectItem => {
                if c == ' ' || c == '\t' || c == '\r' {
                } else if c == '"' {
                    mode = TagsMode::InItem;
                    cur = Vec::new();
                } else {
                    return None;
                }
            },
        }
        i = i + 1;
    }
}

/// Decode a published value: an integer count of Unix seconds.
fn parse_published_value(v: &[char]) -> (r: Option<Timestamp>)
    ensures
        r == spec_published_value(v@),
        r matches Some(t) ==> t.wf(),
{
    let n: usize = v.len();
    if n == 0 {
        return None;
    }
    let neg: bool = v[0] == '-';
    let start: usize = if neg {
        1
    } else {
        0
    };
    if neg && n == 1 {
        return None;
    }
    let ghost digits = v@.skip(start as int);
    let mut mag: u128 = 0;
    let mut i: usize = start;
    proof {
        assert(digits.skip(0) =~= digits);
        if !neg {
            assert(digits =~= v@);
        }
    }
    loop
        invariant
            start <= i <= n,
            n >= 1,
            n == v@.len(),
            start == if neg { 1int } else { 0int },
            neg ==> v@[0] == '-',
            !neg ==> v@[0] != '-',
            neg ==> n >= 2,
            digits == v@.skip(start as int),
            mag <= 0x8000_0000_0000_0000u128,
            spec_digits_run(digits, 0) == spec_digits_run(digits.skip(i - start), mag as int),
        decreases n - i,
    {
        if i == n {
            proof {
                assert(digits.skip(i - start) =~= Seq::<char>::empty());
                assert(spec_digits_run(digits, 0) == Some(mag as int));
                if !neg {
                    assert(v@.skip(0) =~= v@);
                }
            }
            if neg {
                if mag > 0x8000_0000_0000_0000u128 {
                    return None;
                }
                let secs: i64 = if mag == 0x8000_0000_0000_0000u128 {
                    i64::MIN
                } else {
                    -(mag as i64)
                };
                return Some(Timestamp { secs, nanos: 0 });
            } else {
                if mag > i64::MAX as u128 {
                    return None;
                }
                return Some(Timestamp { secs: mag as i64, nanos: 0 });
            }
        }
        let c = v[i];
        proof {
            assert(digits.skip(i - start)[0] == digits[i - start] == c);
            assert(digits.skip(i - start).drop_first() =~= digits.skip(i - start + 1));
        }
        let u: u32 = c as u32;
        if u < 48 || u > 57 {
            proof {
                assert(spec_digits_run(digits.skip(i - start), mag as int) is None);
                if !neg {
                    assert(v@.skip(0) =~= v@);
                }
            }
            return None;
        }
        let d: u128 = (u - 48) as u128;
        let next: u128 = mag * 10 + d;
        if next > 0x8000_0000_0000_0000u128 {
            proof {
                lemma_digits_run_monotone(digits.skip(i - start + 1), next as int);
                let r0 = spec_digits_run(digits, 0);
                if r0 is Some {
                    assert(r0->0 >= next as int > i64::MAX);
                }
                if !neg {
                    assert(v@.skip(0) =~= v@);
                }
            }
            return None;
        }
        mag = next;
        i = i + 1;
    }
}

/// The fields collected so far.
struct HeaderAcc {
    title: Option<String>,
    subtitle: Option<String>,
    author: Option<String>,
    tags: Option<Vec<String>>,
    published: Option<Timestamp>,
}

impl HeaderAcc {
    /// The mathematical value of the accumulator.
    spec fn view(&self) -> SpecAcc {
        SpecAcc {
            title: self.title.deep_view(),
            subtitle: self.subtitle.deep_view(),
            author: self.author.deep_view(),
            tags: match self.tags {
                Some(t) => Some(t.deep_view()),
                None => None,
            },
            published: self.published,
        }
    }
}

/// Fold one line into the accumulator.
fn apply_line(acc: HeaderAcc, line: &[char]) -> (r: Result<HeaderAcc, HeaderError>)
    ensures
        match (r, spec_apply_line(acc.view(), line@)) {
            (Ok(a), Ok(sa)) => a.view() == sa,
            (Err(e), Err(se)) => e == se,
            _ => false,
        },
{
    let t = trim(line);
    if t.len() == 0 {
        return Ok(acc);
    }
    if t[0] == '#' {
        return Ok(acc);
    }
    let eq_pos = crate::text::find_char(t.as_slice(), '=');
    if eq_pos == t.len() {
        return Err(HeaderError::BadLine);
    }
    let key = trim(subvec(t.as_slice(), 0, eq_pos).as_slice());
    let raw = trim(subvec(t.as_slice(), eq_pos + 1, t.len()).as_slice());
    proof {
        assert(t@.take(first_ch(t@, '=') as int) =~= t@.subrange(0, eq_pos as int));
        assert(t@.skip(first_ch(t@, '=') as int + 1) =~= t@.subrange(eq_pos as int + 1, t@.len() as int));
        assert(spec_line(line@) == (SpecLine::Pair { key: key@, raw: raw@ }));
        reveal_strlit("title");
        reveal_strlit("subtitle");
        reveal_strlit("author");
        reveal_strlit("tags");
        reveal_strlit("published");
        assert("title"@ =~= key_title());
        assert("subtitle"@ =~= key_subtitle());
        assert("author"@ =~= key_author());
        assert("tags"@ =~= key_tags());
        assert("published"@ =~= key_published());
    }
    if chars_eq_str(key.as_slice(), "title") {
        if acc.title.is_some() {
            return Err(HeaderError::Duplicate(HeaderField::Title));
        }
        match parse_string_value(raw.as_slice()) {
            Some(s) => Ok(HeaderAcc { title: Some(s), ..acc }),
            None => Err(HeaderError::Invalid(HeaderField::Title)),
        }
    } else if chars_eq_str(key.as_slice(), "subtitle") {
        if acc.subtitle.is_some() {
            return Err(HeaderError::Duplicate(HeaderField::Subtitle));
        }
        match parse_string_value(raw.as_slice()) {
            Some(s) => Ok(HeaderAcc { subtitle: Some(s), ..acc }),
            None => Err(HeaderError::Invalid(HeaderField::Subtitle)),
        }
    } else if chars_eq_str(key.as_slice(), "author") {
        if acc.author.is_some() {
            return Err(HeaderError::Duplicate(HeaderField::Author));
        }
        match parse_string_value(raw.as_slice()) {
            Some(s) => Ok(HeaderAcc { author: Some(s), ..acc }),
            None => Err(HeaderError::Invalid(HeaderField::Author)),
        }
    } else if chars_eq_str(key.as_slice(), "tags") {
        if acc.tags.is_some() {
            return Err(HeaderError::Duplicate(HeaderField::Tags));
        }
        match parse_tags_value(raw.as_slice()) {
            Some(t) => Ok(HeaderAcc { tags: Some(t), ..acc }),
            None => Err(HeaderError::Invalid(HeaderField::Tags)),
        }
    } else if chars_eq_str(key.as_slice(), "published") {
        if acc.published.is_some() {
            return Err(HeaderError::Duplicate(HeaderField::Published));
        }
        match parse_published_value(raw.as_slice()) {
            Some(p) => Ok(HeaderAcc { published: Some(p), ..acc }),
            None => Err(HeaderError::Invalid(HeaderField::Published)),
        }
    } else {
        proof {
            reveal_strlit("title");
            reveal_strlit("subtitle");
            reveal_strlit("author");
            reveal_strlit("tags");
            reveal_strlit("published");
            assert("title"@ =~= key_title());
            assert("subtitle"@ =~= key_subtitle());
            assert("author"@ =~= key_author());
            assert("tags"@ =~= key_tags());
            assert("published"@ =~= key_published());
        }
        Err(HeaderError::UnknownKey)
    }
}

/// Decode the header text into a structured header; the error names the
/// offending field or line kind, and the first offending line wins.
pub fn decode_header(v: &[char]) -> (r: Result<Header, HeaderError>)
    ensures
        match (r, spec_decode_header(v@)) {
            (Ok(h), Ok(sh)) => header_matches(h, sh) && h.wf(),
            (Err(e), Err(se)) => e == se,
            _ => false,
        },
{
    let lines = split_lines(v);
    let n: usize = lines.len();
    let mut acc = HeaderAcc {
        title: None,
        subtitle: None,
        author: None,
        tags: None,
        published: None,
    };
    let mut k: usize = 0;
    proof {
        assert(acc.view() == spec_acc_init());
        assert(lines.deep_view().skip(0) =~~= lines.deep_view());
    }
    while k < n
        invariant
            k <= n,
            n == lines@.len(),
            lines.deep_view() == spec_split_lines(v@),
            spec_fold_lines(spec_split_lines(v@), spec_acc_init()) == spec_fold_lines(
                lines.deep_view().skip(k as int),
                acc.view(),
            ),
            acc.published matches Some(p) ==> p.wf(),
        decreases n - k,
    {
        proof {
            assert(lines.deep_view().skip(k as int)[0] == lines@[k as int].deep_view());
            assert(lines@[k as int].deep_view() =~= lines@[k as int]@);
            assert(lines.deep_view().skip(k as int).drop_first() =~~= lines.deep_view().skip(
                k as int + 1,
            ));
        }
        let line = &lines[k];
        match apply_line(acc, line.as_slice()) {
            Ok(a) => {
                acc = a;
            },
            Err(e) => {
                return Err(e);
            },
        }
        k = k + 1;
    }
    proof {
        assert(lines.deep_view().skip(n as int) =~~= Seq::<Seq<char>>::empty());
    }
    if acc.title.is_none() {
        return Err(HeaderError::Missing(HeaderField::Title));
    }
    if acc.author.is_none() {
        return Err(HeaderError::Missing(HeaderField::Author));
    }
    let title = match acc.title {
        Some(t) => t,
        None => String::new(),
    };
    let author = match acc.author {
        Some(a) => a,
        None => String::new(),
    };
    let tags = match acc.tags {
        Some(t) => t,
        None => Vec::new(),
    };
    let published = match acc.published {
        Some(p) => p,
        None => Timestamp { secs: 0, nanos: 0 },
    };
    let h = Header { title, subtitle: acc.subtitle, author, tags, published };
    proof {
        if h.tags.deep_view().len() == 0 {
            assert(h.tags.deep_view() =~~= Seq::<Seq<char>>::empty());
        }
    }
    Ok(h)
}

} // verus!
