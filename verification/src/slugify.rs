//! Slugify a display name into an ID.
//!
//! Rules:
//! - Lowercase the text.
//! - Replace spaces with hyphens.
//! - Strip characters that are not alphanumeric or hyphens.
//! - Collapse consecutive hyphens.
//! - Trim leading and trailing hyphens.

use vstd::prelude::*;
use crate::text::{chars_of, string_from_chars, slice_chars, is_ascii_alphanumeric, to_ascii_lowercase, is_ascii_alnum, ascii_lower};

verus! {

/// Step 1 on one character: ASCII alphanumerics are kept (lower-cased),
/// spaces and hyphens become a hyphen, everything else is dropped.
pub open spec fn slug_char(c: char) -> Option<char> {
    if is_ascii_alnum(c) {
        Some(ascii_lower(c))
    } else if c == ' ' || c == '-' {
        Some('-')
    } else {
        None
    }
}

/// Step 1 over a whole text.
pub open spec fn slug_map(s: Seq<char>) -> Seq<char>
    decreases s.len(),
{
    if s.len() == 0 {
        s
    } else {
        match slug_char(s.last()) {
            Some(c) => slug_map(s.drop_last()).push(c),
            None => slug_map(s.drop_last()),
        }
    }
}

/// Step 2: a hyphen is kept only when the character before it is not a hyphen.
pub open spec fn collapse_hyphens(s: Seq<char>) -> Seq<char>
    decreases s.len(),
{
    if s.len() == 0 {
        s
    } else if s.last() == '-' && s.len() >= 2 && s[s.len() - 2] == '-' {
        collapse_hyphens(s.drop_last())
    } else {
        collapse_hyphens(s.drop_last()).push(s.last())
    }
}

/// Step 3: leading and trailing hyphens removed.
pub open spec fn trim_hyphens(s: Seq<char>) -> Seq<char>
    decreases s.len(),
{
    if s.len() > 0 && s[0] == '-' {
        trim_hyphens(s.drop_first())
    } else if s.len() > 0 && s.last() == '-' {
        trim_hyphens(s.drop_last())
    } else {
        s
    }
}

/// The slug of a display name.
pub open spec fn spec_slugify(s: Seq<char>) -> Seq<char> {
    trim_hyphens(collapse_hyphens(slug_map(s)))
}

/// A well-formed slug: lower-case ASCII letters, digits and hyphens, with no
/// hyphen at either end and no two hyphens in a row.
pub open spec fn is_slug(s: Seq<char>) -> bool {
    &&& forall|i: int| 0 <= i < s.len() ==> is_slug_char(#[trigger] s[i])
    &&& (s.len() > 0 ==> s[0] != '-' && s.last() != '-')
    &&& forall|i: int| 0 <= i < s.len() - 1 ==> !(#[trigger] s[i] == '-' && s[i + 1] == '-')
}

pub open spec fn is_slug_char(c: char) -> bool {
    ('a' <= c && c <= 'z') || ('0' <= c && c <= '9') || c == '-'
}

/// Slugify a display name into an ID.
pub fn slugify(input: &str) -> (out: String)
    ensures
        out@ == spec_slugify(input@),
{
    let chars = chars_of(input);

    // Step 1: map characters.
    let mut mapped: Vec<char> = Vec::new();
    let mut i: usize = 0;
    while i < chars.len()
        invariant
            i <= chars.len(),
            mapped@ == slug_map(chars@.take(i as int)),
        decreases chars.len() - i,
    {
        let ch = chars[i];
        assert(chars@.take(i + 1).drop_last() == chars@.take(i as int));
        if is_ascii_alphanumeric(ch) {
            mapped.push(to_ascii_lowercase(ch));
        } else if ch == ' ' || ch == '-' {
            mapped.push('-');
        }
        i += 1;
    }
    assert(chars@.take(chars.len() as int) == chars@);

    // Step 2: collapse consecutive hyphens.
    let mut collapsed: Vec<char> = Vec::new();
    let mut prev_hyphen = false;
    let mut j: usize = 0;
    while j < mapped.len()
        invariant
            j <= mapped.len(),
            collapsed@ == collapse_hyphens(mapped@.take(j as int)),
            prev_hyphen == (j > 0 && mapped@[j - 1] == '-'),
        decreases mapped.len() - j,
    {
        let ch = mapped[j];
        assert(mapped@.take(j + 1).drop_last() == mapped@.take(j as int));
        if ch == '-' {
            if !prev_hyphen {
                collapsed.push('-');
            }
            prev_hyphen = true;
        } else {
            collapsed.push(ch);
            prev_hyphen = false;
        }
        j += 1;
    }
    assert(mapped@.take(mapped.len() as int) == mapped@);

    // Step 3: trim leading and trailing hyphens.
    let trimmed = trim_hyphen_slice(&collapsed);
    string_from_chars(trimmed)
}

/// Characters of `s` between its first and last non-hyphen character.
fn trim_hyphen_slice(s: &Vec<char>) -> (out: Vec<char>)
    ensures
        out@ == trim_hyphens(s@),
{
    let mut start: usize = 0;
    assert(s@.subrange(0, s.len() as int) == s@);
    while start < s.len() && s[start] == '-'
        invariant
            start <= s.len(),
            trim_hyphens(s@) == trim_hyphens(s@.subrange(start as int, s.len() as int)),
        decreases s.len() - start,
    {
        assert(s@.subrange(start as int, s.len() as int).drop_first()
            == s@.subrange(start + 1, s.len() as int));
        start += 1;
    }
    let mut end: usize = s.len();
    while end > start && s[end - 1] == '-'
        invariant
            start <= end <= s.len(),
            start < end ==> s@[start as int] != '-',
            trim_hyphens(s@) == trim_hyphens(s@.subrange(start as int, end as int)),
        decreases end,
    {
        assert(s@.subrange(start as int, end as int).drop_last()
            == s@.subrange(start as int, end - 1));
        end -= 1;
    }
    let out = slice_chars(s, start, end);
    out
}

/// The slug of a slug is itself.
pub proof fn lemma_slugify_idempotent(s: Seq<char>)
    ensures
        spec_slugify(spec_slugify(s)) == spec_slugify(s),
{
    lemma_slugify_is_slug(s);
    lemma_slug_fixed(spec_slugify(s));
}

/// Every slug is well-formed.
pub proof fn lemma_slugify_is_slug(s: Seq<char>)
    ensures
        is_slug(spec_slugify(s)),
{
    lemma_slug_map_chars(s);
    lemma_collapse_props(slug_map(s));
    lemma_trim_props(collapse_hyphens(slug_map(s)));
}

proof fn lemma_slug_map_chars(s: Seq<char>)
    ensures
        forall|i: int| 0 <= i < slug_map(s).len() ==> is_slug_char(#[trigger] slug_map(s)[i]),
    decreases s.len(),
{
    if s.len() > 0 {
        lemma_slug_map_chars(s.drop_last());
        let c = s.last();
        if is_ascii_alnum(c) {
            lemma_ascii_lower_slug(c);
        }
        let r = slug_map(s.drop_last());
        if let Some(d) = slug_char(c) {
            assert(is_slug_char(d));
            assert forall|i: int| 0 <= i < slug_map(s).len() implies is_slug_char(#[trigger] slug_map(s)[i]) by {
                if i < r.len() {
                    assert(slug_map(s)[i] == r[i]);
                }
            }
        }
    }
}

proof fn lemma_collapse_props(s: Seq<char>)
    requires
        forall|i: int| 0 <= i < s.len() ==> is_slug_char(#[trigger] s[i]),
    ensures
        forall|i: int| 0 <= i < collapse_hyphens(s).len() ==> is_slug_char(#[trigger] collapse_hyphens(s)[i]),
        forall|i: int| 0 <= i < collapse_hyphens(s).len() - 1
            ==> !(#[trigger] collapse_hyphens(s)[i] == '-' && collapse_hyphens(s)[i + 1] == '-'),
        s.len() > 0 ==> collapse_hyphens(s).len() > 0 && collapse_hyphens(s).last() == s.last(),
    decreases s.len(),
{
    if s.len() > 0 {
        lemma_collapse_props(s.drop_last());
        let r = collapse_hyphens(s.drop_last());
        if s.len() >= 2 {
            assert(s.drop_last().last() == s[s.len() - 2]);
        }
    }
}

proof fn lemma_trim_props(s: Seq<char>)
    requires
        forall|i: int| 0 <= i < s.len() ==> is_slug_char(#[trigger] s[i]),
        forall|i: int| 0 <= i < s.len() - 1 ==> !(#[trigger] s[i] == '-' && s[i + 1] == '-'),
    ensures
        is_slug(trim_hyphens(s)),
    decreases s.len(),
{
    if s.len() > 0 && s[0] == '-' {
        assert forall|i: int| 0 <= i < s.drop_first().len() - 1
            implies !(#[trigger] s.drop_first()[i] == '-' && s.drop_first()[i + 1] == '-') by {
            assert(s.drop_first()[i] == s[i + 1]);
        }
        lemma_trim_props(s.drop_first());
    } else if s.len() > 0 && s.last() == '-' {
        lemma_trim_props(s.drop_last());
    }
}

proof fn lemma_ascii_lower_slug(c: char)
    requires
        is_ascii_alnum(c),
    ensures
        is_slug_char(ascii_lower(c)),
{
    if 'A' <= c && c <= 'Z' {
        assert(65 <= (c as u32) <= 90);
        assert('a' <= ((c as u32) + 32) as char <= 'z');
    }
}

/// A well-formed slug is left unchanged by every step.
proof fn lemma_slug_fixed(s: Seq<char>)
    requires
        is_slug(s),
    ensures
        spec_slugify(s) == s,
{
    lemma_slug_map_id(s);
    lemma_collapse_id(s);
}

proof fn lemma_slug_map_id(s: Seq<char>)
    requires
        forall|i: int| 0 <= i < s.len() ==> is_slug_char(#[trigger] s[i]),
    ensures
        slug_map(s) == s,
    decreases s.len(),
{
    if s.len() > 0 {
        lemma_slug_map_id(s.drop_last());
        assert(is_slug_char(s[s.len() - 1]));
        assert(s.drop_last().push(s.last()) == s);
    }
}

proof fn lemma_collapse_id(s: Seq<char>)
    requires
        forall|i: int| 0 <= i < s.len() - 1 ==> !(#[trigger] s[i] == '-' && s[i + 1] == '-'),
    ensures
        collapse_hyphens(s) == s,
    decreases s.len(),
{
    if s.len() > 0 {
        assert forall|i: int| 0 <= i < s.drop_last().len() - 1
            implies !(#[trigger] s.drop_last()[i] == '-' && s.drop_last()[i + 1] == '-') by {
            assert(s.drop_last()[i] == s[i]);
        }
        lemma_collapse_id(s.drop_last());
        if s.len() >= 2 {
            assert(!(s[s.len() - 2] == '-' && s[s.len() - 1] == '-'));
        }
        assert(s.drop_last().push(s.last()) == s);
    }
}

} // verus!
