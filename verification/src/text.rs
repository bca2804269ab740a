//! Character-level helpers shared by the parser, slug derivation and
//! diagnostics. Strings are handled as sequences of `char`.

use vstd::prelude::*;

verus! {

broadcast use vstd::string::group_string_axioms;

/// The characters of a string slice, in order.
pub fn chars_of(s: &str) -> (v: Vec<char>)
    ensures
        v@ == s@,
{
    let mut v: Vec<char> = Vec::new();
    for c in it: s.chars()
        invariant
            it.seq() == s@,
            v@ == it.seq().take(it.index()),
    {
        v.push(c);
    }
    v
}

/// Builds a `String` holding exactly the given characters
/// (`String::from_iter` over `char`s).
#[verifier::external_body]
pub fn string_from_chars(v: Vec<char>) -> (s: String)
    ensures
        s@ == v@,
{
    String::from_iter(v)
}


/// Unicode letters and numbers: what `char::is_alphanumeric` answers.
pub uninterp spec fn unicode_alphanumeric(c: char) -> bool;

/// `char::is_alphanumeric`. Its documentation defines it as alphabetic or
/// numeric; among ASCII characters those are exactly the letters and digits,
/// which is all that is claimed beyond naming the result.
#[verifier::external_body]
pub fn is_alphanumeric(c: char) -> (b: bool)
    ensures
        b == unicode_alphanumeric(c),
        (c as u32) < 128 ==> (b == is_ascii_alnum(c)),
{
    c.is_alphanumeric()
}

/// Upper-case letters: what `char::is_uppercase` answers.
pub uninterp spec fn unicode_uppercase(c: char) -> bool;

/// `char::is_uppercase`. Its documentation defines it by the Unicode
/// `Uppercase` property; among ASCII characters that is exactly `A`–`Z`,
/// which is all that is claimed beyond naming the result.
#[verifier::external_body]
pub fn is_uppercase(c: char) -> (b: bool)
    ensures
        b == unicode_uppercase(c),
        (c as u32) < 128 ==> (b == ('A' <= c && c <= 'Z')),
{
    c.is_uppercase()
}

/// ASCII letters and digits (`char::is_ascii_alphanumeric`).
pub open spec fn is_ascii_alnum(c: char) -> bool {
    ('0' <= c && c <= '9') || ('A' <= c && c <= 'Z') || ('a' <= c && c <= 'z')
}

/// ASCII upper-case letters mapped to lower case, other characters unchanged
/// (`char::to_ascii_lowercase`).
pub open spec fn ascii_lower(c: char) -> char {
    if 'A' <= c && c <= 'Z' {
        ((c as u32) + 32) as char
    } else {
        c
    }
}

pub fn is_ascii_alphanumeric(c: char) -> (b: bool)
    ensures
        b == is_ascii_alnum(c),
{
    ('0' <= c && c <= '9') || ('A' <= c && c <= 'Z') || ('a' <= c && c <= 'z')
}

pub fn to_ascii_lowercase(c: char) -> (r: char)
    ensures
        r == ascii_lower(c),
{
    if 'A' <= c && c <= 'Z' {
        let b: u8 = (c as u8) + 32;
        b as char
    } else {
        c
    }
}

/// The characters `v[from..to]`.
pub fn slice_chars(v: &Vec<char>, from: usize, to: usize) -> (out: Vec<char>)
    requires
        from <= to <= v.len(),
    ensures
        out@ == v@.subrange(from as int, to as int),
{
    let mut out: Vec<char> = Vec::new();
    let mut k = from;
    while k < to
        invariant
            from <= k <= to <= v.len(),
            out@ == v@.subrange(from as int, k as int),
        decreases to - k,
    {
        out.push(v[k]);
        k += 1;
    }
    out
}


/// Lexicographic comparison of two character sequences by code point:
/// negative, zero or positive as `a` sorts before, equal to, or after `b`.
/// For UTF-8 text this is the same order as comparing the bytes.
pub open spec fn lex_order(a: Seq<char>, b: Seq<char>) -> int
    decreases a.len(),
{
    if a.len() == 0 && b.len() == 0 {
        0
    } else if a.len() == 0 {
        -1
    } else if b.len() == 0 {
        1
    } else if a[0] < b[0] {
        -1
    } else if a[0] > b[0] {
        1
    } else {
        lex_order(a.drop_first(), b.drop_first())
    }
}

pub proof fn lemma_lex_order_antisym(a: Seq<char>, b: Seq<char>)
    ensures
        lex_order(a, b) == -lex_order(b, a),
        -1 <= lex_order(a, b) <= 1,
        lex_order(a, b) == 0 <==> a == b,
    decreases a.len(),
{
    if a.len() == 0 && b.len() == 0 {
        assert(a =~= b);
    } else if a.len() > 0 && b.len() > 0 && a[0] == b[0] {
        lemma_lex_order_antisym(a.drop_first(), b.drop_first());
        if a.drop_first() == b.drop_first() {
            assert(a =~= b) by {
                assert forall|i: int| 0 <= i < a.len() implies a[i] == b[i] by {
                    if i > 0 {
                        assert(a[i] == a.drop_first()[i - 1]);
                        assert(b[i] == b.drop_first()[i - 1]);
                    }
                }
            }
        }
        if a == b {
            assert(a.drop_first() == b.drop_first());
        }
    }
}

/// Lexicographic order is transitive.
pub proof fn lemma_lex_order_trans(a: Seq<char>, b: Seq<char>, c: Seq<char>)
    requires
        lex_order(a, b) < 0,
        lex_order(b, c) < 0,
    ensures
        lex_order(a, c) < 0,
    decreases a.len(),
{
    if a.len() > 0 && b.len() > 0 && c.len() > 0 && a[0] == b[0] && b[0] == c[0] {
        lemma_lex_order_trans(a.drop_first(), b.drop_first(), c.drop_first());
    }
}

/// Compares two character vectors lexicographically.
pub fn compare_chars(a: &Vec<char>, b: &Vec<char>) -> (r: i8)
    ensures
        r == lex_order(a@, b@),
{
    let mut k: usize = 0;
    proof {
        assert(a@.skip(0) == a@);
        assert(b@.skip(0) == b@);
    }
    while k < a.len() && k < b.len()
        invariant
            k <= a.len(),
            k <= b.len(),
            lex_order(a@, b@) == lex_order(a@.skip(k as int), b@.skip(k as int)),
        decreases a.len() - k,
    {
        let ca = a[k];
        let cb = b[k];
        if ca < cb {
            return -1;
        }
        if ca > cb {
            return 1;
        }
        assert(a@.skip(k as int).drop_first() == a@.skip(k + 1));
        assert(b@.skip(k as int).drop_first() == b@.skip(k + 1));
        k += 1;
    }
    if k == a.len() && k == b.len() {
        0
    } else if k == a.len() {
        -1
    } else {
        1
    }
}


/// Whether two string slices hold the same characters.
pub fn str_equals(a: &str, b: &str) -> (r: bool)
    ensures
        r == (a@ == b@),
{
    let va = chars_of(a);
    let vb = chars_of(b);
    chars_equal(&va, &vb)
}

/// Whether two character vectors are equal.
pub fn chars_equal(a: &Vec<char>, b: &Vec<char>) -> (r: bool)
    ensures
        r == (a@ == b@),
{
    if a.len() != b.len() {
        return false;
    }
    let mut k: usize = 0;
    while k < a.len()
        invariant
            a.len() == b.len(),
            k <= a.len(),
            forall|j: int| 0 <= j < k ==> a@[j] == b@[j],
        decreases a.len() - k,
    {
        if a[k] != b[k] {
            return false;
        }
        k += 1;
    }
    assert(a@ =~= b@);
    true
}

/// The position of the first occurrence of `c` in `s`, if any.
pub open spec fn first_char_index(s: Seq<char>, c: char) -> Option<int>
    decreases s.len(),
{
    if s.len() == 0 {
        None
    } else if s[0] == c {
        Some(0)
    } else {
        match first_char_index(s.drop_first(), c) {
            Some(i) => Some(i + 1),
            None => None,
        }
    }
}

pub proof fn lemma_first_char_index(s: Seq<char>, c: char)
    ensures
        match first_char_index(s, c) {
            Some(i) => 0 <= i < s.len() && s[i] == c && forall|j: int| 0 <= j < i ==> s[j] != c,
            None => forall|j: int| 0 <= j < s.len() ==> s[j] != c,
        },
    decreases s.len(),
{
    if s.len() > 0 {
        lemma_first_char_index(s.drop_first(), c);
        if s[0] != c {
            assert forall|j: int| 0 < j < s.len() implies s[j] == s.drop_first()[j - 1] by {}
        }
    }
}

/// Finds the first occurrence of `c` in `v`.
pub fn find_char(v: &Vec<char>, c: char) -> (r: Option<usize>)
    ensures
        r matches Some(i) ==> first_char_index(v@, c) == Some(i as int),
        r is None ==> first_char_index(v@, c) is None,
{
    let mut k: usize = 0;
    while k < v.len()
        invariant
            k <= v.len(),
            forall|j: int| 0 <= j < k ==> v@[j] != c,
        decreases v.len() - k,
    {
        if v[k] == c {
            proof {
                lemma_first_char_index(v@, c);
                let f = first_char_index(v@, c);
                if f is None {
                    assert(v@[k as int] == c);
                } else if f.unwrap() < k {
                } else if f.unwrap() > k {
                }
            }
            return Some(k);
        }
        k += 1;
    }
    proof {
        lemma_first_char_index(v@, c);
        if first_char_index(v@, c) is Some {
            let i = first_char_index(v@, c).unwrap();
            assert(v@[i] == c);
        }
    }
    None
}

/// The position of the last occurrence of `c` in `s`, if any.
pub open spec fn last_char_index(s: Seq<char>, c: char) -> Option<int>
    decreases s.len(),
{
    if s.len() == 0 {
        None
    } else if s.last() == c {
        Some(s.len() - 1)
    } else {
        last_char_index(s.drop_last(), c)
    }
}

pub proof fn lemma_last_char_index(s: Seq<char>, c: char)
    ensures
        match last_char_index(s, c) {
            Some(i) => 0 <= i < s.len() && s[i] == c && forall|j: int| i < j < s.len() ==> s[j] != c,
            None => forall|j: int| 0 <= j < s.len() ==> s[j] != c,
        },
    decreases s.len(),
{
    if s.len() > 0 {
        lemma_last_char_index(s.drop_last(), c);
        assert forall|j: int| 0 <= j < s.len() - 1 implies s.drop_last()[j] == s[j] by {}
    }
}

/// Finds the last occurrence of `c` in `v`.
pub fn rfind_char(v: &Vec<char>, c: char) -> (r: Option<usize>)
    ensures
        r matches Some(i) ==> last_char_index(v@, c) == Some(i as int),
        r is None ==> last_char_index(v@, c) is None,
{
    let mut k: usize = v.len();
    while k > 0
        invariant
            k <= v.len(),
            forall|j: int| k <= j < v.len() ==> v@[j] != c,
        decreases k,
    {
        if v[k - 1] == c {
            proof {
                lemma_last_char_index(v@, c);
                let f = last_char_index(v@, c);
                if f is None {
                    assert(v@[k - 1] == c);
                } else if f.unwrap() < k - 1 {
                } else if f.unwrap() > k - 1 {
                }
            }
            return Some(k - 1);
        }
        k -= 1;
    }
    proof {
        lemma_last_char_index(v@, c);
        if last_char_index(v@, c) is Some {
            let i = last_char_index(v@, c).unwrap();
            assert(v@[i] == c);
        }
    }
    None
}

/// `s` begins with `p`.
pub open spec fn starts_with(s: Seq<char>, p: Seq<char>) -> bool {
    p.len() <= s.len() && s.take(p.len() as int) == p
}

/// `s` ends with `p`.
pub open spec fn ends_with(s: Seq<char>, p: Seq<char>) -> bool {
    p.len() <= s.len() && s.skip(s.len() - p.len()) == p
}

/// Whether `v` begins with the characters of `p`.
pub fn chars_start_with(v: &Vec<char>, p: &str) -> (b: bool)
    ensures
        b == starts_with(v@, p@),
{
    let pv = chars_of(p);
    if pv.len() > v.len() {
        return false;
    }
    let mut k: usize = 0;
    while k < pv.len()
        invariant
            pv@ == p@,
            pv.len() <= v.len(),
            k <= pv.len(),
            forall|j: int| 0 <= j < k ==> v@[j] == pv@[j],
        decreases pv.len() - k,
    {
        if v[k] != pv[k] {
            assert(v@.take(pv.len() as int)[k as int] != pv@[k as int]);
            return false;
        }
        k += 1;
    }
    assert(v@.take(pv.len() as int) =~= pv@);
    true
}

/// Whether `v` ends with the characters of `p`.
pub fn chars_end_with(v: &Vec<char>, p: &str) -> (b: bool)
    ensures
        b == ends_with(v@, p@),
{
    let pv = chars_of(p);
    if pv.len() > v.len() {
        return false;
    }
    let off = v.len() - pv.len();
    let mut k: usize = 0;
    while k < pv.len()
        invariant
            pv@ == p@,
            off + pv.len() == v.len(),
            k <= pv.len(),
            forall|j: int| 0 <= j < k ==> v@[off + j] == pv@[j],
        decreases pv.len() - k,
    {
        if v[off + k] != pv[k] {
            assert(v@.skip(off as int)[k as int] != pv@[k as int]);
            return false;
        }
        k += 1;
    }
    assert(v@.skip(off as int) =~= pv@);
    true
}

/// Whether a string slice begins with `p`.
pub fn str_starts_with(s: &str, p: &str) -> (b: bool)
    ensures
        b == starts_with(s@, p@),
{
    let v = chars_of(s);
    chars_start_with(&v, p)
}

/// Whether a string slice ends with `p`.
pub fn str_ends_with(s: &str, p: &str) -> (b: bool)
    ensures
        b == ends_with(s@, p@),
{
    let v = chars_of(s);
    chars_end_with(&v, p)
}

/// Unicode white space as `char::is_whitespace` classifies it.
pub open spec fn is_white(c: char) -> bool {
    ||| c == ' ' || c == '\t' || c == '\n' || c == '\x0B' || c == '\x0C' || c == '\r'
    ||| c == '\u{85}' || c == '\u{A0}' || c == '\u{1680}'
    ||| ('\u{2000}' <= c && c <= '\u{200A}')
    ||| c == '\u{2028}' || c == '\u{2029}' || c == '\u{202F}' || c == '\u{205F}' || c == '\u{3000}'
}

pub fn is_whitespace(c: char) -> (b: bool)
    ensures
        b == is_white(c),
{
    c == ' ' || c == '\t' || c == '\n' || c == '\x0B' || c == '\x0C' || c == '\r'
        || c == '\u{85}' || c == '\u{A0}' || c == '\u{1680}'
        || ('\u{2000}' <= c && c <= '\u{200A}')
        || c == '\u{2028}' || c == '\u{2029}' || c == '\u{202F}' || c == '\u{205F}' || c == '\u{3000}'
}

/// `s` without its leading white space.
pub open spec fn trim_start(s: Seq<char>) -> Seq<char>
    decreases s.len(),
{
    if s.len() > 0 && is_white(s[0]) { trim_start(s.drop_first()) } else { s }
}

/// `s` without its trailing white space.
pub open spec fn trim_end(s: Seq<char>) -> Seq<char>
    decreases s.len(),
{
    if s.len() > 0 && is_white(s.last()) { trim_end(s.drop_last()) } else { s }
}

/// `s` without leading and trailing white space (`str::trim`).
pub open spec fn trim(s: Seq<char>) -> Seq<char> {
    trim_end(trim_start(s))
}

/// The number of leading white-space characters of `s`.
pub open spec fn leading_white(s: Seq<char>) -> nat
    decreases s.len(),
{
    if s.len() > 0 && is_white(s[0]) { 1 + leading_white(s.drop_first()) } else { 0 }
}

/// The number of trailing white-space characters of `s`.
pub open spec fn trailing_white(s: Seq<char>) -> nat
    decreases s.len(),
{
    if s.len() > 0 && is_white(s.last()) { 1 + trailing_white(s.drop_last()) } else { 0 }
}

pub proof fn lemma_trim_start(s: Seq<char>)
    ensures
        leading_white(s) <= s.len(),
        trim_start(s) == s.skip(leading_white(s) as int),
        forall|j: int| 0 <= j < leading_white(s) ==> is_white(#[trigger] s[j]),
        leading_white(s) < s.len() ==> !is_white(s[leading_white(s) as int]),
    decreases s.len(),
{
    if s.len() > 0 && is_white(s[0]) {
        lemma_trim_start(s.drop_first());
        assert(s.drop_first().skip(leading_white(s.drop_first()) as int) =~= s.skip(leading_white(s) as int));
        assert forall|j: int| 0 <= j < leading_white(s) implies is_white(#[trigger] s[j]) by {
            if j > 0 {
                assert(s[j] == s.drop_first()[j - 1]);
            }
        }
    } else {
        assert(s.skip(0) =~= s);
    }
}

pub proof fn lemma_trim_end(s: Seq<char>)
    ensures
        trailing_white(s) <= s.len(),
        trim_end(s) == s.take(s.len() - trailing_white(s)),
        forall|j: int| s.len() - trailing_white(s) <= j < s.len() ==> is_white(#[trigger] s[j]),
        trailing_white(s) < s.len() ==> !is_white(s[s.len() - trailing_white(s) - 1]),
    decreases s.len(),
{
    if s.len() > 0 && is_white(s.last()) {
        lemma_trim_end(s.drop_last());
        assert(s.drop_last().take(s.drop_last().len() - trailing_white(s.drop_last())) =~= s.take(
            s.len() - trailing_white(s),
        ));
        assert forall|j: int| s.len() - trailing_white(s) <= j < s.len() implies is_white(#[trigger] s[j]) by {
            if j < s.len() - 1 {
                assert(s[j] == s.drop_last()[j]);
            }
        }
    } else {
        assert(s.take(s.len() as int) =~= s);
    }
}

/// The characters of `v` without leading white space.
pub fn trim_start_chars(v: &Vec<char>) -> (out: Vec<char>)
    ensures
        out@ == trim_start(v@),
{
    proof { lemma_trim_start(v@); }
    let mut k: usize = 0;
    while k < v.len() && is_whitespace(v[k])
        invariant
            k <= v.len(),
            k <= leading_white(v@) <= v@.len(),
            leading_white(v@) < v@.len() ==> !is_white(v@[leading_white(v@) as int]),
            forall|j: int| 0 <= j < leading_white(v@) ==> is_white(#[trigger] v@[j]),
        decreases v.len() - k,
    {
        k += 1;
    }
    proof {
        if k < leading_white(v@) {
            assert(is_white(v@[k as int]));
        }
    }
    slice_chars(v, k, v.len())
}

/// The characters of `v` without trailing white space.
pub fn trim_end_chars(v: &Vec<char>) -> (out: Vec<char>)
    ensures
        out@ == trim_end(v@),
{
    proof { lemma_trim_end(v@); }
    let mut k: usize = v.len();
    while k > 0 && is_whitespace(v[k - 1])
        invariant
            k <= v.len(),
            v.len() - k <= trailing_white(v@) <= v@.len(),
            trailing_white(v@) < v@.len() ==> !is_white(v@[v@.len() - trailing_white(v@) - 1]),
            forall|j: int| v@.len() - trailing_white(v@) <= j < v@.len() ==> is_white(#[trigger] v@[j]),
        decreases k,
    {
        k -= 1;
    }
    proof {
        if v.len() - k < trailing_white(v@) {
            assert(is_white(v@[k - 1]));
        }
    }
    slice_chars(v, 0, k)
}

/// The characters of `v` without leading or trailing white space.
pub fn trim_chars(v: &Vec<char>) -> (out: Vec<char>)
    ensures
        out@ == trim(v@),
{
    let a = trim_start_chars(v);
    trim_end_chars(&a)
}

/// The pieces of `s` between occurrences of the separator `c`
/// (`str::split` with a `char` pattern): one more piece than separators.
pub open spec fn split_on(s: Seq<char>, c: char) -> Seq<Seq<char>>
    decreases s.len(),
{
    if s.len() == 0 {
        seq![Seq::<char>::empty()]
    } else {
        let prev = split_on(s.drop_last(), c);
        if s.last() == c {
            prev.push(Seq::<char>::empty())
        } else {
            prev.update(prev.len() - 1, prev.last().push(s.last()))
        }
    }
}

pub proof fn lemma_split_on_nonempty(s: Seq<char>, c: char)
    ensures
        split_on(s, c).len() >= 1,
    decreases s.len(),
{
    if s.len() > 0 {
        lemma_split_on_nonempty(s.drop_last(), c);
    }
}

/// The views of a vector of character vectors.
pub open spec fn views(v: Seq<Vec<char>>) -> Seq<Seq<char>> {
    v.map_values(|x: Vec<char>| x@)
}

/// Splits `v` at every occurrence of `c`.
pub fn split_chars(v: &Vec<char>, c: char) -> (out: Vec<Vec<char>>)
    ensures
        views(out@) == split_on(v@, c),
{
    let mut done: Vec<Vec<char>> = Vec::new();
    let mut cur: Vec<char> = Vec::new();
    let mut k: usize = 0;
    while k < v.len()
        invariant
            k <= v.len(),
            views(done@).push(cur@) == split_on(v@.take(k as int), c),
        decreases v.len() - k,
    {
        proof {
            lemma_split_on_nonempty(v@.take(k as int), c);
            assert(v@.take(k + 1).drop_last() =~= v@.take(k as int));
        }
        if v[k] == c {
            let ghost before = done@;
            let piece = cur;
            done.push(piece);
            cur = Vec::new();
            assert(views(done@) =~= views(before).push(piece@));
        } else {
            cur.push(v[k]);
        }
        proof {
            let t = v@.take(k + 1);
            assert(t.last() == v@[k as int]);
            assert(views(done@).push(cur@) =~= split_on(t, c));
        }
        k += 1;
    }
    let last = cur;
    done.push(last);
    proof {
        assert(v@.take(v.len() as int) =~= v@);
        assert(views(done@) =~= views(done@.drop_last()).push(last@));
    }
    done
}

/// The pieces of `segs` joined with `sep` between consecutive pieces.
pub open spec fn join_with(segs: Seq<Seq<char>>, sep: Seq<char>) -> Seq<char>
    decreases segs.len(),
{
    if segs.len() == 0 {
        Seq::empty()
    } else if segs.len() == 1 {
        segs[0]
    } else {
        join_with(segs.drop_last(), sep) + sep + segs.last()
    }
}

/// Joins the pieces with `sep` between them (`[&str]::join`).
pub fn join_chars(segs: &Vec<Vec<char>>, sep: &str) -> (out: Vec<char>)
    ensures
        out@ == join_with(views(segs@), sep@),
{
    let mut out: Vec<char> = Vec::new();
    let mut i: usize = 0;
    while i < segs.len()
        invariant
            i <= segs.len(),
            out@ == join_with(views(segs@).take(i as int), sep@),
        decreases segs.len() - i,
    {
        proof {
            assert(views(segs@).take(i + 1).drop_last() =~= views(segs@).take(i as int));
        }
        if i > 0 {
            push_str(&mut out, sep);
        }
        push_chars(&mut out, &segs[i]);
        proof {
            let t = views(segs@).take(i + 1);
            assert(t.last() == segs@[i as int]@);
            if i == 0 {
                assert(t.len() == 1);
                assert(out@ =~= t[0]);
            }
        }
        i += 1;
    }
    assert(views(segs@).take(segs.len() as int) =~= views(segs@));
    out
}

/// The first position at which `p` occurs in `s` (`str::find` with a
/// string pattern).
pub open spec fn find_seq(s: Seq<char>, p: Seq<char>) -> Option<int>
    decreases s.len(),
{
    if p.len() > s.len() {
        None
    } else if starts_with(s, p) {
        Some(0)
    } else if s.len() == 0 {
        None
    } else {
        match find_seq(s.drop_first(), p) {
            Some(i) => Some(i + 1),
            None => None,
        }
    }
}

/// `p` occurs in `s` at position `i`.
pub open spec fn occurs_at(s: Seq<char>, p: Seq<char>, i: int) -> bool {
    0 <= i && i + p.len() <= s.len() && s.subrange(i, i + p.len()) == p
}

pub proof fn lemma_find_seq(s: Seq<char>, p: Seq<char>)
    ensures
        match find_seq(s, p) {
            Some(i) => occurs_at(s, p, i) && forall|j: int| 0 <= j < i ==> !occurs_at(s, p, j),
            None => forall|j: int| !occurs_at(s, p, j),
        },
    decreases s.len(),
{
    if p.len() > s.len() {
    } else if starts_with(s, p) {
        assert(s.subrange(0, p.len() as int) =~= s.take(p.len() as int));
    } else if s.len() == 0 {
        assert(p.len() == 0);
        assert(starts_with(s, p)) by { assert(s.take(0) =~= p); }
    } else {
        lemma_find_seq(s.drop_first(), p);
        assert(!occurs_at(s, p, 0)) by {
            if occurs_at(s, p, 0) {
                assert(s.subrange(0, p.len() as int) =~= s.take(p.len() as int));
            }
        }
        assert forall|j: int| 1 <= j implies (occurs_at(s, p, j) <==> occurs_at(s.drop_first(), p, j - 1)) by {
            if 1 <= j && j + p.len() <= s.len() {
                assert(s.subrange(j, j + p.len()) =~= s.drop_first().subrange(j - 1, j - 1 + p.len()));
            }
        }
    }
}

/// Finds the first occurrence of `p` in `v`.
pub fn find_str(v: &Vec<char>, p: &str) -> (r: Option<usize>)
    ensures
        r matches Some(i) ==> find_seq(v@, p@) == Some(i as int),
        r is None ==> find_seq(v@, p@) is None,
{
    let pv = chars_of(p);
    proof { lemma_find_seq(v@, p@); }
    if pv.len() > v.len() {
        return None;
    }
    let last = v.len() - pv.len();
    let mut i: usize = 0;
    while i <= last
        invariant
            pv@ == p@,
            last + pv.len() == v.len(),
            i <= last + 1,
            forall|j: int| 0 <= j < i ==> !occurs_at(v@, p@, j),
        decreases last + 1 - i,
    {
        let mut k: usize = 0;
        let mut same = true;
        while k < pv.len()
            invariant
                pv@ == p@,
                last + pv.len() == v.len(),
                i <= last,
                k <= pv.len(),
                same == forall|m: int| 0 <= m < k ==> v@[i + m] == pv@[m],
            decreases pv.len() - k,
        {
            if v[i + k] != pv[k] {
                same = false;
            }
            k += 1;
        }
        if same {
            assert(v@.subrange(i as int, i + pv.len()) =~= pv@);
            proof {
                lemma_find_seq(v@, p@);
                assert(occurs_at(v@, p@, i as int));
                let f = find_seq(v@, p@);
                if f is None {
                    assert(!occurs_at(v@, p@, i as int));
                } else if f.unwrap() > i {
                    assert(!occurs_at(v@, p@, i as int));
                } else if f.unwrap() < i {
                    assert(occurs_at(v@, p@, f.unwrap()));
                }
            }
            return Some(i);
        }
        assert(!occurs_at(v@, p@, i as int)) by {
            if occurs_at(v@, p@, i as int) {
                let m = choose|m: int| 0 <= m < pv.len() && v@[i + m] != pv@[m];
                assert(v@.subrange(i as int, i + pv.len())[m] == v@[i + m]);
            }
        }
        i += 1;
    }
    proof {
        lemma_find_seq(v@, p@);
        if find_seq(v@, p@) is Some {
            let f = find_seq(v@, p@).unwrap();
            assert(occurs_at(v@, p@, f));
        }
    }
    None
}

/// `s` with every occurrence of `p` replaced by `r`, scanning left to right
/// and never overlapping (`str::replace` with a non-empty pattern).
pub open spec fn replace_all(s: Seq<char>, p: Seq<char>, r: Seq<char>) -> Seq<char>
    decreases s.len(),
{
    if p.len() == 0 || s.len() == 0 {
        s
    } else if starts_with(s, p) {
        r + replace_all(s.skip(p.len() as int), p, r)
    } else {
        seq![s[0]] + replace_all(s.drop_first(), p, r)
    }
}

fn matches_at(v: &Vec<char>, i: usize, p: &Vec<char>) -> (b: bool)
    requires
        i <= v.len(),
    ensures
        b == starts_with(v@.skip(i as int), p@),
{
    if p.len() > v.len() - i {
        return false;
    }
    let mut k: usize = 0;
    while k < p.len()
        invariant
            i + p.len() <= v.len(),
            k <= p.len(),
            forall|m: int| 0 <= m < k ==> v@[i + m] == p@[m],
        decreases p.len() - k,
    {
        if v[i + k] != p[k] {
            assert(v@.skip(i as int).take(p.len() as int)[k as int] != p@[k as int]);
            return false;
        }
        k += 1;
    }
    assert(v@.skip(i as int).take(p.len() as int) =~= p@);
    true
}

/// Replaces every occurrence of `pat` in `v` with `rep`.
pub fn replace_chars(v: &Vec<char>, pat: &str, rep: &str) -> (out: Vec<char>)
    requires
        pat@.len() > 0,
    ensures
        out@ == replace_all(v@, pat@, rep@),
{
    let p = chars_of(pat);
    let r = chars_of(rep);
    let mut out: Vec<char> = Vec::new();
    let mut i: usize = 0;
    assert(v@.skip(0) =~= v@);
    assert(out@ + replace_all(v@, p@, r@) =~= replace_all(v@, p@, r@));
    while i < v.len()
        invariant
            p@ == pat@,
            r@ == rep@,
            p@.len() > 0,
            i <= v.len(),
            out@ + replace_all(v@.skip(i as int), p@, r@) == replace_all(v@, p@, r@),
        decreases v.len() - i,
    {
        let ghost rest = v@.skip(i as int);
        let ghost before = out@;
        if matches_at(v, i, &p) {
            push_chars(&mut out, &r);
            proof {
                let tail = replace_all(v@.skip(i + p@.len()), p@, r@);
                assert(rest.skip(p@.len() as int) =~= v@.skip(i + p@.len()));
                assert(replace_all(rest, p@, r@) == r@ + tail);
                assert(out@ + tail =~= before + (r@ + tail));
            }
            i = i + p.len();
        } else {
            out.push(v[i]);
            proof {
                let tail = replace_all(v@.skip(i + 1), p@, r@);
                assert(rest.drop_first() =~= v@.skip(i + 1));
                assert(rest[0] == v@[i as int]);
                assert(replace_all(rest, p@, r@) == seq![v@[i as int]] + tail);
                assert(out@ + tail =~= before + (seq![v@[i as int]] + tail));
            }
            i = i + 1;
        }
    }
    proof {
        assert(v@.skip(v.len() as int).len() == 0);
        assert(out@ + Seq::<char>::empty() =~= out@);
    }
    out
}

/// The decimal digit character for `d` (0 through 9).
pub open spec fn digit_char(d: int) -> char {
    if d == 0 { '0' }
    else if d == 1 { '1' }
    else if d == 2 { '2' }
    else if d == 3 { '3' }
    else if d == 4 { '4' }
    else if d == 5 { '5' }
    else if d == 6 { '6' }
    else if d == 7 { '7' }
    else if d == 8 { '8' }
    else { '9' }
}

/// The value of a decimal digit character, if it is one.
pub open spec fn digit_value(c: char) -> Option<int> {
    if c == '0' { Some(0) }
    else if c == '1' { Some(1) }
    else if c == '2' { Some(2) }
    else if c == '3' { Some(3) }
    else if c == '4' { Some(4) }
    else if c == '5' { Some(5) }
    else if c == '6' { Some(6) }
    else if c == '7' { Some(7) }
    else if c == '8' { Some(8) }
    else if c == '9' { Some(9) }
    else { None }
}

/// Decimal notation of a natural number, without leading zeros
/// (as written by `{}` formatting).
pub open spec fn decimal(n: nat) -> Seq<char>
    decreases n,
{
    if n < 10 {
        seq![digit_char(n as int)]
    } else {
        decimal(n / 10).push(digit_char((n % 10) as int))
    }
}

/// Decimal notation of an integer, with a leading `-` when negative.
pub open spec fn signed_decimal(n: int) -> Seq<char> {
    if n < 0 {
        seq!['-'] + decimal((-n) as nat)
    } else {
        decimal(n as nat)
    }
}

fn digit_char_exec(d: u64) -> (c: char)
    requires
        d < 10,
    ensures
        c == digit_char(d as int),
{
    if d == 0 { '0' }
    else if d == 1 { '1' }
    else if d == 2 { '2' }
    else if d == 3 { '3' }
    else if d == 4 { '4' }
    else if d == 5 { '5' }
    else if d == 6 { '6' }
    else if d == 7 { '7' }
    else if d == 8 { '8' }
    else { '9' }
}

/// Decimal characters of `n`.
pub fn decimal_chars(n: u64) -> (v: Vec<char>)
    ensures
        v@ == decimal(n as nat),
    decreases n,
{
    if n < 10 {
        let mut v: Vec<char> = Vec::new();
        v.push(digit_char_exec(n));
        v
    } else {
        let mut v = decimal_chars(n / 10);
        v.push(digit_char_exec(n % 10));
        v
    }
}

/// Decimal notation of an `i64` (`{}` formatting).
pub fn signed_decimal_chars(n: i64) -> (v: Vec<char>)
    ensures
        v@ == signed_decimal(n as int),
{
    if n < 0 {
        let m: u64 = if n == i64::MIN { 9223372036854775808u64 } else { (-n) as u64 };
        let d = decimal_chars(m);
        let mut v: Vec<char> = Vec::new();
        v.push('-');
        let mut k: usize = 0;
        while k < d.len()
            invariant
                k <= d.len(),
                v@ == seq!['-'] + d@.take(k as int),
            decreases d.len() - k,
        {
            v.push(d[k]);
            k += 1;
        }
        assert(d@.take(d.len() as int) == d@);
        v
    } else {
        decimal_chars(n as u64)
    }
}

/// Appends the characters of `s` to `v`.
pub fn push_str(v: &mut Vec<char>, s: &str)
    ensures
        final(v)@ == old(v)@ + s@,
{
    let c = chars_of(s);
    push_chars(v, &c);
}

/// Appends the characters of `c` to `v`.
pub fn push_chars(v: &mut Vec<char>, c: &Vec<char>)
    ensures
        final(v)@ == old(v)@ + c@,
{
    let ghost start = v@;
    let mut k: usize = 0;
    while k < c.len()
        invariant
            k <= c.len(),
            v@ == start + c@.take(k as int),
        decreases c.len() - k,
    {
        v.push(c[k]);
        k += 1;
    }
    assert(c@.take(c.len() as int) == c@);
}

/// The value of a non-empty run of decimal digits, or `None` if some
/// character is not a digit or the run is empty.
pub open spec fn digits_value(s: Seq<char>) -> Option<nat>
    decreases s.len(),
{
    if s.len() == 0 {
        None
    } else {
        match digit_value(s.last()) {
            None => None,
            Some(d) => if s.len() == 1 {
                Some(d as nat)
            } else {
                match digits_value(s.drop_last()) {
                    Some(v) => Some((v * 10 + d) as nat),
                    None => None,
                }
            },
        }
    }
}

/// Whether the text starts with a `+` or `-` sign.
pub open spec fn has_sign(s: Seq<char>) -> bool {
    s.len() > 0 && (s[0] == '+' || s[0] == '-')
}

/// The text after an optional leading sign.
pub open spec fn unsigned_part(s: Seq<char>) -> Seq<char> {
    if has_sign(s) { s.drop_first() } else { s }
}

/// What `str::parse::<i64>` yields: an optional `+` or `-` sign followed
/// by one or more ASCII digits whose value fits in `i64`.
pub open spec fn spec_parse_i64(s: Seq<char>) -> Option<int> {
    match digits_value(unsigned_part(s)) {
        None => None,
        Some(v) => {
            let x: int = if has_sign(s) && s[0] == '-' { -(v as int) } else { v as int };
            if i64::MIN <= x <= i64::MAX { Some(x) } else { None }
        },
    }
}

proof fn lemma_digits_value_grows(s: Seq<char>, k: int)
    requires
        1 <= k <= s.len(),
        digits_value(s) is Some,
    ensures
        digits_value(s.take(k)) is Some,
        digits_value(s.take(k)).unwrap() <= digits_value(s).unwrap(),
    decreases s.len(),
{
    if k < s.len() {
        assert(s.drop_last().take(k) == s.take(k));
        lemma_digits_value_grows(s.drop_last(), k);
    } else {
        assert(s.take(k) == s);
    }
}

fn digit_value_exec(c: char) -> (r: Option<u8>)
    ensures
        match digit_value(c) {
            Some(d) => r == Some(d as u8),
            None => r is None,
        },
{
    if c == '0' { Some(0) }
    else if c == '1' { Some(1) }
    else if c == '2' { Some(2) }
    else if c == '3' { Some(3) }
    else if c == '4' { Some(4) }
    else if c == '5' { Some(5) }
    else if c == '6' { Some(6) }
    else if c == '7' { Some(7) }
    else if c == '8' { Some(8) }
    else if c == '9' { Some(9) }
    else { None }
}

proof fn lemma_digits_take_step(b: Seq<char>, j: int)
    requires
        0 <= j < b.len(),
    ensures
        digits_value(b.take(j + 1)) == (match digit_value(b[j]) {
            None => None,
            Some(d) => if j == 0 {
                Some(d as nat)
            } else {
                match digits_value(b.take(j)) {
                    Some(v) => Some((v * 10 + d) as nat),
                    None => None,
                }
            },
        }),
{
    assert(b.take(j + 1).drop_last() == b.take(j));
    assert(b.take(j + 1).last() == b[j]);
}

/// The value of a run of decimal digits when it is at most 2^63.
fn parse_digits(b: &Vec<char>) -> (r: Option<u64>)
    ensures
        match digits_value(b@) {
            Some(v) => if v <= 9223372036854775808 { r == Some(v as u64) } else { r is None },
            None => r is None,
        },
{
    if b.len() == 0 {
        return None;
    }
    let limit: u64 = 9223372036854775808u64;
    let mut acc: u64 = 0;
    let mut k: usize = 0;
    while k < b.len()
        invariant
            k <= b.len(),
            b.len() > 0,
            limit == 9223372036854775808u64,
            acc <= limit,
            k > 0 ==> digits_value(b@.take(k as int)) == Some(acc as nat),
            k == 0 ==> acc == 0,
        decreases b.len() - k,
    {
        proof {
            lemma_digits_take_step(b@, k as int);
        }
        match digit_value_exec(b[k]) {
            None => {
                proof {
                    if digits_value(b@) is Some {
                        lemma_digits_value_grows(b@, k + 1);
                    }
                }
                return None;
            },
            Some(dv) => {
                let next: u128 = (acc as u128) * 10 + (dv as u128);
                proof {
                    assert(digit_value(b@[k as int]) == Some(dv as int));
                    assert(digits_value(b@.take(k + 1)) == Some(next as nat));
                }
                if next > limit as u128 {
                    proof {
                        if digits_value(b@) is Some {
                            lemma_digits_value_grows(b@, k + 1);
                            let v = digits_value(b@).unwrap();
                            assert(v >= next);
                            assert(v > 9223372036854775808);
                        }
                    }
                    return None;
                }
                acc = next as u64;
                k += 1;
            },
        }
    }
    assert(b@.take(b.len() as int) == b@);
    Some(acc)
}

/// `str::parse::<i64>`: `Some` exactly when the text is a signed decimal
/// integer in range.
pub fn parse_i64(text: &str) -> (r: Option<i64>)
    ensures
        match spec_parse_i64(text@) {
            Some(x) => r == Some(x as i64),
            None => r is None,
        },
{
    let s = chars_of(text);
    let signed = s.len() > 0 && (s[0] == '+' || s[0] == '-');
    let start: usize = if signed { 1 } else { 0 };
    let neg = signed && s[0] == '-';
    let body = slice_chars(&s, start, s.len());
    assert(body@ == unsigned_part(s@));
    let limit: u64 = 9223372036854775808u64;
    match parse_digits(&body) {
        None => None,
        Some(v) => {
            if neg {
                if v == limit {
                    Some(i64::MIN)
                } else {
                    Some(-(v as i64))
                }
            } else if v == limit {
                None
            } else {
                Some(v as i64)
            }
        },
    }
}

/// ASCII digit.
pub open spec fn is_digit(c: char) -> bool {
    '0' <= c && c <= '9'
}

/// Mantissa of a float literal: digits with at most one `.`, and at least one digit.
pub open spec fn is_mantissa(m: Seq<char>) -> bool {
    &&& forall|i: int| 0 <= i < m.len() ==> is_digit(#[trigger] m[i]) || m[i] == '.'
    &&& forall|i: int, j: int| 0 <= i < j < m.len() ==> !(#[trigger] m[i] == '.' && #[trigger] m[j] == '.')
    &&& exists|i: int| 0 <= i < m.len() && is_digit(#[trigger] m[i])
}

/// What `str::parse::<f64>` accepts, as its documentation gives the grammar
/// (matched after lower-casing): an optional sign, then `inf`, `infinity`,
/// `nan`, or a mantissa with an optional exponent `e[+-]digits`.
pub open spec fn is_float_text(s: Seq<char>) -> bool {
    let t = unsigned_part(s).map_values(|c: char| ascii_lower(c));
    ||| t == seq!['i', 'n', 'f']
    ||| t == seq!['i', 'n', 'f', 'i', 'n', 'i', 't', 'y']
    ||| t == seq!['n', 'a', 'n']
    ||| match first_char_index(t, 'e') {
        None => is_mantissa(t),
        Some(e) => is_mantissa(t.take(e)) && digits_value(unsigned_part(t.skip(e + 1))) is Some,
    }
}

fn lowercase_chars(v: &Vec<char>) -> (out: Vec<char>)
    ensures
        out@ == v@.map_values(|c: char| ascii_lower(c)),
{
    let mut out: Vec<char> = Vec::new();
    let mut k: usize = 0;
    while k < v.len()
        invariant
            k <= v.len(),
            out@ == v@.take(k as int).map_values(|c: char| ascii_lower(c)),
        decreases v.len() - k,
    {
        out.push(to_ascii_lowercase(v[k]));
        assert(v@.take(k + 1).map_values(|c: char| ascii_lower(c))
            == v@.take(k as int).map_values(|c: char| ascii_lower(c)).push(ascii_lower(v@[k as int])));
        k += 1;
    }
    assert(v@.take(v.len() as int) == v@);
    out
}

fn check_mantissa(m: &Vec<char>) -> (r: bool)
    ensures
        r == is_mantissa(m@),
{
    let mut dots: usize = 0;
    let mut digits = false;
    let mut k: usize = 0;
    while k < m.len()
        invariant
            k <= m.len(),
            dots <= 1,
            forall|i: int| 0 <= i < k ==> is_digit(#[trigger] m@[i]) || m@[i] == '.',
            forall|i: int, j: int| 0 <= i < j < k ==> !(#[trigger] m@[i] == '.' && #[trigger] m@[j] == '.'),
            dots == 0 ==> forall|i: int| 0 <= i < k ==> m@[i] != '.',
            dots == 1 ==> exists|i: int| 0 <= i < k && m@[i] == '.',
            digits == exists|i: int| 0 <= i < k && is_digit(#[trigger] m@[i]),
        decreases m.len() - k,
    {
        let c = m[k];
        if c == '.' {
            if dots == 1 {
                proof {
                    let i = choose|i: int| 0 <= i < k && m@[i] == '.';
                    assert(m@[i] == '.' && m@[k as int] == '.');
                }
                return false;
            }
            dots = 1;
        } else if !('0' <= c && c <= '9') {
            assert(!(is_digit(m@[k as int]) || m@[k as int] == '.'));
            return false;
        } else {
            digits = true;
        }
        k += 1;
    }
    digits
}

/// Whether `str::parse::<f64>` accepts the text.
pub fn is_float_literal(text: &str) -> (r: bool)
    ensures
        r == is_float_text(text@),
{
    let s = chars_of(text);
    let signed = s.len() > 0 && (s[0] == '+' || s[0] == '-');
    let start: usize = if signed { 1 } else { 0 };
    let body = slice_chars(&s, start, s.len());
    assert(body@ == unsigned_part(s@));
    let t = lowercase_chars(&body);
    let inf = chars_of("inf");
    let infinity = chars_of("infinity");
    let nan = chars_of("nan");
    proof {
        reveal_strlit("inf");
        reveal_strlit("infinity");
        reveal_strlit("nan");
        assert(inf@ =~= seq!['i', 'n', 'f']);
        assert(infinity@ =~= seq!['i', 'n', 'f', 'i', 'n', 'i', 't', 'y']);
        assert(nan@ =~= seq!['n', 'a', 'n']);
        lemma_first_char_index(t@, 'e');
    }
    if chars_equal(&t, &inf) || chars_equal(&t, &infinity) || chars_equal(&t, &nan) {
        return true;
    }
    match find_char(&t, 'e') {
        None => check_mantissa(&t),
        Some(e) => {
            let m = slice_chars(&t, 0, e);
            let x = slice_chars(&t, e + 1, t.len());
            assert(m@ == t@.take(e as int));
            assert(x@ == t@.skip(e + 1));
            if !check_mantissa(&m) {
                return false;
            }
            let xs = x.len() > 0 && (x[0] == '+' || x[0] == '-');
            let xstart: usize = if xs { 1 } else { 0 };
            let xd = slice_chars(&x, xstart, x.len());
            assert(xd@ == unsigned_part(x@));
            let parsed = parse_digits(&xd);
            proof {
                if digits_value(xd@) is Some && digits_value(xd@).unwrap() > 9223372036854775808 {
                    assert(parsed is None);
                }
            }
            parsed.is_some() || digits_only(&xd)
        },
    }
}

/// A non-empty run of ASCII digits.
fn digits_only(v: &Vec<char>) -> (r: bool)
    ensures
        r == (digits_value(v@) is Some),
{
    if v.len() == 0 {
        return false;
    }
    let mut k: usize = 0;
    while k < v.len()
        invariant
            0 < v.len(),
            k <= v.len(),
            k > 0 ==> digits_value(v@.take(k as int)) is Some,
        decreases v.len() - k,
    {
        proof {
            lemma_digits_take_step(v@, k as int);
        }
        if !('0' <= v[k] && v[k] <= '9') {
            proof {
                assert(digit_value(v@[k as int]) is None);
                if digits_value(v@) is Some {
                    lemma_digits_value_grows(v@, k + 1);
                }
            }
            return false;
        }
        assert(digit_value(v@[k as int]) is Some);
        k += 1;
    }
    assert(v@.take(v.len() as int) == v@);
    true
}

} // verus!
