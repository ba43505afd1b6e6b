//! Text that comes from outside: surrounding white space and substrings.

use vstd::prelude::*;

verus! {

/// Whether a character is white space in the sense of Unicode.
pub open spec fn is_white_space(c: char) -> bool {
    let v = c as u32;
    (9 <= v <= 13) || v == 0x20 || v == 0x85 || v == 0xA0 || v == 0x1680 || (0x2000 <= v <= 0x200A)
        || v == 0x2028 || v == 0x2029 || v == 0x202F || v == 0x205F || v == 0x3000
}

/// Whether a character is white space.
pub fn white_space(c: char) -> (r: bool)
    ensures
        r == is_white_space(c),
{
    let v: u32 = c as u32;
    (9 <= v && v <= 13) || v == 0x20 || v == 0x85 || v == 0xA0 || v == 0x1680 || (0x2000 <= v && v
        <= 0x200A) || v == 0x2028 || v == 0x2029 || v == 0x202F || v == 0x205F || v == 0x3000
}

/// `r` is `s` without the white space around it.
pub open spec fn is_trimmed(s: Seq<char>, r: Seq<char>) -> bool {
    exists|from: int, to: int|
        #![trigger s.subrange(from, to)]
        {
            &&& 0 <= from <= to <= s.len()
            &&& r == s.subrange(from, to)
            &&& forall|i: int| 0 <= i < from ==> is_white_space(#[trigger] s[i])
            &&& forall|i: int| to <= i < s.len() ==> is_white_space(#[trigger] s[i])
            &&& from < to ==> !is_white_space(s[from]) && !is_white_space(s[to - 1])
        }
}

/// Whether there is only white space.
pub open spec fn is_blank(s: Seq<char>) -> bool {
    forall|i: int| 0 <= i < s.len() ==> is_white_space(#[trigger] s[i])
}

/// The capture directory that a setting names: the setting without the white space
/// around it, or none if nothing is left.
///
/// A shell that takes `set VAR=path && app` literally puts the blank before `&&`
/// into the value, which would otherwise end up in the middle of a path.
pub fn capture_dir_from_value(raw: &str) -> (dir: Option<&str>)
    ensures
        match dir {
            Some(d) => !is_blank(raw@) && is_trimmed(raw@, d@),
            None => is_blank(raw@),
        },
{
    let n: usize = raw.unicode_len();
    let mut from: usize = 0;
    while from < n && white_space(raw.get_char(from))
        invariant
            from <= n,
            n == raw@.len(),
            forall|i: int| 0 <= i < from ==> is_white_space(#[trigger] raw@[i]),
        decreases n - from,
    {
        from = from + 1;
    }
    if from == n {
        return None;
    }
    assert(!is_white_space(raw@[from as int]));
    let mut to: usize = n;
    while to > from + 1 && white_space(raw.get_char(to - 1))
        invariant
            from < to <= n,
            n == raw@.len(),
            !is_white_space(raw@[from as int]),
            forall|i: int| to <= i < n ==> is_white_space(#[trigger] raw@[i]),
        decreases to,
    {
        to = to - 1;
    }
    assert(!is_white_space(raw@[to - 1]));
    let dir = raw.substring_char(from, to);
    assert(is_trimmed(raw@, dir@)) by {
        assert(dir@ == raw@.subrange(from as int, to as int));
    }
    Some(dir)
}

/// Trimming has one result: two readings of what is left of a text agree, unless
/// the text is blank, when nothing is left either way.
pub proof fn law_trimming_is_determined(s: Seq<char>, a: Seq<char>, b: Seq<char>)
    requires
        is_trimmed(s, a),
        is_trimmed(s, b),
    ensures
        a == b,
{
    let (f, t) = choose|from: int, to: int|
        #![trigger s.subrange(from, to)]
        {
            &&& 0 <= from <= to <= s.len()
            &&& a == s.subrange(from, to)
            &&& forall|i: int| 0 <= i < from ==> is_white_space(#[trigger] s[i])
            &&& forall|i: int| to <= i < s.len() ==> is_white_space(#[trigger] s[i])
            &&& from < to ==> !is_white_space(s[from]) && !is_white_space(s[to - 1])
        };
    let (g, u) = choose|from: int, to: int|
        #![trigger s.subrange(from, to)]
        {
            &&& 0 <= from <= to <= s.len()
            &&& b == s.subrange(from, to)
            &&& forall|i: int| 0 <= i < from ==> is_white_space(#[trigger] s[i])
            &&& forall|i: int| to <= i < s.len() ==> is_white_space(#[trigger] s[i])
            &&& from < to ==> !is_white_space(s[from]) && !is_white_space(s[to - 1])
        };
    if f < t && g < u {
        assert(f == g && t == u);
    } else if f < t {
        assert(is_white_space(s[f]));
    } else if g < u {
        assert(is_white_space(s[g]));
    } else {
        assert(a =~= b);
    }
}

/// Whether `part` occurs in `s`.
pub open spec fn contains_text(s: Seq<char>, part: Seq<char>) -> bool {
    exists|k: int|
        0 <= k <= s.len() - part.len() && #[trigger] s.subrange(k, k + part.len() as int) == part
}

/// Whether `part` occurs in `s`.
pub fn contains(s: &str, part: &str) -> (r: bool)
    ensures
        r == contains_text(s@, part@),
{
    let n: usize = s.unicode_len();
    let m: usize = part.unicode_len();
    if m > n {
        return false;
    }
    let mut k: usize = 0;
    loop
        invariant
            k <= n - m,
            m <= n,
            n == s@.len(),
            m == part@.len(),
            forall|j: int| 0 <= j < k ==> #[trigger] s@.subrange(j, j + m) != part@,
        decreases n - m - k,
    {
        let mut i: usize = 0;
        while i < m && s.get_char(k + i) == part.get_char(i)
            invariant
                i <= m,
                k + m <= n,
                n == s@.len(),
                m == part@.len(),
                forall|j: int| 0 <= j < i ==> s@[k + j] == part@[j],
            decreases m - i,
        {
            i = i + 1;
        }
        if i == m {
            assert(s@.subrange(k as int, k + m) =~= part@);
            return true;
        }
        assert(s@.subrange(k as int, k + m)[i as int] != part@[i as int]);
        if k == n - m {
            return false;
        }
        k = k + 1;
    }
}

// ─── Lists ───────────────────────────────────────────────────────────────────

/// `i` is the first place of a text in a list.
pub open spec fn is_first_index(texts: Seq<Seq<char>>, text: Seq<char>, i: int) -> bool {
    0 <= i < texts.len() && texts[i] == text && forall|j: int|
        0 <= j < i ==> #[trigger] texts[j] != text
}

/// What white space is, by the numbers of its characters.
pub proof fn law_white_space_by_number(c: char)
    ensures
        is_white_space(c) <==> c == '\t' || c == '\n' || c == '\u{b}' || c == '\u{c}' || c == '\r'
            || c == ' ' || c == '\u{85}' || c == '\u{a0}' || c == '\u{1680}' || ('\u{2000}' <= c
            && c <= '\u{200a}') || c == '\u{2028}' || c == '\u{2029}' || c == '\u{202f}' || c
            == '\u{205f}' || c == '\u{3000}',
{
}

/// A text occurs in whatever has it between two other texts.
pub proof fn law_contained_text_has_two_sides(before: Seq<char>, part: Seq<char>, after: Seq<char>)
    ensures
        contains_text(before + part + after, part),
{
    let s = before + part + after;
    let k = before.len() as int;
    assert(s.subrange(k, k + part.len() as int) =~= part);
}

} // verus!
