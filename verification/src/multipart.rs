//! Reading the boundary of a multipart upload out of its content type.

use vstd::prelude::*;

verus! {

broadcast use vstd::string::group_string_axioms;

/// Whether a character is white space: one of the 25 code points that the
/// Unicode Character Database lists with the property White_Space.
pub open spec fn is_white_space(c: char) -> bool {
    let code = c as u32;
    (0x0009 <= code <= 0x000d) || code == 0x0020 || code == 0x0085 || code == 0x00a0 || code
        == 0x1680 || (0x2000 <= code <= 0x200a) || code == 0x2028 || code == 0x2029 || code
        == 0x202f || code == 0x205f || code == 0x3000
}

/// `char::is_whitespace`: std documents that it answers whether the
/// character has the Unicode property White_Space, which is the list that
/// `is_white_space` spells out.
#[verifier::external_body]
fn is_whitespace(c: char) -> (r: bool)
    ensures
        r == is_white_space(c),
{
    c.is_whitespace()
}

/// The pattern stands in the text at index `i`.
pub open spec fn occurs_at(text: Seq<char>, pattern: Seq<char>, i: int) -> bool {
    0 <= i && i + pattern.len() <= text.len() && text.subrange(i, i + pattern.len()) == pattern
}

/// The first index from `from` on at which the pattern stands in the text,
/// or -1 where it stands at none.
pub open spec fn first_occurrence(text: Seq<char>, pattern: Seq<char>, from: int) -> int
    decreases text.len() - from,
{
    if from < 0 || from + pattern.len() > text.len() {
        -1
    } else if occurs_at(text, pattern, from) {
        from
    } else if from + pattern.len() == text.len() {
        -1
    } else {
        first_occurrence(text, pattern, from + 1)
    }
}

/// The first index in `[from, to)` whose character is not white space, or `to`.
pub open spec fn content_start(text: Seq<char>, from: int, to: int) -> int
    decreases to - from,
{
    if from >= to {
        to
    } else if !is_white_space(text[from]) {
        from
    } else {
        content_start(text, from + 1, to)
    }
}

/// The index after the last character in `[from, to)` that is not white
/// space, or `from`.
pub open spec fn content_end(text: Seq<char>, from: int, to: int) -> int
    decreases to - from,
{
    if from >= to {
        from
    } else if !is_white_space(text[to - 1]) {
        to
    } else {
        content_end(text, from, to - 1)
    }
}

/// The part `[from, to)` of the text without the white space at its ends.
pub open spec fn trimmed_part(text: Seq<char>, from: int, to: int) -> Seq<char> {
    let start = content_start(text, from, to);
    text.subrange(start, content_end(text, start, to))
}

/// What introduces the boundary in a content type.
pub open spec fn boundary_key() -> Seq<char> {
    "boundary="@
}

/// The boundary that a content type names: what follows the first
/// `boundary=`, up to the next one if there is one, without the white space
/// at its ends. `None` where the content type holds no `boundary=`.
pub open spec fn boundary_of(content_type: Seq<char>) -> Option<Seq<char>> {
    let key_at = first_occurrence(content_type, boundary_key(), 0);
    if key_at < 0 {
        None
    } else {
        let from = key_at + boundary_key().len();
        let next_key_at = first_occurrence(content_type, boundary_key(), from);
        let to = if next_key_at < 0 {
            content_type.len() as int
        } else {
            next_key_at
        };
        Some(trimmed_part(content_type, from, to))
    }
}

/// `first_occurrence` finds an index at which the pattern stands, with none
/// before it from `from` on, or -1 exactly where there is no such index.
pub proof fn lemma_first_occurrence(text: Seq<char>, pattern: Seq<char>, from: int)
    requires
        0 <= from,
    ensures
        first_occurrence(text, pattern, from) == -1 ==> forall|k: int|
            from <= k ==> !occurs_at(text, pattern, k),
        first_occurrence(text, pattern, from) != -1 ==> {
            let i = first_occurrence(text, pattern, from);
            &&& from <= i
            &&& occurs_at(text, pattern, i)
            &&& forall|k: int| from <= k < i ==> !occurs_at(text, pattern, k)
        },
    decreases text.len() - from,
{
    if from + pattern.len() > text.len() {
    } else if occurs_at(text, pattern, from) {
    } else if from + pattern.len() == text.len() {
    } else {
        lemma_first_occurrence(text, pattern, from + 1);
    }
}

/// The characters of a text, one by one.
pub fn chars_of(text: &str) -> (chars: Vec<char>)
    ensures
        chars@ == text@,
{
    let mut chars: Vec<char> = Vec::new();
    for c in it: text.chars()
        invariant
            it.seq() == text@,
            chars@ == text@.take(it.index() as int),
    {
        chars.push(c);
        proof {
            assert(text@.take(it.index() + 1) =~= text@.take(it.index() as int).push(c));
        }
    }
    proof {
        assert(text@.take(text@.len() as int) =~= text@);
    }
    chars
}

/// Decides whether the pattern stands in the text at index `i`.
pub fn matches_at(text: &Vec<char>, pattern: &Vec<char>, i: usize) -> (found: bool)
    requires
        i + pattern.len() <= text.len(),
    ensures
        found == occurs_at(text@, pattern@, i as int),
{
    let mut k: usize = 0;
    while k < pattern.len()
        invariant
            k <= pattern.len(),
            i + pattern.len() <= text.len(),
            forall|m: int| 0 <= m < k ==> text@[i + m] == pattern@[m],
        decreases pattern.len() - k,
    {
        if text[i + k] != pattern[k] {
            proof {
                assert(text@.subrange(i as int, i + pattern.len())[k as int] == text@[i + k]);
            }
            return false;
        }
        k = k + 1;
    }
    proof {
        assert(text@.subrange(i as int, i + pattern.len()) =~= pattern@);
    }
    true
}

/// Finds the first index from `from` on at which the pattern stands in the
/// text.
pub fn find_from(text: &Vec<char>, pattern: &Vec<char>, from: usize) -> (found: Option<usize>)
    ensures
        match found {
            Some(i) => first_occurrence(text@, pattern@, from as int) == i && from <= i && i
                + pattern.len() <= text.len(),
            None => first_occurrence(text@, pattern@, from as int) == -1,
        },
{
    if pattern.len() > text.len() {
        return None;
    }
    let last: usize = text.len() - pattern.len();
    let mut i: usize = from;
    while i <= last
        invariant
            from <= i,
            last == text.len() - pattern.len(),
            first_occurrence(text@, pattern@, from as int) == first_occurrence(
                text@,
                pattern@,
                i as int,
            ),
        decreases last + 1 - i,
    {
        if matches_at(text, pattern, i) {
            return Some(i);
        }
        if i == last {
            return None;
        }
        i = i + 1;
    }
    None
}

/// Copies the part `[from, to)` of the text without the white space at its
/// ends.
pub fn trim_part(text: &Vec<char>, from: usize, to: usize) -> (part: String)
    requires
        from <= to <= text.len(),
    ensures
        part@ == trimmed_part(text@, from as int, to as int),
{
    let mut start: usize = from;
    while start < to && is_whitespace(text[start])
        invariant
            from <= start <= to <= text.len(),
            content_start(text@, from as int, to as int) == content_start(
                text@,
                start as int,
                to as int,
            ),
        decreases to - start,
    {
        start = start + 1;
    }
    let mut end: usize = to;
    while start < end && is_whitespace(text[end - 1])
        invariant
            start <= end <= to <= text.len(),
            content_end(text@, start as int, to as int) == content_end(
                text@,
                start as int,
                end as int,
            ),
        decreases end - start,
    {
        end = end - 1;
    }
    let mut part: String = String::new();
    let mut k: usize = start;
    while k < end
        invariant
            start <= k <= end <= text.len(),
            part@ == text@.subrange(start as int, k as int),
        decreases end - k,
    {
        part.push(text[k]);
        proof {
            assert(text@.subrange(start as int, k + 1) =~= text@.subrange(
                start as int,
                k as int,
            ).push(text@[k as int]));
        }
        k = k + 1;
    }
    part
}

/// Reads the boundary out of the content type of a multipart upload.
pub fn multipart_boundary(content_type: &str) -> (boundary: Option<String>)
    ensures
        match boundary {
            Some(text) => boundary_of(content_type@) == Some(text@),
            None => boundary_of(content_type@) is None,
        },
{
    let text: Vec<char> = chars_of(content_type);
    let key: Vec<char> = chars_of("boundary=");
    match find_from(&text, &key, 0) {
        None => None,
        Some(key_at) => {
            let from: usize = key_at + key.len();
            let to: usize = match find_from(&text, &key, from) {
                Some(next_key_at) => next_key_at,
                None => text.len(),
            };
            Some(trim_part(&text, from, to))
        },
    }
}

} // verus!
