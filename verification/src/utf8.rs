//! Offsets in bytes into the UTF-8 form of a text held as characters.
use vstd::prelude::*;

verus! {

/// How many bytes `c` takes in UTF-8.
pub open spec fn utf8_width(c: char) -> nat {
    if c <= '\u{7f}' {
        1
    } else if c <= '\u{7ff}' {
        2
    } else if c <= '\u{ffff}' {
        3
    } else {
        4
    }
}

/// How many bytes `s` takes in UTF-8.
pub open spec fn utf8_len(s: Seq<char>) -> nat
    decreases s.len(),
{
    if s.len() == 0 {
        0
    } else {
        utf8_len(s.drop_last()) + utf8_width(s.last())
    }
}

/// The first index from `k` on at which a character of `s` starts at byte `b` of its UTF-8
/// form (`s.len()` standing for the end of the text); none if there is no such index.
pub open spec fn char_at_byte_from(s: Seq<char>, k: int, b: int) -> Option<nat>
    decreases s.len() + 1 - k,
{
    if k < 0 || k > s.len() {
        None
    } else if utf8_len(s.take(k)) == b {
        Some(k as nat)
    } else if utf8_len(s.take(k)) > b {
        None
    } else {
        char_at_byte_from(s, k + 1, b)
    }
}

/// The index of the character of `s` that starts at byte `b` of its UTF-8 form (`s.len()`
/// for the byte just past the end); none if no character starts there.
pub open spec fn char_at_byte(s: Seq<char>, b: int) -> Option<nat> {
    char_at_byte_from(s, 0, b)
}

/// One more character adds its width to the length in bytes.
pub proof fn lemma_utf8_len_step(s: Seq<char>, k: int)
    requires
        0 <= k < s.len(),
    ensures
        utf8_len(s.take(k + 1)) == utf8_len(s.take(k)) + utf8_width(s[k]),
{
    assert(s.take(k + 1).drop_last() == s.take(k));
}

/// A longer prefix takes more bytes.
pub proof fn lemma_utf8_len_grows(s: Seq<char>, j: int, k: int)
    requires
        0 <= j <= k <= s.len(),
    ensures
        utf8_len(s.take(j)) + (k - j) <= utf8_len(s.take(k)),
    decreases k - j,
{
    if j < k {
        lemma_utf8_len_grows(s, j, k - 1);
        lemma_utf8_len_step(s, k - 1);
    }
}

/// The character that starts at the byte length of the first `k` characters is character
/// `k`.
pub proof fn lemma_char_at_prefix(s: Seq<char>, k: int)
    requires
        0 <= k <= s.len(),
    ensures
        char_at_byte(s, utf8_len(s.take(k)) as int) == Some(k as nat),
{
    lemma_char_at_prefix_from(s, 0, k);
}

/// Scanning from `j` up to `k` finds `k` at the byte length of the first `k` characters.
proof fn lemma_char_at_prefix_from(s: Seq<char>, j: int, k: int)
    requires
        0 <= j <= k <= s.len(),
    ensures
        char_at_byte_from(s, j, utf8_len(s.take(k)) as int) == Some(k as nat),
    decreases k - j,
{
    if j < k {
        lemma_utf8_len_grows(s, j + 1, k);
        lemma_utf8_len_step(s, j);
        lemma_char_at_prefix_from(s, j + 1, k);
    }
}

/// Where a character starts, it starts within or at the end of the text, at the byte length
/// of the characters before it.
pub proof fn lemma_char_at_byte_found(s: Seq<char>, b: int)
    requires
        char_at_byte(s, b) is Some,
    ensures
        ({
            let k = char_at_byte(s, b)->0;
            k <= s.len() && utf8_len(s.take(k as int)) == b
        }),
{
    lemma_char_at_byte_found_from(s, 0, b);
}

/// What [`lemma_char_at_byte_found`] says, scanning from `j`.
proof fn lemma_char_at_byte_found_from(s: Seq<char>, j: int, b: int)
    requires
        char_at_byte_from(s, j, b) is Some,
    ensures
        ({
            let k = char_at_byte_from(s, j, b)->0;
            k <= s.len() && utf8_len(s.take(k as int)) == b
        }),
    decreases s.len() + 1 - j,
{
    if 0 <= j <= s.len() && utf8_len(s.take(j)) < b {
        lemma_char_at_byte_found_from(s, j + 1, b);
    }
}

/// Returns how many bytes `c` takes in UTF-8.
pub fn char_width(c: char) -> (w: usize)
    ensures
        w == utf8_width(c),
        1 <= w <= 4,
{
    if c <= '\u{7f}' {
        1
    } else if c <= '\u{7ff}' {
        2
    } else if c <= '\u{ffff}' {
        3
    } else {
        4
    }
}

/// Returns how many bytes the first `k` characters of `s` take in UTF-8, if that is at most
/// `IndexType::MAX`.
pub fn prefix_bytes(s: &Vec<char>, k: usize) -> (r: Option<usize>)
    requires
        k <= s@.len(),
    ensures
        match r {
            Some(n) => n == utf8_len(s@.take(k as int)) && n <= i32::MAX,
            None => utf8_len(s@.take(k as int)) > i32::MAX,
        },
{
    let mut bytes: usize = 0;
    let mut j: usize = 0;
    while j < k
        invariant
            j <= k <= s@.len(),
            bytes == utf8_len(s@.take(j as int)),
            bytes <= i32::MAX,
        decreases k - j,
    {
        proof {
            lemma_utf8_len_step(s@, j as int);
        }
        let w = char_width(s[j]);
        if bytes + w > i32::MAX as usize {
            proof {
                lemma_utf8_len_grows(s@, j + 1, k as int);
            }
            return None;
        }
        bytes = bytes + w;
        j = j + 1;
    }
    Some(bytes)
}

/// Returns the index of the character of `s` that starts at byte `b` of its UTF-8 form
/// (`s.len()` for the byte just past the end); none if no character starts there.
pub fn char_index_at_byte(s: &Vec<char>, b: usize) -> (r: Option<usize>)
    ensures
        match char_at_byte(s@, b as int) {
            Some(k) => r == Some(k as usize),
            None => r is None,
        },
{
    let mut k: usize = 0;
    let mut bytes: usize = 0;
    assert(s@.take(0) =~= Seq::<char>::empty());
    loop
        invariant
            k <= s@.len(),
            bytes == utf8_len(s@.take(k as int)),
            bytes <= b,
            char_at_byte(s@, b as int) == char_at_byte_from(s@, k as int, b as int),
        decreases s@.len() - k,
    {
        if bytes == b {
            return Some(k);
        }
        if k == s.len() {
            assert(char_at_byte_from(s@, k + 1, b as int) is None);
            return None;
        }
        proof {
            lemma_utf8_len_step(s@, k as int);
        }
        let w = char_width(s[k]);
        if w > b - bytes {
            assert(utf8_len(s@.take(k + 1)) > b);
            assert(char_at_byte_from(s@, k + 1, b as int) is None);
            return None;
        }
        bytes = bytes + w;
        k = k + 1;
    }
}

} // verus!
