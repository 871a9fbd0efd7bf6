//! Characters and pieces of text.

use vstd::prelude::*;

verus! {

/// The characters with the Unicode property `White_Space`.
pub open spec fn is_space(c: char) -> bool {
    let u = c as u32;
    (9 <= u <= 13) || u == 0x20 || u == 0x85 || u == 0xa0 || u == 0x1680 || (0x2000 <= u <= 0x200a)
        || u == 0x2028 || u == 0x2029 || u == 0x202f || u == 0x205f || u == 0x3000
}

/// The ASCII digits.
pub open spec fn is_digit(c: char) -> bool {
    '0' as u32 <= c as u32 <= '9' as u32
}

/// Where the text starts once the white space from `i` on is skipped.
pub open spec fn ink_start(s: Seq<char>, i: nat) -> nat
    decreases s.len() - i,
{
    if i >= s.len() {
        s.len()
    } else if !is_space(s[i as int]) {
        i
    } else {
        ink_start(s, i + 1)
    }
}

/// Where the text ends once the white space before `j` is dropped, but
/// not before `lo`.
pub open spec fn ink_end(s: Seq<char>, j: nat, lo: nat) -> nat
    decreases j,
{
    if j <= lo || j > s.len() {
        lo
    } else if !is_space(s[j - 1]) {
        j
    } else {
        ink_end(s, (j - 1) as nat, lo)
    }
}

/// The text without the white space at its two ends.
pub open spec fn trimmed(s: Seq<char>) -> Seq<char> {
    let a = ink_start(s, 0);
    s.subrange(a as int, ink_end(s, s.len(), a) as int)
}

/// `ink_start` skips white space and nothing else.
pub proof fn lemma_ink_start(s: Seq<char>, i: nat)
    requires
        i <= s.len(),
    ensures
        i <= ink_start(s, i) <= s.len(),
        forall|j: int| i <= j < ink_start(s, i) ==> is_space(#[trigger] s[j]),
        ink_start(s, i) < s.len() ==> !is_space(s[ink_start(s, i) as int]),
    decreases s.len() - i,
{
    if i < s.len() && is_space(s[i as int]) {
        lemma_ink_start(s, i + 1);
    }
}

/// `ink_end` drops white space and nothing else.
pub proof fn lemma_ink_end(s: Seq<char>, j: nat, lo: nat)
    requires
        lo <= j <= s.len(),
    ensures
        lo <= ink_end(s, j, lo) <= j,
        forall|k: int| ink_end(s, j, lo) <= k < j ==> is_space(#[trigger] s[k]),
        ink_end(s, j, lo) > lo ==> !is_space(s[ink_end(s, j, lo) - 1]),
    decreases j,
{
    if j > lo && is_space(s[j - 1]) {
        lemma_ink_end(s, (j - 1) as nat, lo);
    }
}

/// The trimmed text is the text without the white space before its first
/// and behind its last character that is none: what is cut off is white
/// space, and what is left neither starts nor ends with white space.
pub proof fn lemma_trimmed(s: Seq<char>)
    ensures
        ink_start(s, 0) <= ink_end(s, s.len(), ink_start(s, 0)) <= s.len(),
        trimmed(s) == s.subrange(
            ink_start(s, 0) as int,
            ink_end(s, s.len(), ink_start(s, 0)) as int,
        ),
        forall|j: int| 0 <= j < ink_start(s, 0) ==> is_space(#[trigger] s[j]),
        forall|j: int|
            ink_end(s, s.len(), ink_start(s, 0)) <= j < s.len() ==> is_space(#[trigger] s[j]),
        trimmed(s).len() > 0 ==> !is_space(trimmed(s).first()) && !is_space(trimmed(s).last()),
{
    lemma_ink_start(s, 0);
    lemma_ink_end(s, s.len(), ink_start(s, 0));
}

/// The index of the first `c` at or after `i`, or the length.
pub open spec fn first_of(s: Seq<char>, c: char, i: nat) -> nat
    decreases s.len() - i,
{
    if i >= s.len() {
        s.len()
    } else if s[i as int] == c {
        i
    } else {
        first_of(s, c, i + 1)
    }
}

/// Whether the character is white space.
pub fn is_space_char(c: char) -> (r: bool)
    ensures
        r == is_space(c),
{
    let u: u32 = c as u32;
    (9 <= u && u <= 13) || u == 0x20 || u == 0x85 || u == 0xa0 || u == 0x1680 || (0x2000 <= u && u
        <= 0x200a) || u == 0x2028 || u == 0x2029 || u == 0x202f || u == 0x205f || u == 0x3000
}

/// Whether the character is an ASCII digit.
pub fn is_digit_char(c: char) -> (r: bool)
    ensures
        r == is_digit(c),
{
    let u: u32 = c as u32;
    '0' as u32 <= u && u <= '9' as u32
}

/// The characters of a text.
pub fn chars_of(s: &str) -> (r: Vec<char>)
    ensures
        r@ == s@,
{
    let n: usize = s.unicode_len();
    let mut out: Vec<char> = Vec::new();
    let mut i: usize = 0;
    while i < n
        invariant
            i <= n,
            n == s@.len(),
            out@ == s@.take(i as int),
        decreases n - i,
    {
        out.push(s.get_char(i));
        assert(s@.take(i as int).push(s@[i as int]) =~= s@.take(i + 1));
        i += 1;
    }
    assert(s@.take(n as int) =~= s@);
    out
}

/// Whether two texts are the same.
pub fn same_text(a: &str, b: &str) -> (r: bool)
    ensures
        r == (a@ == b@),
{
    let n: usize = a.unicode_len();
    if n != b.unicode_len() {
        return false;
    }
    let mut i: usize = 0;
    while i < n
        invariant
            i <= n,
            n == a@.len(),
            n == b@.len(),
            a@.take(i as int) == b@.take(i as int),
        decreases n - i,
    {
        if a.get_char(i) != b.get_char(i) {
            return false;
        }
        assert(a@.take(i + 1) =~= a@.take(i as int).push(a@[i as int]));
        assert(b@.take(i + 1) =~= b@.take(i as int).push(b@[i as int]));
        i += 1;
    }
    assert(a@.take(n as int) =~= a@);
    assert(b@.take(n as int) =~= b@);
    true
}

/// The text without the white space at its two ends.
pub fn trim(s: &str) -> (r: String)
    ensures
        r@ == trimmed(s@),
{
    let n: usize = s.unicode_len();
    let mut a: usize = 0;
    while a < n && is_space_char(s.get_char(a))
        invariant
            a <= n,
            n == s@.len(),
            ink_start(s@, 0) == ink_start(s@, a as nat),
        decreases n - a,
    {
        a += 1;
    }
    let mut b: usize = n;
    while b > a && is_space_char(s.get_char(b - 1))
        invariant
            a <= b <= n,
            n == s@.len(),
            ink_end(s@, n as nat, a as nat) == ink_end(s@, b as nat, a as nat),
        decreases b,
    {
        b -= 1;
    }
    String::from_str(s.substring_char(a, b))
}

/// The index of the first `c` in the text, or its length.
pub fn find_char(s: &str, c: char) -> (r: usize)
    ensures
        r == first_of(s@, c, 0),
        r <= s@.len(),
{
    let n: usize = s.unicode_len();
    let mut i: usize = 0;
    while i < n && s.get_char(i) != c
        invariant
            i <= n,
            n == s@.len(),
            first_of(s@, c, 0) == first_of(s@, c, i as nat),
        decreases n - i,
    {
        i += 1;
    }
    i
}

} // verus!
