//! Character-level helpers shared by the protocol code: ASCII case folding,
//! Unicode whitespace, substring search and decimal rendering.
use vstd::prelude::*;

verus! {

/// Number of bytes in the UTF-8 encoding of `s` (what `str::len` reports).
pub open spec fn utf8_len(s: Seq<char>) -> nat {
    vstd::utf8::encode_utf8(s).len()
}

/// Code point of `c` after ASCII lower-casing.
pub open spec fn fold(c: char) -> u32 {
    let u = c as u32;
    if 65 <= u && u <= 90 {
        (u + 32) as u32
    } else {
        u
    }
}

/// Code points of `s` after ASCII lower-casing (`to_ascii_lowercase`).
pub open spec fn folded(s: Seq<char>) -> Seq<u32> {
    s.map_values(|c: char| fold(c))
}

/// Code points of `s`, unchanged.
pub open spec fn codes(s: Seq<char>) -> Seq<u32> {
    s.map_values(|c: char| c as u32)
}

/// ASCII case-insensitive equality (`eq_ignore_ascii_case`).
pub open spec fn same_name(a: Seq<char>, b: Seq<char>) -> bool {
    folded(a) == folded(b)
}

pub open spec fn is_ascii_alnum(c: char) -> bool {
    ('0' <= c && c <= '9') || ('a' <= c && c <= 'z') || ('A' <= c && c <= 'Z')
}

/// Characters allowed in a GitHub login and in a croc code.
pub open spec fn is_login_char(c: char) -> bool {
    is_ascii_alnum(c) || c == '-'
}

/// Unicode `White_Space` (what `char::is_whitespace` and `str::trim` use).
pub open spec fn is_space(c: char) -> bool {
    let u = c as u32;
    (9 <= u && u <= 13) || u == 32 || u == 0x85 || u == 0xA0 || u == 0x1680 || (0x2000 <= u
        && u <= 0x200A) || u == 0x2028 || u == 0x2029 || u == 0x202F || u == 0x205F || u
        == 0x3000
}

/// True when `s` is empty once surrounding whitespace is trimmed.
pub open spec fn is_blank(s: Seq<char>) -> bool {
    forall|i: int| 0 <= i < s.len() ==> is_space(#[trigger] s[i])
}

/// `pat` occurs as a contiguous run inside `hay`.
pub open spec fn occurs<T>(hay: Seq<T>, pat: Seq<T>) -> bool {
    exists|i: int| 0 <= i && i + pat.len() <= hay.len() && #[trigger] hay.subrange(i, i + pat.len()) == pat
}

/// `pre` is a prefix of `s`.
pub open spec fn has_prefix(s: Seq<char>, pre: Seq<char>) -> bool {
    pre.len() <= s.len() && s.subrange(0, pre.len() as int) == pre
}

pub open spec fn digit(d: nat) -> char {
    if d == 0 {
        '0'
    } else if d == 1 {
        '1'
    } else if d == 2 {
        '2'
    } else if d == 3 {
        '3'
    } else if d == 4 {
        '4'
    } else if d == 5 {
        '5'
    } else if d == 6 {
        '6'
    } else if d == 7 {
        '7'
    } else if d == 8 {
        '8'
    } else {
        '9'
    }
}

/// Decimal rendering of `n`, without leading zeros (`u64::to_string`).
pub open spec fn decimal(n: nat) -> Seq<char>
    decreases n,
{
    if n < 10 {
        seq![digit(n)]
    } else {
        decimal(n / 10).push(digit(n % 10))
    }
}

/// The characters of a string slice, for indexed access.
pub fn chars_of(s: &str) -> (v: Vec<char>)
    ensures
        v@ == s@,
{
    let mut v: Vec<char> = Vec::new();
    for c in it: s.chars()
        invariant
            v@ == it.seq().take(it.index() as int),
            it.seq() == s@,
    {
        v.push(c);
    }
    v
}

/// ASCII lower-cased code point of one character.
pub fn fold_char(c: char) -> (r: u32)
    ensures
        r == fold(c),
{
    let u = c as u32;
    if 65 <= u && u <= 90 {
        u + 32
    } else {
        u
    }
}

pub fn is_login_char_exec(c: char) -> (r: bool)
    ensures
        r == is_login_char(c),
{
    ('0' <= c && c <= '9') || ('a' <= c && c <= 'z') || ('A' <= c && c <= 'Z') || c == '-'
}

pub fn is_space_exec(c: char) -> (r: bool)
    ensures
        r == is_space(c),
{
    let u = c as u32;
    (9 <= u && u <= 13) || u == 32 || u == 0x85 || u == 0xA0 || u == 0x1680 || (0x2000 <= u
        && u <= 0x200A) || u == 0x2028 || u == 0x2029 || u == 0x202F || u == 0x205F || u
        == 0x3000
}

/// ASCII case-insensitive comparison of two strings (`str::eq_ignore_ascii_case`).
pub fn eq_ignore_case(a: &str, b: &str) -> (r: bool)
    ensures
        r == same_name(a@, b@),
{
    let x = chars_of(a);
    let y = chars_of(b);
    if x.len() != y.len() {
        assert(folded(a@).len() != folded(b@).len());
        return false;
    }
    let mut i: usize = 0;
    while i < x.len()
        invariant
            x@ == a@,
            y@ == b@,
            x.len() == y.len(),
            0 <= i <= x.len(),
            forall|k: int| 0 <= k < i ==> fold(#[trigger] x@[k]) == fold(y@[k]),
        decreases x.len() - i,
    {
        if fold_char(x[i]) != fold_char(y[i]) {
            assert(folded(a@)[i as int] != folded(b@)[i as int]);
            return false;
        }
        i += 1;
    }
    assert(folded(a@) =~= folded(b@));
    true
}

/// True when every character of `s` is whitespace.
pub fn blank(s: &str) -> (r: bool)
    ensures
        r == is_blank(s@),
{
    let x = chars_of(s);
    let mut i: usize = 0;
    while i < x.len()
        invariant
            x@ == s@,
            0 <= i <= x.len(),
            forall|k: int| 0 <= k < i ==> is_space(#[trigger] x@[k]),
        decreases x.len() - i,
    {
        if !is_space_exec(x[i]) {
            return false;
        }
        i += 1;
    }
    true
}

/// Whether `pat` occurs in `hay` at position `at`.
fn matches_at(hay: &Vec<u32>, pat: &Vec<u32>, at: usize) -> (r: bool)
    requires
        at + pat.len() <= hay.len(),
    ensures
        r == (hay@.subrange(at as int, at + pat.len()) == pat@),
{
    let mut j: usize = 0;
    while j < pat.len()
        invariant
            at + pat.len() <= hay.len(),
            0 <= j <= pat.len(),
            forall|k: int| 0 <= k < j ==> hay@[at + k] == pat@[k],
        decreases pat.len() - j,
    {
        if hay[at + j] != pat[j] {
            assert(hay@.subrange(at as int, at + pat.len())[j as int] != pat@[j as int]);
            return false;
        }
        j += 1;
    }
    assert(hay@.subrange(at as int, at + pat.len()) =~= pat@);
    true
}

/// Whether `pat` occurs anywhere in `hay`.
pub fn find(hay: &Vec<u32>, pat: &Vec<u32>) -> (r: bool)
    ensures
        r == occurs(hay@, pat@),
{
    if pat.len() > hay.len() {
        return false;
    }
    let last = hay.len() - pat.len();
    let mut i: usize = 0;
    while i <= last
        invariant
            last == hay.len() - pat.len(),
            pat.len() <= hay.len(),
            0 <= i <= last,
            forall|k: int|
                0 <= k < i ==> #[trigger] hay@.subrange(k, k + pat.len()) != pat@,
        ensures
            forall|k: int|
                0 <= k <= last ==> #[trigger] hay@.subrange(k, k + pat.len()) != pat@,
        decreases last - i,
    {
        if matches_at(hay, pat, i) {
            return true;
        }
        if i == last {
            break;
        }
        i += 1;
    }
    assert forall|k: int| 0 <= k && k + pat.len() <= hay.len() implies #[trigger] hay@.subrange(
        k,
        k + pat.len(),
    ) != pat@ by {}
    false
}

/// Code points of `s` after ASCII lower-casing.
pub fn folded_codes(s: &str) -> (r: Vec<u32>)
    ensures
        r@ == folded(s@),
{
    let x = chars_of(s);
    let mut r: Vec<u32> = Vec::new();
    let mut i: usize = 0;
    while i < x.len()
        invariant
            x@ == s@,
            0 <= i <= x.len(),
            r@ =~= folded(s@).take(i as int),
        decreases x.len() - i,
    {
        r.push(fold_char(x[i]));
        i += 1;
    }
    assert(folded(s@).take(x.len() as int) =~= folded(s@));
    r
}

/// Code points of `s`, unchanged.
pub fn code_points(s: &str) -> (r: Vec<u32>)
    ensures
        r@ == codes(s@),
{
    let x = chars_of(s);
    let mut r: Vec<u32> = Vec::new();
    let mut i: usize = 0;
    while i < x.len()
        invariant
            x@ == s@,
            0 <= i <= x.len(),
            r@ =~= codes(s@).take(i as int),
        decreases x.len() - i,
    {
        r.push(x[i] as u32);
        i += 1;
    }
    assert(codes(s@).take(x.len() as int) =~= codes(s@));
    r
}

/// ASCII case-insensitive substring test: does the lower-cased `text` contain `pat`?
pub fn contains_folded(text: &Vec<u32>, pat: &str) -> (r: bool)
    ensures
        r == occurs(text@, codes(pat@)),
{
    let p = code_points(pat);
    find(text, &p)
}

fn digit_str(d: u64) -> (s: &'static str)
    requires
        d < 10,
    ensures
        s@ == seq![digit(d as nat)],
{
    if d == 0 {
        proof { reveal_strlit("0"); }
        "0"
    } else if d == 1 {
        proof { reveal_strlit("1"); }
        "1"
    } else if d == 2 {
        proof { reveal_strlit("2"); }
        "2"
    } else if d == 3 {
        proof { reveal_strlit("3"); }
        "3"
    } else if d == 4 {
        proof { reveal_strlit("4"); }
        "4"
    } else if d == 5 {
        proof { reveal_strlit("5"); }
        "5"
    } else if d == 6 {
        proof { reveal_strlit("6"); }
        "6"
    } else if d == 7 {
        proof { reveal_strlit("7"); }
        "7"
    } else if d == 8 {
        proof { reveal_strlit("8"); }
        "8"
    } else {
        proof { reveal_strlit("9"); }
        "9"
    }
}

/// Decimal rendering of `n` (`u64::to_string`).
pub fn decimal_string(n: u64) -> (s: String)
    ensures
        s@ == decimal(n as nat),
    decreases n,
{
    if n < 10 {
        String::from_str(digit_str(n))
    } else {
        let mut s = decimal_string(n / 10);
        s.append(digit_str(n % 10));
        s
    }
}

/// The characters of `s` from `from` (inclusive) to `to` (exclusive), as an owned string.
pub fn slice_chars(s: &str, from: usize, to: usize) -> (r: String)
    requires
        from <= to <= s@.len(),
    ensures
        r@ == s@.subrange(from as int, to as int),
{
    String::from_str(s.substring_char(from, to))
}

/// Concatenation of two strings.
pub fn join2(a: &str, b: &str) -> (r: String)
    ensures
        r@ == a@ + b@,
{
    let mut r = String::from_str(a);
    r.append(b);
    r
}

/// Concatenation of three strings.
pub fn join3(a: &str, b: &str, c: &str) -> (r: String)
    ensures
        r@ == a@ + b@ + c@,
{
    let mut r = String::from_str(a);
    r.append(b);
    r.append(c);
    r
}

/// Whether `s` starts with `pre`, compared character by character.
pub fn starts_with(s: &str, pre: &str) -> (r: bool)
    ensures
        r == has_prefix(s@, pre@),
{
    let x = chars_of(s);
    let p = chars_of(pre);
    if p.len() > x.len() {
        return false;
    }
    let mut i: usize = 0;
    while i < p.len()
        invariant
            x@ == s@,
            p@ == pre@,
            p.len() <= x.len(),
            0 <= i <= p.len(),
            forall|k: int| 0 <= k < i ==> x@[k] == p@[k],
        decreases p.len() - i,
    {
        if x[i] != p[i] {
            assert(s@.subrange(0, pre@.len() as int)[i as int] != pre@[i as int]);
            return false;
        }
        i += 1;
    }
    assert(s@.subrange(0, pre@.len() as int) =~= pre@);
    true
}

/// `s` without the leading `pre`, when `s` starts with it (`str::strip_prefix`).
pub fn strip_prefix(s: &str, pre: &str) -> (r: Option<String>)
    ensures
        has_prefix(s@, pre@) <==> r is Some,
        r matches Some(rest) ==> rest@ == s@.subrange(pre@.len() as int, s@.len() as int),
{
    if starts_with(s, pre) {
        let n = s.unicode_len();
        let m = pre.unicode_len();
        Some(slice_chars(s, m, n))
    } else {
        None
    }
}

} // verus!

verus! {

/// Number of bytes in the UTF-8 encoding of `s` (`str::len`).
pub fn byte_len(s: &str) -> (n: usize)
    ensures
        n == utf8_len(s@),
{
    s.as_bytes().len()
}

} // verus!

verus! {

/// Exact equality of two strings.
pub fn equal_text(a: &str, b: &str) -> (r: bool)
    ensures
        r == (a@ == b@),
{
    let x = chars_of(a);
    let y = chars_of(b);
    if x.len() != y.len() {
        return false;
    }
    let mut i: usize = 0;
    while i < x.len()
        invariant
            x@ == a@,
            y@ == b@,
            x.len() == y.len(),
            0 <= i <= x.len(),
            forall|k: int| 0 <= k < i ==> x@[k] == y@[k],
        decreases x.len() - i,
    {
        if x[i] != y[i] {
            return false;
        }
        i += 1;
    }
    assert(a@ =~= b@);
    true
}

} // verus!

verus! {

/// Unicode lower-casing of a text (`str::to_lowercase`).
pub uninterp spec fn lowercase_text(s: Seq<char>) -> Seq<char>;

/// `str::to_lowercase`: Unicode lower-casing. The mapping (which may change the length) is
/// left to the name `lowercase_text`.
#[verifier::external_body]
pub(crate) fn lowercase(s: &str) -> (r: String)
    ensures
        r@ == lowercase_text(s@),
{
    s.to_lowercase()
}

/// A text with surrounding Unicode whitespace removed.
pub open spec fn trimmed(s: Seq<char>, a: int, b: int) -> bool {
    &&& 0 <= a <= b <= s.len()
    &&& forall|i: int| 0 <= i < a ==> is_space(#[trigger] s[i])
    &&& forall|i: int| b <= i < s.len() ==> is_space(#[trigger] s[i])
    &&& (a < b ==> !is_space(s[a]) && !is_space(s[b - 1]))
}

/// `s` without leading and trailing Unicode whitespace (`str::trim`).
pub open spec fn trim_text(s: Seq<char>) -> Seq<char> {
    let ab = choose|ab: (int, int)| trimmed(s, ab.0, ab.1);
    s.subrange(ab.0, ab.1)
}

proof fn lemma_trimmed_unique(s: Seq<char>, a: int, b: int, c: int, d: int)
    requires
        trimmed(s, a, b),
        trimmed(s, c, d),
    ensures
        s.subrange(a, b) == s.subrange(c, d),
{
    if a < b {
        if c < d {
            assert(a == c) by {
                if a < c {
                    assert(is_space(s[a]));
                }
                if c < a {
                    assert(is_space(s[c]));
                }
            }
            assert(b == d) by {
                if b < d {
                    assert(is_space(s[d - 1]));
                }
                if d < b {
                    assert(is_space(s[b - 1]));
                }
            }
        } else {
            assert(is_space(s[a]));
        }
    } else if c < d {
        assert(is_space(s[c]));
    }
    assert(s.subrange(a, b) =~= s.subrange(c, d));
}

/// `s` without leading and trailing Unicode whitespace (`str::trim`).
pub fn trim(s: &str) -> (r: String)
    ensures
        r@ == trim_text(s@),
{
    let v = chars_of(s);
    let n = v.len();
    let mut a: usize = 0;
    while a < n && is_space_exec(v[a])
        invariant
            v@ == s@,
            n == v.len(),
            0 <= a <= n,
            forall|i: int| 0 <= i < a ==> is_space(#[trigger] v@[i]),
        decreases n - a,
    {
        a += 1;
    }
    let mut b: usize = n;
    while b > a && is_space_exec(v[b - 1])
        invariant
            v@ == s@,
            n == v.len(),
            0 <= a <= b <= n,
            forall|i: int| b <= i < n ==> is_space(#[trigger] v@[i]),
            a < n ==> !is_space(v@[a as int]),
        decreases b - a,
    {
        b -= 1;
    }
    proof {
        let w: (int, int) = (a as int, b as int);
        assert(trimmed(s@, w.0, w.1));
        let ab = choose|ab: (int, int)| trimmed(s@, ab.0, ab.1);
        lemma_trimmed_unique(s@, a as int, b as int, ab.0, ab.1);
    }
    slice_chars(s, a, b)
}

} // verus!
