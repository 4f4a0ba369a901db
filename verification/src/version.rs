//! Which croc builds Cricket accepts: the version printed by `croc --version`, read
//! the way the release notes number it (`croc v11.5.3`), must be at least 11.5.3.
use crate::croc::{lossy, lossy_text};
use crate::text::{chars_of, is_space, is_space_exec, trim, trim_text};
use vstd::prelude::*;

verus! {

pub const CROC_TOO_OLD: &'static str = "Cricket needs croc 11.5.3 or newer. Run npm run prepare:croc.";

/// `s` without its trailing whitespace.
pub open spec fn drop_trailing_space(s: Seq<char>) -> Seq<char>
    decreases s.len(),
{
    if s.len() > 0 && is_space(s.last()) {
        drop_trailing_space(s.drop_last())
    } else {
        s
    }
}

/// The run of non-whitespace characters at the end of `s`.
pub open spec fn trailing_run(s: Seq<char>) -> Seq<char>
    decreases s.len(),
{
    if s.len() > 0 && !is_space(s.last()) {
        trailing_run(s.drop_last()).push(s.last())
    } else {
        Seq::empty()
    }
}

/// The last whitespace-separated word of `s`, empty if there is none.
pub open spec fn last_word(s: Seq<char>) -> Seq<char> {
    trailing_run(drop_trailing_space(s))
}

/// `s` without the letters `v` it starts with.
pub open spec fn without_leading_v(s: Seq<char>) -> Seq<char>
    decreases s.len(),
{
    if s.len() > 0 && s[0] == 'v' {
        without_leading_v(s.drop_first())
    } else {
        s
    }
}

/// The pieces of `s` between dots (one piece more than there are dots).
pub open spec fn split_dots(s: Seq<char>) -> Seq<Seq<char>>
    decreases s.len(),
{
    if s.len() == 0 {
        seq![Seq::empty()]
    } else {
        let r = split_dots(s.drop_last());
        if s.last() == '.' {
            r.push(Seq::empty())
        } else {
            r.drop_last().push(r.last().push(s.last()))
        }
    }
}

pub open spec fn is_digit(c: char) -> bool {
    '0' <= c && c <= '9'
}

pub open spec fn digit_value(c: char) -> nat {
    (c as int - '0' as int) as nat
}

/// The decimal value of a string of digits.
pub open spec fn digits_value(s: Seq<char>) -> nat
    decreases s.len(),
{
    if s.len() == 0 {
        0
    } else {
        digits_value(s.drop_last()) * 10 + digit_value(s.last())
    }
}

pub open spec fn all_digits(s: Seq<char>) -> bool {
    forall|i: int| 0 <= i < s.len() ==> is_digit(#[trigger] s[i])
}

/// The digits of `p` after an optional `+`.
pub open spec fn unsigned_digits(p: Seq<char>) -> Seq<char> {
    if p.len() > 0 && p[0] == '+' {
        p.drop_first()
    } else {
        p
    }
}

/// `str::parse::<u32>`: an optional `+`, then at least one ASCII digit, and a value that fits.
pub open spec fn parsed_u32(p: Seq<char>) -> Option<u32> {
    let d = unsigned_digits(p);
    if d.len() > 0 && all_digits(d) && digits_value(d) <= u32::MAX {
        Some(digits_value(d) as u32)
    } else {
        None
    }
}

/// A version piece as a number; one that does not parse counts as 0.
pub open spec fn part_value(p: Seq<char>) -> u32 {
    match parsed_u32(p) {
        Some(v) => v,
        None => 0,
    }
}

/// The numbers of the first three pieces.
pub open spec fn leading_parts(pieces: Seq<Seq<char>>) -> Seq<u32> {
    pieces.take(if pieces.len() < 3 { pieces.len() as int } else { 3 }).map_values(
        |p: Seq<char>| part_value(p),
    )
}

/// The version numbers that `croc --version` printed.
pub open spec fn version_parts(version: Seq<char>) -> Seq<u32> {
    leading_parts(split_dots(without_leading_v(last_word(version))))
}

/// Lexicographic order on number sequences, a proper prefix coming first (slice `<`).
pub open spec fn lex_less(a: Seq<u32>, b: Seq<u32>) -> bool
    decreases a.len(),
{
    if a.len() == 0 {
        b.len() > 0
    } else if b.len() == 0 {
        false
    } else if a[0] != b[0] {
        a[0] < b[0]
    } else {
        lex_less(a.drop_first(), b.drop_first())
    }
}

/// The oldest accepted croc: 11.5.3.
pub open spec fn minimum_version() -> Seq<u32> {
    seq![11u32, 5u32, 3u32]
}

proof fn lemma_digits_grow(d: Seq<char>, j: int)
    requires
        all_digits(d),
        0 <= j <= d.len(),
    ensures
        digits_value(d.take(j)) <= digits_value(d),
    decreases d.len(),
{
    if j < d.len() {
        assert(d.drop_last().take(j) =~= d.take(j));
        lemma_digits_grow(d.drop_last(), j);
    } else {
        assert(d.take(j) =~= d);
    }
}

/// The number a version piece stands for.
fn parse_part(p: &Vec<char>) -> (r: u32)
    ensures
        r == part_value(p@),
{
    let start: usize = if p.len() > 0 && p[0] == '+' {
        1
    } else {
        0
    };
    let ghost d = unsigned_digits(p@);
    assert(d =~= p@.subrange(start as int, p@.len() as int));
    if start == p.len() {
        return 0;
    }
    let mut value: u64 = 0;
    let mut i: usize = start;
    assert(d.take(0) =~= Seq::<char>::empty());
    while i < p.len()
        invariant
            start <= i <= p.len(),
            d == unsigned_digits(p@),
            d == p@.subrange(start as int, p@.len() as int),
            d.len() > 0,
            value == digits_value(d.take(i - start)),
            value <= u32::MAX,
            all_digits(d.take(i - start)),
        decreases p.len() - i,
    {
        let c = p[i];
        assert(d[i - start] == c);
        if !('0' <= c && c <= '9') {
            assert(!all_digits(d));
            return 0;
        }
        let next: u64 = value * 10 + ((c as u32) - ('0' as u32)) as u64;
        assert(d.take(i - start + 1).drop_last() =~= d.take(i - start));
        assert(all_digits(d.take(i - start + 1)));
        if next > 0xffff_ffff {
            proof {
                if all_digits(d) {
                    lemma_digits_grow(d, i - start + 1);
                }
            }
            return 0;
        }
        value = next;
        i = i + 1;
    }
    assert(d.take(i - start) =~= d);
    value as u32
}

/// Whether `a` comes before `b` (slice `<`).
fn less_than(a: &Vec<u32>, b: &Vec<u32>) -> (r: bool)
    ensures
        r == lex_less(a@, b@),
{
    let mut i: usize = 0;
    assert(a@.skip(0) =~= a@ && b@.skip(0) =~= b@);
    while i < a.len() && i < b.len()
        invariant
            i <= a.len(),
            i <= b.len(),
            lex_less(a@, b@) == lex_less(a@.skip(i as int), b@.skip(i as int)),
        decreases a.len() - i,
    {
        let x = a[i];
        let y = b[i];
        if x != y {
            return x < y;
        }
        assert(a@.skip(i as int).drop_first() =~= a@.skip(i + 1));
        assert(b@.skip(i as int).drop_first() =~= b@.skip(i + 1));
        i = i + 1;
    }
    i == a.len() && i < b.len()
}

/// Accepts the version text (already trimmed) of a croc that is 11.5.3 or newer, and
/// hands it back; refuses an older one.
pub fn version_gate(version: String) -> (r: Result<String, String>)
    ensures
        lex_less(version_parts(version@), minimum_version()) ==> (r matches Err(e) && e@
            == CROC_TOO_OLD@),
        !lex_less(version_parts(version@), minimum_version()) ==> (r matches Ok(s) && s@
            == version@),
{
    let cs = chars_of(version.as_str());
    let ghost s = version@;
    // the end of the last word
    let mut e: usize = cs.len();
    assert(s.take(e as int) =~= s);
    while e > 0 && is_space_exec(cs[e - 1])
        invariant
            cs@ == s,
            e <= cs.len(),
            drop_trailing_space(s) == drop_trailing_space(s.take(e as int)),
        decreases e,
    {
        assert(s.take(e as int).drop_last() =~= s.take(e - 1));
        e = e - 1;
    }
    assert(drop_trailing_space(s) == s.take(e as int)) by {
        if e == 0 {
            assert(s.take(0) =~= Seq::<char>::empty());
        }
    }
    // its start
    let mut b: usize = e;
    while b > 0 && !is_space_exec(cs[b - 1])
        invariant
            cs@ == s,
            b <= e <= cs.len(),
            trailing_run(s.take(e as int)) == trailing_run(s.take(b as int)) + s.subrange(
                b as int,
                e as int,
            ),
        decreases b,
    {
        assert(s.take(b as int).drop_last() =~= s.take(b - 1));
        assert(s.subrange(b - 1, e as int) =~= seq![s[b - 1]] + s.subrange(b as int, e as int));
        assert(trailing_run(s.take(b - 1)).push(s[b - 1]) + s.subrange(b as int, e as int)
            =~= trailing_run(s.take(b - 1)) + s.subrange(b - 1, e as int));
        b = b - 1;
    }
    assert(last_word(s) =~= s.subrange(b as int, e as int));
    // without leading `v`s
    let mut k: usize = b;
    while k < e && cs[k] == 'v'
        invariant
            cs@ == s,
            b <= k <= e <= cs.len(),
            without_leading_v(s.subrange(b as int, e as int)) == without_leading_v(
                s.subrange(k as int, e as int),
            ),
        decreases e - k,
    {
        assert(s.subrange(k as int, e as int).drop_first() =~= s.subrange(k + 1, e as int));
        k = k + 1;
    }
    let ghost number = s.subrange(k as int, e as int);
    assert(without_leading_v(last_word(s)) == number);
    // the numbers of the first three pieces
    let mut parts: Vec<u32> = Vec::new();
    let mut piece: Vec<char> = Vec::new();
    let mut i: usize = k;
    while i < e
        invariant
            cs@ == s,
            k <= i <= e <= cs.len(),
            number == s.subrange(k as int, e as int),
            split_dots(s.subrange(k as int, i as int)).len() >= 1,
            piece@ == split_dots(s.subrange(k as int, i as int)).last(),
            parts@ == leading_parts(split_dots(s.subrange(k as int, i as int)).drop_last()),
        decreases e - i,
    {
        let c = cs[i];
        let ghost before = split_dots(s.subrange(k as int, i as int));
        assert(s.subrange(k as int, i + 1).drop_last() =~= s.subrange(k as int, i as int));
        if c == '.' {
            if parts.len() < 3 {
                let n = parse_part(&piece);
                parts.push(n);
            }
            piece = Vec::new();
            proof {
                let after = split_dots(s.subrange(k as int, i + 1));
                assert(after.drop_last() =~= before);
                if before.drop_last().len() < 3 {
                    assert(before.take(before.len() as int) =~= before.drop_last().take(
                        before.drop_last().len() as int,
                    ).push(before.last()));
                    assert(leading_parts(before) =~= leading_parts(before.drop_last()).push(
                        part_value(before.last()),
                    ));
                } else {
                    assert(before.take(3) =~= before.drop_last().take(3));
                    assert(leading_parts(before) =~= leading_parts(before.drop_last()));
                }
            }
        } else {
            piece.push(c);
            proof {
                let after = split_dots(s.subrange(k as int, i + 1));
                assert(after.drop_last() =~= before.drop_last());
            }
        }
        i = i + 1;
    }
    if parts.len() < 3 {
        let n = parse_part(&piece);
        parts.push(n);
    }
    proof {
        let all = split_dots(number);
        assert(number =~= s.subrange(k as int, i as int));
        assert(all =~= all.drop_last().push(all.last()));
        if all.drop_last().len() < 3 {
            assert(all.take(all.len() as int) =~= all.drop_last().take(
                all.drop_last().len() as int,
            ).push(all.last()));
        } else {
            assert(all.take(3) =~= all.drop_last().take(3));
        }
        assert(parts@ =~= leading_parts(all));
    }
    let minimum: Vec<u32> = vec![11, 5, 3];
    assert(minimum@ =~= minimum_version());
    if less_than(&parts, &minimum) {
        return Err(String::from_str(CROC_TOO_OLD));
    }
    Ok(version)
}

/// Reads the output of `croc --version` (lossily decoded, trimmed) and accepts it as
/// [`version_gate`] does.
pub fn check_version(stdout: &[u8]) -> (r: Result<String, String>)
    ensures
        lex_less(version_parts(trim_text(lossy_text(stdout@))), minimum_version()) ==> (r matches Err(e)
            && e@ == CROC_TOO_OLD@),
        !lex_less(version_parts(trim_text(lossy_text(stdout@))), minimum_version()) ==> (r matches Ok(
            s,
        ) && s@ == trim_text(lossy_text(stdout@))),
{
    let text = lossy(stdout);
    let version = trim(text.as_str());
    version_gate(version)
}

} // verus!
