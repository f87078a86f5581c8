//! Decimal parsing of plot file names and of the host tools' text output.

use vstd::prelude::*;

verus! {

pub open spec fn is_digit(c: char) -> bool {
    '0' as u32 <= c as u32 && c as u32 <= '9' as u32
}

pub open spec fn digit_val(c: char) -> int {
    c as u32 - '0' as u32
}

pub open spec fn all_digits(s: Seq<char>) -> bool {
    forall|i: int| 0 <= i < s.len() ==> is_digit(#[trigger] s[i])
}

/// The number a digit string denotes, most significant digit first.
pub open spec fn dec_value(s: Seq<char>) -> int
    decreases s.len(),
{
    if s.len() == 0 {
        0
    } else {
        dec_value(s.drop_last()) * 10 + digit_val(s.last())
    }
}

proof fn lemma_dec_value_nonneg(s: Seq<char>)
    requires
        all_digits(s),
    ensures
        dec_value(s) >= 0,
    decreases s.len(),
{
    if s.len() > 0 {
        assert(all_digits(s.drop_last()));
        lemma_dec_value_nonneg(s.drop_last());
        assert(is_digit(s.last()));
    }
}

/// Longer digit prefixes denote numbers at least as large.
proof fn lemma_dec_prefix_monotone(s: Seq<char>, i: int, j: int)
    requires
        all_digits(s),
        0 <= i <= j <= s.len(),
    ensures
        dec_value(s.take(i)) <= dec_value(s.take(j)),
    decreases j - i,
{
    if i < j {
        lemma_dec_prefix_monotone(s, i, j - 1);
        assert(s.take(j).drop_last() =~= s.take(j - 1));
        assert(all_digits(s.take(j - 1)));
        lemma_dec_value_nonneg(s.take(j - 1));
        assert(is_digit(s[j - 1]));
        assert(s.take(j).last() == s[j - 1]);
    }
}

/// Parse a non-empty, all-digit decimal string into a `u64`.
pub fn parse_u64(s: &str) -> (r: Option<u64>)
    ensures
        match r {
            Some(n) => s@.len() > 0 && all_digits(s@) && n == dec_value(s@),
            None => s@.len() == 0 || !all_digits(s@) || dec_value(s@) > u64::MAX,
        },
{
    let len = s.unicode_len();
    if len == 0 {
        return None;
    }
    let mut acc: u64 = 0;
    let mut i: usize = 0;
    while i < len
        invariant
            0 <= i <= len,
            len == s@.len(),
            all_digits(s@.take(i as int)),
            acc == dec_value(s@.take(i as int)),
        decreases len - i,
    {
        let c = s.get_char(i);
        let cv: u32 = c as u32;
        if cv < 48 || cv > 57 {
            assert(!is_digit(s@[i as int]));
            return None;
        }
        let d: u64 = (cv - 48) as u64;
        let wide: u128 = acc as u128 * 10 + d as u128;
        proof {
            assert(s@.take(i + 1).drop_last() =~= s@.take(i as int));
            assert(s@.take(i + 1).last() == s@[i as int]);
            assert(all_digits(s@.take(i + 1)));
        }
        if wide > u64::MAX as u128 {
            proof {
                if all_digits(s@) {
                    lemma_dec_prefix_monotone(s@, i + 1, len as int);
                    assert(s@.take(len as int) =~= s@);
                }
            }
            return None;
        }
        acc = wide as u64;
        i = i + 1;
    }
    proof {
        assert(s@.take(len as int) =~= s@);
    }
    Some(acc)
}

/// `i` and `j` are the only underscores in `s`, and `i` comes first.
pub open spec fn underscores_exactly(s: Seq<char>, i: int, j: int) -> bool {
    &&& 0 <= i < j < s.len()
    &&& s[i] == '_'
    &&& s[j] == '_'
    &&& forall|k: int| 0 <= k < s.len() && k != i && k != j ==> #[trigger] s[k] != '_'
}

/// The three underscore-delimited fields of `s` split at `i < j`.
pub open spec fn field0(s: Seq<char>, i: int) -> Seq<char> {
    s.take(i)
}

pub open spec fn field1(s: Seq<char>, i: int, j: int) -> Seq<char> {
    s.subrange(i + 1, j)
}

pub open spec fn field2(s: Seq<char>, j: int) -> Seq<char> {
    s.subrange(j + 1, s.len() as int)
}

/// `s` has the shape `ACCOUNT_STARTNONCE_NONCES` with the given values:
/// exactly two underscores, three non-empty all-digit fields, each fitting
/// a `u64`.
pub open spec fn name_parses_at(
    s: Seq<char>,
    i: int,
    j: int,
    account: u64,
    start_nonce: u64,
    nonces: u64,
) -> bool {
    &&& underscores_exactly(s, i, j)
    &&& field0(s, i).len() > 0 && all_digits(field0(s, i)) && account == dec_value(field0(s, i))
    &&& field1(s, i, j).len() > 0 && all_digits(field1(s, i, j)) && start_nonce == dec_value(
        field1(s, i, j),
    )
    &&& field2(s, j).len() > 0 && all_digits(field2(s, j)) && nonces == dec_value(field2(s, j))
}

pub open spec fn name_parses_to(s: Seq<char>, account: u64, start_nonce: u64, nonces: u64) -> bool {
    exists|i: int, j: int| name_parses_at(s, i, j, account, start_nonce, nonces)
}

pub open spec fn name_valid(s: Seq<char>) -> bool {
    exists|account: u64, start_nonce: u64, nonces: u64| name_parses_to(s, account, start_nonce, nonces)
}

/// Parse a plot file name of the shape `ACCOUNT_STARTNONCE_NONCES`. The
/// shape determines the values: on success they are the only ones the name
/// parses to.
pub fn parse_plot_name(s: &str) -> (r: Option<(u64, u64, u64)>)
    ensures
        match r {
            Some(t) => name_parses_to(s@, t.0, t.1, t.2) && forall|a: u64, sn: u64, n: u64|
                name_parses_to(s@, a, sn, n) ==> a == t.0 && sn == t.1 && n == t.2,
            None => !name_valid(s@),
        },
{
    let len = s.unicode_len();
    let mut count: usize = 0;
    let mut u1: usize = 0;
    let mut u2: usize = 0;
    let mut u3: usize = 0;
    let mut i: usize = 0;
    while i < len
        invariant
            0 <= i <= len,
            len == s@.len(),
            count <= 3,
            count == 0 ==> forall|k: int| 0 <= k < i ==> #[trigger] s@[k] != '_',
            count == 1 ==> u1 < i && s@[u1 as int] == '_' && forall|k: int|
                0 <= k < i && k != u1 ==> #[trigger] s@[k] != '_',
            count == 2 ==> u1 < u2 < i && s@[u1 as int] == '_' && s@[u2 as int] == '_'
                && forall|k: int| 0 <= k < i && k != u1 && k != u2 ==> #[trigger] s@[k] != '_',
            count == 3 ==> u1 < u2 < u3 < i && s@[u1 as int] == '_' && s@[u2 as int] == '_'
                && s@[u3 as int] == '_',
        decreases len - i,
    {
        let c = s.get_char(i);
        if c == '_' {
            if count == 0 {
                u1 = i;
                count = 1;
            } else if count == 1 {
                u2 = i;
                count = 2;
            } else if count == 2 {
                u3 = i;
                count = 3;
            }
        }
        i = i + 1;
    }
    if count < 2 {
        proof {
            assert forall|a: u64, sn: u64, n: u64| !name_parses_to(s@, a, sn, n) by {
                assert forall|x: int, y: int| !name_parses_at(s@, x, y, a, sn, n) by {
                    if underscores_exactly(s@, x, y) {
                        if count == 0 {
                            assert(s@[x] != '_');
                        } else {
                            // only u1 is an underscore, but x and y are two
                            if x != u1 {
                                assert(s@[x] != '_');
                            } else {
                                assert(s@[y] != '_');
                            }
                        }
                    }
                }
            }
        }
        return None;
    }
    if count > 2 {
        proof {
            assert forall|a: u64, sn: u64, n: u64| !name_parses_to(s@, a, sn, n) by {
                assert forall|x: int, y: int| !name_parses_at(s@, x, y, a, sn, n) by {
                    if underscores_exactly(s@, x, y) {
                        // three distinct underscores cannot all be in {x, y}
                        if u1 as int != x && u1 as int != y {
                            assert(s@[u1 as int] != '_');
                        } else if u2 as int != x && u2 as int != y {
                            assert(s@[u2 as int] != '_');
                        } else {
                            assert(u3 as int != x && u3 as int != y);
                            assert(s@[u3 as int] != '_');
                        }
                    }
                }
            }
        }
        return None;
    }
    // exactly two underscores, at u1 < u2
    let a = parse_u64(s.substring_char(0, u1));
    let b = parse_u64(s.substring_char(u1 + 1, u2));
    let c = parse_u64(s.substring_char(u2 + 1, len));
    proof {
        assert(field0(s@, u1 as int) =~= s@.subrange(0, u1 as int));
        // any successful parse must split exactly at u1, u2
        assert forall|x: int, y: int, aa: u64, sn: u64, n: u64|
            name_parses_at(s@, x, y, aa, sn, n) implies x == u1 as int && y == u2 as int by {
            assert(s@[x] == '_');
            assert(s@[y] == '_');
            if x != u1 && x != u2 {
                assert(s@[x] != '_');
            }
            if y != u1 && y != u2 {
                assert(s@[y] != '_');
            }
        }
    }
    match (a, b, c) {
        (Some(account), Some(start_nonce), Some(nonces)) => {
            proof {
                assert(underscores_exactly(s@, u1 as int, u2 as int));
                assert(name_parses_at(s@, u1 as int, u2 as int, account, start_nonce, nonces));
                assert forall|a: u64, sn: u64, n: u64| name_parses_to(s@, a, sn, n) implies a
                    == account && sn == start_nonce && n == nonces by {
                    let (x, y) = choose|x: int, y: int| name_parses_at(s@, x, y, a, sn, n);
                    assert(x == u1 as int && y == u2 as int);
                }
            }
            Some((account, start_nonce, nonces))
        },
        _ => {
            proof {
                assert forall|aa: u64, sn: u64, n: u64| !name_parses_to(s@, aa, sn, n) by {
                    assert forall|x: int, y: int| !name_parses_at(s@, x, y, aa, sn, n) by {
                        if name_parses_at(s@, x, y, aa, sn, n) {
                            assert(x == u1 as int && y == u2 as int);
                        }
                    }
                }
            }
            None
        },
    }
}

/// ASCII whitespace, as the host tools' output uses it.
pub open spec fn is_space(c: char) -> bool {
    c == ' ' || c == '\t' || c == '\r' || c == '\n'
}

/// Index of the first occurrence of `c` in `s`, or `s.len()`.
pub open spec fn find_char(s: Seq<char>, c: char) -> int
    decreases s.len(),
{
    if s.len() == 0 {
        0
    } else if s[0] == c {
        0
    } else {
        1 + find_char(s.subrange(1, s.len() as int), c)
    }
}

pub proof fn lemma_find_char(s: Seq<char>, c: char)
    ensures
        0 <= find_char(s, c) <= s.len(),
        find_char(s, c) < s.len() ==> s[find_char(s, c)] == c,
        forall|j: int| 0 <= j < find_char(s, c) ==> s[j] != c,
    decreases s.len(),
{
    if s.len() > 0 && s[0] != c {
        let rest = s.subrange(1, s.len() as int);
        lemma_find_char(rest, c);
        assert forall|j: int| 0 <= j < find_char(s, c) implies s[j] != c by {
            if j > 0 {
                assert(rest[j - 1] == s[j]);
                assert(rest[j - 1] != c);
            }
        }
    }
}

/// Index of the first whitespace character of `s`, or `s.len()`.
pub open spec fn find_space(s: Seq<char>) -> int
    decreases s.len(),
{
    if s.len() == 0 {
        0
    } else if is_space(s[0]) {
        0
    } else {
        1 + find_space(s.subrange(1, s.len() as int))
    }
}

pub proof fn lemma_find_space(s: Seq<char>)
    ensures
        0 <= find_space(s) <= s.len(),
        find_space(s) < s.len() ==> is_space(s[find_space(s)]),
        forall|j: int| 0 <= j < find_space(s) ==> !is_space(s[j]),
    decreases s.len(),
{
    if s.len() > 0 && !is_space(s[0]) {
        let rest = s.subrange(1, s.len() as int);
        lemma_find_space(rest);
        assert forall|j: int| 0 <= j < find_space(s) implies !is_space(s[j]) by {
            if j > 0 {
                assert(rest[j - 1] == s[j]);
                assert(!is_space(rest[j - 1]));
            }
        }
    }
}

/// Index of the first non-whitespace character of `s`, or `s.len()`.
pub open spec fn find_non_space(s: Seq<char>) -> int
    decreases s.len(),
{
    if s.len() == 0 {
        0
    } else if !is_space(s[0]) {
        0
    } else {
        1 + find_non_space(s.subrange(1, s.len() as int))
    }
}

pub proof fn lemma_find_non_space(s: Seq<char>)
    ensures
        0 <= find_non_space(s) <= s.len(),
        find_non_space(s) < s.len() ==> !is_space(s[find_non_space(s)]),
        forall|j: int| 0 <= j < find_non_space(s) ==> is_space(s[j]),
    decreases s.len(),
{
    if s.len() > 0 && is_space(s[0]) {
        let rest = s.subrange(1, s.len() as int);
        lemma_find_non_space(rest);
        assert forall|j: int| 0 <= j < find_non_space(s) implies is_space(s[j]) by {
            if j > 0 {
                assert(rest[j - 1] == s[j]);
                assert(is_space(rest[j - 1]));
            }
        }
    }
}

/// One past the last non-whitespace character of `s`, or 0.
pub open spec fn find_non_space_end(s: Seq<char>) -> int
    decreases s.len(),
{
    if s.len() == 0 {
        0
    } else if is_space(s.last()) {
        find_non_space_end(s.drop_last())
    } else {
        s.len() as int
    }
}

pub proof fn lemma_find_non_space_end(s: Seq<char>)
    ensures
        0 <= find_non_space_end(s) <= s.len(),
        find_non_space_end(s) > 0 ==> !is_space(s[find_non_space_end(s) - 1]),
        forall|j: int| find_non_space_end(s) <= j < s.len() ==> is_space(s[j]),
    decreases s.len(),
{
    if s.len() > 0 && is_space(s.last()) {
        lemma_find_non_space_end(s.drop_last());
        assert forall|j: int| find_non_space_end(s) <= j < s.len() implies is_space(s[j]) by {
            if j < s.len() - 1 {
                assert(s.drop_last()[j] == s[j]);
            } else {
                assert(s[j] == s.last());
            }
        }
    }
}

/// `s` without trailing ASCII whitespace.
pub open spec fn spec_trim_end(s: Seq<char>) -> Seq<char> {
    s.take(find_non_space_end(s))
}

/// `s` without leading and trailing ASCII whitespace.
pub open spec fn spec_trim(s: Seq<char>) -> Seq<char> {
    if find_non_space(s) >= find_non_space_end(s) {
        Seq::empty()
    } else {
        s.subrange(find_non_space(s), find_non_space_end(s))
    }
}

/// The first whitespace-separated token of `s`, if any.
pub open spec fn spec_first_token(s: Seq<char>) -> Option<Seq<char>> {
    let a = find_non_space(s);
    if a == s.len() {
        None
    } else {
        let rest = s.subrange(a, s.len() as int);
        Some(rest.take(find_space(rest)))
    }
}

/// The second newline-separated line of `s`, if `s` has one.
pub open spec fn spec_second_line(s: Seq<char>) -> Option<Seq<char>> {
    let i = find_char(s, '\n');
    if i == s.len() {
        None
    } else {
        let rest = s.subrange(i + 1, s.len() as int);
        Some(rest.take(find_char(rest, '\n')))
    }
}

/// The first newline-separated line of `s` (all of `s` when it has no
/// newline).
pub open spec fn spec_first_line(s: Seq<char>) -> Seq<char> {
    s.take(find_char(s, '\n'))
}


/// Exec mirror of `is_space`.
pub fn is_space_char(c: char) -> (r: bool)
    ensures
        r == is_space(c),
{
    c == ' ' || c == '\t' || c == '\r' || c == '\n'
}

/// `s` without trailing ASCII whitespace, as the host tools' output wants
/// it cut.
pub fn trim_end_str<'a>(s: &'a str) -> (r: &'a str)
    ensures
        r@ == spec_trim_end(s@),
{
    let len = s.unicode_len();
    let mut b: usize = len;
    while b > 0 && is_space_char(s.get_char(b - 1))
        invariant
            0 <= b <= len,
            len == s@.len(),
            forall|j: int| b <= j < len ==> is_space(#[trigger] s@[j]),
        decreases b,
    {
        b = b - 1;
    }
    proof {
        lemma_find_non_space_end(s@);
        assert(b == find_non_space_end(s@));
    }
    s.substring_char(0, b)
}

/// `s` without leading and trailing ASCII whitespace.
pub fn trim_str<'a>(s: &'a str) -> (r: &'a str)
    ensures
        r@ == spec_trim(s@),
{
    let len = s.unicode_len();
    let mut a: usize = 0;
    while a < len && is_space_char(s.get_char(a))
        invariant
            0 <= a <= len,
            len == s@.len(),
            forall|j: int| 0 <= j < a ==> is_space(#[trigger] s@[j]),
        decreases len - a,
    {
        a = a + 1;
    }
    let mut b: usize = len;
    while b > a && is_space_char(s.get_char(b - 1))
        invariant
            a <= b <= len,
            len == s@.len(),
            forall|j: int| 0 <= j < a ==> is_space(#[trigger] s@[j]),
            a < len ==> !is_space(s@[a as int]),
            forall|j: int| b <= j < len ==> is_space(#[trigger] s@[j]),
        decreases b,
    {
        b = b - 1;
    }
    proof {
        lemma_find_non_space(s@);
        lemma_find_non_space_end(s@);
        if a == len {
            assert(find_non_space(s@) == len);
            assert(s@.subrange(a as int, b as int) =~= Seq::<char>::empty());
        } else {
            assert(a == find_non_space(s@));
            assert(b == find_non_space_end(s@));
        }
    }
    s.substring_char(a, b)
}

/// Relies on std's `String::push`: it appends the given character to the
/// end of the string. vstd gives this function no specification.
pub assume_specification[ String::push ](s: &mut String, c: char)
    ensures
        final(s)@ == old(s)@.push(c),
;

/// ASCII lowercase of one character; anything outside `A`..`Z` is kept.
pub open spec fn lower_char(c: char) -> char {
    if 'A' as u32 <= c as u32 && c as u32 <= 'Z' as u32 {
        ((c as u8) + 32) as char
    } else {
        c
    }
}

pub open spec fn lower_seq(s: Seq<char>) -> Seq<char> {
    s.map_values(|c: char| lower_char(c))
}

fn to_lower_char(c: char) -> (r: char)
    ensures
        r == lower_char(c),
{
    let cv = c as u32;
    if cv >= 65 && cv <= 90 {
        ((c as u8) + 32) as char
    } else {
        c
    }
}

/// ASCII-lowercase a string: `A`..`Z` are mapped down, all other
/// characters are kept as they are.
pub fn to_lowercase_ascii(s: &str) -> (r: String)
    ensures
        r@ == lower_seq(s@),
{
    let len = s.unicode_len();
    let mut r = String::new();
    let mut i: usize = 0;
    while i < len
        invariant
            0 <= i <= len,
            len == s@.len(),
            r@ =~= lower_seq(s@.take(i as int)),
        decreases len - i,
    {
        let c = to_lower_char(s.get_char(i));
        r.push(c);
        proof {
            assert(lower_seq(s@.take(i + 1)) =~= lower_seq(s@.take(i as int)).push(
                lower_char(s@[i as int]),
            ));
        }
        i = i + 1;
    }
    proof {
        assert(s@.take(len as int) =~= s@);
    }
    r
}

} // verus!
