//! Parsing of the host tools' output: device identifiers, sector sizes and
//! bus types as `stat`, `df` and `lsblk` print them on Linux. The calls
//! into those tools, and the fallbacks when they fail, live with the
//! caller; these functions hold only the returned text. Whitespace is
//! treated as ASCII whitespace, which is all those tools emit.

use crate::text::{
    all_digits, dec_value, find_char, find_non_space, find_space, is_space, lemma_find_char,
    lemma_find_non_space, lemma_find_space, lower_seq, parse_u64, spec_first_line,
    spec_first_token, spec_second_line, spec_trim, spec_trim_end, to_lowercase_ascii,
    trim_end_str, trim_str,
};
use vstd::prelude::*;

verus! {

/// Index of the first newline of `s`, or its length.
fn first_newline(s: &str) -> (r: usize)
    ensures
        r == find_char(s@, '\n'),
        r <= s@.len(),
{
    let len = s.unicode_len();
    let mut i: usize = 0;
    while i < len && s.get_char(i) != '\n'
        invariant
            0 <= i <= len,
            len == s@.len(),
            forall|j: int| 0 <= j < i ==> #[trigger] s@[j] != '\n',
        decreases len - i,
    {
        i = i + 1;
    }
    proof {
        lemma_find_char(s@, '\n');
    }
    i
}

/// The second line of `s`, when `s` has more than one line.
fn second_line<'a>(s: &'a str) -> (r: Option<&'a str>)
    ensures
        match r {
            Some(line) => spec_second_line(s@) == Some(line@),
            None => spec_second_line(s@) is None,
        },
{
    let len = s.unicode_len();
    let nl = first_newline(s);
    if nl == len {
        return None;
    }
    let rest = s.substring_char(nl + 1, len);
    let nl2 = first_newline(rest);
    Some(rest.substring_char(0, nl2))
}

/// A device identifier as `stat -c %D` prints it: the output with its
/// trailing newline (and any other trailing whitespace) cut off.
pub fn device_id_from_output(s: &str) -> (r: String)
    ensures
        r@ == spec_trim_end(s@),
{
    trim_end_str(s).to_owned()
}

/// The device a path is mounted from, as the second line of `df`'s output
/// names it in its first column. `None` when the output has no second line
/// or the line is blank.
pub fn device_source_from_table(s: &str) -> (r: Option<String>)
    ensures
        match r {
            Some(t) => match spec_second_line(s@) {
                Some(line) => spec_first_token(line) == Some(t@),
                None => false,
            },
            None => match spec_second_line(s@) {
                Some(line) => spec_first_token(line) is None,
                None => true,
            },
        },
{
    let line = match second_line(s) {
        Some(line) => line,
        None => {
            return None;
        },
    };
    let len = line.unicode_len();
    let mut a: usize = 0;
    while a < len && crate::text::is_space_char(line.get_char(a))
        invariant
            0 <= a <= len,
            len == line@.len(),
            forall|j: int| 0 <= j < a ==> is_space(#[trigger] line@[j]),
        decreases len - a,
    {
        a = a + 1;
    }
    proof {
        lemma_find_non_space(line@);
        assert(a == find_non_space(line@));
    }
    if a == len {
        return None;
    }
    let mut b: usize = a;
    while b < len && !crate::text::is_space_char(line.get_char(b))
        invariant
            a <= b <= len,
            len == line@.len(),
            forall|j: int| a <= j < b ==> !is_space(#[trigger] line@[j]),
        decreases len - b,
    {
        b = b + 1;
    }
    proof {
        let rest = line@.subrange(a as int, len as int);
        lemma_find_space(rest);
        let f = find_space(rest);
        assert(forall|j: int| 0 <= j < rest.len() ==> rest[j] == line@[a + j]);
        if b - a < f {
            assert(rest[b - a] == line@[b as int]);
            assert(false);
        }
        if f < b - a {
            assert(rest[f] == line@[a + f]);
            assert(false);
        }
        assert(line@.subrange(a as int, b as int) =~= rest.take(f));
    }
    Some(line.substring_char(a, b).to_owned())
}

/// A sector size as `lsblk -o PHY-SeC` prints it: the second line of the
/// output, trimmed and read as a decimal number. Anything else — a missing
/// line, a blank line, stray text, a value out of range — falls back to
/// 4096.
pub fn sector_size_from_listing(s: &str) -> (r: u64)
    ensures
        r == (match spec_second_line(s@) {
            Some(line) => {
                let t = spec_trim(line);
                if t.len() > 0 && all_digits(t) && dec_value(t) <= u64::MAX {
                    dec_value(t) as u64
                } else {
                    4096
                }
            },
            None => 4096,
        }),
{
    match second_line(s) {
        None => 4096,
        Some(line) => {
            let t = trim_str(line);
            match parse_u64(t) {
                Some(v) => v,
                None => 4096,
            }
        },
    }
}

/// A bus type as `lsblk -ndo TRAN` prints it: the first line of the
/// output, trimmed and lowercased (`"usb"`, `"sata"`, ... — empty when the
/// tool printed none).
pub fn bus_type_from_listing(s: &str) -> (r: String)
    ensures
        r@ == lower_seq(spec_trim(spec_first_line(s@))),
{
    let len = s.unicode_len();
    let nl = first_newline(s);
    let line = s.substring_char(0, nl);
    proof {
        lemma_find_char(s@, '\n');
    }
    let t = trim_str(line);
    to_lowercase_ascii(t)
}

} // verus!
