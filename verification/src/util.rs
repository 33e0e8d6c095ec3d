//! Helpers on names, versions and the clock.

use vstd::prelude::*;
pub use crate::path::path_to_relative;
use crate::text::{
    chars_of, contains, contains_seq, copy_range, find_last_from, last_from, same, split,
    split_on, views,
};

verus! {

// ---------------------------------------------------------------------------
// File name patterns
// ---------------------------------------------------------------------------

/// The extension of a file name: what follows its last `.`, unless the name
/// holds no `.`, holds its only `.` at the start, or is `..`.
pub open spec fn extension_of(name: Seq<char>) -> Option<Seq<char>> {
    let dot = last_from(name, seq!['.'], 0);
    if dot <= 0 || name == seq!['.', '.'] {
        None
    } else {
        Some(name.skip(dot + 1))
    }
}

/// Whether a file name meets one pattern. A pattern that holds `*.` stands
/// for an extension, written after its first two characters, and is met by
/// the names with that extension. Any other pattern is met by the name equal
/// to it. A name without an extension is met only by the pattern equal to it.
pub open spec fn pattern_matches(name: Seq<char>, pattern: Seq<char>) -> bool {
    match extension_of(name) {
        Some(ext) => if contains(pattern, "*."@) {
            ext == pattern.skip(2)
        } else {
            name == pattern
        },
        None => name == pattern,
    }
}

/// Whether a file name meets one of the patterns.
pub open spec fn matches_any(name: Seq<char>, patterns: Seq<Seq<char>>) -> bool {
    exists|i: int| 0 <= i < patterns.len() && #[trigger] pattern_matches(name, patterns[i])
}

/// The texts of a list of string slices.
pub open spec fn str_views(patts: Seq<&str>) -> Seq<Seq<char>> {
    patts.map_values(|p: &str| p@)
}

/// The extension of a file name.
pub fn extension(name: &[char]) -> (r: Option<Vec<char>>)
    ensures
        match r {
            Some(ext) => extension_of(name@) == Some(ext@),
            None => extension_of(name@) is None,
        },
{
    let mut dot_pat: Vec<char> = Vec::new();
    dot_pat.push('.');
    assert(dot_pat@ =~= seq!['.']);
    let is_dots = name.len() == 2 && name[0] == '.' && name[1] == '.';
    assert(is_dots == (name@ == seq!['.', '.'])) by {
        if is_dots {
            assert(name@ =~= seq!['.', '.']);
        }
    }
    match find_last_from(name, dot_pat.as_slice(), 0) {
        Some(dot) => {
            if dot == 0 || is_dots {
                None
            } else {
                assert(dot < name.len());
                Some(copy_range(name, dot + 1, name.len()))
            }
        },
        None => None,
    }
}

/// Whether a file name meets one pattern.
pub fn matches_pattern(name: &[char], pattern: &[char]) -> (r: bool)
    ensures
        r == pattern_matches(name@, pattern@),
{
    match extension(name) {
        Some(ext) => {
            let glob = chars_of("*.");
            if contains_seq(pattern, glob.as_slice()) {
                proof {
                    reveal_strlit("*.");
                    let i = choose|i: int| 0 <= i && crate::text::has_at(pattern@, "*."@, i);
                    assert(pattern@.len() >= 2);
                }
                let tail = copy_range(pattern, 2, pattern.len());
                same(ext.as_slice(), tail.as_slice())
            } else {
                same(name, pattern)
            }
        },
        None => same(name, pattern),
    }
}

/// Whether the file name `file_name` meets one of the patterns `patts`: a
/// pattern is an exact name, or `*.` and an extension.
pub fn file_pattern_match(file_name: &str, patts: &[&str]) -> (r: bool)
    ensures
        r == matches_any(file_name@, str_views(patts@)),
{
    let name = chars_of(file_name);
    let mut i: usize = 0;
    while i < patts.len()
        invariant
            i <= patts.len(),
            name@ == file_name@,
            forall|j: int|
                0 <= j < i ==> !pattern_matches(file_name@, #[trigger] str_views(patts@)[j]),
        decreases patts.len() - i,
    {
        let pattern = chars_of(patts[i]);
        assert(str_views(patts@)[i as int] == pattern@);
        if matches_pattern(name.as_slice(), pattern.as_slice()) {
            return true;
        }
        i += 1;
    }
    false
}

// ---------------------------------------------------------------------------
// Versions
// ---------------------------------------------------------------------------

/// Whether `c` is a decimal digit.
pub open spec fn is_digit(c: char) -> bool {
    '0' <= c <= '9'
}

/// The number that a text of decimal digits denotes.
pub open spec fn digits_value(s: Seq<char>) -> int
    decreases s.len(),
{
    if s.len() == 0 {
        0
    } else {
        digits_value(s.drop_last()) * 10 + (s.last() as int - '0' as int)
    }
}

/// Whether `s` holds decimal digits only.
pub open spec fn all_digits(s: Seq<char>) -> bool {
    forall|i: int| 0 <= i < s.len() ==> is_digit(#[trigger] s[i])
}

/// The 32-bit signed number that a text denotes: an optional sign `+` or `-`
/// and then at least one decimal digit, nothing else, the number within the
/// range of `i32`.
pub open spec fn parse_i32(s: Seq<char>) -> Option<int> {
    let negative = s.len() > 0 && s[0] == '-';
    let signed = s.len() > 0 && (s[0] == '-' || s[0] == '+');
    let digits = if signed {
        s.skip(1)
    } else {
        s
    };
    let value = if negative {
        -digits_value(digits)
    } else {
        digits_value(digits)
    };
    if digits.len() == 0 || !all_digits(digits) || value < i32::MIN || value > i32::MAX {
        None
    } else {
        Some(value)
    }
}

/// What the piece at index `i` of a version weighs: its number, or 0 where
/// it denotes none, and `bias`; nothing where the version has no such piece.
pub open spec fn part_weight(parts: Seq<Seq<char>>, i: int, bias: int) -> int {
    if i < parts.len() {
        (match parse_i32(parts[i]) {
            Some(v) => v,
            None => 0,
        }) + bias
    } else {
        0
    }
}

/// The weight of a version: the sum of the weights of its first three
/// pieces between dots, biased by 1000, 100 and 10.
pub open spec fn version_weight(v: Seq<char>) -> int {
    let parts = split(v, '.');
    part_weight(parts, 0, 1000) + part_weight(parts, 1, 100) + part_weight(parts, 2, 10)
}

/// The order of two versions: the weight of the second less the weight of
/// the first, limited to the range from -1 to 1.
pub open spec fn version_order(a: Seq<char>, b: Seq<char>) -> int {
    let d = version_weight(b) - version_weight(a);
    if d > 1 {
        1
    } else if d < -1 {
        -1
    } else {
        d
    }
}

proof fn lemma_digits_nonnegative(s: Seq<char>)
    requires
        all_digits(s),
    ensures
        digits_value(s) >= 0,
    decreases s.len(),
{
    if s.len() > 0 {
        assert(is_digit(s[s.len() - 1]));
        assert(all_digits(s.drop_last())) by {
            assert forall|i: int| 0 <= i < s.drop_last().len() implies is_digit(
                #[trigger] s.drop_last()[i],
            ) by {
                assert(s.drop_last()[i] == s[i]);
            }
        }
        lemma_digits_nonnegative(s.drop_last());
    }
}

/// The number of a prefix of a text of digits is not above the number of
/// the text.
proof fn lemma_digits_grow(s: Seq<char>, k: int)
    requires
        all_digits(s),
        0 <= k <= s.len(),
    ensures
        0 <= digits_value(s.take(k)) <= digits_value(s),
    decreases s.len() - k,
{
    assert(all_digits(s.take(k))) by {
        assert forall|i: int| 0 <= i < s.take(k).len() implies is_digit(
            #[trigger] s.take(k)[i],
        ) by {
            assert(s.take(k)[i] == s[i]);
        }
    }
    lemma_digits_nonnegative(s.take(k));
    if k < s.len() {
        lemma_digits_grow(s, k + 1);
        assert(s.take(k + 1).drop_last() =~= s.take(k));
        assert(is_digit(s[k]));
        assert(s.take(k + 1).last() == s[k]);
    } else {
        assert(s.take(k) =~= s);
    }
}

/// The 32-bit signed number that a text denotes.
pub fn parse_number(s: &[char]) -> (r: Option<i32>)
    ensures
        match r {
            Some(v) => parse_i32(s@) == Some(v as int),
            None => parse_i32(s@) is None,
        },
{
    let negative = s.len() > 0 && s[0] == '-';
    let signed = s.len() > 0 && (s[0] == '-' || s[0] == '+');
    let start: usize = if signed {
        1
    } else {
        0
    };
    let ghost digits = if signed {
        s@.skip(1)
    } else {
        s@
    };
    if start == s.len() {
        return None;
    }
    let mut acc: i64 = 0;
    let mut i: usize = start;
    assert(digits.take(0) =~= Seq::<char>::empty());
    while i < s.len()
        invariant
            start <= i <= s.len(),
            signed == (s@.len() > 0 && (s@[0] == '-' || s@[0] == '+')),
            start == if signed { 1usize } else { 0usize },
            digits == if signed { s@.skip(1) } else { s@ },
            digits.len() == s.len() - start,
            forall|k: int| 0 <= k < digits.len() ==> digits[k] == s@[start + k],
            all_digits(digits.take(i - start)),
            acc == digits_value(digits.take(i - start)),
            0 <= acc <= 0x8000_0000,
        decreases s.len() - i,
    {
        let c = s[i];
        let ghost next = digits.take(i + 1 - start);
        assert(next.drop_last() =~= digits.take(i - start));
        assert(next.last() == c);
        if !(c >= '0' && c <= '9') {
            assert(!is_digit(digits[i - start]));
            return None;
        }
        assert(all_digits(next)) by {
            assert forall|j: int| 0 <= j < next.len() implies is_digit(#[trigger] next[j]) by {
                if j < next.len() - 1 {
                    assert(next[j] == digits.take(i - start)[j]);
                }
            }
        }
        let d: i64 = (c as u32 - '0' as u32) as i64;
        acc = acc * 10 + d;
        if acc > 0x8000_0000 {
            proof {
                if all_digits(digits) {
                    lemma_digits_grow(digits, i + 1 - start);
                }
            }
            return None;
        }
        i += 1;
    }
    assert(digits.take(s.len() - start) =~= digits);
    if negative {
        Some((-acc) as i32)
    } else if acc > 0x7fff_ffff {
        None
    } else {
        Some(acc as i32)
    }
}

/// The weight of the piece at index `i` of a version.
fn weigh(parts: &Vec<Vec<char>>, i: usize, bias: i64) -> (r: i64)
    requires
        0 <= bias <= 1000,
    ensures
        r == part_weight(views(parts@), i as int, bias as int),
        -0x8000_0000 <= r <= 0x8000_0000 + 1000,
{
    if i < parts.len() {
        assert(views(parts@)[i as int] == parts@[i as int]@);
        match parse_number(parts[i].as_slice()) {
            Some(v) => v as i64 + bias,
            None => bias,
        }
    } else {
        0
    }
}

/// The weight of a version.
fn weight(version: &str) -> (r: i64)
    ensures
        r == version_weight(version@),
        -3 * 0x8000_0000 <= r <= 3 * (0x8000_0000 + 1000),
{
    let chars = chars_of(version);
    let parts = split_on(chars.as_slice(), '.');
    weigh(&parts, 0, 1000) + weigh(&parts, 1, 100) + weigh(&parts, 2, 10)
}

/// Orders two versions of up to three numbers between dots: 1 where
/// `version_b` weighs more than `version_a`, -1 where it weighs less, 0 where
/// they weigh the same.
pub fn compare_version(version_a: &str, version_b: &str) -> (r: i32)
    ensures
        r == version_order(version_a@, version_b@),
{
    let rv: i64 = weight(version_b) - weight(version_a);
    if rv > 1 {
        1
    } else if rv < -1 {
        -1
    } else {
        rv as i32
    }
}

// ---------------------------------------------------------------------------
// The clock
// ---------------------------------------------------------------------------

/// `std::time::SystemTime`, a reading of the clock of the system. Nothing is
/// known of what it holds.
#[verifier::external_type_specification]
#[verifier::external_body]
pub struct ExSystemTime(std::time::SystemTime);

/// `std::time::SystemTimeError`, the error of `SystemTime::duration_since`.
/// Nothing is known of what it holds.
#[verifier::external_type_specification]
#[verifier::external_body]
pub struct ExSystemTimeError(std::time::SystemTimeError);

/// `SystemTime::now` reads the clock of the system. Nothing is claimed of
/// what it returns.
pub assume_specification[ std::time::SystemTime::now ]() -> std::time::SystemTime;

/// `SystemTime::duration_since` gives the time that has passed since
/// `earlier`, or an error where `earlier` is the later of the two. Nothing is
/// claimed of what it returns.
pub assume_specification[ std::time::SystemTime::duration_since ](
    time: &std::time::SystemTime,
    earlier: std::time::SystemTime,
) -> Result<std::time::Duration, std::time::SystemTimeError>;

/// `Duration::as_millis` gives the whole milliseconds of a duration. Nothing
/// is claimed of what it returns.
pub assume_specification[ std::time::Duration::as_millis ](
    duration: &std::time::Duration,
) -> u128;

/// The constant `std::time::UNIX_EPOCH`: the start of 1970 in UTC. Nothing is
/// claimed of it.
#[verifier::external_body]
fn unix_epoch() -> std::time::SystemTime {
    std::time::UNIX_EPOCH
}

/// A number of milliseconds as 64 bits: what is left of it after division
/// by 2 to the power of 64.
pub fn millis_as_u64(millis: u128) -> (r: u64)
    ensures
        r == millis % 0x1_0000_0000_0000_0000,
{
    (millis % 0x1_0000_0000_0000_0000) as u64
}

/// The time of the system clock, in milliseconds since the start of 1970 in
/// UTC, as 64 bits; `None` where the clock shows a time before that.
pub fn get_current_time_millis() -> Option<u64> {
    let start = std::time::SystemTime::now();
    let elapsed = match start.duration_since(unix_epoch()) {
        Ok(elapsed) => Some(elapsed.as_millis()),
        Err(_) => None,
    };
    reading_as_millis(elapsed)
}

/// What a reading of the clock gives, where `elapsed` is the number of
/// milliseconds since the start of 1970 that the clock shows, or nothing where
/// it shows a time before that: the milliseconds as 64 bits, or nothing.
pub fn reading_as_millis(elapsed: Option<u128>) -> (r: Option<u64>)
    ensures
        match elapsed {
            Some(millis) => r matches Some(m) && m == millis % 0x1_0000_0000_0000_0000,
            None => r is None,
        },
{
    match elapsed {
        Some(millis) => Some(millis_as_u64(millis)),
        None => None,
    }
}

} // verus!
