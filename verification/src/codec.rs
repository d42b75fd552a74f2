//! The filename codec.
//!
//! A backup file is named by its timestamp in the fixed-width pattern
//! `YYYY-MM-DD_HH-MM-SS`, followed by `.sql` for an uncompressed dump
//! or `.sql.gz` for a compressed one. `encode` renders a timestamp
//! into such a name; `decode` reads a name back, rejecting anything
//! that does not match either pattern exactly or does not denote a
//! valid calendar moment.

use vstd::prelude::*;
use vstd::string::StrSliceExecFns;
use vstd::string::StringExecFns;
use crate::timestamp::Timestamp;
use crate::timestamp::days_in_month_exec;

verus! {

/// A directory entry's name matches neither recognized pattern.
#[derive(Clone, Copy, PartialEq, Eq, Structural, Debug)]
pub struct FilenameParseError;

/// The decimal digit character for `d` (0 through 9).
pub open spec fn digit_char(d: int) -> char {
    if d == 0 {
        '0'
    } else if d == 1 {
        '1'
    } else if d == 2 {
        '2'
    } else if d == 3 {
        '3'
    } else if d == 4 {
        '4'
    } else if d == 5 {
        '5'
    } else if d == 6 {
        '6'
    } else if d == 7 {
        '7'
    } else if d == 8 {
        '8'
    } else {
        '9'
    }
}

pub open spec fn is_digit(c: char) -> bool {
    48 <= c as int <= 57
}

pub open spec fn digit_val(c: char) -> int {
    c as int - 48
}

/// `n` rendered as exactly two decimal digits.
pub open spec fn two_digits(n: int) -> Seq<char> {
    seq![digit_char(n / 10), digit_char(n % 10)]
}

/// `n` rendered as exactly four decimal digits.
pub open spec fn four_digits(n: int) -> Seq<char> {
    two_digits(n / 100) + two_digits(n % 100)
}

/// The 19-character timestamp part, `YYYY-MM-DD_HH-MM-SS`.
pub open spec fn stamp_chars(t: Timestamp) -> Seq<char> {
    four_digits(t.year as int) + seq!['-'] + two_digits(t.month as int) + seq!['-'] + two_digits(
        t.day as int,
    ) + seq!['_'] + two_digits(t.hour as int) + seq!['-'] + two_digits(t.minute as int) + seq!['-']
        + two_digits(t.second as int)
}

/// The filename that `encode` produces for `t`.
pub open spec fn spec_encode(t: Timestamp, compressed: bool) -> Seq<char> {
    if compressed {
        stamp_chars(t) + seq!['.', 's', 'q', 'l', '.', 'g', 'z']
    } else {
        stamp_chars(t) + seq!['.', 's', 'q', 'l']
    }
}

/// The two-digit number at positions `i`, `i + 1`.
pub open spec fn parse2(s: Seq<char>, i: int) -> int {
    10 * digit_val(s[i]) + digit_val(s[i + 1])
}

/// The four-digit number at positions `i` through `i + 3`.
pub open spec fn parse4(s: Seq<char>, i: int) -> int {
    100 * parse2(s, i) + parse2(s, i + 2)
}

/// The first 19 characters have the shape `YYYY-MM-DD_HH-MM-SS`.
pub open spec fn stamp_shape_ok(s: Seq<char>) -> bool {
    &&& s.len() >= 19
    &&& is_digit(s[0])
    &&& is_digit(s[1])
    &&& is_digit(s[2])
    &&& is_digit(s[3])
    &&& s[4] == '-'
    &&& is_digit(s[5])
    &&& is_digit(s[6])
    &&& s[7] == '-'
    &&& is_digit(s[8])
    &&& is_digit(s[9])
    &&& s[10] == '_'
    &&& is_digit(s[11])
    &&& is_digit(s[12])
    &&& s[13] == '-'
    &&& is_digit(s[14])
    &&& is_digit(s[15])
    &&& s[16] == '-'
    &&& is_digit(s[17])
    &&& is_digit(s[18])
}

/// The timestamp spelled by a name of valid shape.
pub open spec fn stamp_of(s: Seq<char>) -> Timestamp {
    Timestamp {
        year: parse4(s, 0) as u32,
        month: parse2(s, 5) as u32,
        day: parse2(s, 8) as u32,
        hour: parse2(s, 11) as u32,
        minute: parse2(s, 14) as u32,
        second: parse2(s, 17) as u32,
    }
}

/// `.sql` at positions 19 through 22.
pub open spec fn sql_suffix_at(s: Seq<char>) -> bool {
    s.len() >= 23 && s[19] == '.' && s[20] == 's' && s[21] == 'q' && s[22] == 'l'
}

/// `.gz` at positions 23 through 25.
pub open spec fn gz_suffix_at(s: Seq<char>) -> bool {
    s.len() >= 26 && s[23] == '.' && s[24] == 'g' && s[25] == 'z'
}

/// What `decode` recovers from a filename: the timestamp and whether
/// the name carries the compressed suffix, or nothing when the name
/// matches neither pattern or names no valid calendar moment.
pub open spec fn spec_decode(s: Seq<char>) -> Option<(Timestamp, bool)> {
    if s.len() == 23 && stamp_shape_ok(s) && sql_suffix_at(s) && stamp_of(s).valid() {
        Some((stamp_of(s), false))
    } else if s.len() == 26 && stamp_shape_ok(s) && sql_suffix_at(s) && gz_suffix_at(s)
        && stamp_of(s).valid() {
        Some((stamp_of(s), true))
    } else {
        None
    }
}

/// The one-character string for digit `d`.
fn digit_str(d: u32) -> (r: &'static str)
    requires
        d <= 9,
    ensures
        r@ == seq![digit_char(d as int)],
{
    if d == 0 {
        let r = "0";
        proof {
            reveal_strlit("0");
            assert(r@ =~= seq![digit_char(d as int)]);
        }
        r
    } else if d == 1 {
        let r = "1";
        proof {
            reveal_strlit("1");
            assert(r@ =~= seq![digit_char(d as int)]);
        }
        r
    } else if d == 2 {
        let r = "2";
        proof {
            reveal_strlit("2");
            assert(r@ =~= seq![digit_char(d as int)]);
        }
        r
    } else if d == 3 {
        let r = "3";
        proof {
            reveal_strlit("3");
            assert(r@ =~= seq![digit_char(d as int)]);
        }
        r
    } else if d == 4 {
        let r = "4";
        proof {
            reveal_strlit("4");
            assert(r@ =~= seq![digit_char(d as int)]);
        }
        r
    } else if d == 5 {
        let r = "5";
        proof {
            reveal_strlit("5");
            assert(r@ =~= seq![digit_char(d as int)]);
        }
        r
    } else if d == 6 {
        let r = "6";
        proof {
            reveal_strlit("6");
            assert(r@ =~= seq![digit_char(d as int)]);
        }
        r
    } else if d == 7 {
        let r = "7";
        proof {
            reveal_strlit("7");
            assert(r@ =~= seq![digit_char(d as int)]);
        }
        r
    } else if d == 8 {
        let r = "8";
        proof {
            reveal_strlit("8");
            assert(r@ =~= seq![digit_char(d as int)]);
        }
        r
    } else {
        let r = "9";
        proof {
            reveal_strlit("9");
            assert(r@ =~= seq![digit_char(d as int)]);
        }
        r
    }
}

/// Appends `n` as exactly two decimal digits.
fn push_two_digits(s: &mut String, n: u32)
    requires
        n <= 99,
    ensures
        final(s)@ == old(s)@ + two_digits(n as int),
{
    s.append(digit_str(n / 10));
    s.append(digit_str(n % 10));
    proof {
        assert(s@ =~= old(s)@ + two_digits(n as int));
    }
}

/// Renders `t` as a backup filename, compressed or uncompressed.
pub fn encode(t: &Timestamp, compressed: bool) -> (r: String)
    requires
        t.valid(),
    ensures
        r@ == spec_encode(*t, compressed),
{
    let mut s = String::new();
    push_two_digits(&mut s, t.year / 100);
    push_two_digits(&mut s, t.year % 100);
    s.append("-");
    push_two_digits(&mut s, t.month);
    s.append("-");
    push_two_digits(&mut s, t.day);
    s.append("_");
    push_two_digits(&mut s, t.hour);
    s.append("-");
    push_two_digits(&mut s, t.minute);
    s.append("-");
    push_two_digits(&mut s, t.second);
    if compressed {
        s.append(".sql.gz");
        proof {
            reveal_strlit("-");
            reveal_strlit("_");
            reveal_strlit(".sql.gz");
            assert(s@ =~= spec_encode(*t, compressed));
        }
    } else {
        s.append(".sql");
        proof {
            reveal_strlit("-");
            reveal_strlit("_");
            reveal_strlit(".sql");
            assert(s@ =~= spec_encode(*t, compressed));
        }
    }
    s
}

/// The digit value at position `i`, or nothing if the character there
/// is no digit.
fn digit_at(s: &str, i: usize) -> (r: Option<u32>)
    requires
        i < s@.len(),
    ensures
        match r {
            Some(d) => is_digit(s@[i as int]) && d as int == digit_val(s@[i as int]) && d <= 9,
            None => !is_digit(s@[i as int]),
        },
{
    let c = s.get_char(i);
    let u = c as u32;
    if 48 <= u && u <= 57 {
        Some(u - 48)
    } else {
        None
    }
}

/// The two-digit number at positions `i`, `i + 1`, or nothing if
/// either character is no digit.
fn two_digits_at(s: &str, i: usize) -> (r: Option<u32>)
    requires
        i + 1 < s@.len(),
        s@.len() <= usize::MAX,
    ensures
        match r {
            Some(n) => is_digit(s@[i as int]) && is_digit(s@[i as int + 1]) && n as int == parse2(
                s@,
                i as int,
            ) && n <= 99,
            None => !(is_digit(s@[i as int]) && is_digit(s@[i as int + 1])),
        },
{
    match (digit_at(s, i), digit_at(s, i + 1)) {
        (Some(hi), Some(lo)) => Some(10 * hi + lo),
        _ => None,
    }
}

/// Reads a backup filename back into its timestamp and compression
/// flag. Succeeds exactly on names that `encode` produces from valid
/// timestamps.
pub fn decode(name: &str) -> (r: Result<(Timestamp, bool), FilenameParseError>)
    ensures
        match r {
            Ok(p) => spec_decode(name@) == Some(p),
            Err(_) => spec_decode(name@) is None,
        },
{
    let n = name.unicode_len();
    if n != 23 && n != 26 {
        return Err(FilenameParseError);
    }
    let compressed = n == 26;
    if name.get_char(4) != '-' || name.get_char(7) != '-' || name.get_char(10) != '_'
        || name.get_char(13) != '-' || name.get_char(16) != '-' {
        return Err(FilenameParseError);
    }
    if name.get_char(19) != '.' || name.get_char(20) != 's' || name.get_char(21) != 'q'
        || name.get_char(22) != 'l' {
        return Err(FilenameParseError);
    }
    if compressed {
        if name.get_char(23) != '.' || name.get_char(24) != 'g' || name.get_char(25) != 'z' {
            return Err(FilenameParseError);
        }
    }
    let year = match (two_digits_at(name, 0), two_digits_at(name, 2)) {
        (Some(hi), Some(lo)) => 100 * hi + lo,
        _ => {
            return Err(FilenameParseError);
        },
    };
    let month = match two_digits_at(name, 5) {
        Some(v) => v,
        None => {
            return Err(FilenameParseError);
        },
    };
    let day = match two_digits_at(name, 8) {
        Some(v) => v,
        None => {
            return Err(FilenameParseError);
        },
    };
    let hour = match two_digits_at(name, 11) {
        Some(v) => v,
        None => {
            return Err(FilenameParseError);
        },
    };
    let minute = match two_digits_at(name, 14) {
        Some(v) => v,
        None => {
            return Err(FilenameParseError);
        },
    };
    let second = match two_digits_at(name, 17) {
        Some(v) => v,
        None => {
            return Err(FilenameParseError);
        },
    };
    let t = Timestamp { year, month, day, hour, minute, second };
    proof {
        assert(t == stamp_of(name@));
    }
    if month < 1 || month > 12 {
        return Err(FilenameParseError);
    }
    if day < 1 || day > days_in_month_exec(year, month) {
        return Err(FilenameParseError);
    }
    if hour > 23 || minute > 59 || second > 59 {
        return Err(FilenameParseError);
    }
    Ok((t, compressed))
}

/// Digits read back give the digit written.
proof fn lemma_digit_round_trip(d: int)
    requires
        0 <= d <= 9,
    ensures
        is_digit(digit_char(d)),
        digit_val(digit_char(d)) == d,
{
}

/// Two-digit fields read back give the number written.
proof fn lemma_two_digit_round_trip(s: Seq<char>, i: int, n: int)
    requires
        0 <= n <= 99,
        0 <= i,
        i + 1 < s.len(),
        s[i] == digit_char(n / 10),
        s[i + 1] == digit_char(n % 10),
    ensures
        is_digit(s[i]),
        is_digit(s[i + 1]),
        parse2(s, i) == n,
{
    lemma_digit_round_trip(n / 10);
    lemma_digit_round_trip(n % 10);
}

/// The codec round-trip law: any valid timestamp, rendered with either
/// compression flag, decodes back to exactly that timestamp and flag.
pub proof fn lemma_codec_round_trip(t: Timestamp, compressed: bool)
    requires
        t.valid(),
    ensures
        spec_decode(spec_encode(t, compressed)) == Some((t, compressed)),
{
    let s = spec_encode(t, compressed);
    let y = t.year as int;
    assert(s.len() == if compressed { 26int } else { 23int });
    assert(s[0] == digit_char(y / 100 / 10));
    assert(s[1] == digit_char(y / 100 % 10));
    assert(s[2] == digit_char(y % 100 / 10));
    assert(s[3] == digit_char(y % 100 % 10));
    assert(s[4] == '-');
    assert(s[5] == digit_char(t.month as int / 10));
    assert(s[6] == digit_char(t.month as int % 10));
    assert(s[7] == '-');
    assert(s[8] == digit_char(t.day as int / 10));
    assert(s[9] == digit_char(t.day as int % 10));
    assert(s[10] == '_');
    assert(s[11] == digit_char(t.hour as int / 10));
    assert(s[12] == digit_char(t.hour as int % 10));
    assert(s[13] == '-');
    assert(s[14] == digit_char(t.minute as int / 10));
    assert(s[15] == digit_char(t.minute as int % 10));
    assert(s[16] == '-');
    assert(s[17] == digit_char(t.second as int / 10));
    assert(s[18] == digit_char(t.second as int % 10));
    assert(s[19] == '.');
    assert(s[20] == 's');
    assert(s[21] == 'q');
    assert(s[22] == 'l');
    if compressed {
        assert(s[23] == '.');
        assert(s[24] == 'g');
        assert(s[25] == 'z');
    }
    lemma_two_digit_round_trip(s, 0, y / 100);
    lemma_two_digit_round_trip(s, 2, y % 100);
    lemma_two_digit_round_trip(s, 5, t.month as int);
    lemma_two_digit_round_trip(s, 8, t.day as int);
    lemma_two_digit_round_trip(s, 11, t.hour as int);
    lemma_two_digit_round_trip(s, 14, t.minute as int);
    lemma_two_digit_round_trip(s, 17, t.second as int);
    assert(parse4(s, 0) == y);
    assert(stamp_of(s) == t);
}

} // verus!
