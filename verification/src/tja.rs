//! The TJA score format: how a line of a TJA file reads.
//!
//! Numbers in TJA lines are read leniently: leading white space is skipped
//! and whatever follows the number is ignored.  Integers are parsed here;
//! for decimal numbers this module finds the literal, whose conversion to a
//! floating-point value is left to the caller.
use vstd::prelude::*;
use vstd::string::StrSliceExecFns;
use vstd::string::StringExecFns;

verus! {

/// The characters of `s`, in order.
pub fn chars_of(s: &str) -> (r: Vec<char>)
    ensures
        r@ == s@,
{
    let mut r: Vec<char> = Vec::new();
    for c in it: s.chars()
        invariant
            r@ == it.seq().take(it.index() as int),
            it.seq() == s@,
        ensures
            r@ == s@,
    {
        proof {
            assert(it.seq().take(it.index() + 1) =~= it.seq().take(it.index() as int).push(c));
        }
        r.push(c);
    }
    r
}

/// White space as TJA number parsing skips it: the Unicode `White_Space` characters.
pub open spec fn is_white_space(c: char) -> bool {
    let v = c as u32;
    ||| 0x9 <= v <= 0xd
    ||| v == 0x20
    ||| v == 0x85
    ||| v == 0xa0
    ||| v == 0x1680
    ||| 0x2000 <= v <= 0x200a
    ||| v == 0x2028
    ||| v == 0x2029
    ||| v == 0x202f
    ||| v == 0x205f
    ||| v == 0x3000
}

/// An ASCII decimal digit.
pub open spec fn is_digit(c: char) -> bool {
    '0' as u32 <= c as u32 <= '9' as u32
}

/// A sign character.
pub open spec fn is_sign(c: char) -> bool {
    c == '+' || c == '-'
}

/// The exponent marker of a decimal literal, in either case.
pub open spec fn is_exponent_marker(c: char) -> bool {
    c == 'e' || c == 'E'
}

/// End of the run of white space in `s` that starts at `i`.
pub open spec fn white_space_end(s: Seq<char>, i: int) -> int
    decreases s.len() - i,
{
    if 0 <= i < s.len() && is_white_space(s[i]) {
        white_space_end(s, i + 1)
    } else {
        i
    }
}

/// End of the run of digits in `s` that starts at `i`.
pub open spec fn digits_end(s: Seq<char>, i: int) -> int
    decreases s.len() - i,
{
    if 0 <= i < s.len() && is_digit(s[i]) {
        digits_end(s, i + 1)
    } else {
        i
    }
}

/// Position after an optional sign at `i`.
pub open spec fn after_sign(s: Seq<char>, i: int) -> int {
    if 0 <= i < s.len() && is_sign(s[i]) {
        i + 1
    } else {
        i
    }
}

/// The number that a run of ASCII digits denotes.
pub open spec fn decimal_value(digits: Seq<char>) -> nat
    decreases digits.len(),
{
    if digits.len() == 0 {
        0
    } else {
        decimal_value(digits.drop_last()) * 10 + (digits.last() as u32 - '0' as u32) as nat
    }
}

/// Where the integer that `s` starts with lies: after leading white space,
/// an optional sign and at least one digit.  `Some((start, end))` spans the
/// sign and the digits.
pub open spec fn integer_literal(s: Seq<char>) -> Option<(int, int)> {
    let start = white_space_end(s, 0);
    let digits_start = after_sign(s, start);
    let end = digits_end(s, digits_start);
    if end > digits_start {
        Some((start, end))
    } else {
        None
    }
}

/// Magnitude and sign of the integer that `s` starts with.
pub open spec fn integer_prefix(s: Seq<char>) -> Option<(nat, bool)> {
    match integer_literal(s) {
        Some((start, end)) => {
            let digits_start = after_sign(s, start);
            Some((decimal_value(s.subrange(digits_start, end)), s[start] == '-'))
        },
        None => None,
    }
}

/// The unsigned integer `s` starts with, if it has one that fits in 64 bits.
pub open spec fn leading_u64(s: Seq<char>) -> Option<u64> {
    match integer_prefix(s) {
        Some((v, negative)) => if !negative && v <= u64::MAX {
            Some(v as u64)
        } else {
            None
        },
        None => None,
    }
}

/// The unsigned integer `s` starts with, if it has one that fits in 32 bits.
pub open spec fn leading_u32(s: Seq<char>) -> Option<u32> {
    match integer_prefix(s) {
        Some((v, negative)) => if !negative && v <= u32::MAX {
            Some(v as u32)
        } else {
            None
        },
        None => None,
    }
}

/// The signed integer `s` starts with, if it has one that fits in 64 bits.
pub open spec fn leading_i64(s: Seq<char>) -> Option<i64> {
    match integer_prefix(s) {
        Some((v, negative)) => if negative {
            if v <= 0x8000_0000_0000_0000 {
                Some((-(v as int)) as i64)
            } else {
                None
            }
        } else if v <= i64::MAX {
            Some(v as i64)
        } else {
            None
        },
        None => None,
    }
}

/// Where the decimal literal that `s` starts with ends, given where its
/// digits may begin: digits with a decimal point and optional fraction,
/// or a point and at least one fraction digit, or digits alone; then an
/// optional exponent that is taken only if it has digits.
pub open spec fn decimal_literal_end(s: Seq<char>, digits_start: int) -> Option<int> {
    let int_end = digits_end(s, digits_start);
    let point = 0 <= int_end < s.len() && s[int_end] == '.';
    let mantissa_end = if int_end > digits_start && point {
        Some(digits_end(s, int_end + 1))
    } else if point && digits_end(s, int_end + 1) > int_end + 1 {
        Some(digits_end(s, int_end + 1))
    } else if int_end > digits_start {
        Some(int_end)
    } else {
        None
    };
    match mantissa_end {
        Some(m) => if 0 <= m < s.len() && is_exponent_marker(s[m]) {
            let exponent_digits = after_sign(s, m + 1);
            let exponent_end = digits_end(s, exponent_digits);
            if exponent_end > exponent_digits {
                Some(exponent_end)
            } else {
                Some(m)
            }
        } else {
            Some(m)
        },
        None => None,
    }
}

/// Where the decimal number that `s` starts with lies: after leading white
/// space, an optional sign and a decimal literal.  `Some((start, end))`
/// spans the sign and the literal.
pub open spec fn decimal_literal(s: Seq<char>) -> Option<(int, int)> {
    let start = white_space_end(s, 0);
    match decimal_literal_end(s, after_sign(s, start)) {
        Some(end) => Some((start, end)),
        None => None,
    }
}

fn is_white_space_char(c: char) -> (r: bool)
    ensures
        r == is_white_space(c),
{
    let v = c as u32;
    (0x9 <= v && v <= 0xd) || v == 0x20 || v == 0x85 || v == 0xa0 || v == 0x1680 || (0x2000 <= v
        && v <= 0x200a) || v == 0x2028 || v == 0x2029 || v == 0x202f || v == 0x205f || v == 0x3000
}

fn is_digit_char(c: char) -> (r: bool)
    ensures
        r == is_digit(c),
{
    let v = c as u32;
    '0' as u32 <= v && v <= '9' as u32
}

fn skip_white_space(s: &Vec<char>, i: usize) -> (r: usize)
    requires
        i <= s@.len(),
    ensures
        r == white_space_end(s@, i as int),
        i <= r <= s@.len(),
    decreases s@.len() - i,
{
    if i < s.len() && is_white_space_char(s[i]) {
        skip_white_space(s, i + 1)
    } else {
        i
    }
}

fn skip_digits(s: &Vec<char>, i: usize) -> (r: usize)
    requires
        i <= s@.len(),
    ensures
        r == digits_end(s@, i as int),
        i <= r <= s@.len(),
        forall|k: int| i <= k < r ==> is_digit(#[trigger] s@[k]),
    decreases s@.len() - i,
{
    if i < s.len() && is_digit_char(s[i]) {
        skip_digits(s, i + 1)
    } else {
        i
    }
}

fn skip_sign(s: &Vec<char>, i: usize) -> (r: usize)
    requires
        i <= s@.len(),
    ensures
        r == after_sign(s@, i as int),
        i <= r <= s@.len(),
{
    if i < s.len() && (s[i] == '+' || s[i] == '-') {
        i + 1
    } else {
        i
    }
}

proof fn lemma_decimal_value_push(digits: Seq<char>, d: char)
    ensures
        decimal_value(digits.push(d)) == decimal_value(digits) * 10 + (d as u32 - '0' as u32) as nat,
{
    assert(digits.push(d).drop_last() =~= digits);
}

proof fn lemma_decimal_value_grows(s: Seq<char>, from: int, mid: int, to: int)
    requires
        0 <= from <= mid <= to <= s.len(),
        forall|k: int| from <= k < to ==> is_digit(#[trigger] s[k]),
    ensures
        decimal_value(s.subrange(from, mid)) <= decimal_value(s.subrange(from, to)),
    decreases to - mid,
{
    if mid < to {
        lemma_decimal_value_grows(s, from, mid, to - 1);
        assert(s.subrange(from, to) =~= s.subrange(from, to - 1).push(s[to - 1]));
        lemma_decimal_value_push(s.subrange(from, to - 1), s[to - 1]);
        assert(is_digit(s[to - 1]));
    }
}

/// The magnitude of the digits `s[from..to]`, if it fits in 64 bits.
fn digits_magnitude(s: &Vec<char>, from: usize, to: usize) -> (r: Option<u64>)
    requires
        from <= to <= s@.len(),
        forall|k: int| from <= k < to ==> is_digit(#[trigger] s@[k]),
    ensures
        r == if decimal_value(s@.subrange(from as int, to as int)) <= u64::MAX {
            Some(decimal_value(s@.subrange(from as int, to as int)) as u64)
        } else {
            None::<u64>
        },
{
    let mut acc: u64 = 0;
    let mut i = from;
    while i < to
        invariant
            from <= i <= to <= s@.len(),
            forall|k: int| from <= k < to ==> is_digit(#[trigger] s@[k]),
            acc == decimal_value(s@.subrange(from as int, i as int)),
        decreases to - i,
    {
        let d = (s[i] as u32 - '0' as u32) as u64;
        proof {
            assert(is_digit(s@[i as int]));
            assert(s@.subrange(from as int, i + 1) =~= s@.subrange(from as int, i as int).push(
                s@[i as int],
            ));
            lemma_decimal_value_push(s@.subrange(from as int, i as int), s@[i as int]);
        }
        match acc.checked_mul(10) {
            Some(t) => match t.checked_add(d) {
                Some(n) => acc = n,
                None => {
                    proof {
                        lemma_decimal_value_grows(s@, from as int, i + 1, to as int);
                    }
                    return None;
                },
            },
            None => {
                proof {
                    lemma_decimal_value_grows(s@, from as int, i + 1, to as int);
                }
                return None;
            },
        }
        i += 1;
    }
    Some(acc)
}

/// Sign and magnitude of the integer `s` starts with; the magnitude is
/// `None` when it does not fit in 64 bits.
fn integer_prefix_of(s: &Vec<char>) -> (r: Option<(Option<u64>, bool)>)
    ensures
        match integer_prefix(s@) {
            None => r is None,
            Some((v, negative)) => r == Some(
                (
                    if v <= u64::MAX {
                        Some(v as u64)
                    } else {
                        None::<u64>
                    },
                    negative,
                ),
            ),
        },
{
    let start = skip_white_space(s, 0);
    let digits_start = skip_sign(s, start);
    let end = skip_digits(s, digits_start);
    if end > digits_start {
        let magnitude = digits_magnitude(s, digits_start, end);
        Some((magnitude, s[start] == '-'))
    } else {
        None
    }
}

/// The unsigned integer that `line` starts with, after white space; `None`
/// when there is none, it has a minus sign, or it does not fit in 64 bits.
pub fn parse_first_u64(line: &str) -> (r: Option<u64>)
    ensures
        r == leading_u64(line@),
{
    let s = chars_of(line);
    match integer_prefix_of(&s) {
        Some((Some(v), false)) => Some(v),
        _ => None,
    }
}

/// The unsigned integer that `line` starts with, after white space; `None`
/// when there is none, it has a minus sign, or it does not fit in 32 bits.
pub fn parse_first_u32(line: &str) -> (r: Option<u32>)
    ensures
        r == leading_u32(line@),
{
    let s = chars_of(line);
    match integer_prefix_of(&s) {
        Some((Some(v), false)) => if v <= u32::MAX as u64 {
            Some(v as u32)
        } else {
            None
        },
        _ => None,
    }
}

/// The signed integer that `line` starts with, after white space; `None`
/// when there is none or it does not fit in 64 bits.
pub fn parse_first_i64(line: &str) -> (r: Option<i64>)
    ensures
        r == leading_i64(line@),
{
    let s = chars_of(line);
    match integer_prefix_of(&s) {
        Some((Some(v), true)) => if v <= 0x8000_0000_0000_0000u64 {
            if v == 0x8000_0000_0000_0000u64 {
                Some(i64::MIN)
            } else {
                Some(-(v as i64))
            }
        } else {
            None
        },
        Some((Some(v), false)) => if v <= i64::MAX as u64 {
            Some(v as i64)
        } else {
            None
        },
        _ => None,
    }
}

fn decimal_literal_end_of(s: &Vec<char>, digits_start: usize) -> (r: Option<usize>)
    requires
        digits_start <= s@.len(),
    ensures
        r matches Some(end) ==> decimal_literal_end(s@, digits_start as int) == Some(end as int)
            && digits_start <= end <= s@.len(),
        r is None ==> decimal_literal_end(s@, digits_start as int) is None,
{
    let int_end = skip_digits(s, digits_start);
    let point = int_end < s.len() && s[int_end] == '.';
    let mantissa_end = if int_end > digits_start && point {
        Some(skip_digits(s, int_end + 1))
    } else if point && skip_digits(s, int_end + 1) > int_end + 1 {
        Some(skip_digits(s, int_end + 1))
    } else if int_end > digits_start {
        Some(int_end)
    } else {
        None
    };
    match mantissa_end {
        Some(m) => if m < s.len() && (s[m] == 'e' || s[m] == 'E') {
            let exponent_digits = skip_sign(s, m + 1);
            let exponent_end = skip_digits(s, exponent_digits);
            if exponent_end > exponent_digits {
                Some(exponent_end)
            } else {
                Some(m)
            }
        } else {
            Some(m)
        },
        None => None,
    }
}

/// The text of the decimal number that `line` starts with, after white
/// space: an optional sign, a literal such as `3`, `3.`, `.5` or `2.5e-3`,
/// and nothing after it.
pub fn leading_decimal_literal(line: &str) -> (r: Option<&str>)
    ensures
        match decimal_literal(line@) {
            Some((start, end)) => r matches Some(text) && text@ == line@.subrange(start, end),
            None => r is None,
        },
{
    let s = chars_of(line);
    let start = skip_white_space(&s, 0);
    let digits_start = skip_sign(&s, start);
    match decimal_literal_end_of(&s, digits_start) {
        Some(end) => Some(line.substring_char(start, end)),
        None => None,
    }
}

/// Whether `s` begins with `prefix`.
pub open spec fn has_prefix(s: Seq<char>, prefix: Seq<char>) -> bool {
    prefix.len() <= s.len() && s.subrange(0, prefix.len() as int) == prefix
}

/// Whether `s` begins with `prefix`.
fn starts_with(s: &Vec<char>, prefix: &str) -> (r: bool)
    ensures
        r == has_prefix(s@, prefix@),
{
    let p = chars_of(prefix);
    if p.len() > s.len() {
        return false;
    }
    let mut i: usize = 0;
    while i < p.len()
        invariant
            p@ == prefix@,
            p@.len() <= s@.len(),
            i <= p@.len(),
            forall|k: int| 0 <= k < i ==> s@[k] == p@[k],
        decreases p@.len() - i,
    {
        if s[i] != p[i] {
            assert(s@.subrange(0, p@.len() as int)[i as int] != p@[i as int]);
            return false;
        }
        i += 1;
    }
    assert(s@.subrange(0, p@.len() as int) =~= p@);
    true
}

/// First position at or after `i` where `s` holds `c`, or the length of `s`.
pub open spec fn find_char(s: Seq<char>, c: char, i: int) -> int
    decreases s.len() - i,
{
    if i < 0 || i >= s.len() {
        s.len() as int
    } else if s[i] == c {
        i
    } else {
        find_char(s, c, i + 1)
    }
}

fn find_char_from(s: &Vec<char>, c: char, i: usize) -> (r: usize)
    requires
        i <= s@.len(),
    ensures
        r == find_char(s@, c, i as int),
        i <= r <= s@.len(),
    decreases s@.len() - i,
{
    if i >= s.len() {
        s.len()
    } else if s[i] == c {
        i
    } else {
        find_char_from(s, c, i + 1)
    }
}

/// The text of `line` from position `from` up to position `to`.
fn text_between(line: &str, from: usize, to: usize) -> (r: String)
    requires
        from <= to <= line@.len(),
    ensures
        r@ == line@.subrange(from as int, to as int),
{
    String::from_str(line.substring_char(from, to))
}

/// Which side of the drum a score is for.
#[derive(Debug)]
pub enum Player {
    Single,
    Double1P,
    Double2P,
}

impl Default for Player {
    fn default() -> (r: Self)
        ensures
            r is Single,
    {
        Self::Single
    }
}

/// How a subtitle is shown.
#[derive(Debug)]
pub enum SubtitleStyle {
    Unspecified,
    Suppress,
    Show,
}

/// A song's subtitle.
#[derive(Debug)]
pub struct Subtitle {
    pub text: String,
    pub style: SubtitleStyle,
}

/// What one line of a TJA file's header says.
#[derive(Debug)]
pub enum MetadataLine {
    /// `#START`: the score follows.
    Start(Player),
    Title(String),
    Subtitle(Subtitle),
    /// `LEVEL:`, which is not supported.
    Level,
    /// `BPM:` and the decimal literal it gives, if any.
    Bpm(Option<String>),
    Wave(String),
    /// `OFFSET:` and the decimal literal it gives, if any.
    Offset(Option<String>),
    /// `BALLOON:` and the hit quotas it lists.
    Balloon(Vec<u64>),
    /// `SONGVOL:` and its value, at most `MAX_VOLUME`.
    SongVolume(Option<u32>),
    /// `SEVOL:` and its value, at most `MAX_VOLUME`.
    SeVolume(Option<u32>),
    /// A known key that is not supported.
    Unsupported(String),
    /// `KEY:VALUE` with a key that is not known.
    UnknownKey(String),
    /// Anything else.
    Other,
}

/// The loudest volume a header may set.
pub const MAX_VOLUME: u32 = 5000;

/// A volume read from a header line, capped at `MAX_VOLUME`.
pub open spec fn capped_volume(v: Option<u32>) -> Option<u32> {
    match v {
        Some(v) => Some(if v < MAX_VOLUME {
            v
        } else {
            MAX_VOLUME
        }),
        None => None,
    }
}

/// The text of the decimal literal that `s` starts with, if any.
pub open spec fn decimal_literal_text(s: Seq<char>) -> Option<Seq<char>> {
    match decimal_literal(s) {
        Some((start, end)) => Some(s.subrange(start, end)),
        None => None,
    }
}

/// The balloon quotas listed in `s` from position `start` on: the leading
/// unsigned integer of each comma-separated item, skipping items without one.
pub open spec fn quota_list(s: Seq<char>, start: int) -> Seq<u64>
    decreases s.len() - start,
    when 0 <= start <= s.len()
{
    let comma = find_char(s, ',', start);
    let head = match leading_u64(s.subrange(start, comma)) {
        Some(v) => seq![v],
        None => Seq::<u64>::empty(),
    };
    if comma < s.len() {
        proof {
            lemma_find_char_bounds(s, ',', start);
        }
        head + quota_list(s, comma + 1)
    } else {
        head
    }
}

/// The known but unsupported key that `l` starts with, if any.
pub open spec fn unsupported_key(l: Seq<char>) -> Option<Seq<char>> {
    if false {
        None
    } else if has_prefix(l, "SCOREINIT:"@) {
        Some("SCOREINIT"@)
    } else if has_prefix(l, "SCOREDIFF:"@) {
        Some("SCOREDIFF"@)
    } else if has_prefix(l, "COURSE:"@) {
        Some("COURSE"@)
    } else if has_prefix(l, "STYLE:"@) {
        Some("STYLE"@)
    } else if has_prefix(l, "GAME:"@) {
        Some("GAME"@)
    } else if has_prefix(l, "LIFE:"@) {
        Some("LIFE"@)
    } else if has_prefix(l, "DEMOSTART:"@) {
        Some("DEMOSTART"@)
    } else if has_prefix(l, "SIDE:"@) {
        Some("SIDE"@)
    } else if has_prefix(l, "SCOREMODE:"@) {
        Some("SCOREMODE"@)
    } else if has_prefix(l, "TOTAL:"@) {
        Some("TOTAL"@)
    } else {
        None
    }
}

/// The characters of decimal digits.
pub open spec fn digit_chars(digits: Seq<u32>) -> Seq<char> {
    digits.map_values(|d: u32| (('0' as u32) + d) as char)
}

proof fn lemma_digits_end_all_digits(s: Seq<char>, i: int)
    requires
        0 <= i <= s.len(),
        forall|j: int| i <= j < s.len() ==> is_digit(#[trigger] s[j]),
    ensures
        digits_end(s, i) == s.len(),
    decreases s.len() - i,
{
    if i < s.len() {
        lemma_digits_end_all_digits(s, i + 1);
    }
}

proof fn lemma_decimal_value_of_digits(digits: Seq<u32>)
    requires
        forall|i: int| 0 <= i < digits.len() ==> #[trigger] digits[i] < 10,
    ensures
        decimal_value(digit_chars(digits)) == crate::utils::digits_value(digits),
    decreases digits.len(),
{
    if digits.len() > 0 {
        assert(digit_chars(digits).drop_last() =~= digit_chars(digits.drop_last()));
        lemma_decimal_value_of_digits(digits.drop_last());
        let d = digits.last();
        assert(d < 10);
        assert(digit_chars(digits).last() == (('0' as u32) + d) as char);
        assert(((('0' as u32) + d) as char) as u32 == ('0' as u32) + d);
    }
}

/// Law: the decimal digits of a number, written as characters, read back
/// as that number.
pub proof fn lemma_digits_read_back_as_integer(n: u64)
    ensures
        leading_u64(digit_chars(crate::utils::decimal_digits(n as nat))) == Some(n),
{
    let digits = crate::utils::decimal_digits(n as nat);
    crate::utils::lemma_decimal_digits_read_back(n as nat);
    let s = digit_chars(digits);
    assert forall|j: int| 0 <= j < s.len() implies is_digit(#[trigger] s[j]) by {
        assert(digits[j] < 10);
        assert(s[j] as u32 == ('0' as u32) + digits[j]);
    }
    assert(is_digit(s[0]));
    assert(!is_white_space(s[0]));
    assert(white_space_end(s, 0) == 0);
    assert(after_sign(s, 0) == 0);
    lemma_digits_end_all_digits(s, 0);
    lemma_decimal_value_of_digits(digits);
    assert(s.subrange(0, s.len() as int) =~= s);
}

/// `find_char` stays within the searched range.
pub proof fn lemma_find_char_bounds(s: Seq<char>, c: char, i: int)
    requires
        0 <= i <= s.len(),
    ensures
        i <= find_char(s, c, i) <= s.len(),
    decreases s.len() - i,
{
    if i < s.len() && s[i] != c {
        lemma_find_char_bounds(s, c, i + 1);
    }
}

fn quotas_from(line: &str, s: &Vec<char>, start: usize) -> (r: Vec<u64>)
    requires
        s@ == line@,
        start <= s@.len(),
    ensures
        r@ == quota_list(s@, start as int),
    decreases s@.len() - start,
{
    let comma = find_char_from(s, ',', start);
    let piece = line.substring_char(start, comma);
    let mut head: Vec<u64> = Vec::new();
    match parse_first_u64(piece) {
        Some(v) => head.push(v),
        None => {},
    }
    if comma < s.len() {
        let mut rest = quotas_from(line, s, comma + 1);
        head.append(&mut rest);
    }
    head
}

/// What a header line of a TJA file says.  Keys are matched at the start
/// of the line, in a fixed order; `#START` ends the header.  A `#START`
/// line always starts a single-player score: the player number after it
/// (`P1`, `P2`) is not read, as the game has always done.
pub fn parse_metadata_line(line: &str) -> (r: MetadataLine)
    ensures
        ({
            let l = line@;
            if has_prefix(l, "#START"@) {
                r matches MetadataLine::Start(Player::Single)
            } else if has_prefix(l, "TITLE:"@) {
                r matches MetadataLine::Title(t) && t@ == l.skip("TITLE:"@.len() as int)
            } else if has_prefix(l, "SUBTITLE:"@) {
                let rest = l.skip("SUBTITLE:"@.len() as int);
                r matches MetadataLine::Subtitle(sub) && if has_prefix(rest, "--"@) {
                    sub.text@ == rest.skip("--"@.len() as int) && sub.style is Suppress
                } else if has_prefix(rest, "++"@) {
                    sub.text@ == rest.skip("++"@.len() as int) && sub.style is Show
                } else {
                    sub.text@ == rest && sub.style is Unspecified
                }
            } else if has_prefix(l, "LEVEL:"@) {
                r is Level
            } else if has_prefix(l, "BPM:"@) {
                r matches MetadataLine::Bpm(v) && match decimal_literal_text(l.skip("BPM:"@.len() as int)) {
                    Some(t) => v matches Some(text) && text@ == t,
                    None => v is None,
                }
            } else if has_prefix(l, "WAVE:"@) {
                r matches MetadataLine::Wave(w) && w@ == l.skip("WAVE:"@.len() as int)
            } else if has_prefix(l, "OFFSET:"@) {
                r matches MetadataLine::Offset(v) && match decimal_literal_text(l.skip("OFFSET:"@.len() as int)) {
                    Some(t) => v matches Some(text) && text@ == t,
                    None => v is None,
                }
            } else if has_prefix(l, "BALLOON:"@) {
                r matches MetadataLine::Balloon(q) && q@ == quota_list(l, "BALLOON:"@.len() as int)
            } else if has_prefix(l, "SONGVOL:"@) {
                r == MetadataLine::SongVolume(capped_volume(leading_u32(l.skip("SONGVOL:"@.len() as int))))
            } else if has_prefix(l, "SEVOL:"@) {
                r == MetadataLine::SeVolume(capped_volume(leading_u32(l.skip("SEVOL:"@.len() as int))))
            } else if unsupported_key(l) is Some {
                r matches MetadataLine::Unsupported(k) && k@ == unsupported_key(l).unwrap()
            } else if find_char(l, ':', 0) < l.len() {
                r matches MetadataLine::UnknownKey(k) && k@ == l.subrange(0, find_char(l, ':', 0))
            } else {
                r is Other
            }
        }),
{
    let s = chars_of(line);
    let len = s.len();
    if starts_with(&s, "#START") {
        MetadataLine::Start(Player::Single)
    } else if starts_with(&s, "TITLE:") {
        MetadataLine::Title(text_between(line, "TITLE:".unicode_len(), len))
    } else if starts_with(&s, "SUBTITLE:") {
        let from = "SUBTITLE:".unicode_len();
        let rest_line = line.substring_char(from, len);
        let rest = chars_of(rest_line);
        let rest_len = rest.len();
        if starts_with(&rest, "--") {
            MetadataLine::Subtitle(
                Subtitle {
                    text: text_between(rest_line, "--".unicode_len(), rest_len),
                    style: SubtitleStyle::Suppress,
                },
            )
        } else if starts_with(&rest, "++") {
            MetadataLine::Subtitle(
                Subtitle {
                    text: text_between(rest_line, "++".unicode_len(), rest_len),
                    style: SubtitleStyle::Show,
                },
            )
        } else {
            MetadataLine::Subtitle(
                Subtitle { text: String::from_str(rest_line), style: SubtitleStyle::Unspecified },
            )
        }
    } else if starts_with(&s, "LEVEL:") {
        MetadataLine::Level
    } else if starts_with(&s, "BPM:") {
        let rest = line.substring_char("BPM:".unicode_len(), len);
        MetadataLine::Bpm(
            match leading_decimal_literal(rest) {
                Some(t) => Some(String::from_str(t)),
                None => None,
            },
        )
    } else if starts_with(&s, "WAVE:") {
        MetadataLine::Wave(text_between(line, "WAVE:".unicode_len(), len))
    } else if starts_with(&s, "OFFSET:") {
        let rest = line.substring_char("OFFSET:".unicode_len(), len);
        MetadataLine::Offset(
            match leading_decimal_literal(rest) {
                Some(t) => Some(String::from_str(t)),
                None => None,
            },
        )
    } else if starts_with(&s, "BALLOON:") {
        MetadataLine::Balloon(quotas_from(line, &s, "BALLOON:".unicode_len()))
    } else if starts_with(&s, "SONGVOL:") {
        let v = parse_first_u32(line.substring_char("SONGVOL:".unicode_len(), len));
        MetadataLine::SongVolume(cap_volume(v))
    } else if starts_with(&s, "SEVOL:") {
        let v = parse_first_u32(line.substring_char("SEVOL:".unicode_len(), len));
        MetadataLine::SeVolume(cap_volume(v))
    } else if starts_with(&s, "SCOREINIT:") {
        MetadataLine::Unsupported(String::from_str("SCOREINIT"))
    } else if starts_with(&s, "SCOREDIFF:") {
        MetadataLine::Unsupported(String::from_str("SCOREDIFF"))
    } else if starts_with(&s, "COURSE:") {
        MetadataLine::Unsupported(String::from_str("COURSE"))
    } else if starts_with(&s, "STYLE:") {
        MetadataLine::Unsupported(String::from_str("STYLE"))
    } else if starts_with(&s, "GAME:") {
        MetadataLine::Unsupported(String::from_str("GAME"))
    } else if starts_with(&s, "LIFE:") {
        MetadataLine::Unsupported(String::from_str("LIFE"))
    } else if starts_with(&s, "DEMOSTART:") {
        MetadataLine::Unsupported(String::from_str("DEMOSTART"))
    } else if starts_with(&s, "SIDE:") {
        MetadataLine::Unsupported(String::from_str("SIDE"))
    } else if starts_with(&s, "SCOREMODE:") {
        MetadataLine::Unsupported(String::from_str("SCOREMODE"))
    } else if starts_with(&s, "TOTAL:") {
        MetadataLine::Unsupported(String::from_str("TOTAL"))
    } else {
        let colon = find_char_from(&s, ':', 0);
        if colon < len {
            MetadataLine::UnknownKey(text_between(line, 0, colon))
        } else {
            MetadataLine::Other
        }
    }
}

fn cap_volume(v: Option<u32>) -> (r: Option<u32>)
    ensures
        r == capped_volume(v),
{
    match v {
        Some(v) => Some(if v < MAX_VOLUME {
            v
        } else {
            MAX_VOLUME
        }),
        None => None,
    }
}

/// Where a `//` comment starts in `s`, or the length of `s`.
pub open spec fn comment_start(s: Seq<char>, i: int) -> int
    decreases s.len() - i,
{
    if i < 0 || i + 1 >= s.len() {
        s.len() as int
    } else if s[i] == '/' && s[i + 1] == '/' {
        i
    } else {
        comment_start(s, i + 1)
    }
}

fn comment_start_from(s: &Vec<char>, i: usize) -> (r: usize)
    requires
        i <= s@.len(),
    ensures
        r == comment_start(s@, i as int),
        r <= s@.len(),
    decreases s@.len() - i,
{
    if i >= s.len() || i + 1 >= s.len() {
        s.len()
    } else if s[i] == '/' && s[i + 1] == '/' {
        i
    } else {
        comment_start_from(s, i + 1)
    }
}

/// The digits of `s`, in order.
pub open spec fn digits_in(s: Seq<char>) -> Seq<char>
    decreases s.len(),
{
    if s.len() == 0 {
        Seq::empty()
    } else {
        digits_in(s.drop_last()) + if is_digit(s.last()) {
            seq![s.last()]
        } else {
            Seq::<char>::empty()
        }
    }
}

fn collect_digits(s: &Vec<char>, to: usize) -> (r: Vec<char>)
    requires
        to <= s@.len(),
    ensures
        r@ == digits_in(s@.take(to as int)),
{
    let mut r: Vec<char> = Vec::new();
    let mut i: usize = 0;
    while i < to
        invariant
            i <= to <= s@.len(),
            r@ == digits_in(s@.take(i as int)),
        decreases to - i,
    {
        proof {
            assert(s@.take(i + 1).drop_last() =~= s@.take(i as int));
            assert(s@.take(i + 1).last() == s@[i as int]);
        }
        if is_digit_char(s[i]) {
            r.push(s[i]);
        }
        i += 1;
    }
    r
}

/// What one line of a TJA score says.
#[derive(Debug)]
pub enum ScoreLine {
    /// `#END`: the score is over.
    End,
    /// `#BPMCHANGE` and the decimal literal of the new tempo, if any.
    BpmChange(Option<String>),
    /// `#GOGOSTART` (true) or `#GOGOEND` (false).
    Gogo(bool),
    /// `#MEASURE x/y` and the decimal literals of `x` and `y`, if the line
    /// has exactly one `/` and both parts start with a number.
    Measure(Option<(String, String)>),
    /// `#SCROLL` and the decimal literal of the scroll speed, if any.
    Scroll(Option<String>),
    /// `#DELAY` and the decimal literal of the delay, if any.
    Delay(Option<String>),
    /// `#BRANCHSTART` and its condition text.
    BranchStart(String),
    BranchEnd,
    /// `#N`, `#E` or `#M`.
    BranchSwitch(crate::structs::BranchType),
    Section,
    LevelHold,
    /// `#BARLINEON` (true) or `#BARLINEOFF` (false).
    BarLine(bool),
    /// Note digits up to the first comma; `measure_end` says whether a comma
    /// ends the measure; `unknown_command` marks a `#` line of no known command.
    Notes { digits: Vec<char>, measure_end: bool, unknown_command: bool },
}

/// The decimal literals of the two parts of `x/y`, when `s` holds exactly one `/`.
pub open spec fn measure_parts(s: Seq<char>) -> Option<(Seq<char>, Seq<char>)> {
    let slash = find_char(s, '/', 0);
    if slash < s.len() && find_char(s, '/', slash + 1) == s.len() {
        match (decimal_literal_text(s.subrange(0, slash)), decimal_literal_text(s.skip(slash + 1))) {
            (Some(x), Some(y)) => Some((x, y)),
            _ => None,
        }
    } else {
        None
    }
}

/// `Some` of the text of a decimal literal, as a `String`.
fn literal_string(text: Option<&str>) -> (r: Option<String>)
    ensures
        match text {
            Some(t) => r matches Some(s) && s@ == t@,
            None => r is None,
        },
{
    match text {
        Some(t) => Some(String::from_str(t)),
        None => None,
    }
}

fn parse_measure(line: &str) -> (r: Option<(String, String)>)
    ensures
        match measure_parts(line@) {
            Some((x, y)) => r matches Some((a, b)) && a@ == x && b@ == y,
            None => r is None,
        },
{
    let s = chars_of(line);
    let len = s.len();
    let slash = find_char_from(&s, '/', 0);
    if slash < len && find_char_from(&s, '/', slash + 1) == len {
        let x = leading_decimal_literal(line.substring_char(0, slash));
        let y = leading_decimal_literal(line.substring_char(slash + 1, len));
        proof {
            assert(line@.subrange(slash + 1, len as int) =~= line@.skip(slash + 1));
        }
        match (literal_string(x), literal_string(y)) {
            (Some(a), Some(b)) => Some((a, b)),
            _ => None,
        }
    } else {
        None
    }
}

/// What a line of a TJA score says.  A `//` comment is cut off first;
/// commands are matched at the start of the line, in a fixed order; any
/// other line holds note digits.
pub fn parse_score_line(line: &str) -> (r: ScoreLine)
    ensures
        ({
            let l = line@.take(comment_start(line@, 0));
            if has_prefix(l, "#END"@) {
                r is End
            } else if has_prefix(l, "#BPMCHANGE"@) {
                r matches ScoreLine::BpmChange(v) && match decimal_literal_text(l.skip("#BPMCHANGE"@.len() as int)) {
                    Some(t) => v matches Some(text) && text@ == t,
                    None => v is None,
                }
            } else if has_prefix(l, "#GOGOSTART"@) {
                r matches ScoreLine::Gogo(true)
            } else if has_prefix(l, "#GOGOEND"@) {
                r matches ScoreLine::Gogo(false)
            } else if has_prefix(l, "#MEASURE"@) {
                r matches ScoreLine::Measure(v) && match measure_parts(l.skip("#MEASURE"@.len() as int)) {
                    Some((x, y)) => v matches Some((a, b)) && a@ == x && b@ == y,
                    None => v is None,
                }
            } else if has_prefix(l, "#SCROLL"@) {
                r matches ScoreLine::Scroll(v) && match decimal_literal_text(l.skip("#SCROLL"@.len() as int)) {
                    Some(t) => v matches Some(text) && text@ == t,
                    None => v is None,
                }
            } else if has_prefix(l, "#DELAY"@) {
                r matches ScoreLine::Delay(v) && match decimal_literal_text(l.skip("#DELAY"@.len() as int)) {
                    Some(t) => v matches Some(text) && text@ == t,
                    None => v is None,
                }
            } else if has_prefix(l, "#BRANCHSTART"@) {
                r matches ScoreLine::BranchStart(c) && c@ == l.skip("#BRANCHSTART"@.len() as int)
            } else if has_prefix(l, "#BRANCHEND"@) {
                r is BranchEnd
            } else if has_prefix(l, "#N"@) {
                r matches ScoreLine::BranchSwitch(crate::structs::BranchType::Normal)
            } else if has_prefix(l, "#E"@) {
                r matches ScoreLine::BranchSwitch(crate::structs::BranchType::Expert)
            } else if has_prefix(l, "#M"@) {
                r matches ScoreLine::BranchSwitch(crate::structs::BranchType::Master)
            } else if has_prefix(l, "#SECTION"@) {
                r is Section
            } else if has_prefix(l, "#LEVELHOLD"@) {
                r is LevelHold
            } else if has_prefix(l, "#BARLINEON"@) {
                r matches ScoreLine::BarLine(true)
            } else if has_prefix(l, "#BARLINEOFF"@) {
                r matches ScoreLine::BarLine(false)
            } else {
                let comma = find_char(l, ',', 0);
                r matches ScoreLine::Notes { digits, measure_end, unknown_command } && digits@
                    == digits_in(l.take(comma)) && measure_end == (comma < l.len())
                    && unknown_command == (l.len() > 0 && l[0] == '#')
            }
        }),
{
    let full = chars_of(line);
    let cut = comment_start_from(&full, 0);
    let code = line.substring_char(0, cut);
    let s = chars_of(code);
    proof {
        assert(code@ =~= line@.take(comment_start(line@, 0)));
    }
    let len = s.len();
    if starts_with(&s, "#END") {
        ScoreLine::End
    } else if starts_with(&s, "#BPMCHANGE") {
        ScoreLine::BpmChange(
            literal_string(leading_decimal_literal(code.substring_char("#BPMCHANGE".unicode_len(), len))),
        )
    } else if starts_with(&s, "#GOGOSTART") {
        ScoreLine::Gogo(true)
    } else if starts_with(&s, "#GOGOEND") {
        ScoreLine::Gogo(false)
    } else if starts_with(&s, "#MEASURE") {
        ScoreLine::Measure(parse_measure(code.substring_char("#MEASURE".unicode_len(), len)))
    } else if starts_with(&s, "#SCROLL") {
        ScoreLine::Scroll(
            literal_string(leading_decimal_literal(code.substring_char("#SCROLL".unicode_len(), len))),
        )
    } else if starts_with(&s, "#DELAY") {
        ScoreLine::Delay(
            literal_string(leading_decimal_literal(code.substring_char("#DELAY".unicode_len(), len))),
        )
    } else if starts_with(&s, "#BRANCHSTART") {
        ScoreLine::BranchStart(text_between(code, "#BRANCHSTART".unicode_len(), len))
    } else if starts_with(&s, "#BRANCHEND") {
        ScoreLine::BranchEnd
    } else if starts_with(&s, "#N") {
        ScoreLine::BranchSwitch(crate::structs::BranchType::Normal)
    } else if starts_with(&s, "#E") {
        ScoreLine::BranchSwitch(crate::structs::BranchType::Expert)
    } else if starts_with(&s, "#M") {
        ScoreLine::BranchSwitch(crate::structs::BranchType::Master)
    } else if starts_with(&s, "#SECTION") {
        ScoreLine::Section
    } else if starts_with(&s, "#LEVELHOLD") {
        ScoreLine::LevelHold
    } else if starts_with(&s, "#BARLINEON") {
        ScoreLine::BarLine(true)
    } else if starts_with(&s, "#BARLINEOFF") {
        ScoreLine::BarLine(false)
    } else {
        let comma = find_char_from(&s, ',', 0);
        let digits = collect_digits(&s, comma);
        ScoreLine::Notes {
            digits,
            measure_end: comma < len,
            unknown_command: len > 0 && s[0] == '#',
        }
    }
}

/// A branch condition as written: what is measured and the expert and
/// master thresholds.  Precision thresholds are decimal literals.
#[derive(Debug)]
pub enum BranchConditionText {
    Renda(i64, i64),
    Score(i64, i64),
    Precision(String, String),
}

/// The smaller of two positions.
pub open spec fn first_of(a: int, b: int) -> int {
    if a <= b {
        a
    } else {
        b
    }
}

/// Where the condition's kind letter is and what it says: the first `r`/`R`
/// marks a drumroll condition, otherwise the first `s`/`S` a score
/// condition, otherwise the condition is on precision and starts at 0.
pub open spec fn condition_kind(s: Seq<char>) -> (int, u8) {
    let r = first_of(find_char(s, 'r', 0), find_char(s, 'R', 0));
    let sc = first_of(find_char(s, 's', 0), find_char(s, 'S', 0));
    if r < s.len() {
        (r, 0)
    } else if sc < s.len() {
        (sc, 1)
    } else {
        (0, 2)
    }
}

/// The two threshold texts of a condition: after the first comma that
/// follows the kind letter, the text up to the next comma and the rest.
pub open spec fn condition_thresholds(s: Seq<char>) -> Option<(Seq<char>, Seq<char>)> {
    let rest = s.skip(condition_kind(s).0);
    let comma = find_char(rest, ',', 0);
    if comma < rest.len() {
        let values = rest.skip(comma + 1);
        let second = find_char(values, ',', 0);
        if second < values.len() {
            Some((values.take(second), values.skip(second + 1)))
        } else {
            None
        }
    } else {
        None
    }
}

fn first_position(a: usize, b: usize) -> (r: usize)
    ensures
        r == first_of(a as int, b as int),
{
    if a <= b {
        a
    } else {
        b
    }
}

/// Reads the condition of `#BRANCHSTART`.  Fails when the condition lacks
/// its two comma-separated thresholds or a threshold does not start with a
/// number of the kind the condition needs.
pub fn parse_branch_condition(condition: &str) -> (r: Result<BranchConditionText, ()>)
    ensures
        match condition_thresholds(condition@) {
            None => r is Err,
            Some((x, y)) => match condition_kind(condition@).1 {
                0 => match (leading_i64(x), leading_i64(y)) {
                    (Some(e), Some(m)) => r == Ok::<BranchConditionText, ()>(
                        BranchConditionText::Renda(e, m),
                    ),
                    _ => r is Err,
                },
                1 => match (leading_i64(x), leading_i64(y)) {
                    (Some(e), Some(m)) => r == Ok::<BranchConditionText, ()>(
                        BranchConditionText::Score(e, m),
                    ),
                    _ => r is Err,
                },
                _ => match (decimal_literal_text(x), decimal_literal_text(y)) {
                    (Some(e), Some(m)) => r matches Ok(BranchConditionText::Precision(a, b)) && a@
                        == e && b@ == m,
                    _ => r is Err,
                },
            },
        },
{
    let s = chars_of(condition);
    let len = s.len();
    let rpos = first_position(find_char_from(&s, 'r', 0), find_char_from(&s, 'R', 0));
    let spos = first_position(find_char_from(&s, 's', 0), find_char_from(&s, 'S', 0));
    let (start, kind): (usize, u8) = if rpos < len {
        (rpos, 0)
    } else if spos < len {
        (spos, 1)
    } else {
        (0, 2)
    };
    let rest_str = condition.substring_char(start, len);
    let rest = chars_of(rest_str);
    proof {
        assert(rest@ =~= condition@.skip(start as int));
    }
    let comma = find_char_from(&rest, ',', 0);
    if comma >= rest.len() {
        return Err(());
    }
    let values_str = rest_str.substring_char(comma + 1, rest.len());
    let values = chars_of(values_str);
    proof {
        assert(values@ =~= rest@.skip(comma + 1));
    }
    let second = find_char_from(&values, ',', 0);
    if second >= values.len() {
        return Err(());
    }
    let x = values_str.substring_char(0, second);
    let y = values_str.substring_char(second + 1, values.len());
    proof {
        assert(x@ =~= values@.take(second as int));
        assert(y@ =~= values@.skip(second + 1));
    }
    if kind == 2 {
        match (literal_string(leading_decimal_literal(x)), literal_string(leading_decimal_literal(y))) {
            (Some(a), Some(b)) => Ok(BranchConditionText::Precision(a, b)),
            _ => Err(()),
        }
    } else {
        match (parse_first_i64(x), parse_first_i64(y)) {
            (Some(e), Some(m)) => if kind == 0 {
                Ok(BranchConditionText::Renda(e, m))
            } else {
                Ok(BranchConditionText::Score(e, m))
            },
            _ => Err(()),
        }
    }
}

proof fn lemma_find_char_first(s: Seq<char>, c: char, i: int)
    requires
        0 <= i <= s.len(),
    ensures
        i <= find_char(s, c, i) <= s.len(),
        find_char(s, c, i) < s.len() ==> s[find_char(s, c, i)] == c,
        forall|k: int| i <= k < find_char(s, c, i) ==> s[k] != c,
    decreases s.len() - i,
{
    if i < s.len() && s[i] != c {
        lemma_find_char_first(s, c, i + 1);
    }
}

/// Whether `x` is `r` or `R`.
pub open spec fn is_r_letter(x: char) -> bool {
    x == 'r' || x == 'R'
}

/// Whether `x` is `s` or `S`.
pub open spec fn is_s_letter(x: char) -> bool {
    x == 's' || x == 'S'
}

/// Law: the kind of a branch condition is read from its letters, in either
/// case.  Where the condition holds an `r` or `R`, the first of them marks a
/// drumroll condition; where it holds none but an `s` or `S`, the first of
/// those marks a score condition; where it holds none of the four, it is a
/// precision condition read from its start.
pub proof fn lemma_condition_kind_letters(s: Seq<char>, j: int)
    ensures
        0 <= j < s.len() && is_r_letter(s[j]) && (forall|k: int|
            0 <= k < j ==> !is_r_letter(#[trigger] s[k])) ==> condition_kind(s) == (j, 0u8),
        0 <= j < s.len() && is_s_letter(s[j]) && (forall|k: int|
            0 <= k < s.len() ==> !is_r_letter(#[trigger] s[k])) && (forall|k: int|
            0 <= k < j ==> !is_s_letter(#[trigger] s[k])) ==> condition_kind(s) == (j, 1u8),
        (forall|k: int|
            0 <= k < s.len() ==> !is_r_letter(#[trigger] s[k]) && !is_s_letter(s[k]))
            ==> condition_kind(s) == (0int, 2u8),
{
    lemma_find_char_first(s, 'r', 0);
    lemma_find_char_first(s, 'R', 0);
    lemma_find_char_first(s, 's', 0);
    lemma_find_char_first(s, 'S', 0);
    let r1 = find_char(s, 'r', 0);
    let r2 = find_char(s, 'R', 0);
    let s1 = find_char(s, 's', 0);
    let s2 = find_char(s, 'S', 0);
    if r1 < s.len() {
        assert(is_r_letter(s[r1]));
    }
    if r2 < s.len() {
        assert(is_r_letter(s[r2]));
    }
    if s1 < s.len() {
        assert(is_s_letter(s[s1]));
    }
    if s2 < s.len() {
        assert(is_s_letter(s[s2]));
    }
}

/// Law: after the kind letter of a branch condition, the first comma opens
/// the thresholds: the expert threshold runs to the next comma and the
/// master threshold is all the rest.  Without two commas there, the
/// condition has no thresholds.
pub proof fn lemma_condition_thresholds_after_commas(
    s: Seq<char>,
    head: Seq<char>,
    x: Seq<char>,
    y: Seq<char>,
)
    requires
        !head.contains(','),
        !x.contains(','),
    ensures
        s.skip(condition_kind(s).0) == head + seq![','] + x + seq![','] + y ==> condition_thresholds(
            s,
        ) == Some((x, y)),
        s.skip(condition_kind(s).0) == head + seq![','] + x ==> condition_thresholds(s) is None,
        s.skip(condition_kind(s).0) == head ==> condition_thresholds(s) is None,
{
    let rest = s.skip(condition_kind(s).0);
    lemma_find_char_first(rest, ',', 0);
    let comma = find_char(rest, ',', 0);
    if rest == head + seq![','] + x + seq![','] + y {
        assert(rest[head.len() as int] == ',');
        assert(forall|k: int| 0 <= k < head.len() ==> rest[k] == head[k]);
        if comma < head.len() {
            assert(head[comma] == ',');
        }
        assert(comma == head.len());
        let values = rest.skip(comma + 1);
        assert(values =~= x + seq![','] + y);
        lemma_find_char_first(values, ',', 0);
        let second = find_char(values, ',', 0);
        assert(values[x.len() as int] == ',');
        if second < x.len() {
            assert(x[second] == ',');
        }
        assert(second == x.len());
        assert(values.take(second) =~= x);
        assert(values.skip(second + 1) =~= y);
    }
    if rest == head + seq![','] + x {
        assert(rest[head.len() as int] == ',');
        if comma < head.len() {
            assert(head[comma] == ',');
        }
        assert(comma == head.len());
        let values = rest.skip(comma + 1);
        assert(values =~= x);
        lemma_find_char_first(values, ',', 0);
        let second = find_char(values, ',', 0);
        if second < values.len() {
            assert(x[second] == ',');
        }
    }
    if rest == head {
        if comma < rest.len() {
            assert(head[comma] == ',');
        }
    }
}

} // verus!
