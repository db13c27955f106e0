//! Conversions between strings and character sequences, and the small
//! searches on character sequences that the rest of the library shares.
use vstd::prelude::*;

verus! {

/// `String::push` appends one character.
pub assume_specification[ String::push ](s: &mut String, c: char)
    ensures
        final(s)@ == old(s)@.push(c),
;

/// `str == str` compares the two character sequences.
pub assume_specification[ <str as PartialEq>::eq ](a: &str, b: &str) -> (r: bool)
    ensures
        r == (a@ == b@),
;

/// The characters of `s`, in order.
pub fn chars_of(s: &str) -> (v: Vec<char>)
    ensures
        v@ == s@,
{
    let mut v: Vec<char> = Vec::new();
    for c in it: s.chars()
        invariant
            v@ == it.seq().take(it.index() as int),
            it.seq() == s@,
    {
        v.push(c);
    }
    v
}

/// The string made of the characters of `v`, in order.
pub fn string_of(v: &Vec<char>) -> (s: String)
    ensures
        s@ == v@,
{
    let mut s = String::new();
    let mut i: usize = 0;
    while i < v.len()
        invariant
            i <= v.len(),
            s@ == v@.take(i as int),
        decreases v.len() - i,
    {
        s.push(v[i]);
        i += 1;
    }
    s
}


/// `c` has the Unicode property White_Space: the controls from the tab to
/// the carriage return, the space, the next line, the no-break space, and
/// the spaces and separators beyond them.
pub open spec fn white_space(c: char) -> bool {
    let code = c as u32;
    ||| 0x09 <= code <= 0x0D
    ||| code == 0x20
    ||| code == 0x85
    ||| code == 0xA0
    ||| code == 0x1680
    ||| 0x2000 <= code <= 0x200A
    ||| code == 0x2028
    ||| code == 0x2029
    ||| code == 0x202F
    ||| code == 0x205F
    ||| code == 0x3000
}

/// Calls `char::is_whitespace`. Trusted: it holds of the characters that
/// have the Unicode property White_Space, and of no others.
#[verifier::external_body]
pub(crate) fn is_white_space(c: char) -> (r: bool)
    ensures
        r == white_space(c),
{
    c.is_whitespace()
}

/// What `str::to_lowercase` makes of `s`.
pub uninterp spec fn lowercase(s: Seq<char>) -> Seq<char>;

/// Calls `str::to_lowercase`. Trusted: the result depends on the characters
/// alone.
#[verifier::external_body]
pub(crate) fn to_lowercase(s: &str) -> (r: String)
    ensures
        r@ == lowercase(s@),
{
    s.to_lowercase()
}

/// Every character of `s` is white space; so is it with the empty string.
pub open spec fn blank(s: Seq<char>) -> bool {
    forall|i: int| 0 <= i < s.len() ==> white_space(#[trigger] s[i])
}

/// Whether `s` holds nothing but white space.
pub fn is_blank(s: &str) -> (r: bool)
    ensures
        r == blank(s@),
{
    let v = chars_of(s);
    let mut i: usize = 0;
    while i < v.len()
        invariant
            i <= v.len(),
            v@ == s@,
            forall|k: int| 0 <= k < i ==> white_space(#[trigger] v@[k]),
        decreases v.len() - i,
    {
        if !is_white_space(v[i]) {
            return false;
        }
        i += 1;
    }
    true
}

/// `s` begins with `prefix`.
pub open spec fn starts_with(s: Seq<char>, prefix: Seq<char>) -> bool {
    prefix.len() <= s.len() && s.take(prefix.len() as int) == prefix
}

/// `s` ends with `suffix`.
pub open spec fn ends_with(s: Seq<char>, suffix: Seq<char>) -> bool {
    suffix.len() <= s.len() && s.skip(s.len() - suffix.len()) == suffix
}

/// `part` stands in `s` at position `at`.
pub open spec fn occurs_at(s: Seq<char>, part: Seq<char>, at: int) -> bool {
    0 <= at && at + part.len() <= s.len() && s.subrange(at, at + part.len()) == part
}

/// Whether `part` stands in `s` at position `at`.
pub fn has_at(s: &Vec<char>, part: &Vec<char>, at: usize) -> (r: bool)
    ensures
        r == occurs_at(s@, part@, at as int),
{
    if at > s.len() || part.len() > s.len() - at {
        return false;
    }
    let mut i: usize = 0;
    while i < part.len()
        invariant
            i <= part.len(),
            at + part.len() <= s.len(),
            forall|k: int| 0 <= k < i ==> s@[at + k] == #[trigger] part@[k],
        decreases part.len() - i,
    {
        if s[at + i] != part[i] {
            assert(s@.subrange(at as int, at + part.len())[i as int] == s@[at + i]);
            return false;
        }
        i += 1;
    }
    assert(s@.subrange(at as int, at + part.len()) =~= part@);
    true
}

/// Whether `s` begins with `prefix`.
pub fn has_prefix(s: &Vec<char>, prefix: &Vec<char>) -> (r: bool)
    ensures
        r == starts_with(s@, prefix@),
{
    let r = has_at(s, prefix, 0);
    assert(prefix.len() <= s.len() ==> s@.take(prefix.len() as int) == s@.subrange(
        0,
        0 + prefix.len(),
    ));
    r
}

/// Whether `s` ends with `suffix`.
pub fn has_suffix(s: &Vec<char>, suffix: &Vec<char>) -> (r: bool)
    ensures
        r == ends_with(s@, suffix@),
{
    if suffix.len() > s.len() {
        return false;
    }
    let at = s.len() - suffix.len();
    let r = has_at(s, suffix, at);
    assert(s@.skip(at as int) == s@.subrange(at as int, at + suffix.len()));
    r
}

/// The characters of `v` from `from` up to, not including, `to`.
pub fn slice_of(v: &Vec<char>, from: usize, to: usize) -> (r: Vec<char>)
    requires
        from <= to <= v.len(),
    ensures
        r@ == v@.subrange(from as int, to as int),
{
    let mut r: Vec<char> = Vec::new();
    let mut i: usize = from;
    while i < to
        invariant
            from <= i <= to <= v.len(),
            r@ == v@.subrange(from as int, i as int),
        decreases to - i,
    {
        r.push(v[i]);
        assert(v@.subrange(from as int, i + 1) == v@.subrange(from as int, i as int).push(v@[i as int]));
        i += 1;
    }
    r
}

/// `c` is one of the ten ASCII digits.
pub open spec fn is_digit(c: char) -> bool {
    '0' <= c && c <= '9'
}

/// The ASCII digits of `s`, in order.
pub open spec fn digits_of(s: Seq<char>) -> Seq<char>
    decreases s.len(),
{
    if s.len() == 0 {
        s
    } else if is_digit(s.last()) {
        digits_of(s.drop_last()).push(s.last())
    } else {
        digits_of(s.drop_last())
    }
}

/// The number that a sequence of ASCII digits writes in base ten.
pub open spec fn decimal_value(digits: Seq<char>) -> nat
    decreases digits.len(),
{
    if digits.len() == 0 {
        0
    } else {
        decimal_value(digits.drop_last()) * 10 + (digits.last() as nat - '0' as nat) as nat
    }
}

/// The integer that the ASCII digits of `s` write, every other character
/// left out: `None` where `s` holds no digit or the number does not fit.
pub open spec fn lenient_integer(s: Seq<char>) -> Option<isize> {
    let digits = digits_of(s);
    if digits.len() > 0 && decimal_value(digits) <= isize::MAX {
        Some(decimal_value(digits) as isize)
    } else {
        None
    }
}

/// Reads the integer that the ASCII digits of `s` write, as
/// `lenient_integer` defines it.
pub fn parse_lenient_integer(s: &str) -> (r: Option<isize>)
    ensures
        r == lenient_integer(s@),
{
    let v = chars_of(s);
    let mut value: isize = 0;
    let mut seen: bool = false;
    let mut overflow: bool = false;
    let mut i: usize = 0;
    while i < v.len()
        invariant
            i <= v.len(),
            v@ == s@,
            seen == (digits_of(v@.take(i as int)).len() > 0),
            !overflow ==> value == decimal_value(digits_of(v@.take(i as int))),
            overflow ==> decimal_value(digits_of(v@.take(i as int))) > isize::MAX,
            0 <= value,
        decreases v.len() - i,
    {
        let c = v[i];
        proof {
            let head = v@.take(i as int);
            assert(v@.take(i + 1).drop_last() == head);
            assert(v@.take(i + 1).last() == c);
            let next = digits_of(v@.take(i + 1));
            if is_digit(c) {
                assert(next.drop_last() == digits_of(head));
                assert(next.last() == c);
            }
        }
        if '0' <= c && c <= '9' {
            seen = true;
            let d: isize = (c as u8 - '0' as u8) as isize;
            if !overflow {
                if value > (isize::MAX - d) / 10 {
                    overflow = true;
                } else {
                    value = value * 10 + d;
                }
            }
        }
        i += 1;
    }
    assert(v@.take(v.len() as int) == v@);
    if seen && !overflow {
        Some(value)
    } else {
        None
    }
}


/// The parts of `parts`, one after the other, with `separator` between
/// each two.
pub open spec fn joined_with(parts: Seq<Seq<char>>, separator: Seq<char>) -> Seq<char>
    decreases parts.len(),
{
    if parts.len() == 0 {
        Seq::empty()
    } else if parts.len() == 1 {
        parts[0]
    } else {
        joined_with(parts.drop_last(), separator) + separator + parts.last()
    }
}

/// The parts of `parts` that are not empty, in order.
pub open spec fn non_empty(parts: Seq<Seq<char>>) -> Seq<Seq<char>>
    decreases parts.len(),
{
    if parts.len() == 0 {
        parts
    } else if parts.last().len() == 0 {
        non_empty(parts.drop_last())
    } else {
        non_empty(parts.drop_last()).push(parts.last())
    }
}

/// The character sequences of a list of strings.
pub open spec fn texts(v: Seq<String>) -> Seq<Seq<char>> {
    Seq::new(v.len(), |i: int| v[i]@)
}

/// Joins the strings with `separator` between each two.
pub fn join_with(parts: &Vec<String>, separator: &str) -> (r: String)
    ensures
        r@ == joined_with(texts(parts@), separator@),
{
    let mut r = String::new();
    let mut i: usize = 0;
    assert(texts(parts@).take(0) =~= Seq::empty());
    while i < parts.len()
        invariant
            i <= parts.len(),
            r@ == joined_with(texts(parts@).take(i as int), separator@),
        decreases parts.len() - i,
    {
        let ghost head = texts(parts@).take(i as int);
        let ghost next = texts(parts@).take(i + 1);
        assert(next.drop_last() == head);
        assert(next.last() == parts@[i as int]@);
        if i > 0 {
            r.append(separator);
        }
        r.append(parts[i].as_str());
        assert(r@ =~= joined_with(next, separator@));
        i += 1;
    }
    assert(texts(parts@).take(parts.len() as int) == texts(parts@));
    r
}

/// Joins the strings that are not empty with `separator` between each two.
pub fn join_non_empty(parts: &Vec<String>, separator: &str) -> (r: String)
    ensures
        r@ == joined_with(non_empty(texts(parts@)), separator@),
{
    let mut kept: Vec<String> = Vec::new();
    let mut i: usize = 0;
    assert(texts(parts@).take(0) =~= Seq::empty());
    assert(texts(kept@) =~= Seq::empty());
    while i < parts.len()
        invariant
            i <= parts.len(),
            texts(kept@) == non_empty(texts(parts@).take(i as int)),
        decreases parts.len() - i,
    {
        let ghost head = texts(parts@).take(i as int);
        let ghost next = texts(parts@).take(i + 1);
        let ghost before = kept@;
        assert(next.drop_last() == head);
        assert(next.last() == parts@[i as int]@);
        if parts[i].as_str().unicode_len() > 0 {
            kept.push(parts[i].clone());
            assert(texts(kept@) =~= texts(before).push(parts@[i as int]@));
        }
        i += 1;
    }
    assert(texts(parts@).take(parts.len() as int) == texts(parts@));
    join_with(&kept, separator)
}

/// The character that writes a digit below ten.
pub open spec fn digit_char(d: nat) -> char {
    ((d + 48) as u8) as char
}

/// The digits that write `n` in base ten, without leading zeros.
pub open spec fn decimal_digits(n: nat) -> Seq<char>
    decreases n,
{
    if n < 10 {
        seq![digit_char(n)]
    } else {
        decimal_digits(n / 10).push(digit_char(n % 10))
    }
}

/// The decimal form of `n`: its digits, behind a minus sign where it is
/// negative.
pub open spec fn decimal_text(n: int) -> Seq<char> {
    if n < 0 {
        seq!['-'] + decimal_digits((-n) as nat)
    } else {
        decimal_digits(n as nat)
    }
}

/// Calls `i128::to_string`. Trusted: the text is the decimal form of the
/// number.
#[verifier::external_body]
pub(crate) fn decimal_string(n: i128) -> (r: String)
    ensures
        r@ == decimal_text(n as int),
{
    n.to_string()
}

/// The decimal form of a signed number.
pub fn signed_decimal(n: i64) -> (r: String)
    ensures
        r@ == decimal_text(n as int),
{
    decimal_string(n as i128)
}

/// The decimal form of an unsigned number.
pub fn unsigned_decimal(n: u64) -> (r: String)
    ensures
        r@ == decimal_text(n as int),
{
    decimal_string(n as i128)
}

/// The number of white-space characters at the front of `s`.
pub open spec fn leading_blanks(s: Seq<char>) -> int
    decreases s.len(),
{
    if s.len() > 0 && white_space(s.first()) {
        1 + leading_blanks(s.drop_first())
    } else {
        0
    }
}

/// The number of white-space characters at the end of `s`.
pub open spec fn trailing_blanks(s: Seq<char>) -> int
    decreases s.len(),
{
    if s.len() > 0 && white_space(s.last()) {
        1 + trailing_blanks(s.drop_last())
    } else {
        0
    }
}

/// `s` without the white space at its front and at its end.
pub open spec fn trimmed(s: Seq<char>) -> Seq<char> {
    let from = leading_blanks(s);
    if from >= s.len() {
        Seq::empty()
    } else {
        s.subrange(from, s.len() - trailing_blanks(s))
    }
}

/// The counts of white space at the two ends stay within the sequence, and
/// they do not meet unless the sequence is all white space.
pub proof fn lemma_blanks_bounds(s: Seq<char>)
    ensures
        0 <= leading_blanks(s) <= s.len(),
        0 <= trailing_blanks(s) <= s.len(),
        leading_blanks(s) < s.len() ==> leading_blanks(s) + trailing_blanks(s) < s.len() + 0
            && !white_space(s[leading_blanks(s)]),
        leading_blanks(s) == s.len() <==> blank(s),
    decreases s.len(),
{
    if s.len() > 0 {
        let rest = s.drop_first();
        let init = s.drop_last();
        lemma_blanks_bounds(rest);
        lemma_blanks_bounds(init);
        if white_space(s.first()) {
            if blank(rest) {
                assert forall|i: int| 0 <= i < s.len() implies white_space(#[trigger] s[i]) by {
                    if i > 0 {
                        assert(s[i] == rest[i - 1]);
                    }
                }
            } else {
                if blank(s) {
                    assert forall|i: int| 0 <= i < rest.len() implies white_space(
                        #[trigger] rest[i],
                    ) by {
                        assert(rest[i] == s[i + 1]);
                    }
                }
            }
            if leading_blanks(s) < s.len() {
                assert(s[leading_blanks(s)] == rest[leading_blanks(rest)]);
                lemma_trailing_stops(s, leading_blanks(s));
            }
        } else {
            assert(!blank(s));
            lemma_trailing_stops(s, 0);
        }
    }
}

/// The white space at the end does not reach back over a character that is
/// none.
pub proof fn lemma_trailing_stops(s: Seq<char>, at: int)
    requires
        0 <= at < s.len(),
        !white_space(s[at]),
    ensures
        trailing_blanks(s) < s.len() - at,
    decreases s.len(),
{
    if white_space(s.last()) {
        assert(at < s.len() - 1);
        lemma_trailing_stops(s.drop_last(), at);
    }
}

/// `s` without the white space at its front and at its end.
pub fn trim(s: &str) -> (r: String)
    ensures
        r@ == trimmed(s@),
{
    let v = chars_of(s);
    let mut from: usize = 0;
    assert(v@.skip(0) == v@);
    while from < v.len() && is_white_space(v[from])
        invariant
            from <= v.len(),
            leading_blanks(v@) == from + leading_blanks(v@.skip(from as int)),
        decreases v.len() - from,
    {
        assert(v@.skip(from as int).drop_first() == v@.skip(from + 1));
        from += 1;
    }
    proof {
        lemma_blanks_bounds(v@);
    }
    if from >= v.len() {
        return String::new();
    }
    let mut to: usize = v.len();
    assert(v@.take(v.len() as int) == v@);
    while to > from && is_white_space(v[to - 1])
        invariant
            from < to <= v.len(),
            !white_space(v@[from as int]),
            trailing_blanks(v@) == (v.len() - to) + trailing_blanks(v@.take(to as int)),
        decreases to,
    {
        assert(v@.take(to as int).drop_last() == v@.take(to - 1));
        to -= 1;
    }
    assert(v@.take(to as int).last() == v@[to - 1]);
    let part = slice_of(&v, from, to);
    string_of(&part)
}

} // verus!
