//! Text helpers: decimal numbers, comma-separated positions and message building.
use vstd::prelude::*;
use vstd::string::StringExecFns;

verus! {

/// The character of a decimal digit `0..=9`.
pub open spec fn digit_char(d: nat) -> char {
    if d == 0 { '0' }
    else if d == 1 { '1' }
    else if d == 2 { '2' }
    else if d == 3 { '3' }
    else if d == 4 { '4' }
    else if d == 5 { '5' }
    else if d == 6 { '6' }
    else if d == 7 { '7' }
    else if d == 8 { '8' }
    else { '9' }
}

/// The value of a decimal digit character.
pub open spec fn char_digit(c: char) -> nat {
    if c == '1' { 1 }
    else if c == '2' { 2 }
    else if c == '3' { 3 }
    else if c == '4' { 4 }
    else if c == '5' { 5 }
    else if c == '6' { 6 }
    else if c == '7' { 7 }
    else if c == '8' { 8 }
    else if c == '9' { 9 }
    else { 0 }
}

pub open spec fn is_digit(c: char) -> bool {
    c == '0' || c == '1' || c == '2' || c == '3' || c == '4' || c == '5' || c == '6' || c == '7'
        || c == '8' || c == '9'
}

/// Decimal text of a natural number, without leading zeros.
pub open spec fn nat_text(n: nat) -> Seq<char>
    decreases n,
{
    if n < 10 {
        seq![digit_char(n)]
    } else {
        nat_text(n / 10).push(digit_char(n % 10))
    }
}

/// Decimal text of an integer, with a leading `-` when it is negative.
pub open spec fn int_text(n: int) -> Seq<char> {
    if n < 0 {
        seq!['-'] + nat_text((-n) as nat)
    } else {
        nat_text(n as nat)
    }
}

/// `x,y` written in decimal.
pub open spec fn pair_text(x: int, y: int) -> Seq<char> {
    int_text(x) + seq![','] + int_text(y)
}

pub open spec fn all_digits(s: Seq<char>) -> bool {
    s.len() > 0 && forall|i: int| 0 <= i < s.len() ==> is_digit(#[trigger] s[i])
}

/// The value of a string of decimal digits.
pub open spec fn digits_value(s: Seq<char>) -> nat
    decreases s.len(),
{
    if s.len() == 0 {
        0
    } else {
        digits_value(s.drop_last()) * 10 + char_digit(s.last())
    }
}

/// The integer that a decimal text denotes: an optional `+` (or `-` where `signed`), then one or
/// more ASCII digits and nothing else.
pub open spec fn spec_parse_int(s: Seq<char>, signed: bool) -> Option<int> {
    if s.len() > 0 && s[0] == '+' {
        if all_digits(s.drop_first()) { Some(digits_value(s.drop_first()) as int) } else { None }
    } else if s.len() > 0 && s[0] == '-' {
        if signed && all_digits(s.drop_first()) {
            Some(-(digits_value(s.drop_first()) as int))
        } else {
            None
        }
    } else if all_digits(s) {
        Some(digits_value(s) as int)
    } else {
        None
    }
}

/// What `str::parse::<i32>` gives back.
pub open spec fn spec_parse_i32(s: Seq<char>) -> Option<i32> {
    match spec_parse_int(s, true) {
        Some(v) => if i32::MIN <= v <= i32::MAX { Some(v as i32) } else { None },
        None => None,
    }
}

/// What `str::parse::<u32>` gives back.
pub open spec fn spec_parse_u32(s: Seq<char>) -> Option<u32> {
    match spec_parse_int(s, false) {
        Some(v) => if 0 <= v <= u32::MAX { Some(v as u32) } else { None },
        None => None,
    }
}

/// What `str::parse::<bool>` gives back.
pub open spec fn spec_parse_bool(s: Seq<char>) -> Option<bool> {
    if s == "true"@ {
        Some(true)
    } else if s == "false"@ {
        Some(false)
    } else {
        None
    }
}

/// The index of the first comma, or `s.len()` when there is none.
pub open spec fn first_comma(s: Seq<char>) -> nat
    decreases s.len(),
{
    if s.len() == 0 {
        0
    } else if s[0] == ',' {
        0
    } else {
        1 + first_comma(s.drop_first())
    }
}

/// The text before and after the first comma, when there is one.
pub open spec fn spec_split_once(s: Seq<char>) -> Option<(Seq<char>, Seq<char>)> {
    let i = first_comma(s);
    if i < s.len() {
        Some((s.take(i as int), s.skip(i as int + 1)))
    } else {
        None
    }
}

/// The two parts of a text that holds exactly one comma.
pub open spec fn spec_two_parts(s: Seq<char>) -> Option<(Seq<char>, Seq<char>)> {
    match spec_split_once(s) {
        Some((a, b)) => if b.contains(',') { None } else { Some((a, b)) },
        None => None,
    }
}

/// `x,y` read as two natural numbers.
pub open spec fn spec_parse_position(s: Seq<char>) -> Option<(u32, u32)> {
    match spec_two_parts(s) {
        Some((a, b)) => match (spec_parse_u32(a), spec_parse_u32(b)) {
            (Some(x), Some(y)) => Some((x, y)),
            _ => None,
        },
        None => None,
    }
}

/// `x,y` read as two integers.
pub open spec fn spec_parse_pair(s: Seq<char>) -> Option<(i32, i32)> {
    match spec_two_parts(s) {
        Some((a, b)) => match (spec_parse_i32(a), spec_parse_i32(b)) {
            (Some(x), Some(y)) => Some((x, y)),
            _ => None,
        },
        None => None,
    }
}

/// A digit's character reads back as the digit.
pub proof fn lemma_digit_char(d: nat)
    requires
        d < 10,
    ensures
        is_digit(digit_char(d)),
        char_digit(digit_char(d)) == d,
{
}

/// The decimal text of a natural number is made of digits and reads back as the number.
pub proof fn lemma_nat_text(n: nat)
    ensures
        all_digits(nat_text(n)),
        digits_value(nat_text(n)) == n,
        !nat_text(n).contains(','),
    decreases n,
{
    if n < 10 {
        lemma_digit_char(n);
        let s = nat_text(n);
        assert(s.drop_last() =~= Seq::<char>::empty());
        assert(digits_value(s.drop_last()) == 0);
        assert(s.last() == digit_char(n));
        assert(digits_value(s) == digits_value(s.drop_last()) * 10 + char_digit(s.last()));
        assert(!s.contains(',')) by {
            if s.contains(',') {
                let i = choose|i: int| 0 <= i < s.len() && s[i] == ',';
                assert(s[0] == digit_char(n));
            }
        }
    } else {
        lemma_nat_text(n / 10);
        lemma_digit_char(n % 10);
        let t = nat_text(n / 10);
        let s = nat_text(n);
        assert(s == t.push(digit_char(n % 10)));
        assert(s.drop_last() =~= t);
        assert(n == (n / 10) * 10 + n % 10) by (nonlinear_arith);
        assert(s.last() == digit_char(n % 10));
        assert(digits_value(s) == digits_value(s.drop_last()) * 10 + char_digit(s.last()));
        assert(digits_value(s) == (n / 10) * 10 + n % 10);
        assert forall|i: int| 0 <= i < s.len() implies is_digit(#[trigger] s[i]) by {
            if i < t.len() {
                assert(s[i] == t[i]);
            }
        }
        assert(!s.contains(',')) by {
            if s.contains(',') {
                let i = choose|i: int| 0 <= i < s.len() && s[i] == ',';
                if i < t.len() {
                    assert(s[i] == t[i]);
                    assert(t.contains(','));
                } else {
                    assert(s[i] == digit_char(n % 10));
                }
            }
        }
    }
}

/// The decimal text of an `i32` holds no comma and reads back as the number.
pub proof fn lemma_int_text(n: i32)
    ensures
        spec_parse_i32(int_text(n as int)) == Some(n),
        !int_text(n as int).contains(','),
        int_text(n as int).len() > 0,
        int_text(n as int)[0] == '-' || is_digit(int_text(n as int)[0]),
{
    if n < 0 {
        let m = (-(n as int)) as nat;
        lemma_nat_text(m);
        let s = int_text(n as int);
        assert(s == seq!['-'] + nat_text(m));
        assert(s.drop_first() =~= nat_text(m));
        assert(s[0] == '-');
        assert(!s.contains(',')) by {
            if s.contains(',') {
                let i = choose|i: int| 0 <= i < s.len() && s[i] == ',';
                if i > 0 {
                    assert(s[i] == nat_text(m)[i - 1]);
                    assert(nat_text(m).contains(','));
                }
            }
        }
    } else {
        lemma_nat_text(n as nat);
        let s = int_text(n as int);
        assert(is_digit(s[0]));
    }
}

/// `str::eq`: whether two texts are the same.
#[verifier::external_body]
pub(crate) fn str_eq(a: &str, b: &str) -> (r: bool)
    ensures
        r == (a@ == b@),
{
    a == b
}

/// `str::parse::<i32>`: Rust documents it as an optional sign followed by decimal digits, with
/// out-of-range values refused.
#[verifier::external_body]
pub(crate) fn parse_i32(s: &str) -> (r: Option<i32>)
    ensures
        r == spec_parse_i32(s@),
{
    s.parse::<i32>().ok()
}

/// `str::parse::<u32>`: an optional `+` followed by decimal digits, with out-of-range values
/// refused.
#[verifier::external_body]
pub(crate) fn parse_u32(s: &str) -> (r: Option<u32>)
    ensures
        r == spec_parse_u32(s@),
{
    s.parse::<u32>().ok()
}

/// `str::split_once(',')`: the text before and after the first comma.
#[verifier::external_body]
pub(crate) fn split_once_comma<'a>(s: &'a str) -> (r: Option<(&'a str, &'a str)>)
    ensures
        match r {
            Some((a, b)) => spec_split_once(s@) == Some((a@, b@)),
            None => spec_split_once(s@) is None,
        },
{
    s.split_once(',')
}

/// `str::contains(',')`.
#[verifier::external_body]
pub(crate) fn has_comma(s: &str) -> (r: bool)
    ensures
        r == s@.contains(','),
{
    s.contains(',')
}

/// `i64::to_string`: decimal text with a leading `-` for negative values.
#[verifier::external_body]
pub(crate) fn int_to_text(n: i64) -> (r: String)
    ensures
        r@ == int_text(n as int),
{
    n.to_string()
}

/// `bool::parse`.
pub fn parse_bool(s: &str) -> (r: Option<bool>)
    ensures
        r == spec_parse_bool(s@),
{
    if str_eq(s, "true") {
        Some(true)
    } else if str_eq(s, "false") {
        Some(false)
    } else {
        None
    }
}

/// The two parts around the single comma of `s`.
pub fn two_parts<'a>(s: &'a str) -> (r: Option<(&'a str, &'a str)>)
    ensures
        match r {
            Some((a, b)) => spec_two_parts(s@) == Some((a@, b@)),
            None => spec_two_parts(s@) is None,
        },
{
    match split_once_comma(s) {
        Some((a, b)) => {
            if has_comma(b) {
                None
            } else {
                Some((a, b))
            }
        },
        None => None,
    }
}

/// Reads `x,y` as a position of two natural numbers.
pub fn parse_position_text(s: &str) -> (r: Option<(u32, u32)>)
    ensures
        r == spec_parse_position(s@),
{
    match two_parts(s) {
        Some((a, b)) => match (parse_u32(a), parse_u32(b)) {
            (Some(x), Some(y)) => Some((x, y)),
            _ => None,
        },
        None => None,
    }
}

/// Reads `x,y` as two integers.
pub fn parse_pair_text(s: &str) -> (r: Option<(i32, i32)>)
    ensures
        r == spec_parse_pair(s@),
{
    match two_parts(s) {
        Some((a, b)) => match (parse_i32(a), parse_i32(b)) {
            (Some(x), Some(y)) => Some((x, y)),
            _ => None,
        },
        None => None,
    }
}

/// A copy of `s` as an owned string.
pub fn text(s: &str) -> (r: String)
    ensures
        r@ == s@,
{
    String::from_str(s)
}

/// `a` followed by `b`.
pub fn cat(a: &str, b: &str) -> (r: String)
    ensures
        r@ == a@ + b@,
{
    let mut s = String::from_str(a);
    s.append(b);
    s
}

/// `a`, `b` and `c` one after the other.
pub fn cat3(a: &str, b: &str, c: &str) -> (r: String)
    ensures
        r@ == a@ + b@ + c@,
{
    let mut s = String::from_str(a);
    s.append(b);
    s.append(c);
    s
}

/// `a`, `b`, `c` and `d` one after the other.
pub fn cat4(a: &str, b: &str, c: &str, d: &str) -> (r: String)
    ensures
        r@ == a@ + b@ + c@ + d@,
{
    let mut s = String::from_str(a);
    s.append(b);
    s.append(c);
    s.append(d);
    s
}

/// Writes two integers as `x,y`.
pub fn pair_to_text(x: i64, y: i64) -> (r: String)
    ensures
        r@ == pair_text(x as int, y as int),
{
    let a = int_to_text(x);
    let b = int_to_text(y);
    proof {
        reveal_strlit(",");
    }
    cat3(a.as_str(), ",", b.as_str())
}

/// `str::starts_with`: whether `p` is a prefix of `s`.
#[verifier::external_body]
pub(crate) fn starts_with(s: &str, p: &str) -> (r: bool)
    ensures
        r == (p@.len() <= s@.len() && s@.subrange(0, p@.len() as int) == p@),
{
    s.starts_with(p)
}

/// `s` with every leading copy of `p` removed.
pub open spec fn strip_prefixes(s: Seq<char>, p: Seq<char>) -> Seq<char>
    decreases s.len(),
{
    if 0 < p.len() <= s.len() && s.subrange(0, p.len() as int) == p {
        strip_prefixes(s.subrange(p.len() as int, s.len() as int), p)
    } else {
        s
    }
}

/// `str::trim_start_matches` with a text pattern: removes leading copies of `p` repeatedly.
#[verifier::external_body]
pub(crate) fn trim_start_matches<'a>(s: &'a str, p: &str) -> (r: &'a str)
    ensures
        r@ == strip_prefixes(s@, p@),
{
    s.trim_start_matches(p)
}

/// Whether a character is white space, as Unicode's `White_Space` property has it (the
/// characters for which `char::is_whitespace` holds).
pub open spec fn is_white(c: char) -> bool {
    let n = c as u32;
    ||| 0x9 <= n <= 0xd
    ||| n == 0x20
    ||| n == 0x85
    ||| n == 0xa0
    ||| n == 0x1680
    ||| 0x2000 <= n <= 0x200a
    ||| n == 0x2028
    ||| n == 0x2029
    ||| n == 0x202f
    ||| n == 0x205f
    ||| n == 0x3000
}

/// A text without its leading white space.
pub open spec fn trim_start(s: Seq<char>) -> Seq<char>
    decreases s.len(),
{
    if s.len() > 0 && is_white(s[0]) { trim_start(s.drop_first()) } else { s }
}

/// A text without its trailing white space.
pub open spec fn trim_end(s: Seq<char>) -> Seq<char>
    decreases s.len(),
{
    if s.len() > 0 && is_white(s.last()) { trim_end(s.drop_last()) } else { s }
}

/// What `str::trim` leaves of a text: the text without its leading and trailing white space.
pub open spec fn spec_trim(s: Seq<char>) -> Seq<char> {
    trim_end(trim_start(s))
}

/// `str::trim`: the text without its leading and trailing white space (Unicode's
/// `White_Space`).
#[verifier::external_body]
pub(crate) fn trim_text<'a>(s: &'a str) -> (r: &'a str)
    ensures
        r@ == spec_trim(s@),
{
    s.trim()
}

/// The words of a text read from its start, `cur` being the part of a word already read: the
/// runs of characters that are not white space, in order.
pub open spec fn words_after(s: Seq<char>, cur: Seq<char>) -> Seq<Seq<char>>
    decreases s.len(),
{
    let done: Seq<Seq<char>> = if cur.len() > 0 { seq![cur] } else { Seq::empty() };
    if s.len() == 0 {
        done
    } else if is_white(s[0]) {
        done + words_after(s.drop_first(), Seq::empty())
    } else {
        words_after(s.drop_first(), cur.push(s[0]))
    }
}

/// The words `str::split_whitespace` finds in a text: its runs of characters that are not
/// white space, in order.
pub open spec fn spec_words(s: Seq<char>) -> Seq<Seq<char>> {
    words_after(s, Seq::empty())
}

/// `str::split_whitespace`, collected: the words of a text, in order.
#[verifier::external_body]
pub(crate) fn words<'a>(s: &'a str) -> (r: Vec<&'a str>)
    ensures
        r@.map_values(|w: &str| w@) == spec_words(s@),
{
    s.split_whitespace().collect()
}

/// What `{:?}` writes for a text.
pub uninterp spec fn spec_debug_str(s: Seq<char>) -> Seq<char>;

/// `format!("{:?}", s)` for a text: the text quoted and escaped.
#[verifier::external_body]
pub(crate) fn debug_str(s: &str) -> (r: String)
    ensures
        r@ == spec_debug_str(s@),
{
    format!("{:?}", s)
}

} // verus!
