//! Character-level text handling shared by the scrapers, the scorer and the
//! notifier: decimal numbers, searching, splitting and case folding.
use vstd::prelude::*;

verus! {

// ---------------------------------------------------------------------------
// Decimal numbers
// ---------------------------------------------------------------------------

pub open spec fn is_ascii_digit(c: char) -> bool {
    '0' <= c && c <= '9'
}

/// The ASCII digit for `d` (0..=9).
pub open spec fn digit_char(d: nat) -> char {
    (('0' as int) + d) as char
}

/// The value of an ASCII digit.
pub open spec fn digit_value(c: char) -> nat {
    ((c as int) - ('0' as int)) as nat
}

/// Decimal representation of `n`, without sign or leading zeros.
pub open spec fn dec(n: nat) -> Seq<char>
    decreases n,
{
    if n < 10 {
        seq![digit_char(n)]
    } else {
        dec(n / 10).push(digit_char(n % 10))
    }
}

/// Decimal representation of `n` with an explicit sign, as `{:+}` prints it.
pub open spec fn signed_dec(n: int) -> Seq<char> {
    if n >= 0 {
        seq!['+'] + dec(n as nat)
    } else {
        seq!['-'] + dec((-n) as nat)
    }
}

pub open spec fn all_digits(s: Seq<char>) -> bool {
    forall|i: int| 0 <= i < s.len() ==> is_ascii_digit(#[trigger] s[i])
}

/// The value of a string of decimal digits.
pub open spec fn digits_value(s: Seq<char>) -> nat
    decreases s.len(),
{
    if s.len() == 0 {
        0
    } else {
        digits_value(s.drop_last()) * 10 + digit_value(s.last())
    }
}

/// What an unsigned integer parse reads from `s`: an optional `+`, then one or
/// more ASCII digits and nothing else.
pub open spec fn parse_unsigned(s: Seq<char>) -> Option<nat> {
    let body = if s.len() > 0 && s[0] == '+' { s.skip(1) } else { s };
    if body.len() > 0 && all_digits(body) {
        Some(digits_value(body))
    } else {
        None
    }
}

/// `str::parse::<u16>`: the value when `s` is an optional `+` followed by
/// decimal digits whose value fits in a `u16`, `None` otherwise.
#[verifier::external_body]
pub(crate) fn parse_u16(s: &str) -> (r: Option<u16>)
    ensures
        r == (match parse_unsigned(s@) {
            Some(v) => if v <= u16::MAX { Some(v as u16) } else { None },
            None => None,
        }),
{
    s.parse::<u16>().ok()
}

/// `str::parse::<u32>`: the value when `s` is an optional `+` followed by
/// decimal digits whose value fits in a `u32`, `None` otherwise.
#[verifier::external_body]
pub(crate) fn parse_u32(s: &str) -> (r: Option<u32>)
    ensures
        r == (match parse_unsigned(s@) {
            Some(v) => if v <= u32::MAX { Some(v as u32) } else { None },
            None => None,
        }),
{
    s.parse::<u32>().ok()
}

/// `str::parse::<u64>`: the value when `s` is an optional `+` followed by
/// decimal digits whose value fits in a `u64`, `None` otherwise.
#[verifier::external_body]
pub(crate) fn parse_u64(s: &str) -> (r: Option<u64>)
    ensures
        r == (match parse_unsigned(s@) {
            Some(v) => if v <= u64::MAX { Some(v as u64) } else { None },
            None => None,
        }),
{
    s.parse::<u64>().ok()
}

/// `u64::to_string`: the decimal representation of `n`.
#[verifier::external_body]
pub(crate) fn fmt_u64(n: u64) -> (r: String)
    ensures
        r@ == dec(n as nat),
{
    n.to_string()
}

/// `format!("{:+}", n)`: the decimal representation of `n` with its sign.
#[verifier::external_body]
pub(crate) fn fmt_signed(n: i64) -> (r: String)
    ensures
        r@ == signed_dec(n as int),
{
    format!("{:+}", n)
}

// ---------------------------------------------------------------------------
// Characters and strings
// ---------------------------------------------------------------------------

/// Whether `c` has the Unicode `White_Space` property, as
/// `char::is_whitespace` documents it.
pub open spec fn is_ws(c: char) -> bool {
    let n = c as u32;
    ||| 0x09 <= n <= 0x0D
    ||| n == 0x20 || n == 0x85 || n == 0xA0 || n == 0x1680
    ||| 0x2000 <= n <= 0x200A
    ||| n == 0x2028 || n == 0x2029 || n == 0x202F || n == 0x205F || n == 0x3000
}

/// Whether `char::is_alphanumeric` holds of `c` (Unicode `Alphabetic` or `Numeric`).
pub uninterp spec fn is_alnum(c: char) -> bool;

/// What `str::to_lowercase` gives for a string.
pub uninterp spec fn lower(s: Seq<char>) -> Seq<char>;

/// What `str::to_uppercase` gives for a string.
pub uninterp spec fn upper(s: Seq<char>) -> Seq<char>;

pub open spec fn is_ascii_char(c: char) -> bool {
    (c as u32) < 128
}

pub open spec fn all_ascii(s: Seq<char>) -> bool {
    forall|i: int| 0 <= i < s.len() ==> is_ascii_char(#[trigger] s[i])
}

/// An ASCII letter, upper or lower case, or an ASCII digit.
pub open spec fn is_ascii_alnum(c: char) -> bool {
    ||| ('0' <= c && c <= '9')
    ||| ('a' <= c && c <= 'z')
    ||| ('A' <= c && c <= 'Z')
}

/// `c` with 'A'..='Z' made 'a'..='z'.
pub open spec fn ascii_lower_char(c: char) -> char {
    if 'A' <= c && c <= 'Z' { ((c as u32) + 32) as char } else { c }
}

/// `c` with 'a'..='z' made 'A'..='Z'.
pub open spec fn ascii_upper_char(c: char) -> char {
    if 'a' <= c && c <= 'z' { ((c as u32) - 32) as char } else { c }
}

pub open spec fn ascii_lower(s: Seq<char>) -> Seq<char> {
    s.map_values(|c: char| ascii_lower_char(c))
}

pub open spec fn ascii_upper(s: Seq<char>) -> Seq<char> {
    s.map_values(|c: char| ascii_upper_char(c))
}

/// Number of leading characters of `s` that are whitespace.
pub open spec fn leading_ws(s: Seq<char>) -> nat
    decreases s.len(),
{
    if s.len() > 0 && is_ws(s[0]) {
        1 + leading_ws(s.skip(1))
    } else {
        0
    }
}

/// Number of trailing characters of `s` that are whitespace.
pub open spec fn trailing_ws(s: Seq<char>) -> nat
    decreases s.len(),
{
    if s.len() > 0 && is_ws(s.last()) {
        1 + trailing_ws(s.drop_last())
    } else {
        0
    }
}

/// `s` without leading and trailing whitespace.
pub open spec fn trimmed(s: Seq<char>) -> Seq<char> {
    if leading_ws(s) == s.len() {
        Seq::empty()
    } else {
        s.subrange(leading_ws(s) as int, s.len() - trailing_ws(s))
    }
}

/// `char::is_alphanumeric`: Unicode `Alphabetic` or `Numeric`, which among
/// ASCII characters are exactly the letters and digits.
#[verifier::external_body]
pub(crate) fn char_is_alphanumeric(c: char) -> (r: bool)
    ensures
        r == is_alnum(c),
        is_ascii_char(c) ==> (r <==> is_ascii_alnum(c)),
{
    c.is_alphanumeric()
}

/// `str::to_lowercase`; the result is named by `lower`. On an all-ASCII
/// string it maps 'A'..='Z' to 'a'..='z' and keeps every other character.
#[verifier::external_body]
pub(crate) fn to_lowercase(s: &str) -> (r: String)
    ensures
        r@ == lower(s@),
        all_ascii(s@) ==> r@ == ascii_lower(s@),
{
    s.to_lowercase()
}

/// `str::to_uppercase`; the result is named by `upper`. On an all-ASCII
/// string it maps 'a'..='z' to 'A'..='Z' and keeps every other character.
#[verifier::external_body]
pub(crate) fn to_uppercase(s: &str) -> (r: String)
    ensures
        r@ == upper(s@),
        all_ascii(s@) ==> r@ == ascii_upper(s@),
{
    s.to_uppercase()
}

/// `str::trim`: `s` without leading and trailing whitespace.
#[verifier::external_body]
pub(crate) fn trim(s: &str) -> (r: &str)
    ensures
        r@ == trimmed(s@),
{
    s.trim()
}

/// A `String` holding the characters of `v` (`Iterator::collect`).
#[verifier::external_body]
pub(crate) fn string_from_chars(v: &[char]) -> (r: String)
    ensures
        r@ == v@,
{
    v.iter().collect()
}

/// The characters of `s`, one by one.
pub fn chars_of(s: &str) -> (v: Vec<char>)
    ensures
        v@ == s@,
{
    let mut v: Vec<char> = Vec::new();
    for c in it: s.chars()
        invariant
            v@ == it.seq().take(it.index() as int),
            it.seq() == s@,
    {
        v.push(c);
    }
    v
}

pub fn char_is_ascii_digit(c: char) -> (r: bool)
    ensures
        r == is_ascii_digit(c),
{
    '0' <= c && c <= '9'
}

/// Whether two strings hold the same characters.
pub fn str_eq(a: &str, b: &str) -> (r: bool)
    ensures
        r == (a@ == b@),
{
    let x = chars_of(a);
    let y = chars_of(b);
    if x.len() != y.len() {
        return false;
    }
    let mut i: usize = 0;
    while i < x.len()
        invariant
            x@ == a@,
            y@ == b@,
            x.len() == y.len(),
            i <= x.len(),
            forall|j: int| 0 <= j < i ==> x@[j] == y@[j],
        decreases x.len() - i,
    {
        if x[i] != y[i] {
            return false;
        }
        i = i + 1;
    }
    assert(x@ =~= y@);
    true
}

/// Whether `pat` occurs in `s` starting at position `i`.
pub open spec fn occurs_at(s: Seq<char>, pat: Seq<char>, i: int) -> bool {
    0 <= i && i + pat.len() <= s.len() && s.subrange(i, i + pat.len()) == pat
}

/// Whether `pat` occurs anywhere in `s`.
pub open spec fn contains_seq(s: Seq<char>, pat: Seq<char>) -> bool {
    exists|i: int| occurs_at(s, pat, i)
}

/// The first position at or after `from` where `pat` occurs in `s`.
pub open spec fn is_first_at_or_after(s: Seq<char>, pat: Seq<char>, from: int, i: int) -> bool {
    &&& from <= i
    &&& occurs_at(s, pat, i)
    &&& forall|j: int| from <= j < i ==> !occurs_at(s, pat, j)
}

/// The position of the first occurrence of `pat` in `s` at or after `from`.
pub fn find_from(s: &Vec<char>, pat: &Vec<char>, from: usize) -> (r: Option<usize>)
    requires
        from <= s.len(),
    ensures
        match r {
            Some(i) => is_first_at_or_after(s@, pat@, from as int, i as int),
            None => forall|j: int| from <= j ==> !occurs_at(s@, pat@, j),
        },
{
    if pat.len() > s.len() {
        return None;
    }
    let last = s.len() - pat.len();
    let mut i = from;
    while i <= last
        invariant
            from <= i,
            last == s.len() - pat.len(),
            pat.len() <= s.len(),
            forall|j: int| from <= j < i ==> !occurs_at(s@, pat@, j),
        decreases last + 1 - i,
    {
        let mut k: usize = 0;
        let mut ok = true;
        while ok && k < pat.len()
            invariant
                i <= last,
                last == s.len() - pat.len(),
                k <= pat.len(),
                ok ==> forall|m: int| 0 <= m < k ==> s@[i + m] == pat@[m],
                !ok ==> !occurs_at(s@, pat@, i as int) && pat.len() > 0,
            decreases pat.len() - k + (if ok { 1int } else { 0int }),
        {
            if s[i + k] != pat[k] {
                ok = false;
                proof {
                    assert(s@.subrange(i as int, i + pat.len())[k as int] == s@[i + k]);
                }
            } else {
                k = k + 1;
            }
        }
        if ok {
            assert(s@.subrange(i as int, i + pat.len()) =~= pat@);
            return Some(i);
        }
        i = i + 1;
    }
    proof {
        assert forall|j: int| from <= j implies !occurs_at(s@, pat@, j) by {
            if j < i {
            } else {
                assert(j + pat.len() > s.len());
            }
        }
    }
    None
}

/// Whether `pat` occurs in `s`.
pub fn contains_str(s: &str, pat: &str) -> (r: bool)
    ensures
        r == contains_seq(s@, pat@),
{
    let v = chars_of(s);
    let p = chars_of(pat);
    match find_from(&v, &p, 0) {
        Some(i) => true,
        None => {
            assert(!contains_seq(s@, pat@)) by {
                assert forall|j: int| !occurs_at(s@, pat@, j) by {
                    if j < 0 {
                    }
                }
            }
            false
        },
    }
}

/// Whether `i` is the first position at or after `from` where `pat` occurs.
pub proof fn lemma_first_unique(s: Seq<char>, pat: Seq<char>, from: int, i: int, j: int)
    requires
        is_first_at_or_after(s, pat, from, i),
        is_first_at_or_after(s, pat, from, j),
    ensures
        i == j,
{
}

/// The first position at or after `from` where `pat` occurs, if any.
pub open spec fn first_at_or_after(s: Seq<char>, pat: Seq<char>, from: int) -> Option<int> {
    if exists|i: int| is_first_at_or_after(s, pat, from, i) {
        Some(choose|i: int| is_first_at_or_after(s, pat, from, i))
    } else {
        None
    }
}

/// `find_from`, stated through `first_at_or_after`.
pub fn find_first(s: &Vec<char>, pat: &Vec<char>, from: usize) -> (r: Option<usize>)
    requires
        from <= s.len(),
    ensures
        match r {
            Some(i) => first_at_or_after(s@, pat@, from as int) == Some(i as int),
            None => first_at_or_after(s@, pat@, from as int) is None,
        },
{
    let r = find_from(s, pat, from);
    proof {
        match r {
            Some(i) => {
                let c = choose|c: int| is_first_at_or_after(s@, pat@, from as int, c);
                lemma_first_unique(s@, pat@, from as int, i as int, c);
            },
            None => {},
        }
    }
    r
}

/// The characters of `v` from `a` up to `b`.
pub fn sub_chars(v: &Vec<char>, a: usize, b: usize) -> (r: Vec<char>)
    requires
        a <= b <= v.len(),
    ensures
        r@ == v@.subrange(a as int, b as int),
{
    let mut out: Vec<char> = Vec::new();
    let mut i = a;
    while i < b
        invariant
            a <= i <= b,
            b <= v.len(),
            out@ == v@.subrange(a as int, i as int),
        decreases b - i,
    {
        out.push(v[i]);
        assert(out@ =~= v@.subrange(a as int, i + 1));
        i = i + 1;
    }
    out
}

/// `s` without its trailing semicolons.
pub open spec fn strip_semicolons(s: Seq<char>) -> Seq<char>
    decreases s.len(),
{
    if s.len() > 0 && s.last() == ';' {
        strip_semicolons(s.drop_last())
    } else {
        s
    }
}

/// `str::trim_end_matches(';')`.
pub fn trim_end_semicolons(s: &str) -> (r: String)
    ensures
        r@ == strip_semicolons(s@),
{
    let v = chars_of(s);
    let mut n = v.len();
    assert(v@.take(n as int) =~= v@);
    while n > 0 && v[n - 1] == ';'
        invariant
            n <= v.len(),
            strip_semicolons(v@.take(n as int)) == strip_semicolons(v@),
        decreases n,
    {
        assert(v@.take(n as int).drop_last() =~= v@.take(n - 1));
        n = n - 1;
    }
    let w = sub_chars(&v, 0, n);
    assert(w@ =~= v@.take(n as int));
    string_from_chars(w.as_slice())
}

/// The part of `s` before the first `sep`, or all of `s` without one
/// (the first piece of `str::split(sep)`).
pub open spec fn before_first(s: Seq<char>, sep: char) -> Seq<char> {
    if exists|i: int| 0 <= i < s.len() && s[i] == sep {
        s.take(choose|i: int| 0 <= i < s.len() && s[i] == sep && forall|j: int| 0 <= j < i ==> s[j] != sep)
    } else {
        s
    }
}

pub fn first_piece(s: &str, sep: char) -> (r: String)
    ensures
        r@ == before_first(s@, sep),
{
    let v = chars_of(s);
    let mut i: usize = 0;
    while i < v.len() && v[i] != sep
        invariant
            i <= v.len(),
            forall|j: int| 0 <= j < i ==> v@[j] != sep,
        decreases v.len() - i,
    {
        i = i + 1;
    }
    let w = sub_chars(&v, 0, i);
    proof {
        if i < v.len() {
            let c = choose|c: int| 0 <= c < v@.len() && v@[c] == sep && forall|j: int| 0 <= j < c ==> v@[j] != sep;
            assert(c == i);
        }
        assert(w@ =~= v@.take(i as int));
        if i == v.len() {
            assert(w@ =~= v@);
        }
    }
    string_from_chars(w.as_slice())
}

/// The part of `s` after the last `sep`, or all of `s` without one
/// (the last piece of `str::split(sep)`).
pub open spec fn after_last(s: Seq<char>, sep: char) -> Seq<char> {
    if exists|i: int| 0 <= i < s.len() && s[i] == sep {
        s.skip(1 + choose|i: int| 0 <= i < s.len() && s[i] == sep && forall|j: int| i < j < s.len() ==> s[j] != sep)
    } else {
        s
    }
}

pub fn last_piece(s: &str, sep: char) -> (r: String)
    ensures
        r@ == after_last(s@, sep),
{
    let v = chars_of(s);
    let mut i: usize = v.len();
    while i > 0 && v[i - 1] != sep
        invariant
            i <= v.len(),
            forall|j: int| i <= j < v.len() ==> v@[j] != sep,
        decreases i,
    {
        i = i - 1;
    }
    let w = sub_chars(&v, i, v.len());
    proof {
        if i > 0 {
            let c = choose|c: int| 0 <= c < v@.len() && v@[c] == sep && forall|j: int| c < j < v@.len() ==> v@[j] != sep;
            assert(c == i - 1);
        }
        assert(w@ =~= v@.skip(i as int));
        if i == 0 {
            assert(w@ =~= v@);
        }
    }
    string_from_chars(w.as_slice())
}

/// The ASCII digits of `s`, in order.
pub open spec fn digits_of(s: Seq<char>) -> Seq<char>
    decreases s.len(),
{
    if s.len() == 0 {
        Seq::empty()
    } else if is_ascii_digit(s.last()) {
        digits_of(s.drop_last()).push(s.last())
    } else {
        digits_of(s.drop_last())
    }
}

pub fn ascii_digits(s: &str) -> (r: String)
    ensures
        r@ == digits_of(s@),
{
    let v = chars_of(s);
    let mut out: Vec<char> = Vec::new();
    let mut i: usize = 0;
    while i < v.len()
        invariant
            i <= v.len(),
            out@ == digits_of(v@.take(i as int)),
        decreases v.len() - i,
    {
        assert(v@.take(i + 1).drop_last() =~= v@.take(i as int));
        if char_is_ascii_digit(v[i]) {
            out.push(v[i]);
        }
        i = i + 1;
    }
    assert(v@.take(v.len() as int) =~= v@);
    string_from_chars(out.as_slice())
}

proof fn lemma_leading_ws(s: Seq<char>)
    ensures
        leading_ws(s) <= s.len(),
        leading_ws(s) < s.len() ==> !is_ws(s[leading_ws(s) as int]),
    decreases s.len(),
{
    if s.len() > 0 && is_ws(s[0]) {
        lemma_leading_ws(s.skip(1));
        if leading_ws(s) < s.len() {
            assert(s.skip(1)[leading_ws(s.skip(1)) as int] == s[leading_ws(s) as int]);
        }
    }
}

proof fn lemma_trailing_ws(s: Seq<char>)
    ensures
        trailing_ws(s) <= s.len(),
        forall|j: int| 0 <= j < trailing_ws(s) ==> is_ws(#[trigger] s[s.len() - 1 - j]),
    decreases s.len(),
{
    if s.len() > 0 && is_ws(s.last()) {
        lemma_trailing_ws(s.drop_last());
        assert forall|j: int| 0 <= j < trailing_ws(s) implies is_ws(#[trigger] s[s.len() - 1 - j]) by {
            if j > 0 {
                assert(s.drop_last()[s.drop_last().len() - 1 - (j - 1)] == s[s.len() - 1 - j]);
            }
        }
    }
}

/// The trimmed text is the part of `s` that starts after its leading whitespace.
pub proof fn lemma_trimmed_within(s: Seq<char>)
    ensures
        trimmed(s).len() + leading_ws(s) <= s.len(),
        forall|i: int| 0 <= i < trimmed(s).len() ==> #[trigger] trimmed(s)[i] == s[i + leading_ws(s)],
{
    lemma_leading_ws(s);
    lemma_trailing_ws(s);
    let a = leading_ws(s) as int;
    let t = trailing_ws(s) as int;
    if a < s.len() {
        if a + t > s.len() {
            let j = s.len() - 1 - a;
            assert(0 <= j < t);
            assert(is_ws(s[s.len() - 1 - j]));
        }
    }
}

} // verus!
