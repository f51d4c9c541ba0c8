//! Character and string helpers used by the query language: Unicode
//! whitespace, trimming, decimal rendering and the number grammars of
//! std's `str::parse` for unsigned integers and floats.

use vstd::prelude::*;

verus! {

broadcast use vstd::string::group_string_axioms;

/// The characters of `s`, in order.
pub fn chars_of(s: &str) -> (res: Vec<char>)
    ensures
        res@ == s@,
{
    let mut v: Vec<char> = Vec::new();
    for c in it: s.chars()
        invariant
            v@ == it.seq().take(it.index() as int),
    {
        v.push(c);
    }
    assert(v@ =~= s@);
    v
}

/// Whether the two character sequences are equal.
pub fn chars_eq(a: &[char], b: &[char]) -> (r: bool)
    ensures
        r == (a@ == b@),
{
    if a.len() != b.len() {
        return false;
    }
    let mut k: usize = 0;
    while k < a.len()
        invariant
            a@.len() == b@.len(),
            k <= a@.len(),
            forall|i: int| 0 <= i < k ==> a@[i] == b@[i],
        decreases a@.len() - k,
    {
        if a[k] != b[k] {
            return false;
        }
        k = k + 1;
    }
    assert(a@ =~= b@);
    true
}

/// Whether the two strings are equal.
pub fn str_eq(a: &str, b: &str) -> (r: bool)
    ensures
        r == (a@ == b@),
{
    let x = chars_of(a);
    let y = chars_of(b);
    chars_eq(x.as_slice(), y.as_slice())
}

/// `String: FromIterator<&char>`: the string made of the given characters, in order.
#[verifier::external_body]
pub(crate) fn string_from_chars(v: &[char]) -> (res: String)
    ensures
        res@ == v@,
{
    v.iter().collect()
}

/// The Unicode `White_Space` property, which is what `char::is_whitespace` tests.
pub open spec fn spec_is_whitespace(c: char) -> bool {
    let u = c as u32;
    ||| 0x09 <= u <= 0x0D
    ||| u == 0x20
    ||| u == 0x85
    ||| u == 0xA0
    ||| u == 0x1680
    ||| 0x2000 <= u <= 0x200A
    ||| u == 0x2028
    ||| u == 0x2029
    ||| u == 0x202F
    ||| u == 0x205F
    ||| u == 0x3000
}

/// Whether `c` is Unicode whitespace.
pub fn is_whitespace(c: char) -> (res: bool)
    ensures
        res == spec_is_whitespace(c),
{
    let u = c as u32;
    (0x09 <= u && u <= 0x0D) || u == 0x20 || u == 0x85 || u == 0xA0 || u == 0x1680 || (0x2000 <= u
        && u <= 0x200A) || u == 0x2028 || u == 0x2029 || u == 0x202F || u == 0x205F || u == 0x3000
}

pub open spec fn is_ascii_alphanumeric(c: char) -> bool {
    ||| '0' <= c <= '9'
    ||| 'a' <= c <= 'z'
    ||| 'A' <= c <= 'Z'
}

/// What `char::is_alphanumeric` answers for a character (the Unicode
/// `Alphabetic` or `Numeric` property).
pub uninterp spec fn alphanumeric(c: char) -> bool;

/// Whether `c` is alphanumeric as far as it is known: the plain test for a
/// letter or a digit on ASCII characters, the answer named `alphanumeric`
/// on others.
pub open spec fn alnum(c: char) -> bool {
    if (c as u32) < 128 {
        is_ascii_alphanumeric(c)
    } else {
        alphanumeric(c)
    }
}

/// Calls `char::is_alphanumeric`. The answer is named `alphanumeric`; on ASCII
/// characters it is the plain test for a letter or a digit, which the
/// documentation of the two Unicode properties gives. Nothing more is stated
/// of other characters.
#[verifier::external_body]
pub(crate) fn is_alphanumeric(c: char) -> (res: bool)
    ensures
        res == alphanumeric(c),
        (c as u32) < 128 ==> (res <==> is_ascii_alphanumeric(c)),
{
    c.is_alphanumeric()
}

/// What `str::to_uppercase` returns for a string.
pub uninterp spec fn uppercase(s: Seq<char>) -> Seq<char>;

/// The upper case of `s` as far as it is known: `a`..`z` mapped to `A`..`Z`
/// for ASCII text; what `str::to_uppercase` returns (named `uppercase`) for
/// other text.
pub open spec fn upper_case_of(s: Seq<char>) -> Seq<char> {
    if is_ascii_chars(s) {
        s.map_values(|c: char| ascii_upper_char(c))
    } else {
        uppercase(s)
    }
}

/// What `str::to_lowercase` returns for a string.
pub uninterp spec fn lowercase(s: Seq<char>) -> Seq<char>;

pub open spec fn ascii_upper_char(c: char) -> char {
    if 'a' <= c <= 'z' {
        ((c as u32) - 32) as char
    } else {
        c
    }
}

pub open spec fn ascii_lower_char(c: char) -> char {
    if 'A' <= c <= 'Z' {
        ((c as u32) + 32) as char
    } else {
        c
    }
}

pub open spec fn is_ascii_chars(s: Seq<char>) -> bool {
    forall|i: int| 0 <= i < s.len() ==> (#[trigger] s[i] as u32) < 128
}

/// Calls `str::to_uppercase`. The result is named `uppercase`; for a string
/// of ASCII characters it is the string with `a`..`z` mapped to `A`..`Z`. The
/// full Unicode case mapping of other characters is not stated.
#[verifier::external_body]
pub(crate) fn to_uppercase(s: &str) -> (res: String)
    ensures
        res@ == uppercase(s@),
        is_ascii_chars(s@) ==> res@ == s@.map_values(|c: char| ascii_upper_char(c)),
{
    s.to_uppercase()
}

/// Calls `str::to_lowercase`. The result is named `lowercase`; for a string
/// of ASCII characters it is the string with `A`..`Z` mapped to `a`..`z`. The
/// full Unicode case mapping of other characters is not stated.
#[verifier::external_body]
pub(crate) fn to_lowercase(s: &str) -> (res: String)
    ensures
        res@ == lowercase(s@),
        is_ascii_chars(s@) ==> res@ == s@.map_values(|c: char| ascii_lower_char(c)),
{
    s.to_lowercase()
}

/// `s` without its leading whitespace.
pub open spec fn trim_start(s: Seq<char>) -> Seq<char>
    decreases s.len(),
{
    if s.len() > 0 && spec_is_whitespace(s[0]) {
        trim_start(s.drop_first())
    } else {
        s
    }
}

/// `s` without its trailing whitespace.
pub open spec fn trim_end(s: Seq<char>) -> Seq<char>
    decreases s.len(),
{
    if s.len() > 0 && spec_is_whitespace(s.last()) {
        trim_end(s.drop_last())
    } else {
        s
    }
}

/// `s` without leading and trailing whitespace, as `str::trim` gives it.
pub open spec fn trim(s: Seq<char>) -> Seq<char> {
    trim_end(trim_start(s))
}

proof fn lemma_trim_start_skip(s: Seq<char>, i: int)
    requires
        0 <= i <= s.len(),
        forall|k: int| 0 <= k < i ==> spec_is_whitespace(#[trigger] s[k]),
    ensures
        trim_start(s) == trim_start(s.subrange(i, s.len() as int)),
    decreases i,
{
    if i > 0 {
        assert(s.drop_first() =~= s.subrange(1, s.len() as int));
        let t = s.drop_first();
        assert forall|k: int| 0 <= k < i - 1 implies spec_is_whitespace(#[trigger] t[k]) by {
            assert(t[k] == s[k + 1]);
        }
        lemma_trim_start_skip(t, i - 1);
        assert(t.subrange(i - 1, t.len() as int) =~= s.subrange(i, s.len() as int));
    } else {
        assert(s.subrange(0, s.len() as int) =~= s);
    }
}

proof fn lemma_trim_end_cut(s: Seq<char>, j: int)
    requires
        0 <= j <= s.len(),
        forall|k: int| j <= k < s.len() ==> spec_is_whitespace(#[trigger] s[k]),
    ensures
        trim_end(s) == trim_end(s.subrange(0, j)),
    decreases s.len() - j,
{
    if j < s.len() {
        let t = s.drop_last();
        assert forall|k: int| j <= k < t.len() implies spec_is_whitespace(#[trigger] t[k]) by {
            assert(t[k] == s[k]);
        }
        lemma_trim_end_cut(t, j);
        assert(t.subrange(0, j) =~= s.subrange(0, j));
    } else {
        assert(s.subrange(0, j) =~= s);
    }
}

/// The characters of `s` without leading and trailing whitespace.
pub fn trim_chars(s: &[char]) -> (res: Vec<char>)
    ensures
        res@ == trim(s@),
{
    let n = s.len();
    let mut i: usize = 0;
    while i < n && is_whitespace(s[i])
        invariant
            i <= n,
            n == s@.len(),
            forall|k: int| 0 <= k < i ==> spec_is_whitespace(#[trigger] s@[k]),
        decreases n - i,
    {
        i = i + 1;
    }
    proof {
        lemma_trim_start_skip(s@, i as int);
    }
    let ghost rest = s@.subrange(i as int, n as int);
    assert(trim_start(rest) == rest);
    let mut j: usize = n;
    while j > i && is_whitespace(s[j - 1])
        invariant
            i <= j <= n,
            n == s@.len(),
            forall|k: int| j <= k < n ==> spec_is_whitespace(#[trigger] s@[k]),
        decreases j,
    {
        j = j - 1;
    }
    proof {
        assert forall|k: int| j - i <= k < rest.len() implies spec_is_whitespace(#[trigger] rest[k]) by {
            assert(rest[k] == s@[k + i]);
        }
        lemma_trim_end_cut(rest, (j - i) as int);
        assert(rest.subrange(0, (j - i) as int) =~= s@.subrange(i as int, j as int));
    }
    let mut res: Vec<char> = Vec::new();
    let mut k: usize = i;
    while k < j
        invariant
            i <= k <= j <= n,
            n == s@.len(),
            res@ == s@.subrange(i as int, k as int),
        decreases j - k,
    {
        res.push(s[k]);
        k = k + 1;
        assert(res@ =~= s@.subrange(i as int, k as int));
    }
    res
}

/// `s` without leading and trailing whitespace.
pub fn trim_str(s: &str) -> (res: String)
    ensures
        res@ == trim(s@),
{
    let cs = chars_of(s);
    let t = trim_chars(cs.as_slice());
    string_from_chars(t.as_slice())
}

/// The decimal digit character for `d`.
pub open spec fn digit_char(d: nat) -> char {
    ((d + 48) as u32) as char
}

/// The decimal representation of `n`, as `Display` writes it.
pub open spec fn decimal(n: nat) -> Seq<char>
    decreases n,
{
    if n < 10 {
        seq![digit_char(n)]
    } else {
        decimal(n / 10).push(digit_char(n % 10))
    }
}

fn digit_to_char(d: usize) -> (c: char)
    requires
        d < 10,
    ensures
        c == digit_char(d as nat),
{
    if d == 0 {
        '0'
    } else if d == 1 {
        '1'
    } else if d == 2 {
        '2'
    } else if d == 3 {
        '3'
    } else if d == 4 {
        '4'
    } else if d == 5 {
        '5'
    } else if d == 6 {
        '6'
    } else if d == 7 {
        '7'
    } else if d == 8 {
        '8'
    } else {
        '9'
    }
}

fn decimal_chars(n: u64) -> (res: Vec<char>)
    ensures
        res@ == decimal(n as nat),
    decreases n,
{
    if n < 10 {
        let mut v: Vec<char> = Vec::new();
        v.push(digit_to_char(n as usize));
        assert(v@ =~= decimal(n as nat));
        v
    } else {
        let mut v = decimal_chars(n / 10);
        v.push(digit_to_char((n % 10) as usize));
        v
    }
}

/// The decimal representation of `n`.
pub fn usize_to_decimal(n: usize) -> (res: String)
    ensures
        res@ == decimal(n as nat),
{
    let v = decimal_chars(n as u64);
    string_from_chars(v.as_slice())
}

/// The decimal representation of `n`.
pub fn u64_to_decimal(n: u64) -> (res: String)
    ensures
        res@ == decimal(n as nat),
{
    let v = decimal_chars(n);
    string_from_chars(v.as_slice())
}

/// The digits of a number are decimal digits, the first of them not a sign.
pub proof fn lemma_decimal_digits(n: nat)
    ensures
        decimal(n).len() >= 1,
        forall|i: int| 0 <= i < decimal(n).len() ==> is_ascii_digit(#[trigger] decimal(n)[i]),
    decreases n,
{
    if n >= 10 {
        lemma_decimal_digits(n / 10);
        assert forall|i: int| 0 <= i < decimal(n).len() implies is_ascii_digit(#[trigger] decimal(n)[i]) by {
            if i < decimal(n / 10).len() {
                assert(decimal(n)[i] == decimal(n / 10)[i]);
            }
        }
    }
}

/// Reading digits one after the other: the second part continues from
/// where the first stopped.
proof fn lemma_scan_concat(a: Seq<char>, b: Seq<char>, acc: nat, max: nat)
    ensures
        scan_digits(a + b, acc, max) == (match scan_digits(a, acc, max) {
            Ok(v) => scan_digits(b, v, max),
            Err(e) => Err(e),
        }),
    decreases a.len(),
{
    if a.len() > 0 {
        assert((a + b).drop_first() =~= a.drop_first() + b);
        assert((a + b)[0] == a[0]);
        if is_ascii_digit(a[0]) && acc * 10 + digit_value(a[0]) <= max {
            lemma_scan_concat(a.drop_first(), b, acc * 10 + digit_value(a[0]), max);
        }
    } else {
        assert(a + b =~= b);
    }
}

/// The decimal text of a number is read back as that number.
pub proof fn lemma_parse_decimal(n: nat, max: nat)
    requires
        n <= max,
    ensures
        parse_unsigned(decimal(n), max) == Ok::<nat, IntErrorKind>(n),
        scan_digits(decimal(n), 0, max) == Ok::<nat, IntErrorKind>(n),
    decreases n,
{
    lemma_decimal_digits(n);
    let d = digit_char(n % 10);
    assert(digit_value(d) == n % 10);
    assert(is_ascii_digit(d));
    assert(seq![d].drop_first() =~= Seq::<char>::empty());
    if n < 10 {
        assert(decimal(n) == seq![d]);
        assert(scan_digits(seq![d], 0, max) == scan_digits(seq![d].drop_first(), n, max));
    } else {
        lemma_parse_decimal(n / 10, max);
        lemma_scan_concat(decimal(n / 10), seq![d], 0, max);
        assert(decimal(n) =~= decimal(n / 10) + seq![d]);
        assert((n / 10) * 10 + n % 10 == n) by (nonlinear_arith);
        assert(scan_digits(seq![d], n / 10, max) == scan_digits(seq![d].drop_first(), n, max));
    }
    assert(decimal(n)[0] != '+' && decimal(n)[0] != '-');
}

pub open spec fn is_ascii_digit(c: char) -> bool {
    '0' <= c <= '9'
}

pub open spec fn digit_value(c: char) -> nat {
    ((c as u32) - 48) as nat
}

/// Why `str::parse` rejected a string as an integer (the kinds of `ParseIntError`
/// that an unsigned type can give).
#[derive(Clone, Copy, PartialEq, Eq, Structural, Debug)]
pub enum IntErrorKind {
    Empty,
    InvalidDigit,
    PosOverflow,
}

/// The `Display` text of a `ParseIntError` of the given kind.
pub open spec fn int_error_text(k: IntErrorKind) -> Seq<char> {
    match k {
        IntErrorKind::Empty => "cannot parse integer from empty string"@,
        IntErrorKind::InvalidDigit => "invalid digit found in string"@,
        IntErrorKind::PosOverflow => "number too large to fit in target type"@,
    }
}

impl IntErrorKind {
    /// The text that the error displays.
    pub fn message(&self) -> (res: &'static str)
        ensures
            res@ == int_error_text(*self),
    {
        match *self {
            IntErrorKind::Empty => "cannot parse integer from empty string",
            IntErrorKind::InvalidDigit => "invalid digit found in string",
            IntErrorKind::PosOverflow => "number too large to fit in target type",
        }
    }
}

/// Reads the digits `ds` onto `acc`, left to right, as the std parser does:
/// a non-digit is an error, and so is a value above `max`, whichever comes first.
pub open spec fn scan_digits(ds: Seq<char>, acc: nat, max: nat) -> Result<nat, IntErrorKind>
    decreases ds.len(),
{
    if ds.len() == 0 {
        Ok(acc)
    } else if !is_ascii_digit(ds[0]) {
        Err(IntErrorKind::InvalidDigit)
    } else if acc * 10 + digit_value(ds[0]) > max {
        Err(IntErrorKind::PosOverflow)
    } else {
        scan_digits(ds.drop_first(), acc * 10 + digit_value(ds[0]), max)
    }
}

/// What `str::parse` gives for an unsigned integer type whose largest value is `max`.
pub open spec fn parse_unsigned(s: Seq<char>, max: nat) -> Result<nat, IntErrorKind> {
    if s.len() == 0 {
        Err(IntErrorKind::Empty)
    } else if (s[0] == '+' || s[0] == '-') && s.len() == 1 {
        Err(IntErrorKind::InvalidDigit)
    } else if s[0] == '+' {
        scan_digits(s.drop_first(), 0, max)
    } else {
        scan_digits(s, 0, max)
    }
}

/// Parses `s` as an unsigned integer no larger than `max`, as `str::parse` does.
pub fn parse_unsigned_upto(s: &[char], max: u64) -> (res: Result<u64, IntErrorKind>)
    ensures
        match parse_unsigned(s@, max as nat) {
            Ok(v) => res == Ok::<u64, IntErrorKind>(v as u64) && v <= max,
            Err(e) => res == Err::<u64, IntErrorKind>(e),
        },
{
    let n = s.len();
    if n == 0 {
        return Err(IntErrorKind::Empty);
    }
    if (s[0] == '+' || s[0] == '-') && n == 1 {
        return Err(IntErrorKind::InvalidDigit);
    }
    let start: usize = if s[0] == '+' {
        1
    } else {
        0
    };
    let ghost digits = s@.subrange(start as int, n as int);
    assert(s[0] == '+' ==> digits =~= s@.drop_first());
    assert(s[0] != '+' ==> digits =~= s@);
    assert(parse_unsigned(s@, max as nat) == scan_digits(digits, 0, max as nat));
    let mut acc: u64 = 0;
    let mut k: usize = start;
    while k < n
        invariant
            start <= k <= n,
            n == s@.len(),
            acc <= max,
            parse_unsigned(s@, max as nat) == scan_digits(digits, 0, max as nat),
            scan_digits(digits, 0, max as nat) == scan_digits(
                s@.subrange(k as int, n as int),
                acc as nat,
                max as nat,
            ),
        decreases n - k,
    {
        let c = s[k];
        let ghost rest = s@.subrange(k as int, n as int);
        assert(rest[0] == c);
        assert(rest.drop_first() =~= s@.subrange(k + 1, n as int));
        if !('0' <= c && c <= '9') {
            assert(scan_digits(rest, acc as nat, max as nat) == Err::<nat, IntErrorKind>(IntErrorKind::InvalidDigit));
            return Err(IntErrorKind::InvalidDigit);
        }
        let d = ((c as u32) - 48) as u64;
        assert(d as nat == digit_value(c));
        if d > max || acc > (max - d) / 10 {
            assert(acc * 10 + d > max) by (nonlinear_arith)
                requires
                    d > max || acc > (max - d) / 10,
            ;
            assert(scan_digits(rest, acc as nat, max as nat) == Err::<nat, IntErrorKind>(IntErrorKind::PosOverflow));
            return Err(IntErrorKind::PosOverflow);
        }
        assert(acc * 10 + d <= max) by (nonlinear_arith)
            requires
                acc <= (max - d) / 10,
                d <= max,
        ;
        acc = acc * 10 + d;
        k = k + 1;
    }
    proof {
        assert(s@.subrange(n as int, n as int).len() == 0);
    }
    Ok(acc)
}


pub open spec fn all_digits(s: Seq<char>) -> bool {
    forall|i: int| 0 <= i < s.len() ==> is_ascii_digit(#[trigger] s[i])
}

/// `Digit+ | Digit+ '.' Digit* | Digit* '.' Digit+`
pub open spec fn is_mantissa(m: Seq<char>) -> bool {
    ||| m.len() > 0 && all_digits(m)
    ||| exists|p: int|
        0 <= p < m.len() && #[trigger] m[p] == '.' && all_digits(m.take(p)) && all_digits(
            m.skip(p + 1),
        ) && m.len() > 1
}

/// What follows the exponent marker: `Sign? Digit+`
pub open spec fn is_exponent_digits(t: Seq<char>) -> bool {
    let d = if t.len() > 0 && (t[0] == '+' || t[0] == '-') {
        t.drop_first()
    } else {
        t
    };
    d.len() > 0 && all_digits(d)
}

/// `Number ::= Mantissa Exp?` with `Exp ::= 'e' Sign? Digit+`
pub open spec fn is_number(s: Seq<char>) -> bool {
    ||| is_mantissa(s)
    ||| exists|k: int|
        0 <= k < s.len() && ascii_lower_code(#[trigger] s[k]) == 101 && is_mantissa(s.take(k))
            && is_exponent_digits(s.skip(k + 1))
}

pub open spec fn eq_ignore_ascii_case(s: Seq<char>, w: Seq<char>) -> bool {
    s.len() == w.len() && forall|i: int| 0 <= i < s.len() ==> ascii_lower_code(#[trigger] s[i]) == w[i] as u32
}

/// The strings that `str::parse` accepts as a float: its documented grammar
/// `Sign? ( 'inf' | 'infinity' | 'nan' | Number )`, read without regard to
/// ASCII case.
pub open spec fn is_float_literal(s: Seq<char>) -> bool {
    let b = if s.len() > 0 && (s[0] == '+' || s[0] == '-') {
        s.drop_first()
    } else {
        s
    };
    ||| eq_ignore_ascii_case(b, seq!['i', 'n', 'f'])
    ||| eq_ignore_ascii_case(b, seq!['i', 'n', 'f', 'i', 'n', 'i', 't', 'y'])
    ||| eq_ignore_ascii_case(b, seq!['n', 'a', 'n'])
    ||| is_number(b)
}

/// The `Display` text of the `ParseFloatError` that `str::parse` gives for
/// the string `s`, which is not a float literal.
pub open spec fn float_error_text(s: Seq<char>) -> Seq<char> {
    if s.len() == 0 {
        "cannot parse float from empty string"@
    } else {
        "invalid float literal"@
    }
}

/// The text of the float parse error for `s`.
pub fn float_error_message(s: &str) -> (res: &'static str)
    ensures
        res@ == float_error_text(s@),
{
    if s.is_empty() {
        "cannot parse float from empty string"
    } else {
        "invalid float literal"
    }
}

/// The code of `c` with ASCII upper case letters taken to lower case.
pub open spec fn ascii_lower_code(c: char) -> u32 {
    if 'A' <= c <= 'Z' {
        ((c as u32) + 32) as u32
    } else {
        c as u32
    }
}

fn lower_code(c: char) -> (r: u32)
    ensures
        r == ascii_lower_code(c),
{
    let u = c as u32;
    if 65 <= u && u <= 90 {
        u + 32
    } else {
        u
    }
}

fn all_digits_in(s: &[char], lo: usize, hi: usize) -> (r: bool)
    requires
        lo <= hi <= s@.len(),
    ensures
        r == all_digits(s@.subrange(lo as int, hi as int)),
{
    let mut k = lo;
    while k < hi
        invariant
            lo <= k <= hi <= s@.len(),
            forall|i: int| lo <= i < k ==> is_ascii_digit(#[trigger] s@[i]),
        decreases hi - k,
    {
        if !('0' <= s[k] && s[k] <= '9') {
            assert(s@.subrange(lo as int, hi as int)[k - lo] == s@[k as int]);
            return false;
        }
        k = k + 1;
    }
    assert forall|i: int| 0 <= i < hi - lo implies is_ascii_digit(
        #[trigger] s@.subrange(lo as int, hi as int)[i],
    ) by {
        assert(s@.subrange(lo as int, hi as int)[i] == s@[lo + i]);
    }
    true
}

fn mantissa_in(s: &[char], lo: usize, hi: usize) -> (r: bool)
    requires
        lo <= hi <= s@.len(),
    ensures
        r == is_mantissa(s@.subrange(lo as int, hi as int)),
{
    let ghost m = s@.subrange(lo as int, hi as int);
    let mut p = lo;
    while p < hi && s[p] != '.'
        invariant
            lo <= p <= hi <= s@.len(),
            forall|i: int| lo <= i < p ==> s@[i] != '.',
        decreases hi - p,
    {
        p = p + 1;
    }
    if p == hi {
        let r = hi > lo && all_digits_in(s, lo, hi);
        assert(!exists|q: int|
            0 <= q < m.len() && #[trigger] m[q] == '.' && all_digits(m.take(q)) && all_digits(
                m.skip(q + 1),
            ) && m.len() > 1) by {
            assert forall|q: int| 0 <= q < m.len() implies #[trigger] m[q] != '.' by {
                assert(m[q] == s@[lo + q]);
            }
        }
        return r;
    }
    let left = all_digits_in(s, lo, p);
    let right = all_digits_in(s, p + 1, hi);
    let r = left && right && hi - lo > 1;
    let ghost q0 = p - lo;
    assert(m[q0] == '.');
    assert(m.take(q0) =~= s@.subrange(lo as int, p as int));
    assert(m.skip(q0 + 1) =~= s@.subrange(p + 1, hi as int));
    if !r {
        assert(!(m.len() > 0 && all_digits(m))) by {
            assert(!is_ascii_digit(m[q0]));
        }
        assert forall|q: int|
            0 <= q < m.len() && #[trigger] m[q] == '.' implies !(all_digits(m.take(q)) && all_digits(
                m.skip(q + 1),
            ) && m.len() > 1) by {
            if q < q0 {
                assert(m[q] == s@[lo + q]);
            } else if q > q0 {
                assert(m.take(q)[q0] == '.');
                assert(!is_ascii_digit(m.take(q)[q0]));
            }
        }
    }
    r
}

fn exponent_in(s: &[char], lo: usize, hi: usize) -> (r: bool)
    requires
        lo <= hi <= s@.len(),
    ensures
        r == is_exponent_digits(s@.subrange(lo as int, hi as int)),
{
    let ghost t = s@.subrange(lo as int, hi as int);
    if lo < hi && (s[lo] == '+' || s[lo] == '-') {
        assert(t.drop_first() =~= s@.subrange(lo + 1, hi as int));
        hi > lo + 1 && all_digits_in(s, lo + 1, hi)
    } else {
        hi > lo && all_digits_in(s, lo, hi)
    }
}

fn number_in(s: &[char], lo: usize, hi: usize) -> (r: bool)
    requires
        lo <= hi <= s@.len(),
    ensures
        r == is_number(s@.subrange(lo as int, hi as int)),
{
    let ghost b = s@.subrange(lo as int, hi as int);
    let mut k = lo;
    while k < hi && lower_code(s[k]) != 101
        invariant
            lo <= k <= hi <= s@.len(),
            forall|i: int| lo <= i < k ==> ascii_lower_code(s@[i]) != 101,
        decreases hi - k,
    {
        k = k + 1;
    }
    if k == hi {
        let r = mantissa_in(s, lo, hi);
        assert forall|q: int| 0 <= q < b.len() implies ascii_lower_code(#[trigger] b[q]) != 101 by {
            assert(b[q] == s@[lo + q]);
        }
        return r;
    }
    let ghost k0 = k - lo;
    assert(b[k0] == s@[k as int]);
    assert(b.take(k0) =~= s@.subrange(lo as int, k as int));
    assert(b.skip(k0 + 1) =~= s@.subrange(k + 1, hi as int));
    let r = mantissa_in(s, lo, k) && exponent_in(s, k + 1, hi);
    proof {
        // a mantissa holds no exponent marker, so the marker is the first one
        assert(!is_mantissa(b)) by {
            assert(!is_ascii_digit(b[k0]));
            assert forall|p: int|
                0 <= p < b.len() && #[trigger] b[p] == '.' implies !(all_digits(b.take(p))
                && all_digits(b.skip(p + 1))) by {
                if p < k0 {
                    assert(b.skip(p + 1)[k0 - p - 1] == b[k0]);
                    assert(!is_ascii_digit(b.skip(p + 1)[k0 - p - 1]));
                } else if p > k0 {
                    assert(b.take(p)[k0] == b[k0]);
                    assert(!is_ascii_digit(b.take(p)[k0]));
                }
            }
        }
        if !r {
            assert forall|q: int|
                0 <= q < b.len() && ascii_lower_code(#[trigger] b[q]) == 101 implies !(is_mantissa(
                b.take(q),
            ) && is_exponent_digits(b.skip(q + 1))) by {
                if q < k0 {
                    assert(b[q] == s@[lo + q]);
                } else if q > k0 {
                    let m = b.take(q);
                    assert(m[k0] == b[k0]);
                    assert(!is_ascii_digit(m[k0]));
                    assert forall|p: int|
                        0 <= p < m.len() && #[trigger] m[p] == '.' implies !(all_digits(m.take(p))
                        && all_digits(m.skip(p + 1))) by {
                        if p < k0 {
                            assert(m.skip(p + 1)[k0 - p - 1] == m[k0]);
                            assert(!is_ascii_digit(m.skip(p + 1)[k0 - p - 1]));
                        } else if p > k0 {
                            assert(m.take(p)[k0] == m[k0]);
                            assert(!is_ascii_digit(m.take(p)[k0]));
                        }
                    }
                }
            }
        }
    }
    r
}

fn eq_ignore_case_in(s: &[char], lo: usize, hi: usize, w: &[char]) -> (r: bool)
    requires
        lo <= hi <= s@.len(),
    ensures
        r == eq_ignore_ascii_case(s@.subrange(lo as int, hi as int), w@),
{
    if hi - lo != w.len() {
        return false;
    }
    let mut k: usize = 0;
    while k < w.len()
        invariant
            lo <= hi <= s@.len(),
            hi - lo == w@.len(),
            k <= w@.len(),
            forall|i: int| 0 <= i < k ==> ascii_lower_code(s@[lo + i]) == w@[i] as u32,
        decreases w@.len() - k,
    {
        if lower_code(s[lo + k]) != w[k] as u32 {
            assert(s@.subrange(lo as int, hi as int)[k as int] == s@[lo + k]);
            return false;
        }
        k = k + 1;
    }
    assert forall|i: int| 0 <= i < hi - lo implies ascii_lower_code(
        #[trigger] s@.subrange(lo as int, hi as int)[i],
    ) == w@[i] as u32 by {
        assert(s@.subrange(lo as int, hi as int)[i] == s@[lo + i]);
    }
    true
}

/// Whether `str::parse` accepts `s` as a float.
pub fn is_float_literal_chars(s: &[char]) -> (r: bool)
    ensures
        r == is_float_literal(s@),
{
    let n = s.len();
    let lo: usize = if n > 0 && (s[0] == '+' || s[0] == '-') {
        1
    } else {
        0
    };
    let ghost b = s@.subrange(lo as int, n as int);
    assert(lo == 1 ==> b =~= s@.drop_first());
    assert(lo == 0 ==> b =~= s@);
    let inf = ['i', 'n', 'f'];
    let infinity = ['i', 'n', 'f', 'i', 'n', 'i', 't', 'y'];
    let nan = ['n', 'a', 'n'];
    assert(inf@ =~= seq!['i', 'n', 'f']);
    assert(infinity@ =~= seq!['i', 'n', 'f', 'i', 'n', 'i', 't', 'y']);
    assert(nan@ =~= seq!['n', 'a', 'n']);
    eq_ignore_case_in(s, lo, n, &inf) || eq_ignore_case_in(s, lo, n, &infinity) || eq_ignore_case_in(
        s,
        lo,
        n,
        &nan,
    ) || number_in(s, lo, n)
}


/// The pieces of `s` between occurrences of `c`, as `str::split` gives them:
/// `n` separators give `n + 1` pieces, and the empty string one empty piece.
pub open spec fn split_seq(s: Seq<char>, c: char) -> Seq<Seq<char>>
    decreases s.len(),
{
    if s.len() == 0 {
        seq![seq![]]
    } else {
        let rest = split_seq(s.drop_first(), c);
        if s[0] == c {
            seq![seq![]] + rest
        } else {
            rest.update(0, seq![s[0]] + rest[0])
        }
    }
}

/// The pieces joined with `sep` between each two, as `join` on a slice of
/// strings gives them.
pub open spec fn join_seq(parts: Seq<Seq<char>>, sep: Seq<char>) -> Seq<char>
    decreases parts.len(),
{
    if parts.len() == 0 {
        seq![]
    } else if parts.len() == 1 {
        parts[0]
    } else {
        parts[0] + sep + join_seq(parts.drop_first(), sep)
    }
}

pub proof fn lemma_split_len(s: Seq<char>, c: char)
    ensures
        split_seq(s, c).len() >= 1,
    decreases s.len(),
{
    if s.len() > 0 {
        lemma_split_len(s.drop_first(), c);
    }
}

/// A string without the separator is a single piece.
pub proof fn lemma_split_without_separator(a: Seq<char>, c: char)
    requires
        !a.contains(c),
    ensures
        split_seq(a, c) == seq![a],
    decreases a.len(),
{
    if a.len() > 0 {
        assert(!a.drop_first().contains(c)) by {
            if a.drop_first().contains(c) {
                let j = choose|j: int| 0 <= j < a.drop_first().len() && a.drop_first()[j] == c;
                assert(a[j + 1] == c);
            }
        }
        lemma_split_without_separator(a.drop_first(), c);
        assert(a[0] != c);
        assert(seq![a[0]] + a.drop_first() =~= a);
        let rest = split_seq(a.drop_first(), c);
        assert(split_seq(a, c) == rest.update(0, seq![a[0]] + rest[0]));
        assert(split_seq(a, c) =~= seq![a]);
    } else {
        assert(a =~= seq![]);
    }
}

/// Splitting `a`, the separator, then `b` gives `a` and then the pieces of `b`.
pub proof fn lemma_split_after_piece(a: Seq<char>, b: Seq<char>, c: char)
    requires
        !a.contains(c),
    ensures
        split_seq(a + seq![c] + b, c) == seq![a] + split_seq(b, c),
    decreases a.len(),
{
    let s = a + seq![c] + b;
    if a.len() == 0 {
        assert(s.drop_first() =~= b);
        assert(s[0] == c);
        assert(a =~= seq![]);
        assert(split_seq(s, c) == seq![seq![]] + split_seq(b, c));
    } else {
        assert(!a.drop_first().contains(c)) by {
            if a.drop_first().contains(c) {
                let j = choose|j: int| 0 <= j < a.drop_first().len() && a.drop_first()[j] == c;
                assert(a[j + 1] == c);
            }
        }
        lemma_split_after_piece(a.drop_first(), b, c);
        assert(s.drop_first() =~= a.drop_first() + seq![c] + b);
        assert(s[0] == a[0]);
        assert(a[0] != c);
        assert(seq![a[0]] + a.drop_first() =~= a);
        let rest = split_seq(s.drop_first(), c);
        assert(split_seq(s, c) == rest.update(0, seq![s[0]] + rest[0]));
        assert(split_seq(s, c) =~= seq![a] + split_seq(b, c));
    }
}

/// Splitting what was joined with the separator gives the pieces back, when
/// there is at least one piece and none holds the separator.
pub proof fn lemma_split_join(parts: Seq<Seq<char>>, c: char)
    requires
        parts.len() >= 1,
        forall|i: int| 0 <= i < parts.len() ==> !(#[trigger] parts[i]).contains(c),
    ensures
        split_seq(join_seq(parts, seq![c]), c) == parts,
    decreases parts.len(),
{
    if parts.len() == 1 {
        lemma_split_without_separator(parts[0], c);
        assert(seq![parts[0]] =~= parts);
    } else {
        let rest = parts.drop_first();
        assert forall|i: int| 0 <= i < rest.len() implies !(#[trigger] rest[i]).contains(c) by {
            assert(rest[i] == parts[i + 1]);
        }
        lemma_split_join(rest, c);
        assert(!parts[0].contains(c));
        lemma_split_after_piece(parts[0], join_seq(rest, seq![c]), c);
        assert(seq![parts[0]] + rest =~= parts);
    }
}

/// The pieces of `s` between the occurrences of `c`, as `str::split` gives them.
pub fn split_on(s: &str, c: char) -> (res: Vec<String>)
    ensures
        res@.map_values(|p: String| p@) == split_seq(s@, c),
{
    let cs = chars_of(s);
    let n = cs.len();
    let mut done: Vec<String> = Vec::new();
    let mut cur: Vec<char> = Vec::new();
    let mut k: usize = 0;
    assert(cur@ + cs@.subrange(0, n as int) =~= s@);
    assert(done@.map_values(|p: String| p@) + split_seq(s@, c) =~= split_seq(s@, c));
    while k < n
        invariant
            n == cs@.len(),
            cs@ == s@,
            k <= n,
            !cur@.contains(c),
            split_seq(s@, c) == done@.map_values(|p: String| p@) + split_seq(cur@ + cs@.subrange(k as int, n as int), c),
        decreases n - k,
    {
        let x = cs[k];
        let ghost rest = cs@.subrange(k as int + 1, n as int);
        assert(cs@.subrange(k as int, n as int) =~= seq![x] + rest);
        if x == c {
            proof {
                lemma_split_after_piece(cur@, rest, c);
                assert(cur@ + (seq![x] + rest) =~= cur@ + seq![c] + rest);
            }
            let piece = string_from_chars(cur.as_slice());
            let ghost before = done@;
            done.push(piece);
            assert(done@.map_values(|p: String| p@) =~= before.map_values(|p: String| p@) + seq![piece@]);
            cur = Vec::new();
            assert(cur@ + rest =~= rest);
        } else {
            let ghost old_cur = cur@;
            cur.push(x);
            assert(old_cur + (seq![x] + rest) =~= cur@ + rest);
            assert(!cur@.contains(c)) by {
                if cur@.contains(c) {
                    let j = choose|j: int| 0 <= j < cur@.len() && cur@[j] == c;
                    if j < old_cur.len() {
                        assert(old_cur[j] == c);
                    }
                }
            }
        }
        k = k + 1;
    }
    proof {
        assert(cur@ + cs@.subrange(n as int, n as int) =~= cur@);
        lemma_split_without_separator(cur@, c);
    }
    let piece = string_from_chars(cur.as_slice());
    let ghost before = done@;
    done.push(piece);
    assert(done@.map_values(|p: String| p@) =~= before.map_values(|p: String| p@) + seq![piece@]);
    done
}

/// The pieces joined with `sep` between each two.
pub fn join_with(parts: &[String], sep: &str) -> (res: String)
    ensures
        res@ == join_seq(parts@.map_values(|p: String| p@), sep@),
{
    let ghost ps = parts@.map_values(|p: String| p@);
    let n = parts.len();
    if n == 0 {
        return String::new();
    }
    // joined from the back: `acc` is the join of the pieces from `k` on
    let mut acc = parts[n - 1].clone();
    let mut k: usize = n - 1;
    assert(ps.subrange(k as int, n as int) =~= seq![ps[k as int]]);
    while k > 0
        invariant
            0 <= k < n == parts@.len(),
            ps == parts@.map_values(|p: String| p@),
            acc@ == join_seq(ps.subrange(k as int, n as int), sep@),
        decreases k,
    {
        let ghost tail = ps.subrange(k as int, n as int);
        let mut next = parts[k - 1].clone();
        next.append(sep);
        next.append(acc.as_str());
        acc = next;
        k = k - 1;
        assert(ps.subrange(k as int, n as int).drop_first() =~= tail);
        assert(ps.subrange(k as int, n as int)[0] == parts@[k as int]@);
    }
    assert(ps.subrange(0, n as int) =~= ps);
    acc
}
/// `s` without its space characters.
pub open spec fn without_spaces(s: Seq<char>) -> Seq<char>
    decreases s.len(),
{
    if s.len() == 0 {
        seq![]
    } else {
        let r = without_spaces(s.drop_last());
        if s.last() == ' ' {
            r
        } else {
            r.push(s.last())
        }
    }
}


/// The characters of `s` with every space left out.
pub fn remove_spaces(s: &[char]) -> (res: Vec<char>)
    ensures
        res@ == without_spaces(s@),
{
    let mut out: Vec<char> = Vec::new();
    let mut k: usize = 0;
    while k < s.len()
        invariant
            k <= s@.len(),
            out@ == without_spaces(s@.take(k as int)),
        decreases s@.len() - k,
    {
        assert(s@.take(k + 1).drop_last() =~= s@.take(k as int));
        if s[k] != ' ' {
            out.push(s[k]);
        }
        k = k + 1;
    }
    assert(s@.take(k as int) =~= s@);
    out
}

} // verus!
