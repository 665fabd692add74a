//! Character-level string helpers with exact contracts over `Seq<char>`.
use vstd::prelude::*;
use vstd::string::*;

verus! {

// ---------------------------------------------------------------------------
// Specifications
// ---------------------------------------------------------------------------

/// `c` is an ASCII digit.
pub open spec fn is_digit(c: char) -> bool {
    '0' <= c <= '9'
}

/// `c` is an ASCII letter or digit.
pub open spec fn is_ascii_alnum(c: char) -> bool {
    ||| 'a' <= c <= 'z'
    ||| 'A' <= c <= 'Z'
    ||| '0' <= c <= '9'
}

/// `c` is an ASCII hexadecimal digit (either case).
pub open spec fn is_hex_digit(c: char) -> bool {
    ||| '0' <= c <= '9'
    ||| 'a' <= c <= 'f'
    ||| 'A' <= c <= 'F'
}

/// The decimal digit character for `d < 10`.
pub open spec fn digit_char(d: nat) -> char {
    if d == 0 { '0' }
    else if d == 1 { '1' }
    else if d == 2 { '2' }
    else if d == 3 { '3' }
    else if d == 4 { '4' }
    else if d == 5 { '5' }
    else if d == 6 { '6' }
    else if d == 7 { '7' }
    else if d == 8 { '8' }
    else { '9' }
}

/// The lower-case hexadecimal digit character for `d < 16`.
pub open spec fn hex_char(d: nat) -> char {
    if d < 10 { digit_char(d) }
    else if d == 10 { 'a' }
    else if d == 11 { 'b' }
    else if d == 12 { 'c' }
    else if d == 13 { 'd' }
    else if d == 14 { 'e' }
    else { 'f' }
}

/// The numeric value of a decimal digit character.
pub open spec fn digit_value(c: char) -> nat {
    (c as int - '0' as int) as nat
}

/// Decimal rendering of `n`, without leading zeros (`"0"` for zero),
/// as `Display` for unsigned integers writes it.
pub open spec fn decimal(n: nat) -> Seq<char>
    decreases n,
{
    if n < 10 {
        seq![digit_char(n)]
    } else {
        decimal(n / 10).push(digit_char(n % 10))
    }
}

/// Lower-case hexadecimal rendering of `n`, without leading zeros
/// (`"0"` for zero), as the `{:x}` format writes it.
pub open spec fn hex(n: nat) -> Seq<char>
    decreases n,
{
    if n < 16 {
        seq![hex_char(n)]
    } else {
        hex(n / 16).push(hex_char(n % 16))
    }
}

/// Two-digit zero-padded decimal rendering of `n < 100`, as `{:02}` writes it.
pub open spec fn two_digits(n: nat) -> Seq<char> {
    seq![digit_char(n / 10), digit_char(n % 10)]
}

/// The value of a sequence of decimal digits.
pub open spec fn digits_value(s: Seq<char>) -> nat
    decreases s.len(),
{
    if s.len() == 0 {
        0
    } else {
        digits_value(s.drop_last()) * 10 + digit_value(s.last())
    }
}

/// Every character of `s` is a decimal digit.
pub open spec fn all_digits(s: Seq<char>) -> bool {
    forall|i: int| 0 <= i < s.len() ==> is_digit(#[trigger] s[i])
}

/// What `u16::from_str` gives: an optional leading `+`, then one or more
/// decimal digits whose value fits in a `u16`.
pub open spec fn parse_u16_spec(s: Seq<char>) -> Option<u16> {
    let digits = if s.len() > 0 && s[0] == '+' { s.drop_first() } else { s };
    if digits.len() > 0 && all_digits(digits) && digits_value(digits) <= 0xffff {
        Some(digits_value(digits) as u16)
    } else {
        None
    }
}

/// `prefix` is a prefix of `s`.
pub open spec fn starts_with(s: Seq<char>, prefix: Seq<char>) -> bool {
    prefix.len() <= s.len() && s.take(prefix.len() as int) == prefix
}

/// `suffix` is a suffix of `s`.
pub open spec fn ends_with(s: Seq<char>, suffix: Seq<char>) -> bool {
    suffix.len() <= s.len() && s.skip(s.len() - suffix.len()) == suffix
}

/// `s` with every non-overlapping occurrence of the non-empty `pat`,
/// scanned left to right, replaced by `to`, as `str::replace` does it.
pub open spec fn replace_all(s: Seq<char>, pat: Seq<char>, to: Seq<char>) -> Seq<char>
    recommends
        pat.len() > 0,
    decreases s.len(),
{
    if s.len() == 0 || pat.len() == 0 {
        s
    } else if starts_with(s, pat) {
        to + replace_all(s.skip(pat.len() as int), pat, to)
    } else {
        seq![s[0]] + replace_all(s.drop_first(), pat, to)
    }
}

/// `sub` occurs somewhere in `s`.
pub open spec fn contains_seq(s: Seq<char>, sub: Seq<char>) -> bool {
    exists|i: int| 0 <= i <= s.len() - sub.len() && #[trigger] s.subrange(i, i + sub.len()) == sub
}

/// `c` is an ASCII character.
pub open spec fn is_ascii_char(c: char) -> bool {
    (c as u32) < 128
}

/// The ASCII lower-case of `c`: `A`-`Z` become `a`-`z`, anything else stays.
pub open spec fn ascii_lower_char(c: char) -> char {
    if 'A' <= c <= 'Z' {
        ((c as u32) + 32) as char
    } else {
        c
    }
}

/// `s` with each character lower-cased as [`ascii_lower_char`] does it.
pub open spec fn ascii_lower(s: Seq<char>) -> Seq<char> {
    s.map_values(|c: char| ascii_lower_char(c))
}

/// Every character of `s` is ASCII.
pub open spec fn all_ascii(s: Seq<char>) -> bool {
    forall|i: int| 0 <= i < s.len() ==> is_ascii_char(#[trigger] s[i])
}

/// What `str::to_lowercase` returns for a string: the Unicode lower-case
/// mapping of each character, which can change the length of the string.
pub uninterp spec fn to_lowercase(s: Seq<char>) -> Seq<char>;

// ---------------------------------------------------------------------------
// Trusted calls into std
// ---------------------------------------------------------------------------

/// Calls `String::push`; claimed: the character is appended to the string.
#[verifier::external_body]
pub fn push_char(s: &mut String, c: char)
    ensures
        final(s)@ == old(s)@.push(c),
{
    s.push(c);
}

/// Calls `str::to_lowercase`; claimed: the result is the Unicode lower-case
/// mapping of `s`, which depends on `s` alone; it holds no capital `A`-`Z`;
/// and on ASCII text it maps `A`-`Z` to `a`-`z` and leaves every other
/// character as it is. The mapping of other characters is not written out
/// here.
#[verifier::external_body]
pub fn lowercase(s: &str) -> (r: String)
    ensures
        r@ == to_lowercase(s@),
        forall|i: int| 0 <= i < r@.len() ==> !('A' <= #[trigger] r@[i] <= 'Z'),
        all_ascii(s@) ==> r@ == ascii_lower(s@),
{
    s.to_lowercase()
}

// ---------------------------------------------------------------------------
// Verified helpers
// ---------------------------------------------------------------------------

/// The characters of `s`, in order.
pub fn chars_of(s: &str) -> (v: Vec<char>)
    ensures
        v@ == s@,
{
    let mut v: Vec<char> = Vec::new();
    for c in it: s.chars()
        invariant
            v@ == it.seq().take(it.index() as int),
    {
        v.push(c);
    }
    v
}

/// A string made of the characters of `v`, in order.
pub fn string_of(v: &Vec<char>) -> (s: String)
    ensures
        s@ == v@,
{
    let mut s = String::new();
    let mut i: usize = 0;
    while i < v.len()
        invariant
            i <= v.len(),
            s@ == v@.take(i as int),
        decreases v.len() - i,
    {
        push_char(&mut s, v[i]);
        i = i + 1;
        assert(v@.take(i as int) == v@.take(i - 1).push(v@[i - 1]));
    }
    assert(v@.take(v.len() as int) == v@);
    s
}

/// A copy of `s` as an owned string.
pub fn owned(s: &str) -> (r: String)
    ensures
        r@ == s@,
{
    let mut r = String::new();
    r.append(s);
    r
}

/// The concatenation `a + b`.
pub fn concat2(a: &str, b: &str) -> (r: String)
    ensures
        r@ == a@ + b@,
{
    let mut r = String::new();
    r.append(a);
    r.append(b);
    r
}

/// The concatenation `a + b + c`.
pub fn concat3(a: &str, b: &str, c: &str) -> (r: String)
    ensures
        r@ == a@ + b@ + c@,
{
    let mut r = String::new();
    r.append(a);
    r.append(b);
    r.append(c);
    r
}

/// Whether `a` and `b` hold the same characters.
pub fn str_eq(a: &str, b: &str) -> (r: bool)
    ensures
        r == (a@ == b@),
{
    let x = chars_of(a);
    let y = chars_of(b);
    if x.len() != y.len() {
        return false;
    }
    let mut i: usize = 0;
    while i < x.len()
        invariant
            x.len() == y.len(),
            i <= x.len(),
            x@ == a@,
            y@ == b@,
            forall|j: int| 0 <= j < i ==> x@[j] == y@[j],
        decreases x.len() - i,
    {
        if x[i] != y[i] {
            assert(a@[i as int] != b@[i as int]);
            return false;
        }
        i = i + 1;
    }
    assert(x@ =~= y@);
    true
}

/// Decimal rendering of `n`.
pub fn decimal_string(n: u64) -> (s: String)
    ensures
        s@ == decimal(n as nat),
{
    let mut digits: Vec<char> = Vec::new();
    let mut m: u64 = n;
    // Collect digits from least to most significant.
    while m >= 10
        invariant
            m <= n,
            decimal(n as nat) == decimal(m as nat) + digits@.reverse(),
        decreases m,
    {
        let c = digit_of(m % 10);
        let ghost old_digits = digits@;
        digits.push(c);
        proof {
            assert(digits@.reverse() =~= seq![c] + old_digits.reverse());
            assert(decimal(m as nat) == decimal((m / 10) as nat).push(c));
            assert(decimal((m / 10) as nat) + digits@.reverse() =~= decimal((m / 10) as nat).push(c) + old_digits.reverse());
        }
        m = m / 10;
    }
    let c = digit_of(m);
    let ghost old_digits = digits@;
    digits.push(c);
    assert(digits@.reverse() =~= seq![c] + old_digits.reverse());
    assert(decimal(n as nat) == digits@.reverse());
    let mut out: Vec<char> = Vec::new();
    let mut k: usize = digits.len();
    while k > 0
        invariant
            k <= digits.len(),
            out@ == digits@.reverse().take(digits.len() - k),
        decreases k,
    {
        k = k - 1;
        out.push(digits[k]);
        assert(digits@.reverse().take(digits.len() - k) =~= digits@.reverse().take(digits.len() - k - 1).push(digits@[k as int]));
    }
    assert(out@ =~= digits@.reverse());
    string_of(&out)
}

/// The lower-case hexadecimal digit character for `d < 16`.
pub fn hex_digit_of(d: u64) -> (c: char)
    requires
        d < 16,
    ensures
        c == hex_char(d as nat),
{
    if d < 10 { digit_of(d) }
    else if d == 10 { 'a' }
    else if d == 11 { 'b' }
    else if d == 12 { 'c' }
    else if d == 13 { 'd' }
    else if d == 14 { 'e' }
    else { 'f' }
}

/// Lower-case hexadecimal rendering of `n`.
pub fn hex_string(n: u64) -> (s: String)
    ensures
        s@ == hex(n as nat),
{
    let mut digits: Vec<char> = Vec::new();
    let mut m: u64 = n;
    while m >= 16
        invariant
            m <= n,
            hex(n as nat) == hex(m as nat) + digits@.reverse(),
        decreases m,
    {
        let c = hex_digit_of(m % 16);
        let ghost old_digits = digits@;
        digits.push(c);
        proof {
            assert(digits@.reverse() =~= seq![c] + old_digits.reverse());
            assert(hex(m as nat) == hex((m / 16) as nat).push(c));
            assert(hex((m / 16) as nat) + digits@.reverse() =~= hex((m / 16) as nat).push(c) + old_digits.reverse());
        }
        m = m / 16;
    }
    let c = hex_digit_of(m);
    let ghost old_digits = digits@;
    digits.push(c);
    assert(digits@.reverse() =~= seq![c] + old_digits.reverse());
    let mut out: Vec<char> = Vec::new();
    let mut k: usize = digits.len();
    while k > 0
        invariant
            k <= digits.len(),
            out@ == digits@.reverse().take(digits.len() - k),
        decreases k,
    {
        k = k - 1;
        out.push(digits[k]);
        assert(digits@.reverse().take(digits.len() - k) =~= digits@.reverse().take(digits.len() - k - 1).push(digits@[k as int]));
    }
    assert(out@ =~= digits@.reverse());
    string_of(&out)
}

/// Whether `pat` occurs in `s` at position `at`.
fn occurs_at(s: &Vec<char>, pat: &Vec<char>, at: usize) -> (r: bool)
    requires
        at <= s.len(),
    ensures
        r == starts_with(s@.skip(at as int), pat@),
{
    if pat.len() > s.len() - at {
        return false;
    }
    let mut i: usize = 0;
    while i < pat.len()
        invariant
            at + pat.len() <= s.len(),
            i <= pat.len(),
            forall|j: int| 0 <= j < i ==> s@[at + j] == pat@[j],
        decreases pat.len() - i,
    {
        if s[at + i] != pat[i] {
            assert(s@.skip(at as int).take(pat.len() as int)[i as int] != pat@[i as int]);
            return false;
        }
        i = i + 1;
    }
    assert(s@.skip(at as int).take(pat.len() as int) =~= pat@);
    true
}

/// Whether `sub` occurs in `s`.
pub fn contains_str(s: &str, sub: &str) -> (r: bool)
    ensures
        r == contains_seq(s@, sub@),
{
    let cs = chars_of(s);
    let ps = chars_of(sub);
    if ps.len() > cs.len() {
        return false;
    }
    let n = cs.len() - ps.len();
    let mut i: usize = 0;
    loop
        invariant
            ps.len() <= cs.len(),
            n == cs.len() - ps.len(),
            cs@ == s@,
            ps@ == sub@,
            i <= n,
            forall|j: int| 0 <= j < i ==> #[trigger] s@.subrange(j, j + sub@.len()) != sub@,
        decreases n - i,
    {
        assert(cs@.subrange(i as int, i + ps.len()) =~= cs@.skip(i as int).take(ps.len() as int));
        if occurs_at(&cs, &ps, i) {
            return true;
        }
        if i == n {
            return false;
        }
        i = i + 1;
    }
}

/// `s` with every non-overlapping occurrence of `pat`, scanned left to
/// right, replaced by `to`.
pub fn replace_str(s: &str, pat: &str, to: &str) -> (r: String)
    requires
        pat@.len() > 0,
    ensures
        r@ == replace_all(s@, pat@, to@),
{
    let cs = chars_of(s);
    let ps = chars_of(pat);
    let ts = chars_of(to);
    let mut out: Vec<char> = Vec::new();
    let mut i: usize = 0;
    assert(cs@.skip(0) =~= cs@);
    while i < cs.len()
        invariant
            i <= cs.len(),
            ps@ == pat@,
            ts@ == to@,
            ps@.len() > 0,
            replace_all(s@, pat@, to@) == out@ + replace_all(cs@.skip(i as int), pat@, to@),
            cs@ == s@,
        decreases cs.len() - i,
    {
        let ghost rest = cs@.skip(i as int);
        if occurs_at(&cs, &ps, i) {
            let mut j: usize = 0;
            let ghost before = out@;
            while j < ts.len()
                invariant
                    j <= ts.len(),
                    out@ == before + ts@.take(j as int),
                decreases ts.len() - j,
            {
                out.push(ts[j]);
                j = j + 1;
                assert(out@ =~= before + ts@.take(j as int));
            }
            assert(ts@.take(ts.len() as int) =~= ts@);
            assert(rest.skip(pat@.len() as int) =~= cs@.skip(i + ps.len()));
            assert(out@ + replace_all(cs@.skip(i + ps.len()), pat@, to@) =~= before + (to@ + replace_all(rest.skip(pat@.len() as int), pat@, to@)));
            i = i + ps.len();
        } else {
            let ghost before = out@;
            out.push(cs[i]);
            assert(rest.drop_first() =~= cs@.skip(i + 1));
            assert(out@ + replace_all(cs@.skip(i + 1), pat@, to@) =~= before + (seq![rest[0]] + replace_all(rest.drop_first(), pat@, to@)));
            i = i + 1;
        }
    }
    assert(cs@.skip(cs.len() as int) =~= Seq::<char>::empty());
    assert(out@ + Seq::<char>::empty() =~= out@);
    string_of(&out)
}

/// Two-digit zero-padded decimal rendering of `n < 100`.
pub fn two_digit_string(n: u64) -> (s: String)
    requires
        n < 100,
    ensures
        s@ == two_digits(n as nat),
{
    let mut s = String::new();
    push_char(&mut s, digit_of(n / 10));
    push_char(&mut s, digit_of(n % 10));
    assert(s@ =~= two_digits(n as nat));
    s
}

/// The decimal digit character for `d < 10`.
pub fn digit_of(d: u64) -> (c: char)
    requires
        d < 10,
    ensures
        c == digit_char(d as nat),
{
    if d == 0 { '0' }
    else if d == 1 { '1' }
    else if d == 2 { '2' }
    else if d == 3 { '3' }
    else if d == 4 { '4' }
    else if d == 5 { '5' }
    else if d == 6 { '6' }
    else if d == 7 { '7' }
    else if d == 8 { '8' }
    else { '9' }
}

} // verus!
