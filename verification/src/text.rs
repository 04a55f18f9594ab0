//! Character-level utilities shared by the parser, the renderer and the
//! scanners: character classes, case folding, substring search, and the
//! conversions between `String` and `Vec<char>` that the rest of the crate
//! works on.

use vstd::prelude::*;

verus! {

/// ASCII decimal digit.
pub open spec fn is_digit(c: char) -> bool {
    '0' <= c && c <= '9'
}

/// Word character as the line patterns understand it: ASCII letters,
/// digits and underscore.
pub open spec fn is_word_char(c: char) -> bool {
    ('a' <= c && c <= 'z') || ('A' <= c && c <= 'Z') || is_digit(c) || c == '_'
}

/// ASCII whitespace as the scanners understand it.
pub open spec fn is_space(c: char) -> bool {
    c == ' ' || c == '\t' || c == '\n' || c == '\r' || c == '\u{b}' || c == '\u{c}'
}

/// Lower-cases one ASCII letter and leaves every other character alone.
pub open spec fn lower_char(c: char) -> char {
    if 'A' <= c && c <= 'Z' {
        (((c as u32) + 32) as char)
    } else {
        c
    }
}

/// ASCII lower-casing of a whole sequence.
pub open spec fn lower(s: Seq<char>) -> Seq<char> {
    s.map_values(|c: char| lower_char(c))
}

pub fn digit_check(c: char) -> (r: bool)
    ensures
        r == is_digit(c),
{
    '0' <= c && c <= '9'
}

pub fn word_char_check(c: char) -> (r: bool)
    ensures
        r == is_word_char(c),
{
    ('a' <= c && c <= 'z') || ('A' <= c && c <= 'Z') || digit_check(c) || c == '_'
}

pub fn space_check(c: char) -> (r: bool)
    ensures
        r == is_space(c),
{
    c == ' ' || c == '\t' || c == '\n' || c == '\r' || c == '\u{b}' || c == '\u{c}'
}

pub fn lower_char_exec(c: char) -> (r: char)
    ensures
        r == lower_char(c),
{
    if 'A' <= c && c <= 'Z' {
        let code = (c as u32) + 32;
        proof {
            assert(code < 0xD800);
        }
        char_from_code(code)
    } else {
        c
    }
}

/// Relies on `char::from_u32`: `Some` exactly on Unicode scalar values,
/// and the character converts back to the same code point.
#[verifier::external_body]
fn char_from_u32_checked(x: u32) -> (r: Option<char>)
    ensures
        r is Some <==> (x < 0xD800 || (0xE000 <= x && x <= 0x10FFFF)),
        r is Some ==> r->0 as u32 == x,
{
    char::from_u32(x)
}

/// Total version for callers that already know the code point is a scalar
/// value.
pub fn char_from_code(x: u32) -> (r: char)
    requires
        x < 0xD800 || (0xE000 <= x && x <= 0x10FFFF),
    ensures
        r as u32 == x,
{
    match char_from_u32_checked(x) {
        Some(c) => c,
        None => ' ',  // unreachable under the precondition
    }
}

/// Checked version for escape sequences read from untrusted text.
pub fn char_from_code_checked(x: u32) -> (r: Option<char>)
    ensures
        r is Some <==> (x < 0xD800 || (0xE000 <= x && x <= 0x10FFFF)),
        r is Some ==> r->0 as u32 == x,
{
    char_from_u32_checked(x)
}

/// Relies on `String::push`: appends exactly one character.
#[verifier::external_body]
pub fn string_push(s: &mut String, c: char)
    ensures
        final(s)@ == old(s)@.push(c),
{
    s.push(c);
}

/// Copies a string slice into the character vector the scanners work on.
pub fn chars_of(s: &str) -> (r: Vec<char>)
    ensures
        r@ == s@,
{
    let n = s.unicode_len();
    let mut r: Vec<char> = Vec::new();
    let mut i: usize = 0;
    while i < n
        invariant
            n == s@.len(),
            i <= n,
            r@ == s@.subrange(0, i as int),
        decreases n - i,
    {
        r.push(s.get_char(i));
        proof {
            assert(r@ =~= s@.subrange(0, i + 1 as int));
        }
        i += 1;
    }
    proof {
        assert(s@.subrange(0, n as int) =~= s@);
    }
    r
}

/// Value of one decimal digit character.
pub open spec fn digit_val(c: char) -> nat {
    if is_digit(c) {
        (c as int - '0' as int) as nat
    } else {
        0
    }
}

/// Ten to the `k`.
pub open spec fn pow10(k: nat) -> nat
    decreases k,
{
    if k == 0 {
        1
    } else {
        10 * pow10((k - 1) as nat)
    }
}

pub proof fn lemma_pow10_pos(k: nat)
    ensures
        pow10(k) >= 1,
    decreases k,
{
    if k > 0 {
        lemma_pow10_pos((k - 1) as nat);
    }
}

/// Numeric value of a digit string, most significant digit first.
pub open spec fn digits_value(ds: Seq<char>) -> nat
    decreases ds.len(),
{
    if ds.len() == 0 {
        0
    } else {
        digit_val(ds[0]) * pow10((ds.len() - 1) as nat) + digits_value(ds.drop_first())
    }
}

pub proof fn lemma_digits_value_push(ds: Seq<char>, c: char)
    ensures
        digits_value(ds.push(c)) == digits_value(ds) * 10 + digit_val(c),
    decreases ds.len(),
{
    if ds.len() == 0 {
        assert(ds.push(c) =~= seq![c]);
        assert(seq![c].drop_first().len() == 0);
        assert(digits_value(seq![c].drop_first()) == 0);
        assert(digits_value(seq![c]) == digit_val(c) * pow10(0) + digits_value(
            seq![c].drop_first(),
        ));
        assert(pow10(0) == 1);
        assert(digit_val(c) * 1 == digit_val(c));
        assert(digits_value(ds) == 0);
        assert(digits_value(ds.push(c)) == digits_value(ds) * 10 + digit_val(c));
    } else {
        assert(ds.push(c).drop_first() =~= ds.drop_first().push(c));
        lemma_digits_value_push(ds.drop_first(), c);
        let k = (ds.len() - 1) as nat;
        let d0 = digit_val(ds[0]);
        let rest = digits_value(ds.drop_first());
        assert(ds.push(c)[0] == ds[0]);
        assert(ds.push(c).len() == ds.len() + 1);
        assert(digits_value(ds.push(c)) == d0 * pow10(k + 1) + digits_value(
            ds.drop_first().push(c),
        ));
        assert(digits_value(ds.drop_first().push(c)) == rest * 10 + digit_val(c));
        assert(pow10(k + 1) == 10 * pow10(k));
        assert(d0 * (10 * pow10(k)) == (d0 * pow10(k)) * 10) by (nonlinear_arith);
        assert(digits_value(ds) == d0 * pow10(k) + rest);
        assert(d0 * pow10(k + 1) + (rest * 10 + digit_val(c)) == (d0 * pow10(k) + rest) * 10
            + digit_val(c)) by (nonlinear_arith)
            requires
                pow10(k + 1) == 10 * pow10(k),
        ;
    }
}

/// Decimal rendering of a natural number, without sign or padding.
pub open spec fn spec_digits(n: nat) -> Seq<char>
    decreases n,
{
    if n < 10 {
        seq![digit_char(n)]
    } else {
        spec_digits(n / 10).push(digit_char(n % 10))
    }
}

/// The character for one decimal digit.
pub open spec fn digit_char(d: nat) -> char {
    if d == 0 {
        '0'
    } else if d == 1 {
        '1'
    } else if d == 2 {
        '2'
    } else if d == 3 {
        '3'
    } else if d == 4 {
        '4'
    } else if d == 5 {
        '5'
    } else if d == 6 {
        '6'
    } else if d == 7 {
        '7'
    } else if d == 8 {
        '8'
    } else {
        '9'
    }
}

pub proof fn lemma_spec_digits(n: nat)
    ensures
        spec_digits(n).len() >= 1,
        forall|i: int| 0 <= i < spec_digits(n).len() ==> is_digit(#[trigger] spec_digits(n)[i]),
        digits_value(spec_digits(n)) == n,
    decreases n,
{
    if n < 10 {
        assert(digit_val(digit_char(n)) == n);
        assert(seq![digit_char(n)].drop_first().len() == 0);
        assert(digits_value(seq![digit_char(n)].drop_first()) == 0);
        assert(digits_value(seq![digit_char(n)]) == digit_val(digit_char(n)) * pow10(0)
            + digits_value(seq![digit_char(n)].drop_first()));
        assert(digit_val(digit_char(n)) * 1 == n);
    } else {
        lemma_spec_digits(n / 10);
        lemma_digits_value_push(spec_digits(n / 10), digit_char(n % 10));
        assert(digit_val(digit_char(n % 10)) == n % 10);
        assert((n / 10) * 10 + n % 10 == n);
        assert(forall|i: int|
            0 <= i < spec_digits(n).len() ==> is_digit(#[trigger] spec_digits(n)[i])) by {
            assert(forall|i: int|
                0 <= i < spec_digits(n / 10).len() ==> spec_digits(n)[i] == spec_digits(
                    n / 10,
                )[i]);
            assert(spec_digits(n)[spec_digits(n).len() - 1] == digit_char(n % 10));
        }
    }
}

pub fn digit_char_of(d: u64) -> (r: char)
    requires
        d < 10,
    ensures
        r == digit_char(d as nat),
{
    if d == 0 {
        '0'
    } else if d == 1 {
        '1'
    } else if d == 2 {
        '2'
    } else if d == 3 {
        '3'
    } else if d == 4 {
        '4'
    } else if d == 5 {
        '5'
    } else if d == 6 {
        '6'
    } else if d == 7 {
        '7'
    } else if d == 8 {
        '8'
    } else {
        '9'
    }
}

/// Appends the decimal rendering of `n` to `out`.
pub fn push_u64_digits(out: &mut Vec<char>, n: u64)
    ensures
        final(out)@ == old(out)@ + spec_digits(n as nat),
    decreases n,
{
    if n < 10 {
        out.push(digit_char_of(n));
        proof {
            assert(final(out)@ =~= old(out)@ + spec_digits(n as nat));
        }
    } else {
        push_u64_digits(out, n / 10);
        out.push(digit_char_of(n % 10));
        proof {
            assert(final(out)@ =~= old(out)@ + spec_digits(n as nat));
        }
    }
}

/// The character for one hexadecimal digit, lower case.
pub open spec fn hex_char(d: nat) -> char {
    if d < 10 {
        digit_char(d)
    } else if d == 10 {
        'a'
    } else if d == 11 {
        'b'
    } else if d == 12 {
        'c'
    } else if d == 13 {
        'd'
    } else if d == 14 {
        'e'
    } else {
        'f'
    }
}

/// Lower-case hexadecimal rendering of a number, without prefix or padding,
/// as the `{:x}` format writes it.
pub open spec fn spec_hex(n: nat) -> Seq<char>
    decreases n,
{
    if n < 16 {
        seq![hex_char(n)]
    } else {
        spec_hex(n / 16).push(hex_char(n % 16))
    }
}

pub fn hex_char_of(d: u64) -> (r: char)
    requires
        d < 16,
    ensures
        r == hex_char(d as nat),
{
    if d < 10 {
        digit_char_of(d)
    } else if d == 10 {
        'a'
    } else if d == 11 {
        'b'
    } else if d == 12 {
        'c'
    } else if d == 13 {
        'd'
    } else if d == 14 {
        'e'
    } else {
        'f'
    }
}

/// Appends the hexadecimal rendering of `n` to `out`.
pub fn push_u64_hex(out: &mut Vec<char>, n: u64)
    ensures
        final(out)@ == old(out)@ + spec_hex(n as nat),
    decreases n,
{
    if n < 16 {
        out.push(hex_char_of(n));
        proof {
            assert(final(out)@ =~= old(out)@ + spec_hex(n as nat));
        }
    } else {
        push_u64_hex(out, n / 16);
        out.push(hex_char_of(n % 16));
        proof {
            assert(final(out)@ =~= old(out)@ + spec_hex(n as nat));
        }
    }
}

/// Value of one hexadecimal digit character, either case; 16 marks a
/// character that is no hexadecimal digit.
pub open spec fn hex_val(c: char) -> nat {
    if is_digit(c) {
        digit_val(c)
    } else if 'a' <= c && c <= 'f' {
        (c as int - 'a' as int + 10) as nat
    } else if 'A' <= c && c <= 'F' {
        (c as int - 'A' as int + 10) as nat
    } else {
        16
    }
}

pub fn hex_val_of(c: char) -> (r: u64)
    ensures
        r == hex_val(c),
{
    if '0' <= c && c <= '9' {
        (c as u32 as u64) - ('0' as u32 as u64)
    } else if 'a' <= c && c <= 'f' {
        (c as u32 as u64) - ('a' as u32 as u64) + 10
    } else if 'A' <= c && c <= 'F' {
        (c as u32 as u64) - ('A' as u32 as u64) + 10
    } else {
        16
    }
}

/// Upper-cases one ASCII letter and leaves every other character alone.
pub open spec fn upper_char(c: char) -> char {
    if 'a' <= c && c <= 'z' {
        (((c as u32) - 32) as char)
    } else {
        c
    }
}

/// ASCII upper-casing of a whole sequence.
pub open spec fn upper(s: Seq<char>) -> Seq<char> {
    s.map_values(|c: char| upper_char(c))
}

pub fn upper_char_exec(c: char) -> (r: char)
    ensures
        r == upper_char(c),
{
    if 'a' <= c && c <= 'z' {
        let code = (c as u32) - 32;
        proof {
            assert(code < 0xD800);
        }
        char_from_code(code)
    } else {
        c
    }
}

/// ASCII upper-casing of a character vector.
pub fn upper_chars(s: &Vec<char>) -> (r: Vec<char>)
    ensures
        r@ == upper(s@),
{
    let n = s.len();
    let mut r: Vec<char> = Vec::new();
    let mut i: usize = 0;
    while i < n
        invariant
            n == s@.len(),
            i <= n,
            r@.len() == i,
            forall|k: int| 0 <= k < i ==> r@[k] == upper_char(#[trigger] s@[k]),
        decreases n - i,
    {
        r.push(upper_char_exec(s[i]));
        i += 1;
    }
    proof {
        assert(r@ =~= upper(s@));
    }
    r
}

/// ASCII lower-casing of a character vector.
pub fn lower_chars(s: &Vec<char>) -> (r: Vec<char>)
    ensures
        r@ == lower(s@),
{
    let n = s.len();
    let mut r: Vec<char> = Vec::new();
    let mut i: usize = 0;
    while i < n
        invariant
            n == s@.len(),
            i <= n,
            r@.len() == i,
            forall|k: int| 0 <= k < i ==> r@[k] == lower_char(#[trigger] s@[k]),
        decreases n - i,
    {
        r.push(lower_char_exec(s[i]));
        i += 1;
    }
    proof {
        assert(r@ =~= lower(s@));
    }
    r
}

/// The needle stands at position `i` of the haystack.
pub open spec fn is_sub_at(s: Seq<char>, i: int, sub: Seq<char>) -> bool {
    0 <= i && i + sub.len() <= s.len() && s.subrange(i, i + sub.len()) == sub
}

/// The needle occurs somewhere in the haystack.
pub open spec fn contains_sub(s: Seq<char>, sub: Seq<char>) -> bool {
    exists|i: int| is_sub_at(s, i, sub)
}

/// Checks one position for the needle.
pub fn sub_at(s: &Vec<char>, i: usize, sub: &Vec<char>) -> (r: bool)
    requires
        i <= s@.len(),
    ensures
        r == is_sub_at(s@, i as int, sub@),
{
    let m = sub.len();
    let n = s.len();
    if n - i < m {
        proof {
            assert(!is_sub_at(s@, i as int, sub@));
        }
        return false;
    }
    let mut k: usize = 0;
    while k < m
        invariant
            m == sub@.len(),
            n == s@.len(),
            i + m <= n,
            k <= m,
            forall|j: int| 0 <= j < k ==> s@[i + j] == sub@[j],
        decreases m - k,
    {
        if s[i + k] != sub[k] {
            proof {
                assert(s@.subrange(i as int, i + sub@.len()) != sub@) by {
                    assert(s@.subrange(i as int, i + sub@.len())[k as int] == s@[i + k]);
                }
            }
            return false;
        }
        k += 1;
    }
    proof {
        assert(s@.subrange(i as int, i + sub@.len()) =~= sub@);
    }
    true
}

/// Finds the first occurrence of the needle.
pub fn find_sub(s: &Vec<char>, sub: &Vec<char>) -> (r: Option<usize>)
    ensures
        match r {
            Some(i) => is_sub_at(s@, i as int, sub@) && forall|j: int|
                0 <= j < i ==> !is_sub_at(s@, j, sub@),
            None => !contains_sub(s@, sub@),
        },
{
    let n = s.len();
    let mut i: usize = 0;
    while i < n
        invariant
            n == s@.len(),
            i <= n,
            forall|j: int| 0 <= j < i ==> !is_sub_at(s@, j, sub@),
        decreases n - i,
    {
        if sub_at(s, i, sub) {
            return Some(i);
        }
        i += 1;
    }
    if sub_at(s, n, sub) {
        return Some(n);
    }
    proof {
        assert forall|j: int| !is_sub_at(s@, j, sub@) by {
            if 0 <= j <= n {
            } else {
            }
        }
    }
    None
}

/// Count of leading whitespace characters.
pub open spec fn ws_prefix(s: Seq<char>, i: int) -> nat
    decreases s.len() - i,
{
    if 0 <= i < s.len() && is_space(s[i]) {
        1 + ws_prefix(s, i + 1)
    } else {
        0
    }
}

/// Count of trailing whitespace characters.
pub open spec fn ws_suffix(s: Seq<char>, i: int) -> nat
    decreases i,
{
    if 0 < i <= s.len() && is_space(s[i - 1]) {
        1 + ws_suffix(s, i - 1)
    } else {
        0
    }
}

/// The sequence with leading and trailing whitespace removed.
pub open spec fn spec_trim(s: Seq<char>) -> Seq<char> {
    let p = ws_prefix(s, 0);
    if p == s.len() {
        Seq::<char>::empty()
    } else {
        s.subrange(p as int, s.len() - ws_suffix(s, s.len() as int))
    }
}



/// Copies the slice between the whitespace margins.
pub fn trim_chars(s: &Vec<char>) -> (r: Vec<char>)
    ensures
        r@ == spec_trim(s@),
{
    let n = s.len();
    let mut start: usize = 0;
    while start < n && space_check(s[start])
        invariant
            n == s@.len(),
            start <= n,
            ws_prefix(s@, 0) == start + ws_prefix(s@, start as int),
            forall|k: int| 0 <= k < start ==> is_space(#[trigger] s@[k]),
        decreases n - start,
    {
        start += 1;
    }
    proof {
        assert(ws_prefix(s@, start as int) == 0);
        assert(ws_prefix(s@, 0) == start);
    }
    if start == n {
        proof {
            assert(spec_trim(s@) =~= Seq::<char>::empty());
        }
        return Vec::new();
    }
    let mut end: usize = n;
    while end > start + 1 && space_check(s[end - 1])
        invariant
            n == s@.len(),
            start + 1 <= end <= n,
            start < n,
            ws_suffix(s@, n as int) == (n - end) + ws_suffix(s@, end as int),
            forall|k: int| 0 <= k < start ==> is_space(#[trigger] s@[k]),
            !is_space(s@[start as int]),
        decreases end,
    {
        end -= 1;
    }
    proof {
        assert(ws_suffix(s@, end as int) == 0);
        assert(ws_suffix(s@, n as int) == n - end);
    }
    let mut r: Vec<char> = Vec::new();
    let mut i: usize = start;
    while i < end
        invariant
            start <= i <= end <= n,
            n == s@.len(),
            r@ == s@.subrange(start as int, i as int),
        decreases end - i,
    {
        r.push(s[i]);
        proof {
            assert(r@ =~= s@.subrange(start as int, i + 1 as int));
        }
        i += 1;
    }
    proof {
        assert(r@ =~= spec_trim(s@));
    }
    r
}

/// Character-wise equality of two string slices.
pub fn str_eq(a: &str, b: &str) -> (r: bool)
    ensures
        r == (a@ == b@),
{
    let na = a.unicode_len();
    let nb = b.unicode_len();
    if na != nb {
        proof {
            assert(a@ != b@);
        }
        return false;
    }
    let mut i: usize = 0;
    while i < na
        invariant
            na == a@.len(),
            na == b@.len(),
            i <= na,
            forall|k: int| 0 <= k < i ==> a@[k] == b@[k],
        decreases na - i,
    {
        if a.get_char(i) != b.get_char(i) {
            return false;
        }
        i += 1;
    }
    proof {
        assert(a@ =~= b@);
    }
    true
}

/// Builds the `String` whose view is the given character sequence.
pub fn string_from_chars(v: &Vec<char>) -> (r: String)
    ensures
        r@ == v@,
{
    let mut r = String::new();
    let mut i: usize = 0;
    while i < v.len()
        invariant
            i <= v@.len(),
            r@ == v@.subrange(0, i as int),
        decreases v@.len() - i,
    {
        string_push(&mut r, v[i]);
        proof {
            assert(r@ =~= v@.subrange(0, i + 1 as int));
        }
        i += 1;
    }
    proof {
        assert(v@.subrange(0, v@.len() as int) =~= v@);
    }
    r
}

} // verus!
