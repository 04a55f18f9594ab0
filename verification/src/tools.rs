//! The bundled tools' computation cores: the arithmetic evaluator of the
//! math tool, the command split and simulated execution of the shell tool,
//! and the request split and simulated responses of the fetch tool.
//! Arithmetic is exact integer arithmetic: division and square roots are
//! evaluated only where the result is a whole number, and anything else is
//! reported as unsupported.

use vstd::prelude::*;
use vstd::string::StringExecFns;

use crate::scan::{space_run, nonspace_run, space_run_at, nonspace_run_at};
use crate::text::{is_digit, digit_val, spec_digits, spec_trim, trim_chars, chars_of,
    string_from_chars, str_eq, push_u64_digits, digit_check, upper, upper_chars, contains_sub,
    find_sub};

verus! {

broadcast use vstd::seq::group_seq_axioms, vstd::std_specs::vec::group_vec_axioms,
    vstd::string::group_string_axioms;

/// Why a tool computation failed.
#[derive(Debug, Clone)]
pub enum ToolError {
    /// The arithmetic expression is not one this evaluator computes.
    UnsupportedExpression { expression: String },
    /// The command is not on the allow list.
    CommandNotAllowed { command: String },
    /// The request method is not supported.
    UnsupportedMethod { method: String },
}

/// The expression with surrounding whitespace and every space removed.
pub open spec fn strip_spaces(s: Seq<char>) -> Seq<char> {
    spec_trim(s).filter(|c: char| c != ' ')
}

fn strip_spaces_exec(s: &Vec<char>) -> (r: Vec<char>)
    ensures
        r@ == strip_spaces(s@),
{
    broadcast use vstd::seq_lib::group_filter_ensures, Seq::lemma_filter_push;

    let t = trim_chars(s);
    let n = t.len();
    let mut r: Vec<char> = Vec::new();
    let mut i: usize = 0;
    proof {
        assert(t@.subrange(0, 0).len() == 0);
        assert(t@.subrange(0, 0).filter(|c: char| c != ' ').len() <= 0);
        assert(r@ =~= t@.subrange(0, 0).filter(|c: char| c != ' '));
    }
    while i < n
        invariant
            n == t@.len(),
            t@ == spec_trim(s@),
            i <= n,
            r@ == t@.subrange(0, i as int).filter(|c: char| c != ' '),
        decreases n - i,
    {
        proof {
            broadcast use Seq::lemma_filter_push;

            assert(t@.subrange(0, i + 1 as int) =~= t@.subrange(0, i as int).push(t@[i as int]));
            assert(t@.subrange(0, i as int).push(t@[i as int]).filter(|c: char| c != ' ') == if (
            t@[i as int] != ' ') {
                t@.subrange(0, i as int).filter(|c: char| c != ' ').push(t@[i as int])
            } else {
                t@.subrange(0, i as int).filter(|c: char| c != ' ')
            });
        }
        let c = t[i];
        if c != ' ' {
            r.push(c);
        }
        i += 1;
    }
    proof {
        assert(t@.subrange(0, n as int) =~= t@);
    }
    r
}

/// Index of the first occurrence of a character, or -1.
pub open spec fn char_index(s: Seq<char>, c: char) -> int
    decreases s.len(),
{
    if s.len() == 0 {
        -1
    } else if s[0] == c {
        0
    } else {
        let r = char_index(s.drop_first(), c);
        if r < 0 {
            -1
        } else {
            r + 1
        }
    }
}

proof fn lemma_char_index(s: Seq<char>, c: char)
    ensures
        -1 <= char_index(s, c) < s.len(),
        char_index(s, c) >= 0 ==> s[char_index(s, c)] == c,
        forall|j: int| 0 <= j < s.len() && j < char_index(s, c) ==> s[j] != c,
        char_index(s, c) < 0 ==> forall|j: int| 0 <= j < s.len() ==> s[j] != c,
    decreases s.len(),
{
    if s.len() > 0 && s[0] != c {
        lemma_char_index(s.drop_first(), c);
        assert(forall|j: int| 1 <= j < s.len() ==> s.drop_first()[j - 1] == s[j]);
    }
}

fn find_char(s: &Vec<char>, c: char) -> (r: Option<usize>)
    ensures
        match r {
            Some(i) => char_index(s@, c) == i as int,
            None => char_index(s@, c) < 0,
        },
{
    proof {
        lemma_char_index(s@, c);
    }
    let n = s.len();
    let mut i: usize = 0;
    while i < n
        invariant
            n == s@.len(),
            i <= n,
            forall|j: int| 0 <= j < i ==> s@[j] != c,
        decreases n - i,
    {
        if s[i] == c {
            proof {
                lemma_char_index(s@, c);
            }
            return Some(i);
        }
        i += 1;
    }
    proof {
        lemma_char_index(s@, c);
    }
    None
}

/// Accumulating scan of an all-digit text; `None` on a non-digit or a
/// value past `u64::MAX`.
pub open spec fn pu(s: Seq<char>, i: int, acc: u64) -> Option<u64>
    decreases s.len() - i,
{
    if !(0 <= i <= s.len()) {
        None
    } else if i == s.len() {
        Some(acc)
    } else if !is_digit(s[i]) {
        None
    } else {
        let d = digit_val(s[i]);
        if acc as nat * 10 + d <= u64::MAX as nat {
            pu(s, i + 1, (acc as nat * 10 + d) as u64)
        } else {
            None
        }
    }
}

/// The value of an unsigned decimal text.
pub open spec fn spec_parse_u64(s: Seq<char>) -> Option<u64> {
    if s.len() == 0 {
        None
    } else {
        pu(s, 0, 0)
    }
}

fn pu_exec(s: &Vec<char>, i: usize, acc: u64) -> (r: Option<u64>)
    requires
        i <= s@.len(),
    ensures
        r == pu(s@, i as int, acc),
    decreases s@.len() - i,
{
    if i == s.len() {
        return Some(acc);
    }
    let c = s[i];
    if !digit_check(c) {
        return None;
    }
    let d = (c as u32 as u64) - ('0' as u32 as u64);
    proof {
        assert(d == digit_val(s@[i as int]));
    }
    if acc <= (u64::MAX - d) / 10 {
        proof {
            assert(acc as nat * 10 + d as nat <= u64::MAX as nat) by (nonlinear_arith)
                requires
                    acc <= (u64::MAX - d) / 10,
                    d <= 9,
            ;
        }
        pu_exec(s, i + 1, acc * 10 + d)
    } else {
        proof {
            assert(acc as nat * 10 + d as nat > u64::MAX as nat) by (nonlinear_arith)
                requires
                    acc > (u64::MAX - d) / 10,
                    d <= 9,
            ;
        }
        None
    }
}

fn parse_u64_exec(s: &Vec<char>) -> (r: Option<u64>)
    ensures
        r == spec_parse_u64(s@),
{
    if s.len() == 0 {
        return None;
    }
    pu_exec(s, 0, 0)
}

/// The value of a signed decimal text.
pub open spec fn spec_parse_i64(s: Seq<char>) -> Option<i64> {
    if s.len() >= 2 && s[0] == '-' {
        match spec_parse_u64(s.drop_first()) {
            Some(m) => if m <= 0x8000000000000000 {
                Some((-(m as int)) as i64)
            } else {
                None
            },
            None => None,
        }
    } else {
        match spec_parse_u64(s) {
            Some(m) => if m <= i64::MAX as u64 {
                Some(m as i64)
            } else {
                None
            },
            None => None,
        }
    }
}

fn parse_i64_exec(s: &Vec<char>) -> (r: Option<i64>)
    ensures
        r == spec_parse_i64(s@),
{
    if s.len() >= 2 && s[0] == '-' {
        let mut rest: Vec<char> = Vec::new();
        let n = s.len();
        let mut i: usize = 1;
        while i < n
            invariant
                n == s@.len(),
                1 <= i <= n,
                rest@ == s@.subrange(1, i as int),
            decreases n - i,
        {
            rest.push(s[i]);
            proof {
                assert(rest@ =~= s@.subrange(1, i + 1 as int));
            }
            i += 1;
        }
        proof {
            assert(rest@ =~= s@.drop_first());
        }
        match parse_u64_exec(&rest) {
            Some(m) => {
                if m <= 0x8000000000000000 {
                    if m == 0x8000000000000000 {
                        Some(i64::MIN)
                    } else {
                        Some(-(m as i64))
                    }
                } else {
                    None
                }
            },
            None => None,
        }
    } else {
        match parse_u64_exec(s) {
            Some(m) => {
                if m <= i64::MAX as u64 {
                    Some(m as i64)
                } else {
                    None
                }
            },
            None => None,
        }
    }
}

/// Decimal rendering of a signed value.
pub open spec fn render_i64(n: i64) -> Seq<char> {
    if n >= 0 {
        spec_digits(n as nat)
    } else {
        seq!['-'] + spec_digits((-(n as int)) as nat)
    }
}

fn render_i64_exec(n: i64) -> (r: Vec<char>)
    ensures
        r@ == render_i64(n),
{
    let mut out: Vec<char> = Vec::new();
    if n >= 0 {
        push_u64_digits(&mut out, n as u64);
        proof {
            assert(out@ =~= render_i64(n));
        }
    } else {
        out.push('-');
        let m: u64 = if n == i64::MIN {
            0x8000000000000000
        } else {
            (-n) as u64
        };
        proof {
            assert(m as nat == (-(n as int)) as nat);
        }
        push_u64_digits(&mut out, m);
        proof {
            assert(out@ =~= render_i64(n));
        }
    }
    out
}

/// One exact binary operation; `None` where the result is not a whole
/// number in range.
pub open spec fn eval_op(c: char, a: i64, b: i64) -> Option<i64> {
    if c == '+' {
        if i64::MIN <= a + b <= i64::MAX {
            Some((a + b) as i64)
        } else {
            None
        }
    } else if c == '-' {
        if i64::MIN <= a - b <= i64::MAX {
            Some((a - b) as i64)
        } else {
            None
        }
    } else if c == '*' {
        if i64::MIN <= a * b <= i64::MAX {
            Some((a * b) as i64)
        } else {
            None
        }
    } else if c == '/' {
        if b != 0 && (exists|q: int| i64::MIN <= q <= i64::MAX && #[trigger] (q * b) == a) {
            Some((choose|q: int| i64::MIN <= q <= i64::MAX && #[trigger] (q * b) == a) as i64)
        } else {
            None
        }
    } else {
        None
    }
}

fn eval_op_exec(c: char, a: i64, b: i64) -> (r: Option<i64>)
    requires
        c == '+' || c == '-' || c == '*' || c == '/',
    ensures
        r == eval_op(c, a, b),
{
    if c == '+' {
        let s: i128 = a as i128 + b as i128;
        if i64::MIN as i128 <= s && s <= i64::MAX as i128 {
            Some(s as i64)
        } else {
            None
        }
    } else if c == '-' {
        let s: i128 = a as i128 - b as i128;
        if i64::MIN as i128 <= s && s <= i64::MAX as i128 {
            Some(s as i64)
        } else {
            None
        }
    } else if c == '*' {
        proof {
            assert(i128::MIN <= (a as int) * (b as int) <= i128::MAX) by (nonlinear_arith)
                requires
                    i64::MIN <= a <= i64::MAX,
                    i64::MIN <= b <= i64::MAX,
            ;
        }
        let s: i128 = a as i128 * b as i128;
        if i64::MIN as i128 <= s && s <= i64::MAX as i128 {
            Some(s as i64)
        } else {
            None
        }
    } else {
        if b == 0 {
            proof {
                assert(eval_op('/', a, b) is None);
            }
            return None;
        }
        let ma: u64 = if a < 0 {
            if a == i64::MIN {
                0x8000000000000000
            } else {
                (-a) as u64
            }
        } else {
            a as u64
        };
        let mb: u64 = if b < 0 {
            if b == i64::MIN {
                0x8000000000000000
            } else {
                (-b) as u64
            }
        } else {
            b as u64
        };
        proof {
            assert(ma as int == if a >= 0 { a as int } else { -(a as int) });
            assert(mb as int == if b >= 0 { b as int } else { -(b as int) });
        }
        if ma % mb == 0 {
            let qm: u64 = ma / mb;
            proof {
                vstd::arithmetic::div_mod::lemma_fundamental_div_mod(ma as int, mb as int);
                assert((qm as int) * (mb as int) == ma as int) by (nonlinear_arith)
                    requires
                        ma as int == (mb as int) * ((ma as int) / (mb as int)) + (ma as int) % (
                        mb as int),
                        (ma as int) % (mb as int) == 0,
                        qm as int == (ma as int) / (mb as int),
                ;
            }
            let neg = (a < 0) != (b < 0);
            let q_ok: Option<i64> = if neg {
                if qm <= 0x8000000000000000 {
                    if qm == 0x8000000000000000 {
                        Some(i64::MIN)
                    } else {
                        Some(-(qm as i64))
                    }
                } else {
                    None
                }
            } else {
                if qm <= i64::MAX as u64 {
                    Some(qm as i64)
                } else {
                    None
                }
            };
            match q_ok {
                Some(q) => {
                    proof {
                        assert(q as int == if neg { -(qm as int) } else { qm as int });
                        assert((q as int) * (b as int) == a as int) by (nonlinear_arith)
                            requires
                                (qm as int) * (mb as int) == ma as int,
                                q as int == if neg { -(qm as int) } else { qm as int },
                                ma as int == if a >= 0 { a as int } else { -(a as int) },
                                mb as int == if b >= 0 { b as int } else { -(b as int) },
                                neg == ((a < 0) != (b < 0)),
                                b != 0,
                        ;
                        let qc = choose|qq: int| i64::MIN <= qq <= i64::MAX && #[trigger] (qq * b)
                            == a;
                        assert(qc == q as int) by (nonlinear_arith)
                            requires
                                qc * (b as int) == a as int,
                                (q as int) * (b as int) == a as int,
                                b != 0,
                        ;
                    }
                    Some(q)
                },
                None => {
                    proof {
                        if exists|qq: int| i64::MIN <= qq <= i64::MAX && #[trigger] (qq * b)
                            == a {
                            let qc = choose|qq: int| i64::MIN <= qq <= i64::MAX && #[trigger] (qq
                                * b) == a;
                            assert(false) by (nonlinear_arith)
                                requires
                                    qc * (b as int) == a as int,
                                    i64::MIN <= qc <= i64::MAX,
                                    (qm as int) * (mb as int) == ma as int,
                                    ma as int == if a >= 0 { a as int } else { -(a as int) },
                                    mb as int == if b >= 0 { b as int } else { -(b as int) },
                                    mb >= 1,
                                    b != 0,
                                    ({
                                        let neg2 = (a < 0) != (b < 0);
                                        if neg2 {
                                            qm > 0x8000000000000000
                                        } else {
                                            qm > i64::MAX as u64
                                        }
                                    }),
                            ;
                        }
                    }
                    None
                },
            }
        } else {
            proof {
                if exists|qq: int| i64::MIN <= qq <= i64::MAX && #[trigger] (qq * b) == a {
                    let qc = choose|qq: int| i64::MIN <= qq <= i64::MAX && #[trigger] (qq * b)
                        == a;
                    let mq: int = if qc >= 0 {
                        qc
                    } else {
                        -qc
                    };
                    assert(mq * (mb as int) == ma as int) by (nonlinear_arith)
                        requires
                            qc * (b as int) == a as int,
                            mq == if qc >= 0 { qc } else { -qc },
                            ma as int == if a >= 0 { a as int } else { -(a as int) },
                            mb as int == if b >= 0 { b as int } else { -(b as int) },
                            b != 0,
                    ;
                    assert(mq >= 0);
                    vstd::arithmetic::div_mod::lemma_mod_multiples_basic(mq, mb as int);
                    assert((mq * (mb as int)) % (mb as int) == 0);
                    assert((ma as int) % (mb as int) == 0);
                }
            }
            None
        }
    }
}

/// One splitting attempt: the expression split at the first occurrence of
/// the operator, both sides whole numbers.
pub open spec fn split_on(n: Seq<char>, c: char) -> Option<(i64, i64)> {
    let i = char_index(n, c);
    if i >= 0 {
        match spec_parse_i64(n.subrange(0, i)) {
            Some(a) => match spec_parse_i64(n.subrange(i + 1, n.len() as int)) {
                Some(b) => Some((a, b)),
                None => None,
            },
            None => None,
        }
    } else {
        None
    }
}

fn split_on_exec(n: &Vec<char>, c: char) -> (r: Option<(i64, i64)>)
    ensures
        r == split_on(n@, c),
{
    proof {
        lemma_char_index(n@, c);
    }
    match find_char(n, c) {
        Some(i) => {
            let len = n.len();
            let mut left: Vec<char> = Vec::new();
            let mut k: usize = 0;
            while k < i
                invariant
                    i < n@.len(),
                    k <= i,
                    left@ == n@.subrange(0, k as int),
                decreases i - k,
            {
                left.push(n[k]);
                proof {
                    assert(left@ =~= n@.subrange(0, k + 1 as int));
                }
                k += 1;
            }
            let mut right: Vec<char> = Vec::new();
            let mut k2: usize = i + 1;
            while k2 < len
                invariant
                    len == n@.len(),
                    i + 1 <= k2 <= len,
                    right@ == n@.subrange(i + 1, k2 as int),
                decreases len - k2,
            {
                right.push(n[k2]);
                proof {
                    assert(right@ =~= n@.subrange(i + 1, k2 + 1 as int));
                }
                k2 += 1;
            }
            match parse_i64_exec(&left) {
                Some(a) => match parse_i64_exec(&right) {
                    Some(b) => Some((a, b)),
                    None => None,
                },
                None => None,
            }
        },
        None => None,
    }
}

/// The first operator, in the fixed order, whose split parses; its exact
/// result, or `None` for an inexact or out-of-range one.
pub open spec fn spec_try_simple(n: Seq<char>) -> Option<Option<i64>> {
    match split_on(n, '+') {
        Some(ab) => Some(eval_op('+', ab.0, ab.1)),
        None => match split_on(n, '-') {
            Some(ab) => Some(eval_op('-', ab.0, ab.1)),
            None => match split_on(n, '*') {
                Some(ab) => Some(eval_op('*', ab.0, ab.1)),
                None => match split_on(n, '/') {
                    Some(ab) => Some(eval_op('/', ab.0, ab.1)),
                    None => None,
                },
            },
        },
    }
}

/// The whole-number square root, where one exists.
pub open spec fn spec_sqrt(m: u64) -> Option<u64> {
    if exists|r: int| 0 <= r && #[trigger] (r * r) == m {
        Some((choose|r: int| 0 <= r && #[trigger] (r * r) == m) as u64)
    } else {
        None
    }
}

fn sqrt_exec(m: u64) -> (res: Option<u64>)
    ensures
        res == spec_sqrt(m),
{
    let mut r: u64 = 0;
    while r < 0x100000000
        invariant_except_break
            r <= 0x100000000,
            forall|k: int| 0 <= k < r ==> #[trigger] (k * k) < m,
        ensures
            r <= 0x100000000,
            forall|k: int| 0 <= k < r ==> #[trigger] (k * k) < m,
            (r as int) * (r as int) >= m,
        decreases 0x100000000 - r,
    {
        proof {
            assert((r as int) * (r as int) < 0x10000000000000000) by (nonlinear_arith)
                requires
                    r < 0x100000000,
            ;
        }
        let sq: u64 = r * r;
        if sq >= m {
            break ;
        }
        proof {
            assert(forall|k: int|
                0 <= k < r + 1 ==> #[trigger] (k * k) < m) by (nonlinear_arith)
                requires
                    forall|k: int| 0 <= k < r ==> #[trigger] (k * k) < m,
                    (r as int) * (r as int) < m,
            ;
        }
        r = r + 1;
    }
    proof {
        if r == 0x100000000 {
            assert((r as int) * (r as int) >= 0x10000000000000000) by (nonlinear_arith)
                requires
                    r == 0x100000000,
            ;
        }
    }
    let exact = if r < 0x100000000 {
        proof {
            assert((r as int) * (r as int) < 0x10000000000000000) by (nonlinear_arith)
                requires
                    r < 0x100000000,
            ;
        }
        r * r == m
    } else {
        false
    };
    if exact {
        proof {
            assert((r as int) * (r as int) == m as int);
            let rc = choose|k: int| 0 <= k && #[trigger] (k * k) == m;
            assert(rc * rc == m as int);
            assert(rc == r as int) by (nonlinear_arith)
                requires
                    rc * rc == m as int,
                    (r as int) * (r as int) == m as int,
                    rc >= 0,
                    r >= 0,
            ;
        }
        Some(r)
    } else {
        proof {
            if exists|k: int| 0 <= k && #[trigger] (k * k) == m {
                let rc = choose|k: int| 0 <= k && #[trigger] (k * k) == m;
                assert(rc * rc == m as int);
                if rc < r {
                    assert((rc * rc) < m);
                    assert(false);
                } else {
                    assert(rc * rc >= (r as int) * (r as int)) by (nonlinear_arith)
                        requires
                            rc >= r,
                            r >= 0,
                    ;
                    assert((r as int) * (r as int) >= m as int);
                    if r < 0x100000000 {
                        assert((r as int) * (r as int) != m as int);
                        assert(false);
                    } else {
                        assert((r as int) * (r as int) >= 0x10000000000000000) by (
                        nonlinear_arith)
                            requires
                                r == 0x100000000,
                        ;
                        assert(false);
                    }
                }
            }
        }
        None
    }
}

/// The literal `lit` begins the text.
pub open spec fn starts_with(s: Seq<char>, lit: Seq<char>) -> bool {
    s.len() >= lit.len() && s.subrange(0, lit.len() as int) == lit
}

fn starts_with_check(s: &Vec<char>, lit: &Vec<char>) -> (r: bool)
    ensures
        r == starts_with(s@, lit@),
{
    let r = crate::text::sub_at(s, 0, lit);
    proof {
        assert(crate::text::is_sub_at(s@, 0, lit@) == starts_with(s@, lit@));
    }
    r
}

/// The evaluator's answer for a normalised expression, `None` where it is
/// unsupported.
pub open spec fn spec_evaluate(e: Seq<char>) -> Option<Seq<char>> {
    let n = strip_spaces(e);
    match spec_try_simple(n) {
        Some(Some(v)) => Some(render_i64(v)),
        _ => spec_eval_fns(n),
    }
}

/// The function forms: a whole square root, where one exists.
pub open spec fn spec_eval_fns(n: Seq<char>) -> Option<Seq<char>> {
    if starts_with(n, "sqrt("@) && n.len() > 6 && n[n.len() - 1] == ')' {
        match spec_parse_u64(n.subrange(5, n.len() - 1)) {
            Some(m) => match spec_sqrt(m) {
                Some(r) => Some(spec_digits(r as nat)),
                None => None,
            },
            None => None,
        }
    } else {
        None
    }
}

/// Evaluates an arithmetic expression exactly: one of `+ - * /` between
/// two whole numbers, or `sqrt` of a perfect square.  Anything else —
/// fractions, overflow, other functions — is reported as unsupported.
pub fn evaluate_expression(expr: &str) -> (r: Result<String, ToolError>)
    ensures
        match r {
            Ok(s) => spec_evaluate(expr@) == Some(s@),
            Err(_) => spec_evaluate(expr@) is None,
        },
{
    let cs = chars_of(expr);
    let n = strip_spaces_exec(&cs);
    let simple = match split_on_exec(&n, '+') {
        Some(ab) => Some(eval_op_exec('+', ab.0, ab.1)),
        None => match split_on_exec(&n, '-') {
            Some(ab) => Some(eval_op_exec('-', ab.0, ab.1)),
            None => match split_on_exec(&n, '*') {
                Some(ab) => Some(eval_op_exec('*', ab.0, ab.1)),
                None => match split_on_exec(&n, '/') {
                    Some(ab) => Some(eval_op_exec('/', ab.0, ab.1)),
                    None => None,
                },
            },
        },
    };
    match simple {
        Some(Some(v)) => {
            let out = render_i64_exec(v);
            return Ok(string_from_chars(&out));
        },
        _ => {},
    }
    let sqrt_lit = chars_of("sqrt(");
    if starts_with_check(&n, &sqrt_lit) && n.len() > 6 && n[n.len() - 1] == ')' {
        let mut inner: Vec<char> = Vec::new();
        let e = n.len() - 1;
        let mut k: usize = 5;
        while k < e
            invariant
                5 <= k <= e,
                e < n@.len(),
                inner@ == n@.subrange(5, k as int),
            decreases e - k,
        {
            inner.push(n[k]);
            proof {
                assert(inner@ =~= n@.subrange(5, k + 1 as int));
            }
            k += 1;
        }
        match parse_u64_exec(&inner) {
            Some(m) => match sqrt_exec(m) {
                Some(root) => {
                    let mut out: Vec<char> = Vec::new();
                    push_u64_digits(&mut out, root);
                    return Ok(string_from_chars(&out));
                },
                None => {},
            },
            None => {},
        }
    }
    Err(ToolError::UnsupportedExpression { expression: String::from_str(expr) })
}

/// The whitespace-separated tokens of a text.
pub open spec fn tokens_from(s: Seq<char>, i: int) -> Seq<Seq<char>>
    decreases s.len() - i,
{
    if !(0 <= i < s.len()) {
        Seq::<Seq<char>>::empty()
    } else {
        let w = space_run(s, i);
        let j = i + w;
        if j >= s.len() {
            Seq::<Seq<char>>::empty()
        } else {
            let t = nonspace_run(s, j);
            if j + t <= s.len() && t > 0 {
                seq![s.subrange(j, j + t)] + tokens_from(s, j + t)
            } else {
                Seq::<Seq<char>>::empty()
            }
        }
    }
}

pub open spec fn spec_tokens(s: Seq<char>) -> Seq<Seq<char>> {
    tokens_from(s, 0)
}

fn tokens_collect(s: &Vec<char>, i: usize, out: &mut Vec<String>)
    requires
        i <= s@.len(),
    ensures
        final(out)@.len() == old(out)@.len() + tokens_from(s@, i as int).len(),
        forall|j: int| 0 <= j < old(out)@.len() ==> final(out)@[j] == old(out)@[j],
        forall|j: int|
            0 <= j < tokens_from(s@, i as int).len() ==> (#[trigger] final(out)@[old(out)@.len()
                + j])@ == tokens_from(s@, i as int)[j],
    decreases s@.len() - i,
{
    if i >= s.len() {
        return ;
    }
    let w = space_run_at(s, i);
    let j = i + w;
    if j >= s.len() {
        return ;
    }
    let t = nonspace_run_at(s, j);
    let e = j + t;
    if t == 0 {
        return ;
    }
    let mut tok: Vec<char> = Vec::new();
    let mut k: usize = j;
    while k < e
        invariant
            j <= k <= e,
            e <= s@.len(),
            tok@ == s@.subrange(j as int, k as int),
        decreases e - k,
    {
        tok.push(s[k]);
        proof {
            assert(tok@ =~= s@.subrange(j as int, k + 1 as int));
        }
        k += 1;
    }
    let ghost tokg = tok@;
    out.push(string_from_chars(&tok));
    let ghost pre = out@;
    tokens_collect(s, e, out);
    proof {
        let tf = tokens_from(s@, i as int);
        let rest = tokens_from(s@, e as int);
        assert(tf == seq![s@.subrange(j as int, e as int)] + rest);
        assert(pre.len() == old(out)@.len() + 1);
        assert forall|q: int|
            0 <= q < tf.len() implies (#[trigger] out@[old(out)@.len() + q])@ == tf[q] by {
            if q == 0 {
                assert(out@[old(out)@.len() as int + 0] == pre[old(out)@.len() as int]);
                assert(pre[old(out)@.len() as int]@ == tokg);
            } else {
                assert(out@[pre.len() + (q - 1)]@ == rest[q - 1]);
                assert(old(out)@.len() + q == pre.len() + (q - 1));
                assert(tf[q] == rest[q - 1]);
            }
        }
    }
}

/// Splits a text into whitespace-separated tokens.
pub fn split_tokens(s: &Vec<char>) -> (r: Vec<String>)
    ensures
        r@.len() == spec_tokens(s@).len(),
        forall|j: int|
            0 <= j < spec_tokens(s@).len() ==> (#[trigger] r@[j])@ == spec_tokens(s@)[j],
{
    let mut out: Vec<String> = Vec::new();
    let ghost zero: int = out@.len() as int;
    tokens_collect(s, 0, &mut out);
    proof {
        assert forall|j: int|
            0 <= j < spec_tokens(s@).len() implies (#[trigger] out@[j])@ == spec_tokens(s@)[j] by {
            assert(out@[zero + j]@ == tokens_from(s@, 0)[j]);
        }
    }
    out
}

/// The command and arguments of a shell operation text: the first token
/// and the rest, or a diagnostic echo for an empty text.
pub open spec fn spec_parse_command(s: Seq<char>) -> (Seq<char>, Seq<Seq<char>>) {
    let ts = spec_tokens(s);
    if ts.len() == 0 {
        ("echo"@, seq!["Invalid command"@])
    } else {
        (ts[0], ts.drop_first())
    }
}

pub fn parse_command(operation: &str) -> (r: (String, Vec<String>))
    ensures
        r.0@ == spec_parse_command(operation@).0,
        crate::planner::strs_views(r.1@) == spec_parse_command(operation@).1,
{
    let cs = chars_of(operation);
    let mut ts = split_tokens(&cs);
    if ts.len() == 0 {
        let mut args: Vec<String> = Vec::new();
        args.push(String::from_str("Invalid command"));
        proof {
            assert(crate::planner::strs_views(args@) =~= seq!["Invalid command"@]);
        }
        return (String::from_str("echo"), args);
    }
    let ghost ts0 = ts@;
    let cmd = ts.remove(0);
    proof {
        assert(ts@ =~= ts0.drop_first());
        assert(cmd@ == spec_tokens(cs@)[0]);
        assert forall|j: int|
            0 <= j < ts@.len() implies (#[trigger] ts@[j])@ == spec_tokens(cs@).drop_first()[j]
            by {
            assert(ts@[j] == ts0[j + 1]);
            assert(ts0[j + 1]@ == spec_tokens(cs@)[j + 1]);
        }
        assert(crate::planner::strs_views(ts@) =~= spec_tokens(cs@).drop_first());
    }
    (cmd, ts)
}

/// Space-joined text pieces.
pub open spec fn join_space(ss: Seq<Seq<char>>) -> Seq<char>
    decreases ss.len(),
{
    if ss.len() == 0 {
        Seq::<char>::empty()
    } else if ss.len() == 1 {
        ss[0]
    } else {
        ss[0] + " "@ + join_space(ss.drop_first())
    }
}

proof fn lemma_join_space_snoc(ss: Seq<Seq<char>>, i: int)
    requires
        0 <= i < ss.len(),
    ensures
        join_space(ss.subrange(0, i + 1)) == if i == 0 {
            ss[0]
        } else {
            join_space(ss.subrange(0, i)) + " "@ + ss[i]
        },
    decreases i,
{
    if i == 0 {
        let one = ss.subrange(0, 1);
        assert(one.len() == 1 && one[0] == ss[0]);
    } else if i == 1 {
        let a = ss.subrange(0, 2);
        assert(a.len() == 2 && a[0] == ss[0]);
        assert(a.drop_first() =~= ss.subrange(1, 2));
        assert(ss.subrange(1, 2).len() == 1 && ss.subrange(1, 2)[0] == ss[1]);
        assert(join_space(ss.subrange(1, 2)) == ss.subrange(1, 2)[0]);
        assert(ss.subrange(0, 1).len() == 1 && ss.subrange(0, 1)[0] == ss[0]);
        assert(join_space(ss.subrange(0, 1)) == ss.subrange(0, 1)[0]);
    } else {
        let a = ss.subrange(0, i + 1);
        let b = ss.subrange(0, i);
        let tail = ss.subrange(1, ss.len() as int);
        assert(a.drop_first() =~= tail.subrange(0, i));
        assert(b.drop_first() =~= tail.subrange(0, i - 1));
        lemma_join_space_snoc(tail, i - 1);
        assert(tail[i - 1] == ss[i]);
        assert(a.len() >= 2 && b.len() >= 2);
        assert(a[0] == ss[0] && b[0] == ss[0]);
        assert(ss[0] + " "@ + (join_space(tail.subrange(0, i - 1)) + " "@ + ss[i]) =~= (ss[0]
            + " "@ + join_space(tail.subrange(0, i - 1))) + " "@ + ss[i]);
    }
}

fn join_space_exec(ss: &Vec<String>) -> (r: String)
    ensures
        r@ == join_space(crate::planner::strs_views(ss@)),
{
    let ghost sv = crate::planner::strs_views(ss@);
    let mut out = String::new();
    let n = ss.len();
    let mut i: usize = 0;
    while i < n
        invariant
            n == ss@.len(),
            sv == crate::planner::strs_views(ss@),
            sv.len() == n,
            i <= n,
            out@ == join_space(sv.subrange(0, i as int)),
        decreases n - i,
    {
        if i > 0 {
            out.append(" ");
        }
        out.append(ss[i].as_str());
        proof {
            lemma_join_space_snoc(sv, i as int);
            assert(out@ =~= join_space(sv.subrange(0, i + 1 as int)));
        }
        i += 1;
    }
    proof {
        assert(sv.subrange(0, sv.len() as int) =~= sv);
    }
    out
}

/// The command is on the fixed allow list.
pub open spec fn command_allowed(cmd: Seq<char>) -> bool {
    cmd == "ls"@ || cmd == "pwd"@ || cmd == "echo"@ || cmd == "cat"@ || cmd == "head"@ || cmd
        == "tail"@ || cmd == "wc"@ || cmd == "grep"@ || cmd == "find"@ || cmd == "whoami"@ || cmd
        == "date"@ || cmd == "uname"@
}

/// The simulated output of one allow-listed command.
pub open spec fn spec_shell_sim(cmd: Seq<char>, args: Seq<Seq<char>>) -> Seq<char> {
    if cmd == "ls"@ {
        let path = if args.len() > 0 {
            args[0]
        } else {
            "."@
        };
        "file1.txt\nfile2.txt\ndirectory/\n(simulated ls for "@ + path + ")"@
    } else if cmd == "pwd"@ {
        "/home/user/workspace"@
    } else if cmd == "echo"@ {
        join_space(args)
    } else if cmd == "whoami"@ {
        "wasmuser"@
    } else if cmd == "date"@ {
        "Wed Jun 27 07:35:00 UTC 2024 (simulated)"@
    } else if cmd == "uname"@ {
        let flag = if args.len() > 0 {
            args[0]
        } else {
            "-s"@
        };
        if flag == "-a"@ {
            "WASM wasm-runtime 1.0.0 wasm32 wasm32-wasip1"@
        } else {
            "WASM"@
        }
    } else if cmd == "cat"@ {
        let file = if args.len() > 0 {
            args[0]
        } else {
            "file.txt"@
        };
        "This is simulated content of "@ + file
    } else if cmd == "wc"@ {
        let file = if args.len() > 0 {
            args[0]
        } else {
            "file.txt"@
        };
        "      10      42     256 "@ + file
    } else {
        "Simulated output for: "@ + cmd + " "@ + join_space(args)
    }
}

/// The sandboxed shell simulation: allow-listed commands get canned,
/// deterministic output; anything else is refused.
#[verifier::rlimit(60)]
pub fn execute_shell_command_wasm(cmd: &str, args: &Vec<String>) -> (r: Result<
    String,
    ToolError,
>)
    ensures
        match r {
            Ok(out) => command_allowed(cmd@) && out@ == spec_shell_sim(
                cmd@,
                crate::planner::strs_views(args@),
            ),
            Err(_) => !command_allowed(cmd@),
        },
{
    let allowed = str_eq(cmd, "ls") || str_eq(cmd, "pwd") || str_eq(cmd, "echo") || str_eq(
        cmd,
        "cat",
    ) || str_eq(cmd, "head") || str_eq(cmd, "tail") || str_eq(cmd, "wc") || str_eq(cmd, "grep")
        || str_eq(cmd, "find") || str_eq(cmd, "whoami") || str_eq(cmd, "date") || str_eq(
        cmd,
        "uname",
    );
    if !allowed {
        return Err(ToolError::CommandNotAllowed { command: String::from_str(cmd) });
    }
    if str_eq(cmd, "ls") {
        let mut out = String::from_str("file1.txt\nfile2.txt\ndirectory/\n(simulated ls for ");
        if args.len() > 0 {
            out.append(args[0].as_str());
        } else {
            out.append(".");
        }
        out.append(")");
        proof {
            assert(out@ =~= spec_shell_sim(cmd@, crate::planner::strs_views(args@)));
        }
        Ok(out)
    } else if str_eq(cmd, "pwd") {
        let out = String::from_str("/home/user/workspace");
        proof {
            assert(out@ =~= spec_shell_sim(cmd@, crate::planner::strs_views(args@)));
        }
        Ok(out)
    } else if str_eq(cmd, "echo") {
        let out = join_space_exec(args);
        proof {
            assert(out@ =~= spec_shell_sim(cmd@, crate::planner::strs_views(args@)));
        }
        Ok(out)
    } else if str_eq(cmd, "whoami") {
        let out = String::from_str("wasmuser");
        proof {
            assert(out@ =~= spec_shell_sim(cmd@, crate::planner::strs_views(args@)));
        }
        Ok(out)
    } else if str_eq(cmd, "date") {
        let out = String::from_str("Wed Jun 27 07:35:00 UTC 2024 (simulated)");
        proof {
            assert(out@ =~= spec_shell_sim(cmd@, crate::planner::strs_views(args@)));
        }
        Ok(out)
    } else if str_eq(cmd, "uname") {
        let is_a = if args.len() > 0 {
            str_eq(args[0].as_str(), "-a")
        } else {
            false
        };
        proof {
            reveal_strlit("-s");
            reveal_strlit("-a");
            assert("-s"@ != "-a"@) by {
                assert("-s"@[1] == 's' && "-a"@[1] == 'a');
            }
            if args@.len() > 0 {
                assert(crate::planner::strs_views(args@)[0] == args@[0]@);
            }
        }
        if is_a {
            let out = String::from_str("WASM wasm-runtime 1.0.0 wasm32 wasm32-wasip1");
            proof {
                assert(out@ =~= spec_shell_sim(cmd@, crate::planner::strs_views(args@)));
            }
            Ok(out)
        } else {
            let out = String::from_str("WASM");
            proof {
                assert(out@ =~= spec_shell_sim(cmd@, crate::planner::strs_views(args@)));
            }
            Ok(out)
        }
    } else if str_eq(cmd, "cat") {
        let mut out = String::from_str("This is simulated content of ");
        if args.len() > 0 {
            out.append(args[0].as_str());
        } else {
            out.append("file.txt");
        }
        proof {
            assert(out@ =~= spec_shell_sim(cmd@, crate::planner::strs_views(args@)));
        }
        Ok(out)
    } else if str_eq(cmd, "wc") {
        let mut out = String::from_str("      10      42     256 ");
        if args.len() > 0 {
            out.append(args[0].as_str());
        } else {
            out.append("file.txt");
        }
        proof {
            assert(out@ =~= spec_shell_sim(cmd@, crate::planner::strs_views(args@)));
        }
        Ok(out)
    } else {
        let mut out = String::from_str("Simulated output for: ");
        out.append(cmd);
        out.append(" ");
        let joined = join_space_exec(args);
        out.append(joined.as_str());
        proof {
            assert(command_allowed(cmd@));
            assert(out@ =~= spec_shell_sim(cmd@, crate::planner::strs_views(args@)));
        }
        Ok(out)
    }
}

/// The address and method of a fetch operation text: `method address`,
/// a bare address read as a get, or the whole text for anything else.
pub open spec fn spec_parse_url(s: Seq<char>) -> (Seq<char>, Seq<char>) {
    let ts = spec_tokens(s);
    if ts.len() == 1 {
        (ts[0], "GET"@)
    } else if ts.len() == 2 {
        (ts[1], upper(ts[0]))
    } else {
        (s, "GET"@)
    }
}

pub fn parse_url_and_method(operation: &str) -> (r: (String, String))
    ensures
        r.0@ == spec_parse_url(operation@).0,
        r.1@ == spec_parse_url(operation@).1,
{
    let cs = chars_of(operation);
    let ts = split_tokens(&cs);
    if ts.len() == 1 {
        (ts[0].clone(), String::from_str("GET"))
    } else if ts.len() == 2 {
        let m = chars_of(ts[0].as_str());
        let mu = upper_chars(&m);
        (ts[1].clone(), string_from_chars(&mu))
    } else {
        (String::from_str(operation), String::from_str("GET"))
    }
}

/// The simulated response of the sandboxed fetch backend.
pub open spec fn spec_http_sim(url: Seq<char>, method: Seq<char>) -> Option<Seq<char>> {
    let mu = upper(method);
    if mu == "GET"@ {
        if contains_sub(url, "httpbin.org/json"@) {
            Some("{\"slideshow\": {\"title\": \"Sample Slide Show\"}}"@)
        } else if contains_sub(url, "api.github.com"@) {
            Some("{\"message\": \"API rate limit exceeded\"}"@)
        } else {
            Some("{\"url\": \""@ + url + "\", \"method\": \"GET\", \"simulated\": true}"@)
        }
    } else if mu == "POST"@ {
        Some(
            "{\"url\": \""@ + url
                + "\", \"method\": \"POST\", \"simulated\": true, \"status\": \"created\"}"@,
        )
    } else {
        None
    }
}

/// The sandboxed fetch simulation: canned responses for known addresses,
/// an echoing object otherwise; only gets and posts are supported.
pub fn perform_http_request_wasm(url: &str, method: &str) -> (r: Result<String, ToolError>)
    ensures
        match r {
            Ok(out) => spec_http_sim(url@, method@) == Some(out@),
            Err(_) => spec_http_sim(url@, method@) is None,
        },
{
    let m = chars_of(method);
    let mu = upper_chars(&m);
    let mus = string_from_chars(&mu);
    if str_eq(mus.as_str(), "GET") {
        let u = chars_of(url);
        let n1 = chars_of("httpbin.org/json");
        let n2 = chars_of("api.github.com");
        match find_sub(&u, &n1) {
            Some(_) => Ok(
                String::from_str("{\"slideshow\": {\"title\": \"Sample Slide Show\"}}"),
            ),
            None => match find_sub(&u, &n2) {
                Some(_) => Ok(String::from_str("{\"message\": \"API rate limit exceeded\"}")),
                None => {
                    let mut out = String::from_str("{\"url\": \"");
                    out.append(url);
                    out.append("\", \"method\": \"GET\", \"simulated\": true}");
                    proof {
                        assert(out@ =~= spec_http_sim(url@, method@)->0);
                    }
                    Ok(out)
                },
            },
        }
    } else if str_eq(mus.as_str(), "POST") {
        let mut out = String::from_str("{\"url\": \"");
        out.append(url);
        out.append("\", \"method\": \"POST\", \"simulated\": true, \"status\": \"created\"}");
        proof {
            assert(out@ =~= spec_http_sim(url@, method@)->0);
        }
        Ok(out)
    } else {
        Err(ToolError::UnsupportedMethod { method: String::from_str(method) })
    }
}

} // verus!
