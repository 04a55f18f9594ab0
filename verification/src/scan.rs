//! The plan parser's pattern matchers: pure scanners over character
//! sequences, one per textual pattern, each specified exactly.  Matching is
//! leftmost: the first position where a pattern fits wins.

use vstd::prelude::*;

use crate::text::{is_digit, is_space, is_word_char, lower_char, digit_check, space_check,
    word_char_check, lower_char_exec};

verus! {

broadcast use vstd::seq::group_seq_axioms, vstd::std_specs::vec::group_vec_axioms;

/// Length of the whitespace run at `i`.
pub open spec fn space_run(l: Seq<char>, i: int) -> nat
    decreases l.len() - i,
{
    if 0 <= i < l.len() && is_space(l[i]) {
        1 + space_run(l, i + 1)
    } else {
        0
    }
}

/// Length of the word-character run at `i`.
pub open spec fn word_run(l: Seq<char>, i: int) -> nat
    decreases l.len() - i,
{
    if 0 <= i < l.len() && is_word_char(l[i]) {
        1 + word_run(l, i + 1)
    } else {
        0
    }
}

/// Length of the digit run at `i`.
pub open spec fn digit_run(l: Seq<char>, i: int) -> nat
    decreases l.len() - i,
{
    if 0 <= i < l.len() && is_digit(l[i]) {
        1 + digit_run(l, i + 1)
    } else {
        0
    }
}

/// Length of the non-whitespace run at `i`.
pub open spec fn nonspace_run(l: Seq<char>, i: int) -> nat
    decreases l.len() - i,
{
    if 0 <= i < l.len() && !is_space(l[i]) {
        1 + nonspace_run(l, i + 1)
    } else {
        0
    }
}

/// Length of the run of characters other than `)` at `i`.
pub open spec fn nonrparen_run(l: Seq<char>, i: int) -> nat
    decreases l.len() - i,
{
    if 0 <= i < l.len() && l[i] != ')' {
        1 + nonrparen_run(l, i + 1)
    } else {
        0
    }
}

pub fn space_run_at(l: &Vec<char>, i: usize) -> (r: usize)
    requires
        i <= l@.len(),
    ensures
        r == space_run(l@, i as int),
        i + r <= l@.len(),
    decreases l@.len() - i,
{
    if i < l.len() && space_check(l[i]) {
        1 + space_run_at(l, i + 1)
    } else {
        0
    }
}

pub fn word_run_at(l: &Vec<char>, i: usize) -> (r: usize)
    requires
        i <= l@.len(),
    ensures
        r == word_run(l@, i as int),
        i + r <= l@.len(),
    decreases l@.len() - i,
{
    if i < l.len() && word_char_check(l[i]) {
        1 + word_run_at(l, i + 1)
    } else {
        0
    }
}

pub fn digit_run_at(l: &Vec<char>, i: usize) -> (r: usize)
    requires
        i <= l@.len(),
    ensures
        r == digit_run(l@, i as int),
        i + r <= l@.len(),
    decreases l@.len() - i,
{
    if i < l.len() && digit_check(l[i]) {
        1 + digit_run_at(l, i + 1)
    } else {
        0
    }
}

pub fn nonspace_run_at(l: &Vec<char>, i: usize) -> (r: usize)
    requires
        i <= l@.len(),
    ensures
        r == nonspace_run(l@, i as int),
        i + r <= l@.len(),
    decreases l@.len() - i,
{
    if i < l.len() && !space_check(l[i]) {
        1 + nonspace_run_at(l, i + 1)
    } else {
        0
    }
}

pub fn nonrparen_run_at(l: &Vec<char>, i: usize) -> (r: usize)
    requires
        i <= l@.len(),
    ensures
        r == nonrparen_run(l@, i as int),
        i + r <= l@.len(),
    decreases l@.len() - i,
{
    if i < l.len() && l[i] != ')' {
        1 + nonrparen_run_at(l, i + 1)
    } else {
        0
    }
}

/// The character at `i` lower-cases to `c`.
pub open spec fn ci_at(l: Seq<char>, i: int, c: char) -> bool {
    0 <= i < l.len() && lower_char(l[i]) == c
}

fn ci_check(l: &Vec<char>, i: usize, c: char) -> (r: bool)
    ensures
        r == ci_at(l@, i as int, c),
{
    i < l.len() && lower_char_exec(l[i]) == c
}

fn at_check(l: &Vec<char>, i: usize, c: char) -> (r: bool)
    ensures
        r == (0 <= i < l@.len() && l@[i as int] == c),
{
    i < l.len() && l[i] == c
}

/// A match of the pattern `use tool: <name> with arg(s): <rest>` at
/// position `i`, case-insensitive in its keywords: the captured name and
/// the rest of the line.
pub open spec fn use_tool_match_at(l: Seq<char>, i: int) -> Option<(Seq<char>, Seq<char>)> {
    if !(ci_at(l, i, 'u') && ci_at(l, i + 1, 's') && ci_at(l, i + 2, 'e')) {
        None
    } else {
        let w1 = space_run(l, i + 3);
        if w1 == 0 {
            None
        } else {
            let p = i + 3 + w1;
            if !(ci_at(l, p, 't') && ci_at(l, p + 1, 'o') && ci_at(l, p + 2, 'o') && ci_at(
                l,
                p + 3,
                'l',
            ) && p + 4 < l.len() && l[p + 4] == ':') {
                None
            } else {
                let w2 = space_run(l, p + 5);
                let q = p + 5 + w2;
                let wr = word_run(l, q);
                if wr == 0 {
                    None
                } else {
                    let name = l.subrange(q, q + wr);
                    let w3 = space_run(l, q + wr);
                    if w3 == 0 {
                        None
                    } else {
                        let b = q + wr + w3;
                        if !(ci_at(l, b, 'w') && ci_at(l, b + 1, 'i') && ci_at(l, b + 2, 't')
                            && ci_at(l, b + 3, 'h')) {
                            None
                        } else {
                            let w4 = space_run(l, b + 4);
                            if w4 == 0 {
                                None
                            } else {
                                let c = b + 4 + w4;
                                if !(ci_at(l, c, 'a') && ci_at(l, c + 1, 'r') && ci_at(
                                    l,
                                    c + 2,
                                    'g',
                                )) {
                                    None
                                } else {
                                    let d = if ci_at(l, c + 3, 's') {
                                        c + 4
                                    } else {
                                        c + 3
                                    };
                                    if !(d < l.len() && l[d] == ':') {
                                        None
                                    } else {
                                        let w5 = space_run(l, d + 1);
                                        let e = d + 1 + w5;
                                        if e < l.len() {
                                            Some((name, l.subrange(e, l.len() as int)))
                                        } else if d + 1 < l.len() {
                                            Some(
                                                (name, l.subrange(l.len() - 1, l.len() as int)),
                                            )
                                        } else {
                                            None
                                        }
                                    }
                                }
                            }
                        }
                    }
                }
            }
        }
    }
}

fn use_tool_try_at(l: &Vec<char>, i: usize) -> (r: Option<(Vec<char>, Vec<char>)>)
    requires
        i < l@.len(),
    ensures
        match r {
            Some(t) => use_tool_match_at(l@, i as int) == Some((t.0@, t.1@)),
            None => use_tool_match_at(l@, i as int) is None,
        },
{
    let n = l.len();
    if !(ci_check(l, i, 'u') && ci_check(l, i + 1, 's') && ci_check(l, i + 2, 'e')) {
        return None;
    }
    let w1 = space_run_at(l, i + 3);
    if w1 == 0 {
        return None;
    }
    let p = i + 3 + w1;
    if !(ci_check(l, p, 't') && ci_check(l, p + 1, 'o') && ci_check(l, p + 2, 'o') && ci_check(
        l,
        p + 3,
        'l',
    )) {
        return None;
    }
    if !(p + 4 < n && at_check(l, p + 4, ':')) {
        return None;
    }
    let w2 = space_run_at(l, p + 5);
    let q = p + 5 + w2;
    let wr = word_run_at(l, q);
    if wr == 0 {
        return None;
    }
    let mut name: Vec<char> = Vec::new();
    let endq = q + wr;
    let mut k: usize = q;
    while k < endq
        invariant
            endq == q + wr,
            endq <= l@.len(),
            q <= k <= endq,
            name@ == l@.subrange(q as int, k as int),
        decreases endq - k,
    {
        name.push(l[k]);
        proof {
            assert(name@ =~= l@.subrange(q as int, k + 1 as int));
        }
        k += 1;
    }
    let w3 = space_run_at(l, q + wr);
    if w3 == 0 {
        return None;
    }
    let b = q + wr + w3;
    if !(ci_check(l, b, 'w') && ci_check(l, b + 1, 'i') && ci_check(l, b + 2, 't') && ci_check(
        l,
        b + 3,
        'h',
    )) {
        return None;
    }
    let w4 = space_run_at(l, b + 4);
    if w4 == 0 {
        return None;
    }
    let c = b + 4 + w4;
    if !(ci_check(l, c, 'a') && ci_check(l, c + 1, 'r') && ci_check(l, c + 2, 'g')) {
        return None;
    }
    let d = if ci_check(l, c + 3, 's') {
        c + 4
    } else {
        c + 3
    };
    if !(d < n && at_check(l, d, ':')) {
        return None;
    }
    let w5 = space_run_at(l, d + 1);
    let e = d + 1 + w5;
    if e < n {
        let mut rest: Vec<char> = Vec::new();
        let mut k2: usize = e;
        while k2 < n
            invariant
                e <= k2 <= n,
                n == l@.len(),
                rest@ == l@.subrange(e as int, k2 as int),
            decreases n - k2,
        {
            rest.push(l[k2]);
            proof {
                assert(rest@ =~= l@.subrange(e as int, k2 + 1 as int));
            }
            k2 += 1;
        }
        Some((name, rest))
    } else if d + 1 < n {
        let mut rest: Vec<char> = Vec::new();
        rest.push(l[n - 1]);
        proof {
            assert(rest@ =~= l@.subrange(l@.len() - 1, l@.len() as int));
        }
        Some((name, rest))
    } else {
        None
    }
}

/// The leftmost match of the `use tool:` pattern in a line.
pub open spec fn find_use_tool_spec(l: Seq<char>, i: int) -> Option<(Seq<char>, Seq<char>)>
    decreases l.len() - i,
{
    if !(0 <= i < l.len()) {
        None
    } else {
        match use_tool_match_at(l, i) {
            Some(t) => Some(t),
            None => find_use_tool_spec(l, i + 1),
        }
    }
}

pub fn find_use_tool(l: &Vec<char>) -> (r: Option<(Vec<char>, Vec<char>)>)
    ensures
        match r {
            Some(t) => find_use_tool_spec(l@, 0) == Some((t.0@, t.1@)),
            None => find_use_tool_spec(l@, 0) is None,
        },
{
    let n = l.len();
    let mut i: usize = 0;
    while i < n
        invariant
            n == l@.len(),
            i <= n,
            find_use_tool_spec(l@, 0) == find_use_tool_spec(l@, i as int),
        decreases n - i,
    {
        match use_tool_try_at(l, i) {
            Some(t) => {
                return Some(t);
            },
            None => {},
        }
        i += 1;
    }
    None
}

/// A match of the pattern `<name>(<args>)` at position `i`: a word run
/// followed directly by a parenthesised, non-empty argument text.
pub open spec fn paren_match_at(l: Seq<char>, i: int) -> Option<(Seq<char>, Seq<char>)> {
    if !(0 <= i < l.len() && is_word_char(l[i])) {
        None
    } else {
        let wr = word_run(l, i);
        let p = i + wr;
        if !(p < l.len() && l[p] == '(') {
            None
        } else {
            let ar = nonrparen_run(l, p + 1);
            if ar == 0 {
                None
            } else {
                let q = p + 1 + ar;
                if q < l.len() && l[q] == ')' {
                    Some((l.subrange(i, p), l.subrange(p + 1, q)))
                } else {
                    None
                }
            }
        }
    }
}

fn paren_try_at(l: &Vec<char>, i: usize) -> (r: Option<(Vec<char>, Vec<char>)>)
    requires
        i < l@.len(),
    ensures
        match r {
            Some(t) => paren_match_at(l@, i as int) == Some((t.0@, t.1@)),
            None => paren_match_at(l@, i as int) is None,
        },
{
    let n = l.len();
    if !word_char_check(l[i]) {
        return None;
    }
    let wr = word_run_at(l, i);
    let p = i + wr;
    if !(p < n && at_check(l, p, '(')) {
        return None;
    }
    let ar = nonrparen_run_at(l, p + 1);
    if ar == 0 {
        return None;
    }
    let q = p + 1 + ar;
    if q < n && at_check(l, q, ')') {
        let mut name: Vec<char> = Vec::new();
        let mut k: usize = i;
        while k < p
            invariant
                i <= k <= p,
                p <= l@.len(),
                name@ == l@.subrange(i as int, k as int),
            decreases p - k,
        {
            name.push(l[k]);
            proof {
                assert(name@ =~= l@.subrange(i as int, k + 1 as int));
            }
            k += 1;
        }
        let mut args: Vec<char> = Vec::new();
        let mut k2: usize = p + 1;
        while k2 < q
            invariant
                p + 1 <= k2 <= q,
                q < l@.len(),
                args@ == l@.subrange(p + 1 as int, k2 as int),
            decreases q - k2,
        {
            args.push(l[k2]);
            proof {
                assert(args@ =~= l@.subrange(p + 1 as int, k2 + 1 as int));
            }
            k2 += 1;
        }
        Some((name, args))
    } else {
        None
    }
}

/// The leftmost match of the `<name>(<args>)` pattern in a line.
pub open spec fn find_paren_spec(l: Seq<char>, i: int) -> Option<(Seq<char>, Seq<char>)>
    decreases l.len() - i,
{
    if !(0 <= i < l.len()) {
        None
    } else {
        match paren_match_at(l, i) {
            Some(t) => Some(t),
            None => find_paren_spec(l, i + 1),
        }
    }
}

pub fn find_paren(l: &Vec<char>) -> (r: Option<(Vec<char>, Vec<char>)>)
    ensures
        match r {
            Some(t) => find_paren_spec(l@, 0) == Some((t.0@, t.1@)),
            None => find_paren_spec(l@, 0) is None,
        },
{
    let n = l.len();
    let mut i: usize = 0;
    while i < n
        invariant
            n == l@.len(),
            i <= n,
            find_paren_spec(l@, 0) == find_paren_spec(l@, i as int),
        decreases n - i,
    {
        match paren_try_at(l, i) {
            Some(t) => {
                return Some(t);
            },
            None => {},
        }
        i += 1;
    }
    None
}

/// An arithmetic operator.
pub open spec fn is_op(c: char) -> bool {
    c == '+' || c == '-' || c == '*' || c == '/'
}

fn op_check(c: char) -> (r: bool)
    ensures
        r == is_op(c),
{
    c == '+' || c == '-' || c == '*' || c == '/'
}

/// Greedy continuation of an arithmetic chain after a digit run: the
/// longest run of `ws op ws digits` groups whose end falls on a word
/// boundary, or `None` when no such end exists at all.
pub open spec fn chain_best(l: Seq<char>, i: int) -> Option<nat>
    decreases l.len() - i,
{
    if !(0 <= i <= l.len()) {
        None
    } else {
        let w1 = space_run(l, i);
        let p = i + w1;
        if p < l.len() && is_op(l[p]) && digit_run(l, p + 1 + space_run(l, p + 1)) > 0 {
            let w2 = space_run(l, p + 1);
            let q = p + 1 + w2;
            let dr = digit_run(l, q);
            let step = w1 + 1 + w2 + dr;
            if i + step <= l.len() {
                match chain_best(l, i + step) {
                    Some(c) => Some((step + c) as nat),
                    None => Some(0),
                }
            } else {
                None
            }
        } else {
            if i == l.len() || !is_word_char(l[i]) {
                Some(0)
            } else {
                None
            }
        }
    }
}

fn chain_best_at(l: &Vec<char>, i: usize) -> (r: Option<usize>)
    requires
        i <= l@.len(),
    ensures
        match r {
            Some(c) => chain_best(l@, i as int) == Some(c as nat) && i + c <= l@.len(),
            None => chain_best(l@, i as int) is None,
        },
    decreases l@.len() - i,
{
    let n = l.len();
    let w1 = space_run_at(l, i);
    let p = i + w1;
    let stepok = if p < n && op_check(l[p]) {
        let w2x = space_run_at(l, p + 1);
        digit_run_at(l, p + 1 + w2x) > 0
    } else {
        false
    };
    if stepok {
        let w2 = space_run_at(l, p + 1);
        let q = p + 1 + w2;
        let dr = digit_run_at(l, q);
        let step = w1 + 1 + w2 + dr;
        match chain_best_at(l, i + step) {
            Some(c) => Some(step + c),
            None => Some(0),
        }
    } else {
        if i == n || !word_char_check(l[i]) {
            Some(0)
        } else {
            None
        }
    }
}

/// A match of an arithmetic expression (digits, an operator, digits, then
/// further operator-digit groups) at position `i`, word-bounded on both
/// sides: the captured expression text.
pub open spec fn math_match_at(l: Seq<char>, i: int) -> Option<Seq<char>> {
    if !(0 <= i < l.len() && is_digit(l[i]) && (i == 0 || !is_word_char(l[i - 1]))) {
        None
    } else {
        let d1 = digit_run(l, i);
        let p = i + d1;
        let w1 = space_run(l, p);
        let q = p + w1;
        if !(q < l.len() && is_op(l[q])) {
            None
        } else {
            let w2 = space_run(l, q + 1);
            let s2 = q + 1 + w2;
            let d2 = digit_run(l, s2);
            if d2 == 0 {
                None
            } else {
                match chain_best(l, s2 + d2) {
                    Some(c) => Some(l.subrange(i, s2 + d2 + c)),
                    None => None,
                }
            }
        }
    }
}

fn math_try_at(l: &Vec<char>, i: usize) -> (r: Option<Vec<char>>)
    requires
        i < l@.len(),
    ensures
        match r {
            Some(t) => math_match_at(l@, i as int) == Some(t@),
            None => math_match_at(l@, i as int) is None,
        },
{
    let n = l.len();
    if !digit_check(l[i]) {
        return None;
    }
    if i > 0 && word_char_check(l[i - 1]) {
        return None;
    }
    let d1 = digit_run_at(l, i);
    let p = i + d1;
    let w1 = space_run_at(l, p);
    let q = p + w1;
    if !(q < n && op_check(l[q])) {
        return None;
    }
    let w2 = space_run_at(l, q + 1);
    let s2 = q + 1 + w2;
    let d2 = digit_run_at(l, s2);
    if d2 == 0 {
        return None;
    }
    match chain_best_at(l, s2 + d2) {
        Some(c) => {
            let e = s2 + d2 + c;
            let mut cap: Vec<char> = Vec::new();
            let mut k: usize = i;
            while k < e
                invariant
                    i <= k <= e,
                    e <= l@.len(),
                    cap@ == l@.subrange(i as int, k as int),
                decreases e - k,
            {
                cap.push(l[k]);
                proof {
                    assert(cap@ =~= l@.subrange(i as int, k + 1 as int));
                }
                k += 1;
            }
            Some(cap)
        },
        None => None,
    }
}

pub open spec fn find_math_spec(l: Seq<char>, i: int) -> Option<Seq<char>>
    decreases l.len() - i,
{
    if !(0 <= i < l.len()) {
        None
    } else {
        match math_match_at(l, i) {
            Some(t) => Some(t),
            None => find_math_spec(l, i + 1),
        }
    }
}

/// The leftmost arithmetic expression in the text.
pub fn find_math(l: &Vec<char>) -> (r: Option<Vec<char>>)
    ensures
        match r {
            Some(t) => find_math_spec(l@, 0) == Some(t@),
            None => find_math_spec(l@, 0) is None,
        },
{
    let n = l.len();
    let mut i: usize = 0;
    while i < n
        invariant
            n == l@.len(),
            i <= n,
            find_math_spec(l@, 0) == find_math_spec(l@, i as int),
        decreases n - i,
    {
        match math_try_at(l, i) {
            Some(t) => {
                return Some(t);
            },
            None => {},
        }
        i += 1;
    }
    None
}

/// A match of `sqrt(<digits>)` at position `i`, word-bounded on the left.
pub open spec fn sqrt_match_at(l: Seq<char>, i: int) -> Option<Seq<char>> {
    if !(0 <= i && (i == 0 || !is_word_char(l[i - 1])) && i + 5 <= l.len() && l[i] == 's' && l[i
        + 1] == 'q' && l[i + 2] == 'r' && l[i + 3] == 't' && l[i + 4] == '(') {
        None
    } else {
        let dr = digit_run(l, i + 5);
        if dr == 0 {
            None
        } else {
            let q = i + 5 + dr;
            if q < l.len() && l[q] == ')' {
                Some(l.subrange(i, q + 1))
            } else {
                None
            }
        }
    }
}

fn sqrt_try_at(l: &Vec<char>, i: usize) -> (r: Option<Vec<char>>)
    requires
        i < l@.len(),
    ensures
        match r {
            Some(t) => sqrt_match_at(l@, i as int) == Some(t@),
            None => sqrt_match_at(l@, i as int) is None,
        },
{
    let n = l.len();
    if i > 0 && word_char_check(l[i - 1]) {
        return None;
    }
    if !(n - i >= 5 && at_check(l, i, 's') && at_check(l, i + 1, 'q') && at_check(l, i + 2, 'r')
        && at_check(l, i + 3, 't') && at_check(l, i + 4, '(')) {
        return None;
    }
    let dr = digit_run_at(l, i + 5);
    if dr == 0 {
        return None;
    }
    let q = i + 5 + dr;
    if q < n && at_check(l, q, ')') {
        let e = q + 1;
        let mut cap: Vec<char> = Vec::new();
        let mut k: usize = i;
        while k < e
            invariant
                i <= k <= e,
                e <= l@.len(),
                cap@ == l@.subrange(i as int, k as int),
            decreases e - k,
        {
            cap.push(l[k]);
            proof {
                assert(cap@ =~= l@.subrange(i as int, k + 1 as int));
            }
            k += 1;
        }
        Some(cap)
    } else {
        None
    }
}

pub open spec fn find_sqrt_spec(l: Seq<char>, i: int) -> Option<Seq<char>>
    decreases l.len() - i,
{
    if !(0 <= i < l.len()) {
        None
    } else {
        match sqrt_match_at(l, i) {
            Some(t) => Some(t),
            None => find_sqrt_spec(l, i + 1),
        }
    }
}

pub fn find_sqrt(l: &Vec<char>) -> (r: Option<Vec<char>>)
    ensures
        match r {
            Some(t) => find_sqrt_spec(l@, 0) == Some(t@),
            None => find_sqrt_spec(l@, 0) is None,
        },
{
    let n = l.len();
    let mut i: usize = 0;
    while i < n
        invariant
            n == l@.len(),
            i <= n,
            find_sqrt_spec(l@, 0) == find_sqrt_spec(l@, i as int),
        decreases n - i,
    {
        match sqrt_try_at(l, i) {
            Some(t) => {
                return Some(t);
            },
            None => {},
        }
        i += 1;
    }
    None
}

/// A match of `<digits> ^ <digits>` at position `i`, word-bounded on both
/// sides.
pub open spec fn caret_match_at(l: Seq<char>, i: int) -> Option<Seq<char>> {
    if !(0 <= i < l.len() && is_digit(l[i]) && (i == 0 || !is_word_char(l[i - 1]))) {
        None
    } else {
        let d1 = digit_run(l, i);
        let p = i + d1;
        let w1 = space_run(l, p);
        let q = p + w1;
        if !(q < l.len() && l[q] == '^') {
            None
        } else {
            let w2 = space_run(l, q + 1);
            let s2 = q + 1 + w2;
            let d2 = digit_run(l, s2);
            if d2 == 0 {
                None
            } else {
                let e = s2 + d2;
                if e == l.len() || !is_word_char(l[e]) {
                    Some(l.subrange(i, e))
                } else {
                    None
                }
            }
        }
    }
}

fn caret_try_at(l: &Vec<char>, i: usize) -> (r: Option<Vec<char>>)
    requires
        i < l@.len(),
    ensures
        match r {
            Some(t) => caret_match_at(l@, i as int) == Some(t@),
            None => caret_match_at(l@, i as int) is None,
        },
{
    let n = l.len();
    if !digit_check(l[i]) {
        return None;
    }
    if i > 0 && word_char_check(l[i - 1]) {
        return None;
    }
    let d1 = digit_run_at(l, i);
    let p = i + d1;
    let w1 = space_run_at(l, p);
    let q = p + w1;
    if !(q < n && at_check(l, q, '^')) {
        return None;
    }
    let w2 = space_run_at(l, q + 1);
    let s2 = q + 1 + w2;
    let d2 = digit_run_at(l, s2);
    if d2 == 0 {
        return None;
    }
    let e = s2 + d2;
    if e == n || !word_char_check(l[e]) {
        let mut cap: Vec<char> = Vec::new();
        let mut k: usize = i;
        while k < e
            invariant
                i <= k <= e,
                e <= l@.len(),
                cap@ == l@.subrange(i as int, k as int),
            decreases e - k,
        {
            cap.push(l[k]);
            proof {
                assert(cap@ =~= l@.subrange(i as int, k + 1 as int));
            }
            k += 1;
        }
        Some(cap)
    } else {
        None
    }
}

pub open spec fn find_caret_spec(l: Seq<char>, i: int) -> Option<Seq<char>>
    decreases l.len() - i,
{
    if !(0 <= i < l.len()) {
        None
    } else {
        match caret_match_at(l, i) {
            Some(t) => Some(t),
            None => find_caret_spec(l, i + 1),
        }
    }
}

pub fn find_caret(l: &Vec<char>) -> (r: Option<Vec<char>>)
    ensures
        match r {
            Some(t) => find_caret_spec(l@, 0) == Some(t@),
            None => find_caret_spec(l@, 0) is None,
        },
{
    let n = l.len();
    let mut i: usize = 0;
    while i < n
        invariant
            n == l@.len(),
            i <= n,
            find_caret_spec(l@, 0) == find_caret_spec(l@, i as int),
        decreases n - i,
    {
        match caret_try_at(l, i) {
            Some(t) => {
                return Some(t);
            },
            None => {},
        }
        i += 1;
    }
    None
}

/// A match of `http://` or `https://` followed by non-whitespace at
/// position `i`: the whole captured address.
pub open spec fn url_match_at(l: Seq<char>, i: int) -> Option<Seq<char>> {
    if !(0 <= i && i + 4 <= l.len() && l[i] == 'h' && l[i + 1] == 't' && l[i + 2] == 't' && l[i
        + 3] == 'p') {
        None
    } else {
        let se = if i + 4 < l.len() && l[i + 4] == 's' {
            i + 5
        } else {
            i + 4
        };
        if !(se + 3 <= l.len() && l[se] == ':' && l[se + 1] == '/' && l[se + 2] == '/') {
            None
        } else {
            let ns = nonspace_run(l, se + 3);
            if ns == 0 {
                None
            } else {
                Some(l.subrange(i, se + 3 + ns))
            }
        }
    }
}

fn url_try_at(l: &Vec<char>, i: usize) -> (r: Option<Vec<char>>)
    requires
        i < l@.len(),
    ensures
        match r {
            Some(t) => url_match_at(l@, i as int) == Some(t@),
            None => url_match_at(l@, i as int) is None,
        },
{
    let n = l.len();
    if !(n - i >= 4 && at_check(l, i, 'h') && at_check(l, i + 1, 't') && at_check(l, i + 2, 't')
        && at_check(l, i + 3, 'p')) {
        return None;
    }
    let se = if i + 4 < n && at_check(l, i + 4, 's') {
        i + 5
    } else {
        i + 4
    };
    if !(n - se >= 3 && at_check(l, se, ':') && at_check(l, se + 1, '/') && at_check(
        l,
        se + 2,
        '/',
    )) {
        return None;
    }
    let ns = nonspace_run_at(l, se + 3);
    if ns == 0 {
        return None;
    }
    let e = se + 3 + ns;
    let mut cap: Vec<char> = Vec::new();
    let mut k: usize = i;
    while k < e
        invariant
            i <= k <= e,
            e <= l@.len(),
            cap@ == l@.subrange(i as int, k as int),
        decreases e - k,
    {
        cap.push(l[k]);
        proof {
            assert(cap@ =~= l@.subrange(i as int, k + 1 as int));
        }
        k += 1;
    }
    Some(cap)
}

pub open spec fn find_url_spec(l: Seq<char>, i: int) -> Option<Seq<char>>
    decreases l.len() - i,
{
    if !(0 <= i < l.len()) {
        None
    } else {
        match url_match_at(l, i) {
            Some(t) => Some(t),
            None => find_url_spec(l, i + 1),
        }
    }
}

pub fn find_url(l: &Vec<char>) -> (r: Option<Vec<char>>)
    ensures
        match r {
            Some(t) => find_url_spec(l@, 0) == Some(t@),
            None => find_url_spec(l@, 0) is None,
        },
{
    let n = l.len();
    let mut i: usize = 0;
    while i < n
        invariant
            n == l@.len(),
            i <= n,
            find_url_spec(l@, 0) == find_url_spec(l@, i as int),
        decreases n - i,
    {
        match url_try_at(l, i) {
            Some(t) => {
                return Some(t);
            },
            None => {},
        }
        i += 1;
    }
    None
}

/// Length of the run of characters other than a line feed at `i`.
pub open spec fn nonnl_run(l: Seq<char>, i: int) -> nat
    decreases l.len() - i,
{
    if 0 <= i < l.len() && l[i] != '\n' {
        1 + nonnl_run(l, i + 1)
    } else {
        0
    }
}

fn nonnl_run_at(l: &Vec<char>, i: usize) -> (r: usize)
    requires
        i <= l@.len(),
    ensures
        r == nonnl_run(l@, i as int),
        i + r <= l@.len(),
    decreases l@.len() - i,
{
    if i < l.len() && l[i] != '\n' {
        1 + nonnl_run_at(l, i + 1)
    } else {
        0
    }
}

/// A line with one trailing carriage return removed.
pub open spec fn strip_cr(line: Seq<char>) -> Seq<char> {
    if line.len() > 0 && line[line.len() - 1] == '\r' {
        line.drop_last()
    } else {
        line
    }
}

/// The lines of a text from position `i` on, split at line feeds, each
/// with a trailing carriage return removed; a trailing line feed yields no
/// final empty line.
pub open spec fn lines_from(l: Seq<char>, i: int) -> Seq<Seq<char>>
    decreases l.len() - i,
{
    if !(0 <= i < l.len()) {
        Seq::<Seq<char>>::empty()
    } else {
        let k = nonnl_run(l, i);
        if i + k < l.len() {
            seq![strip_cr(l.subrange(i, i + k))] + lines_from(l, i + k + 1)
        } else {
            seq![strip_cr(l.subrange(i, l.len() as int))]
        }
    }
}

pub open spec fn spec_lines(l: Seq<char>) -> Seq<Seq<char>> {
    lines_from(l, 0)
}

fn lines_collect(l: &Vec<char>, i: usize, out: &mut Vec<Vec<char>>)
    requires
        i <= l@.len(),
    ensures
        final(out)@.len() == old(out)@.len() + lines_from(l@, i as int).len(),
        forall|j: int|
            0 <= j < old(out)@.len() ==> final(out)@[j] == old(out)@[j],
        forall|j: int|
            0 <= j < lines_from(l@, i as int).len() ==> (#[trigger] final(out)@[old(out)@.len()
                + j])@ == lines_from(l@, i as int)[j],
    decreases l@.len() - i,
{
    if i >= l.len() {
        return ;
    }
    let k = nonnl_run_at(l, i);
    let stop = if i + k < l.len() {
        i + k
    } else {
        l.len()
    };
    let e = if stop > i && l[stop - 1] == '\r' {
        stop - 1
    } else {
        stop
    };
    let mut line: Vec<char> = Vec::new();
    let mut j: usize = i;
    while j < e
        invariant
            i <= j <= e,
            e <= l@.len(),
            line@ == l@.subrange(i as int, j as int),
        decreases e - j,
    {
        line.push(l[j]);
        proof {
            assert(line@ =~= l@.subrange(i as int, j + 1 as int));
        }
        j += 1;
    }
    proof {
        if i + k < l@.len() {
            assert(line@ =~= strip_cr(l@.subrange(i as int, i + k)));
        } else {
            assert(line@ =~= strip_cr(l@.subrange(i as int, l@.len() as int)));
        }
    }
    let ghost lineg = line@;
    out.push(line);
    let ghost pre = out@;
    if i + k < l.len() {
        lines_collect(l, i + k + 1, out);
        proof {
            let lf = lines_from(l@, i as int);
            let rest = lines_from(l@, i + k + 1);
            assert(lf == seq![strip_cr(l@.subrange(i as int, i + k))] + rest);
            assert(lf[0] == strip_cr(l@.subrange(i as int, i + k)));
            assert(pre.len() == old(out)@.len() + 1);
            assert forall|j: int|
                0 <= j < lf.len() implies (#[trigger] out@[old(out)@.len() + j])@ == lf[j] by {
                if j == 0 {
                    assert(out@[old(out)@.len() as int + 0] == pre[old(out)@.len() as int]);
                    assert(pre[old(out)@.len() as int]@ == lineg);
                } else {
                    assert(out@[pre.len() + (j - 1)]@ == rest[j - 1]);
                    assert(old(out)@.len() + j == pre.len() + (j - 1));
                    assert(lf[j] == rest[j - 1]);
                }
            }
        }
    } else {
        proof {
            let lf = lines_from(l@, i as int);
            assert(lf == seq![strip_cr(l@.subrange(i as int, l@.len() as int))]);
            assert forall|j: int|
                0 <= j < lf.len() implies (#[trigger] out@[old(out)@.len() + j])@ == lf[j] by {
                assert(out@[old(out)@.len() as int + 0]@ == lineg);
            }
        }
    }
}

/// Splits a text into its lines.
pub fn split_lines(l: &Vec<char>) -> (r: Vec<Vec<char>>)
    ensures
        r@.len() == spec_lines(l@).len(),
        forall|j: int|
            0 <= j < spec_lines(l@).len() ==> (#[trigger] r@[j])@ == spec_lines(l@)[j],
{
    let mut out: Vec<Vec<char>> = Vec::new();
    let ghost empty_len: int = out@.len() as int;
    lines_collect(l, 0, &mut out);
    proof {
        assert forall|j: int|
            0 <= j < spec_lines(l@).len() implies (#[trigger] out@[j])@ == spec_lines(l@)[j] by {
            assert(out@[empty_len + j]@ == lines_from(l@, 0)[j]);
        }
    }
    out
}

} // verus!
