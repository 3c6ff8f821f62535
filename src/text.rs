use vstd::prelude::*;

verus! {

pub open spec fn is_ws(c: char) -> bool {
    c == ' ' || c == '\t' || c == '\n' || c == '\r'
}

pub open spec fn trim_start(s: Seq<char>) -> Seq<char>
    decreases s.len(),
{
    if s.len() > 0 && is_ws(s[0]) {
        trim_start(s.drop_first())
    } else {
        s
    }
}

pub open spec fn trim_end(s: Seq<char>) -> Seq<char>
    decreases s.len(),
{
    if s.len() > 0 && is_ws(s.last()) {
        trim_end(s.drop_last())
    } else {
        s
    }
}

/// `s` without leading and trailing whitespace.
pub open spec fn trim(s: Seq<char>) -> Seq<char> {
    trim_end(trim_start(s))
}

/// `s` without any whitespace.
pub open spec fn strip_ws(s: Seq<char>) -> Seq<char> {
    s.filter(|c: char| !is_ws(c))
}

pub open spec fn digit_char(d: int) -> char {
    if d == 0 { '0' } else if d == 1 { '1' } else if d == 2 { '2' } else if d == 3 { '3' }
    else if d == 4 { '4' } else if d == 5 { '5' } else if d == 6 { '6' } else if d == 7 { '7' }
    else if d == 8 { '8' } else { '9' }
}

pub open spec fn is_digit(c: char) -> bool {
    '0' <= c && c <= '9'
}

pub open spec fn digit_value(c: char) -> int {
    (c as int) - ('0' as int)
}

/// The decimal digits of `n`, most significant first, without leading zeros.
pub open spec fn dec_digits(n: nat) -> Seq<char>
    decreases n,
{
    if n < 10 {
        seq![digit_char(n as int)]
    } else {
        dec_digits(n / 10).push(digit_char((n % 10) as int))
    }
}

/// The decimal text of `n`, with a leading `-` where it is negative.
pub open spec fn int_text(n: int) -> Seq<char> {
    if n < 0 {
        seq!['-'] + dec_digits((-n) as nat)
    } else {
        dec_digits(n as nat)
    }
}

pub open spec fn all_digits(s: Seq<char>) -> bool {
    forall|i: int| 0 <= i < s.len() ==> is_digit(#[trigger] s[i])
}

/// The number that a string of decimal digits stands for.
pub open spec fn digits_value(s: Seq<char>) -> nat
    decreases s.len(),
{
    if s.len() == 0 {
        0
    } else {
        (digits_value(s.drop_last()) * 10 + digit_value(s.last())) as nat
    }
}

/// The integer that `s` writes in base 10: an optional sign, then one or more digits.
pub open spec fn parse_int_text(s: Seq<char>) -> Option<int> {
    let neg = s.len() > 0 && s[0] == '-';
    let body = if s.len() > 0 && (s[0] == '-' || s[0] == '+') {
        s.drop_first()
    } else {
        s
    };
    if body.len() > 0 && all_digits(body) {
        Some(if neg { -digits_value(body) } else { digits_value(body) as int })
    } else {
        None
    }
}

/// One step of the recogniser of decimal floating-point literals
/// (`[+-]? (digits ('.' digits?)? | '.' digits) ([eE] [+-]? digits)?`).
pub open spec fn lit_step(q: u8, c: char) -> u8 {
    let sign = c == '+' || c == '-';
    let exp = c == 'e' || c == 'E';
    let dig = is_digit(c);
    if q == 0 {
        if sign { 1 } else if dig { 2 } else if c == '.' { 3 } else { 9 }
    } else if q == 1 {
        if dig { 2 } else if c == '.' { 3 } else { 9 }
    } else if q == 2 {
        if dig { 2 } else if c == '.' { 4 } else if exp { 5 } else { 9 }
    } else if q == 3 {
        if dig { 6 } else { 9 }
    } else if q == 4 || q == 6 {
        if dig { 6 } else if exp { 5 } else { 9 }
    } else if q == 5 {
        if sign { 7 } else if dig { 8 } else { 9 }
    } else if q == 7 || q == 8 {
        if dig { 8 } else { 9 }
    } else {
        9
    }
}

pub open spec fn lit_run(q: u8, s: Seq<char>) -> u8
    decreases s.len(),
{
    if s.len() == 0 {
        q
    } else {
        lit_run(lit_step(q, s[0]), s.drop_first())
    }
}

/// Whether `s` is a decimal floating-point literal.
pub open spec fn is_double_literal(s: Seq<char>) -> bool {
    let q = lit_run(0, s);
    q == 2 || q == 4 || q == 6 || q == 8
}

fn is_ws_exec(c: char) -> (r: bool)
    ensures
        r == is_ws(c),
{
    c == ' ' || c == '\t' || c == '\n' || c == '\r'
}

proof fn lemma_trim_start_skip(s: Seq<char>, i: int)
    requires
        0 <= i <= s.len(),
        forall|k: int| 0 <= k < i ==> is_ws(#[trigger] s[k]),
    ensures
        trim_start(s) == trim_start(s.skip(i)),
    decreases i,
{
    if i > 0 {
        assert(s.drop_first().skip(i - 1) =~= s.skip(i));
        lemma_trim_start_skip(s.drop_first(), i - 1);
    } else {
        assert(s.skip(0) =~= s);
    }
}

proof fn lemma_trim_end_take(s: Seq<char>, j: int)
    requires
        0 <= j <= s.len(),
        forall|k: int| j <= k < s.len() ==> is_ws(#[trigger] s[k]),
    ensures
        trim_end(s) == trim_end(s.take(j)),
    decreases s.len() - j,
{
    if j < s.len() {
        assert(s.drop_last().take(j) =~= s.take(j));
        lemma_trim_end_take(s.drop_last(), j);
    } else {
        assert(s.take(j) =~= s);
    }
}

/// `s` without leading and trailing whitespace.
pub fn trim_text(s: &str) -> (r: &str)
    ensures
        r@ == trim(s@),
{
    let n = s.unicode_len();
    let mut a: usize = 0;
    while a < n && is_ws_exec(s.get_char(a))
        invariant
            n == s@.len(),
            0 <= a <= n,
            forall|k: int| 0 <= k < a ==> is_ws(#[trigger] s@[k]),
        decreases n - a,
    {
        a = a + 1;
    }
    let mut b: usize = n;
    while b > a && is_ws_exec(s.get_char(b - 1))
        invariant
            n == s@.len(),
            0 <= a <= b <= n,
            forall|k: int| b <= k < n ==> is_ws(#[trigger] s@[k]),
        decreases b,
    {
        b = b - 1;
    }
    proof {
        let t = s@.skip(a as int);
        lemma_trim_start_skip(s@, a as int);
        assert(trim_start(t) == t);
        assert forall|k: int| (b - a) <= k < t.len() implies is_ws(#[trigger] t[k]) by {
            assert(t[k] == s@[k + a]);
        }
        lemma_trim_end_take(t, b - a);
        let u = t.take(b - a);
        assert(u =~= s@.subrange(a as int, b as int));
        if u.len() > 0 {
            assert(u.last() == s@[b - 1]);
        }
        assert(trim_end(u) == u);
    }
    s.substring_char(a, b)
}

/// `s` without any whitespace, as characters.
pub fn strip_ws_chars(s: &str) -> (r: Vec<char>)
    ensures
        r@ == strip_ws(s@),
{
    let n = s.unicode_len();
    let mut out: Vec<char> = Vec::new();
    let mut i: usize = 0;
    while i < n
        invariant
            n == s@.len(),
            0 <= i <= n,
            out@ == strip_ws(s@.take(i as int)),
        decreases n - i,
    {
        let c = s.get_char(i);
        proof {
            assert(s@.take(i + 1).drop_last() =~= s@.take(i as int));
            reveal(Seq::filter);
        }
        if !is_ws_exec(c) {
            out.push(c);
        }
        i = i + 1;
    }
    assert(s@.take(n as int) =~= s@);
    out
}

/// Whether `s` is exactly the text of a boolean, `0` or `1`; and which.
pub fn bool_of_text(s: &str) -> (r: Option<bool>)
    ensures
        r == (if s@ == seq!['0'] {
            Some(false)
        } else if s@ == seq!['1'] {
            Some(true)
        } else {
            None
        }),
{
    if s.unicode_len() != 1 {
        return None;
    }
    let c = s.get_char(0);
    if c == '0' {
        assert(s@ =~= seq!['0']);
        Some(false)
    } else if c == '1' {
        assert(s@ =~= seq!['1']);
        Some(true)
    } else {
        None
    }
}

fn lit_step_exec(q: u8, c: char) -> (r: u8)
    ensures
        r == lit_step(q, c),
{
    let sign = c == '+' || c == '-';
    let exp = c == 'e' || c == 'E';
    let dig = '0' <= c && c <= '9';
    if q == 0 {
        if sign { 1 } else if dig { 2 } else if c == '.' { 3 } else { 9 }
    } else if q == 1 {
        if dig { 2 } else if c == '.' { 3 } else { 9 }
    } else if q == 2 {
        if dig { 2 } else if c == '.' { 4 } else if exp { 5 } else { 9 }
    } else if q == 3 {
        if dig { 6 } else { 9 }
    } else if q == 4 || q == 6 {
        if dig { 6 } else if exp { 5 } else { 9 }
    } else if q == 5 {
        if sign { 7 } else if dig { 8 } else { 9 }
    } else if q == 7 || q == 8 {
        if dig { 8 } else { 9 }
    } else {
        9
    }
}

/// Whether `s` is a decimal floating-point literal.
pub fn check_double_literal(s: &str) -> (r: bool)
    ensures
        r == is_double_literal(s@),
{
    let n = s.unicode_len();
    let mut q: u8 = 0;
    let mut i: usize = 0;
    assert(s@.skip(0) =~= s@);
    while i < n
        invariant
            n == s@.len(),
            0 <= i <= n,
            lit_run(q, s@.skip(i as int)) == lit_run(0, s@),
        decreases n - i,
    {
        let c = s.get_char(i);
        proof {
            assert(s@.skip(i as int).drop_first() =~= s@.skip(i + 1));
        }
        q = lit_step_exec(q, c);
        i = i + 1;
    }
    assert(s@.skip(n as int) =~= Seq::<char>::empty());
    q == 2 || q == 4 || q == 6 || q == 8
}

proof fn lemma_digits_value_push(t: Seq<char>, c: char)
    requires
        is_digit(c),
    ensures
        digits_value(t.push(c)) == digits_value(t) * 10 + digit_value(c),
{
    assert(t.push(c).drop_last() =~= t);
}

proof fn lemma_digit_char(d: int)
    requires
        0 <= d < 10,
    ensures
        is_digit(digit_char(d)),
        digit_value(digit_char(d)) == d,
{
}

/// The digits of a number are digits, and read back as the number.
pub proof fn lemma_dec_digits(m: nat)
    ensures
        dec_digits(m).len() > 0,
        all_digits(dec_digits(m)),
        digits_value(dec_digits(m)) == m,
    decreases m,
{
    if m < 10 {
        lemma_digit_char(m as int);
        let t = dec_digits(m);
        assert(t.drop_last() =~= Seq::<char>::empty());
        assert(digits_value(t) == digits_value(t.drop_last()) * 10 + digit_value(t.last()));
    } else {
        lemma_dec_digits(m / 10);
        lemma_digit_char((m % 10) as int);
        lemma_digits_value_push(dec_digits(m / 10), digit_char((m % 10) as int));
        let t = dec_digits(m);
        assert forall|i: int| 0 <= i < t.len() implies is_digit(#[trigger] t[i]) by {
            if i < t.len() - 1 {
                assert(t[i] == dec_digits(m / 10)[i]);
            }
        }
    }
}

/// Reading back the decimal text of an integer gives the integer.
pub proof fn lemma_int_text_round_trip(n: int)
    ensures
        parse_int_text(int_text(n)) == Some(n),
{
    if n < 0 {
        lemma_dec_digits((-n) as nat);
        let s = int_text(n);
        assert(s.drop_first() =~= dec_digits((-n) as nat));
    } else {
        lemma_dec_digits(n as nat);
        let d = dec_digits(n as nat);
        assert(is_digit(d[0]));
    }
}

const CAP: u128 = 0x1_0000_0000_0000_0000;

/// The integer that `s` writes in base 10, where it lies in `lo..=hi`.
pub fn parse_int_in_range(s: &str, lo: i64, hi: i64) -> (r: Option<i64>)
    ensures
        r == (match parse_int_text(s@) {
            Some(n) => if lo <= n <= hi {
                Some(n as i64)
            } else {
                None
            },
            None => None,
        }),
{
    let n = s.unicode_len();
    if n == 0 {
        return None;
    }
    let c0 = s.get_char(0);
    let neg = c0 == '-';
    let start: usize = if c0 == '-' || c0 == '+' { 1 } else { 0 };
    let ghost body = if c0 == '-' || c0 == '+' { s@.drop_first() } else { s@ };
    assert(body =~= s@.subrange(start as int, n as int));
    if start == n {
        return None;
    }
    let mut acc: u128 = 0;
    let mut i: usize = start;
    assert(body.take(0) =~= Seq::<char>::empty());
    while i < n
        invariant
            n == s@.len(),
            start <= i <= n,
            body =~= s@.subrange(start as int, n as int),
            n > 0,
            body == (if s@[0] == '-' || s@[0] == '+' { s@.drop_first() } else { s@ }),
            neg == (s@[0] == '-'),
            all_digits(body.take(i - start)),
            acc == if digits_value(body.take(i - start)) < CAP {
                digits_value(body.take(i - start)) as u128
            } else {
                CAP
            },
        decreases n - i,
    {
        let c = s.get_char(i);
        if !('0' <= c && c <= '9') {
            proof {
                assert(body[i - start] == c);
                assert(!is_digit(body[i - start]));
                assert(!all_digits(body));
            }
            return None;
        }
        let ghost prev = body.take(i - start);
        proof {
            assert(body.take(i - start + 1) =~= prev.push(c));
            lemma_digits_value_push(prev, c);
        }
        let d = (c as u32 - '0' as u32) as u128;
        if acc >= CAP {
            acc = CAP;
        } else {
            let v = acc * 10 + d;
            acc = if v < CAP { v } else { CAP };
        }
        i = i + 1;
    }
    assert(body.take(n - start) =~= body);
    assert(body.len() > 0 && all_digits(body));
    assert(parse_int_text(s@) == Some(
        if neg { -digits_value(body) } else { digits_value(body) as int },
    ));
    if acc >= CAP {
        assert(digits_value(body) >= CAP);
        return None;
    }
    let v: i128 = if neg { -(acc as i128) } else { acc as i128 };
    if v < lo as i128 || v > hi as i128 {
        return None;
    }
    Some(v as i64)
}

fn digit_str(d: u64) -> (r: &'static str)
    requires
        d < 10,
    ensures
        r@ == seq![digit_char(d as int)],
{
    proof {
        reveal_strlit("0");
        reveal_strlit("1");
        reveal_strlit("2");
        reveal_strlit("3");
        reveal_strlit("4");
        reveal_strlit("5");
        reveal_strlit("6");
        reveal_strlit("7");
        reveal_strlit("8");
        reveal_strlit("9");
    }
    if d == 0 { "0" } else if d == 1 { "1" } else if d == 2 { "2" } else if d == 3 { "3" }
    else if d == 4 { "4" } else if d == 5 { "5" } else if d == 6 { "6" } else if d == 7 { "7" }
    else if d == 8 { "8" } else { "9" }
}

fn push_digits(out: &mut String, m: u64)
    ensures
        final(out)@ == old(out)@ + dec_digits(m as nat),
    decreases m,
{
    if m >= 10 {
        push_digits(out, m / 10);
    }
    out.append(digit_str(m % 10));
    proof {
        if m < 10 {
            assert(dec_digits(m as nat) =~= seq![digit_char(m as int)]);
        }
    }
    assert(final(out)@ =~= old(out)@ + dec_digits(m as nat));
}

/// The decimal text of `n`.
pub fn int_to_text(n: i64) -> (r: String)
    ensures
        r@ == int_text(n as int),
{
    let mut out = String::new();
    if n < 0 {
        proof {
            reveal_strlit("-");
        }
        out.append("-");
        let m: u64 = (-(n as i128)) as u64;
        push_digits(&mut out, m);
        assert(out@ =~= int_text(n as int));
    } else {
        push_digits(&mut out, n as u64);
        assert(out@ =~= int_text(n as int));
    }
    out
}

} // verus!
