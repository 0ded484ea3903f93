use vstd::prelude::*;

verus! {

/// The character of a decimal digit.
pub open spec fn digit_char(d: nat) -> char {
    if d == 0 { '0' }
    else if d == 1 { '1' }
    else if d == 2 { '2' }
    else if d == 3 { '3' }
    else if d == 4 { '4' }
    else if d == 5 { '5' }
    else if d == 6 { '6' }
    else if d == 7 { '7' }
    else if d == 8 { '8' }
    else { '9' }
}

/// The decimal form of a natural number, without leading zeros.
pub open spec fn decimal(n: nat) -> Seq<char>
    decreases n,
{
    if n < 10 {
        seq![digit_char(n)]
    } else {
        decimal(n / 10).push(digit_char(n % 10))
    }
}

pub open spec fn is_digit(c: char) -> bool {
    '0' <= c <= '9'
}

pub open spec fn digit_value(c: char) -> nat {
    (c as nat - '0' as nat) as nat
}

pub open spec fn is_space(c: char) -> bool {
    c == ' ' || c == '\t' || c == '\n' || c == '\r'
}

/// The indices read so far, with the one being read (if any) appended.
pub open spec fn flushed(acc: Seq<usize>, cur: Option<usize>) -> Seq<usize> {
    match cur {
        Some(v) => acc.push(v),
        None => acc,
    }
}

/// Reads a whitespace-separated list of unsigned integers. `acc` holds the
/// integers already read and `cur` the one being read. `None` when a character
/// is neither a digit nor whitespace, or an integer exceeds `usize`.
pub open spec fn parse_indices(s: Seq<char>, acc: Seq<usize>, cur: Option<usize>) -> Option<Seq<usize>>
    decreases s.len(),
{
    if s.len() == 0 {
        Some(flushed(acc, cur))
    } else if is_space(s[0]) {
        parse_indices(s.drop_first(), flushed(acc, cur), None)
    } else if is_digit(s[0]) {
        let v = match cur {
            Some(c) => c as nat * 10 + digit_value(s[0]),
            None => digit_value(s[0]),
        };
        if v > usize::MAX {
            None
        } else {
            parse_indices(s.drop_first(), acc, Some(v as usize))
        }
    } else {
        None
    }
}

/// The list of indices that a text holds, if it is well formed.
pub open spec fn index_list(s: Seq<char>) -> Option<Seq<usize>> {
    parse_indices(s, Seq::empty(), None)
}

fn digit_text(d: usize) -> (r: &'static str)
    requires
        d < 10,
    ensures
        r@ == seq![digit_char(d as nat)],
{
    proof {
        reveal_strlit("0");
        reveal_strlit("1");
        reveal_strlit("2");
        reveal_strlit("3");
        reveal_strlit("4");
        reveal_strlit("5");
        reveal_strlit("6");
        reveal_strlit("7");
        reveal_strlit("8");
        reveal_strlit("9");
    }
    let r = if d == 0 { "0" }
        else if d == 1 { "1" }
        else if d == 2 { "2" }
        else if d == 3 { "3" }
        else if d == 4 { "4" }
        else if d == 5 { "5" }
        else if d == 6 { "6" }
        else if d == 7 { "7" }
        else if d == 8 { "8" }
        else { "9" };
    assert(r@ =~= seq![digit_char(d as nat)]);
    r
}

/// Appends the decimal form of `n` to `out`.
pub fn push_decimal(out: &mut String, n: usize)
    ensures
        final(out)@ == old(out)@ + decimal(n as nat),
    decreases n,
{
    if n >= 10 {
        push_decimal(out, n / 10);
    }
    let d = digit_text(n % 10);
    out.append(d);
    proof {
        if n >= 10 {
            assert(decimal(n as nat) =~= decimal((n / 10) as nat) + seq![digit_char((n % 10) as nat)]);
        }
    }
    assert(final(out)@ =~= old(out)@ + decimal(n as nat));
}

/// The decimal form of `n`.
pub fn decimal_string(n: usize) -> (r: String)
    ensures
        r@ == decimal(n as nat),
{
    let mut out = String::new();
    push_decimal(&mut out, n);
    assert(out@ =~= decimal(n as nat));
    out
}

/// Two numbers with the same decimal form are equal.
pub proof fn lemma_decimal_injective(a: nat, b: nat)
    requires
        decimal(a) == decimal(b),
    ensures
        a == b,
    decreases a,
{
    lemma_decimal_len(a);
    lemma_decimal_len(b);
    if a < 10 {
        if b >= 10 {
            assert(decimal(b).len() >= 2);
        }
        assert(decimal(a)[0] == digit_char(a));
        assert(decimal(b)[0] == digit_char(b));
    } else {
        assert(decimal(a).len() >= 2);
        assert(b >= 10);
        assert(decimal(a).drop_last() =~= decimal(a / 10));
        assert(decimal(b).drop_last() =~= decimal(b / 10));
        lemma_decimal_injective(a / 10, b / 10);
        assert(decimal(a).last() == digit_char(a % 10));
        assert(decimal(b).last() == digit_char(b % 10));
    }
}

/// A decimal form has at least one digit, and two from ten on.
pub proof fn lemma_decimal_len(n: nat)
    ensures
        decimal(n).len() >= 1,
        n >= 10 ==> decimal(n).len() >= 2,
    decreases n,
{
    if n >= 10 {
        lemma_decimal_len(n / 10);
    }
}

/// Reads a whitespace-separated list of unsigned integers, such as a pin
/// order `"2 1 3"`. `None` when the text holds any other character, or an
/// integer that does not fit `usize`.
pub fn parse_index_list(s: &str) -> (r: Option<Vec<usize>>)
    ensures
        match r {
            Some(v) => index_list(s@) == Some(v@),
            None => index_list(s@) is None,
        },
{
    let n = s.unicode_len();
    let mut acc: Vec<usize> = Vec::new();
    let mut cur: Option<usize> = None;
    let mut i: usize = 0;
    assert(s@.subrange(0, n as int) =~= s@);
    while i < n
        invariant
            n == s@.len(),
            i <= n,
            index_list(s@) == parse_indices(s@.subrange(i as int, n as int), acc@, cur),
        decreases n - i,
    {
        let c = s.get_char(i);
        let ghost rest = s@.subrange(i as int, n as int);
        assert(rest.drop_first() =~= s@.subrange(i + 1, n as int));
        assert(rest[0] == c);
        if c == ' ' || c == '\t' || c == '\n' || c == '\r' {
            if let Some(v) = cur {
                acc.push(v);
            }
            cur = None;
        } else if '0' <= c && c <= '9' {
            let d = (c as u32 - '0' as u32) as usize;
            assert(d as nat == digit_value(c));
            let base: usize = match cur {
                Some(v) => v,
                None => 0,
            };
            if base > (usize::MAX - d) / 10 {
                assert(base as nat * 10 + d > usize::MAX) by (nonlinear_arith)
                    requires base > (usize::MAX - d) / 10, d < 10;
                return None;
            }
            assert(base * 10 + d <= usize::MAX) by (nonlinear_arith)
                requires base <= (usize::MAX - d) / 10, d < 10;
            cur = Some(base * 10 + d);
        } else {
            return None;
        }
        i = i + 1;
    }
    assert(s@.subrange(n as int, n as int) =~= Seq::<char>::empty());
    if let Some(v) = cur {
        acc.push(v);
    }
    Some(acc)
}

} // verus!
