use vstd::prelude::*;
use vstd::string::StrSliceExecFns;

verus! {

/// The decimal digit for `d < 10`.
pub open spec fn digit_char(d: nat) -> char {
    if d == 0 { '0' } else if d == 1 { '1' } else if d == 2 { '2' } else if d == 3 { '3' }
    else if d == 4 { '4' } else if d == 5 { '5' } else if d == 6 { '6' } else if d == 7 { '7' }
    else if d == 8 { '8' } else { '9' }
}

/// The decimal text of `n`, without leading zeros.
pub open spec fn dec(n: nat) -> Seq<char>
    decreases n,
{
    if n < 10 { seq![digit_char(n)] } else { dec(n / 10).push(digit_char(n % 10)) }
}

/// The decimal text of a signed integer, with a leading `-` when negative.
pub open spec fn signed_dec(n: int) -> Seq<char> {
    if n < 0 { seq!['-'] + dec((-n) as nat) } else { dec(n as nat) }
}

fn digit(d: u64) -> (c: char)
    requires
        d < 10,
    ensures
        c == digit_char(d as nat),
{
    if d == 0 { '0' } else if d == 1 { '1' } else if d == 2 { '2' } else if d == 3 { '3' }
    else if d == 4 { '4' } else if d == 5 { '5' } else if d == 6 { '6' } else if d == 7 { '7' }
    else if d == 8 { '8' } else { '9' }
}

/// Appends the decimal text of `n`.
pub fn push_dec(out: &mut Vec<char>, n: u64)
    ensures
        final(out)@ == old(out)@ + dec(n as nat),
    decreases n,
{
    if n >= 10 {
        push_dec(out, n / 10);
    }
    out.push(digit(n % 10));
    proof {
        assert(final(out)@ =~= old(out)@ + dec(n as nat));
    }
}

/// Appends the decimal text of a signed integer.
pub fn push_signed(out: &mut Vec<char>, n: i64)
    ensures
        final(out)@ == old(out)@ + signed_dec(n as int),
{
    if n < 0 {
        out.push('-');
        let mag: u64 = (-(n as i128)) as u64;
        push_dec(out, mag);
        proof {
            assert(final(out)@ =~= old(out)@ + signed_dec(n as int));
        }
    } else {
        push_dec(out, n as u64);
    }
}

/// Appends the characters of `s`.
pub fn push_text(out: &mut Vec<char>, s: &str)
    ensures
        final(out)@ == old(out)@ + s@,
{
    let n: usize = s.unicode_len();
    let mut i: usize = 0;
    while i < n
        invariant
            n == s@.len(),
            i <= n,
            out@ == old(out)@ + s@.subrange(0, i as int),
        decreases n - i,
    {
        let c: char = s.get_char(i);
        out.push(c);
        i = i + 1;
        proof {
            assert(s@.subrange(0, i as int) =~= s@.subrange(0, i - 1).push(c));
        }
    }
    proof {
        assert(s@.subrange(0, n as int) =~= s@);
    }
}

/// Relies on std's `FromIterator<char>` for `String`: the string holds the
/// characters in order.
#[verifier::external_body]
pub(crate) fn string_from(chars: &Vec<char>) -> (r: String)
    ensures
        r@ == chars@,
{
    chars.iter().collect()
}

/// Relies on std's `str::chars`: the characters of the string, in order.
#[verifier::external_body]
pub(crate) fn chars_of(s: &str) -> (r: Vec<char>)
    ensures
        r@ == s@,
{
    s.chars().collect()
}

pub open spec fn is_digit(c: char) -> bool {
    48 <= (c as u32) <= 57
}

pub open spec fn all_digits(s: Seq<char>) -> bool {
    forall|k: int| 0 <= k < s.len() ==> is_digit(#[trigger] s[k])
}

/// The number that a run of decimal digits spells.
pub open spec fn value_of(s: Seq<char>) -> int
    decreases s.len(),
{
    if s.len() == 0 { 0 } else { value_of(s.drop_last()) * 10 + (s.last() as u32 - 48) }
}

proof fn lemma_digit_code(d: nat)
    requires
        d < 10,
    ensures
        digit_char(d) as u32 == 48 + d,
{
}

/// `dec(v)` is a run of one to three digits for `v < 1000`, and spells `v`.
pub proof fn lemma_dec_facts(v: nat)
    ensures
        value_of(dec(v)) == v,
        all_digits(dec(v)),
        dec(v).len() >= 1,
        v < 10 ==> dec(v).len() == 1,
        v < 100 ==> dec(v).len() <= 2,
        v < 1000 ==> dec(v).len() <= 3,
    decreases v,
{
    lemma_digit_code(v % 10);
    if v < 10 {
        assert(dec(v).drop_last() =~= Seq::<char>::empty());
        assert(value_of(dec(v)) == value_of(dec(v).drop_last()) * 10 + (dec(v).last() as u32 - 48));
        assert(v % 10 == v);
    } else {
        lemma_dec_facts(v / 10);
        assert(dec(v).drop_last() =~= dec(v / 10));
        assert(dec(v).last() == digit_char(v % 10));
        assert(value_of(dec(v)) == value_of(dec(v).drop_last()) * 10 + (dec(v).last() as u32 - 48));
        assert(v == (v / 10) * 10 + v % 10);
    }
}

/// Whether two character vectors hold the same characters.
pub fn same_chars(a: &Vec<char>, b: &Vec<char>) -> (r: bool)
    ensures
        r == (a@ == b@),
{
    if a.len() != b.len() {
        return false;
    }
    let mut i: usize = 0;
    while i < a.len()
        invariant
            a@.len() == b@.len(),
            i <= a@.len(),
            forall|k: int| 0 <= k < i ==> a@[k] == b@[k],
        decreases a.len() - i,
    {
        if a[i] != b[i] {
            return false;
        }
        i = i + 1;
    }
    proof {
        assert(a@ =~= b@);
    }
    true
}

/// The first position at or after `from` that holds `_`, or the length.
pub fn find_underscore(cs: &Vec<char>, from: usize) -> (r: usize)
    requires
        from <= cs@.len(),
    ensures
        from <= r <= cs@.len(),
        forall|k: int| from <= k < r ==> cs@[k] != '_',
        r < cs@.len() ==> cs@[r as int] == '_',
{
    let mut i: usize = from;
    while i < cs.len()
        invariant
            from <= i <= cs@.len(),
            forall|k: int| from <= k < i ==> cs@[k] != '_',
        decreases cs.len() - i,
    {
        if cs[i] == '_' {
            return i;
        }
        i = i + 1;
    }
    i
}

/// The value of the digits in `cs[a..b]`, when there are one to three of
/// them and nothing else.
pub fn run_value(cs: &Vec<char>, a: usize, b: usize) -> (r: Option<u64>)
    requires
        a <= b <= cs@.len(),
    ensures
        r == (if 1 <= b - a <= 3 && all_digits(cs@.subrange(a as int, b as int)) {
            Some(value_of(cs@.subrange(a as int, b as int)) as u64)
        } else {
            None
        }),
{
    if b - a < 1 || b - a > 3 {
        return None;
    }
    let mut v: u64 = 0;
    let mut k: usize = a;
    while k < b
        invariant
            a <= k <= b,
            b - a <= 3,
            b <= cs@.len(),
            all_digits(cs@.subrange(a as int, k as int)),
            v == value_of(cs@.subrange(a as int, k as int)),
            v < 1000,
            k - a == 0 ==> v == 0,
            k - a == 1 ==> v < 10,
            k - a == 2 ==> v < 100,
        decreases b - k,
    {
        let c: char = cs[k];
        let code: u32 = c as u32;
        if code < 48 || code > 57 {
            proof {
                assert(cs@.subrange(a as int, b as int)[k - a] == c);
            }
            return None;
        }
        proof {
            assert(cs@.subrange(a as int, k + 1).drop_last() =~= cs@.subrange(a as int, k as int));
        }
        v = v * 10 + (code - 48) as u64;
        k = k + 1;
    }
    Some(v)
}

} // verus!
