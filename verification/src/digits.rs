//! Decimal digit strings: the value they denote, and the canonical successor
//! used when a numeric version component is bumped.

use vstd::prelude::*;
use crate::strutil::{chars_of, string_of_chars};

verus! {

/// Is `c` one of the characters `'0'` through `'9'`?
pub open spec fn is_dec_digit(c: char) -> bool {
    48 <= c as u32 <= 57
}

/// The numeric value of a digit character.
pub open spec fn digit_val(c: char) -> nat {
    ((c as u32) - 48) as nat
}

/// Every character of `s` is a decimal digit.
pub open spec fn is_digits(s: Seq<char>) -> bool {
    forall|i: int| 0 <= i < s.len() ==> is_dec_digit(#[trigger] s[i])
}

/// The number denoted by the digit string `s` (most significant first).
pub open spec fn dec_val(s: Seq<char>) -> nat
    decreases s.len(),
{
    if s.len() == 0 {
        0
    } else {
        dec_val(s.drop_last()) * 10 + digit_val(s.last())
    }
}

/// Ten to the `k`.
pub open spec fn pow10(k: nat) -> nat
    decreases k,
{
    if k == 0 {
        1
    } else {
        10 * pow10((k - 1) as nat)
    }
}

/// A run of `k` copies of `c`.
pub open spec fn char_run(c: char, k: nat) -> Seq<char> {
    Seq::new(k, |i: int| c)
}

/// The digit character for a value below ten.
pub open spec fn digit_char_of(d: nat) -> char {
    if d == 0 {
        '0'
    } else if d == 1 {
        '1'
    } else if d == 2 {
        '2'
    } else if d == 3 {
        '3'
    } else if d == 4 {
        '4'
    } else if d == 5 {
        '5'
    } else if d == 6 {
        '6'
    } else if d == 7 {
        '7'
    } else if d == 8 {
        '8'
    } else {
        '9'
    }
}

/// The canonical decimal representation of `n`: most significant digit first,
/// no leading zero.
pub open spec fn dec_repr(n: nat) -> Seq<char>
    decreases n,
{
    if n < 10 {
        seq![digit_char_of(n)]
    } else {
        dec_repr(n / 10).push(digit_char_of(n % 10))
    }
}

/// The decimal successor of the digit string `s`.
pub open spec fn dec_succ(s: Seq<char>) -> Seq<char> {
    dec_repr(dec_val(s) + 1)
}

proof fn lemma_pow10_pos(k: nat)
    ensures
        pow10(k) >= 1,
    decreases k,
{
    if k > 0 {
        lemma_pow10_pos((k - 1) as nat);
    }
}

proof fn lemma_dec_val_concat(a: Seq<char>, b: Seq<char>)
    ensures
        dec_val(a + b) == dec_val(a) * pow10(b.len()) + dec_val(b),
    decreases b.len(),
{
    if b.len() == 0 {
        assert(a + b =~= a);
        assert(pow10(b.len()) == 1);
        assert(dec_val(b) == 0);
        assert(dec_val(a) * 1 == dec_val(a));
    } else {
        let b1 = b.drop_last();
        lemma_dec_val_concat(a, b1);
        assert((a + b).drop_last() =~= a + b1);
        assert((a + b).last() == b.last());
        assert(dec_val(a + b) == dec_val(a + b1) * 10 + digit_val(b.last()));
        assert(dec_val(b) == dec_val(b1) * 10 + digit_val(b.last()));
        assert(dec_val(a + b1) * 10 == dec_val(a) * pow10(b.len()) + dec_val(b1) * 10) by (nonlinear_arith)
            requires
                dec_val(a + b1) == dec_val(a) * pow10(b1.len()) + dec_val(b1),
                pow10(b.len()) == 10 * pow10(b1.len()),
                b1.len() == b.len() - 1,
        ;
    }
}

proof fn lemma_zeros_val(k: nat)
    ensures
        dec_val(char_run('0', k)) == 0,
    decreases k,
{
    if k > 0 {
        assert(char_run('0', k).drop_last() =~= char_run('0', (k - 1) as nat));
        assert(char_run('0', k).last() == '0');
        lemma_zeros_val((k - 1) as nat);
    }
}

proof fn lemma_nines_val(k: nat)
    ensures
        dec_val(char_run('9', k)) == pow10(k) - 1,
    decreases k,
{
    lemma_pow10_pos(k);
    if k > 0 {
        assert(char_run('9', k).drop_last() =~= char_run('9', (k - 1) as nat));
        assert(char_run('9', k).last() == '9');
        lemma_nines_val((k - 1) as nat);
        lemma_pow10_pos((k - 1) as nat);
    }
}

proof fn lemma_char_eq_by_u32(a: char, b: char)
    requires
        a as u32 == b as u32,
    ensures
        a == b,
{
    vstd::utf8::char_u32_cast(a, a as u32);
    vstd::utf8::char_u32_cast(b, b as u32);
}

proof fn lemma_digit_char_of_val(c: char)
    requires
        is_dec_digit(c),
    ensures
        digit_char_of(digit_val(c)) == c,
{
    assert(digit_char_of(digit_val(c)) as u32 == c as u32);
    lemma_char_eq_by_u32(digit_char_of(digit_val(c)), c);
}

proof fn lemma_dec_val_lower(t: Seq<char>)
    requires
        is_digits(t),
        t.len() > 0,
        t[0] != '0',
    ensures
        dec_val(t) >= pow10((t.len() - 1) as nat),
    decreases t.len(),
{
    if t.len() == 1 {
        assert(t.last() == t[0]);
        assert(t.drop_last() =~= Seq::<char>::empty());
        assert(is_dec_digit(t[0]));
        if t[0] as u32 == 48 {
            lemma_char_eq_by_u32(t[0], '0');
            assert(false);
        }
        assert(digit_val(t[0]) >= 1);
    } else {
        let a = t.drop_last();
        assert(a[0] == t[0]);
        lemma_dec_val_lower(a);
        assert(dec_val(t) == dec_val(a) * 10 + digit_val(t.last()));
        assert(dec_val(a) * 10 >= pow10((a.len() - 1) as nat) * 10) by (nonlinear_arith)
            requires
                dec_val(a) >= pow10((a.len() - 1) as nat),
        ;
        assert(pow10((t.len() - 1) as nat) == 10 * pow10((t.len() - 2) as nat));
    }
}

/// A non-empty digit string without a leading zero is the canonical
/// representation of the value it denotes.
proof fn lemma_canonical_repr(t: Seq<char>)
    requires
        is_digits(t),
        t.len() > 0,
        t.len() > 1 ==> t[0] != '0',
    ensures
        t == dec_repr(dec_val(t)),
    decreases t.len(),
{
    if t.len() == 1 {
        assert(t.drop_last() =~= Seq::<char>::empty());
        assert(dec_val(t.drop_last()) == 0);
        assert(t.last() == t[0]);
        assert(dec_val(t) == dec_val(t.drop_last()) * 10 + digit_val(t.last()));
        assert(dec_val(t) == digit_val(t[0]));
        assert(digit_val(t[0]) < 10);
        lemma_digit_char_of_val(t[0]);
        assert(t =~= seq![digit_char_of(dec_val(t))]);
    } else {
        let a = t.drop_last();
        let d = digit_val(t.last());
        assert(a[0] == t[0]);
        lemma_canonical_repr(a);
        lemma_dec_val_lower(a);
        lemma_pow10_pos((a.len() - 1) as nat);
        let n = dec_val(t);
        assert(n == dec_val(a) * 10 + d);
        assert(n / 10 == dec_val(a) && n % 10 == d) by (nonlinear_arith)
            requires
                n == dec_val(a) * 10 + d,
                0 <= d < 10,
        ;
        assert(n >= 10) by (nonlinear_arith)
            requires
                n == dec_val(a) * 10 + d,
                dec_val(a) >= 1,
                d >= 0,
        ;
        lemma_digit_char_of_val(t.last());
        assert(dec_repr(n) == dec_repr(dec_val(a)).push(digit_char_of(d)));
        assert(t =~= a.push(t.last()));
    }
}

/// Is `c` a decimal digit? (executable form)
fn is_digit_char(c: char) -> (r: bool)
    ensures
        r == is_dec_digit(c),
{
    let u = c as u32;
    48 <= u && u <= 57
}

/// The next digit character, for digits below `'9'`.
fn digit_char_succ(c: char) -> (r: char)
    requires
        is_dec_digit(c),
        c != '9',
    ensures
        is_dec_digit(r),
        digit_val(r) == digit_val(c) + 1,
{
    match c {
        '0' => '1',
        '1' => '2',
        '2' => '3',
        '3' => '4',
        '4' => '5',
        '5' => '6',
        '6' => '7',
        '7' => '8',
        _ => '9',
    }
}

/// The canonical decimal successor: for a non-empty all-digit `s`, a digit
/// string without leading zeros denoting `dec_val(s) + 1`; `None` exactly when
/// `s` is empty or holds a non-digit.
#[verifier::rlimit(60)]
pub fn checked_dec_succ(s: &str) -> (r: Option<String>)
    ensures
        (r is Some) <==> (s@.len() > 0 && is_digits(s@)),
        r matches Some(t) ==> t@ == dec_succ(s@),
{
    let cs = chars_of(s);
    let n = cs.len();
    if n == 0 {
        return None;
    }
    let mut i: usize = 0;
    while i < n
        invariant
            cs@ == s@,
            n == cs@.len(),
            i <= n,
            forall|j: int| 0 <= j < i ==> is_dec_digit(#[trigger] cs@[j]),
        decreases n - i,
    {
        if !is_digit_char(cs[i]) {
            proof {
                assert(!is_dec_digit(s@[i as int]));
            }
            return None;
        }
        i += 1;
    }
    // Skip the leading zeros; they do not change the denoted value.
    let mut nz: usize = 0;
    while nz < n && cs[nz] == '0'
        invariant
            n == cs@.len(),
            nz <= n,
            forall|j: int| 0 <= j < nz ==> cs@[j] == '0',
        decreases n - nz,
    {
        nz += 1;
    }
    proof {
        assert(cs@ =~= char_run('0', nz as nat) + cs@.subrange(nz as int, n as int));
        lemma_zeros_val(nz as nat);
        lemma_dec_val_concat(char_run('0', nz as nat), cs@.subrange(nz as int, n as int));
        assert(dec_val(cs@) == dec_val(cs@.subrange(nz as int, n as int)));
    }
    let ghost core = cs@.subrange(nz as int, n as int);
    // Find the last digit below '9'; everything after it wraps to '0'.
    let mut p: usize = n;
    while p > nz && cs[p - 1] == '9'
        invariant
            n == cs@.len(),
            nz <= p <= n,
            forall|j: int| p <= j < n ==> cs@[j] == '9',
        decreases p,
    {
        p -= 1;
    }
    let mut out: Vec<char> = Vec::new();
    if p == nz {
        // The whole core is nines (or empty): the successor is a one followed
        // by a zero for each nine.
        let k = n - nz;
        out.push('1');
        let mut z: usize = 0;
        while z < k
            invariant
                out@ =~= seq!['1'] + char_run('0', z as nat),
                z <= k,
            decreases k - z,
        {
            out.push('0');
            proof {
                assert(out@ =~= seq!['1'] + char_run('0', (z + 1) as nat));
            }
            z += 1;
        }
        proof {
            assert(core =~= char_run('9', k as nat));
            lemma_nines_val(k as nat);
            assert(out@ =~= seq!['1'] + char_run('0', k as nat));
            lemma_zeros_val(k as nat);
            lemma_dec_val_concat(seq!['1'], char_run('0', k as nat));
            let one: Seq<char> = seq!['1'];
            assert(one.drop_last() =~= Seq::<char>::empty());
            assert(dec_val(one.drop_last()) == 0);
            assert(dec_val(one) == dec_val(one.drop_last()) * 10 + digit_val(one.last()));
            assert(digit_val('1') == 1);
            lemma_pow10_pos(k as nat);
            assert(dec_val(out@) == 1 * pow10(k as nat) + 0);
            assert(dec_val(out@) == pow10(k as nat));
            assert(dec_val(out@) == dec_val(cs@) + 1);
            assert(out@[0] == '1');
        }
    } else {
        // Copy the untouched prefix, bump the pivot digit, pad with zeros.
        let mut j: usize = nz;
        while j < p - 1
            invariant
                n == cs@.len(),
                nz <= j <= p - 1 < n,
                out@ =~= cs@.subrange(nz as int, j as int),
            decreases p - j,
        {
            out.push(cs[j]);
            proof {
                assert(out@ =~= cs@.subrange(nz as int, (j + 1) as int));
            }
            j += 1;
        }
        let ghost a = cs@.subrange(nz as int, p as int - 1);
        let d = cs[p - 1];
        out.push(digit_char_succ(d));
        let ghost d1 = out@.last();
        let k = n - p;
        let ghost mid = out@;
        let mut z: usize = 0;
        while z < k
            invariant
                out@ =~= mid + char_run('0', z as nat),
                z <= k,
        decreases k - z,
        {
            out.push('0');
            proof {
                assert(out@ =~= mid + char_run('0', (z + 1) as nat));
            }
            z += 1;
        }
        proof {
            let kk = k as nat;
            assert(core =~= a.push(d) + char_run('9', kk));
            lemma_nines_val(kk);
            lemma_dec_val_concat(a.push(d), char_run('9', kk));
            assert(a.push(d).drop_last() =~= a);
            assert(dec_val(a.push(d)) == dec_val(a) * 10 + digit_val(d));
            assert(mid =~= a.push(d1));
            assert(a.push(d1).drop_last() =~= a);
            assert(dec_val(mid) == dec_val(a) * 10 + digit_val(d) + 1);
            assert(out@ =~= mid + char_run('0', kk));
            lemma_zeros_val(kk);
            lemma_dec_val_concat(mid, char_run('0', kk));
            assert(dec_val(out@) == dec_val(mid) * pow10(kk));
            assert(dec_val(core) == dec_val(a.push(d)) * pow10(kk) + pow10(kk) - 1);
            assert(dec_val(mid) * pow10(kk) == dec_val(a.push(d)) * pow10(kk) + pow10(kk)) by (nonlinear_arith)
                requires
                    dec_val(mid) == dec_val(a.push(d)) + 1,
            ;
            assert(dec_val(out@) == dec_val(cs@) + 1);
            // No leading zero: the first kept character is either the stripped
            // prefix's head (not '0') or the bumped digit (at least '1').
            if p - 1 > nz {
                assert(out@[0] == cs@[nz as int]);
                assert(cs@[nz as int] != '0');
            } else {
                assert(out@[0] == d1);
                assert(digit_val(d1) >= 1);
                assert(d1 as u32 >= 49);
                assert(d1 != '0');
            }
            assert(forall|i2: int| 0 <= i2 < out@.len() ==> is_dec_digit(#[trigger] out@[i2]));
        }
    }
    proof {
        assert(is_digits(out@));
        lemma_canonical_repr(out@);
    }
    Some(string_of_chars(&out))
}

} // verus!
