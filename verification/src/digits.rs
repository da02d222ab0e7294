//! Canonical decimal notation: the digit sequence of a number, the value of
//! a digit sequence, and executable conversions in both directions.

use vstd::prelude::*;
use vstd::arithmetic::div_mod::lemma_fundamental_div_mod;
use vstd::string::StringExecFns;
use vstd::string::StrSliceExecFns;

verus! {

/// The ten decimal digit characters.
pub open spec fn is_digit(c: char) -> bool {
    c == '0' || c == '1' || c == '2' || c == '3' || c == '4' || c == '5' || c == '6' || c == '7'
        || c == '8' || c == '9'
}

/// The character for a single digit value.
pub open spec fn digit_char(d: nat) -> char {
    if d == 0 {
        '0'
    } else if d == 1 {
        '1'
    } else if d == 2 {
        '2'
    } else if d == 3 {
        '3'
    } else if d == 4 {
        '4'
    } else if d == 5 {
        '5'
    } else if d == 6 {
        '6'
    } else if d == 7 {
        '7'
    } else if d == 8 {
        '8'
    } else {
        '9'
    }
}

/// The value of a single digit character; zero on anything else.
pub open spec fn digit_of(c: char) -> nat {
    if c == '1' {
        1
    } else if c == '2' {
        2
    } else if c == '3' {
        3
    } else if c == '4' {
        4
    } else if c == '5' {
        5
    } else if c == '6' {
        6
    } else if c == '7' {
        7
    } else if c == '8' {
        8
    } else if c == '9' {
        9
    } else {
        0
    }
}

/// The canonical decimal notation of `n`: no sign, no leading zero, and
/// `"0"` for zero itself.
pub open spec fn dec_chars(n: nat) -> Seq<char>
    decreases n,
{
    if n < 10 {
        seq![digit_char(n)]
    } else {
        dec_chars(n / 10).push(digit_char(n % 10))
    }
}

/// Every character of the sequence is a decimal digit.
pub open spec fn all_digits(ds: Seq<char>) -> bool {
    forall|i: int| 0 <= i < ds.len() ==> is_digit(#[trigger] ds[i])
}

/// The number denoted by a digit sequence, most significant digit first.
pub open spec fn digits_val(ds: Seq<char>) -> nat
    decreases ds.len(),
{
    if ds.len() == 0 {
        0
    } else {
        digits_val(ds.drop_last()) * 10 + digit_of(ds.last())
    }
}

/// Canonical notation is non-empty, consists of digits, denotes the number
/// it was built from, and starts with '0' exactly for zero.
pub proof fn lemma_dec_chars_basic(n: nat)
    ensures
        dec_chars(n).len() >= 1,
        all_digits(dec_chars(n)),
        digits_val(dec_chars(n)) == n,
        dec_chars(n)[0] == '0' <==> n == 0,
    decreases n,
{
    if n < 10 {
        assert(dec_chars(n) =~= seq![digit_char(n)]);
        assert(dec_chars(n).drop_last() =~= Seq::<char>::empty());
        assert(digits_val(Seq::<char>::empty()) == 0);
        assert(dec_chars(n).last() == digit_char(n));
        assert(digit_of(digit_char(n)) == n);
        assert(digits_val(dec_chars(n)) == digits_val(dec_chars(n).drop_last()) * 10 + digit_of(
            dec_chars(n).last(),
        ));
    } else {
        let q = n / 10;
        let r = n % 10;
        lemma_fundamental_div_mod(n as int, 10);
        lemma_dec_chars_basic(q);
        let ds = dec_chars(n);
        assert(ds == dec_chars(q).push(digit_char(r)));
        assert(ds.drop_last() =~= dec_chars(q));
        assert(ds.last() == digit_char(r));
        assert(digit_of(digit_char(r)) == r);
        assert(digits_val(ds) == q * 10 + r);
        assert(ds[0] == dec_chars(q)[0]);
        assert(forall|i: int| 0 <= i < ds.len() ==> is_digit(#[trigger] ds[i])) by {
            assert(forall|i: int|
                0 <= i < dec_chars(q).len() ==> is_digit(#[trigger] dec_chars(q)[i]));
            assert(forall|i: int| 0 <= i < ds.len() - 1 ==> ds[i] == dec_chars(q)[i]);
            assert(is_digit(ds[ds.len() - 1]));
        }
    }
}

/// Two numbers with the same canonical notation are equal.
pub proof fn lemma_dec_chars_injective(a: nat, b: nat)
    requires
        dec_chars(a) == dec_chars(b),
    ensures
        a == b,
{
    lemma_dec_chars_basic(a);
    lemma_dec_chars_basic(b);
}

/// Appending one more digit multiplies the denoted value by ten.
pub proof fn lemma_digits_val_push(ds: Seq<char>, c: char)
    ensures
        digits_val(ds.push(c)) == digits_val(ds) * 10 + digit_of(c),
{
    assert(ds.push(c).drop_last() =~= ds);
    assert(ds.push(c).last() == c);
}

/// Extending the canonical notation of a positive number by a digit yields
/// the canonical notation of the ten-fold extension.
pub proof fn lemma_dec_chars_step(v: nat, d: nat)
    requires
        v >= 1,
        d < 10,
    ensures
        dec_chars(v * 10 + d) == dec_chars(v).push(digit_char(d)),
{
    let n = v * 10 + d;
    assert(n >= 10) by (nonlinear_arith)
        requires
            v >= 1,
            d < 10,
            n == v * 10 + d,
    ;
    assert(n / 10 == v && n % 10 == d) by (nonlinear_arith)
        requires
            v >= 1,
            d < 10,
            n == v * 10 + d,
    ;
}

/// A prefix of a digit sequence never denotes more than the whole.
pub proof fn lemma_digits_val_take_le(ds: Seq<char>, k: int)
    requires
        0 <= k <= ds.len(),
    ensures
        digits_val(ds.take(k)) <= digits_val(ds),
    decreases ds.len(),
{
    if k == ds.len() {
        assert(ds.take(k) =~= ds);
    } else {
        let dl = ds.drop_last();
        assert(ds.take(k) =~= dl.take(k));
        lemma_digits_val_take_le(dl, k);
    }
}

/// `v` written in canonical notation stands at position `i` of `s` and ends
/// at `j`, with no digit immediately after it.
pub open spec fn canon_num_at(s: Seq<char>, i: int, v: u64, j: int) -> bool {
    &&& 0 <= i < j <= s.len()
    &&& s.subrange(i, j) == dec_chars(v as nat)
    &&& (j == s.len() || !is_digit(s[j]))
}

/// At one position there is at most one canonically written number.
pub proof fn lemma_canon_num_unique(s: Seq<char>, i: int, v1: u64, j1: int, v2: u64, j2: int)
    requires
        canon_num_at(s, i, v1, j1),
        canon_num_at(s, i, v2, j2),
    ensures
        v1 == v2,
        j1 == j2,
{
    lemma_dec_chars_basic(v1 as nat);
    lemma_dec_chars_basic(v2 as nat);
    if j1 < j2 {
        assert(s[j1] == s.subrange(i, j2)[j1 - i]);
        assert(is_digit(s[j1]));
        assert(false);
    }
    if j2 < j1 {
        assert(s[j2] == s.subrange(i, j1)[j2 - i]);
        assert(is_digit(s[j2]));
        assert(false);
    }
    assert(dec_chars(v1 as nat) == dec_chars(v2 as nat));
    lemma_dec_chars_injective(v1 as nat, v2 as nat);
}

/// The one-character string for a single digit value.
fn digit_str(d: u64) -> (r: &'static str)
    requires
        d < 10,
    ensures
        r@ == seq![digit_char(d as nat)],
{
    let s: &'static str = if d == 0 {
        "0"
    } else if d == 1 {
        "1"
    } else if d == 2 {
        "2"
    } else if d == 3 {
        "3"
    } else if d == 4 {
        "4"
    } else if d == 5 {
        "5"
    } else if d == 6 {
        "6"
    } else if d == 7 {
        "7"
    } else if d == 8 {
        "8"
    } else {
        "9"
    };
    proof {
        reveal_strlit("0");
        reveal_strlit("1");
        reveal_strlit("2");
        reveal_strlit("3");
        reveal_strlit("4");
        reveal_strlit("5");
        reveal_strlit("6");
        reveal_strlit("7");
        reveal_strlit("8");
        reveal_strlit("9");
        assert(s@ =~= seq![digit_char(d as nat)]);
    }
    s
}

/// Appends the canonical decimal notation of `n` to `out`.
pub fn push_dec(out: &mut String, n: u64)
    ensures
        final(out)@ == old(out)@ + dec_chars(n as nat),
    decreases n,
{
    if n < 10 {
        out.append(digit_str(n));
        proof {
            assert(out@ =~= old(out)@ + dec_chars(n as nat));
        }
    } else {
        let q = n / 10;
        let r = n % 10;
        push_dec(out, q);
        out.append(digit_str(r));
        proof {
            assert(dec_chars(n as nat) == dec_chars((n / 10) as nat).push(
                digit_char((n % 10) as nat),
            ));
            assert(out@ =~= old(out)@ + dec_chars(n as nat));
        }
    }
}

/// The value of a digit character, or nothing on any other character.
fn digit_val(c: char) -> (r: Option<u64>)
    ensures
        match r {
            Some(d) => d < 10 && c == digit_char(d as nat),
            None => !is_digit(c),
        },
{
    match c {
        '0' => Some(0u64),
        '1' => Some(1u64),
        '2' => Some(2u64),
        '3' => Some(3u64),
        '4' => Some(4u64),
        '5' => Some(5u64),
        '6' => Some(6u64),
        '7' => Some(7u64),
        '8' => Some(8u64),
        '9' => Some(9u64),
        _ => None,
    }
}

/// Reads the canonically written number that stands at position `i` of `s`,
/// together with the position just past its digits. Returns nothing when no
/// canonically written number stands there: no digit at `i`, a leading
/// zero, or a digit run denoting a value beyond `u64`.
pub fn parse_num(s: &str, i: usize, n: usize) -> (r: Option<(u64, usize)>)
    requires
        n == s@.len(),
        i <= n,
    ensures
        match r {
            Some(p) => canon_num_at(s@, i as int, p.0, p.1 as int) && i < p.1 <= n,
            None => forall|v: u64, j: int| !canon_num_at(s@, i as int, v, j),
        },
{
    if i >= n {
        proof {
            assert forall|v: u64, j: int| !canon_num_at(s@, i as int, v, j) by {
                if canon_num_at(s@, i as int, v, j) {
                    lemma_dec_chars_basic(v as nat);
                    assert(j - i == dec_chars(v as nat).len());
                }
            }
        }
        return None;
    }
    let c0 = s.get_char(i);
    let d0 = match digit_val(c0) {
        Some(d) => d,
        None => {
            proof {
                assert forall|v: u64, j: int| !canon_num_at(s@, i as int, v, j) by {
                    if canon_num_at(s@, i as int, v, j) {
                        lemma_dec_chars_basic(v as nat);
                        assert(s@[i as int] == s@.subrange(i as int, j)[0]);
                        assert(is_digit(s@[i as int]));
                    }
                }
            }
            return None;
        },
    };
    if d0 == 0 {
        // A canonical zero is the single digit '0'; a digit after it would
        // make a leading zero, which no canonical notation has.
        if i + 1 < n {
            let c1 = s.get_char(i + 1);
            if digit_val(c1).is_some() {
                proof {
                    assert forall|v: u64, j: int| !canon_num_at(s@, i as int, v, j) by {
                        if canon_num_at(s@, i as int, v, j) {
                            lemma_dec_chars_basic(v as nat);
                            assert(s@[i as int] == s@.subrange(i as int, j)[0]);
                            assert(dec_chars(v as nat)[0] == '0');
                            assert(v == 0);
                            assert(j == i + 1);
                            assert(is_digit(s@[j]));
                        }
                    }
                }
                return None;
            }
        }
        proof {
            assert(s@.subrange(i as int, i + 1) =~= seq![digit_char(0)]);
            assert(s@.subrange(i as int, i + 1) == dec_chars(0));
        }
        return Some((0, i + 1));
    }
    let mut v: u64 = d0;
    let mut j: usize = i + 1;
    proof {
        assert(s@.subrange(i as int, j as int) =~= seq![digit_char(d0 as nat)]);
        assert(s@.subrange(i as int, j as int) == dec_chars(v as nat));
    }
    loop
        invariant
            n == s@.len(),
            i < j <= n,
            1 <= v,
            s@.subrange(i as int, j as int) == dec_chars(v as nat),
        ensures
            n == s@.len(),
            i < j <= n,
            s@.subrange(i as int, j as int) == dec_chars(v as nat),
            j == n || !is_digit(s@[j as int]),
        decreases n - j,
    {
        if j >= n {
            break ;
        }
        let c = s.get_char(j);
        let d = match digit_val(c) {
            Some(d) => d,
            None => {
                break ;
            },
        };
        if v > (u64::MAX - d) / 10 {
            // The digit run continues past the largest `u64`: whatever
            // number is written here, it is no `u64`.
            proof {
                lemma_fundamental_div_mod((u64::MAX - d) as int, 10);
                assert(10 * v + d > u64::MAX);
                lemma_dec_chars_basic(v as nat);
                assert forall|v2: u64, j2: int| !canon_num_at(s@, i as int, v2, j2) by {
                    if canon_num_at(s@, i as int, v2, j2) {
                        let ds = dec_chars(v2 as nat);
                        lemma_dec_chars_basic(v2 as nat);
                        // Positions i..=j all hold digits, so the number
                        // written at i runs at least to j + 1.
                        if j2 <= j {
                            assert(s@[j2] == s@.subrange(i as int, j as int + 1)[j2 - i]);
                            assert(s@.subrange(i as int, j as int + 1)[j2 - i] == (if j2 - i < j - i {
                                dec_chars(v as nat)[j2 - i]
                            } else {
                                s@[j as int]
                            }));
                            assert(is_digit(s@[j2]));
                            assert(false);
                        }
                        // Its digit prefix up to j + 1 already denotes
                        // 10 * v + d, so its value exceeds `u64::MAX`.
                        assert(ds.take(j + 1 - i) =~= s@.subrange(i as int, j + 1));
                        assert(s@.subrange(i as int, j + 1) =~= s@.subrange(i as int, j as int).push(
                            s@[j as int],
                        ));
                        assert(ds.take(j + 1 - i) == dec_chars(v as nat).push(digit_char(d as nat)));
                        lemma_digits_val_push(dec_chars(v as nat), digit_char(d as nat));
                        assert(digits_val(ds.take(j + 1 - i)) == v * 10 + d);
                        lemma_digits_val_take_le(ds, j + 1 - i);
                        assert(v2 as nat >= v * 10 + d);
                        assert(false);
                    }
                }
            }
            return None;
        }
        proof {
            lemma_fundamental_div_mod((u64::MAX - d) as int, 10);
            assert(10 * v + d <= u64::MAX);
            lemma_dec_chars_step(v as nat, d as nat);
            assert(s@.subrange(i as int, j + 1) =~= s@.subrange(i as int, j as int).push(
                s@[j as int],
            ));
        }
        v = v * 10 + d;
        j = j + 1;
    }
    Some((v, j))
}

} // verus!
