//! Decimal numerals: the executable integer parse and the shape check for
//! real-number lexemes, each proved against the model in [`crate::model`].

use vstd::prelude::*;
use vstd::string::StringExecFns;

use crate::model::all_digits;
use crate::model::digit_run_end;
use crate::model::digit_val;
use crate::model::digits_value;
use crate::model::int_lexeme_value;
use crate::model::is_digit_char;
use crate::model::is_exp_suffix;
use crate::model::is_real_lexeme;

verus! {

proof fn lemma_take_snoc(w: Seq<char>, k: int)
    requires
        0 <= k < w.len(),
    ensures
        w.take(k + 1).drop_last() == w.take(k),
        w.take(k + 1).last() == w[k],
{
    assert(w.take(k + 1).drop_last() =~= w.take(k));
}

proof fn lemma_all_digits_take(w: Seq<char>, m: int)
    requires
        all_digits(w),
        0 <= m <= w.len(),
    ensures
        all_digits(w.take(m)),
{
    assert forall|k: int| 0 <= k < w.take(m).len() implies is_digit_char(#[trigger] w.take(m)[k]) by {
        assert(w.take(m)[k] == w[k]);
    }
}

pub proof fn lemma_digits_value_nonneg(w: Seq<char>)
    requires
        all_digits(w),
    ensures
        digits_value(w) >= 0,
    decreases w.len(),
{
    if w.len() > 0 {
        assert forall|k: int| 0 <= k < w.drop_last().len() implies is_digit_char(
            #[trigger] w.drop_last()[k],
        ) by {
            assert(w.drop_last()[k] == w[k]);
        }
        lemma_digits_value_nonneg(w.drop_last());
        assert(is_digit_char(w.last()));
    }
}

/// Reading more digits never shrinks the value: the prefix of a digit run
/// is worth no more than the whole run.
pub proof fn lemma_digits_value_prefix(w: Seq<char>, m: int)
    requires
        all_digits(w),
        0 <= m <= w.len(),
    ensures
        digits_value(w.take(m)) <= digits_value(w),
    decreases w.len() - m,
{
    if m == w.len() {
        assert(w.take(m) =~= w);
    } else {
        lemma_take_snoc(w, m);
        lemma_all_digits_take(w, m);
        lemma_digits_value_nonneg(w.take(m));
        assert(is_digit_char(w[m]));
        assert(digits_value(w.take(m + 1)) == 10 * digits_value(w.take(m)) + digit_val(w[m]));
        lemma_digits_value_prefix(w, m + 1);
    }
}

/// Parse a whole lexeme as a 64-bit signed integer: succeeds exactly when
/// the lexeme is a nonempty run of ASCII digits whose value fits.
pub fn parse_int_digits(w: &Vec<char>) -> (r: Option<i64>)
    ensures
        ({
            match int_lexeme_value(w@) {
                Some(v) => r == Some(v as i64) && v == r->0,
                None => r is None,
            }
        }),
{
    let n = w.len();
    if n == 0 {
        return None;
    }
    let mut acc: i64 = 0;
    let mut k: usize = 0;
    while k < n
        invariant
            0 < n == w@.len(),
            k <= n,
            all_digits(w@.take(k as int)),
            acc == digits_value(w@.take(k as int)),
            0 <= acc <= i64::MAX,
        decreases n - k,
    {
        let cu = w[k] as u32;
        if cu < 48 || cu > 57 {
            proof {
                assert(!is_digit_char(w@[k as int]));
            }
            return None;
        }
        let d = (cu - 48) as i64;
        proof {
            lemma_take_snoc(w@, k as int);
            assert(digits_value(w@.take(k as int + 1)) == 10 * acc + d);
        }
        if acc > (i64::MAX - d) / 10 {
            proof {
                if all_digits(w@) {
                    lemma_all_digits_take(w@, k as int + 1);
                    lemma_digits_value_prefix(w@, k as int + 1);
                }
            }
            return None;
        }
        acc = acc * 10 + d;
        k += 1;
        proof {
            assert(all_digits(w@.take(k as int))) by {
                assert forall|m: int| 0 <= m < k implies is_digit_char(
                    #[trigger] w@.take(k as int)[m],
                ) by {
                    assert(w@.take(k as int)[m] == w@[m]);
                    if m < k - 1 {
                        assert(w@.take(k as int - 1)[m] == w@[m]);
                    }
                }
            }
        }
    }
    proof {
        assert(w@.take(n as int) =~= w@);
    }
    Some(acc)
}

/// The first position at or after `from` that does not hold an ASCII
/// digit.
fn digit_end_at(w: &Vec<char>, from: usize) -> (r: usize)
    requires
        from <= w@.len(),
    ensures
        r == digit_run_end(w@, from as nat),
        from <= r <= w@.len(),
{
    let n = w.len();
    let mut k = from;
    while k < n && w[k] as u32 >= 48 && w[k] as u32 <= 57
        invariant
            from <= k <= n == w@.len(),
            digit_run_end(w@, k as nat) == digit_run_end(w@, from as nat),
        decreases n - k,
    {
        k += 1;
    }
    proof {
        assert(digit_run_end(w@, k as nat) == k);
    }
    k
}

/// Decide whether a whole lexeme has the shape of a real-number literal:
/// digits, an optional dot-led fraction, an optional exponent.
pub fn check_real_lexeme(w: &Vec<char>) -> (r: bool)
    ensures
        r == is_real_lexeme(w@),
{
    let n = w.len();
    let p = digit_end_at(w, 0);
    if p == 0 {
        return false;
    }
    let q = if p < n && w[p] == '.' {
        digit_end_at(w, p + 1)
    } else {
        p
    };
    if q >= n {
        return true;
    }
    if w[q] != 'e' && w[q] != 'E' {
        return false;
    }
    let r0 = if q + 1 < n && (w[q + 1] == '+' || w[q + 1] == '-') {
        q + 2
    } else {
        q + 1
    };
    if r0 >= n {
        proof {
            assert(!is_exp_suffix(w@, q as nat));
        }
        return false;
    }
    let t = digit_end_at(w, r0);
    t == n
}

/// The character that writes a single decimal digit.
pub open spec fn dec_digit_char(d: nat) -> char {
    if d == 0 {
        '0'
    } else if d == 1 {
        '1'
    } else if d == 2 {
        '2'
    } else if d == 3 {
        '3'
    } else if d == 4 {
        '4'
    } else if d == 5 {
        '5'
    } else if d == 6 {
        '6'
    } else if d == 7 {
        '7'
    } else if d == 8 {
        '8'
    } else {
        '9'
    }
}

/// The decimal writing of `n`, most significant digit first.
pub open spec fn dec_digits(n: nat) -> Seq<char>
    decreases n,
{
    if n < 10 {
        seq![dec_digit_char(n)]
    } else {
        dec_digits(n / 10).push(dec_digit_char(n % 10))
    }
}

fn digit_str(d: usize) -> (r: &'static str)
    requires
        d < 10,
    ensures
        r@ == seq![dec_digit_char(d as nat)],
{
    if d == 0 {
        proof {
            reveal_strlit("0");
            assert("0"@ =~= seq!['0']);
        }
        "0"
    } else if d == 1 {
        proof {
            reveal_strlit("1");
            assert("1"@ =~= seq!['1']);
        }
        "1"
    } else if d == 2 {
        proof {
            reveal_strlit("2");
            assert("2"@ =~= seq!['2']);
        }
        "2"
    } else if d == 3 {
        proof {
            reveal_strlit("3");
            assert("3"@ =~= seq!['3']);
        }
        "3"
    } else if d == 4 {
        proof {
            reveal_strlit("4");
            assert("4"@ =~= seq!['4']);
        }
        "4"
    } else if d == 5 {
        proof {
            reveal_strlit("5");
            assert("5"@ =~= seq!['5']);
        }
        "5"
    } else if d == 6 {
        proof {
            reveal_strlit("6");
            assert("6"@ =~= seq!['6']);
        }
        "6"
    } else if d == 7 {
        proof {
            reveal_strlit("7");
            assert("7"@ =~= seq!['7']);
        }
        "7"
    } else if d == 8 {
        proof {
            reveal_strlit("8");
            assert("8"@ =~= seq!['8']);
        }
        "8"
    } else {
        proof {
            reveal_strlit("9");
            assert("9"@ =~= seq!['9']);
        }
        "9"
    }
}

/// Append the decimal writing of `n` to `out`.
pub fn push_decimal(out: &mut String, n: usize)
    ensures
        final(out)@ == old(out)@ + dec_digits(n as nat),
    decreases n,
{
    if n < 10 {
        let d = digit_str(n);
        out.append(d);
    } else {
        push_decimal(out, n / 10);
        let d = digit_str(n % 10);
        out.append(d);
        proof {
            assert((old(out)@ + dec_digits((n / 10) as nat)) + seq![
                dec_digit_char((n % 10) as nat),
            ] =~= old(out)@ + dec_digits(n as nat));
        }
    }
}

} // verus!
