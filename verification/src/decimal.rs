//! Decimal digit strings: rendering unsigned and signed integers, parsing
//! them back, and the lemmas that make the two exact inverses. The session
//! token payload carries its numbers in this form.

use vstd::prelude::*;

verus! {

pub open spec fn is_digit(c: char) -> bool {
    48 <= c as u32 <= 57
}

/// The digit character for a value below ten.
pub open spec fn digit_of(d: nat) -> char
    recommends
        d < 10,
{
    ((d + 48) as u32) as char
}

pub open spec fn digit_val(c: char) -> nat
    recommends
        is_digit(c),
{
    (c as u32 - 48) as nat
}

/// Decimal digits of `n`, most significant first.
pub open spec fn dec_nat(n: nat) -> Seq<char>
    decreases n,
{
    if n < 10 {
        seq![digit_of(n)]
    } else {
        dec_nat(n / 10) + seq![digit_of(n % 10)]
    }
}

/// Decimal rendering of a signed value: a minus sign before the magnitude.
pub open spec fn dec_int(v: int) -> Seq<char> {
    if v >= 0 {
        dec_nat(v as nat)
    } else {
        seq!['-'] + dec_nat((-v) as nat)
    }
}

pub open spec fn all_digits(s: Seq<char>) -> bool {
    forall|i: int| 0 <= i < s.len() ==> is_digit(#[trigger] s[i])
}

/// A digit string that some value renders to: nonempty, digits only,
/// and no superfluous leading zero.
pub open spec fn canonical_digits(s: Seq<char>) -> bool {
    &&& s.len() > 0
    &&& all_digits(s)
    &&& (s[0] == '0' ==> s.len() == 1)
}

/// Value of a digit string, most significant first.
pub open spec fn val_of(s: Seq<char>) -> nat
    decreases s.len(),
{
    if s.len() == 0 {
        0
    } else {
        val_of(s.drop_last()) * 10 + digit_val(s.last())
    }
}

/// First position at or after `i` that does not hold a digit.
pub open spec fn digit_run_end(s: Seq<char>, i: int) -> int
    recommends
        0 <= i <= s.len(),
    decreases s.len() - i,
{
    if i < 0 || i >= s.len() || !is_digit(s[i]) {
        i
    } else {
        digit_run_end(s, i + 1)
    }
}

pub proof fn lemma_digit_run_end_bounds(s: Seq<char>, i: int)
    requires
        0 <= i <= s.len(),
    ensures
        i <= digit_run_end(s, i) <= s.len(),
        forall|k: int| i <= k < digit_run_end(s, i) ==> is_digit(#[trigger] s[k]),
        digit_run_end(s, i) < s.len() ==> !is_digit(s[digit_run_end(s, i)]),
    decreases s.len() - i,
{
    if i < s.len() && is_digit(s[i]) {
        lemma_digit_run_end_bounds(s, i + 1);
    }
}

/// A run of digits bounded by a non-digit (or the end) is exactly where
/// `digit_run_end` stops.
pub proof fn lemma_digit_run_end_of(s: Seq<char>, i: int, e: int)
    requires
        0 <= i <= e <= s.len(),
        forall|k: int| i <= k < e ==> is_digit(#[trigger] s[k]),
        e < s.len() ==> !is_digit(s[e]),
    ensures
        digit_run_end(s, i) == e,
    decreases e - i,
{
    if i < e {
        lemma_digit_run_end_of(s, i + 1, e);
    }
}

/// A digit character casts back to the value it was made from.
pub proof fn lemma_digit_roundtrip(c: char)
    requires
        is_digit(c),
    ensures
        digit_val(c) < 10,
        digit_of(digit_val(c)) == c,
        c != '0' ==> digit_val(c) >= 1,
{
}

pub proof fn lemma_digit_of_val(n: nat)
    requires
        n < 10,
    ensures
        is_digit(digit_of(n)),
        digit_val(digit_of(n)) == n,
        n > 0 ==> digit_of(n) != '0',
{
}

/// What `dec_nat` produces is canonical, evaluates back to `n`, and starts
/// with a zero digit only for zero itself.
pub proof fn lemma_dec_nat_canonical(n: nat)
    ensures
        canonical_digits(dec_nat(n)),
        val_of(dec_nat(n)) == n,
        n > 0 ==> dec_nat(n)[0] != '0',
    decreases n,
{
    if n < 10 {
        lemma_digit_of_val(n);
        assert(dec_nat(n) =~= seq![digit_of(n)]);
        assert(dec_nat(n).drop_last() =~= Seq::<char>::empty());
        assert(val_of(Seq::<char>::empty()) == 0);
        assert(val_of(dec_nat(n)) == digit_val(digit_of(n)));
    } else {
        lemma_digit_of_val((n % 10) as nat);
        lemma_dec_nat_canonical(n / 10);
        let pre = dec_nat(n / 10);
        let s = dec_nat(n);
        assert(s =~= pre + seq![digit_of(n % 10)]);
        assert(s.drop_last() =~= pre);
        assert(s.last() == digit_of(n % 10));
        assert(val_of(s) == val_of(pre) * 10 + digit_val(digit_of((n % 10) as nat)));
        assert(forall|i: int| 0 <= i < pre.len() ==> s[i] == #[trigger] pre[i]);
    }
}

/// Appending digit strings: the left part is scaled by ten to the length of
/// the right part.
pub open spec fn pow10(k: nat) -> nat
    decreases k,
{
    if k == 0 {
        1
    } else {
        10 * pow10((k - 1) as nat)
    }
}

pub proof fn lemma_pow10_pos(k: nat)
    ensures
        pow10(k) >= 1,
    decreases k,
{
    if k > 0 {
        lemma_pow10_pos((k - 1) as nat);
    }
}

pub proof fn lemma_val_of_concat(s: Seq<char>, t: Seq<char>)
    ensures
        val_of(s + t) == val_of(s) * pow10(t.len()) + val_of(t),
    decreases t.len(),
{
    if t.len() == 0 {
        assert(s + t =~= s);
        assert(val_of(t) == 0);
        assert(pow10(0) == 1);
        assert(val_of(s) * 1 == val_of(s)) by (nonlinear_arith);
    } else {
        let t0 = t.drop_last();
        lemma_val_of_concat(s, t0);
        assert((s + t).drop_last() =~= s + t0);
        assert((s + t).last() == t.last());
        assert(val_of(t) == val_of(t0) * 10 + digit_val(t.last()));
        assert(val_of(s + t) == (val_of(s) * pow10(t0.len()) + val_of(t0)) * 10 + digit_val(
            t.last(),
        ));
        assert(val_of(s) * pow10(t0.len()) * 10 == val_of(s) * pow10(t.len())) by (nonlinear_arith)
            requires
                pow10(t.len()) == 10 * pow10(t0.len()),
                t0.len() == t.len() - 1,
        ;
        assert((val_of(s) * pow10(t0.len()) + val_of(t0)) * 10 == val_of(s) * pow10(t0.len()) * 10
            + val_of(t0) * 10) by (nonlinear_arith);
        assert(val_of(s + t) == val_of(s) * pow10(t.len()) + val_of(t));
    }
}

/// A nonzero-leading digit string has a positive value.
pub proof fn lemma_val_of_pos(s: Seq<char>)
    requires
        s.len() > 0,
        all_digits(s),
        s[0] != '0',
    ensures
        val_of(s) >= 1,
    decreases s.len(),
{
    if s.len() == 1 {
        assert(is_digit(s[0]));
        lemma_digit_roundtrip(s[0]);
        assert(s.drop_last() =~= Seq::<char>::empty());
        assert(val_of(Seq::<char>::empty()) == 0);
        assert(s.last() == s[0]);
        assert(val_of(s) == digit_val(s[0]));
    } else {
        let s0 = s.drop_last();
        assert(s0[0] == s[0]);
        assert(all_digits(s0));
        lemma_val_of_pos(s0);
        assert(val_of(s) == val_of(s0) * 10 + digit_val(s.last()));
    }
}

/// A canonical digit string is recovered from its value: `dec_nat` and
/// `val_of` are inverses.
pub proof fn lemma_dec_of_val(s: Seq<char>)
    requires
        canonical_digits(s),
    ensures
        dec_nat(val_of(s)) == s,
    decreases s.len(),
{
    if s.len() == 1 {
        let d = digit_val(s[0]);
        assert(is_digit(s[0]));
        lemma_digit_roundtrip(s[0]);
        assert(s.drop_last() =~= Seq::<char>::empty());
        assert(val_of(Seq::<char>::empty()) == 0);
        assert(s.last() == s[0]);
        assert(val_of(s) == d);
        assert(dec_nat(d) =~= seq![digit_of(d)]);
        assert(dec_nat(val_of(s)) =~= s);
    } else {
        let s0 = s.drop_last();
        assert(s0[0] == s[0]);
        assert(s[0] != '0');
        assert(all_digits(s0));
        lemma_val_of_pos(s0);
        lemma_dec_of_val(s0);
        let v = val_of(s);
        assert(is_digit(s.last()));
        lemma_digit_roundtrip(s.last());
        assert(v == val_of(s0) * 10 + digit_val(s.last()));
        assert(v / 10 == val_of(s0) && v % 10 == digit_val(s.last())) by (nonlinear_arith)
            requires
                v == val_of(s0) * 10 + digit_val(s.last()),
                digit_val(s.last()) < 10,
        ;
        assert(v >= 10) by {
            assert(val_of(s0) >= 1);
        };
        assert(digit_of(digit_val(s.last())) == s.last());
        assert(dec_nat(v) =~= dec_nat(val_of(s0)) + seq![digit_of(digit_val(s.last()))]);
        assert(dec_nat(v) =~= s0 + seq![s.last()]);
        assert(s =~= s0 + seq![s.last()]);
    }
}

/// Appends one digit character.
fn push_digit(s: &mut String, d: u64)
    requires
        d < 10,
    ensures
        final(s)@ == old(s)@ + seq![digit_of(d as nat)],
{
    match d {
        0 => {
            s.append("0");
            proof {
                reveal_strlit("0");
                assert(old(s)@ + "0"@ =~= old(s)@ + seq![digit_of(0)]);
            }
        },
        1 => {
            s.append("1");
            proof {
                reveal_strlit("1");
                assert(old(s)@ + "1"@ =~= old(s)@ + seq![digit_of(1)]);
            }
        },
        2 => {
            s.append("2");
            proof {
                reveal_strlit("2");
                assert(old(s)@ + "2"@ =~= old(s)@ + seq![digit_of(2)]);
            }
        },
        3 => {
            s.append("3");
            proof {
                reveal_strlit("3");
                assert(old(s)@ + "3"@ =~= old(s)@ + seq![digit_of(3)]);
            }
        },
        4 => {
            s.append("4");
            proof {
                reveal_strlit("4");
                assert(old(s)@ + "4"@ =~= old(s)@ + seq![digit_of(4)]);
            }
        },
        5 => {
            s.append("5");
            proof {
                reveal_strlit("5");
                assert(old(s)@ + "5"@ =~= old(s)@ + seq![digit_of(5)]);
            }
        },
        6 => {
            s.append("6");
            proof {
                reveal_strlit("6");
                assert(old(s)@ + "6"@ =~= old(s)@ + seq![digit_of(6)]);
            }
        },
        7 => {
            s.append("7");
            proof {
                reveal_strlit("7");
                assert(old(s)@ + "7"@ =~= old(s)@ + seq![digit_of(7)]);
            }
        },
        8 => {
            s.append("8");
            proof {
                reveal_strlit("8");
                assert(old(s)@ + "8"@ =~= old(s)@ + seq![digit_of(8)]);
            }
        },
        _ => {
            s.append("9");
            proof {
                reveal_strlit("9");
                assert(old(s)@ + "9"@ =~= old(s)@ + seq![digit_of(9)]);
            }
        },
    }
}

fn u64_to_dec_into(s: &mut String, n: u64)
    ensures
        final(s)@ == old(s)@ + dec_nat(n as nat),
    decreases n,
{
    if n < 10 {
        push_digit(s, n);
    } else {
        u64_to_dec_into(s, n / 10);
        push_digit(s, n % 10);
        proof {
            assert(old(s)@ + dec_nat((n / 10) as nat) + seq![digit_of((n % 10) as nat)] =~= old(
                s,
            )@ + (dec_nat((n / 10) as nat) + seq![digit_of((n % 10) as nat)]));
        }
    }
}

/// Renders an unsigned value as its decimal digits.
pub fn u64_to_dec(n: u64) -> (r: String)
    ensures
        r@ == dec_nat(n as nat),
{
    let mut s = String::new();
    u64_to_dec_into(&mut s, n);
    proof {
        assert(Seq::<char>::empty() + dec_nat(n as nat) =~= dec_nat(n as nat));
    }
    s
}

/// Renders a signed value: a minus sign before the magnitude when negative.
pub fn i64_to_dec(v: i64) -> (r: String)
    ensures
        r@ == dec_int(v as int),
{
    if v >= 0 {
        u64_to_dec(v as u64)
    } else {
        let mut s = String::new();
        s.append("-");
        let mag: u64 = if v == i64::MIN {
            9223372036854775808
        } else {
            (-v) as u64
        };
        u64_to_dec_into(&mut s, mag);
        proof {
            reveal_strlit("-");
            assert(mag as nat == (-(v as int)) as nat);
            assert(Seq::<char>::empty() + "-"@ + dec_nat(mag as nat) =~= seq!['-'] + dec_nat(
                (-(v as int)) as nat,
            ));
        }
        s
    }
}

/// Parses a canonical decimal run starting at `start`: succeeds exactly when
/// the digit run there is nonempty, has no leading zero, and fits in a `u64`,
/// and then consumes precisely that run.
pub fn parse_u64(v: &Vec<char>, start: usize) -> (r: Option<(u64, usize)>)
    requires
        start <= v@.len(),
    ensures
        ({
            let e = digit_run_end(v@, start as int);
            match r {
                Some(p) => p.1 == e && start < e && e <= v@.len() && v@.subrange(
                    start as int,
                    e,
                ) == dec_nat(p.0 as nat),
                None => e == start || !canonical_digits(v@.subrange(start as int, e)) || val_of(
                    v@.subrange(start as int, e),
                ) > u64::MAX,
            }
        }),
{
    let ghost e = digit_run_end(v@, start as int);
    proof {
        lemma_digit_run_end_bounds(v@, start as int);
    }
    let len = v.len();
    if start == len || !digit_at(v, start) {
        return None;
    }
    if v[start] == '0' {
        // A zero digit may stand only alone.
        if start + 1 < len && digit_at(v, start + 1) {
            proof {
                assert(e != start) by {
                    assert(is_digit(v@[start as int]));
                }
                assert(e != start + 1) by {
                    assert(is_digit(v@[start as int + 1]));
                }
                let run = v@.subrange(start as int, e);
                assert(run[0] == '0' && run.len() >= 2);
                assert(!canonical_digits(run));
            }
            return None;
        }
        proof {
            lemma_digit_run_end_of(v@, start as int + 1, start as int + 1);
            assert(e == start + 1);
            let run = v@.subrange(start as int, e);
            assert(run =~= seq!['0']);
            assert(run =~= dec_nat(0));
        }
        return Some((0, start + 1));
    }
    let mut i: usize = start;
    let mut n: u64 = 0;
    while i < len && digit_at(v, i)
        invariant
            start <= i <= len,
            len == v@.len(),
            e == digit_run_end(v@, start as int),
            start <= e <= len,
            forall|k: int| start <= k < e ==> is_digit(#[trigger] v@[k]),
            e < len ==> !is_digit(v@[e]),
            i <= e,
            i > start ==> n as nat == val_of(v@.subrange(start as int, i as int)),
            i > start ==> v@.subrange(start as int, i as int) == dec_nat(n as nat),
            i == start ==> n == 0,
            v@[start as int] != '0',
        decreases len - i,
    {
        let c = v[i];
        proof {
            assert(is_digit(v@[i as int]));
            assert(i < e) by {
                if i == e {
                    assert(!is_digit(v@[e]));
                }
            }
            lemma_digit_roundtrip(c);
        }
        let d: u64 = (c as u32 - 48) as u64;
        let ghost prefix = v@.subrange(start as int, i as int);
        let ghost old_n = n;
        match n.checked_mul(10) {
            Some(m) => {
                match m.checked_add(d) {
                    Some(n2) => {
                        n = n2;
                        i = i + 1;
                        proof {
                            let cur = v@.subrange(start as int, i as int);
                            assert(cur =~= prefix + seq![c]);
                            assert(cur.drop_last() =~= prefix);
                            assert(cur.last() == c);
                            assert(digit_val(c) == d);
                            if i - 1 == start {
                                assert(prefix =~= Seq::<char>::empty());
                                assert(val_of(prefix) == 0);
                            }
                            assert(old_n as nat == val_of(prefix));
                            assert(n as nat == val_of(cur));
                            assert(cur[0] == v@[start as int]);
                            assert(all_digits(cur));
                            assert(canonical_digits(cur));
                            lemma_dec_of_val(cur);
                        }
                    },
                    None => {
                        proof {
                            assert(i > start) by {
                                if i == start {
                                    assert(old_n == 0);
                                }
                            }
                            assert(digit_val(v@[i as int]) == d);
                            assert(val_of(prefix) * 10 + digit_val(v@[i as int]) > u64::MAX);
                            overflow_means_run_too_big(v@, start as int, i as int, e);
                        }
                        return None;
                    },
                }
            },
            None => {
                proof {
                    assert(i > start) by {
                        if i == start {
                            assert(old_n == 0);
                        }
                    }
                    assert(digit_val(v@[i as int]) == d);
                    assert(val_of(prefix) * 10 + digit_val(v@[i as int]) > u64::MAX);
                    overflow_means_run_too_big(v@, start as int, i as int, e);
                }
                return None;
            },
        }
    }
    proof {
        assert(i == e) by {
            if i < e {
                assert(is_digit(v@[i as int]));
            }
        }
    }
    Some((n, i))
}

/// When the next accumulation step leaves the `u64` range, the whole digit
/// run's value does too.
proof fn overflow_means_run_too_big(s: Seq<char>, start: int, i: int, e: int)
    requires
        0 <= start <= i < e <= s.len(),
        forall|k: int| start <= k < e ==> is_digit(#[trigger] s[k]),
        val_of(s.subrange(start, i)) * 10 + digit_val(s[i]) > u64::MAX,
    ensures
        val_of(s.subrange(start, e)) > u64::MAX,
{
    let run = s.subrange(start, e);
    let pre = s.subrange(start, i + 1);
    assert(pre.drop_last() =~= s.subrange(start, i));
    assert(pre.last() == s[i]);
    assert(val_of(pre) == val_of(s.subrange(start, i)) * 10 + digit_val(s[i]));
    let rest = s.subrange(i + 1, e);
    assert(run =~= pre + rest);
    lemma_val_of_concat(pre, rest);
    lemma_pow10_pos(rest.len());
    assert(val_of(pre) * pow10(rest.len()) >= val_of(pre)) by (nonlinear_arith)
        requires
            pow10(rest.len()) >= 1,
    ;
    assert(val_of(run) >= val_of(pre));
}

/// Parses a signed decimal run starting at `start`: a minus sign may precede
/// the digits. Succeeds exactly when the digits are canonical and the value
/// fits in an `i64`; a lone zero never carries a sign.
pub fn parse_i64(v: &Vec<char>, start: usize) -> (r: Option<(i64, usize)>)
    requires
        start <= v@.len(),
    ensures
        ({
            let neg = start < v@.len() && v@[start as int] == '-';
            let ms: int = if neg {
                start + 1
            } else {
                start as int
            };
            let e = digit_run_end(v@, ms);
            let run = v@.subrange(ms, e);
            match r {
                Some(p) => p.1 == e && start < e && e <= v@.len() && v@.subrange(
                    start as int,
                    e,
                ) == dec_int(p.0 as int),
                None => e == ms || !canonical_digits(run) || val_of(run) > i64::MAX as nat + (
                if neg {
                    1nat
                } else {
                    0nat
                }) || (neg && val_of(run) == 0),
            }
        }),
{
    let len = v.len();
    let neg = start < len && v[start] == '-';
    let mstart = if neg {
        start + 1
    } else {
        start
    };
    match parse_u64(v, mstart) {
        None => None,
        Some((mag, j)) => {
            let ghost ms = mstart as int;
            let ghost e = digit_run_end(v@, ms);
            proof {
                lemma_digit_run_end_bounds(v@, ms);
                assert(ms < e);
                assert(j == e);
            }
            let ghost run = v@.subrange(ms, e);
            proof {
                assert(run == dec_nat(mag as nat));
                lemma_dec_nat_canonical(mag as nat);
            }
            if neg {
                if mag == 0 {
                    return None;
                }
                if mag > 9223372036854775808 {
                    return None;
                }
                let x: i64 = if mag == 9223372036854775808 {
                    i64::MIN
                } else {
                    -(mag as i64)
                };
                proof {
                    assert(x as int == -(mag as int));
                    assert(v@.subrange(start as int, e) =~= seq!['-'] + run);
                    assert(dec_int(x as int) == seq!['-'] + dec_nat(mag as nat));
                }
                Some((x, j))
            } else {
                if mag > 9223372036854775807 {
                    return None;
                }
                let x: i64 = mag as i64;
                proof {
                    assert(dec_int(x as int) == dec_nat(mag as nat));
                }
                Some((x, j))
            }
        },
    }
}

/// True when the character at `i` is a decimal digit.
fn digit_at(v: &Vec<char>, i: usize) -> (r: bool)
    requires
        i < v@.len(),
    ensures
        r == is_digit(v@[i as int]),
{
    let c = v[i];
    (c as u32) >= 48 && (c as u32) <= 57
}

} // verus!
