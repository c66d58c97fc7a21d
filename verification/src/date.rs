use vstd::prelude::*;
use crate::text::{
    all_digits, dec_digits, digits_val, is_digit, lemma_digits_val_prefix_le, push_char,
    append_u64, str_chars,
};

verus! {

/// Serial day counts are only decoded below this bound; larger or negative
/// counts (and unparseable text) leave the source text unchanged.
pub const SERIAL_LIMIT: u64 = 1000000000000000;

/// Index of the first decimal point in `s`, or `s.len()` if there is none.
pub open spec fn dot_pos(s: Seq<char>) -> int
    decreases s.len(),
{
    if s.len() == 0 {
        0
    } else if s[0] == '.' {
        0
    } else {
        1 + dot_pos(s.drop_first())
    }
}

pub open spec fn all_zeros(s: Seq<char>) -> bool {
    forall|i: int| 0 <= i < s.len() ==> #[trigger] s[i] == '0'
}

/// What a serial day-count text denotes: an optional leading `+`, decimal
/// digits, and an optional decimal point with more digits. The result is the
/// integer part and whether a non-zero fractional part follows. Text of any
/// other shape, or with an integer part of at least `SERIAL_LIMIT`, denotes
/// nothing.
pub open spec fn serial_of(s: Seq<char>) -> Option<(u64, bool)> {
    let b = if s.len() > 0 && s[0] == '+' {
        s.subrange(1, s.len() as int)
    } else {
        s
    };
    let dp = dot_pos(b);
    let ip = b.subrange(0, dp);
    let fp = if dp < b.len() {
        b.subrange(dp + 1, b.len() as int)
    } else {
        Seq::empty()
    };
    if ip.len() + fp.len() == 0 || !all_digits(ip) || !all_digits(fp) {
        None
    } else if digits_val(ip) >= SERIAL_LIMIT {
        None
    } else {
        Some((digits_val(ip) as u64, !all_zeros(fp)))
    }
}

proof fn lemma_dot_pos_bounds(b: Seq<char>)
    ensures
        0 <= dot_pos(b) <= b.len(),
    decreases b.len(),
{
    if b.len() > 0 && b[0] != '.' {
        lemma_dot_pos_bounds(b.drop_first());
    }
}

proof fn lemma_dot_pos_ge(b: Seq<char>, q: int)
    requires
        0 <= q <= b.len(),
        forall|k: int| 0 <= k < q ==> #[trigger] b[k] != '.',
    ensures
        dot_pos(b) >= q,
    decreases q,
{
    lemma_dot_pos_bounds(b);
    if q > 0 {
        assert(b[0] != '.');
        assert(forall|k: int| 0 <= k < q - 1 ==> #[trigger] b.drop_first()[k] != '.');
        lemma_dot_pos_ge(b.drop_first(), q - 1);
    }
}

proof fn lemma_dot_pos_is(b: Seq<char>, p: int)
    requires
        0 <= p <= b.len(),
        forall|k: int| 0 <= k < p ==> #[trigger] b[k] != '.',
        p < b.len() ==> b[p] == '.',
    ensures
        dot_pos(b) == p,
    decreases b.len(),
{
    if b.len() == 0 {
    } else if b[0] == '.' {
        assert(p == 0);
    } else {
        assert(p >= 1);
        assert(forall|k: int| 0 <= k < p - 1 ==> #[trigger] b.drop_first()[k] != '.');
        lemma_dot_pos_is(b.drop_first(), p - 1);
    }
}

/// Parse a serial day-count text, per `serial_of`.
fn parse_serial(v: &Vec<char>) -> (r: Option<(u64, bool)>)
    ensures
        r == serial_of(v@),
{
    let ghost b: Seq<char> = if v@.len() > 0 && v@[0] == '+' {
        v@.subrange(1, v@.len() as int)
    } else {
        v@
    };
    let n: usize = v.len();
    let start: usize = if n > 0 && v[0] == '+' {
        1
    } else {
        0
    };
    let mut acc: u64 = 0;
    let mut i: usize = start;
    while i < n && v[i] != '.'
        invariant
            start <= i <= n,
            start <= 1,
            n == v@.len(),
            start == 1 <==> v@.len() > 0 && v@[0] == '+',
            b == v@.subrange(start as int, v@.len() as int),
            forall|k: int| 0 <= k < i - start ==> #[trigger] b[k] != '.',
            all_digits(b.subrange(0, i - start)),
            acc == digits_val(b.subrange(0, i - start)),
            acc < SERIAL_LIMIT,
        decreases n - i,
    {
        let c = v[i];
        proof {
            assert(b[i - start] == c);
        }
        if !('0' <= c && c <= '9') {
            proof {
                lemma_dot_pos_bounds(b);
                lemma_dot_pos_ge(b, i + 1 - start);
                assert(v@.subrange(0, v@.len() as int) =~= v@);
                assert(b.subrange(0, dot_pos(b))[i - start] == c);
                assert(!is_digit(b.subrange(0, dot_pos(b))[i - start]));
                assert(!all_digits(b.subrange(0, dot_pos(b))));
            }
            return None;
        }
        let d: u64 = (c as u64) - 48;
        proof {
            lemma_dot_pos_bounds(b);
            lemma_dot_pos_ge(b, i + 1 - start);
            assert(v@.subrange(0, v@.len() as int) =~= v@);
            let p = b.subrange(0, i + 1 - start);
            assert(p.drop_last() =~= b.subrange(0, i - start));
            assert(p.last() == c);
            assert(digits_val(p) == acc * 10 + d);
            vstd::arithmetic::div_mod::lemma_fundamental_div_mod(
                (SERIAL_LIMIT - 1 - d) as int,
                10,
            );
            vstd::arithmetic::div_mod::lemma_mod_bound((SERIAL_LIMIT - 1 - d) as int, 10);
        }
        if acc > (SERIAL_LIMIT - 1 - d) / 10 {
            proof {
                assert(acc * 10 + d >= SERIAL_LIMIT);
                lemma_digits_val_prefix_le(b.subrange(0, dot_pos(b)), i + 1 - start);
                assert(b.subrange(0, dot_pos(b)).subrange(0, i + 1 - start) =~= b.subrange(
                    0,
                    i + 1 - start,
                ));
                assert(digits_val(b.subrange(0, dot_pos(b))) >= SERIAL_LIMIT);
            }
            return None;
        }
        acc = acc * 10 + d;
        i += 1;
    }
    proof {
        assert(v@.subrange(0, v@.len() as int) =~= v@);
        if i < n {
            assert(b[i - start] == '.');
            lemma_dot_pos_is(b, i - start);
        } else {
            lemma_dot_pos_is(b, i - start);
        }
        assert(b.subrange(0, dot_pos(b)) =~= b.subrange(0, i - start));
    }
    let ip_len: usize = i - start;
    if i == n {
        proof {
            assert(dot_pos(b) == b.len());
        }
        if ip_len == 0 {
            return None;
        }
        proof {
            assert(serial_of(v@) == Some((acc, false)));
        }
        return Some((acc, false));
    }
    let mut frac_nonzero = false;
    let mut j: usize = i + 1;
    let ghost fp: Seq<char> = b.subrange(dot_pos(b) + 1, b.len() as int);
    while j < n
        invariant
            i + 1 <= j <= n,
            n == v@.len(),
            start <= 1,
            start <= i < n,
            start == 1 <==> v@.len() > 0 && v@[0] == '+',
            b == v@.subrange(start as int, v@.len() as int),
            dot_pos(b) == i - start,
            fp == b.subrange(i - start + 1, b.len() as int),
            all_digits(fp.subrange(0, j - i - 1)),
            frac_nonzero == !all_zeros(fp.subrange(0, j - i - 1)),
        decreases n - j,
    {
        let c = v[j];
        proof {
            assert(fp[j - i - 1] == c);
        }
        if !('0' <= c && c <= '9') {
            proof {
                assert(v@.subrange(0, v@.len() as int) =~= v@);
                assert(!is_digit(fp[j - i - 1]));
                assert(!all_digits(fp));
            }
            return None;
        }
        proof {
            let q = fp.subrange(0, j - i - 1);
            let p = fp.subrange(0, j - i);
            assert(p.drop_last() =~= q);
            assert(p.last() == c);
            assert(p[p.len() - 1] == c);
            assert(forall|k: int| 0 <= k < q.len() ==> q[k] == #[trigger] p[k]);
            assert(all_digits(p));
            assert(c != '0' ==> !all_zeros(p));
            if c == '0' && all_zeros(q) {
                assert(forall|k: int| 0 <= k < p.len() ==> #[trigger] p[k] == '0');
            }
            if !all_zeros(q) {
                let w = choose|k: int| 0 <= k < q.len() && q[k] != '0';
                assert(p[w] != '0');
                assert(!all_zeros(p));
            }
        }
        if c != '0' {
            frac_nonzero = true;
        }
        j += 1;
    }
    proof {
        assert(v@.subrange(0, v@.len() as int) =~= v@);
        assert(fp.subrange(0, j - i - 1) =~= fp);
    }
    if ip_len == 0 && n == i + 1 {
        proof {
            assert(fp.len() == 0);
        }
        return None;
    }
    proof {
        assert(b.subrange(0, dot_pos(b)).len() + fp.len() > 0);
        assert(serial_of(v@) == Some((acc, frac_nonzero)));
    }
    Some((acc, frac_nonzero))
}

/// One step of the fixed julian-day formula: the year, month and day reached
/// from a day count, using the exact integer divisions the format requires.
pub open spec fn julian_ymd(days: int) -> (int, int, int) {
    let l0 = days + 68569 + 2415019;
    let n = (4 * l0) / 146097;
    let l1 = l0 - (146097 * n + 3) / 4;
    let i = (4000 * (l1 + 1)) / 1461001;
    let l2 = l1 - (1461 * i) / 4 + 31;
    let j = (80 * l2) / 2447;
    let d = l2 - (2447 * j) / 80;
    let j2 = j / 11;
    let m = j + 2 - 12 * j2;
    let y = 100 * (n - 49) + i + j2;
    (y, m, d)
}

/// A month or day number, zero-padded to two digits.
pub open spec fn pad2(n: nat) -> Seq<char> {
    if n < 10 {
        seq!['0'] + dec_digits(n)
    } else {
        dec_digits(n)
    }
}

/// A calendar date formatted as YYYY-MM-DD.
pub open spec fn date_string(y: nat, m: nat, d: nat) -> Seq<char> {
    dec_digits(y) + seq!['-'] + pad2(m) + seq!['-'] + pad2(d)
}

/// What date decoding yields: unparseable or out-of-range text is kept as it
/// is; a count of exactly 60 gives the fictitious 1900-02-29 kept by the
/// format's epoch; counts below 60 are first corrected by one day; all other
/// counts go through the julian-day formula.
pub open spec fn excel_date_spec(s: Seq<char>, off: Option<u64>) -> Seq<char> {
    match serial_of(s) {
        None => s,
        Some((t, frac)) => {
            let t2 = t + (match off {
                Some(o) => o as int,
                None => 0,
            });
            if t2 >= SERIAL_LIMIT {
                s
            } else if t2 == 60 && !frac {
                date_string(1900, 2, 29)
            } else {
                let dd = if t2 < 60 {
                    t2 + 1
                } else {
                    t2
                };
                let (y, m, d) = julian_ymd(dd);
                date_string(y as nat, m as nat, d as nat)
            }
        },
    }
}

pub fn append_pad2(out: &mut String, n: u64)
    ensures
        final(out)@ == old(out)@ + pad2(n as nat),
{
    if n < 10 {
        push_char(out, '0');
    }
    append_u64(out, n);
    proof {
        if n < 10 {
            assert(old(out)@ + seq!['0'] + dec_digits(n as nat) =~= old(out)@ + pad2(n as nat));
        }
    }
}

fn days_to_date(days: u64) -> (r: String)
    requires
        1 <= days <= SERIAL_LIMIT,
    ensures
        r@ == ({
            let (y, m, d) = julian_ymd(days as int);
            date_string(y as nat, m as nat, d as nat)
        }),
{
    let l0: u64 = days + 68569 + 2415019;
    let n: u64 = (4 * l0) / 146097;
    proof {
        vstd::arithmetic::div_mod::lemma_fundamental_div_mod(4 * (l0 as int), 146097);
        vstd::arithmetic::div_mod::lemma_mod_bound(4 * (l0 as int), 146097);
        assert(67 <= n);
    }
    let q1: u64 = (146097 * n + 3) / 4;
    proof {
        vstd::arithmetic::div_mod::lemma_fundamental_div_mod(146097 * (n as int) + 3, 4);
        vstd::arithmetic::div_mod::lemma_mod_bound(146097 * (n as int) + 3, 4);
        assert(q1 <= l0 && l0 - q1 <= 36524);
    }
    let l1: u64 = l0 - q1;
    let i: u64 = (4000 * (l1 + 1)) / 1461001;
    proof {
        vstd::arithmetic::div_mod::lemma_fundamental_div_mod(4000 * (l1 as int + 1), 1461001);
        vstd::arithmetic::div_mod::lemma_mod_bound(4000 * (l1 as int + 1), 1461001);
        assert(i <= 99);
        assert(1461001 * (i as int) == 4000 * (l1 as int + 1) - (4000 * (l1 as int + 1)) % 1461001);
        assert(1461 * (1461001 * (i as int)) == 1461001 * (1461 * (i as int)));
    }
    let q3: u64 = (1461 * i) / 4;
    proof {
        vstd::arithmetic::div_mod::lemma_fundamental_div_mod(1461 * (i as int), 4);
        vstd::arithmetic::div_mod::lemma_mod_bound(1461 * (i as int), 4);
        // 1461001 * (1461 i) <= 1461 * (4000 l1 + 4000) < 1461001 * (4 l1 + 4), so 1461 i <= 4 l1 + 3
        assert(1461 * (i as int) <= 4 * (l1 as int) + 3) by {
            if 1461 * (i as int) >= 4 * (l1 as int) + 4 {
                assert(1461001 * (1461 * (i as int)) >= 1461001 * (4 * (l1 as int) + 4));
                assert(1461 * (1461001 * (i as int)) <= 1461 * (4000 * (l1 as int + 1)));
                assert(false);
            }
        }
        // 1461001 * (1461 i) >= 1461 * (4000 l1 - 1457000), so 1461 i >= 4 l1 - 1465
        assert(1461 * (i as int) >= 4 * (l1 as int) - 1465) by {
            if 1461 * (i as int) <= 4 * (l1 as int) - 1466 {
                assert(1461001 * (1461 * (i as int)) <= 1461001 * (4 * (l1 as int) - 1466));
                assert(1461 * (1461001 * (i as int)) >= 1461 * (4000 * (l1 as int + 1) - 1461000));
                assert(false);
            }
        }
        assert(q3 <= l1);
        assert(l1 - q3 <= 367);
    }
    let l2: u64 = l1 - q3 + 31;
    let j: u64 = (80 * l2) / 2447;
    proof {
        vstd::arithmetic::div_mod::lemma_fundamental_div_mod(80 * (l2 as int), 2447);
        vstd::arithmetic::div_mod::lemma_mod_bound(80 * (l2 as int), 2447);
        assert(j <= 13);
    }
    let q4: u64 = (2447 * j) / 80;
    proof {
        vstd::arithmetic::div_mod::lemma_fundamental_div_mod(2447 * (j as int), 80);
        vstd::arithmetic::div_mod::lemma_mod_bound(2447 * (j as int), 80);
        assert(q4 <= l2);
    }
    let d: u64 = l2 - q4;
    let j2: u64 = j / 11;
    let m: u64 = j + 2 - 12 * j2;
    let y: u64 = 100 * (n - 49) + i + j2;
    proof {
        let (sy, sm, sd) = julian_ymd(days as int);
        assert(sy == y as int && sm == m as int && sd == d as int);
    }
    let mut out = String::new();
    append_u64(&mut out, y);
    push_char(&mut out, '-');
    append_pad2(&mut out, m);
    push_char(&mut out, '-');
    append_pad2(&mut out, d);
    proof {
        assert(out@ =~= date_string(y as nat, m as nat, d as nat));
    }
    out
}

/// Decode a serial day count into a YYYY-MM-DD date, keeping the format's
/// historical defects: day 60 maps to the fictitious 1900-02-29, and days
/// below 60 are shifted up by one. Text that does not parse as a day count in
/// the supported range comes back unchanged.
pub fn excel_date(src: &str, days_offset: Option<u64>) -> (r: String)
    ensures
        r@ == excel_date_spec(src@, days_offset),
{
    let chars = str_chars(src);
    let parsed = parse_serial(&chars);
    match parsed {
        None => src.to_owned(),
        Some((t, frac)) => {
            let off: u64 = match days_offset {
                Some(o) => o,
                None => 0,
            };
            if off >= SERIAL_LIMIT {
                return src.to_owned();
            }
            let t2: u64 = t + off;
            if t2 >= SERIAL_LIMIT {
                return src.to_owned();
            }
            if t2 == 60 && !frac {
                let mut out = String::new();
                append_u64(&mut out, 1900);
                push_char(&mut out, '-');
                append_pad2(&mut out, 2);
                push_char(&mut out, '-');
                append_pad2(&mut out, 29);
                proof {
                    assert(out@ =~= date_string(1900, 2, 29));
                }
                out
            } else {
                let dd: u64 = if t2 < 60 {
                    t2 + 1
                } else {
                    t2
                };
                days_to_date(dd)
            }
        },
    }
}

} // verus!
