//! Byte-level text handling for the model and material formats: line and
//! token splitting, and exact decimal parsing into fixed point.

use vstd::prelude::*;
use vstd::seq_lib::*;
use crate::fixed::SCALE;
use crate::geometry::COORD_LIMIT;

verus! {

/// Splitting a byte sequence on a separator: the maximal separator-free
/// segments, one more segment than separators.
pub open spec fn split_on(s: Seq<u8>, sep: u8) -> Seq<Seq<u8>>
    decreases s.len(),
{
    if s.len() == 0 {
        seq![Seq::<u8>::empty()]
    } else if s[0] == sep {
        seq![Seq::<u8>::empty()] + split_on(s.skip(1), sep)
    } else {
        let r = split_on(s.skip(1), sep);
        seq![seq![s[0]] + r[0]] + r.skip(1)
    }
}

pub proof fn lemma_split_on_nonempty(s: Seq<u8>, sep: u8)
    ensures
        split_on(s, sep).len() >= 1,
    decreases s.len(),
{
    if s.len() > 0 {
        lemma_split_on_nonempty(s.skip(1), sep);
    }
}

/// Splits a byte vector on a separator byte.
pub fn split_bytes(s: &Vec<u8>, sep: u8) -> (r: Vec<Vec<u8>>)
    ensures
        r@.map_values(|v: Vec<u8>| v@) == split_on(s@, sep),
{
    let n: usize = s.len();
    let mut done: Vec<Vec<u8>> = Vec::new();
    let mut cur: Vec<u8> = Vec::new();
    let mut i: usize = 0;
    proof {
        lemma_split_on_nonempty(s@, sep);
        assert(s@.skip(0) =~= s@);
        assert(split_on(s@, sep) =~~= done@.map_values(|v: Vec<u8>| v@) + seq![
            cur@ + split_on(s@.skip(0), sep)[0],
        ] + split_on(s@.skip(0), sep).skip(1));
    }
    while i < n
        invariant
            n == s@.len(),
            0 <= i <= n,
            split_on(s@, sep) =~~= done@.map_values(|v: Vec<u8>| v@) + seq![
                cur@ + split_on(s@.skip(i as int), sep)[0],
            ] + split_on(s@.skip(i as int), sep).skip(1),
        decreases n - i,
    {
        proof {
            lemma_split_on_nonempty(s@.skip(i as int + 1), sep);
            assert(s@.skip(i as int).skip(1) =~= s@.skip(i as int + 1));
            assert(s@.skip(i as int)[0] == s@[i as int]);
        }
        let ghost done0 = done@.map_values(|v: Vec<u8>| v@);
        let ghost cur0 = cur@;
        if s[i] == sep {
            done.push(cur);
            cur = Vec::new();
            proof {
                assert(done@.map_values(|v: Vec<u8>| v@) =~~= done0.push(cur0));
                assert(cur0 + split_on(s@.skip(i as int), sep)[0] =~= cur0);
                assert(split_on(s@, sep) =~~= done@.map_values(|v: Vec<u8>| v@) + seq![
                    cur@ + split_on(s@.skip(i as int + 1), sep)[0],
                ] + split_on(s@.skip(i as int + 1), sep).skip(1));
            }
        } else {
            let b: u8 = s[i];
            cur.push(b);
            proof {
                let rest = split_on(s@.skip(i as int + 1), sep);
                assert(split_on(s@.skip(i as int), sep) =~~= seq![seq![s@[i as int]] + rest[0]]
                    + rest.skip(1));
                assert(cur0 + (seq![s@[i as int]] + rest[0]) =~= cur@ + rest[0]);
                assert(split_on(s@, sep) =~~= done@.map_values(|v: Vec<u8>| v@) + seq![
                    cur@ + rest[0],
                ] + rest.skip(1));
            }
        }
        i = i + 1;
    }
    proof {
        assert(s@.skip(n as int) =~= Seq::<u8>::empty());
        assert(split_on(s@.skip(n as int), sep) =~~= seq![Seq::<u8>::empty()]);
        assert(cur@ + Seq::<u8>::empty() =~= cur@);
    }
    let ghost done0 = done@.map_values(|v: Vec<u8>| v@);
    let ghost cur0 = cur@;
    done.push(cur);
    proof {
        assert(done@.map_values(|v: Vec<u8>| v@) =~~= done0.push(cur0));
        assert(split_on(s@, sep) =~~= done@.map_values(|v: Vec<u8>| v@));
    }
    done
}

/// A line with a trailing carriage return stripped.
pub open spec fn trim_cr(line: Seq<u8>) -> Seq<u8> {
    if line.len() > 0 && line.last() == 13 {
        line.drop_last()
    } else {
        line
    }
}

/// The whitespace-separated tokens of one line (after stripping a
/// trailing carriage return).
pub open spec fn tokens_of(line: Seq<u8>) -> Seq<Seq<u8>> {
    split_on(trim_cr(line), 32).filter(|t: Seq<u8>| t.len() != 0)
}

/// Splits a line into its non-empty tokens.
pub fn tokenize(line: &Vec<u8>) -> (r: Vec<Vec<u8>>)
    ensures
        r@.map_values(|v: Vec<u8>| v@) == tokens_of(line@),
{
    let n: usize = line.len();
    let mut work: Vec<u8> = Vec::new();
    let mut i: usize = 0;
    let end: usize = if n > 0 && line[n - 1] == 13 {
        n - 1
    } else {
        n
    };
    while i < end
        invariant
            end <= line@.len(),
            0 <= i <= end,
            work@ =~= line@.take(end as int).take(i as int),
        decreases end - i,
    {
        work.push(line[i]);
        proof {
            assert(work@ =~= line@.take(end as int).take(i as int + 1));
        }
        i = i + 1;
    }
    proof {
        assert(work@ =~= line@.take(end as int));
        assert(trim_cr(line@) =~= line@.take(end as int));
    }
    let segs: Vec<Vec<u8>> = split_bytes(&work, 32);
    let m: usize = segs.len();
    let mut out: Vec<Vec<u8>> = Vec::new();
    let mut j: usize = 0;
    while j < m
        invariant
            m == segs@.len(),
            0 <= j <= m,
            out@.map_values(|v: Vec<u8>| v@) =~~= segs@.map_values(|v: Vec<u8>| v@).take(
                j as int,
            ).filter(|t: Seq<u8>| t.len() != 0),
        decreases m - j,
    {
        let ghost pred = |t: Seq<u8>| t.len() != 0;
        let ghost mapped = segs@.map_values(|v: Vec<u8>| v@);
        proof {
            assert(mapped.take(j as int + 1).drop_last() =~~= mapped.take(j as int));
            assert(mapped.take(j as int + 1).last() == segs@[j as int]@);
            reveal(Seq::filter);
        }
        let ghost out0 = out@.map_values(|v: Vec<u8>| v@);
        if segs[j].len() > 0 {
            let seg: Vec<u8> = seg_copy(&segs, j);
            out.push(seg);
            proof {
                assert(out@.map_values(|v: Vec<u8>| v@) =~~= out0.push(segs@[j as int]@));
            }
        }
        j = j + 1;
    }
    proof {
        assert(segs@.map_values(|v: Vec<u8>| v@).take(m as int) =~~= split_on(
            trim_cr(line@),
            32,
        ));
    }
    out
}

/// Copies one segment out of a segment list.
fn seg_copy(segs: &Vec<Vec<u8>>, j: usize) -> (r: Vec<u8>)
    requires
        j < segs@.len(),
    ensures
        r@ == segs@[j as int]@,
{
    let src = &segs[j];
    let n: usize = src.len();
    let mut out: Vec<u8> = Vec::new();
    let mut i: usize = 0;
    while i < n
        invariant
            n == src@.len(),
            src@ == segs@[j as int]@,
            0 <= i <= n,
            out@ =~= src@.take(i as int),
        decreases n - i,
    {
        out.push(src[i]);
        proof {
            assert(out@ =~= src@.take(i as int + 1));
        }
        i = i + 1;
    }
    proof {
        assert(out@ =~= src@);
    }
    out
}

/// A copy of the byte range `[from, to)`.
pub fn subvec(t: &Vec<u8>, from: usize, to: usize) -> (r: Vec<u8>)
    requires
        from <= to <= t@.len(),
    ensures
        r@ == t@.subrange(from as int, to as int),
{
    let mut out: Vec<u8> = Vec::new();
    let mut i: usize = from;
    while i < to
        invariant
            from <= i <= to <= t@.len(),
            out@ =~= t@.subrange(from as int, i as int),
        decreases to - i,
    {
        out.push(t[i]);
        proof {
            assert(out@ =~= t@.subrange(from as int, i as int + 1));
        }
        i = i + 1;
    }
    out
}

/// All bytes are ASCII digits (and there is at least one).
pub open spec fn is_digits(t: Seq<u8>) -> bool {
    t.len() >= 1 && forall|i: int| 0 <= i < t.len() ==> 48 <= #[trigger] t[i] <= 57
}

/// The number the digit string denotes, most significant digit first.
pub open spec fn digits_value(t: Seq<u8>) -> int
    decreases t.len(),
{
    if t.len() == 0 {
        0
    } else {
        digits_value(t.drop_last()) * 10 + (t.last() - 48)
    }
}

pub proof fn lemma_digits_value_nonneg(t: Seq<u8>)
    requires
        forall|i: int| 0 <= i < t.len() ==> 48 <= #[trigger] t[i] <= 57,
    ensures
        digits_value(t) >= 0,
    decreases t.len(),
{
    if t.len() > 0 {
        lemma_digits_value_nonneg(t.drop_last());
    }
}

/// A digit string's value never falls below the value of any prefix.
pub proof fn lemma_digits_prefix_monotone(t: Seq<u8>, i: int)
    requires
        forall|k: int| 0 <= k < t.len() ==> 48 <= #[trigger] t[k] <= 57,
        0 <= i <= t.len(),
    ensures
        digits_value(t.take(i)) <= digits_value(t),
    decreases t.len() - i,
{
    if i < t.len() {
        lemma_digits_prefix_monotone(t, i + 1);
        assert(t.take(i + 1).drop_last() =~= t.take(i));
        lemma_digits_value_nonneg(t.take(i));
    } else {
        assert(t.take(i) =~= t);
    }
}

/// Cap up to which digit strings are parsed exactly.
pub const DIGITS_CAP: u64 = 1_000_000_000_000_000;

/// Parses a digit string; `None` when the bytes are not all digits or the
/// value exceeds `DIGITS_CAP`.
pub fn parse_digits(t: &Vec<u8>) -> (r: Option<u64>)
    ensures
        r is Some <==> is_digits(t@) && digits_value(t@) <= DIGITS_CAP,
        r matches Some(v) ==> v == digits_value(t@),
{
    let n: usize = t.len();
    if n == 0 {
        return None;
    }
    let mut acc: u64 = 0;
    let mut i: usize = 0;
    while i < n
        invariant
            n == t@.len(),
            0 <= i <= n,
            forall|k: int| 0 <= k < i ==> 48 <= #[trigger] t@[k] <= 57,
            acc == digits_value(t@.take(i as int)),
            acc <= DIGITS_CAP,
        decreases n - i,
    {
        let b: u8 = t[i];
        if b < 48 || b > 57 {
            return None;
        }
        proof {
            assert(t@.take(i as int + 1).drop_last() =~= t@.take(i as int));
            assert(t@.take(i as int + 1).last() == t@[i as int]);
        }
        let acc2: u64 = acc * 10 + (b - 48) as u64;
        assert(acc2 == digits_value(t@.take(i as int + 1)));
        if acc2 > DIGITS_CAP {
            proof {
                if is_digits(t@) {
                    lemma_digits_prefix_monotone(t@, i as int + 1);
                }
            }
            return None;
        }
        acc = acc2;
        i = i + 1;
    }
    proof {
        assert(t@.take(n as int) =~= t@);
    }
    Some(acc)
}

/// Parses an index token; `None` when malformed or above `u32::MAX`.
pub fn parse_u32(t: &Vec<u8>) -> (r: Option<u32>)
    ensures
        r is Some <==> is_digits(t@) && digits_value(t@) <= u32::MAX,
        r matches Some(v) ==> v == digits_value(t@),
{
    match parse_digits(t) {
        None => {
            proof {
                if is_digits(t@) && digits_value(t@) <= u32::MAX {
                    assert(digits_value(t@) <= DIGITS_CAP);
                }
            }
            None
        },
        Some(v) => {
            if v > 0xFFFF_FFFF {
                None
            } else {
                Some(v as u32)
            }
        },
    }
}


/// Index of the first occurrence of a byte, or -1.
pub open spec fn find_byte(s: Seq<u8>, b: u8) -> int
    decreases s.len(),
{
    if s.len() == 0 {
        -1
    } else if s[0] == b {
        0
    } else {
        let r = find_byte(s.skip(1), b);
        if r < 0 {
            -1
        } else {
            r + 1
        }
    }
}

pub proof fn lemma_find_byte_at(s: Seq<u8>, b: u8, j: int)
    requires
        0 <= j < s.len(),
        s[j] == b,
        forall|k: int| 0 <= k < j ==> s[k] != b,
    ensures
        find_byte(s, b) == j,
    decreases j,
{
    if j > 0 {
        assert(forall|k: int| 0 <= k < j - 1 ==> s.skip(1)[k] != b);
        assert(s.skip(1)[j - 1] == b);
        lemma_find_byte_at(s.skip(1), b, j - 1);
    }
}

pub proof fn lemma_find_byte_none(s: Seq<u8>, b: u8)
    requires
        forall|k: int| 0 <= k < s.len() ==> s[k] != b,
    ensures
        find_byte(s, b) == -1,
    decreases s.len(),
{
    if s.len() > 0 {
        assert(forall|k: int| 0 <= k < s.len() - 1 ==> s.skip(1)[k] != b);
        lemma_find_byte_none(s.skip(1), b);
    }
}

/// Powers of ten.
pub open spec fn pow10(k: int) -> int
    decreases k,
{
    if k <= 0 {
        1
    } else {
        10 * pow10(k - 1)
    }
}

/// A digit string's value stays below the power of ten of its length.
pub proof fn lemma_digits_value_bound(t: Seq<u8>)
    requires
        forall|i: int| 0 <= i < t.len() ==> 48 <= #[trigger] t[i] <= 57,
    ensures
        digits_value(t) < pow10(t.len() as int),
    decreases t.len(),
{
    if t.len() > 0 {
        lemma_digits_value_bound(t.drop_last());
    }
}

/// The microsteps a fraction's first six digits denote: shorter fractions
/// are padded with zeros, longer ones truncated.
pub open spec fn frac_micros(f: Seq<u8>) -> int {
    if f.len() >= 6 {
        digits_value(f.take(6))
    } else {
        digits_value(f) * pow10(6 - f.len())
    }
}

/// Shape of a fixed-point literal: an optional minus sign, then decimal
/// digits, then optionally a dot and more digits.
pub open spec fn is_fixed(t: Seq<u8>) -> bool {
    let b = if t.len() > 0 && t[0] == 45 {
        t.skip(1)
    } else {
        t
    };
    let d = find_byte(b, 46);
    if d < 0 {
        is_digits(b)
    } else {
        is_digits(b.take(d)) && is_digits(b.skip(d + 1))
    }
}

/// The value of a fixed-point literal, in millionths, truncated toward
/// zero after the sixth fractional digit.
pub open spec fn fixed_value(t: Seq<u8>) -> int
    recommends
        is_fixed(t),
{
    let sign: int = if t.len() > 0 && t[0] == 45 {
        -1
    } else {
        1
    };
    let b = if t.len() > 0 && t[0] == 45 {
        t.skip(1)
    } else {
        t
    };
    let d = find_byte(b, 46);
    if d < 0 {
        sign * (digits_value(b) * SCALE)
    } else {
        sign * (digits_value(b.take(d)) * SCALE + frac_micros(b.skip(d + 1)))
    }
}

/// The microsteps of a fraction part; `None` when it is not all digits.
fn parse_frac(f: &Vec<u8>) -> (r: Option<u64>)
    ensures
        r is Some <==> is_digits(f@),
        r matches Some(v) ==> v == frac_micros(f@) && v <= 999_999,
{
    let n: usize = f.len();
    if n == 0 {
        return None;
    }
    let mut i: usize = 0;
    while i < n
        invariant
            n == f@.len(),
            0 <= i <= n,
            forall|k: int| 0 <= k < i ==> 48 <= #[trigger] f@[k] <= 57,
        decreases n - i,
    {
        let b: u8 = f[i];
        if b < 48 || b > 57 {
            return None;
        }
        i = i + 1;
    }
    proof {
        assert(pow10(0) == 1);
        assert(pow10(1) == 10);
        assert(pow10(2) == 100);
        assert(pow10(3) == 1000);
        assert(pow10(4) == 10000);
        assert(pow10(5) == 100000);
        assert(pow10(6) == 1000000);
    }
    let k: usize = if n >= 6 {
        6
    } else {
        n
    };
    let head: Vec<u8> = subvec(f, 0, k);
    proof {
        assert(forall|j: int| 0 <= j < head@.len() ==> 48 <= #[trigger] head@[j] <= 57);
        lemma_digits_value_bound(head@);
    }
    let hv: u64 = match parse_digits(&head) {
        Some(v) => v,
        None => {
            proof {
                assert(false);
            }
            0
        },
    };
    if n >= 6 {
        proof {
            assert(head@ =~= f@.take(6));
        }
        Some(hv)
    } else {
        proof {
            assert(head@ =~= f@);
        }
        let pad: usize = 6 - n;
        let v: u64 = if pad == 1 {
            hv * 10
        } else if pad == 2 {
            hv * 100
        } else if pad == 3 {
            hv * 1000
        } else if pad == 4 {
            hv * 10000
        } else {
            hv * 100000
        };
        Some(v)
    }
}

/// Parses a fixed-point literal into millionths; `None` when the token is
/// malformed or the value lies outside `[-COORD_LIMIT, COORD_LIMIT]`.
pub fn parse_fixed(t: &Vec<u8>) -> (r: Option<i64>)
    ensures
        r is Some <==> is_fixed(t@) && -COORD_LIMIT <= fixed_value(t@) <= COORD_LIMIT,
        r matches Some(v) ==> v == fixed_value(t@),
{
    let n: usize = t.len();
    let neg: bool = n > 0 && t[0] == 45;
    let start: usize = if neg {
        1
    } else {
        0
    };
    let ghost body = if t@.len() > 0 && t@[0] == 45 {
        t@.skip(1)
    } else {
        t@
    };
    proof {
        assert(body =~= t@.subrange(start as int, n as int));
    }

    let mut i: usize = start;
    while i < n && t[i] != 46
        invariant
            start <= i <= n,
            n == t@.len(),
            forall|k: int| start <= k < i ==> t@[k] != 46,
        decreases n - i,
    {
        i = i + 1;
    }
    let dot: Option<usize> = if i < n {
        Some(i)
    } else {
        None
    };
    proof {
        match dot {
            Some(p) => {
                assert(t@[p as int] == 46);
                assert(forall|k: int| 0 <= k < p - start ==> body[k] != 46);
                assert(body[p - start as int] == 46);
                lemma_find_byte_at(body, 46, p - start as int);
            },
            None => {
                assert(forall|k: int| 0 <= k < body.len() ==> body[k] != 46);
                lemma_find_byte_none(body, 46);
            },
        }
    }

    let int_to: usize = match dot {
        Some(p) => p,
        None => n,
    };
    let int_part: Vec<u8> = subvec(t, start, int_to);
    proof {
        let d = find_byte(body, 46);
        if d < 0 {
            assert(int_part@ =~= body);
        } else {
            assert(int_part@ =~= body.take(d));
        }
    }
    let iv: u64 = match parse_digits(&int_part) {
        Some(v) => v,
        None => {
            proof {
                if is_fixed(t@) {
                    assert(is_digits(int_part@));
                    assert(digits_value(int_part@) > DIGITS_CAP);
                    lemma_fixed_value_large(t@, body, int_part@);
                }
            }
            return None;
        },
    };
    if iv > 20_000 {
        proof {
            if is_fixed(t@) {
                lemma_fixed_value_large(t@, body, int_part@);
            }
        }
        return None;
    }
    let mut micros: u64 = iv * 1_000_000;
    match dot {
        Some(p) => {
            let frac_part: Vec<u8> = subvec(t, p + 1, n);
            proof {
                let d = find_byte(body, 46);
                assert(frac_part@ =~= body.skip(d + 1));
            }
            match parse_frac(&frac_part) {
                Some(fm) => {
                    micros = micros + fm;
                },
                None => {
                    return None;
                },
            }
        },
        None => {},
    }
    proof {
        lemma_fixed_value_shape(t@, body);
        assert(SCALE == 1_000_000);
        let d = find_byte(body, 46);
        if d < 0 {
            assert(micros == digits_value(body) * SCALE);
        } else {
            assert(micros == digits_value(body.take(d)) * SCALE + frac_micros(body.skip(d + 1)));
        }
        if neg {
            assert(fixed_value(t@) == -1 * (micros as int));
        } else {
            assert(fixed_value(t@) == 1 * (micros as int));
        }
        assert(is_fixed(t@));
    }
    if micros > COORD_LIMIT as u64 {
        return None;
    }
    let v: i64 = micros as i64;
    proof {
        assert(is_fixed(t@));
        if neg {
            assert(fixed_value(t@) == -1 * (micros as int));
        } else {
            assert(fixed_value(t@) == 1 * (micros as int));
        }
        assert(-COORD_LIMIT <= fixed_value(t@) <= COORD_LIMIT);
    }
    if neg {
        Some(-v)
    } else {
        Some(v)
    }
}

/// When the integer digits alone exceed the coordinate range, so does the
/// whole literal.
proof fn lemma_fixed_value_large(t: Seq<u8>, body: Seq<u8>, int_digits: Seq<u8>)
    requires
        is_fixed(t),
        body == (if t.len() > 0 && t[0] == 45 {
            t.skip(1)
        } else {
            t
        }),
        int_digits == (if find_byte(body, 46) < 0 {
            body
        } else {
            body.take(find_byte(body, 46))
        }),
        digits_value(int_digits) > 20_000,
    ensures
        fixed_value(t) > COORD_LIMIT || fixed_value(t) < -COORD_LIMIT,
{
    let d = find_byte(body, 46);
    let dv = digits_value(int_digits);
    assert(SCALE == 1_000_000);
    assert(dv * 1_000_000 > 20_000_000_000) by (nonlinear_arith)
        requires
            dv > 20_000,
    ;
    assert(dv * SCALE == dv * 1_000_000);
    if d >= 0 {
        let f = body.skip(d + 1);
        if f.len() >= 6 {
            assert(forall|k: int| 0 <= k < f.take(6).len() ==> 48 <= #[trigger] f.take(6)[k]
                <= 57);
            lemma_digits_value_nonneg(f.take(6));
        } else {
            lemma_digits_value_nonneg(f);
            lemma_pow10_pos(6 - f.len());
            lemma_mul_nonneg_frac(digits_value(f), pow10(6 - f.len()));
        }
        assert(frac_micros(f) >= 0);
    }
    let mag: int = if d >= 0 {
        dv * SCALE + frac_micros(body.skip(d + 1))
    } else {
        dv * SCALE
    };
    assert(mag > COORD_LIMIT);
    if t.len() > 0 && t[0] == 45 {
        assert(fixed_value(t) == -1 * mag);
    } else {
        assert(fixed_value(t) == 1 * mag);
    }
}

proof fn lemma_pow10_pos(k: int)
    ensures
        pow10(k) >= 1,
    decreases k,
{
    if k > 0 {
        lemma_pow10_pos(k - 1);
    }
}

proof fn lemma_mul_nonneg_frac(a: int, b: int) by (nonlinear_arith)
    requires
        a >= 0,
        b >= 0,
    ensures
        a * b >= 0,
{
}

/// Unfolds the value of a well-shaped literal into sign and magnitude.
proof fn lemma_fixed_value_shape(t: Seq<u8>, body: Seq<u8>)
    requires
        body == (if t.len() > 0 && t[0] == 45 {
            t.skip(1)
        } else {
            t
        }),
    ensures
        ({
            let sign: int = if t.len() > 0 && t[0] == 45 {
                -1
            } else {
                1
            };
            let d = find_byte(body, 46);
            fixed_value(t) == if d < 0 {
                sign * (digits_value(body) * SCALE)
            } else {
                sign * (digits_value(body.take(d)) * SCALE + frac_micros(body.skip(d + 1)))
            }
        }),
{
}

} // verus!
