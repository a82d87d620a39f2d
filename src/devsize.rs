//! Reading the device size from the size query's textual output: the fifth
//! whitespace-separated field of its first line, a decimal number of bytes.
use vstd::prelude::*;
use crate::error::StoreError;

verus! {

/// The byte that ends a line.
pub const NEWLINE: u8 = 10;

/// `c` is ASCII whitespace: space, tab, line feed, vertical tab, form feed
/// or carriage return.
pub open spec fn is_ws(c: u8) -> bool {
    c == 32 || c == 9 || c == 10 || c == 11 || c == 12 || c == 13
}

/// A field (a maximal run of bytes that are not whitespace) starts at `p`.
pub open spec fn starts_run(s: Seq<u8>, p: int) -> bool {
    0 <= p < s.len() && !is_ws(s[p]) && (p == 0 || is_ws(s[p - 1]))
}

/// Number of fields that start in `s`.
pub open spec fn runs(s: Seq<u8>) -> nat
    decreases s.len(),
{
    if s.len() == 0 {
        0
    } else {
        runs(s.drop_last()) + if starts_run(s, s.len() - 1) { 1nat } else { 0nat }
    }
}

/// `[i, j)` is field number `k` (counted from 0) of the first line of `s`:
/// `k` fields start before it, it is a maximal run of bytes that are not
/// whitespace, and no line ends before it does.
pub open spec fn is_field(s: Seq<u8>, k: nat, i: int, j: int) -> bool {
    &&& 0 <= i < j <= s.len()
    &&& runs(s.take(i)) == k
    &&& starts_run(s, i)
    &&& forall|m: int| i <= m < j ==> !is_ws(#[trigger] s[m])
    &&& (j == s.len() || is_ws(s[j]))
    &&& forall|m: int| 0 <= m < j ==> #[trigger] s[m] != NEWLINE
}

/// `f` is a non-empty run of ASCII digits.
pub open spec fn is_digits(f: Seq<u8>) -> bool {
    f.len() > 0 && forall|m: int| 0 <= m < f.len() ==> 48 <= #[trigger] f[m] <= 57
}

/// The decimal value of the digits `f`.
pub open spec fn dec_value(f: Seq<u8>) -> nat
    decreases f.len(),
{
    if f.len() == 0 {
        0
    } else {
        dec_value(f.drop_last()) * 10 + (f.last() - 48) as nat
    }
}

/// `f` holds the decimal form of a 64-bit unsigned value.
pub open spec fn is_u64_text(f: Seq<u8>) -> bool {
    is_digits(f) && dec_value(f) <= u64::MAX
}

proof fn lemma_runs_step(s: Seq<u8>, b: int)
    requires
        0 < b <= s.len(),
    ensures
        runs(s.take(b)) == runs(s.take(b - 1)) + if starts_run(s, b - 1) { 1nat } else { 0nat },
{
    assert(s.take(b).drop_last() =~= s.take(b - 1));
    assert(starts_run(s.take(b), b - 1) == starts_run(s, b - 1));
}

proof fn lemma_runs_mono(s: Seq<u8>, a: int, b: int)
    requires
        0 <= a <= b <= s.len(),
    ensures
        runs(s.take(a)) <= runs(s.take(b)),
    decreases b - a,
{
    if a < b {
        lemma_runs_mono(s, a, b - 1);
        lemma_runs_step(s, b);
    }
}

/// A field that starts at `q`, within `[a, b)`, is counted in `s.take(b)`
/// and not in `s.take(a)`.
proof fn lemma_runs_strict(s: Seq<u8>, a: int, q: int, b: int)
    requires
        0 <= a <= q < b <= s.len(),
        starts_run(s, q),
    ensures
        runs(s.take(a)) < runs(s.take(b)),
{
    lemma_runs_mono(s, a, q);
    lemma_runs_step(s, q + 1);
    lemma_runs_mono(s, q + 1, b);
}

/// A field is determined by its number: no two distinct ranges are both
/// field `k` of the first line of `s`.
pub proof fn lemma_field_unique(s: Seq<u8>, k: nat, i1: int, j1: int, i2: int, j2: int)
    requires
        is_field(s, k, i1, j1),
        is_field(s, k, i2, j2),
    ensures
        i1 == i2 && j1 == j2,
{
    lemma_field_unique_start(s, k, i1, i2, j2);
    if j1 < j2 {
        assert(!is_ws(s[j1]));
    } else if j2 < j1 {
        assert(!is_ws(s[j2]));
    }
}

fn ws_byte(c: u8) -> (r: bool)
    ensures
        r == is_ws(c),
{
    c == 32 || c == 9 || c == 10 || c == 11 || c == 12 || c == 13
}

fn run_start(s: &[u8], p: usize) -> (r: bool)
    requires
        p < s@.len(),
    ensures
        r == starts_run(s@, p as int),
{
    !ws_byte(s[p]) && (p == 0 || ws_byte(s[p - 1]))
}

proof fn lemma_dec_mono(f: Seq<u8>, a: int, b: int)
    requires
        0 <= a <= b <= f.len(),
        forall|m: int| 0 <= m < f.len() ==> 48 <= #[trigger] f[m] <= 57,
    ensures
        dec_value(f.take(a)) <= dec_value(f.take(b)),
    decreases b - a,
{
    if a < b {
        lemma_dec_mono(f, a, b - 1);
        assert(f.take(b).drop_last() =~= f.take(b - 1));
        assert(f.take(b).last() == f[b - 1]);
    }
}

/// Field number `k` of the first line of `s` as a 64-bit unsigned value:
/// fails where that line has no such field, or where the field is not the
/// decimal form of such a value.
pub fn parse_field_u64(s: &[u8], k: u64) -> (r: Option<u64>)
    ensures
        r matches Some(v) ==> exists|i: int, j: int| #[trigger] is_field(s@, k as nat, i, j)
            && is_u64_text(s@.subrange(i, j)) && v == dec_value(s@.subrange(i, j)),
        r is None <==> !(exists|i: int, j: int| #[trigger] is_field(s@, k as nat, i, j)
            && is_u64_text(s@.subrange(i, j))),
{
    let n = s.len();
    let mut p: usize = 0;
    let mut cnt: u64 = 0;
    while p < n && s[p] != NEWLINE && !(cnt == k && run_start(s, p))
        invariant
            p <= n == s@.len(),
            cnt <= k,
            cnt == runs(s@.take(p as int)),
            forall|m: int| 0 <= m < p ==> #[trigger] s@[m] != NEWLINE,
        decreases n - p,
    {
        if run_start(s, p) {
            cnt += 1;
        }
        p += 1;
        proof { lemma_runs_step(s@, p as int); }
    }
    let ghost gk = k as nat;
    if p == n || s[p] == NEWLINE {
        proof {
            assert forall|a: int, b: int| #[trigger] is_field(s@, k as nat, a, b) implies !is_u64_text(s@.subrange(a, b)) by {
                if a < p {
                    lemma_runs_strict(s@, a, a, p as int);
                    lemma_runs_step(s@, a + 1);
                    lemma_runs_mono(s@, a + 1, p as int);
                } else if p < n {
                    assert(s@[p as int] != NEWLINE);
                }
            };
        }
        return None;
    }
    let start = p;
    let mut v: u64 = 0;
    let mut j: usize = start;
    while j < n && !ws_byte(s[j])
        invariant
            start <= j <= n == s@.len(),
            gk == k as nat,
            runs(s@.take(start as int)) == gk,
            starts_run(s@, start as int),
            forall|m: int| 0 <= m < start ==> #[trigger] s@[m] != NEWLINE,
            forall|m: int| start <= m < j ==> !is_ws(#[trigger] s@[m]),
            forall|m: int| start <= m < j ==> 48 <= #[trigger] s@[m] <= 57,
            v == dec_value(s@.subrange(start as int, j as int)),
        decreases n - j,
    {
        let c = s[j];
        assert(s@.subrange(start as int, j + 1).drop_last() =~= s@.subrange(start as int, j as int));
        if c < 48 || c > 57 {
            proof {
                assert forall|a: int, b: int| #[trigger] is_field(s@, k as nat, a, b) implies !is_u64_text(s@.subrange(a, b)) by {
                    lemma_field_unique_start(s@, gk, start as int, a, b);
                    if b <= j {
                        assert(!is_ws(s@[b]));
                    }
                    assert(s@.subrange(a, b)[j - start] == c);
                };
            }
            return None;
        }
        if v > (u64::MAX - (c - 48) as u64) / 10 {
            proof {
                assert(dec_value(s@.subrange(start as int, j + 1)) > u64::MAX) by (nonlinear_arith)
                    requires
                        dec_value(s@.subrange(start as int, j + 1)) == v * 10 + (c - 48) as nat,
                        v > (u64::MAX - (c - 48) as u64) / 10,
                        c >= 48,
                        c <= 57,
                {};
                assert forall|a: int, b: int| #[trigger] is_field(s@, k as nat, a, b) implies !is_u64_text(s@.subrange(a, b)) by {
                    lemma_field_unique_start(s@, gk, start as int, a, b);
                    if b <= j {
                        assert(!is_ws(s@[b]));
                    }
                    let f = s@.subrange(a, b);
                    if is_digits(f) {
                        lemma_dec_mono(f, j + 1 - start, f.len() as int);
                        assert(f.take(j + 1 - start) =~= s@.subrange(start as int, j + 1));
                        assert(f.take(f.len() as int) =~= f);
                    }
                };
            }
            return None;
        }
        v = v * 10 + (c - 48) as u64;
        j += 1;
    }
    let ghost f = s@.subrange(start as int, j as int);
    assert forall|m: int| 0 <= m < j implies #[trigger] s@[m] != NEWLINE by {
        if m >= start { assert(!is_ws(s@[m])); }
    };
    assert(is_field(s@, gk, start as int, j as int));
    assert(is_u64_text(f));
    Some(v)
}

/// A field of number `k` starts where the field counted `k` starts.
proof fn lemma_field_unique_start(s: Seq<u8>, k: nat, start: int, a: int, b: int)
    requires
        0 <= start < s.len(),
        runs(s.take(start)) == k,
        starts_run(s, start),
        is_field(s, k, a, b),
    ensures
        a == start,
{
    if a < start {
        lemma_runs_strict(s, a, a, start);
    } else if start < a {
        lemma_runs_strict(s, start, start, a);
    }
}

/// The device size in the size query's output: the fifth
/// whitespace-separated field of its first line, which must be the decimal form of a 64-bit value; fails with
/// `DeviceSizeQueryFailure` otherwise.
pub fn parse_device_size(output: &[u8]) -> (r: Result<u64, StoreError>)
    ensures
        r matches Ok(v) ==> exists|i: int, j: int| #[trigger] is_field(output@, 4, i, j)
            && is_u64_text(output@.subrange(i, j)) && v == dec_value(output@.subrange(i, j)),
        r is Err <==> !(exists|i: int, j: int| #[trigger] is_field(output@, 4, i, j)
            && is_u64_text(output@.subrange(i, j))),
        r is Err ==> r == Err::<u64, StoreError>(StoreError::DeviceSizeQueryFailure),
{
    match parse_field_u64(output, 4) {
        Some(v) => Ok(v),
        None => Err(StoreError::DeviceSizeQueryFailure),
    }
}

} // verus!
