//! Byte-level utilities shared by the parser, router and writer: ASCII case
//! folding, comparisons against fixed tokens, appending, and decimal
//! rendering/parsing for `Content-Length` values.
use vstd::prelude::*;

verus! {

/// ASCII lower-casing of one byte; bytes outside `A`..=`Z` are unchanged.
pub open spec fn lower_byte(c: u8) -> u8 {
    if 65 <= c <= 90 {
        (c + 32) as u8
    } else {
        c
    }
}

/// Two byte sequences are equal up to ASCII case.
pub open spec fn eq_ignore_case(a: Seq<u8>, b: Seq<u8>) -> bool {
    a.len() == b.len() && forall|i: int| 0 <= i < a.len() ==> lower_byte(a[i]) == lower_byte(b[i])
}

/// `b` occurs at the front of `a`.
pub open spec fn starts_with(a: Seq<u8>, b: Seq<u8>) -> bool {
    a.len() >= b.len() && a.subrange(0, b.len() as int) == b
}

pub fn lower_byte_exec(c: u8) -> (r: u8)
    ensures
        r == lower_byte(c),
{
    if 65 <= c && c <= 90 {
        c + 32
    } else {
        c
    }
}

/// Case-insensitive equality between a byte vector and a fixed token.
pub fn eq_ignore_case_arr<const N: usize>(v: &Vec<u8>, a: &[u8; N]) -> (r: bool)
    ensures
        r == eq_ignore_case(v@, a@),
{
    if v.len() != N {
        return false;
    }
    let mut i: usize = 0;
    while i < N
        invariant
            0 <= i <= N,
            v@.len() == N,
            forall|j: int| 0 <= j < i ==> lower_byte(v@[j]) == lower_byte(a@[j]),
        decreases N - i,
    {
        if lower_byte_exec(v[i]) != lower_byte_exec(a[i]) {
            return false;
        }
        i = i + 1;
    }
    true
}

/// Exact equality between a byte vector and a fixed token.
pub fn eq_arr<const N: usize>(v: &Vec<u8>, a: &[u8; N]) -> (r: bool)
    ensures
        r == (v@ == a@),
{
    if v.len() != N {
        proof {
            assert(v@.len() != a@.len());
        }
        return false;
    }
    let mut i: usize = 0;
    while i < N
        invariant
            0 <= i <= N,
            v@.len() == N,
            a@.len() == N,
            forall|j: int| 0 <= j < i ==> v@[j] == a@[j],
        decreases N - i,
    {
        if v[i] != a[i] {
            return false;
        }
        i = i + 1;
    }
    proof {
        assert(v@ =~= a@);
    }
    true
}

/// Does the byte vector begin with the fixed token?
pub fn starts_with_arr<const N: usize>(v: &Vec<u8>, a: &[u8; N]) -> (r: bool)
    ensures
        r == starts_with(v@, a@),
{
    if v.len() < N {
        return false;
    }
    let mut i: usize = 0;
    while i < N
        invariant
            0 <= i <= N,
            v@.len() >= N,
            a@.len() == N,
            forall|j: int| 0 <= j < i ==> v@[j] == a@[j],
        decreases N - i,
    {
        if v[i] != a[i] {
            proof {
                assert(v@.subrange(0, N as int)[i as int] != a@[i as int]);
            }
            return false;
        }
        i = i + 1;
    }
    proof {
        assert(v@.subrange(0, N as int) =~= a@);
    }
    true
}

/// `b` occurs at the end of `a`.
pub open spec fn ends_with(a: Seq<u8>, b: Seq<u8>) -> bool {
    a.len() >= b.len() && a.subrange(a.len() - b.len(), a.len() as int) == b
}

/// Does the byte vector end with the fixed token?
pub fn ends_with_arr<const N: usize>(v: &Vec<u8>, a: &[u8; N]) -> (r: bool)
    ensures
        r == ends_with(v@, a@),
{
    let n: usize = v.len();
    if n < N {
        return false;
    }
    let base: usize = n - N;
    let mut i: usize = 0;
    while i < N
        invariant
            0 <= i <= N,
            base == n - N,
            n == v@.len(),
            n >= N,
            a@.len() == N,
            forall|j: int| 0 <= j < i ==> v@[base + j] == a@[j],
        decreases N - i,
    {
        if v[base + i] != a[i] {
            proof {
                assert(v@.subrange(n - N, n as int)[i as int] == v@[base + i]);
            }
            return false;
        }
        i = i + 1;
    }
    proof {
        assert(v@.subrange(n - N, n as int) =~= a@);
    }
    true
}

/// Append the bytes of a fixed token to `out`.
pub fn push_arr<const N: usize>(out: &mut Vec<u8>, a: &[u8; N])
    ensures
        final(out)@ == old(out)@ + a@,
{
    let mut i: usize = 0;
    while i < N
        invariant
            0 <= i <= N,
            a@.len() == N,
            out@ == old(out)@ + a@.subrange(0, i as int),
        decreases N - i,
    {
        out.push(a[i]);
        proof {
            assert(old(out)@ + a@.subrange(0, i as int) + seq![a@[i as int]] =~= old(out)@
                + a@.subrange(0, i + 1));
        }
        i = i + 1;
    }
    proof {
        assert(a@.subrange(0, N as int) =~= a@);
    }
}

/// Append all bytes of `v` to `out`.
pub fn push_vec(out: &mut Vec<u8>, v: &Vec<u8>)
    ensures
        final(out)@ == old(out)@ + v@,
{
    let n: usize = v.len();
    let mut i: usize = 0;
    while i < n
        invariant
            0 <= i <= n,
            v@.len() == n,
            out@ == old(out)@ + v@.subrange(0, i as int),
        decreases n - i,
    {
        out.push(v[i]);
        proof {
            assert(old(out)@ + v@.subrange(0, i as int) + seq![v@[i as int]] =~= old(out)@
                + v@.subrange(0, i + 1));
        }
        i = i + 1;
    }
    proof {
        assert(v@.subrange(0, n as int) =~= v@);
    }
}

/// Copy `v[from..to]` into a fresh vector.
pub fn copy_range(v: &Vec<u8>, from: usize, to: usize) -> (r: Vec<u8>)
    requires
        from <= to <= v@.len(),
    ensures
        r@ == v@.subrange(from as int, to as int),
{
    let mut out: Vec<u8> = Vec::new();
    let mut i: usize = from;
    while i < to
        invariant
            from <= i <= to <= v@.len(),
            out@ == v@.subrange(from as int, i as int),
        decreases to - i,
    {
        out.push(v[i]);
        proof {
            assert(v@.subrange(from as int, i as int) + seq![v@[i as int]] =~= v@.subrange(
                from as int,
                i + 1,
            ));
        }
        i = i + 1;
    }
    out
}

/// Copy a whole byte vector.
pub fn clone_bytes(v: &Vec<u8>) -> (r: Vec<u8>)
    ensures
        r@ == v@,
{
    let r = copy_range(v, 0, v.len());
    proof {
        assert(v@.subrange(0, v@.len() as int) =~= v@);
    }
    r
}

/// Index of the first occurrence of `b` in `s`, if any.
pub open spec fn find_byte(s: Seq<u8>, b: u8) -> Option<int>
    decreases s.len(),
{
    if s.len() == 0 {
        None
    } else if s[0] == b {
        Some(0int)
    } else {
        match find_byte(s.subrange(1, s.len() as int), b) {
            None => None,
            Some(i) => Some(i + 1),
        }
    }
}

/// `find_byte` returns the first occurrence: the byte stands there and
/// nowhere earlier; `None` means the byte does not occur at all.
pub proof fn lemma_find_byte(s: Seq<u8>, b: u8)
    ensures
        match find_byte(s, b) {
            Some(i) => 0 <= i < s.len() && s[i] == b && forall|j: int| 0 <= j < i ==> s[j] != b,
            None => forall|j: int| 0 <= j < s.len() ==> s[j] != b,
        },
    decreases s.len(),
{
    if s.len() > 0 && s[0] != b {
        let rest = s.subrange(1, s.len() as int);
        lemma_find_byte(rest, b);
        assert(forall|j: int| 0 <= j < rest.len() ==> rest[j] == s[j + 1]);
        match find_byte(rest, b) {
            Some(i) => {
                assert(s[i + 1] == rest[i]);
                assert(forall|j: int| 1 <= j < i + 1 ==> s[j] == rest[j - 1] && rest[j - 1] != b);
            },
            None => {
                assert(forall|j: int| 1 <= j < s.len() ==> s[j] == rest[j - 1] && rest[j - 1] != b);
            },
        }
    }
}

/// The byte is an ASCII space or horizontal tab.
pub open spec fn is_ws(c: u8) -> bool {
    c == 32 || c == 9
}

/// `s` with its leading spaces and tabs removed.
pub open spec fn trim_leading_ws(s: Seq<u8>) -> Seq<u8>
    decreases s.len(),
{
    if s.len() > 0 && is_ws(s[0]) {
        trim_leading_ws(s.subrange(1, s.len() as int))
    } else {
        s
    }
}

/// `s` with its trailing spaces and tabs removed.
pub open spec fn trim_trailing_ws(s: Seq<u8>) -> Seq<u8>
    decreases s.len(),
{
    if s.len() > 0 && is_ws(s.last()) {
        trim_trailing_ws(s.drop_last())
    } else {
        s
    }
}

/// `s` with spaces and tabs removed from both ends.
pub open spec fn trim_ws(s: Seq<u8>) -> Seq<u8> {
    trim_trailing_ws(trim_leading_ws(s))
}

/// Scan `v` from index `from` for the byte `b`; the result agrees with
/// `find_byte` on the suffix.
#[verifier::loop_isolation(false)]
pub fn find_byte_from(v: &Vec<u8>, b: u8, from: usize) -> (r: Option<usize>)
    requires
        from <= v@.len(),
    ensures
        match r {
            Some(i) => from <= i < v@.len() && find_byte(
                v@.subrange(from as int, v@.len() as int),
                b,
            ) == Some(i - from),
            None => find_byte(v@.subrange(from as int, v@.len() as int), b) is None,
        },
{
    let ghost s = v@.subrange(from as int, v@.len() as int);
    proof {
        lemma_find_byte(s, b);
        assert(forall|j: int| 0 <= j < s.len() ==> #[trigger] s[j] == v@[from + j]);
    }
    let n: usize = v.len();
    let mut i: usize = from;
    while i < n
        invariant
            from <= i <= n,
            n == v@.len(),
            forall|j: int| from <= j < i ==> v@[j] != b,
        decreases n - i,
    {
        if v[i] == b {
            proof {
                assert(s[i - from] == b);
                match find_byte(s, b) {
                    Some(k) => {
                        if k < i - from {
                            assert(v@[from + k] != b);
                        }
                        if k > i - from {
                            assert(s[i - from] != b);
                        }
                    },
                    None => {
                        assert(s[i - from] != b);
                    },
                }
            }
            return Some(i);
        }
        i = i + 1;
    }
    proof {
        match find_byte(s, b) {
            Some(k) => {
                assert(v@[from + k] != b);
                assert(s[k] == b);
            },
            None => {},
        }
    }
    None
}

/// Narrow `[from, to)` to the subrange that remains after trimming spaces
/// and tabs from both ends of `v[from..to]`.
pub fn trim_range(v: &Vec<u8>, from: usize, to: usize) -> (r: (usize, usize))
    requires
        from <= to <= v@.len(),
    ensures
        from <= r.0 <= r.1 <= to,
        trim_ws(v@.subrange(from as int, to as int)) == v@.subrange(r.0 as int, r.1 as int),
{
    let mut a: usize = from;
    while a < to && (v[a] == 32 || v[a] == 9)
        invariant
            from <= a <= to <= v@.len(),
            trim_leading_ws(v@.subrange(from as int, to as int)) == trim_leading_ws(
                v@.subrange(a as int, to as int),
            ),
        decreases to - a,
    {
        proof {
            let s = v@.subrange(a as int, to as int);
            assert(s.subrange(1, s.len() as int) =~= v@.subrange(a + 1, to as int));
        }
        a = a + 1;
    }
    proof {
        let s = v@.subrange(a as int, to as int);
        assert(trim_leading_ws(s) == s);
    }
    let mut b: usize = to;
    while b > a && (v[b - 1] == 32 || v[b - 1] == 9)
        invariant
            from <= a <= b <= to <= v@.len(),
            trim_trailing_ws(v@.subrange(a as int, to as int)) == trim_trailing_ws(
                v@.subrange(a as int, b as int),
            ),
        decreases b,
    {
        proof {
            let s = v@.subrange(a as int, b as int);
            assert(s.drop_last() =~= v@.subrange(a as int, b - 1));
        }
        b = b - 1;
    }
    proof {
        let s = v@.subrange(a as int, b as int);
        assert(trim_trailing_ws(s) == s);
    }
    (a, b)
}

/// The byte is an ASCII decimal digit.
pub open spec fn is_digit(c: u8) -> bool {
    48 <= c <= 57
}

/// Every byte of `s` is a decimal digit and there is at least one.
pub open spec fn is_digit_seq(s: Seq<u8>) -> bool {
    s.len() > 0 && forall|i: int| 0 <= i < s.len() ==> is_digit(s[i])
}

/// The number a digit string denotes, most significant digit first.
pub open spec fn dec_val(s: Seq<u8>) -> nat
    decreases s.len(),
{
    if s.len() == 0 {
        0
    } else {
        dec_val(s.drop_last()) * 10 + (if s.last() >= 48 {
            (s.last() - 48) as nat
        } else {
            0
        })
    }
}

/// The canonical decimal digit string of `n` (no leading zeros).
pub open spec fn dec_rep(n: nat) -> Seq<u8>
    decreases n,
{
    if n < 10 {
        seq![(48 + n) as u8]
    } else {
        dec_rep(n / 10).push((48 + n % 10) as u8)
    }
}

/// Growing a digit string never shrinks its value.
proof fn lemma_dec_val_monotone(s: Seq<u8>, j: int, k: int)
    requires
        0 <= j <= k <= s.len(),
    ensures
        dec_val(s.subrange(0, j)) <= dec_val(s.subrange(0, k)),
    decreases k - j,
{
    if j < k {
        lemma_dec_val_monotone(s, j, k - 1);
        let p = s.subrange(0, k - 1);
        let q = s.subrange(0, k);
        assert(q.drop_last() =~= p);
        assert(dec_val(q) == dec_val(p) * 10 + (if q.last() >= 48 {
            (q.last() - 48) as nat
        } else {
            0
        }));
        assert(dec_val(p) * 10 >= dec_val(p)) by (nonlinear_arith);
    } else {
        assert(s.subrange(0, j) =~= s.subrange(0, k));
    }
}

/// Parse a decimal number. Returns the value exactly when `s` is a non-empty
/// all-digit string whose value fits in `usize`; returns `None` otherwise.
pub fn parse_dec(s: &Vec<u8>) -> (r: Option<usize>)
    ensures
        r matches Some(n) ==> is_digit_seq(s@) && n as nat == dec_val(s@),
        r is None ==> !(is_digit_seq(s@) && dec_val(s@) <= usize::MAX),
{
    let n: usize = s.len();
    if n == 0 {
        return None;
    }
    let mut acc: usize = 0;
    let mut i: usize = 0;
    while i < n
        invariant
            0 <= i <= n,
            s@.len() == n,
            n > 0,
            acc as nat == dec_val(s@.subrange(0, i as int)),
            forall|j: int| 0 <= j < i ==> is_digit(s@[j]),
        decreases n - i,
    {
        let c = s[i];
        if c < 48 || c > 57 {
            return None;
        }
        let d: usize = (c - 48) as usize;
        if acc > (usize::MAX - d) / 10 {
            proof {
                let p = s@.subrange(0, i + 1);
                assert(p.drop_last() =~= s@.subrange(0, i as int));
                assert(acc * 10 + d > usize::MAX) by (nonlinear_arith)
                    requires
                        acc > (usize::MAX - d) / 10,
                        d <= 9,
                ;
                assert(dec_val(p) > usize::MAX);
                lemma_dec_val_monotone(s@, i + 1, n as int);
                assert(s@.subrange(0, n as int) =~= s@);
            }
            return None;
        }
        proof {
            let p = s@.subrange(0, i + 1);
            assert(p.drop_last() =~= s@.subrange(0, i as int));
            assert(acc * 10 + d <= usize::MAX) by (nonlinear_arith)
                requires
                    acc <= (usize::MAX - d) / 10,
                    d <= 9,
            ;
        }
        acc = acc * 10 + d;
        i = i + 1;
    }
    proof {
        assert(s@.subrange(0, n as int) =~= s@);
    }
    Some(acc)
}

/// Render `n` as its decimal digit string.
pub fn render_dec(n: usize) -> (r: Vec<u8>)
    ensures
        r@ == dec_rep(n as nat),
    decreases n,
{
    if n < 10 {
        let mut out: Vec<u8> = Vec::new();
        out.push(48 + n as u8);
        proof {
            assert(out@ =~= dec_rep(n as nat));
        }
        out
    } else {
        let mut out = render_dec(n / 10);
        out.push(48 + (n % 10) as u8);
        out
    }
}

} // verus!
