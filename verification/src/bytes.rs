//! Verified helpers on byte strings: equality, prefix and substring
//! tests on entry names and paths, and reading the numeric field of a
//! labelled line of tool output.

use vstd::prelude::*;

verus! {

/// Byte-wise equality of two byte strings.
pub fn bytes_eq(a: &Vec<u8>, b: &Vec<u8>) -> (r: bool)
    ensures
        r == (a@ == b@),
{
    if a.len() != b.len() {
        assert(a@ != b@);
        return false;
    }
    let n = a.len();
    let mut i: usize = 0;
    while i < n
        invariant
            n == a.len() == b.len(),
            i <= n,
            forall|k: int| 0 <= k < i ==> a@[k] == b@[k],
        decreases n - i,
    {
        if a[i] != b[i] {
            return false;
        }
        i = i + 1;
    }
    proof {
        assert(a@ =~= b@);
    }
    true
}

/// Does `a` start with `prefix`, byte for byte?
pub open spec fn spec_starts_with(a: Seq<u8>, prefix: Seq<u8>) -> bool {
    a.len() >= prefix.len() && a.subrange(0, prefix.len() as int) == prefix
}

pub fn bytes_starts_with(a: &Vec<u8>, prefix: &Vec<u8>) -> (r: bool)
    ensures
        r == spec_starts_with(a@, prefix@),
{
    if a.len() < prefix.len() {
        return false;
    }
    let n = prefix.len();
    let mut i: usize = 0;
    while i < n
        invariant
            n == prefix.len() <= a.len(),
            i <= n,
            forall|k: int| 0 <= k < i ==> a@[k] == prefix@[k],
        decreases n - i,
    {
        if a[i] != prefix[i] {
            assert(a@.subrange(0, n as int)[i as int] != prefix@[i as int]);
            return false;
        }
        i = i + 1;
    }
    proof {
        assert(a@.subrange(0, n as int) =~= prefix@);
    }
    true
}

/// Does `p` occur in `s` at position `i`?
pub open spec fn matches_at(s: Seq<u8>, p: Seq<u8>, i: int) -> bool {
    0 <= i && i + p.len() <= s.len() && s.subrange(i, i + p.len()) == p
}

fn bytes_match_at(s: &Vec<u8>, p: &Vec<u8>, i: usize) -> (r: bool)
    requires
        i + p.len() <= s.len(),
    ensures
        r == matches_at(s@, p@, i as int),
{
    let m = p.len();
    let mut j: usize = 0;
    while j < m
        invariant
            j <= m,
            m == p.len(),
            i + m <= s.len(),
            forall|k: int| 0 <= k < j ==> s@[i + k] == p@[k],
        decreases m - j,
    {
        if s[i + j] != p[j] {
            assert(s@.subrange(i as int, i + p@.len())[j as int] != p@[j as int]);
            return false;
        }
        j = j + 1;
    }
    proof {
        assert(s@.subrange(i as int, i + p@.len()) =~= p@);
    }
    true
}

/// Does `s` hold `p` somewhere as a contiguous run?
pub open spec fn spec_contains_bytes(s: Seq<u8>, p: Seq<u8>) -> bool {
    exists|i: int| matches_at(s, p, i)
}

pub fn bytes_contains(s: &Vec<u8>, p: &Vec<u8>) -> (r: bool)
    ensures
        r == spec_contains_bytes(s@, p@),
{
    if p.len() == 0 {
        proof {
            assert(s@.subrange(0, 0) =~= p@);
            assert(matches_at(s@, p@, 0));
        }
        return true;
    }
    if p.len() > s.len() {
        assert(forall|i: int| !matches_at(s@, p@, i));
        return false;
    }
    let last = s.len() - p.len();
    let mut i: usize = 0;
    while i <= last
        invariant
            i <= last + 1,
            1 <= p.len(),
            last + p.len() == s.len(),
            forall|k: int| 0 <= k < i ==> !matches_at(s@, p@, k),
        decreases last + 1 - i,
    {
        if bytes_match_at(s, p, i) {
            return true;
        }
        i = i + 1;
    }
    proof {
        assert(forall|k: int| matches_at(s@, p@, k) ==> 0 <= k <= last);
    }
    false
}

/// ASCII whitespace, as a terminal hands it back: space, tab, newline,
/// carriage return.
pub open spec fn is_ws_byte(b: u8) -> bool {
    b == 32u8 || b == 9u8 || b == 10u8 || b == 13u8
}

pub fn byte_is_ws(b: u8) -> (r: bool)
    ensures
        r == is_ws_byte(b),
{
    b == 32 || b == 9 || b == 10 || b == 13
}

/// First index at or after `i` holding a non-whitespace byte, else the
/// length.
pub open spec fn trim_start_idx(s: Seq<u8>, i: int) -> int
    decreases s.len() - i,
{
    if i < 0 || i >= s.len() {
        s.len() as int
    } else if is_ws_byte(s[i]) {
        trim_start_idx(s, i + 1)
    } else {
        i
    }
}

/// End of the last non-whitespace byte strictly before `i`, else zero.
pub open spec fn trim_end_idx(s: Seq<u8>, i: int) -> int
    decreases i,
{
    if i <= 0 {
        0
    } else if is_ws_byte(s[i - 1]) {
        trim_end_idx(s, i - 1)
    } else {
        i
    }
}

/// Start of the run of non-whitespace bytes that ends at `i`.
pub open spec fn token_start(s: Seq<u8>, i: int) -> int
    decreases i,
{
    if i <= 0 {
        0
    } else if is_ws_byte(s[i - 1]) {
        i
    } else {
        token_start(s, i - 1)
    }
}

/// The last whitespace-separated field of `s`; empty when `s` holds none.
pub open spec fn last_field(s: Seq<u8>) -> Seq<u8> {
    let e = trim_end_idx(s, s.len() as int);
    s.subrange(token_start(s, e), e)
}

/// Length of `t` once trailing dots are dropped.
pub open spec fn dots_end(t: Seq<u8>, i: int) -> int
    decreases i,
{
    if i <= 0 {
        0
    } else if t[i - 1] == 46u8 {
        dots_end(t, i - 1)
    } else {
        i
    }
}

/// `t` with its trailing dots dropped.
pub open spec fn drop_trailing_dots(t: Seq<u8>) -> Seq<u8> {
    t.subrange(0, dots_end(t, t.len() as int))
}

pub open spec fn all_digits(t: Seq<u8>) -> bool {
    forall|j: int| 0 <= j < t.len() ==> 48 <= #[trigger] t[j] <= 57
}

/// Value of the decimal digit string `t[..i]`.
pub open spec fn dec_val(t: Seq<u8>, i: int) -> int
    decreases i,
{
    if i <= 0 {
        0
    } else {
        dec_val(t, i - 1) * 10 + (t[i - 1] - 48)
    }
}

/// What parsing the last field of a line yields: the decimal value of the
/// field after dropping trailing dots, or zero when there is no field, a
/// non-digit stands in it, or the value exceeds the counter's range.
pub open spec fn spec_last_field_u64(s: Seq<u8>) -> u64 {
    let t = drop_trailing_dots(last_field(s));
    if t.len() > 0 && all_digits(t) && dec_val(t, t.len() as int) <= u64::MAX {
        dec_val(t, t.len() as int) as u64
    } else {
        0u64
    }
}

proof fn lemma_dec_val_nonneg(t: Seq<u8>, i: int)
    requires
        forall|j: int| 0 <= j < i ==> 48 <= #[trigger] t[j] <= 57,
    ensures
        dec_val(t, i) >= 0,
    decreases i,
{
    if i > 0 {
        lemma_dec_val_nonneg(t, i - 1);
    }
}

proof fn lemma_dec_val_grows(t: Seq<u8>, i: int, j: int)
    requires
        0 <= i <= j,
        forall|k: int| 0 <= k < j ==> 48 <= #[trigger] t[k] <= 57,
    ensures
        dec_val(t, j) >= dec_val(t, i),
    decreases j - i,
{
    if i < j {
        lemma_dec_val_nonneg(t, i);
        lemma_dec_val_grows(t, i + 1, j);
    }
}

/// Reads the last whitespace-separated field of a line as a decimal
/// count, dropping any trailing dots; anything unreadable counts as zero,
/// never as an error.
pub fn last_field_u64(line: &Vec<u8>) -> (r: u64)
    ensures
        r == spec_last_field_u64(line@),
{
    let n = line.len();
    // Step back over trailing whitespace.
    let mut e: usize = n;
    let mut stop_e = false;
    while e > 0 && !stop_e
        invariant
            e <= n,
            n == line.len(),
            trim_end_idx(line@, n as int) == (if stop_e {
                e as int
            } else {
                trim_end_idx(line@, e as int)
            }),
        decreases e + (if stop_e {
            0int
        } else {
            1int
        }),
    {
        if byte_is_ws(line[e - 1]) {
            e = e - 1;
        } else {
            stop_e = true;
        }
    }
    proof {
        assert(trim_end_idx(line@, n as int) == e as int);
    }
    // Step back over the field itself.
    let mut a: usize = e;
    let mut stop_a = false;
    while a > 0 && !stop_a
        invariant
            a <= e,
            e <= n,
            n == line.len(),
            token_start(line@, e as int) == (if stop_a {
                a as int
            } else {
                token_start(line@, a as int)
            }),
        decreases a + (if stop_a {
            0int
        } else {
            1int
        }),
    {
        if byte_is_ws(line[a - 1]) {
            stop_a = true;
        } else {
            a = a - 1;
        }
    }
    proof {
        assert(token_start(line@, e as int) == a as int);
    }
    let ghost t = last_field(line@);
    proof {
        assert(t =~= line@.subrange(a as int, e as int));
    }
    // Step back over trailing dots of the field.
    let mut k: usize = e;
    let mut stop_k = false;
    while k > a && !stop_k
        invariant
            a <= k <= e,
            e <= n,
            n == line.len(),
            t == line@.subrange(a as int, e as int),
            dots_end(t, e - a) == (if stop_k {
                k - a
            } else {
                dots_end(t, k - a)
            }),
        decreases k + (if stop_k {
            0int
        } else {
            1int
        }),
    {
        if line[k - 1] == 46u8 {
            proof {
                assert(t[k - a - 1] == line@[k as int - 1]);
            }
            k = k - 1;
        } else {
            proof {
                assert(t[k - a - 1] == line@[k as int - 1]);
            }
            stop_k = true;
        }
    }
    let ghost st = drop_trailing_dots(t);
    proof {
        assert(dots_end(t, t.len() as int) == k - a);
        assert(st =~= line@.subrange(a as int, k as int));
        assert(st.len() == k - a);
    }
    if k == a {
        // No field, or one made of dots alone.
        return 0;
    }
    // Parse the digits, guarding the counter's range.
    let mut acc: u64 = 0;
    let mut j: usize = a;
    while j < k
        invariant
            a <= j <= k <= e <= n,
            n == line.len(),
            st == drop_trailing_dots(last_field(line@)),
            st == line@.subrange(a as int, k as int),
            st.len() == k - a,
            forall|m: int| 0 <= m < j - a ==> 48 <= #[trigger] st[m] <= 57,
            acc == dec_val(st, j - a),
        decreases k - j,
    {
        let d = line[j];
        proof {
            assert(st[j - a] == line@[j as int]);
        }
        if d < 48 || d > 57 {
            proof {
                assert(!all_digits(st));
            }
            return 0;
        }
        let d64 = (d - 48) as u64;
        let limit = (u64::MAX - d64) / 10;
        proof {
            vstd::arithmetic::div_mod::lemma_fundamental_div_mod(
                (u64::MAX - d64) as int,
                10int,
            );
        }
        if acc > limit {
            proof {
                assert(dec_val(st, j - a + 1) == acc * 10 + d64);
                assert(dec_val(st, j - a + 1) > u64::MAX);
                if all_digits(st) {
                    lemma_dec_val_grows(st, j - a + 1, st.len() as int);
                    assert(dec_val(st, st.len() as int) > u64::MAX);
                }
            }
            return 0;
        }
        acc = acc * 10 + (d - 48) as u64;
        j = j + 1;
    }
    proof {
        assert(all_digits(st));
        assert(dec_val(st, st.len() as int) == acc);
    }
    acc
}

/// Copies `a[from..]` into a fresh vector.
pub fn copy_tail(a: &Vec<u8>, from: usize) -> (r: Vec<u8>)
    requires
        from <= a.len(),
    ensures
        r@ == a@.skip(from as int),
{
    let mut out: Vec<u8> = Vec::new();
    let mut i: usize = from;
    while i < a.len()
        invariant
            from <= i <= a.len(),
            out@ =~= a@.subrange(from as int, i as int),
        decreases a.len() - i,
    {
        out.push(a[i]);
        i = i + 1;
    }
    proof {
        assert(out@ =~= a@.skip(from as int));
    }
    out
}

} // verus!
