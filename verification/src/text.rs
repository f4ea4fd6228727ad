//! Character-sequence utilities shared by the row parser: whitespace
//! trimming, substring replacement, and decimal integer parsing, each
//! specified over `Seq<char>`.

use vstd::prelude::*;
use vstd::string::StrSliceExecFns;

verus! {

/// The Unicode `White_Space` characters, the set `char::is_whitespace` tests.
pub open spec fn is_space_char(c: char) -> bool {
    c as u32 == 0x20 || c as u32 == 0x09 || c as u32 == 0x0A || c as u32 == 0x0B
        || c as u32 == 0x0C || c as u32 == 0x0D || c as u32 == 0x85 || c as u32 == 0xA0
        || c as u32 == 0x1680 || (0x2000 <= c as u32 && c as u32 <= 0x200A)
        || c as u32 == 0x2028 || c as u32 == 0x2029 || c as u32 == 0x202F
        || c as u32 == 0x205F || c as u32 == 0x3000
}

pub fn is_space(c: char) -> (r: bool)
    ensures
        r == is_space_char(c),
{
    let u = c as u32;
    u == 0x20 || u == 0x09 || u == 0x0A || u == 0x0B || u == 0x0C || u == 0x0D || u == 0x85
        || u == 0xA0 || u == 0x1680 || (0x2000 <= u && u <= 0x200A) || u == 0x2028 || u == 0x2029
        || u == 0x202F || u == 0x205F || u == 0x3000
}

pub open spec fn is_digit_char(c: char) -> bool {
    0x30 <= c as u32 && c as u32 <= 0x39
}

pub open spec fn digit_val(c: char) -> int {
    c as u32 - 0x30
}

pub fn is_digit(c: char) -> (r: bool)
    ensures
        r == is_digit_char(c),
{
    let u = c as u32;
    0x30 <= u && u <= 0x39
}

/// What `str::trim_start` leaves of a string.
pub open spec fn spec_trim_left(s: Seq<char>) -> Seq<char>
    decreases s.len(),
{
    if s.len() > 0 && is_space_char(s[0]) {
        spec_trim_left(s.skip(1))
    } else {
        s
    }
}

/// What `str::trim_end` leaves of a string.
pub open spec fn spec_trim_right(s: Seq<char>) -> Seq<char>
    decreases s.len(),
{
    if s.len() > 0 && is_space_char(s[s.len() - 1]) {
        spec_trim_right(s.take(s.len() - 1))
    } else {
        s
    }
}

/// What `str::trim` leaves of a string.
pub open spec fn spec_trim(s: Seq<char>) -> Seq<char> {
    spec_trim_right(spec_trim_left(s))
}

proof fn lemma_trim_left_prefix(s: Seq<char>, a: int)
    requires
        0 <= a <= s.len(),
        forall|i: int| 0 <= i < a ==> is_space_char(s[i]),
        a == s.len() || !is_space_char(s[a]),
    ensures
        spec_trim_left(s) == s.skip(a),
    decreases a,
{
    if a == 0 {
        assert(s.skip(0) =~= s);
    } else {
        lemma_trim_left_prefix(s.skip(1), a - 1);
        assert(s.skip(1).skip(a - 1) =~= s.skip(a));
    }
}

proof fn lemma_trim_right_suffix(s: Seq<char>, b: int)
    requires
        0 <= b <= s.len(),
        forall|i: int| b <= i < s.len() ==> is_space_char(s[i]),
        b == 0 || !is_space_char(s[b - 1]),
    ensures
        spec_trim_right(s) == s.take(b),
    decreases s.len() - b,
{
    if b == s.len() {
        assert(s.take(b) =~= s);
    } else {
        lemma_trim_right_suffix(s.take(s.len() - 1), b);
        assert(s.take(s.len() - 1).take(b) =~= s.take(b));
    }
}

/// Trim leading and trailing whitespace, as `str::trim` does.
pub fn trim_chars(v: &Vec<char>) -> (r: Vec<char>)
    ensures
        r@ == spec_trim(v@),
{
    let mut a: usize = 0;
    while a < v.len() && is_space(v[a])
        invariant
            0 <= a <= v@.len(),
            forall|i: int| 0 <= i < a ==> is_space_char(v@[i]),
        decreases v@.len() - a,
    {
        a += 1;
    }
    let mut b: usize = v.len();
    while b > a && is_space(v[b - 1])
        invariant
            a <= b <= v@.len(),
            forall|i: int| b <= i < v@.len() ==> is_space_char(v@[i]),
        decreases b,
    {
        b -= 1;
    }
    let mut r: Vec<char> = Vec::new();
    let mut i: usize = a;
    while i < b
        invariant
            a <= i <= b,
            b <= v@.len(),
            r@ == v@.subrange(a as int, i as int),
        decreases b - i,
    {
        let c = v[i];
        r.push(c);
        assert(r@ =~= v@.subrange(a as int, (i + 1) as int));
        i += 1;
    }
    proof {
        lemma_trim_left_prefix(v@, a as int);
        let s1 = v@.skip(a as int);
        lemma_trim_right_suffix(s1, (b - a) as int);
        assert(s1.take((b - a) as int) =~= v@.subrange(a as int, b as int));
    }
    r
}

/// What `str::replace` produces for a non-empty pattern: every
/// non-overlapping occurrence, scanned left to right, replaced.
pub open spec fn spec_replace(s: Seq<char>, pat: Seq<char>, rep: Seq<char>) -> Seq<char>
    decreases s.len(),
{
    if pat.len() == 0 || s.len() < pat.len() {
        s
    } else if s.subrange(0, pat.len() as int) == pat {
        rep + spec_replace(s.skip(pat.len() as int), pat, rep)
    } else {
        seq![s[0]] + spec_replace(s.skip(1), pat, rep)
    }
}

/// Does `pat` occur in `v` at position `i`?
fn matches_at(v: &Vec<char>, i: usize, pat: &Vec<char>) -> (r: bool)
    requires
        i + pat@.len() <= v@.len(),
    ensures
        r == (v@.subrange(i as int, i + pat@.len()) == pat@),
{
    let vlen = v.len();
    let mut j: usize = 0;
    while j < pat.len()
        invariant
            0 <= j <= pat@.len(),
            i + pat@.len() <= v@.len(),
            vlen == v@.len(),
            forall|k: int| 0 <= k < j ==> v@[i + k] == pat@[k],
        decreases pat@.len() - j,
    {
        if v[i + j] != pat[j] {
            assert(v@.subrange(i as int, i + pat@.len())[j as int] != pat@[j as int]);
            return false;
        }
        j += 1;
    }
    assert(v@.subrange(i as int, i + pat@.len()) =~= pat@);
    true
}

/// Replace every occurrence of `pat` by `rep`, as `str::replace` does.
pub fn replace_chars(v: &Vec<char>, pat: &Vec<char>, rep: &Vec<char>) -> (r: Vec<char>)
    requires
        pat@.len() > 0,
    ensures
        r@ == spec_replace(v@, pat@, rep@),
{
    let mut out: Vec<char> = Vec::new();
    let mut i: usize = 0;
    assert(v@.skip(0) =~= v@);
    while i < v.len()
        invariant
            0 <= i <= v@.len(),
            pat@.len() > 0,
            out@ + spec_replace(v@.skip(i as int), pat@, rep@) == spec_replace(v@, pat@, rep@),
        decreases v@.len() - i,
    {
        let ghost tail = v@.skip(i as int);
        if pat.len() <= v.len() - i && matches_at(v, i, pat) {
            proof {
                assert(tail.subrange(0, pat@.len() as int) =~= v@.subrange(
                    i as int,
                    i + pat@.len(),
                ));
                assert(tail.skip(pat@.len() as int) =~= v@.skip(i + pat@.len()));
            }
            let ghost out_before = out@;
            let mut j: usize = 0;
            while j < rep.len()
                invariant
                    0 <= j <= rep@.len(),
                    out@ == out_before + rep@.subrange(0, j as int),
                decreases rep@.len() - j,
            {
                let c = rep[j];
                out.push(c);
                assert(out@ =~= out_before + rep@.subrange(0, (j + 1) as int));
                j += 1;
            }
            proof {
                assert(rep@.subrange(0, rep@.len() as int) =~= rep@);
                assert(out@ + spec_replace(v@.skip(i + pat@.len()), pat@, rep@)
                    =~= out_before + (rep@ + spec_replace(tail.skip(pat@.len() as int), pat@, rep@)));
            }
            i += pat.len();
        } else {
            proof {
                if tail.len() >= pat@.len() {
                    assert(tail.subrange(0, pat@.len() as int) =~= v@.subrange(
                        i as int,
                        i + pat@.len(),
                    ));
                }
                assert(tail.skip(1) =~= v@.skip(i + 1));
                assert(seq![tail[0]] + tail.skip(1) =~= tail);
            }
            let ghost out_before = out@;
            let c = v[i];
            out.push(c);
            proof {
                assert(out@ + spec_replace(v@.skip(i + 1), pat@, rep@) =~= out_before + (seq![
                    tail[0],
                ] + spec_replace(tail.skip(1), pat@, rep@)));
                if tail.len() < pat@.len() {
                    assert(seq![tail[0]] + tail.skip(1) =~= tail);
                }
            }
            i += 1;
        }
    }
    proof {
        assert(v@.skip(v@.len() as int) =~= Seq::<char>::empty());
        assert(out@ + Seq::<char>::empty() =~= out@);
    }
    out
}

/// Value of a digit string, most significant digit first.
pub open spec fn digits_value(s: Seq<char>) -> int
    decreases s.len(),
{
    if s.len() == 0 {
        0
    } else {
        digits_value(s.take(s.len() - 1)) * 10 + digit_val(s[s.len() - 1])
    }
}

pub open spec fn all_digits(s: Seq<char>) -> bool {
    forall|i: int| 0 <= i < s.len() ==> is_digit_char(s[i])
}

/// What `str::parse::<i32>` returns: an optional sign, then one or more
/// decimal digits, rejected when the value does not fit in an `i32`.
pub open spec fn spec_parse_i32(s: Seq<char>) -> Option<i32> {
    let neg = s.len() > 0 && s[0] == '-';
    let ds = if s.len() > 0 && (s[0] == '+' || s[0] == '-') {
        s.skip(1)
    } else {
        s
    };
    if ds.len() == 0 || !all_digits(ds) {
        None
    } else {
        let v = digits_value(ds);
        if neg {
            if -v >= i32::MIN {
                Some((-v) as i32)
            } else {
                None
            }
        } else {
            if v <= i32::MAX {
                Some(v as i32)
            } else {
                None
            }
        }
    }
}

proof fn lemma_digits_value_nonneg(s: Seq<char>)
    requires
        all_digits(s),
    ensures
        digits_value(s) >= 0,
    decreases s.len(),
{
    if s.len() > 0 {
        assert(all_digits(s.take(s.len() - 1)));
        lemma_digits_value_nonneg(s.take(s.len() - 1));
    }
}

proof fn lemma_digits_value_take_le(s: Seq<char>, k: int)
    requires
        all_digits(s),
        0 <= k <= s.len(),
    ensures
        digits_value(s.take(k)) <= digits_value(s),
    decreases s.len() - k,
{
    if k < s.len() {
        lemma_digits_value_take_le(s, k + 1);
        let t = s.take(k + 1);
        assert(all_digits(t));
        assert(t.take(t.len() - 1) =~= s.take(k));
        lemma_digits_value_nonneg(s.take(k));
    } else {
        assert(s.take(k) =~= s);
    }
}

/// Parse a decimal integer exactly as `str::parse::<i32>` does.
pub fn parse_i32(v: &Vec<char>) -> (r: Option<i32>)
    ensures
        r == spec_parse_i32(v@),
{
    let n = v.len();
    let mut idx: usize = 0;
    let mut neg = false;
    if n > 0 && (v[0] == '+' || v[0] == '-') {
        neg = v[0] == '-';
        idx = 1;
    }
    let ghost ds = if idx == 1 {
        v@.skip(1)
    } else {
        v@
    };
    if idx >= n {
        return None;
    }
    let mut acc: u64 = 0;
    let mut i: usize = idx;
    while i < n
        invariant
            idx <= i <= n,
            n == v@.len(),
            idx == 0 || idx == 1,
            (idx == 1) == (v@.len() > 0 && (v@[0] == '+' || v@[0] == '-')),
            neg == (v@.len() > 0 && v@[0] == '-'),
            idx == 1 ==> ds == v@.skip(1),
            idx == 0 ==> ds == v@,
            forall|k: int| idx <= k < i ==> is_digit_char(v@[k]),
            acc == digits_value(v@.subrange(idx as int, i as int)),
            acc <= 0x8000_0000,
        decreases n - i,
    {
        let c = v[i];
        if !is_digit(c) {
            proof {
                assert(ds[i - idx] == v@[i as int]);
                assert(!all_digits(ds));
            }
            return None;
        }
        let d = (c as u32) as u64 - 0x30;
        let newacc = acc * 10 + d;
        let ghost pre = v@.subrange(idx as int, i as int);
        let ghost cur = v@.subrange(idx as int, (i + 1) as int);
        proof {
            assert(cur.take(cur.len() - 1) =~= pre);
            assert(cur[cur.len() - 1] == v@[i as int]);
        }
        if newacc > 0x8000_0000 {
            proof {
                if all_digits(ds) {
                    assert(ds.take(i + 1 - idx) =~= cur);
                    lemma_digits_value_take_le(ds, i + 1 - idx);
                }
            }
            return None;
        }
        acc = newacc;
        i += 1;
    }
    proof {
        assert(v@.subrange(idx as int, n as int) =~= ds);
        assert(forall|k: int| 0 <= k < ds.len() ==> is_digit_char(ds[k]));
    }
    if neg {
        if acc == 0x8000_0000 {
            Some(i32::MIN)
        } else {
            let x = acc as i32;
            Some(-x)
        }
    } else {
        if acc <= 0x7FFF_FFFF {
            Some(acc as i32)
        } else {
            None
        }
    }
}

/// Does `c` read as the lowercase ASCII letter `l`, ignoring case?
pub open spec fn char_eq_lower(c: char, l: char) -> bool {
    c as u32 == l as u32 || (0x41 <= c as u32 && c as u32 <= 0x5A && c as u32 + 0x20 == l as u32)
}

/// Does `s` equal `t` up to ASCII case, where `t` is lowercase?
pub open spec fn eq_ignore_ascii_lower(s: Seq<char>, t: Seq<char>) -> bool {
    s.len() == t.len() && (forall|i: int| 0 <= i < s.len() ==> char_eq_lower(s[i], t[i]))
}

/// Compare a character vector against a lowercase pattern, ignoring
/// ASCII case, as `str::eq_ignore_ascii_case` would.
pub fn eq_ignore_case_str(v: &Vec<char>, lower: &str) -> (r: bool)
    ensures
        r == eq_ignore_ascii_lower(v@, lower@),
{
    let lv = str_to_chars(lower);
    if v.len() != lv.len() {
        return false;
    }
    let mut i: usize = 0;
    while i < v.len()
        invariant
            0 <= i <= v@.len(),
            v@.len() == lv@.len(),
            lv@ == lower@,
            forall|k: int| 0 <= k < i ==> char_eq_lower(v@[k], lower@[k]),
        decreases v@.len() - i,
    {
        let c = v[i] as u32;
        let l = lv[i] as u32;
        if !(c == l || (0x41 <= c && c <= 0x5A && c + 0x20 == l)) {
            return false;
        }
        i += 1;
    }
    true
}

/// Does `pat` occur anywhere in `s`? Matches `str::contains`; the empty
/// pattern occurs in every string.
pub open spec fn spec_contains(s: Seq<char>, pat: Seq<char>) -> bool {
    exists|i: int|
        0 <= i <= s.len() - pat.len() && #[trigger] s.subrange(i, i + pat.len()) == pat
}

/// Substring search, as `str::contains` decides it.
pub fn contains_chars(s: &Vec<char>, pat: &Vec<char>) -> (r: bool)
    ensures
        r == spec_contains(s@, pat@),
{
    let n = s.len();
    let m = pat.len();
    if m > n {
        return false;
    }
    if m == 0 {
        assert(spec_contains(s@, pat@)) by {
            assert(s@.subrange(0, 0 + pat@.len() as int) =~= pat@);
        }
        return true;
    }
    let mut i: usize = 0;
    while i <= n - m
        invariant
            0 <= i <= n - m + 1,
            0 < m <= n,
            n == s@.len(),
            m == pat@.len(),
            forall|j: int| 0 <= j < i ==> #[trigger] s@.subrange(j, j + pat@.len()) != pat@,
        decreases n - i,
    {
        if matches_at(s, i, pat) {
            return true;
        }
        i += 1;
    }
    false
}

/// Relies on `String::push`: appends exactly the one character.
#[verifier::external_body]
fn push_char(s: &mut String, c: char)
    ensures
        final(s)@ == old(s)@.push(c),
{
    s.push(c);
}

/// Build an owned string out of a character vector.
pub fn chars_to_string(v: &Vec<char>) -> (s: String)
    ensures
        s@ == v@,
{
    let mut s = String::new();
    let mut i: usize = 0;
    while i < v.len()
        invariant
            0 <= i <= v@.len(),
            s@ == v@.take(i as int),
        decreases v@.len() - i,
    {
        let c = v[i];
        push_char(&mut s, c);
        assert(s@ =~= v@.take((i + 1) as int));
        i += 1;
    }
    assert(v@.take(v@.len() as int) =~= v@);
    s
}

/// Decode a string slice into its character vector.
pub fn str_to_chars(s: &str) -> (v: Vec<char>)
    ensures
        v@ == s@,
{
    let n = s.unicode_len();
    let mut v: Vec<char> = Vec::new();
    let mut i: usize = 0;
    while i < n
        invariant
            0 <= i <= s@.len(),
            n == s@.len(),
            v@ == s@.take(i as int),
        decreases n - i,
    {
        let c = s.get_char(i);
        v.push(c);
        assert(v@ =~= s@.take((i + 1) as int));
        i += 1;
    }
    assert(s@.take(n as int) =~= s@);
    v
}

/// Character-by-character equality of two string slices.
pub fn str_eq(a: &str, b: &str) -> (r: bool)
    ensures
        r == (a@ == b@),
{
    let na = a.unicode_len();
    let nb = b.unicode_len();
    if na != nb {
        return false;
    }
    let mut i: usize = 0;
    while i < na
        invariant
            0 <= i <= na,
            na == a@.len(),
            na == b@.len(),
            forall|k: int| 0 <= k < i ==> a@[k] == b@[k],
        decreases na - i,
    {
        if a.get_char(i) != b.get_char(i) {
            return false;
        }
        i += 1;
    }
    assert(a@ =~= b@);
    true
}

/// Lexicographic order on character sequences by code point; for strings
/// this coincides with the byte-wise `Ord` on `str`, since UTF-8 preserves
/// code-point order.
pub open spec fn seq_le(a: Seq<char>, b: Seq<char>) -> bool
    decreases a.len(),
{
    if a.len() == 0 {
        true
    } else if b.len() == 0 {
        false
    } else if (a[0] as u32) < (b[0] as u32) {
        true
    } else if (a[0] as u32) > (b[0] as u32) {
        false
    } else {
        seq_le(a.skip(1), b.skip(1))
    }
}

pub proof fn lemma_seq_le_total(a: Seq<char>, b: Seq<char>)
    ensures
        seq_le(a, b) || seq_le(b, a),
    decreases a.len(),
{
    if a.len() > 0 && b.len() > 0 && (a[0] as u32) == (b[0] as u32) {
        lemma_seq_le_total(a.skip(1), b.skip(1));
    }
}

pub proof fn lemma_seq_le_trans(a: Seq<char>, b: Seq<char>, c: Seq<char>)
    requires
        seq_le(a, b),
        seq_le(b, c),
    ensures
        seq_le(a, c),
    decreases a.len(),
{
    if a.len() > 0 && b.len() > 0 && c.len() > 0 && (a[0] as u32) == (b[0] as u32) && (b[0]
        as u32) == (c[0] as u32) {
        lemma_seq_le_trans(a.skip(1), b.skip(1), c.skip(1));
    }
}

/// Compare two string slices in the lexicographic order `seq_le`.
pub fn str_le(a: &str, b: &str) -> (r: bool)
    ensures
        r == seq_le(a@, b@),
{
    let na = a.unicode_len();
    let nb = b.unicode_len();
    let mut i: usize = 0;
    proof {
        assert(a@.skip(0) =~= a@);
        assert(b@.skip(0) =~= b@);
    }
    loop
        invariant
            0 <= i <= na,
            i <= nb,
            na == a@.len(),
            nb == b@.len(),
            seq_le(a@, b@) == seq_le(a@.skip(i as int), b@.skip(i as int)),
        decreases na - i,
    {
        if i >= na {
            assert(a@.skip(i as int).len() == 0);
            return true;
        }
        if i >= nb {
            assert(b@.skip(i as int).len() == 0);
            assert(a@.skip(i as int).len() > 0);
            return false;
        }
        let ca = a.get_char(i);
        let cb = b.get_char(i);
        proof {
            assert(a@.skip(i as int)[0] == a@[i as int]);
            assert(b@.skip(i as int)[0] == b@[i as int]);
            assert(a@.skip(i as int).skip(1) =~= a@.skip(i + 1));
            assert(b@.skip(i as int).skip(1) =~= b@.skip(i + 1));
        }
        if (ca as u32) < (cb as u32) {
            return true;
        }
        if (ca as u32) > (cb as u32) {
            return false;
        }
        i += 1;
    }
}

} // verus!
