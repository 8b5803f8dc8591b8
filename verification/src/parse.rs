//! Filename view-index parsing: a frame file name carries its view index in
//! a `_v<digits>` segment that ends at the next `.` (or at the end of the
//! name). Parsing is total: a name without the marker, with a non-numeric
//! segment, or with a value too large for `usize` is reported as unparseable
//! rather than failing the caller.

use vstd::prelude::*;

verus! {

/// The two-byte marker `_v` starts at index `i` of `s`.
pub open spec fn marker_at(s: Seq<u8>, i: int) -> bool {
    0 <= i && i + 2 <= s.len() && s[i] == 95u8 && s[i + 1] == 118u8
}

/// Index of the first `_v` marker in `s`, if any.
pub open spec fn first_marker(s: Seq<u8>) -> Option<int>
    decreases s.len(),
{
    if s.len() < 2 {
        None
    } else if s[0] == 95u8 && s[1] == 118u8 {
        Some(0int)
    } else {
        match first_marker(s.drop_first()) {
            Some(k) => Some(k + 1),
            None => None,
        }
    }
}

/// `first_marker` returns exactly the least index holding the marker.
pub proof fn lemma_first_marker(s: Seq<u8>)
    ensures
        match first_marker(s) {
            Some(i) => marker_at(s, i) && (forall|j: int| 0 <= j < i ==> !marker_at(s, j)),
            None => forall|j: int| !marker_at(s, j),
        },
    decreases s.len(),
{
    if s.len() < 2 {
    } else if s[0] == 95u8 && s[1] == 118u8 {
    } else {
        let t = s.drop_first();
        lemma_first_marker(t);
        assert forall|j: int| marker_at(s, j) implies j >= 1 && marker_at(t, j - 1) by {
            assert(s[0] != 95u8 || s[1] != 118u8);
            assert(t[j - 1] == s[j]);
            assert(t[j] == s[j + 1]);
        }
        assert forall|k: int| marker_at(t, k) implies marker_at(s, k + 1) by {
            assert(t[k] == s[k + 1]);
            assert(t[k + 1] == s[k + 2]);
        }
    }
}

/// Least index `e` with `from <= e` such that `s[e]` is `.`, or `s.len()`
/// when no `.` occurs at or after `from`.
pub open spec fn first_dot_from(s: Seq<u8>, from: int) -> int
    decreases s.len() - from,
{
    if !(0 <= from && from < s.len()) {
        s.len() as int
    } else if s[from] == 46u8 {
        from
    } else {
        first_dot_from(s, from + 1)
    }
}

pub proof fn lemma_first_dot_from(s: Seq<u8>, from: int)
    requires
        0 <= from <= s.len(),
    ensures
        from <= first_dot_from(s, from) <= s.len(),
        first_dot_from(s, from) < s.len() ==> s[first_dot_from(s, from)] == 46u8,
        forall|j: int| from <= j < first_dot_from(s, from) ==> s[j] != 46u8,
    decreases s.len() - from,
{
    if from < s.len() && s[from] != 46u8 {
        lemma_first_dot_from(s, from + 1);
    }
}

pub open spec fn is_ascii_digit(b: u8) -> bool {
    48 <= b && b <= 57
}

pub open spec fn all_digits(s: Seq<u8>) -> bool {
    forall|i: int| 0 <= i < s.len() ==> is_ascii_digit(#[trigger] s[i])
}

pub open spec fn digit_val(b: u8) -> nat {
    if is_ascii_digit(b) {
        (b - 48) as nat
    } else {
        0
    }
}

/// Numeric value of a decimal digit string, most significant digit first.
pub open spec fn digits_value(s: Seq<u8>) -> nat
    decreases s.len(),
{
    if s.len() == 0 {
        0
    } else {
        digits_value(s.drop_last()) * 10 + digit_val(s.last())
    }
}

/// The value of a digit string is at least the value of any of its prefixes.
pub proof fn lemma_digits_value_prefix(s: Seq<u8>, j: int)
    requires
        0 <= j <= s.len(),
    ensures
        digits_value(s.take(j)) <= digits_value(s),
    decreases s.len() - j,
{
    if j == s.len() {
        assert(s.take(j) =~= s);
    } else {
        lemma_digits_value_prefix(s, j + 1);
        assert(s.take(j + 1).drop_last() =~= s.take(j));
        assert(digits_value(s.take(j + 1)) == digits_value(s.take(j)) * 10 + digit_val(
            s.take(j + 1).last(),
        ));
    }
}

/// The view index encoded in a file name: the decimal value of the segment
/// between the first `_v` marker and the next `.` (or the end of the name).
/// `None` when the marker is absent, the segment is empty or non-numeric, or
/// the value does not fit in `usize`.
pub open spec fn view_index_of(s: Seq<u8>) -> Option<nat> {
    match first_marker(s) {
        None => None,
        Some(i) => {
            let e = first_dot_from(s, i + 2);
            let seg = s.subrange(i + 2, e);
            if seg.len() > 0 && all_digits(seg) && digits_value(seg) <= usize::MAX as nat {
                Some(digits_value(seg))
            } else {
                None
            }
        },
    }
}

/// Index of the first `_v` marker of `name`, if any.
#[verifier::loop_isolation(false)]
fn find_marker(name: &[u8]) -> (r: Option<usize>)
    ensures
        match r {
            Some(i) => first_marker(name@) == Some(i as int),
            None => first_marker(name@) is None,
        },
{
    let n = name.len();
    let mut i: usize = 0;
    while n - i >= 2
        invariant
            i <= n,
            n == name@.len(),
            forall|j: int| 0 <= j < i ==> !marker_at(name@, j),
        decreases n - i,
    {
        if name[i] == 95u8 && name[i + 1] == 118u8 {
            proof {
                assert(marker_at(name@, i as int));
                lemma_first_marker(name@);
            }
            return Some(i);
        }
        i = i + 1;
    }
    proof {
        lemma_first_marker(name@);
    }
    None
}

/// Index of the first `.` at or after `from`, or the length of `name`.
#[verifier::loop_isolation(false)]
fn find_dot_from(name: &[u8], from: usize) -> (r: usize)
    requires
        from <= name@.len(),
    ensures
        r == first_dot_from(name@, from as int),
        from <= r <= name@.len(),
{
    proof {
        lemma_first_dot_from(name@, from as int);
    }
    let n = name.len();
    let mut k: usize = from;
    while k < n
        invariant
            from <= k <= n,
            n == name@.len(),
            forall|j: int| from <= j < k ==> name@[j] != 46u8,
        decreases n - k,
    {
        if name[k] == 46u8 {
            return k;
        }
        k = k + 1;
    }
    n
}

/// Parse the decimal segment `name[start..end]` into a `usize`.
#[verifier::loop_isolation(false)]
fn parse_digits(name: &[u8], start: usize, end: usize) -> (r: Option<usize>)
    requires
        start <= end <= name@.len(),
    ensures
        ({
            let seg = name@.subrange(start as int, end as int);
            match r {
                Some(v) => seg.len() > 0 && all_digits(seg) && v as nat == digits_value(seg),
                None => !(seg.len() > 0 && all_digits(seg) && digits_value(seg) <= usize::MAX
                    as nat),
            }
        }),
{
    let ghost seg = name@.subrange(start as int, end as int);
    if start == end {
        return None;
    }
    let mut acc: usize = 0;
    let mut k: usize = start;
    while k < end
        invariant
            start <= k <= end <= name@.len(),
            seg == name@.subrange(start as int, end as int),
            all_digits(seg.take(k - start)),
            acc as nat == digits_value(seg.take(k - start)),
        decreases end - k,
    {
        let b = name[k];
        assert(seg[k - start] == name@[k as int]);
        if !(48u8 <= b && b <= 57u8) {
            return None;
        }
        let d = (b - 48u8) as usize;
        assert(seg.take(k - start + 1).drop_last() =~= seg.take(k - start));
        let shifted = match acc.checked_mul(10) {
            Some(m) => m,
            None => {
                proof {
                    lemma_digits_value_prefix(seg, k - start + 1);
                }
                return None;
            },
        };
        let next = match shifted.checked_add(d) {
            Some(m) => m,
            None => {
                proof {
                    lemma_digits_value_prefix(seg, k - start + 1);
                }
                return None;
            },
        };
        acc = next;
        k = k + 1;
    }
    assert(seg.take(k - start) =~= seg);
    Some(acc)
}

/// The decimal digit string of `n`, most significant digit first, without
/// leading zeros (`0` alone for zero).
pub open spec fn dec_digits(n: nat) -> Seq<u8>
    decreases n,
{
    if n < 10 {
        seq![(n + 48) as u8]
    } else {
        dec_digits(n / 10).push((n % 10 + 48) as u8)
    }
}

/// `dec_digits` is a faithful decimal rendering: nonempty, digits only, no
/// leading zero on a positive value, and parsing it back yields `n`.
pub proof fn lemma_dec_digits(n: nat)
    ensures
        dec_digits(n).len() >= 1,
        all_digits(dec_digits(n)),
        digits_value(dec_digits(n)) == n,
        n >= 1 ==> dec_digits(n)[0] != 48u8,
        n < 10 ==> dec_digits(n) == seq![(n + 48) as u8],
    decreases n,
{
    if n < 10 {
        let s = seq![(n + 48) as u8];
        assert(s.drop_last() =~= Seq::<u8>::empty());
        assert(digits_value(Seq::<u8>::empty()) == 0);
        assert(digits_value(s) == digit_val(s[0]));
    } else {
        lemma_dec_digits(n / 10);
        let s = dec_digits(n / 10);
        let d = (n % 10 + 48) as u8;
        assert(s.push(d).drop_last() =~= s);
        assert(digits_value(s.push(d)) == digits_value(s) * 10 + digit_val(d));
        assert(n / 10 * 10 + n % 10 == n) by {
            vstd::arithmetic::div_mod::lemma_fundamental_div_mod(n as int, 10);
        }
        assert forall|i: int| 0 <= i < s.push(d).len() implies is_ascii_digit(
            #[trigger] s.push(d)[i],
        ) by {
            if i < s.len() {
                assert(s.push(d)[i] == s[i]);
            }
        }
    }
}

/// On a well-formed frame file name -- any prefix free of the `_v` marker,
/// then `_v`, then a nonempty digit string whose value fits in `usize`,
/// then `.` and an extension -- the parser yields exactly the digits'
/// value.
pub proof fn lemma_parse_wellformed_name(prefix: Seq<u8>, digits: Seq<u8>, ext: Seq<u8>)
    requires
        forall|j: int| !marker_at(prefix, j),
        digits.len() > 0,
        all_digits(digits),
        digits_value(digits) <= usize::MAX as nat,
    ensures
        view_index_of(prefix + seq![95u8, 118u8] + digits + seq![46u8] + ext) == Some(
            digits_value(digits),
        ),
{
    let name = prefix + seq![95u8, 118u8] + digits + seq![46u8] + ext;
    let p = prefix.len() as int;
    let dlen = digits.len() as int;
    assert(name.len() == p + 2 + dlen + 1 + ext.len());
    assert forall|i: int| 0 <= i < p implies name[i] == prefix[i] by {}
    assert(name[p] == 95u8);
    assert(name[p + 1] == 118u8);
    assert forall|i: int| 0 <= i < dlen implies name[p + 2 + i] == digits[i] by {}
    assert(name[p + 2 + dlen] == 46u8);
    assert(marker_at(name, p));
    assert forall|j: int| 0 <= j < p implies !marker_at(name, j) by {
        if j < p - 1 {
            if marker_at(name, j) {
                assert(prefix[j] == 95u8 && prefix[j + 1] == 118u8);
                assert(marker_at(prefix, j));
            }
        } else {
            assert(name[j + 1] == 95u8);
        }
    }
    lemma_first_marker(name);
    let fm = first_marker(name);
    assert(fm == Some(p)) by {
        match fm {
            None => {
                assert(!marker_at(name, p));
            },
            Some(k) => {
                if k < p {
                    assert(!marker_at(name, k));
                } else if k > p {
                    assert(!marker_at(name, p));
                }
            },
        }
    }
    lemma_first_dot_from(name, p + 2);
    let e = first_dot_from(name, p + 2);
    assert(e == p + 2 + dlen) by {
        if e < p + 2 + dlen {
            assert(name[e] == digits[e - p - 2]);
            assert(is_ascii_digit(digits[e - p - 2]));
        }
        if e > p + 2 + dlen {
            assert(name[p + 2 + dlen] != 46u8);
        }
    }
    assert(name.subrange(p + 2, e) =~= digits);
}

/// Whether a file name carries the `_v` view marker at all. Names without
/// it are "unwanted": never sorted into buckets, never placed in a layout.
pub fn has_view_marker(name: &[u8]) -> (r: bool)
    ensures
        r == (first_marker(name@) is Some),
{
    match find_marker(name) {
        Some(_) => true,
        None => false,
    }
}

/// Extract the view index from a frame file name, as the decimal value of
/// the segment between the first `_v` marker and the following `.`.
/// Returns `None` on any malformed name, never failing the caller.
pub fn parse_view_index(name: &[u8]) -> (r: Option<usize>)
    ensures
        match r {
            Some(v) => view_index_of(name@) == Some(v as nat),
            None => view_index_of(name@) is None,
        },
{
    let n = name.len();
    match find_marker(name) {
        None => None,
        Some(i) => {
            proof {
                lemma_first_marker(name@);
                assert(i + 2 <= n);
                lemma_first_dot_from(name@, i + 2);
            }
            let e = find_dot_from(name, i + 2);
            parse_digits(name, i + 2, e)
        },
    }
}

} // verus!
