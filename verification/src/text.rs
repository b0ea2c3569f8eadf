//! Byte and text primitives shared by every request reader and response
//! writer: searching, decimal numbers, percent-decoding, ASCII case folding,
//! and the UTF-8 and whitespace rules of Rust strings.
use vstd::prelude::*;
use vstd::string::StringSliceAdditionalSpecFns;
use vstd::utf8::*;

verus! {

// ---------------------------------------------------------------------------
// Searching
// ---------------------------------------------------------------------------

/// `pat` occurs in `s` starting at index `i`.
pub open spec fn occurs_at(s: Seq<u8>, pat: Seq<u8>, i: int) -> bool {
    &&& 0 <= i
    &&& i + pat.len() <= s.len()
    &&& forall|k: int| 0 <= k < pat.len() ==> #[trigger] s[i + k] == pat[k]
}

/// `i` is the first index at which `pat` occurs in `s`.
pub open spec fn first_occurrence(s: Seq<u8>, pat: Seq<u8>, i: int) -> bool {
    &&& occurs_at(s, pat, i)
    &&& forall|j: int| 0 <= j < i ==> !occurs_at(s, pat, j)
}

/// Position of the first occurrence of `pat` in `s` (what
/// `s.windows(pat.len()).position(|w| w == pat)` computes).
pub open spec fn seq_pos(s: Seq<u8>, pat: Seq<u8>) -> Option<int> {
    if exists|i: int| first_occurrence(s, pat, i) {
        Some(choose|i: int| first_occurrence(s, pat, i))
    } else {
        None
    }
}

/// Position of the first byte `b` in `s`.
pub open spec fn byte_pos(s: Seq<u8>, b: u8) -> Option<int> {
    seq_pos(s, seq![b])
}

pub proof fn lemma_seq_pos_is(s: Seq<u8>, pat: Seq<u8>, i: int)
    requires
        first_occurrence(s, pat, i),
    ensures
        seq_pos(s, pat) == Some(i),
{
    let k = choose|k: int| first_occurrence(s, pat, k);
    assert(first_occurrence(s, pat, k));
    if k < i {
        assert(!occurs_at(s, pat, k));
    } else if i < k {
        assert(!occurs_at(s, pat, i));
    }
}

pub proof fn lemma_seq_pos_none(s: Seq<u8>, pat: Seq<u8>)
    requires
        forall|i: int| !occurs_at(s, pat, i),
    ensures
        seq_pos(s, pat) is None,
{
}

pub proof fn lemma_byte_occurs(s: Seq<u8>, b: u8, i: int)
    ensures
        occurs_at(s, seq![b], i) <==> (0 <= i < s.len() && s[i] == b),
{
    if 0 <= i < s.len() && s[i] == b {
        assert forall|k: int| 0 <= k < 1 implies #[trigger] s[i + k] == seq![b][k] by {
            assert(k == 0);
        }
    }
    if occurs_at(s, seq![b], i) {
        assert(s[i + 0] == seq![b][0]);
    }
}

/// The first `c` of `a` stays the first of `a` followed by more bytes.
pub proof fn lemma_byte_pos_extend(a: Seq<u8>, b: Seq<u8>, c: u8, i: int)
    requires
        byte_pos(a, c) == Some(i),
    ensures
        byte_pos(a + b, c) == Some(i),
{
    assert(exists|k: int| first_occurrence(a, seq![c], k));
    assert(first_occurrence(a, seq![c], i));
    lemma_byte_occurs(a, c, i);
    assert forall|j: int| 0 <= j < i implies (a + b)[j] != c by {
        lemma_byte_occurs(a, c, j);
    }
    lemma_byte_pos_is(a + b, c, i);
}

/// The first occurrence of `pat` in `a` stays the first in `a` followed by
/// more bytes.
pub proof fn lemma_seq_pos_extend(a: Seq<u8>, b: Seq<u8>, pat: Seq<u8>, i: int)
    requires
        seq_pos(a, pat) == Some(i),
    ensures
        seq_pos(a + b, pat) == Some(i),
{
    assert(exists|k: int| first_occurrence(a, pat, k));
    assert(first_occurrence(a, pat, i));
    assert forall|k: int| 0 <= k < pat.len() implies #[trigger] (a + b)[i + k] == pat[k] by {
        assert(a[i + k] == pat[k]);
    }
    assert forall|j: int| 0 <= j < i implies !occurs_at(a + b, pat, j) by {
        if occurs_at(a + b, pat, j) {
            assert forall|k: int| 0 <= k < pat.len() implies #[trigger] a[j + k] == pat[k] by {
                assert((a + b)[j + k] == pat[k]);
            }
            assert(occurs_at(a, pat, j));
        }
    }
    lemma_seq_pos_is(a + b, pat, i);
}

/// The first `b` in `s` is at `i`.
pub proof fn lemma_byte_pos_is(s: Seq<u8>, b: u8, i: int)
    requires
        0 <= i < s.len(),
        s[i] == b,
        forall|j: int| 0 <= j < i ==> s[j] != b,
    ensures
        byte_pos(s, b) == Some(i),
{
    assert forall|j: int| 0 <= j < i implies !occurs_at(s, seq![b], j) by {
        lemma_byte_occurs(s, b, j);
    }
    lemma_byte_occurs(s, b, i);
    lemma_seq_pos_is(s, seq![b], i);
}

/// `pat` occurs somewhere in `s`.
pub open spec fn contains_seq(s: Seq<u8>, pat: Seq<u8>) -> bool {
    exists|i: int| occurs_at(s, pat, i)
}

pub proof fn lemma_contains_iff_pos(s: Seq<u8>, pat: Seq<u8>)
    ensures
        contains_seq(s, pat) <==> seq_pos(s, pat) is Some,
        seq_pos(s, pat) matches Some(i) ==> first_occurrence(s, pat, i),
{
    if contains_seq(s, pat) {
        let w = choose|i: int| occurs_at(s, pat, i);
        lemma_first_exists(s, pat, w);
    }
}

proof fn lemma_first_exists(s: Seq<u8>, pat: Seq<u8>, w: int)
    requires
        occurs_at(s, pat, w),
    ensures
        exists|i: int| first_occurrence(s, pat, i),
    decreases w,
{
    if forall|j: int| 0 <= j < w ==> !occurs_at(s, pat, j) {
        assert(first_occurrence(s, pat, w));
    } else {
        let j = choose|j: int| 0 <= j < w && occurs_at(s, pat, j);
        lemma_first_exists(s, pat, j);
    }
}

/// Finds the first position of `b` in `s`.
pub fn find_byte(s: &[u8], b: u8) -> (r: Option<usize>)
    ensures
        r matches Some(i) ==> byte_pos(s@, b) == Some(i as int),
        r is None ==> byte_pos(s@, b) is None,
        r matches Some(i) ==> i < s@.len() && s@[i as int] == b,
{
    let mut i: usize = 0;
    while i < s.len()
        invariant
            i <= s@.len(),
            forall|j: int| 0 <= j < i ==> s@[j] != b,
        decreases s@.len() - i,
    {
        if s[i] == b {
            proof {
                assert forall|j: int| 0 <= j < i implies !occurs_at(s@, seq![b], j) by {
                    lemma_byte_occurs(s@, b, j);
                }
                lemma_byte_occurs(s@, b, i as int);
                lemma_seq_pos_is(s@, seq![b], i as int);
            }
            return Some(i);
        }
        i = i + 1;
    }
    proof {
        assert forall|j: int| !occurs_at(s@, seq![b], j) by {
            lemma_byte_occurs(s@, b, j);
        }
        lemma_seq_pos_none(s@, seq![b]);
    }
    None
}

/// Whether `pat` occurs in `s` at index `i`.
pub fn matches_at(s: &[u8], pat: &[u8], i: usize) -> (r: bool)
    ensures
        r == occurs_at(s@, pat@, i as int),
{
    if i > s.len() || pat.len() > s.len() - i {
        return false;
    }
    let mut k: usize = 0;
    while k < pat.len()
        invariant
            i + pat@.len() <= s@.len(),
            s@.len() <= usize::MAX,
            k <= pat@.len(),
            forall|m: int| 0 <= m < k ==> #[trigger] s@[i + m] == pat@[m],
        decreases pat@.len() - k,
    {
        if s[i + k] != pat[k] {
            assert(s@[i + k as int] != pat@[k as int]);
            return false;
        }
        k = k + 1;
    }
    true
}

/// Byte-for-byte equality.
pub fn bytes_equal(a: &[u8], b: &[u8]) -> (r: bool)
    ensures
        r == (a@ == b@),
{
    if a.len() != b.len() {
        return false;
    }
    let r = matches_at(a, b, 0);
    proof {
        if r {
            assert forall|k: int| 0 <= k < b@.len() implies a@[k] == b@[k] by {
                assert(a@[0 + k] == b@[k]);
            }
            assert(a@ =~= b@);
        }
        if a@ == b@ {
            assert forall|k: int| 0 <= k < b@.len() implies #[trigger] a@[0 + k] == b@[k] by {}
        }
    }
    r
}

/// Finds the first position at which `pat` occurs in `s`
/// (`s.windows(pat.len()).position(|w| w == pat)`).
pub fn find_seq(s: &[u8], pat: &[u8]) -> (r: Option<usize>)
    requires
        pat@.len() > 0,
    ensures
        r matches Some(i) ==> seq_pos(s@, pat@) == Some(i as int) && occurs_at(s@, pat@, i as int),
        r is None ==> seq_pos(s@, pat@) is None,
{
    if pat.len() > s.len() {
        proof {
            lemma_seq_pos_none(s@, pat@);
        }
        return None;
    }
    let last: usize = s.len() - pat.len();
    let mut i: usize = 0;
    while i <= last
        invariant
            last == s@.len() - pat@.len(),
            pat@.len() > 0,
            s@.len() <= usize::MAX,
            i <= last + 1,
            forall|j: int| 0 <= j < i ==> !occurs_at(s@, pat@, j),
        decreases last + 1 - i,
    {
        if matches_at(s, pat, i) {
            proof {
                lemma_seq_pos_is(s@, pat@, i as int);
            }
            return Some(i);
        }
        i = i + 1;
    }
    proof {
        lemma_seq_pos_none(s@, pat@);
    }
    None
}

/// `s` begins with `pat`.
pub fn starts_with(s: &[u8], pat: &[u8]) -> (r: bool)
    ensures
        r == (pat@.len() <= s@.len() && s@.subrange(0, pat@.len() as int) == pat@),
{
    let r = matches_at(s, pat, 0);
    proof {
        if r {
            assert forall|k: int| 0 <= k < pat@.len() implies s@.subrange(0, pat@.len() as int)[k]
                == pat@[k] by {
                assert(s@[0 + k] == pat@[k]);
            }
            assert(s@.subrange(0, pat@.len() as int) =~= pat@);
        }
        if pat@.len() <= s@.len() && s@.subrange(0, pat@.len() as int) == pat@ {
            assert forall|k: int| 0 <= k < pat@.len() implies #[trigger] s@[0 + k] == pat@[k] by {
                assert(s@.subrange(0, pat@.len() as int)[k] == pat@[k]);
            }
        }
    }
    r
}

/// `s` ends with `pat`.
pub fn ends_with(s: &[u8], pat: &[u8]) -> (r: bool)
    ensures
        r == (pat@.len() <= s@.len() && s@.subrange(s@.len() - pat@.len(), s@.len() as int)
            == pat@),
{
    if pat.len() > s.len() {
        return false;
    }
    let start: usize = s.len() - pat.len();
    let r = matches_at(s, pat, start);
    proof {
        let t = s@.subrange(s@.len() - pat@.len(), s@.len() as int);
        if r {
            assert forall|k: int| 0 <= k < pat@.len() implies t[k] == pat@[k] by {
                assert(s@[start + k] == pat@[k]);
            }
            assert(t =~= pat@);
        }
        if t == pat@ {
            assert forall|k: int| 0 <= k < pat@.len() implies #[trigger] s@[start + k] == pat@[k] by {
                assert(t[k] == pat@[k]);
            }
        }
    }
    r
}

// ---------------------------------------------------------------------------
// Decimal numbers
// ---------------------------------------------------------------------------

pub open spec fn is_digit(b: u8) -> bool {
    48 <= b <= 57
}

pub open spec fn all_digits(s: Seq<u8>) -> bool {
    forall|i: int| 0 <= i < s.len() ==> is_digit(#[trigger] s[i])
}

/// The number that a run of ASCII digits denotes.
pub open spec fn digits_value(s: Seq<u8>) -> nat
    decreases s.len(),
{
    if s.len() == 0 {
        0
    } else {
        10 * digits_value(s.drop_last()) + (s.last() - 48) as nat
    }
}

/// What `str::parse::<usize>` gives for the text `s`: an optional leading
/// `+` (when something follows it), then one or more ASCII digits whose
/// value fits in a `usize`.
pub open spec fn parse_usize_spec(s: Seq<u8>) -> Option<usize> {
    let d = if s.len() > 1 && s[0] == 43 {
        s.drop_first()
    } else {
        s
    };
    if d.len() > 0 && all_digits(d) && digits_value(d) <= usize::MAX {
        Some(digits_value(d) as usize)
    } else {
        None
    }
}

proof fn lemma_digits_value_prefix_le(s: Seq<u8>, k: int)
    requires
        0 <= k <= s.len(),
        all_digits(s),
    ensures
        digits_value(s.subrange(0, k)) <= digits_value(s),
    decreases s.len() - k,
{
    if k < s.len() {
        lemma_digits_value_prefix_le(s, k + 1);
        let p = s.subrange(0, k + 1);
        assert(p.drop_last() =~= s.subrange(0, k));
    } else {
        assert(s.subrange(0, k) =~= s);
    }
}

/// Parses decimal text as `str::parse::<usize>` does.
pub fn parse_usize(s: &[u8]) -> (r: Option<usize>)
    ensures
        r == parse_usize_spec(s@),
{
    let start: usize = if s.len() > 1 && s[0] == 43u8 {
        1
    } else {
        0
    };
    let ghost d = if s@.len() > 1 && s@[0] == 43 {
        s@.drop_first()
    } else {
        s@
    };
    assert(d =~= s@.subrange(start as int, s@.len() as int));
    if start >= s.len() {
        return None;
    }
    let mut acc: usize = 0;
    let mut i: usize = start;
    let mut overflow: bool = false;
    while i < s.len()
        invariant
            start <= i <= s@.len(),
            d == (if s@.len() > 1 && s@[0] == 43 {
                s@.drop_first()
            } else {
                s@
            }),
            d =~= s@.subrange(start as int, s@.len() as int),
            forall|j: int| start <= j < i ==> is_digit(#[trigger] s@[j]),
            !overflow ==> acc == digits_value(s@.subrange(start as int, i as int)),
            overflow ==> digits_value(s@.subrange(start as int, i as int)) > usize::MAX,
        decreases s@.len() - i,
    {
        let c = s[i];
        if c < 48u8 || c > 57u8 {
            proof {
                assert(!is_digit(d[i - start]));
            }
            return None;
        }
        let ghost p = s@.subrange(start as int, i as int + 1);
        proof {
            assert(p.drop_last() =~= s@.subrange(start as int, i as int));
            assert(p.last() == c);
        }
        if !overflow {
            let dv: usize = (c - 48u8) as usize;
            if acc > (usize::MAX - dv) / 10 {
                overflow = true;
                proof {
                    assert(digits_value(p) == 10 * acc + dv);
                    assert(10 * acc + dv > usize::MAX) by (nonlinear_arith)
                        requires
                            acc > (usize::MAX - dv) / 10,
                            dv <= 9,
                    ;
                }
            } else {
                proof {
                    assert(10 * acc + dv <= usize::MAX) by (nonlinear_arith)
                        requires
                            acc <= (usize::MAX - dv) / 10,
                            dv <= 9,
                    ;
                }
                acc = acc * 10 + dv;
            }
        } else {
            proof {
                assert(digits_value(p) >= 10 * digits_value(p.drop_last()));
            }
        }
        i = i + 1;
    }
    proof {
        assert(s@.subrange(start as int, i as int) =~= d);
        assert(all_digits(d));
    }
    if overflow {
        None
    } else {
        Some(acc)
    }
}

/// Decimal digits of `n`, without leading zeros.
pub open spec fn decimal(n: nat) -> Seq<u8>
    decreases n,
{
    if n < 10 {
        seq![(48 + n) as u8]
    } else {
        decimal(n / 10) + seq![(48 + n % 10) as u8]
    }
}

pub proof fn lemma_decimal_digits(n: nat)
    ensures
        all_digits(decimal(n)),
        decimal(n).len() > 0,
        digits_value(decimal(n)) == n,
    decreases n,
{
    if n >= 10 {
        lemma_decimal_digits(n / 10);
        let s = decimal(n);
        assert(s.drop_last() =~= decimal(n / 10));
        assert(n == 10 * (n / 10) + n % 10) by (nonlinear_arith);
        assert(s.last() == (48 + n % 10) as u8);
        assert(digits_value(s) == 10 * digits_value(s.drop_last()) + (s.last() - 48) as nat);
        assert(digits_value(s.drop_last()) == n / 10);
        assert(digits_value(s) == n);
    } else {
        let s = decimal(n);
        assert(s.drop_last() =~= Seq::<u8>::empty());
        assert(digits_value(s.drop_last()) == 0);
        assert(s.last() == (48 + n) as u8);
        assert(digits_value(s) == n);
    }
}

/// Text made of ASCII bytes only is well-formed UTF-8.
pub proof fn lemma_ascii_valid_utf8(s: Seq<u8>)
    requires
        forall|i: int| 0 <= i < s.len() ==> s[i] < 128,
    ensures
        valid_utf8(s),
{
    assert(s.subrange(0, 0) =~= Seq::<u8>::empty());
    assert(valid_utf8(Seq::<u8>::empty()));
    assert(partial_valid_utf8(s, 0));
    assert forall|i: int| 0 <= 0 <= i < s.len() <= s.len() implies #[trigger] is_leading_byte_width_1(s[i]) by {}
    partial_valid_utf8_extend_ascii_block(s, 0, s.len() as int);
    assert(s.subrange(0, s.len() as int) =~= s);
}

/// `decimal(n)` reads back as `n`, and is ASCII.
pub proof fn lemma_decimal_parses(n: usize)
    ensures
        parse_usize_spec(decimal(n as nat)) == Some(n),
        valid_utf8(decimal(n as nat)),
        forall|i: int| 0 <= i < decimal(n as nat).len() ==> is_digit(#[trigger] decimal(n as nat)[i]),
{
    lemma_decimal_digits(n as nat);
    let d = decimal(n as nat);
    assert(is_digit(d[0]));
    lemma_ascii_valid_utf8(d);
}

/// Decimal digits are text.
pub proof fn lemma_decimal_text(n: nat)
    ensures
        valid_utf8(decimal(n)),
{
    lemma_decimal_digits(n);
    let d = decimal(n);
    assert forall|i: int| 0 <= i < d.len() implies d[i] < 128 by {
        assert(is_digit(d[i]));
    }
    lemma_ascii_valid_utf8(d);
}

/// Writes `n` in decimal.
pub fn decimal_u64(n: u64) -> (r: Vec<u8>)
    ensures
        r@ == decimal(n as nat),
    decreases n,
{
    if n < 10 {
        let mut v: Vec<u8> = Vec::new();
        v.push((48 + n) as u8);
        assert(v@ =~= decimal(n as nat));
        v
    } else {
        let mut v = decimal_u64(n / 10);
        v.push((48 + n % 10) as u8);
        assert(v@ =~= decimal(n as nat));
        v
    }
}

/// Writes `n` in decimal.
pub fn decimal_bytes(n: usize) -> (r: Vec<u8>)
    ensures
        r@ == decimal(n as nat),
    decreases n,
{
    if n < 10 {
        let mut v: Vec<u8> = Vec::new();
        v.push((48 + n) as u8);
        assert(v@ =~= decimal(n as nat));
        v
    } else {
        let mut v = decimal_bytes(n / 10);
        v.push((48 + n % 10) as u8);
        assert(v@ =~= decimal(n as nat));
        v
    }
}

// ---------------------------------------------------------------------------
// Percent-decoding
// ---------------------------------------------------------------------------

pub open spec fn hex_value(b: u8) -> Option<u8> {
    if 48 <= b <= 57 {
        Some((b - 48) as u8)
    } else if 97 <= b <= 102 {
        Some((b - 87) as u8)
    } else if 65 <= b <= 70 {
        Some((b - 55) as u8)
    } else {
        None
    }
}

/// What `u8::from_str_radix` gives for the two-byte text `[a, b]` in base 16:
/// two hex digits, or `+` followed by one hex digit.
pub open spec fn hex_pair(a: u8, b: u8) -> Option<u8> {
    if a == 43 {
        hex_value(b)
    } else {
        match (hex_value(a), hex_value(b)) {
            (Some(x), Some(y)) => Some((16 * x + y) as u8),
            _ => None,
        }
    }
}

/// The bytes of `s` from index `i` on, with `%XX` escapes replaced by the
/// byte they denote and `+` replaced by a space.
pub open spec fn percent_decode_from(s: Seq<u8>, i: int) -> Seq<u8>
    decreases s.len() - i,
{
    if i < 0 || i >= s.len() {
        seq![]
    } else if s[i] == 37 && i + 2 < s.len() && hex_pair(s[i + 1], s[i + 2]) is Some {
        seq![hex_pair(s[i + 1], s[i + 2])->0] + percent_decode_from(s, i + 3)
    } else if s[i] == 43 {
        seq![32u8] + percent_decode_from(s, i + 1)
    } else {
        seq![s[i]] + percent_decode_from(s, i + 1)
    }
}

pub open spec fn percent_decode(s: Seq<u8>) -> Seq<u8> {
    percent_decode_from(s, 0)
}

fn hex_digit(b: u8) -> (r: Option<u8>)
    ensures
        r == hex_value(b),
{
    if 48u8 <= b && b <= 57u8 {
        Some(b - 48u8)
    } else if 97u8 <= b && b <= 102u8 {
        Some(b - 87u8)
    } else if 65u8 <= b && b <= 70u8 {
        Some(b - 55u8)
    } else {
        None
    }
}

fn hex_byte(a: u8, b: u8) -> (r: Option<u8>)
    ensures
        r == hex_pair(a, b),
{
    if a == 43u8 {
        hex_digit(b)
    } else {
        match (hex_digit(a), hex_digit(b)) {
            (Some(x), Some(y)) => Some(16 * x + y),
            _ => None,
        }
    }
}

/// Decodes `%XX` escapes and `+` as URL-encoded text does; a `%` not followed
/// Text without `%` and `+` is left as it is by percent-decoding.
pub proof fn lemma_percent_decode_plain(s: Seq<u8>)
    requires
        forall|i: int| 0 <= i < s.len() ==> s[i] != 37 && s[i] != 43,
    ensures
        percent_decode(s) == s,
{
    lemma_percent_decode_plain_from(s, 0);
    assert(s.subrange(0, s.len() as int) =~= s);
}

proof fn lemma_percent_decode_plain_from(s: Seq<u8>, i: int)
    requires
        0 <= i <= s.len(),
        forall|j: int| 0 <= j < s.len() ==> s[j] != 37 && s[j] != 43,
    ensures
        percent_decode_from(s, i) == s.subrange(i, s.len() as int),
    decreases s.len() - i,
{
    if i < s.len() {
        lemma_percent_decode_plain_from(s, i + 1);
        assert(seq![s[i]] + s.subrange(i + 1, s.len() as int) =~= s.subrange(i, s.len() as int));
    } else {
        assert(s.subrange(i, s.len() as int) =~= Seq::<u8>::empty());
    }
}

/// by two hex digits stays as it is.
pub fn percent_decode_bytes(s: &[u8]) -> (r: Vec<u8>)
    ensures
        r@ == percent_decode(s@),
{
    let mut out: Vec<u8> = Vec::new();
    let mut i: usize = 0;
    while i < s.len()
        invariant
            i <= s@.len(),
            out@ + percent_decode_from(s@, i as int) == percent_decode(s@),
        decreases s@.len() - i,
    {
        let ghost before = out@;
        let c = s[i];
        if c == 37u8 && s.len() - i > 2 {
            if let Some(v) = hex_byte(s[i + 1], s[i + 2]) {
                out.push(v);
                proof {
                    assert(before + percent_decode_from(s@, i as int) == before + (seq![v]
                        + percent_decode_from(s@, i + 3)));
                    assert(before + (seq![v] + percent_decode_from(s@, i + 3)) =~= out@
                        + percent_decode_from(s@, i + 3));
                }
                i = i + 3;
                continue;
            }
        }
        if c == 43u8 {
            out.push(32u8);
        } else {
            out.push(c);
        }
        proof {
            assert(out@ + percent_decode_from(s@, i + 1) =~= before + percent_decode_from(
                s@,
                i as int,
            ));
        }
        i = i + 1;
    }
    assert(percent_decode_from(s@, i as int) =~= seq![]);
    assert(out@ + seq![] =~= out@);
    out
}

// ---------------------------------------------------------------------------
// ASCII case folding
// ---------------------------------------------------------------------------

pub open spec fn ascii_lower(b: u8) -> u8 {
    if 65 <= b <= 90 {
        (b + 32) as u8
    } else {
        b
    }
}

/// Equal up to ASCII case, byte for byte (`eq_ignore_ascii_case`).
pub open spec fn eq_ignore_case(a: Seq<u8>, b: Seq<u8>) -> bool {
    &&& a.len() == b.len()
    &&& forall|i: int| 0 <= i < a.len() ==> ascii_lower(#[trigger] a[i]) == ascii_lower(b[i])
}

pub fn lower_byte(b: u8) -> (r: u8)
    ensures
        r == ascii_lower(b),
{
    if 65u8 <= b && b <= 90u8 {
        b + 32
    } else {
        b
    }
}

/// `a.eq_ignore_ascii_case(b)` on bytes.
pub fn bytes_eq_ignore_case(a: &[u8], b: &[u8]) -> (r: bool)
    ensures
        r == eq_ignore_case(a@, b@),
{
    if a.len() != b.len() {
        return false;
    }
    let mut i: usize = 0;
    while i < a.len()
        invariant
            a@.len() == b@.len(),
            i <= a@.len(),
            forall|j: int| 0 <= j < i ==> ascii_lower(#[trigger] a@[j]) == ascii_lower(b@[j]),
        decreases a@.len() - i,
    {
        if lower_byte(a[i]) != lower_byte(b[i]) {
            return false;
        }
        i = i + 1;
    }
    true
}

/// `str::eq_ignore_ascii_case`.
pub fn str_eq_ignore_case(a: &str, b: &str) -> (r: bool)
    ensures
        r == eq_ignore_case(a.spec_bytes(), b.spec_bytes()),
{
    bytes_eq_ignore_case(a.as_bytes(), b.as_bytes())
}

/// ASCII-lowercased copy (`to_ascii_lowercase`).
pub open spec fn lower_seq(s: Seq<u8>) -> Seq<u8> {
    Seq::new(s.len(), |i: int| ascii_lower(s[i]))
}

pub fn lower_bytes(s: &[u8]) -> (r: Vec<u8>)
    ensures
        r@ == lower_seq(s@),
{
    let mut out: Vec<u8> = Vec::new();
    let mut i: usize = 0;
    while i < s.len()
        invariant
            i <= s@.len(),
            out@ =~= Seq::new(i as nat, |k: int| ascii_lower(s@[k])),
        decreases s@.len() - i,
    {
        out.push(lower_byte(s[i]));
        i = i + 1;
    }
    out
}

// ---------------------------------------------------------------------------
// UTF-8 and whitespace (std's rules)
// ---------------------------------------------------------------------------

/// `std::str::from_utf8`: succeeds exactly on well-formed UTF-8, and then the
/// text's bytes are the input.
#[verifier::external_body]
pub(crate) fn utf8_str(b: &[u8]) -> (r: Option<&str>)
    ensures
        r is Some <==> valid_utf8(b@),
        r matches Some(s) ==> s.spec_bytes() == b@,
{
    std::str::from_utf8(b).ok()
}

/// The characters that Rust's `char::is_whitespace` accepts (Unicode
/// White_Space).
pub open spec fn is_white_space(c: char) -> bool {
    let u = c as u32;
    ||| 9 <= u <= 13
    ||| u == 32
    ||| u == 0x85
    ||| u == 0xA0
    ||| u == 0x1680
    ||| 0x2000 <= u <= 0x200A
    ||| u == 0x2028
    ||| u == 0x2029
    ||| u == 0x202F
    ||| u == 0x205F
    ||| u == 0x3000
}

/// `s` with leading and trailing White_Space characters removed.
pub open spec fn trim_chars(s: Seq<char>) -> Seq<char> {
    let lead = if exists|i: int| 0 <= i < s.len() && !is_white_space(s[i]) {
        choose|i: int|
            0 <= i < s.len() && !is_white_space(s[i]) && forall|j: int|
                0 <= j < i ==> is_white_space(#[trigger] s[j])
    } else {
        s.len() as int
    };
    let end = if exists|i: int| 0 <= i < s.len() && !is_white_space(s[i]) {
        choose|i: int|
            0 <= i < s.len() && !is_white_space(s[i]) && forall|j: int|
                i < j < s.len() ==> is_white_space(#[trigger] s[j])
    } else {
        s.len() as int - 1
    };
    s.subrange(lead, end + 1)
}

/// `str::trim`: removes leading and trailing White_Space characters.
#[verifier::external_body]
pub(crate) fn trim_str(s: &str) -> (r: &str)
    ensures
        r@ == trim_chars(s@),
{
    s.trim()
}

} // verus!
