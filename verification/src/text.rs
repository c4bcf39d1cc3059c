//! Byte-string utilities shared by the port-spec parser, the probe-database
//! parser and the response matcher. All contracts are stated over `Seq<u8>`,
//! the view of byte slices; textual inputs reach these functions through
//! `str::as_bytes`.

use vstd::prelude::*;

verus! {

/// ASCII whitespace, as trimming and token splitting understand it.
pub open spec fn is_ws(b: u8) -> bool {
    b == 32 || b == 9 || b == 10 || b == 13 || b == 11 || b == 12
}

/// ASCII decimal digit.
pub open spec fn is_digit(b: u8) -> bool {
    48 <= b <= 57
}

pub(crate) fn is_ws_byte(b: u8) -> (r: bool)
    ensures
        r == is_ws(b),
{
    b == 32 || b == 9 || b == 10 || b == 13 || b == 11 || b == 12
}

/// The input with leading ASCII whitespace removed.
pub open spec fn trim_start_spec(s: Seq<u8>) -> Seq<u8>
    decreases s.len(),
{
    if s.len() > 0 && is_ws(s[0]) {
        trim_start_spec(s.drop_first())
    } else {
        s
    }
}

/// The input with trailing ASCII whitespace removed.
pub open spec fn trim_end_spec(s: Seq<u8>) -> Seq<u8>
    decreases s.len(),
{
    if s.len() > 0 && is_ws(s.last()) {
        trim_end_spec(s.drop_last())
    } else {
        s
    }
}

/// The input with both leading and trailing ASCII whitespace removed.
pub open spec fn trim_spec(s: Seq<u8>) -> Seq<u8> {
    trim_end_spec(trim_start_spec(s))
}

proof fn lemma_trim_start_at(s: Seq<u8>, i: int)
    requires
        0 <= i <= s.len(),
        forall|k: int| 0 <= k < i ==> is_ws(s[k]),
        i < s.len() ==> !is_ws(s[i]),
    ensures
        trim_start_spec(s) == s.skip(i),
    decreases i,
{
    if i == 0 {
        assert(s.skip(0) =~= s);
    } else {
        lemma_trim_start_at(s.drop_first(), i - 1);
        assert(s.drop_first().skip(i - 1) =~= s.skip(i));
    }
}

proof fn lemma_trim_end_at(s: Seq<u8>, j: int)
    requires
        0 <= j <= s.len(),
        forall|k: int| j <= k < s.len() ==> is_ws(s[k]),
        j > 0 ==> !is_ws(s[j - 1]),
    ensures
        trim_end_spec(s) == s.take(j),
    decreases s.len() - j,
{
    if j == s.len() {
        assert(s.take(j) =~= s);
    } else {
        lemma_trim_end_at(s.drop_last(), j);
        assert(s.drop_last().take(j) =~= s.take(j));
    }
}

/// Removes leading and trailing ASCII whitespace.
pub(crate) fn trim_bytes(s: &[u8]) -> (r: &[u8])
    ensures
        r@ == trim_spec(s@),
{
    let mut i: usize = 0;
    while i < s.len() && is_ws_byte(s[i])
        invariant
            0 <= i <= s@.len(),
            forall|k: int| 0 <= k < i ==> is_ws(s@[k]),
        decreases s@.len() - i,
    {
        i = i + 1;
    }
    let mut j: usize = s.len();
    while j > i && is_ws_byte(s[j - 1])
        invariant
            i <= j <= s@.len(),
            forall|k: int| j <= k < s@.len() ==> is_ws(s@[k]),
        decreases j,
    {
        j = j - 1;
    }
    proof {
        lemma_trim_start_at(s@, i as int);
        if j == i {
            lemma_trim_end_at(s@.skip(i as int), 0);
        } else {
            lemma_trim_end_at(s@.skip(i as int), j - i);
        }
        assert(s@.skip(i as int).take(j - i) =~= s@.subrange(i as int, j as int));
    }
    vstd::slice::slice_subrange(s, i, j)
}

/// Index of the first occurrence of `b` in `s`, or `s.len()` if absent.
pub open spec fn find_idx(s: Seq<u8>, b: u8) -> int
    decreases s.len(),
{
    if s.len() == 0 {
        0
    } else if s[0] == b {
        0
    } else {
        1 + find_idx(s.drop_first(), b)
    }
}

pub proof fn lemma_find_idx(s: Seq<u8>, b: u8)
    ensures
        0 <= find_idx(s, b) <= s.len(),
        find_idx(s, b) < s.len() ==> s[find_idx(s, b)] == b,
        forall|k: int| 0 <= k < find_idx(s, b) ==> s[k] != b,
    decreases s.len(),
{
    if s.len() > 0 && s[0] != b {
        lemma_find_idx(s.drop_first(), b);
        assert forall|k: int| 0 <= k < find_idx(s, b) implies s[k] != b by {
            if k > 0 {
                assert(s[k] == s.drop_first()[k - 1]);
            }
        }
    }
}

/// `find_idx` is pinned down by its characteristic properties.
pub proof fn lemma_find_idx_is(s: Seq<u8>, b: u8, i: int)
    requires
        0 <= i <= s.len(),
        i < s.len() ==> s[i] == b,
        forall|k: int| 0 <= k < i ==> s[k] != b,
    ensures
        find_idx(s, b) == i,
    decreases i,
{
    if s.len() == 0 || s[0] == b {
    } else {
        lemma_find_idx_is(s.drop_first(), b, i - 1);
    }
}

/// Index one past the last occurrence of `b` in `s`, or `0` if absent
/// (so the last occurrence itself, when there is one, is at the result minus one).
pub open spec fn rfind_end(s: Seq<u8>, b: u8) -> int
    decreases s.len(),
{
    if s.len() == 0 {
        0
    } else if s.last() == b {
        s.len() as int
    } else {
        rfind_end(s.drop_last(), b)
    }
}

pub proof fn lemma_rfind_end(s: Seq<u8>, b: u8)
    ensures
        0 <= rfind_end(s, b) <= s.len(),
        rfind_end(s, b) > 0 ==> s[rfind_end(s, b) - 1] == b,
        forall|k: int| rfind_end(s, b) <= k < s.len() ==> s[k] != b,
    decreases s.len(),
{
    if s.len() > 0 && s.last() != b {
        lemma_rfind_end(s.drop_last(), b);
        assert forall|k: int| rfind_end(s, b) <= k < s.len() implies s[k] != b by {
            if k < s.len() - 1 {
                assert(s[k] == s.drop_last()[k]);
            }
        }
    }
}

pub proof fn lemma_rfind_end_is(s: Seq<u8>, b: u8, i: int)
    requires
        0 <= i <= s.len(),
        i > 0 ==> s[i - 1] == b,
        forall|k: int| i <= k < s.len() ==> s[k] != b,
    ensures
        rfind_end(s, b) == i,
    decreases s.len() - i,
{
    if s.len() == 0 || s.last() == b {
    } else {
        lemma_rfind_end_is(s.drop_last(), b, i);
    }
}

/// First index of byte `b` in `s`, or `s.len()` when `b` does not occur.
pub(crate) fn find_byte(s: &[u8], b: u8) -> (r: usize)
    ensures
        r as int == find_idx(s@, b),
{
    let mut i: usize = 0;
    while i < s.len() && s[i] != b
        invariant
            0 <= i <= s@.len(),
            forall|k: int| 0 <= k < i ==> s@[k] != b,
        decreases s@.len() - i,
    {
        i = i + 1;
    }
    proof {
        lemma_find_idx_is(s@, b, i as int);
    }
    i
}

/// One past the last index of byte `b` in `s`, or `0` when `b` does not occur.
pub(crate) fn rfind_byte_end(s: &[u8], b: u8) -> (r: usize)
    ensures
        r as int == rfind_end(s@, b),
{
    let mut j: usize = s.len();
    while j > 0 && s[j - 1] != b
        invariant
            0 <= j <= s@.len(),
            forall|k: int| j <= k < s@.len() ==> s@[k] != b,
        decreases j,
    {
        j = j - 1;
    }
    proof {
        lemma_rfind_end_is(s@, b, j as int);
    }
    j
}

/// Equality of two byte strings.
pub(crate) fn bytes_eq(a: &[u8], b: &[u8]) -> (r: bool)
    ensures
        r == (a@ == b@),
{
    if a.len() != b.len() {
        proof {
            assert(a@.len() != b@.len());
        }
        return false;
    }
    let mut i: usize = 0;
    while i < a.len()
        invariant
            0 <= i <= a@.len(),
            a@.len() == b@.len(),
            forall|k: int| 0 <= k < i ==> a@[k] == b@[k],
        decreases a@.len() - i,
    {
        if a[i] != b[i] {
            return false;
        }
        i = i + 1;
    }
    proof {
        assert(a@ =~= b@);
    }
    true
}

/// The parts of `s` between occurrences of the separator, in order; an input
/// without the separator is one part, and adjacent separators yield empty parts.
pub open spec fn split_on(s: Seq<u8>, sep: u8) -> Seq<Seq<u8>>
    decreases s.len(),
    via split_on_decreases
{
    let k = find_idx(s, sep);
    if k == s.len() {
        seq![s]
    } else {
        seq![s.take(k)] + split_on(s.skip(k + 1), sep)
    }
}

#[via_fn]
proof fn split_on_decreases(s: Seq<u8>, sep: u8) {
    lemma_find_idx(s, sep);
}

proof fn lemma_split_on_unfold(s: Seq<u8>, sep: u8, k: int)
    requires
        0 <= k <= s.len(),
        k < s.len() ==> s[k] == sep,
        forall|j: int| 0 <= j < k ==> s[j] != sep,
    ensures
        k == s.len() ==> split_on(s, sep) == seq![s],
        k < s.len() ==> split_on(s, sep) == seq![s.take(k)] + split_on(s.skip(k + 1), sep),
{
    lemma_find_idx_is(s, sep, k);
    lemma_find_idx(s, sep);
}

/// Splits `s` on the separator byte, keeping empty parts.
pub(crate) fn split_bytes(s: &[u8], sep: u8) -> (r: Vec<Vec<u8>>)
    ensures
        r.deep_view() == split_on(s@, sep),
{
    let mut parts: Vec<Vec<u8>> = Vec::new();
    let mut start: usize = 0;
    let mut i: usize = 0;
    proof {
        assert(s@.skip(0) =~= s@);
        assert(parts.deep_view() =~= Seq::<Seq<u8>>::empty());
        assert(Seq::<Seq<u8>>::empty() + split_on(s@, sep) =~= split_on(s@, sep));
    }
    while i < s.len()
        invariant
            0 <= start <= i <= s@.len(),
            forall|k: int| start <= k < i ==> s@[k] != sep,
            split_on(s@, sep) == parts.deep_view() + split_on(s@.skip(start as int), sep),
        decreases s@.len() - i,
    {
        if s[i] == sep {
            let part = vstd::slice::slice_to_vec(vstd::slice::slice_subrange(s, start, i));
            let ghost pdv = parts.deep_view();
            proof {
                let tail = s@.skip(start as int);
                lemma_split_on_unfold(tail, sep, i - start);
                assert(tail.take(i - start) =~= s@.subrange(start as int, i as int));
                assert(tail.skip(i - start + 1) =~= s@.skip(i + 1));
            }
            parts.push(part);
            proof {
                assert(parts.deep_view() =~~= pdv + seq![part@]);
                assert((pdv + seq![part@]) + split_on(s@.skip(i + 1), sep) =~= pdv + (seq![part@]
                    + split_on(s@.skip(i + 1), sep)));
            }
            start = i + 1;
        }
        i = i + 1;
    }
    let last = vstd::slice::slice_to_vec(vstd::slice::slice_subrange(s, start, s.len()));
    let ghost pdv = parts.deep_view();
    proof {
        let tail = s@.skip(start as int);
        lemma_split_on_unfold(tail, sep, tail.len() as int);
        assert(tail =~= s@.subrange(start as int, s@.len() as int));
    }
    parts.push(last);
    proof {
        assert(parts.deep_view() =~~= pdv + seq![last@]);
        assert(pdv + seq![s@.skip(start as int)] =~= pdv + split_on(s@.skip(start as int), sep));
    }
    parts
}

/// Numeric value of a string of decimal digits, most significant first.
pub open spec fn digits_val(s: Seq<u8>) -> int
    decreases s.len(),
{
    if s.len() == 0 {
        0
    } else {
        digits_val(s.drop_last()) * 10 + (s.last() - 48)
    }
}

/// ASCII lowercase of one byte.
pub open spec fn lower_byte(b: u8) -> u8 {
    if 65 <= b <= 90 {
        (b + 32) as u8
    } else {
        b
    }
}

/// ASCII lowercase of a byte string.
pub open spec fn lower_of(s: Seq<u8>) -> Seq<u8> {
    s.map_values(|b: u8| lower_byte(b))
}

/// Maps a byte string to ASCII lowercase.
pub(crate) fn to_lower_bytes(s: &[u8]) -> (r: Vec<u8>)
    ensures
        r@ == lower_of(s@),
{
    let mut out: Vec<u8> = Vec::new();
    let mut i: usize = 0;
    while i < s.len()
        invariant
            0 <= i <= s@.len(),
            out@.len() == i,
            forall|k: int| 0 <= k < i ==> out@[k] == lower_byte(s@[k]),
        decreases s@.len() - i,
    {
        let b = s[i];
        if 65 <= b && b <= 90 {
            out.push(b + 32);
        } else {
            out.push(b);
        }
        i = i + 1;
    }
    proof {
        assert(out@ =~= lower_of(s@));
    }
    out
}

/// Whether `n` occurs in `h` as a contiguous run of bytes.
pub open spec fn contains_seq(h: Seq<u8>, n: Seq<u8>) -> bool {
    exists|i: int| 0 <= i && i + n.len() <= h.len() && #[trigger] h.subrange(i, i + n.len()) == n
}

/// Whether `n` occurs in `h` starting at position `i`.
fn match_at(h: &[u8], n: &[u8], i: usize) -> (r: bool)
    requires
        i + n@.len() <= h@.len(),
    ensures
        r == (h@.subrange(i as int, i as int + n@.len() as int) == n@),
{
    let hl: usize = h.len();
    proof {
        assert(hl == h@.len());
    }
    let mut k: usize = 0;
    while k < n.len()
        invariant
            0 <= k <= n@.len(),
            i + n@.len() <= h@.len(),
            h@.len() <= usize::MAX,
            forall|j: int| 0 <= j < k ==> h@[i + j] == n@[j],
        decreases n@.len() - k,
    {
        if h[i + k] != n[k] {
            proof {
                assert(h@.subrange(i as int, i as int + n@.len() as int)[k as int] == h@[i + k]);
            }
            return false;
        }
        k = k + 1;
    }
    proof {
        assert(h@.subrange(i as int, i as int + n@.len() as int) =~= n@);
    }
    true
}

/// Substring search, as `str::contains` decides it on ASCII text.
pub(crate) fn contains_bytes(h: &[u8], n: &[u8]) -> (r: bool)
    ensures
        r == contains_seq(h@, n@),
{
    if n.len() > h.len() {
        return false;
    }
    if n.len() == 0 {
        proof {
            assert(h@.subrange(0, 0 + n@.len() as int) =~= n@);
        }
        return true;
    }
    let hl: usize = h.len();
    proof {
        assert(hl == h@.len());
    }
    let mut i: usize = 0;
    while i <= h.len() - n.len()
        invariant
            1 <= n@.len() <= h@.len(),
            h@.len() <= usize::MAX,
            0 <= i <= h@.len() - n@.len() + 1,
            forall|j: int| 0 <= j < i ==> #[trigger] h@.subrange(j, j + n@.len()) != n@,
        decreases h@.len() - n@.len() + 1 - i,
    {
        if match_at(h, n, i) {
            return true;
        }
        i = i + 1;
    }
    false
}

pub open spec fn all_digits(s: Seq<u8>) -> bool {
    forall|k: int| 0 <= k < s.len() ==> is_digit(s[k])
}

/// The value of a pure digit string, when it has one and it is at most `max`.
pub open spec fn digits_to_val(d: Seq<u8>, max: int) -> Option<int> {
    if d.len() >= 1 && all_digits(d) && digits_val(d) <= max {
        Some(digits_val(d))
    } else {
        None
    }
}

/// What `from_str` for an unsigned integer type with maximum `max` accepts:
/// an optional leading `+`, then one or more decimal digits whose value fits.
pub open spec fn parse_dec_spec(s: Seq<u8>, max: int) -> Option<int> {
    if s.len() >= 1 && s[0] == 43 {
        digits_to_val(s.drop_first(), max)
    } else {
        digits_to_val(s, max)
    }
}

/// What `u16::from_str` accepts, and the port it denotes.
pub open spec fn parse_u16_spec(s: Seq<u8>) -> Option<u16> {
    match parse_dec_spec(s, 65535) {
        Some(v) => Some(v as u16),
        None => None,
    }
}

proof fn lemma_digits_val_bounds(s: Seq<u8>)
    requires
        forall|k: int| 0 <= k < s.len() ==> is_digit(s[k]),
    ensures
        digits_val(s) >= 0,
        s.len() > 0 && s[0] > 48 ==> digits_val(s) >= 1,
    decreases s.len(),
{
    if s.len() > 0 {
        lemma_digits_val_bounds(s.drop_last());
        if s.len() > 1 {
            assert(s.drop_last()[0] == s[0]);
        }
    }
}

/// Parses an unsigned decimal with an optional leading `+`, bounded by `max`,
/// exactly as `from_str` for an unsigned integer type with that maximum would.
pub(crate) fn parse_dec_bytes(s: &[u8], max: u64) -> (r: Option<u64>)
    requires
        max <= 0xFFFF_FFFF,
    ensures
        match parse_dec_spec(s@, max as int) {
            Some(v) => r == Some(v as u64),
            None => r is None,
        },
        r is Some ==> r->0 <= max,
{
    let digits: &[u8] = if s.len() >= 1 && s[0] == 43 {
        vstd::slice::slice_subrange(s, 1, s.len())
    } else {
        s
    };
    proof {
        if s@.len() >= 1 && s@[0] == 43 {
            assert(digits@ =~= s@.drop_first());
        }
    }
    if digits.len() == 0 {
        return None;
    }
    let ghost d = digits@;
    let mut acc: u64 = 0;
    let mut i: usize = 0;
    proof {
        assert(d.take(0) =~= Seq::<u8>::empty());
    }
    while i < digits.len()
        invariant
            0 <= i <= d.len(),
            d.len() >= 1,
            d == digits@,
            max <= 0xFFFF_FFFF,
            parse_dec_spec(s@, max as int) == digits_to_val(d, max as int),
            forall|k: int| 0 <= k < i ==> is_digit(d[k]),
            acc as int == digits_val(d.take(i as int)),
            acc <= max,
        decreases d.len() - i,
    {
        let b = digits[i];
        if b < 48 || b > 57 {
            proof {
                assert(!is_digit(d[i as int]));
                assert(!all_digits(d));
            }
            return None;
        }
        let next: u64 = acc * 10 + (b - 48) as u64;
        proof {
            assert(d.take(i + 1).drop_last() =~= d.take(i as int));
            assert(d.take(i + 1).last() == d[i as int]);
            assert(digits_val(d.take(i + 1)) == next as int);
        }
        if next > max {
            proof {
                if all_digits(d) {
                    lemma_digits_prefix_monotone(d, i + 1);
                    assert(digits_val(d) > max);
                }
                assert(digits_to_val(d, max as int) is None);
            }
            return None;
        }
        acc = next;
        i = i + 1;
    }
    proof {
        assert(d.take(i as int) =~= d);
    }
    Some(acc)
}

/// Parses a `u16` from decimal digits with an optional leading `+`,
/// exactly as `u16::from_str` would.
pub(crate) fn parse_u16_bytes(s: &[u8]) -> (r: Option<u16>)
    ensures
        r == parse_u16_spec(s@),
{
    proof {
        if s@.len() >= 1 && s@[0] == 43 {
            if all_digits(s@.drop_first()) {
                lemma_digits_val_bounds(s@.drop_first());
            }
        } else {
            if all_digits(s@) {
                lemma_digits_val_bounds(s@);
            }
        }
    }
    match parse_dec_bytes(s, 65535) {
        Some(v) => Some(v as u16),
        None => None,
    }
}

/// Extending a digit string never decreases its value.
proof fn lemma_digits_prefix_monotone(s: Seq<u8>, i: int)
    requires
        0 <= i <= s.len(),
        forall|k: int| 0 <= k < s.len() ==> is_digit(s[k]),
    ensures
        digits_val(s) >= digits_val(s.take(i)),
    decreases s.len() - i,
{
    lemma_digits_val_bounds(s);
    if i == s.len() {
        assert(s.take(i) =~= s);
    } else {
        lemma_digits_prefix_monotone(s, i + 1);
        assert(s.take(i + 1).drop_last() =~= s.take(i));
        assert(s.take(i + 1).last() == s[i]);
        assert(digits_val(s.take(i + 1)) == digits_val(s.take(i)) * 10 + (s.take(i + 1).last()
            - 48));
        lemma_digits_val_take_bounds(s, i);
    }
}

proof fn lemma_digits_val_take_bounds(s: Seq<u8>, i: int)
    requires
        0 <= i <= s.len(),
        forall|k: int| 0 <= k < s.len() ==> is_digit(s[k]),
    ensures
        digits_val(s.take(i)) >= 0,
    decreases i,
{
    if i > 0 {
        lemma_digits_val_take_bounds(s, i - 1);
        assert(s.take(i).drop_last() =~= s.take(i - 1));
    }
}

/// A parsed decimal denotes a value between zero and the bound.
pub proof fn lemma_parse_dec_range(s: Seq<u8>, max: int)
    ensures
        parse_dec_spec(s, max) is Some ==> 0 <= parse_dec_spec(s, max)->0 <= max,
{
    if parse_dec_spec(s, max) is Some {
        if s.len() >= 1 && s[0] == 43 {
            lemma_digits_val_bounds(s.drop_first());
        } else {
            lemma_digits_val_bounds(s);
        }
    }
}

/// Indexing the deep view of a vector of byte vectors is indexing the vector.
pub proof fn lemma_deep_view_bytes(v: Vec<Vec<u8>>)
    ensures
        v.deep_view().len() == v@.len(),
        forall|j: int| 0 <= j < v@.len() ==> v.deep_view()[j] == #[trigger] v@[j]@,
{
    assert forall|j: int| 0 <= j < v@.len() implies v.deep_view()[j] == #[trigger] v@[j]@ by {
        assert(v.deep_view()[j] =~= v@[j]@);
    }
}

/// Length of the maximal non-whitespace prefix of `s`.
pub open spec fn token_len(s: Seq<u8>) -> int
    decreases s.len(),
{
    if s.len() == 0 || is_ws(s[0]) {
        0
    } else {
        1 + token_len(s.drop_first())
    }
}

proof fn lemma_token_len(s: Seq<u8>)
    ensures
        0 <= token_len(s) <= s.len(),
        token_len(s) < s.len() ==> is_ws(s[token_len(s)]),
        forall|k: int| 0 <= k < token_len(s) ==> !is_ws(s[k]),
    decreases s.len(),
{
    if s.len() > 0 && !is_ws(s[0]) {
        lemma_token_len(s.drop_first());
        assert forall|k: int| 0 <= k < token_len(s) implies !is_ws(s[k]) by {
            if k > 0 {
                assert(s[k] == s.drop_first()[k - 1]);
            }
        }
    }
}

proof fn lemma_token_len_is(s: Seq<u8>, t: int)
    requires
        0 <= t <= s.len(),
        forall|k: int| 0 <= k < t ==> !is_ws(s[k]),
        t < s.len() ==> is_ws(s[t]),
    ensures
        token_len(s) == t,
    decreases t,
{
    if s.len() == 0 || is_ws(s[0]) {
    } else {
        lemma_token_len_is(s.drop_first(), t - 1);
    }
}

/// The whitespace-separated tokens of `s`, in order, never empty,
/// as `str::split_whitespace` yields them on ASCII text.
pub open spec fn split_ws(s: Seq<u8>) -> Seq<Seq<u8>>
    decreases s.len(),
    via split_ws_decreases
{
    if s.len() == 0 {
        Seq::empty()
    } else if is_ws(s[0]) {
        split_ws(s.drop_first())
    } else {
        seq![s.take(token_len(s))] + split_ws(s.skip(token_len(s)))
    }
}

#[via_fn]
proof fn split_ws_decreases(s: Seq<u8>) {
    lemma_token_len(s);
}

/// Splits `s` into its whitespace-separated tokens.
pub(crate) fn split_ws_bytes(s: &[u8]) -> (r: Vec<Vec<u8>>)
    ensures
        r.deep_view() == split_ws(s@),
{
    let mut parts: Vec<Vec<u8>> = Vec::new();
    let mut i: usize = 0;
    proof {
        assert(s@.skip(0) =~= s@);
        assert(Seq::<Seq<u8>>::empty() + split_ws(s@) =~= split_ws(s@));
        assert(parts.deep_view() =~= Seq::<Seq<u8>>::empty());
    }
    while i < s.len()
        invariant
            0 <= i <= s@.len(),
            split_ws(s@) == parts.deep_view() + split_ws(s@.skip(i as int)),
        decreases s@.len() - i,
    {
        if is_ws_byte(s[i]) {
            proof {
                assert(s@.skip(i as int)[0] == s@[i as int]);
                assert(s@.skip(i as int).drop_first() =~= s@.skip(i + 1));
            }
            i = i + 1;
        } else {
            let mut j: usize = i + 1;
            while j < s.len() && !is_ws_byte(s[j])
                invariant
                    i < j <= s@.len(),
                    forall|k: int| i <= k < j ==> !is_ws(s@[k]),
                decreases s@.len() - j,
            {
                j = j + 1;
            }
            let tok = vstd::slice::slice_to_vec(vstd::slice::slice_subrange(s, i, j));
            let ghost pdv = parts.deep_view();
            proof {
                let t = s@.skip(i as int);
                assert forall|k: int| 0 <= k < j - i implies !is_ws(t[k]) by {
                    assert(t[k] == s@[i + k]);
                }
                if j < s@.len() {
                    assert(t[j - i] == s@[j as int]);
                }
                lemma_token_len_is(t, j - i);
                assert(t.take(j - i) =~= s@.subrange(i as int, j as int));
                assert(t.skip(j - i) =~= s@.skip(j as int));
            }
            parts.push(tok);
            proof {
                assert(parts.deep_view() =~~= pdv + seq![tok@]);
                assert((pdv + seq![tok@]) + split_ws(s@.skip(j as int)) =~= pdv + (seq![tok@]
                    + split_ws(s@.skip(j as int))));
            }
            i = j;
        }
    }
    proof {
        assert(s@.skip(i as int) =~= Seq::<u8>::empty());
        assert(parts.deep_view() + Seq::<Seq<u8>>::empty() =~= parts.deep_view());
    }
    parts
}

/// One line's text with a single trailing carriage return removed,
/// as `str::lines` strips it.
pub open spec fn strip_cr(l: Seq<u8>) -> Seq<u8> {
    if l.len() > 0 && l.last() == 13 {
        l.drop_last()
    } else {
        l
    }
}

/// The lines of `s`, split on line feeds, each with one trailing carriage
/// return removed, and with no final empty line when `s` ends in a line feed:
/// exactly what `str::lines` yields.
pub open spec fn lines_of(s: Seq<u8>) -> Seq<Seq<u8>>
    decreases s.len(),
    via lines_of_decreases
{
    if s.len() == 0 {
        Seq::empty()
    } else {
        let k = find_idx(s, 10);
        if k == s.len() {
            seq![strip_cr(s)]
        } else {
            seq![strip_cr(s.take(k))] + lines_of(s.skip(k + 1))
        }
    }
}

#[via_fn]
proof fn lines_of_decreases(s: Seq<u8>) {
    lemma_find_idx(s, 10);
}

/// Splits `s` into lines as `str::lines` does.
pub(crate) fn lines_bytes(s: &[u8]) -> (r: Vec<Vec<u8>>)
    ensures
        r.deep_view() == lines_of(s@),
{
    let mut out: Vec<Vec<u8>> = Vec::new();
    let mut start: usize = 0;
    let mut i: usize = 0;
    proof {
        assert(s@.skip(0) =~= s@);
        assert(Seq::<Seq<u8>>::empty() + lines_of(s@) =~= lines_of(s@));
        assert(out.deep_view() =~= Seq::<Seq<u8>>::empty());
    }
    while i < s.len()
        invariant
            0 <= start <= i <= s@.len(),
            forall|k: int| start <= k < i ==> s@[k] != 10,
            lines_of(s@) == out.deep_view() + lines_of(s@.skip(start as int)),
        decreases s@.len() - i,
    {
        if s[i] == 10 {
            let end: usize = if i > start && s[i - 1] == 13 {
                i - 1
            } else {
                i
            };
            let line = vstd::slice::slice_to_vec(vstd::slice::slice_subrange(s, start, end));
            let ghost odv = out.deep_view();
            proof {
                let t = s@.skip(start as int);
                lemma_find_idx_is(t, 10, i - start);
                assert(t.take(i - start) =~= s@.subrange(start as int, i as int));
                if i > start && s@[i - 1] == 13 {
                    assert(t.take(i - start).last() == s@[i - 1]);
                    assert(t.take(i - start).drop_last() =~= s@.subrange(start as int, end as int));
                } else {
                    if i > start {
                        assert(t.take(i - start).last() == s@[i - 1]);
                    }
                }
                assert(line@ =~= strip_cr(t.take(i - start)));
                assert(t.skip(i - start + 1) =~= s@.skip(i + 1));
            }
            out.push(line);
            proof {
                assert(out.deep_view() =~~= odv + seq![line@]);
                assert((odv + seq![line@]) + lines_of(s@.skip(i + 1)) =~= odv + (seq![line@]
                    + lines_of(s@.skip(i + 1))));
            }
            start = i + 1;
        }
        i = i + 1;
    }
    if start < s.len() {
        let end: usize = if s[s.len() - 1] == 13 {
            s.len() - 1
        } else {
            s.len()
        };
        let line = vstd::slice::slice_to_vec(vstd::slice::slice_subrange(s, start, end));
        let ghost odv = out.deep_view();
        proof {
            let t = s@.skip(start as int);
            lemma_find_idx_is(t, 10, t.len() as int);
            assert(t.last() == s@[s@.len() - 1]);
            if s@[s@.len() - 1] == 13 {
                assert(t.drop_last() =~= s@.subrange(start as int, end as int));
            } else {
                assert(t =~= s@.subrange(start as int, end as int));
            }
            assert(line@ =~= strip_cr(t));
        }
        out.push(line);
        proof {
            assert(out.deep_view() =~~= odv + seq![line@]);
        }
    } else {
        proof {
            assert(s@.skip(start as int) =~= Seq::<u8>::empty());
            assert(out.deep_view() + Seq::<Seq<u8>>::empty() =~= out.deep_view());
        }
    }
    out
}

/// The tokens joined with single spaces, as `join(" ")` renders them.
pub open spec fn join_sp(ts: Seq<Seq<u8>>) -> Seq<u8>
    decreases ts.len(),
{
    if ts.len() == 0 {
        Seq::empty()
    } else if ts.len() == 1 {
        ts[0]
    } else {
        ts[0] + seq![32u8] + join_sp(ts.drop_first())
    }
}

proof fn lemma_join_sp_push(ts: Seq<Seq<u8>>, x: Seq<u8>)
    ensures
        ts.len() == 0 ==> join_sp(ts.push(x)) == x,
        ts.len() >= 1 ==> join_sp(ts.push(x)) == join_sp(ts) + seq![32u8] + x,
    decreases ts.len(),
{
    if ts.len() == 0 {
        assert(ts.push(x)[0] == x);
    } else if ts.len() == 1 {
        assert(ts.push(x)[0] == ts[0]);
        assert(ts.push(x).drop_first() =~= seq![x]);
        assert(join_sp(seq![x]) == x);
    } else {
        assert(ts.push(x)[0] == ts[0]);
        assert(ts.push(x).drop_first() =~= ts.drop_first().push(x));
        lemma_join_sp_push(ts.drop_first(), x);
        assert(ts[0] + seq![32u8] + (join_sp(ts.drop_first()) + seq![32u8] + x) =~= (ts[0]
            + seq![32u8] + join_sp(ts.drop_first())) + seq![32u8] + x);
    }
}

/// Appends all of `s` to `out`.
pub(crate) fn push_all(out: &mut Vec<u8>, s: &[u8])
    ensures
        final(out)@ == old(out)@ + s@,
{
    let ghost base = out@;
    let mut i: usize = 0;
    proof {
        assert(base + s@.take(0) =~= base);
    }
    while i < s.len()
        invariant
            0 <= i <= s@.len(),
            out@ == base + s@.take(i as int),
        decreases s@.len() - i,
    {
        out.push(s[i]);
        proof {
            assert(base + s@.take(i + 1) =~= (base + s@.take(i as int)).push(s@[i as int]));
        }
        i = i + 1;
    }
    proof {
        assert(s@.take(i as int) =~= s@);
    }
}

/// Joins the tokens from position `k` on with single spaces.
pub(crate) fn join_from(ts: &Vec<Vec<u8>>, k: usize) -> (r: Vec<u8>)
    requires
        k <= ts@.len(),
    ensures
        r@ == join_sp(ts.deep_view().skip(k as int)),
{
    let ghost dv = ts.deep_view();
    let mut out: Vec<u8> = Vec::new();
    let mut i: usize = k;
    proof {
        assert(dv.skip(k as int).take(0) =~= Seq::<Seq<u8>>::empty());
    }
    while i < ts.len()
        invariant
            k <= i <= ts@.len(),
            dv == ts.deep_view(),
            out@ == join_sp(dv.skip(k as int).take(i - k)),
        decreases ts@.len() - i,
    {
        if i > k {
            out.push(32);
        }
        push_all(&mut out, ts[i].as_slice());
        proof {
            assert(dv.skip(k as int)[i - k] =~= ts@[i as int]@);
            lemma_join_sp_push(dv.skip(k as int).take(i - k), dv.skip(k as int)[i - k]);
            assert(dv.skip(k as int).take(i + 1 - k) =~= dv.skip(k as int).take(i - k).push(
                dv.skip(k as int)[i - k],
            ));
        }
        i = i + 1;
    }
    proof {
        assert(dv.skip(k as int).take(i - k) =~= dv.skip(k as int));
    }
    out
}

/// `s` with every occurrence of `n` replaced by `r`, scanning left to right
/// over non-overlapping occurrences, as `str::replace` rewrites text.
pub open spec fn replace_spec(s: Seq<u8>, n: Seq<u8>, r: Seq<u8>) -> Seq<u8>
    recommends
        n.len() > 0,
    decreases s.len(),
{
    if s.len() == 0 {
        Seq::empty()
    } else if n.len() > 0 && n.len() <= s.len() && s.take(n.len() as int) == n {
        r + replace_spec(s.skip(n.len() as int), n, r)
    } else {
        seq![s[0]] + replace_spec(s.drop_first(), n, r)
    }
}

/// Replaces every occurrence of `n` in `s` by `rep`.
pub(crate) fn replace_all(s: &[u8], n: &[u8], rep: &[u8]) -> (out: Vec<u8>)
    requires
        n@.len() > 0,
    ensures
        out@ == replace_spec(s@, n@, rep@),
{
    let mut out: Vec<u8> = Vec::new();
    let mut i: usize = 0;
    proof {
        assert(s@.skip(0) =~= s@);
        assert(Seq::<u8>::empty() + replace_spec(s@, n@, rep@) =~= replace_spec(s@, n@, rep@));
    }
    while i < s.len()
        invariant
            0 <= i <= s@.len(),
            n@.len() > 0,
            replace_spec(s@, n@, rep@) == out@ + replace_spec(s@.skip(i as int), n@, rep@),
        decreases s@.len() - i,
    {
        let ghost t = s@.skip(i as int);
        let ghost obase = out@;
        if s.len() - i >= n.len() && match_at(s, n, i) {
            push_all(&mut out, rep);
            proof {
                assert(t.take(n@.len() as int) =~= s@.subrange(i as int, i + n@.len()));
                assert(t.skip(n@.len() as int) =~= s@.skip(i + n@.len()));
                assert(out@ =~= obase + rep@);
                assert(obase + (rep@ + replace_spec(s@.skip(i + n@.len()), n@, rep@)) =~= (obase
                    + rep@) + replace_spec(s@.skip(i + n@.len()), n@, rep@));
            }
            i = i + n.len();
        } else {
            let b = s[i];
            out.push(b);
            proof {
                if n@.len() <= t.len() {
                    assert(t.take(n@.len() as int) =~= s@.subrange(i as int, i + n@.len()));
                }
                assert(t[0] == s@[i as int]);
                assert(t.drop_first() =~= s@.skip(i + 1));
                assert(out@ =~= obase + seq![b]);
                assert(obase + (seq![b] + replace_spec(s@.skip(i + 1), n@, rep@)) =~= (obase
                    + seq![b]) + replace_spec(s@.skip(i + 1), n@, rep@));
            }
            i = i + 1;
        }
    }
    proof {
        assert(s@.skip(i as int) =~= Seq::<u8>::empty());
        assert(out@ + Seq::<u8>::empty() =~= out@);
    }
    out
}

/// The value of one ASCII hex digit, upper or lower case.
pub open spec fn hex_val(b: u8) -> Option<u8> {
    if 48 <= b <= 57 {
        Some((b - 48) as u8)
    } else if 97 <= b <= 102 {
        Some((b - 87) as u8)
    } else if 65 <= b <= 70 {
        Some((b - 55) as u8)
    } else {
        None
    }
}

/// The byte-escape decoding of a probe string: `\n \r \t \0 \\` become their
/// bytes, `\xHH` becomes the byte the two hex digits name (missing digits
/// default to `0`, invalid digits drop the escape), a backslash before any
/// other byte stands for itself, and every other byte is copied through.
pub open spec fn decode_escapes(s: Seq<u8>) -> Seq<u8>
    decreases s.len(),
{
    if s.len() == 0 {
        Seq::empty()
    } else if s[0] == 92 {
        if s.len() == 1 {
            seq![92u8]
        } else {
            let c = s[1];
            if c == 110 {
                seq![10u8] + decode_escapes(s.skip(2))
            } else if c == 114 {
                seq![13u8] + decode_escapes(s.skip(2))
            } else if c == 116 {
                seq![9u8] + decode_escapes(s.skip(2))
            } else if c == 48 {
                seq![0u8] + decode_escapes(s.skip(2))
            } else if c == 92 {
                seq![92u8] + decode_escapes(s.skip(2))
            } else if c == 120 {
                let h1 = if s.len() >= 3 {
                    s[2]
                } else {
                    48
                };
                let h2 = if s.len() >= 4 {
                    s[3]
                } else {
                    48
                };
                let rest = decode_escapes(
                    s.skip(
                        if s.len() >= 4 {
                            4
                        } else {
                            s.len() as int
                        },
                    ),
                );
                match (hex_val(h1), hex_val(h2)) {
                    (Some(a), Some(b)) => seq![(a * 16 + b) as u8] + rest,
                    _ => rest,
                }
            } else {
                seq![92u8] + decode_escapes(s.skip(1))
            }
        }
    } else {
        seq![s[0]] + decode_escapes(s.skip(1))
    }
}

/// Decodes the byte-escape sequences of a probe string.
pub(crate) fn decode_escapes_bytes(s: &[u8]) -> (r: Vec<u8>)
    ensures
        r@ == decode_escapes(s@),
{
    let mut out: Vec<u8> = Vec::new();
    let mut i: usize = 0;
    proof {
        assert(s@.skip(0) =~= s@);
        assert(Seq::<u8>::empty() + decode_escapes(s@) =~= decode_escapes(s@));
    }
    while i < s.len()
        invariant
            0 <= i <= s@.len(),
            decode_escapes(s@) == out@ + decode_escapes(s@.skip(i as int)),
        decreases s@.len() - i,
    {
        let ghost t = s@.skip(i as int);
        let ghost obase = out@;
        let b = s[i];
        proof {
            assert(t[0] == s@[i as int]);
        }
        if b != 92 {
            out.push(b);
            proof {
                assert(t.skip(1) =~= s@.skip(i + 1));
                assert(obase + (seq![b] + decode_escapes(t.skip(1))) =~= (obase
                    + seq![b]) + decode_escapes(t.skip(1)));
                assert(out@ =~= obase + seq![b]);
            }
            i = i + 1;
        } else if i + 1 == s.len() {
            out.push(92);
            proof {
                assert(t.len() == 1);
                assert(s@.skip(i + 1) =~= Seq::<u8>::empty());
                assert(out@ =~= obase + seq![92u8]);
                assert(obase + (seq![92u8] + decode_escapes(s@.skip(i + 1))) =~= (obase
                    + seq![92u8]) + decode_escapes(s@.skip(i + 1)));
            }
            i = i + 1;
        } else {
            let c = s[i + 1];
            proof {
                assert(t[1] == s@[i + 1]);
                assert(t.len() >= 2);
            }
            if c == 110 || c == 114 || c == 116 || c == 48 || c == 92 {
                let decoded: u8 = if c == 110 {
                    10
                } else if c == 114 {
                    13
                } else if c == 116 {
                    9
                } else if c == 48 {
                    0
                } else {
                    92
                };
                out.push(decoded);
                proof {
                    assert(t.skip(2) =~= s@.skip(i + 2));
                    assert(out@ =~= obase + seq![decoded]);
                    assert(obase + (seq![decoded] + decode_escapes(t.skip(2))) =~= (obase
                        + seq![decoded]) + decode_escapes(t.skip(2)));
                }
                i = i + 2;
            } else if c == 120 {
                let h1: u8 = if s.len() - i > 2 {
                    s[i + 2]
                } else {
                    48
                };
                let h2: u8 = if s.len() - i > 3 {
                    s[i + 3]
                } else {
                    48
                };
                let step: usize = if s.len() - i > 3 {
                    4
                } else {
                    s.len() - i
                };
                proof {
                    if t.len() >= 3 {
                        assert(t[2] == s@[i + 2]);
                    }
                    if t.len() >= 4 {
                        assert(t[3] == s@[i + 3]);
                    }
                    assert(t.skip(
                        if t.len() >= 4 {
                            4
                        } else {
                            t.len() as int
                        },
                    ) =~= s@.skip(i + step));
                }
                let v1 = hex_val_byte(h1);
                let v2 = hex_val_byte(h2);
                match (v1, v2) {
                    (Some(a), Some(bv)) => {
                        out.push(a * 16 + bv);
                        proof {
                            assert(out@ =~= obase + seq![(a * 16 + bv) as u8]);
                            assert(obase + (seq![(a * 16 + bv) as u8] + decode_escapes(
                                s@.skip(i + step),
                            )) =~= (obase + seq![(a * 16 + bv) as u8]) + decode_escapes(
                                s@.skip(i + step),
                            ));
                        }
                    },
                    _ => {},
                }
                i = i + step;
            } else {
                out.push(92);
                proof {
                    assert(t.skip(1) =~= s@.skip(i + 1));
                    assert(out@ =~= obase + seq![92u8]);
                    assert(obase + (seq![92u8] + decode_escapes(t.skip(1))) =~= (obase
                        + seq![92u8]) + decode_escapes(t.skip(1)));
                }
                i = i + 1;
            }
        }
    }
    proof {
        assert(s@.skip(i as int) =~= Seq::<u8>::empty());
        assert(out@ + Seq::<u8>::empty() =~= out@);
    }
    out
}

/// The value of one ASCII hex digit.
fn hex_val_byte(b: u8) -> (r: Option<u8>)
    ensures
        r == hex_val(b),
{
    if 48 <= b && b <= 57 {
        Some(b - 48)
    } else if 97 <= b && b <= 102 {
        Some(b - 87)
    } else if 65 <= b && b <= 70 {
        Some(b - 55)
    } else {
        None
    }
}

/// The decimal digits of `n`, most significant first, as `to_string` writes
/// an unsigned integer.
pub open spec fn dec_digits(n: nat) -> Seq<u8>
    decreases n,
{
    if n < 10 {
        seq![(48 + n) as u8]
    } else {
        dec_digits(n / 10) + seq![(48 + n % 10) as u8]
    }
}

/// Writes an unsigned integer in decimal.
pub(crate) fn dec_bytes(n: u64) -> (r: Vec<u8>)
    ensures
        r@ == dec_digits(n as nat),
{
    let mut out: Vec<u8> = Vec::new();
    let mut v: u64 = n;
    while v >= 10
        invariant
            v >= 0,
            dec_digits(n as nat) == dec_digits(v as nat) + out@,
        decreases v,
    {
        let ghost obase = out@;
        out.insert(0, 48 + (v % 10) as u8);
        proof {
            assert(out@ =~= seq![(48 + (v as nat) % 10) as u8] + obase);
            assert(dec_digits(v as nat) == dec_digits((v as nat) / 10) + seq![(48 + (v as nat)
                % 10) as u8]);
            assert(dec_digits((v as nat) / 10) + (seq![(48 + (v as nat) % 10) as u8] + obase)
                =~= (dec_digits((v as nat) / 10) + seq![(48 + (v as nat) % 10) as u8]) + obase);
        }
        v = v / 10;
    }
    let ghost obase = out@;
    out.insert(0, 48 + v as u8);
    proof {
        assert(out@ =~= seq![(48 + (v as nat)) as u8] + obase);
        assert(dec_digits(v as nat) == seq![(48 + (v as nat)) as u8]);
    }
    out
}

} // verus!
