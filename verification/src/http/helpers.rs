//! Byte-level utilities underneath the parser, router and middleware:
//! CRLF line scanning, ASCII case folding and trimming, decimal numbers,
//! and association lists keyed by byte strings.

use vstd::prelude::*;
use vstd::string::StrSliceExecFns;
use vstd::string::StringSliceAdditionalSpecFns;

verus! {

pub const CR: u8 = 13;

pub const LF: u8 = 10;

pub const SP: u8 = 32;

pub const COLON: u8 = 58;

pub const COMMA: u8 = 44;

pub const SLASH: u8 = 47;

/// Error reported by the line scanner: the buffer holds no complete
/// CRLF-terminated line yet, or its bytes cannot form one.
#[derive(PartialEq, Eq, Structural, Clone, Copy, Debug)]
pub enum CursorError {
    Incomplete,
    Invalid,
}

/// The bytes of an ASCII string, character by character.
pub open spec fn ascii_bytes(s: Seq<char>) -> Seq<u8> {
    Seq::new(s.len(), |i: int| s[i] as u8)
}

/// Bytes of an ASCII `&str`; used to spell protocol constants.
pub fn lit_bytes(s: &str) -> (r: Vec<u8>)
    requires
        vstd::string::is_ascii(s),
    ensures
        r@ == ascii_bytes(s@),
{
    proof {
        broadcast use vstd::string::is_ascii_spec_bytes;

        assert(s.spec_bytes() =~= ascii_bytes(s@));
    }
    s.as_bytes_vec()
}

/// Copy `buf[from..to]` into a fresh vector.
pub fn copy_range(buf: &Vec<u8>, from: usize, to: usize) -> (r: Vec<u8>)
    requires
        from <= to <= buf@.len(),
    ensures
        r@ == buf@.subrange(from as int, to as int),
{
    vstd::slice::slice_to_vec(vstd::slice::slice_subrange(buf.as_slice(), from, to))
}

/// Append all of `src` to `out`.
pub fn append_bytes(out: &mut Vec<u8>, src: &[u8])
    ensures
        final(out)@ == old(out)@ + src@,
{
    let mut i: usize = 0;
    proof {
        assert(out@ =~= old(out)@ + src@.take(0));
    }
    while i < src.len()
        invariant
            0 <= i <= src@.len(),
            out@ == old(out)@ + src@.take(i as int),
        decreases src@.len() - i,
    {
        out.push(src[i]);
        proof {
            assert(out@ =~= old(out)@ + src@.take(i as int + 1));
        }
        i = i + 1;
    }
    proof {
        assert(src@.take(src@.len() as int) =~= src@);
    }
}

/// Equality of two byte vectors, reflected into their views.
pub fn bytes_eq(a: &Vec<u8>, b: &Vec<u8>) -> (r: bool)
    ensures
        r == (a@ == b@),
{
    proof {
        broadcast use vstd::laws_eq::group_laws_eq;
        broadcast use vstd::std_specs::vec::lemma_vec_obeys_view_eq;

        assert(vstd::laws_eq::obeys_concrete_eq::<u8>());
        assert(vstd::laws_eq::obeys_view_eq::<Vec<u8>>());
        reveal(vstd::laws_eq::obeys_view_eq);
    }
    a == b
}

/// Whether `prefix` is a literal prefix of `v`.
pub fn starts_with_bytes(v: &Vec<u8>, prefix: &Vec<u8>) -> (r: bool)
    ensures
        r == prefix@.is_prefix_of(v@),
{
    if prefix.len() > v.len() {
        return false;
    }
    let mut i: usize = 0;
    while i < prefix.len()
        invariant
            0 <= i <= prefix@.len() <= v@.len(),
            forall|k: int| 0 <= k < i ==> prefix@[k] == v@[k],
        decreases prefix@.len() - i,
    {
        if prefix[i] != v[i] {
            return false;
        }
        i = i + 1;
    }
    proof {
        assert(prefix@ =~= v@.subrange(0, prefix@.len() as int));
    }
    true
}

/// Whether a CRLF pair stands at position `k`.
pub open spec fn is_crlf_at(s: Seq<u8>, k: int) -> bool {
    0 <= k && k + 2 <= s.len() && s[k] == CR && s[k + 1] == LF
}

/// Position of the first CRLF pair at or after `i`.
pub open spec fn spec_first_crlf(s: Seq<u8>, i: int) -> Option<int>
    decreases s.len() - i,
{
    if i < 0 || i + 2 > s.len() {
        None
    } else if s[i] == CR && s[i + 1] == LF {
        Some(i)
    } else {
        spec_first_crlf(s, i + 1)
    }
}

pub proof fn lemma_first_crlf(s: Seq<u8>, i: int)
    requires
        0 <= i,
    ensures
        match spec_first_crlf(s, i) {
            Some(j) => is_crlf_at(s, j) && i <= j && (forall|k: int|
                i <= k < j ==> !is_crlf_at(s, k)),
            None => forall|k: int| i <= k ==> !is_crlf_at(s, k),
        },
    decreases s.len() - i,
{
    if i + 2 > s.len() {
    } else if s[i] == CR && s[i + 1] == LF {
    } else {
        lemma_first_crlf(s, i + 1);
    }
}

/// Scan for the next CRLF-terminated line starting at `start`. On success
/// the line's content is `buf[start..j]` and the CRLF occupies `j` and
/// `j + 1`.
pub fn get_until_crlf(buf: &Vec<u8>, start: usize) -> (r: Result<usize, CursorError>)
    ensures
        match r {
            Ok(j) => start <= j && j + 2 <= buf@.len() && spec_first_crlf(buf@, start as int)
                == Some(j as int),
            Err(e) => e == CursorError::Incomplete && spec_first_crlf(buf@, start as int) is None,
        },
{
    let n: usize = buf.len();
    let mut i: usize = start;
    if start >= n {
        return Err(CursorError::Incomplete);
    }
    while i < n
        invariant
            start <= i,
            n == buf@.len(),
            spec_first_crlf(buf@, start as int) == spec_first_crlf(buf@, i as int),
        decreases n - i,
    {
        if i + 1 < n && buf[i] == CR && buf[i + 1] == LF {
            return Ok(i);
        }
        if i + 1 >= n {
            return Err(CursorError::Incomplete);
        }
        i = i + 1;
    }
    Err(CursorError::Incomplete)
}

/// Position of the first occurrence of `b` at or after `i`.
pub open spec fn spec_find_byte(s: Seq<u8>, b: u8, i: int) -> Option<int>
    decreases s.len() - i,
{
    if i < 0 || i >= s.len() {
        None
    } else if s[i] == b {
        Some(i)
    } else {
        spec_find_byte(s, b, i + 1)
    }
}

pub proof fn lemma_find_byte(s: Seq<u8>, b: u8, i: int)
    requires
        0 <= i,
    ensures
        match spec_find_byte(s, b, i) {
            Some(j) => i <= j < s.len() && s[j] == b && (forall|k: int|
                i <= k < j ==> s[k] != b),
            None => forall|k: int| i <= k < s.len() ==> s[k] != b,
        },
    decreases s.len() - i,
{
    if i >= s.len() {
    } else if s[i] == b {
    } else {
        lemma_find_byte(s, b, i + 1);
    }
}

/// First occurrence of the byte `b` in `buf` at or after `start`.
pub fn find_byte(buf: &Vec<u8>, b: u8, start: usize) -> (r: Option<usize>)
    ensures
        match r {
            Some(j) => start <= j < buf@.len() && spec_find_byte(buf@, b, start as int) == Some(
                j as int,
            ),
            None => spec_find_byte(buf@, b, start as int) is None,
        },
{
    let n: usize = buf.len();
    let mut i: usize = start;
    if start >= n {
        return None;
    }
    while i < n
        invariant
            start <= i,
            n == buf@.len(),
            spec_find_byte(buf@, b, start as int) == spec_find_byte(buf@, b, i as int),
        decreases n - i,
    {
        if buf[i] == b {
            return Some(i);
        }
        i = i + 1;
    }
    None
}

/// ASCII whitespace, as trimmed around header values.
pub open spec fn is_ws(b: u8) -> bool {
    b == SP || b == 9 || b == LF || b == CR || b == 12
}

/// `s` with leading ASCII whitespace removed.
pub open spec fn spec_trim_start(s: Seq<u8>) -> Seq<u8>
    decreases s.len(),
{
    if s.len() > 0 && is_ws(s[0]) {
        spec_trim_start(s.drop_first())
    } else {
        s
    }
}

/// `s` with trailing ASCII whitespace removed.
pub open spec fn spec_trim_end(s: Seq<u8>) -> Seq<u8>
    decreases s.len(),
{
    if s.len() > 0 && is_ws(s.last()) {
        spec_trim_end(s.drop_last())
    } else {
        s
    }
}

/// `s` with surrounding ASCII whitespace removed.
pub open spec fn spec_trim(s: Seq<u8>) -> Seq<u8> {
    spec_trim_end(spec_trim_start(s))
}

fn ws_byte(b: u8) -> (r: bool)
    ensures
        r == is_ws(b),
{
    b == SP || b == 9 || b == LF || b == CR || b == 12
}

fn skip_ws_front(buf: &Vec<u8>, from: usize, to: usize) -> (lo: usize)
    requires
        from <= to <= buf@.len(),
    ensures
        from <= lo <= to,
        spec_trim_start(buf@.subrange(from as int, to as int)) == buf@.subrange(
            lo as int,
            to as int,
        ),
{
    let mut lo: usize = from;
    while lo < to
        invariant
            from <= lo <= to <= buf@.len(),
            spec_trim_start(buf@.subrange(from as int, to as int)) == spec_trim_start(
                buf@.subrange(lo as int, to as int),
            ),
        decreases to - lo,
    {
        if ws_byte(buf[lo]) {
            proof {
                assert(buf@.subrange(lo as int, to as int).drop_first() =~= buf@.subrange(
                    lo as int + 1,
                    to as int,
                ));
            }
            lo = lo + 1;
        } else {
            return lo;
        }
    }
    proof {
        assert(buf@.subrange(lo as int, to as int) =~= Seq::<u8>::empty());
    }
    lo
}

fn skip_ws_back(buf: &Vec<u8>, from: usize, to: usize) -> (hi: usize)
    requires
        from <= to <= buf@.len(),
    ensures
        from <= hi <= to,
        spec_trim_end(buf@.subrange(from as int, to as int)) == buf@.subrange(
            from as int,
            hi as int,
        ),
{
    let mut hi: usize = to;
    while from < hi
        invariant
            from <= hi <= to <= buf@.len(),
            spec_trim_end(buf@.subrange(from as int, to as int)) == spec_trim_end(
                buf@.subrange(from as int, hi as int),
            ),
        decreases hi,
    {
        if ws_byte(buf[hi - 1]) {
            proof {
                assert(buf@.subrange(from as int, hi as int).drop_last() =~= buf@.subrange(
                    from as int,
                    hi as int - 1,
                ));
            }
            hi = hi - 1;
        } else {
            return hi;
        }
    }
    proof {
        assert(buf@.subrange(from as int, hi as int) =~= Seq::<u8>::empty());
    }
    hi
}

/// Copy `buf[from..to]` with surrounding ASCII whitespace removed.
pub fn trim_copy(buf: &Vec<u8>, from: usize, to: usize) -> (r: Vec<u8>)
    requires
        from <= to <= buf@.len(),
    ensures
        r@ == spec_trim(buf@.subrange(from as int, to as int)),
{
    let lo = skip_ws_front(buf, from, to);
    let hi = skip_ws_back(buf, lo, to);
    copy_range(buf, lo, hi)
}

/// ASCII lower case of one byte.
pub open spec fn spec_lower(b: u8) -> u8 {
    if 65 <= b && b <= 90 {
        (b + 32) as u8
    } else {
        b
    }
}

/// ASCII lower case, byte by byte.
pub open spec fn spec_lower_seq(s: Seq<u8>) -> Seq<u8> {
    Seq::new(s.len(), |i: int| spec_lower(s[i]))
}

/// Copy `v` folded to ASCII lower case.
pub fn lower_vec(v: &Vec<u8>) -> (r: Vec<u8>)
    ensures
        r@ == spec_lower_seq(v@),
{
    let mut r: Vec<u8> = Vec::new();
    let mut i: usize = 0;
    while i < v.len()
        invariant
            0 <= i <= v@.len(),
            r@.len() == i,
            forall|k: int| 0 <= k < i ==> r@[k] == spec_lower(v@[k]),
        decreases v@.len() - i,
    {
        let b = v[i];
        if 65 <= b && b <= 90 {
            r.push(b + 32);
        } else {
            r.push(b);
        }
        i = i + 1;
    }
    proof {
        assert(r@ =~= spec_lower_seq(v@));
    }
    r
}

/// An ASCII decimal digit.
pub open spec fn is_digit(b: u8) -> bool {
    48 <= b <= 57
}

/// All bytes of `s` are decimal digits.
pub open spec fn all_digits(s: Seq<u8>) -> bool {
    forall|i: int| 0 <= i < s.len() ==> is_digit(#[trigger] s[i])
}

/// Numeric value of a digit string, most significant digit first.
pub open spec fn spec_dec_val(s: Seq<u8>) -> int
    decreases s.len(),
{
    if s.len() == 0 {
        0
    } else {
        spec_dec_val(s.drop_last()) * 10 + (s.last() - 48)
    }
}

/// A digit string's value bounds the value of each of its prefixes.
pub proof fn lemma_dec_val_bounds(s: Seq<u8>, i: int)
    requires
        all_digits(s),
        0 <= i <= s.len(),
    ensures
        0 <= spec_dec_val(s.take(i)) <= spec_dec_val(s),
    decreases s.len(),
{
    if s.len() == 0 {
        assert(s.take(i) =~= s);
    } else if i == s.len() {
        assert(s.take(i) =~= s);
        assert(all_digits(s.drop_last()));
        lemma_dec_val_bounds(s.drop_last(), s.len() - 1);
        assert(s.drop_last().take(s.len() - 1) =~= s.drop_last());
    } else {
        assert(all_digits(s.drop_last()));
        assert(s.drop_last().take(i) =~= s.take(i));
        lemma_dec_val_bounds(s.drop_last(), i);
        lemma_dec_val_bounds(s.drop_last(), s.len() - 1);
        assert(s.drop_last().take(s.len() - 1) =~= s.drop_last());
    }
}

/// Parse an ASCII decimal number. `None` when the input is empty, holds a
/// non-digit, or encodes a value above `usize::MAX`.
pub fn parse_dec(v: &Vec<u8>) -> (r: Option<usize>)
    ensures
        match r {
            Some(n) => v@.len() > 0 && all_digits(v@) && n == spec_dec_val(v@),
            None => v@.len() == 0 || !all_digits(v@) || spec_dec_val(v@) > usize::MAX,
        },
{
    if v.len() == 0 {
        return None;
    }
    let mut acc: usize = 0;
    let mut i: usize = 0;
    while i < v.len()
        invariant
            0 < v@.len(),
            0 <= i <= v@.len(),
            all_digits(v@.take(i as int)),
            acc == spec_dec_val(v@.take(i as int)),
        decreases v@.len() - i,
    {
        let b = v[i];
        if !(48 <= b && b <= 57) {
            assert(!is_digit(v@[i as int]));
            return None;
        }
        let d: usize = (b - 48) as usize;
        proof {
            assert(v@.take(i as int + 1).drop_last() =~= v@.take(i as int));
            assert(v@.take(i as int + 1).last() == v@[i as int]);
        }
        let step = match acc.checked_mul(10) {
            Some(m) => m.checked_add(d),
            None => None,
        };
        match step {
            Some(n) => {
                acc = n;
            },
            None => {
                proof {
                    if all_digits(v@) {
                        lemma_dec_val_bounds(v@, i as int + 1);
                    }
                }
                return None;
            },
        }
        i = i + 1;
    }
    proof {
        assert(v@.take(v@.len() as int) =~= v@);
    }
    Some(acc)
}

/// Decimal digits of `n`, most significant first.
pub open spec fn spec_dec_digits(n: int) -> Seq<u8>
    decreases n,
{
    if n < 10 {
        seq![(48 + n) as u8]
    } else {
        spec_dec_digits(n / 10).push((48 + n % 10) as u8)
    }
}

/// Format `n` in ASCII decimal.
pub fn dec_bytes(n: usize) -> (r: Vec<u8>)
    ensures
        r@ == spec_dec_digits(n as int),
    decreases n,
{
    if n < 10 {
        let mut v: Vec<u8> = Vec::new();
        v.push(48 + (n as u8));
        proof {
            assert(v@ =~= spec_dec_digits(n as int));
        }
        v
    } else {
        let mut v = dec_bytes(n / 10);
        v.push(48 + ((n % 10) as u8));
        proof {
            assert(v@ =~= spec_dec_digits(n as int));
        }
        v
    }
}

/// Value found for `key` in an association list; a later entry wins over
/// an earlier one, as repeated insertion leaves it.
pub open spec fn spec_assoc_find<T>(ps: Seq<(Seq<u8>, T)>, key: Seq<u8>) -> Option<T>
    decreases ps.len(),
{
    if ps.len() == 0 {
        None
    } else if ps.last().0 == key {
        Some(ps.last().1)
    } else {
        spec_assoc_find(ps.drop_last(), key)
    }
}

/// The list with the value of the latest entry for `key` replaced.
pub open spec fn spec_assoc_replace<T>(ps: Seq<(Seq<u8>, T)>, key: Seq<u8>, value: T) -> Seq<
    (Seq<u8>, T),
>
    recommends
        spec_assoc_find(ps, key) is Some,
    decreases ps.len(),
{
    if ps.len() == 0 {
        ps
    } else if ps.last().0 == key {
        ps.drop_last().push((key, value))
    } else {
        spec_assoc_replace(ps.drop_last(), key, value).push(ps.last())
    }
}

/// The list after binding `key` to `value`: the latest entry for `key` is
/// replaced, or a new entry is appended.
pub open spec fn spec_assoc_insert<T>(ps: Seq<(Seq<u8>, T)>, key: Seq<u8>, value: T) -> Seq<
    (Seq<u8>, T),
>
{
    if spec_assoc_find(ps, key) is Some {
        spec_assoc_replace(ps, key, value)
    } else {
        ps.push((key, value))
    }
}

pub proof fn lemma_assoc_insert_is_update<T>(ps: Seq<(Seq<u8>, T)>, key: Seq<u8>, value: T, i: int)
    requires
        0 <= i < ps.len(),
        ps[i].0 == key,
        forall|j: int| i < j < ps.len() ==> ps[j].0 != key,
    ensures
        spec_assoc_find(ps, key) is Some,
        spec_assoc_insert(ps, key, value) =~= ps.update(i, (key, value)),
    decreases ps.len(),
{
    if i == ps.len() - 1 {
        assert(ps.drop_last().push((key, value)) =~= ps.update(i, (key, value)));
    } else {
        assert(ps.last().0 != key);
        lemma_assoc_insert_is_update(ps.drop_last(), key, value, i);
        assert(spec_assoc_replace(ps, key, value) =~= ps.update(i, (key, value)));
    }
}

pub proof fn lemma_assoc_find_none<T>(ps: Seq<(Seq<u8>, T)>, key: Seq<u8>)
    requires
        forall|j: int| 0 <= j < ps.len() ==> (#[trigger] ps[j]).0 != key,
    ensures
        spec_assoc_find(ps, key) is None,
    decreases ps.len(),
{
    if ps.len() > 0 {
        lemma_assoc_find_none(ps.drop_last(), key);
    }
}

/// Binding `key` and then looking it up yields `value`; other keys are
/// untouched.
pub proof fn lemma_assoc_insert_find<T>(ps: Seq<(Seq<u8>, T)>, key: Seq<u8>, value: T, other: Seq<
    u8,
>)
    ensures
        spec_assoc_find(spec_assoc_insert(ps, key, value), key) == Some(value),
        other != key ==> spec_assoc_find(spec_assoc_insert(ps, key, value), other)
            == spec_assoc_find(ps, other),
{
    if spec_assoc_find(ps, key) is Some {
        lemma_assoc_replace_find(ps, key, value, other);
    } else {
        assert(ps.push((key, value)).drop_last() =~= ps);
    }
}

proof fn lemma_assoc_replace_find<T>(ps: Seq<(Seq<u8>, T)>, key: Seq<u8>, value: T, other: Seq<
    u8,
>)
    requires
        spec_assoc_find(ps, key) is Some,
    ensures
        spec_assoc_find(spec_assoc_replace(ps, key, value), key) == Some(value),
        other != key ==> spec_assoc_find(spec_assoc_replace(ps, key, value), other)
            == spec_assoc_find(ps, other),
    decreases ps.len(),
{
    if ps.last().0 == key {
        assert(ps.drop_last().push((key, value)).drop_last() =~= ps.drop_last());
    } else {
        lemma_assoc_replace_find(ps.drop_last(), key, value, other);
        assert(spec_assoc_replace(ps.drop_last(), key, value).push(ps.last()).drop_last()
            =~= spec_assoc_replace(ps.drop_last(), key, value));
    }
}

} // verus!
