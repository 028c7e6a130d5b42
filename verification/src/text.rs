//! Fixed-capacity byte buffers that hold terminated text.
//!
//! A buffer holds text up to, and not including, its first zero byte. Copying
//! into a buffer truncates what does not fit and writes a terminator after it.

use vstd::array::{
    array_len_matches_n, axiom_spec_array_fill_for_copy_type, axiom_spec_array_update,
    spec_array_update,
};
use vstd::prelude::*;
use vstd::slice::slice_subrange;
use vstd::string::StringSliceAdditionalSpecFns;
use vstd::utf8::{
    decode_utf8, encode_utf8, encode_utf8_decode_utf8, encode_utf8_valid_utf8, is_ascii_chars,
    is_ascii_chars_encode_utf8, valid_utf8,
};
use crate::limits::SESSION_TOKEN_MAX_LEN;

verus! {

/// Index of the first zero byte of `s` at or after `from`, or the length of
/// `s` when there is none.
pub open spec fn nul_index_from(s: Seq<u8>, from: int) -> int
    decreases s.len() - from,
{
    if from < 0 || from >= s.len() {
        s.len() as int
    } else if s[from] == 0u8 {
        from
    } else {
        nul_index_from(s, from + 1)
    }
}

/// Index of the first zero byte of `s`, or its length when there is none.
pub open spec fn nul_index(s: Seq<u8>) -> int {
    nul_index_from(s, 0)
}

/// The text a buffer holds: its bytes before the first terminator.
pub open spec fn text_of(s: Seq<u8>) -> Seq<u8> {
    s.take(nul_index(s))
}

/// Whether a buffer holds a terminator at all.
pub open spec fn is_terminated(s: Seq<u8>) -> bool {
    nul_index(s) < s.len()
}

/// What `copy_string` leaves in a buffer that held `dest`: the first
/// `min(src.len(), n)` bytes of `src`, then a terminator if there is room for
/// one, then what was there before.
pub open spec fn copied(dest: Seq<u8>, src: Seq<u8>, n: int) -> Seq<u8> {
    let k = if src.len() < n { src.len() as int } else { n };
    Seq::new(
        dest.len(),
        |i: int|
            if i < k {
                src[i]
            } else if i == k {
                0u8
            } else {
                dest[i]
            },
    )
}

/// The buffer of `size` bytes that holds `src`: as many of its bytes as fit
/// before a terminator, then zeros.
pub open spec fn stored(src: Seq<u8>, size: int) -> Seq<u8> {
    let k = if src.len() < size - 1 { src.len() as int } else { size - 1 };
    Seq::new(size as nat, |i: int| if i < k { src[i] } else { 0u8 })
}

/// The token buffer that holds `s`: its first 31 bytes at most, then zeros.
pub open spec fn token_buffer(s: Seq<u8>) -> Seq<u8> {
    stored(s, SESSION_TOKEN_MAX_LEN as int)
}

/// The lower-case form of an ASCII letter; any other byte is itself.
pub open spec fn ascii_lower(b: u8) -> u8 {
    if 65u8 <= b && b <= 90u8 {
        (b + 32) as u8
    } else {
        b
    }
}

/// Equality of two byte strings when ASCII letters are compared without
/// regard to case.
pub open spec fn eq_ignore_case(a: Seq<u8>, b: Seq<u8>) -> bool {
    &&& a.len() == b.len()
    &&& forall|i: int| 0 <= i < a.len() ==> ascii_lower(a[i]) == ascii_lower(b[i])
}

/// Whether the text of a username buffer is `name`, case of ASCII letters
/// aside.
pub open spec fn name_matches(buffer: Seq<u8>, name: Seq<u8>) -> bool {
    eq_ignore_case(name, text_of(buffer))
}

/// Length of `a` once its trailing zero bytes are removed.
pub open spec fn trimmed_len(a: Seq<u8>) -> int
    decreases a.len(),
{
    if a.len() == 0 || a.last() != 0u8 {
        a.len() as int
    } else {
        trimmed_len(a.drop_last())
    }
}

/// `a` without its trailing zero bytes.
pub open spec fn trimmed(a: Seq<u8>) -> Seq<u8> {
    a.take(trimmed_len(a))
}

/// Exact comparison of a buffer with a string: a buffer of valid UTF-8 is
/// equal when, its trailing zero bytes removed, it is the string's bytes; any
/// other buffer stands for the empty string.
pub open spec fn trimmed_equals(a: Seq<u8>, b: Seq<u8>) -> bool {
    if valid_utf8(a) {
        trimmed(a) == b
    } else {
        b.len() == 0
    }
}

/// Whether a string has a zero byte in it.
pub open spec fn has_nul(s: Seq<u8>) -> bool {
    exists|i: int| 0 <= i < s.len() && s[i] == 0u8
}

/// The characters of a string of ASCII bytes.
pub open spec fn ascii_chars(bytes: Seq<u8>) -> Seq<char> {
    Seq::new(bytes.len(), |i: int| bytes[i] as char)
}

/// The array whose first `k` bytes are those of `s` and whose other bytes
/// are zero.
pub open spec fn array_from<const N: usize>(s: Seq<u8>, k: nat) -> [u8; N]
    decreases k,
{
    if k == 0 {
        vstd::array::spec_array_fill_for_copy_type::<u8, N>(0u8)
    } else {
        spec_array_update(array_from::<N>(s, (k - 1) as nat), k - 1, s[k - 1])
    }
}

/// The array that holds the bytes of `s`.
pub open spec fn buffer_of<const N: usize>(s: Seq<u8>) -> [u8; N] {
    array_from::<N>(s, N as nat)
}

/// Position of the first terminator in `bytes`, or its length.
pub fn get_nullt_index_from_u8(bytes: &[u8]) -> (idx: usize)
    ensures
        idx == nul_index(bytes@),
        idx <= bytes@.len(),
{
    let mut i: usize = 0;
    while i < bytes.len()
        invariant
            i <= bytes@.len(),
            forall|j: int| 0 <= j < i ==> bytes@[j] != 0u8,
        decreases bytes@.len() - i,
    {
        if bytes[i] == 0 {
            proof {
                lemma_nul_index_is(bytes@, i as int);
            }
            return i;
        }
        i += 1;
    }
    proof {
        lemma_nul_index_is(bytes@, i as int);
    }
    i
}

/// Copies at most `n` bytes of `src` to the front of `dest` and terminates
/// them when `dest` has a byte left for it. What is copied must fit `dest`.
pub fn copy_string(dest: &mut [u8], src: &str, n: usize)
    requires
        src.spec_bytes().len() <= old(dest)@.len() || n <= old(dest)@.len(),
    ensures
        final(dest)@ == copied(old(dest)@, src.spec_bytes(), n as int),
{
    let bytes = src.as_bytes();
    let copy_len: usize = if bytes.len() < n { bytes.len() } else { n };
    let mut i: usize = 0;
    while i < copy_len
        invariant
            i <= copy_len,
            copy_len <= bytes@.len(),
            copy_len <= dest@.len(),
            dest@.len() == old(dest)@.len(),
            forall|j: int| 0 <= j < i ==> dest@[j] == bytes@[j],
            forall|j: int| i <= j < dest@.len() ==> dest@[j] == old(dest)@[j],
        decreases copy_len - i,
    {
        dest[i] = bytes[i];
        i += 1;
    }
    if copy_len < dest.len() {
        dest[copy_len] = 0;
    }
    assert(dest@ =~= copied(old(dest)@, src.spec_bytes(), n as int));
}

/// Lower-case form of one byte.
pub fn to_ascii_lower(b: u8) -> (r: u8)
    ensures
        r == ascii_lower(b),
{
    if 65 <= b && b <= 90 {
        b + 32
    } else {
        b
    }
}

/// Compares two byte strings without regard to the case of ASCII letters.
pub fn eq_ignore_ascii_case(a: &[u8], b: &[u8]) -> (r: bool)
    ensures
        r == eq_ignore_case(a@, b@),
{
    if a.len() != b.len() {
        return false;
    }
    let mut i: usize = 0;
    while i < a.len()
        invariant
            i <= a@.len(),
            a@.len() == b@.len(),
            forall|j: int| 0 <= j < i ==> ascii_lower(a@[j]) == ascii_lower(b@[j]),
        decreases a@.len() - i,
    {
        if to_ascii_lower(a[i]) != to_ascii_lower(b[i]) {
            return false;
        }
        i += 1;
    }
    true
}

/// Compares a name, given as bytes, with the text of a username buffer, case
/// aside.
pub fn text_matches(buffer: &[u8], name: &[u8]) -> (r: bool)
    ensures
        r == name_matches(buffer@, name@),
{
    let end = get_nullt_index_from_u8(buffer);
    let text = slice_subrange(buffer, 0, end);
    eq_ignore_ascii_case(name, text)
}

/// Compares a name with the text of a username buffer, case aside.
pub fn username_matches(buffer: &[u8], name: &str) -> (r: bool)
    ensures
        r == name_matches(buffer@, name.spec_bytes()),
{
    text_matches(buffer, name.as_bytes())
}

/// Whether the text of a buffer is exactly `s`.
pub fn text_equals(buffer: &[u8], s: &[u8]) -> (r: bool)
    ensures
        r == (crate::text::text_of(buffer@) == s@),
{
    let end = crate::text::get_nullt_index_from_u8(buffer);
    proof {
        crate::text::lemma_text_of(buffer@);
    }
    if end != s.len() {
        return false;
    }
    let mut i: usize = 0;
    while i < end
        invariant
            i <= end,
            end == s@.len(),
            end == crate::text::nul_index(buffer@),
            end <= buffer@.len(),
            forall|j: int| 0 <= j < i ==> buffer@[j] == s@[j],
        decreases end - i,
    {
        if buffer[i] != s[i] {
            assert(crate::text::text_of(buffer@)[i as int] != s@[i as int]);
            return false;
        }
        i += 1;
    }
    assert(crate::text::text_of(buffer@) =~= s@);
    true
}

/// Whether `bytes` is well-formed UTF-8, as `std::str::from_utf8` decides it:
/// the call succeeds exactly on well-formed input.
#[verifier::external_body]
fn is_utf8(bytes: &[u8]) -> (ok: bool)
    ensures
        ok == valid_utf8(bytes@),
{
    std::str::from_utf8(bytes).is_ok()
}

/// Exact comparison of a buffer with a string, as `trimmed_equals` defines it.
pub fn buffer_equals(a: &[u8], b: &str) -> (r: bool)
    ensures
        r == trimmed_equals(a@, b.spec_bytes()),
{
    let other = b.as_bytes();
    if !is_utf8(a) {
        return other.len() == 0;
    }
    let mut end: usize = a.len();
    while end > 0 && a[end - 1] == 0
        invariant
            end <= a@.len(),
            forall|j: int| end <= j < a@.len() ==> a@[j] == 0u8,
        decreases end,
    {
        end -= 1;
    }
    proof {
        lemma_trimmed_len_is(a@, end as int);
    }
    if end != other.len() {
        return false;
    }
    let mut i: usize = 0;
    while i < end
        invariant
            i <= end,
            end <= a@.len(),
            end == other@.len(),
            end == trimmed_len(a@),
            valid_utf8(a@),
            other@ == b.spec_bytes(),
            forall|j: int| 0 <= j < i ==> a@[j] == other@[j],
        decreases end - i,
    {
        if a[i] != other[i] {
            assert(trimmed(a@)[i as int] != other@[i as int]);
            return false;
        }
        i += 1;
    }
    assert(trimmed(a@) =~= other@);
    true
}

/// Exact comparison of a buffer with a string: the buffer, read as UTF-8 with
/// its trailing zero bytes removed, against the string. A buffer that is not
/// well-formed UTF-8 compares as the empty string.
pub fn str_cmp(a: &[u8], b: &str) -> (r: bool)
    ensures
        r == trimmed_equals(a@, b.spec_bytes()),
{
    buffer_equals(a, b)
}

/// Whether two strings are the same.
pub fn same_string(a: &str, b: &str) -> (r: bool)
    ensures
        r == (a@ == b@),
{
    let left = a.as_bytes();
    let right = b.as_bytes();
    proof {
        encode_utf8_decode_utf8(a@);
        encode_utf8_decode_utf8(b@);
    }
    if left.len() != right.len() {
        return false;
    }
    let mut i: usize = 0;
    while i < left.len()
        invariant
            i <= left@.len(),
            left@.len() == right@.len(),
            left@ == a.spec_bytes(),
            right@ == b.spec_bytes(),
            decode_utf8(encode_utf8(a@)) == a@,
            decode_utf8(encode_utf8(b@)) == b@,
            forall|j: int| 0 <= j < i ==> left@[j] == right@[j],
        decreases left@.len() - i,
    {
        if left[i] != right[i] {
            return false;
        }
        i += 1;
    }
    assert(left@ =~= right@);
    true
}

/// Whether a string has a zero byte in it, and so cannot be stored whole.
pub fn contains_nul(s: &str) -> (r: bool)
    ensures
        r == has_nul(s.spec_bytes()),
{
    let bytes = s.as_bytes();
    let mut i: usize = 0;
    while i < bytes.len()
        invariant
            i <= bytes@.len(),
            bytes@ == s.spec_bytes(),
            forall|j: int| 0 <= j < i ==> bytes@[j] != 0u8,
        decreases bytes@.len() - i,
    {
        if bytes[i] == 0 {
            return true;
        }
        i += 1;
    }
    false
}

/// What `String::from_utf8_lossy` makes of a byte string.
pub uninterp spec fn utf8_lossy(bytes: Seq<u8>) -> Seq<char>;

/// The string `String::from_utf8_lossy` makes of `bytes`: their decoding when
/// they are well-formed UTF-8, and otherwise a string in which each malformed
/// part is replaced.
#[verifier::external_body]
fn lossy_string(bytes: &[u8]) -> (s: String)
    ensures
        s@ == utf8_lossy(bytes@),
        valid_utf8(bytes@) ==> s@ == decode_utf8(bytes@),
{
    String::from_utf8_lossy(bytes).to_string()
}

/// The text of a buffer as a string, malformed UTF-8 replaced.
pub fn u8_to_string_no_nullt(bytes: &[u8]) -> (s: String)
    ensures
        s@ == utf8_lossy(text_of(bytes@)),
        valid_utf8(text_of(bytes@)) ==> s@ == decode_utf8(text_of(bytes@)),
{
    let null_idx: usize = get_nullt_index_from_u8(bytes);
    lossy_string(slice_subrange(bytes, 0, null_idx))
}

/// The text of a buffer as a string, malformed UTF-8 replaced.
pub fn bytes_to_string(bytes: &[u8]) -> (s: String)
    ensures
        s@ == utf8_lossy(text_of(bytes@)),
        valid_utf8(text_of(bytes@)) ==> s@ == decode_utf8(text_of(bytes@)),
{
    u8_to_string_no_nullt(bytes)
}

/// Stores a token string in a token buffer, truncated to fit and terminated.
pub fn string_to_bytes(s: String) -> (buffer: [u8; SESSION_TOKEN_MAX_LEN])
    ensures
        buffer@ == token_buffer(encode_utf8(s@)),
{
    let mut byte_array = [0u8; SESSION_TOKEN_MAX_LEN];
    let bytes = s.as_str().as_bytes();
    let len: usize = if bytes.len() < SESSION_TOKEN_MAX_LEN - 1 {
        bytes.len()
    } else {
        SESSION_TOKEN_MAX_LEN - 1
    };
    let mut i: usize = 0;
    while i < len
        invariant
            i <= len,
            len <= bytes@.len(),
            len < SESSION_TOKEN_MAX_LEN,
            forall|j: int| 0 <= j < i ==> byte_array@[j] == bytes@[j],
            forall|j: int| i <= j < SESSION_TOKEN_MAX_LEN ==> byte_array@[j] == 0u8,
        decreases len - i,
    {
        byte_array[i] = bytes[i];
        i += 1;
    }
    assert(byte_array@ =~= token_buffer(encode_utf8(s@)));
    byte_array
}

/// The three facts that pin `nul_index` down.
pub proof fn lemma_nul_index_from(s: Seq<u8>, from: int)
    requires
        0 <= from <= s.len(),
    ensures
        from <= nul_index_from(s, from) <= s.len(),
        forall|j: int| from <= j < nul_index_from(s, from) ==> s[j] != 0u8,
        nul_index_from(s, from) < s.len() ==> s[nul_index_from(s, from)] == 0u8,
    decreases s.len() - from,
{
    if from < s.len() && s[from] != 0u8 {
        lemma_nul_index_from(s, from + 1);
    }
}

/// A position with no terminator before it, and a terminator or the end at
/// it, is the terminator index.
pub proof fn lemma_nul_index_is(s: Seq<u8>, k: int)
    requires
        0 <= k <= s.len(),
        forall|j: int| 0 <= j < k ==> s[j] != 0u8,
        k < s.len() ==> s[k] == 0u8,
    ensures
        nul_index(s) == k,
{
    lemma_nul_index_from(s, 0);
}

/// The text of a buffer has no terminator in it and is no longer than the
/// buffer.
pub proof fn lemma_text_of(s: Seq<u8>)
    ensures
        text_of(s).len() == nul_index(s),
        0 <= nul_index(s) <= s.len(),
        forall|j: int| 0 <= j < text_of(s).len() ==> text_of(s)[j] == s[j] && s[j] != 0u8,
{
    lemma_nul_index_from(s, 0);
}

/// A buffer with a zero byte in it is terminated.
pub proof fn lemma_zero_terminates(s: Seq<u8>, k: int)
    requires
        0 <= k < s.len(),
        s[k] == 0u8,
    ensures
        is_terminated(s),
{
    lemma_nul_index_from(s, 0);
}

/// Copying with a bound below the buffer's size leaves terminated text: the
/// source cut at the bound and at its own first zero byte.
pub proof fn lemma_copied_text(dest: Seq<u8>, src: Seq<u8>, n: int)
    requires
        0 <= n < dest.len(),
    ensures
        copied(dest, src, n).len() == dest.len(),
        is_terminated(copied(dest, src, n)),
        text_of(copied(dest, src, n)) == text_of(
            src.take(if src.len() < n { src.len() as int } else { n }),
        ),
{
    let k = if src.len() < n { src.len() as int } else { n };
    let c = copied(dest, src, n);
    let cut = src.take(k);
    lemma_nul_index_from(cut, 0);
    let z = nul_index(cut);
    assert forall|j: int| 0 <= j < z implies c[j] != 0u8 by {
        assert(c[j] == cut[j]);
    }
    assert(c[z] == 0u8) by {
        if z < k {
            assert(c[z] == cut[z]);
        }
    }
    lemma_nul_index_is(c, z);
    assert(text_of(c) =~= text_of(cut));
}

/// A stored string is terminated, and its text is the source cut to fit and
/// at its own first zero byte.
pub proof fn lemma_stored_text(src: Seq<u8>, size: int)
    requires
        size > 0,
    ensures
        stored(src, size).len() == size,
        is_terminated(stored(src, size)),
        text_of(stored(src, size)) == text_of(
            src.take(if src.len() < size - 1 { src.len() as int } else { size - 1 }),
        ),
        stored(src, size) == copied(Seq::new(size as nat, |i: int| 0u8), src, size - 1),
{
    let zeros = Seq::new(size as nat, |i: int| 0u8);
    assert(stored(src, size) =~= copied(zeros, src, size - 1));
    lemma_copied_text(zeros, src, size - 1);
}

/// A string with no zero byte that fits a buffer is the text of what is
/// stored.
pub proof fn lemma_stored_roundtrip(src: Seq<u8>, size: int)
    requires
        src.len() < size,
        forall|i: int| 0 <= i < src.len() ==> src[i] != 0u8,
    ensures
        text_of(stored(src, size)) == src,
{
    lemma_stored_text(src, size);
    assert(src.take(src.len() as int) =~= src);
    lemma_nul_index_is(src, src.len() as int);
    assert(text_of(src) =~= src);
}

/// A position with only zero bytes from it on, and none just before it, is
/// the trimmed length.
pub proof fn lemma_trimmed_len_is(a: Seq<u8>, k: int)
    requires
        0 <= k <= a.len(),
        forall|j: int| k <= j < a.len() ==> a[j] == 0u8,
        k > 0 ==> a[k - 1] != 0u8,
    ensures
        trimmed_len(a) == k,
    decreases a.len(),
{
    if a.len() > 0 && a.last() == 0u8 {
        if k == a.len() {
            assert(a[k - 1] == 0u8);
        }
        lemma_trimmed_len_is(a.drop_last(), k);
    } else if a.len() > 0 {
        if k < a.len() {
            assert(a[a.len() - 1] == 0u8);
        }
    }
}

/// A string of ASCII bytes is well-formed UTF-8, and decoding it gives one
/// character for each byte.
pub proof fn lemma_ascii_utf8(bytes: Seq<u8>)
    requires
        forall|i: int| 0 <= i < bytes.len() ==> bytes[i] < 128,
    ensures
        valid_utf8(bytes),
        decode_utf8(bytes) == ascii_chars(bytes),
        encode_utf8(ascii_chars(bytes)) == bytes,
{
    let chars = ascii_chars(bytes);
    assert(is_ascii_chars(chars));
    is_ascii_chars_encode_utf8(chars);
    assert(encode_utf8(chars) =~= bytes) by {
        assert forall|i: int| 0 <= i < bytes.len() implies encode_utf8(chars)[i] == bytes[i] by {
            assert(chars[i] as u8 == encode_utf8(chars)[i]);
            assert(chars[i] == bytes[i] as char);
        }
    }
    encode_utf8_valid_utf8(chars);
    encode_utf8_decode_utf8(chars);
}

/// The array made of the first `k` bytes of `s` holds them, then zeros.
pub proof fn lemma_array_from<const N: usize>(s: Seq<u8>, k: nat)
    requires
        k <= N,
        k <= s.len(),
    ensures
        forall|j: int| 0 <= j < k ==> array_from::<N>(s, k)@[j] == s[j],
        forall|j: int| k <= j < N ==> array_from::<N>(s, k)@[j] == 0u8,
    decreases k,
{
    broadcast use axiom_spec_array_update;
    broadcast use axiom_spec_array_fill_for_copy_type;
    broadcast use array_len_matches_n;

    if k > 0 {
        let before = array_from::<N>(s, (k - 1) as nat);
        lemma_array_from::<N>(s, (k - 1) as nat);
        assert(array_from::<N>(s, k) == spec_array_update(before, k - 1, s[k - 1]));
        assert(array_from::<N>(s, k)@ == before@.update(k - 1, s[k - 1]));
    } else {
        let zeros = vstd::array::spec_array_fill_for_copy_type::<u8, N>(0u8);
        assert(array_from::<N>(s, k) == zeros);
        assert(forall|j: int| 0 <= j < N ==> zeros.view()[j] == 0u8);
    }
}

/// The array that holds the bytes of a string of its own length has them as
/// its view, and is the only array that does.
pub proof fn lemma_buffer_of<const N: usize>(s: Seq<u8>)
    requires
        s.len() == N,
    ensures
        buffer_of::<N>(s)@ == s,
        forall|other: [u8; N]| other@ == s ==> other == buffer_of::<N>(s),
{
    broadcast use array_len_matches_n;

    lemma_array_from::<N>(s, N as nat);
    assert(buffer_of::<N>(s)@ =~= s);
    assert forall|other: [u8; N]| other@ == s implies other == buffer_of::<N>(s) by {
        assert(other =~= buffer_of::<N>(s));
    }
}

} // verus!
