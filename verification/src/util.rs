//! Adapters between native C-style call results and result types.
//!
//! Four small, independent adapters: pointer-to-result conversion,
//! C-string encoding/decoding, fixed-buffer writing with safe
//! truncation, and sentinel-to-error conversion for return codes.

use vstd::prelude::*;
use vstd::slice::slice_subrange;
use vstd::slice::slice_to_vec;
use vstd::std_specs::cmp::PartialEqSpec;
use vstd::std_specs::convert::FromSpec;
use vstd::utf8::decode_utf8;
use vstd::utf8::encode_scalar;
use vstd::utf8::encode_utf8;
use vstd::utf8::has_width_1_encoding;
use vstd::utf8::has_width_2_encoding;
use vstd::utf8::has_width_3_encoding;
use vstd::utf8::is_scalar;
use vstd::utf8::valid_utf8;

verus! {

/// An error reported by a native call, as a structured value.
///
/// Every failure of this layer is one of these: an OS-style error code
/// captured from the platform, or a rejection of invalid caller input
/// (text with an embedded null byte handed to a null-terminated encoding).
#[derive(Clone, Copy, Debug, PartialEq, Eq, Structural)]
pub enum SmbError {
    /// An OS error code, read from the platform's last-error state or
    /// supplied explicitly by the native call.
    Os { code: i32 },
    /// The caller's text held a null byte at this byte position, so it has
    /// no null-terminated representation.
    InvalidInput { nul_position: usize },
}

/// A non-owning handle to mutable native memory: the address a native call
/// returned, valid only as long as the native side keeps it alive.
/// Address 0 is the universal failure sentinel.
#[derive(Clone, Copy, Debug, PartialEq, Eq, Structural)]
pub struct PtrMut {
    pub addr: usize,
}

/// A non-owning handle to immutable native memory; see [`PtrMut`].
#[derive(Clone, Copy, Debug, PartialEq, Eq, Structural)]
pub struct PtrConst {
    pub addr: usize,
}

impl PtrMut {
    /// True when this handle is the null sentinel.
    pub open spec fn is_null(self) -> bool {
        self.addr == 0
    }
}

impl PtrConst {
    /// True when this handle is the null sentinel.
    pub open spec fn is_null(self) -> bool {
        self.addr == 0
    }
}

/// Relies on `std::io::Error::last_os_error` to read the calling thread's
/// last OS error, and on `std::io::Error::raw_os_error` to hand its code
/// out as a plain integer (documented to be `Some` for such an error).
/// The value depends on ambient thread state, so nothing relates it to
/// the arguments of any call.
#[verifier::external_body]
fn last_os_error_code() -> (r: Option<i32>)
    ensures
        r is Some,
{
    std::io::Error::last_os_error().raw_os_error()
}

/// Reads the platform's last-error state as a structured error.
fn last_os_error() -> (r: SmbError)
    ensures
        r is Os,
{
    match last_os_error_code() {
        Option::Some(code) => SmbError::Os { code },
        Option::None => SmbError::Os { code: 0 },
    }
}

/// `Ok(ptr)` for non-null `ptr` or `Err` with the last OS error otherwise.
///
/// Must be called right after the native call that produced `ptr`, before
/// anything else can overwrite the thread's last-error state.
pub fn result_from_ptr_mut(ptr: PtrMut) -> (r: Result<PtrMut, SmbError>)
    ensures
        !ptr.is_null() ==> r == Ok::<PtrMut, SmbError>(ptr),
        ptr.is_null() ==> (r matches Err(e) && e is Os),
{
    if ptr.addr == 0 {
        Err(last_os_error())
    } else {
        Ok(ptr)
    }
}

/// `Ok(ptr)` for non-null `ptr` or `Err` with the last OS error otherwise.
///
/// Must be called right after the native call that produced `ptr`, before
/// anything else can overwrite the thread's last-error state.
pub fn result_from_ptr(ptr: PtrConst) -> (r: Result<PtrConst, SmbError>)
    ensures
        !ptr.is_null() ==> r == Ok::<PtrConst, SmbError>(ptr),
        ptr.is_null() ==> (r matches Err(e) && e is Os),
{
    if ptr.addr == 0 {
        Err(last_os_error())
    } else {
        Ok(ptr)
    }
}

/// Converts a native return value to a result, failing with the given
/// error when the value is the `-1` sentinel of its own type.
fn to_result_with_error<T: Eq + From<i8>>(t: T, err: SmbError) -> (r: Result<T, SmbError>)
    requires
        T::obeys_eq_spec(),
        T::obeys_from_spec(),
    ensures
        t.eq_spec(&T::from_spec(-1i8)) ==> r == Err::<T, SmbError>(err),
        !t.eq_spec(&T::from_spec(-1i8)) ==> r == Ok::<T, SmbError>(t),
{
    if t == T::from(-1i8) {
        Err(err)
    } else {
        Ok(t)
    }
}

/// `Ok(t)` unless `t` is the `-1` sentinel; then `Err` with the last OS error.
///
/// Generic over the native call's return width: the sentinel is `-1`
/// converted into `T` itself. Must be called right after the native call
/// that produced `t`, before anything else can overwrite the thread's
/// last-error state.
pub fn to_result_with_le<T: Eq + From<i8>>(t: T) -> (r: Result<T, SmbError>)
    requires
        T::obeys_eq_spec(),
        T::obeys_from_spec(),
    ensures
        t.eq_spec(&T::from_spec(-1i8)) ==> (r matches Err(e) && e is Os),
        !t.eq_spec(&T::from_spec(-1i8)) ==> r == Ok::<T, SmbError>(t),
{
    to_result_with_error(t, last_os_error())
}

/// `Ok(t)` unless `t` is the `-1` sentinel; then `Err` with the explicitly
/// supplied OS error code.
///
/// For native calls that report their error code through a return value or
/// out-parameter instead of the thread's last-error state.
pub fn to_result_with_errno<T: Eq + From<i8>>(t: T, errno: i32) -> (r: Result<T, SmbError>)
    requires
        T::obeys_eq_spec(),
        T::obeys_from_spec(),
    ensures
        t.eq_spec(&T::from_spec(-1i8)) ==> r == Err::<T, SmbError>(SmbError::Os { code: errno }),
        !t.eq_spec(&T::from_spec(-1i8)) ==> r == Ok::<T, SmbError>(t),
{
    to_result_with_error(t, SmbError::Os { code: errno })
}

/// The index of the first null byte in `s`, or `s.len()` when there is none.
pub open spec fn nul_index(s: Seq<u8>) -> int
    decreases s.len(),
{
    if s.len() == 0 {
        0
    } else if s[0] == 0 {
        0
    } else {
        1 + nul_index(s.drop_first())
    }
}

/// The bytes of `s` before its first null byte: how the native side reads a
/// fixed buffer as a C string. The whole of `s` when it holds no null byte.
pub open spec fn c_str_content(s: Seq<u8>) -> Seq<u8> {
    s.take(nul_index(s))
}

/// What `nul_index` returns: the position of the first null byte.
pub proof fn lemma_nul_index(s: Seq<u8>)
    ensures
        0 <= nul_index(s) <= s.len(),
        forall|j: int| 0 <= j < nul_index(s) ==> s[j] != 0,
        nul_index(s) < s.len() ==> s[nul_index(s)] == 0,
        nul_index(s) == s.len() ==> !s.contains(0),
    decreases s.len(),
{
    if s.len() == 0 {
    } else if s[0] == 0 {
    } else {
        lemma_nul_index(s.drop_first());
        assert forall|j: int| 0 <= j < nul_index(s) implies s[j] != 0 by {
            if j > 0 {
                assert(s[j] == s.drop_first()[j - 1]);
            }
        }
        if nul_index(s) == s.len() {
            assert forall|j: int| 0 <= j < s.len() implies s[j] != 0 by {
                if j > 0 {
                    assert(s[j] == s.drop_first()[j - 1]);
                }
            }
        }
    }
}

/// `nul_index` is the one position with no null byte before it that holds a
/// null byte or ends the sequence.
pub proof fn lemma_nul_index_unique(s: Seq<u8>, i: int)
    requires
        0 <= i <= s.len(),
        forall|j: int| 0 <= j < i ==> s[j] != 0,
        i < s.len() ==> s[i] == 0,
    ensures
        nul_index(s) == i,
    decreases s.len(),
{
    if s.len() == 0 {
    } else if s[0] == 0 {
    } else {
        assert(forall|j: int| 0 <= j < i - 1 ==> s.drop_first()[j] == s[j + 1]);
        lemma_nul_index_unique(s.drop_first(), i - 1);
    }
}

/// The contents of a fixed buffer of `dest.len()` bytes after `src` is
/// written into it with silent truncation: the longest prefix of `src` that
/// leaves room for a null terminator, the terminator right after it, a
/// second terminator in the final byte, and the old contents in between.
pub open spec fn write_fixed_spec(dest: Seq<u8>, src: Seq<u8>) -> Seq<u8>
    recommends
        dest.len() >= 1,
{
    let copied = if src.len() < dest.len() - 1 {
        src.len() as int
    } else {
        dest.len() - 1
    };
    Seq::new(
        dest.len(),
        |i: int|
            if i < copied {
                src[i]
            } else if i == copied || i == dest.len() - 1 {
                0
            } else {
                dest[i]
            },
    )
}

/// Writes `src` into the fixed-size buffer `dest`, truncating silently and
/// leaving the buffer null-terminated under all inputs.
///
/// Mirrors the native convention for fixed-size output parameters: at most
/// `dest.len() - 1` bytes of `src`'s encoding are copied, a null terminator
/// follows the copied bytes, and the final byte is overwritten with a null
/// terminator before the copy begins, so the buffer stays interpretable as
/// a terminated string throughout. Truncation may split a multi-byte
/// character; the truncated encoding is accepted, documented behavior.
pub fn write_to_cstr(dest: &mut Vec<u8>, src: &str)
    requires
        old(dest)@.len() >= 1,
    ensures
        final(dest)@ == write_fixed_spec(old(dest)@, vstd::utf8::encode_utf8(src@)),
        final(dest)@.len() == old(dest)@.len(),
        final(dest)@[old(dest)@.len() - 1] == 0,
{
    let len = dest.len();
    let bytes = src.as_bytes();
    let ghost b = bytes@;
    let ghost d0 = dest@;

    // Defensive double-termination: the buffer can be read as a terminated
    // string even before the copy is complete.
    dest.set(len - 1, 0);

    let n = if bytes.len() < len {
        bytes.len()
    } else {
        len
    };
    let mut i: usize = 0;
    while i < n
        invariant
            bytes@ == b,
            n <= len == dest@.len() == d0.len(),
            n <= b.len(),
            i <= n,
            forall|j: int| 0 <= j < i ==> dest@[j] == b[j],
            forall|j: int|
                i <= j < len ==> dest@[j] == if j == len - 1 {
                    0u8
                } else {
                    d0[j]
                },
        decreases n - i,
    {
        dest.set(i, bytes[i]);
        i += 1;
    }

    let mut idx = n;
    if idx == len {
        idx = len - 1;
    }
    dest.set(idx, 0);

    proof {
        assert(final(dest)@ =~= write_fixed_spec(d0, b));
    }
}

/// What lossy UTF-8 decoding makes of the given bytes: a function of the
/// bytes alone, left unnamed beyond the facts stated where it is applied.
pub uninterp spec fn lossy_utf8(bytes: Seq<u8>) -> Seq<char>;

/// Relies on `String::from_utf8_lossy`: the result depends on the bytes
/// alone, and bytes that are valid UTF-8 decode without substitution
/// (invalid sequences are replaced, never reported).
#[verifier::external_body]
fn lossy_decode(bytes: &[u8]) -> (r: String)
    ensures
        r@ == lossy_utf8(bytes@),
        valid_utf8(bytes@) ==> r@ == decode_utf8(bytes@),
{
    String::from_utf8_lossy(bytes).into_owned()
}

/// Decodes a null-terminated byte sequence as text, lossily.
///
/// The bytes before the first null byte are decoded as UTF-8, with invalid
/// sequences replaced; this never fails. The caller guarantees the sequence
/// holds a terminator; reading the bytes out of native memory, and the
/// trust that the native side terminated them, stay with the caller.
pub fn cstr(bytes: &[u8]) -> (r: String)
    requires
        bytes@.contains(0),
    ensures
        r@ == lossy_utf8(c_str_content(bytes@)),
        valid_utf8(c_str_content(bytes@)) ==> r@ == decode_utf8(c_str_content(bytes@)),
{
    let mut i: usize = 0;
    while i < bytes.len() && bytes[i] != 0
        invariant
            i <= bytes@.len(),
            forall|j: int| 0 <= j < i ==> bytes@[j] != 0,
        decreases bytes@.len() - i,
    {
        i += 1;
    }
    proof {
        if i == bytes@.len() {
            let k = choose|k: int| 0 <= k < bytes@.len() && bytes@[k] == 0;
            assert(bytes@[k] != 0);
        }
        lemma_nul_index_unique(bytes@, i as int);
    }
    let content = slice_subrange(bytes, 0, i);
    lossy_decode(content)
}

/// An owned, null-terminated byte buffer holding encoded text, suitable for
/// handing to a native call: at least one byte, the last byte null, and no
/// null byte before it.
pub struct CBuf {
    bytes: Vec<u8>,
}

impl View for CBuf {
    type V = Seq<u8>;

    closed spec fn view(&self) -> Seq<u8> {
        self.bytes@
    }
}

impl CBuf {
    /// The buffer is a well-formed C string: terminated, with no null byte
    /// before the terminator.
    pub open spec fn wf(self) -> bool {
        &&& self@.len() >= 1
        &&& self@.last() == 0
        &&& forall|i: int| 0 <= i < self@.len() - 1 ==> self@[i] != 0
    }

    /// The buffer's bytes, terminator included.
    pub fn as_bytes(&self) -> (r: &[u8])
        ensures
            r@ == self@,
    {
        self.bytes.as_slice()
    }

    /// Gives the buffer's bytes up, terminator included.
    pub fn into_bytes(self) -> (r: Vec<u8>)
        ensures
            r@ == self@,
    {
        self.bytes
    }
}

/// Encodes text as an owned null-terminated buffer for the native side.
///
/// Fails if and only if the text holds an embedded null character, which a
/// null-terminated representation cannot carry; the error names the byte
/// position of the first null. On success the buffer is the text's encoded
/// bytes followed by one null terminator.
pub fn cstring(text: &str) -> (r: Result<CBuf, SmbError>)
    ensures
        r is Ok <==> !text@.contains('\0'),
        r matches Ok(c) ==> c.wf() && c@ == encode_utf8(text@).push(0),
        r matches Err(e) ==> e == (SmbError::InvalidInput {
            nul_position: nul_index(encode_utf8(text@)) as usize,
        }),
{
    let bytes = text.as_bytes();
    proof {
        lemma_encode_utf8_nul(text@);
    }
    let mut i: usize = 0;
    while i < bytes.len()
        invariant
            bytes@ == encode_utf8(text@),
            i <= bytes@.len(),
            forall|j: int| 0 <= j < i ==> bytes@[j] != 0,
        decreases bytes@.len() - i,
    {
        if bytes[i] == 0 {
            proof {
                lemma_encode_utf8_nul(text@);
                lemma_nul_index_unique(bytes@, i as int);
                assert(bytes@.contains(0)) by {
                    assert(bytes@[i as int] == 0);
                }
            }
            return Err(SmbError::InvalidInput { nul_position: i });
        }
        i += 1;
    }
    proof {
        if bytes@.contains(0) {
            let k = choose|k: int| 0 <= k < bytes@.len() && bytes@[k] == 0;
            assert(bytes@[k] != 0);
        }
    }
    let mut buf = slice_to_vec(bytes);
    buf.push(0);
    Ok(CBuf { bytes: buf })
}

/// A scalar's UTF-8 encoding holds a null byte exactly when the scalar is
/// the null character: continuation bytes and multi-byte leading bytes all
/// have high bits set.
proof fn lemma_encode_scalar_nul(v: u32)
    requires
        is_scalar(v),
    ensures
        encode_scalar(v).contains(0) <==> v == 0,
{
    if has_width_1_encoding(v) {
        assert((((v & 0x7F) as u8) == 0) <==> v == 0) by (bit_vector)
            requires
                v <= 0x7F,
        ;
        if encode_scalar(v).contains(0) {
            let k = choose|k: int| 0 <= k < encode_scalar(v).len() && encode_scalar(v)[k] == 0;
        }
        if v == 0 {
            assert(encode_scalar(v)[0] == 0);
        }
    } else {
        assert((0xC0u8 | ((v >> 6) & 0x1F) as u8) != 0) by (bit_vector);
        assert((0xE0u8 | ((v >> 12) & 0x0F) as u8) != 0) by (bit_vector);
        assert((0xF0u8 | ((v >> 18) & 0x7) as u8) != 0) by (bit_vector);
        assert((0x80u8 | (v & 0x3F) as u8) != 0) by (bit_vector);
        assert((0x80u8 | ((v >> 6) & 0x3F) as u8) != 0) by (bit_vector);
        assert((0x80u8 | ((v >> 12) & 0x3F) as u8) != 0) by (bit_vector);
        if encode_scalar(v).contains(0) {
            let k = choose|k: int| 0 <= k < encode_scalar(v).len() && encode_scalar(v)[k] == 0;
            if has_width_2_encoding(v) {
                assert(k == 0 || k == 1);
            } else if has_width_3_encoding(v) {
                assert(k == 0 || k == 1 || k == 2);
            } else {
                assert(k == 0 || k == 1 || k == 2 || k == 3);
            }
        }
    }
}

/// A text's UTF-8 encoding holds a null byte exactly when the text holds a
/// null character.
pub proof fn lemma_encode_utf8_nul(chars: Seq<char>)
    ensures
        encode_utf8(chars).contains(0) <==> chars.contains('\0'),
    decreases chars.len(),
{
    if chars.len() == 0 {
    } else {
        let first = encode_scalar(chars[0] as u32);
        let rest = encode_utf8(chars.drop_first());
        vstd::utf8::char_is_scalar(chars[0]);
        lemma_encode_scalar_nul(chars[0] as u32);
        lemma_encode_utf8_nul(chars.drop_first());
        assert(encode_utf8(chars) == first + rest);
        assert((chars[0] as u32 == 0) <==> chars[0] == '\0') by {
            vstd::utf8::char_u32_cast(chars[0], chars[0] as u32);
        }
        if encode_utf8(chars).contains(0) {
            let k = choose|k: int|
                0 <= k < encode_utf8(chars).len() && encode_utf8(chars)[k] == 0;
            if k < first.len() {
                assert(first[k] == 0);
            } else {
                assert(rest[k - first.len()] == 0);
            }
        }
        if first.contains(0) {
            let k = choose|k: int| 0 <= k < first.len() && first[k] == 0;
            assert((first + rest)[k] == 0);
        }
        if rest.contains(0) {
            let k = choose|k: int| 0 <= k < rest.len() && rest[k] == 0;
            assert((first + rest)[first.len() + k] == 0);
        }
        if chars[0] == '\0' {
            assert(chars.contains('\0')) by {
                assert(chars[0] == '\0');
            }
        }
        if chars.drop_first().contains('\0') {
            let k = choose|k: int|
                0 <= k < chars.drop_first().len() && chars.drop_first()[k] == '\0';
            assert(chars[k + 1] == '\0');
        }
        if chars.contains('\0') {
            let k = choose|k: int| 0 <= k < chars.len() && chars[k] == '\0';
            if k > 0 {
                assert(chars.drop_first()[k - 1] == '\0');
            }
        }
    }
}

/// What the native side reads back out of a fixed buffer of `len` bytes
/// after `src` is written into it: `src` cut to the room before the
/// terminator, and further cut at its own first null byte if that comes
/// sooner.
pub open spec fn truncated_content(len: int, src: Seq<u8>) -> Seq<u8>
    recommends
        len >= 1,
{
    let room = len - 1;
    let copied = if src.len() < room {
        src.len() as int
    } else {
        room
    };
    let first = if nul_index(src) < copied {
        nul_index(src)
    } else {
        copied
    };
    src.take(first)
}

/// Fixed-buffer termination invariant and truncation safety: for every
/// buffer of at least one byte and every input, the written buffer keeps
/// its length, ends in a null byte, and the bytes before its first null
/// byte are a prefix of the input of at most `len - 1` bytes — exactly
/// `truncated_content`.
pub proof fn lemma_write_fixed_terminated(dest: Seq<u8>, src: Seq<u8>)
    requires
        dest.len() >= 1,
    ensures
        write_fixed_spec(dest, src).len() == dest.len(),
        write_fixed_spec(dest, src)[dest.len() - 1] == 0,
        c_str_content(write_fixed_spec(dest, src)) == truncated_content(dest.len() as int, src),
        truncated_content(dest.len() as int, src).is_prefix_of(src),
        truncated_content(dest.len() as int, src).len() <= dest.len() - 1,
{
    let r = write_fixed_spec(dest, src);
    let room = dest.len() - 1;
    let copied = if src.len() < room {
        src.len() as int
    } else {
        room
    };
    let first = if nul_index(src) < copied {
        nul_index(src)
    } else {
        copied
    };
    lemma_nul_index(src);
    assert(r[first] == 0);
    lemma_nul_index_unique(r, first);
    assert(r.take(first) =~= src.take(first));
}

/// Idempotent double-termination: writing twice into the same buffer leaves
/// the terminator where the most recent write put it; what the native side
/// reads back depends on the last input alone, with the earlier write's
/// leftover bytes sitting only behind the terminator.
pub proof fn lemma_write_fixed_latest_wins(dest: Seq<u8>, src1: Seq<u8>, src2: Seq<u8>)
    requires
        dest.len() >= 1,
    ensures
        c_str_content(write_fixed_spec(write_fixed_spec(dest, src1), src2)) == c_str_content(
            write_fixed_spec(dest, src2),
        ),
        write_fixed_spec(write_fixed_spec(dest, src1), src2)[dest.len() - 1] == 0,
{
    lemma_write_fixed_terminated(dest, src1);
    lemma_write_fixed_terminated(write_fixed_spec(dest, src1), src2);
    lemma_write_fixed_terminated(dest, src2);
}

/// Round trip: text without a null character, encoded as a null-terminated
/// buffer and read back as a C string, decodes to the same text.
pub proof fn lemma_c_string_round_trip(text: Seq<char>)
    requires
        !text.contains('\0'),
    ensures
        c_str_content(encode_utf8(text).push(0)) == encode_utf8(text),
        valid_utf8(encode_utf8(text)),
        decode_utf8(encode_utf8(text)) == text,
{
    let b = encode_utf8(text);
    lemma_encode_utf8_nul(text);
    assert forall|j: int| 0 <= j < b.len() implies b.push(0)[j] != 0 by {
        if b[j] == 0 {
            assert(b.contains(0));
        }
    }
    lemma_nul_index_unique(b.push(0), b.len() as int);
    assert(b.push(0).take(b.len() as int) =~= b);
    vstd::utf8::encode_utf8_valid_utf8(text);
    vstd::utf8::encode_utf8_decode_utf8(text);
}

} // verus!
