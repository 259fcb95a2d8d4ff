//! Fixed-width building blocks of the binary layout: big-endian integers,
//! slots that hold text padded with a fill byte, and fixed-size copies out
//! of a byte string.

use vstd::prelude::*;
use vstd::slice::{slice_subrange, slice_to_vec};
use vstd::utf8::{encode_utf8, is_ascii_chars, is_ascii_chars_encode_utf8};

verus! {

/// The byte that fills the unused tail of a text slot (an ASCII space).
pub const PAD_BYTE: u8 = 0x20;

/// The number that a byte string spells in base 256, most significant
/// byte first.
pub open spec fn be_value(bytes: Seq<u8>) -> nat
    decreases bytes.len(),
{
    if bytes.len() == 0 {
        0
    } else {
        be_value(bytes.drop_last()) * 256 + bytes.last() as nat
    }
}

/// The `width` lowest base-256 digits of `value`, most significant first.
pub open spec fn be_bytes(value: nat, width: nat) -> Seq<u8>
    decreases width,
{
    if width == 0 {
        Seq::empty()
    } else {
        be_bytes(value / 256, (width - 1) as nat).push((value % 256) as u8)
    }
}

/// 256 to the power `width`: one more than the largest number that `width`
/// bytes can spell.
pub open spec fn be_limit(width: nat) -> nat
    decreases width,
{
    if width == 0 {
        1
    } else {
        256 * be_limit((width - 1) as nat)
    }
}

/// Two bytes spell every `u16`, eight bytes every `u64`.
pub proof fn lemma_be_limits()
    ensures
        be_limit(0) == 1,
        be_limit(1) == 0x100,
        be_limit(2) == 0x1_0000,
        be_limit(7) == 0x100_0000_0000_0000,
        be_limit(8) == 0x1_0000_0000_0000_0000,
{
    reveal_with_fuel(be_limit, 9);
}

/// `width` bytes come out, whatever the number.
pub proof fn lemma_be_bytes_len(value: nat, width: nat)
    ensures
        be_bytes(value, width).len() == width,
    decreases width,
{
    if width > 0 {
        lemma_be_bytes_len(value / 256, (width - 1) as nat);
    }
}

/// A byte string spells a number below the limit of its length.
pub proof fn lemma_be_value_bound(bytes: Seq<u8>)
    ensures
        be_value(bytes) < be_limit(bytes.len()),
    decreases bytes.len(),
{
    if bytes.len() > 0 {
        lemma_be_value_bound(bytes.drop_last());
    }
}

/// Reading back what was written gives the number again, if it was small
/// enough for the width.
pub proof fn lemma_be_value_round_trip(value: nat, width: nat)
    requires
        value < be_limit(width),
    ensures
        be_value(be_bytes(value, width)) == value,
    decreases width,
{
    if width > 0 {
        let head = be_bytes(value / 256, (width - 1) as nat);
        lemma_be_value_round_trip(value / 256, (width - 1) as nat);
        assert(be_bytes(value, width).drop_last() =~= head);
    }
}

/// Writing what was read, at the same width, gives the same bytes again.
pub proof fn lemma_be_bytes_round_trip(bytes: Seq<u8>)
    ensures
        be_bytes(be_value(bytes), bytes.len()) == bytes,
    decreases bytes.len(),
{
    if bytes.len() > 0 {
        let head = bytes.drop_last();
        lemma_be_bytes_round_trip(head);
        assert(be_value(bytes) / 256 == be_value(head));
        assert(be_value(bytes) % 256 == bytes.last());
        assert(be_bytes(be_value(bytes), bytes.len()) =~= bytes);
    }
}

/// The `N` lowest base-256 digits of `value`, most significant first.
pub fn to_be_bytes<const N: usize>(value: u64) -> (bytes: [u8; N])
    ensures
        bytes@ == be_bytes(value as nat, N as nat),
{
    let mut bytes = [0u8; N];
    let mut rest: u64 = value;
    let mut i: usize = N;
    while i > 0
        invariant
            i <= N,
            be_bytes(value as nat, N as nat) == be_bytes(rest as nat, i as nat) + bytes@.subrange(
                i as int,
                N as int,
            ),
        decreases i,
    {
        i -= 1;
        bytes[i] = (rest % 256) as u8;
        proof {
            let before = be_bytes(rest as nat, (i + 1) as nat);
            assert(before == be_bytes(rest as nat / 256, i as nat).push((rest % 256) as u8));
            assert(before + bytes@.subrange(i + 1, N as int) =~= be_bytes(
                rest as nat / 256,
                i as nat,
            ) + bytes@.subrange(i as int, N as int));
        }
        rest = rest / 256;
    }
    assert(bytes@ =~= be_bytes(rest as nat, 0) + bytes@.subrange(0, N as int));
    bytes
}

/// The number that at most eight bytes spell, most significant first.
pub fn from_be_bytes<const N: usize>(bytes: &[u8; N]) -> (value: u64)
    requires
        N <= 8,
    ensures
        value == be_value(bytes@),
{
    let mut value: u64 = 0;
    let mut i: usize = 0;
    while i < N
        invariant
            i <= N <= 8,
            value == be_value(bytes@.take(i as int)),
        decreases N - i,
    {
        proof {
            let head = bytes@.take(i as int);
            lemma_be_value_bound(head);
            lemma_be_limits();
            lemma_be_limit_grows(i as nat, 7);
            assert(bytes@.take(i + 1).drop_last() =~= head);
        }
        value = value * 256 + bytes[i] as u64;
        i += 1;
    }
    assert(bytes@.take(N as int) =~= bytes@);
    value
}

/// A longer byte string can spell more.
pub proof fn lemma_be_limit_grows(low: nat, high: nat)
    requires
        low <= high,
    ensures
        be_limit(low) <= be_limit(high),
    decreases high,
{
    if low < high {
        lemma_be_limit_grows(low, (high - 1) as nat);
    }
}

/// A copy of the `N` bytes of `source` that begin at `start`.
pub fn take_array<const N: usize>(source: &[u8], start: usize) -> (out: [u8; N])
    requires
        start + N <= source@.len(),
    ensures
        out@ == source@.subrange(start as int, start + N),
{
    let len = source.len();
    let mut out = [0u8; N];
    let mut i: usize = 0;
    while i < N
        invariant
            i <= N,
            len == source@.len(),
            start + N <= len,
            forall|j: int| 0 <= j < i ==> out@[j] == source@[start + j],
        decreases N - i,
    {
        out[i] = source[start + i];
        i += 1;
    }
    assert(out@ =~= source@.subrange(start as int, start + N));
    out
}

/// `count` fill bytes in a row.
pub open spec fn pad_run(count: nat) -> Seq<u8> {
    Seq::new(count, |i: int| PAD_BYTE)
}

/// `text` followed by as many fill bytes as bring it to `width` bytes.
pub open spec fn padded(text: Seq<u8>, width: nat) -> Seq<u8>
    recommends
        text.len() <= width,
{
    text + pad_run((width - text.len()) as nat)
}

/// `field` without the fill bytes at its end.
pub open spec fn trimmed(field: Seq<u8>) -> Seq<u8>
    decreases field.len(),
{
    if field.len() > 0 && field.last() == PAD_BYTE {
        trimmed(field.drop_last())
    } else {
        field
    }
}

/// Whether trimming leaves `text` as it is: it is empty or ends in another
/// byte than the fill byte.
pub open spec fn is_trimmed(text: Seq<u8>) -> bool {
    text.len() == 0 || text.last() != PAD_BYTE
}

/// Fill bytes added at the end are trimmed away again.
pub proof fn lemma_trimmed_absorbs_pad(text: Seq<u8>, count: nat)
    ensures
        trimmed(text + pad_run(count)) == trimmed(text),
    decreases count,
{
    if count == 0 {
        assert(text + pad_run(count) =~= text);
    } else {
        let longer = text + pad_run(count);
        assert(longer.drop_last() =~= text + pad_run((count - 1) as nat));
        lemma_trimmed_absorbs_pad(text, (count - 1) as nat);
    }
}

/// Trimming gives back a text that was padded, unless the text itself ends
/// in the fill byte.
pub proof fn lemma_trimmed_padded(text: Seq<u8>, width: nat)
    requires
        is_trimmed(text),
    ensures
        trimmed(padded(text, width)) == text,
{
    lemma_trimmed_absorbs_pad(text, (width - text.len()) as nat);
}

/// What trimming leaves is the beginning of the field, and is trimmed.
pub proof fn lemma_trimmed_is_prefix(field: Seq<u8>)
    ensures
        trimmed(field).len() <= field.len(),
        trimmed(field) == field.take(trimmed(field).len() as int),
        is_trimmed(trimmed(field)),
    decreases field.len(),
{
    if field.len() > 0 && field.last() == PAD_BYTE {
        lemma_trimmed_is_prefix(field.drop_last());
        assert(trimmed(field) =~= field.take(trimmed(field).len() as int));
    } else {
        assert(field =~= field.take(field.len() as int));
    }
}

/// Padding what trimming left gives the field again.
pub proof fn lemma_padded_trimmed(field: Seq<u8>)
    ensures
        padded(trimmed(field), field.len()) == field,
    decreases field.len(),
{
    if field.len() > 0 && field.last() == PAD_BYTE {
        let head = field.drop_last();
        lemma_padded_trimmed(head);
        lemma_trimmed_is_prefix(head);
        assert(padded(trimmed(field), field.len()) =~= padded(trimmed(head), head.len()).push(
            PAD_BYTE,
        ));
        assert(head.push(PAD_BYTE) =~= field);
    } else {
        assert(padded(field, field.len()) =~= field);
    }
}

/// A text that already carries some fill bytes at its end fills a slot as
/// the bare text does, however many they are.
pub proof fn lemma_padded_absorbs_pad(text: Seq<u8>, count: nat, width: nat)
    requires
        text.len() <= width,
    ensures
        ({
            let given = text + pad_run(count);
            let kept = if given.len() < width { given.len() } else { width };
            padded(given.take(kept as int), width) == padded(text, width)
        }),
{
    let given = text + pad_run(count);
    let kept = if given.len() < width { given.len() } else { width };
    assert(padded(given.take(kept as int), width) =~= padded(text, width));
}

/// The UTF-8 bytes of two texts in a row are the bytes of the first
/// followed by the bytes of the second.
pub proof fn lemma_utf8_concat(first: Seq<char>, second: Seq<char>)
    ensures
        encode_utf8(first + second) == encode_utf8(first) + encode_utf8(second),
    decreases first.len(),
{
    if first.len() == 0 {
        assert(first + second =~= second);
        assert(encode_utf8(first) + encode_utf8(second) =~= encode_utf8(second));
    } else {
        lemma_utf8_concat(first.drop_first(), second);
        assert((first + second).drop_first() =~= first.drop_first() + second);
        assert(encode_utf8(first + second) =~= encode_utf8(first) + encode_utf8(second));
    }
}

/// A run of spaces is a run of fill bytes in UTF-8.
pub proof fn lemma_utf8_spaces(count: nat)
    ensures
        encode_utf8(Seq::new(count, |i: int| ' ')) == pad_run(count),
{
    let spaces = Seq::new(count, |i: int| ' ');
    assert(is_ascii_chars(spaces));
    is_ascii_chars_encode_utf8(spaces);
    assert forall|i: int| 0 <= i < count implies encode_utf8(spaces)[i] == PAD_BYTE by {
        assert(spaces[i] == ' ');
        assert(' ' as u8 == 0x20u8);
    }
    assert(encode_utf8(spaces) =~= pad_run(count));
}

/// The first `N` bytes of `bytes`, filled up with the fill byte where
/// `bytes` has fewer.
pub fn fill_slot<const N: usize>(bytes: &[u8]) -> (slot: [u8; N])
    ensures
        slot@ == padded(
            bytes@.take(
                if bytes@.len() < N {
                    bytes@.len() as int
                } else {
                    N as int
                },
            ),
            N as nat,
        ),
{
    let len = bytes.len();
    let mut slot = [PAD_BYTE; N];
    let mut i: usize = 0;
    while i < N && i < len
        invariant
            i <= N,
            i <= len,
            len == bytes@.len(),
            forall|j: int| 0 <= j < i ==> slot@[j] == bytes@[j],
            forall|j: int| i <= j < N ==> slot@[j] == PAD_BYTE,
        decreases N - i,
    {
        slot[i] = bytes[i];
        i += 1;
    }
    assert(slot@ =~= padded(
        bytes@.take(if bytes@.len() < N { bytes@.len() as int } else { N as int }),
        N as nat,
    ));
    slot
}

/// A copy of `field` without the fill bytes at its end.
pub fn trim(field: &[u8]) -> (text: Vec<u8>)
    ensures
        text@ == trimmed(field@),
{
    let mut end: usize = field.len();
    assert(field@.take(end as int) =~= field@);
    while end > 0 && field[end - 1] == PAD_BYTE
        invariant
            end <= field@.len(),
            trimmed(field@) == trimmed(field@.take(end as int)),
        decreases end,
    {
        assert(field@.take(end as int).drop_last() =~= field@.take(end - 1));
        end -= 1;
    }
    assert(field@.take(end as int) =~= field@.subrange(0, end as int));
    slice_to_vec(slice_subrange(field, 0, end))
}

/// Adds `bytes` at the end of `out`.
pub fn append_bytes(out: &mut Vec<u8>, bytes: &[u8])
    ensures
        final(out)@ == old(out)@ + bytes@,
{
    let len = bytes.len();
    let mut i: usize = 0;
    while i < len
        invariant
            i <= len,
            len == bytes@.len(),
            out@ == old(out)@ + bytes@.take(i as int),
        decreases len - i,
    {
        out.push(bytes[i]);
        assert(bytes@.take(i + 1) =~= bytes@.take(i as int).push(bytes@[i as int]));
        i += 1;
    }
    assert(bytes@.take(len as int) =~= bytes@);
}

/// Whether two byte strings are the same.
pub fn bytes_equal(left: &[u8], right: &[u8]) -> (same: bool)
    ensures
        same == (left@ == right@),
{
    if left.len() != right.len() {
        return false;
    }
    let len = left.len();
    let mut i: usize = 0;
    while i < len
        invariant
            i <= len,
            len == left@.len(),
            len == right@.len(),
            forall|j: int| 0 <= j < i ==> left@[j] == right@[j],
        decreases len - i,
    {
        if left[i] != right[i] {
            return false;
        }
        i += 1;
    }
    assert(left@ =~= right@);
    true
}

} // verus!
