//! Binary codec for the value tree.
//!
//! Wire format: a one-byte discriminant selects the variant
//! (0 = Bool, 1 = Number, 2 = String, 3 = Array, 4 = Object, 5 = Null).
//! A Bool is followed by one byte (0 or 1). A Number is followed by a
//! second discriminant (0 = Float, 1 = SignedInt, 2 = UnsignedInt) and the
//! fixed-width value in little-endian byte order. A String is a 32-bit
//! little-endian byte count followed by UTF-8 bytes. An Array is a 32-bit
//! element count followed by that many encoded values. An Object is a
//! 32-bit pair count followed by that many (string key, encoded value)
//! pairs, in insertion order. The decoder bounds recursion depth, so
//! adversarial input cannot exhaust the stack.

use vstd::prelude::*;
use vstd::utf8::{decode_utf8, encode_utf8, valid_utf8};

use crate::error::CodecError;
use crate::value::{finite_bits, value_view, Value, ValueView, ValueWrapper};

verus! {

pub const TAG_BOOL: u8 = 0;

pub const TAG_NUMBER: u8 = 1;

pub const TAG_TEXT: u8 = 2;

pub const TAG_ARRAY: u8 = 3;

pub const TAG_OBJECT: u8 = 4;

pub const TAG_NULL: u8 = 5;

pub const SUB_FLOAT: u8 = 0;

pub const SUB_SIGNED: u8 = 1;

pub const SUB_UNSIGNED: u8 = 2;

/// How many levels of array or object nesting the decoder accepts.
pub const VALUE_DEPTH_LIMIT: u32 = 64;

/// Little-endian bytes of a 32-bit length prefix.
pub open spec fn le32(n: u32) -> Seq<u8> {
    seq![
        (n & 0xff) as u8,
        ((n >> 8) & 0xff) as u8,
        ((n >> 16) & 0xff) as u8,
        ((n >> 24) & 0xff) as u8,
    ]
}

/// Little-endian bytes of a 64-bit value.
pub open spec fn le64(n: u64) -> Seq<u8> {
    seq![
        (n & 0xff) as u8,
        ((n >> 8) & 0xff) as u8,
        ((n >> 16) & 0xff) as u8,
        ((n >> 24) & 0xff) as u8,
        ((n >> 32) & 0xff) as u8,
        ((n >> 40) & 0xff) as u8,
        ((n >> 48) & 0xff) as u8,
        ((n >> 56) & 0xff) as u8,
    ]
}

/// The two's-complement bit pattern of a signed 64-bit integer.
pub open spec fn u64_of_i64(i: i64) -> u64 {
    if i >= 0 {
        i as u64
    } else {
        (i + 0x1_0000_0000_0000_0000) as u64
    }
}

/// The signed 64-bit integer whose two's-complement bit pattern is `n`.
pub open spec fn i64_of_u64(n: u64) -> i64 {
    if n < 0x8000_0000_0000_0000 {
        n as i64
    } else {
        (n - 0x1_0000_0000_0000_0000) as i64
    }
}

/// Wire form of a string: a 32-bit byte count, then the UTF-8 bytes.
pub open spec fn spec_encoded_str(t: Seq<char>) -> Seq<u8> {
    le32(encode_utf8(t).len() as u32) + encode_utf8(t)
}

/// Wire form of a value tree.
pub open spec fn spec_encoded(v: ValueView) -> Seq<u8>
    decreases v, 0nat,
{
    match v {
        ValueView::Null => seq![TAG_NULL],
        ValueView::Bool(b) => seq![TAG_BOOL, if b { 1u8 } else { 0u8 }],
        ValueView::Float(bits) => seq![TAG_NUMBER, SUB_FLOAT] + le64(bits),
        ValueView::SignedInt(i) => seq![TAG_NUMBER, SUB_SIGNED] + le64(u64_of_i64(i)),
        ValueView::UnsignedInt(u) => seq![TAG_NUMBER, SUB_UNSIGNED] + le64(u),
        ValueView::Text(t) => seq![TAG_TEXT] + spec_encoded_str(t),
        ValueView::Array(items) => seq![TAG_ARRAY] + le32(items.len() as u32) + spec_encoded_items(
            items,
            0,
        ),
        ValueView::Object(pairs) => seq![TAG_OBJECT] + le32(pairs.len() as u32)
            + spec_encoded_pairs(pairs, 0),
    }
}

/// Wire form of the elements of an array from index `j` on.
pub open spec fn spec_encoded_items(items: Seq<ValueView>, j: int) -> Seq<u8>
    decreases items, items.len() - j,
{
    if j < 0 || j >= items.len() {
        Seq::empty()
    } else {
        spec_encoded(items[j]) + spec_encoded_items(items, j + 1)
    }
}

/// Wire form of the pairs of an object from index `j` on.
pub open spec fn spec_encoded_pairs(pairs: Seq<(Seq<char>, ValueView)>, j: int) -> Seq<u8>
    decreases pairs, pairs.len() - j,
{
    if j < 0 || j >= pairs.len() {
        Seq::empty()
    } else {
        spec_encoded_str(pairs[j].0) + spec_encoded(pairs[j].1) + spec_encoded_pairs(pairs, j + 1)
    }
}

/// Appends the little-endian bytes of a 32-bit length prefix.
fn push_le32(out: &mut Vec<u8>, n: u32)
    ensures
        final(out)@ == old(out)@ + le32(n),
{
    proof {
        assert(n & 0xff < 256 && (n >> 8) & 0xff < 256 && (n >> 16) & 0xff < 256 && (n >> 24)
            & 0xff < 256) by (bit_vector);
    }
    out.push((n & 0xff) as u8);
    out.push(((n >> 8) & 0xff) as u8);
    out.push(((n >> 16) & 0xff) as u8);
    out.push(((n >> 24) & 0xff) as u8);
    assert(out@ =~= old(out)@ + le32(n));
}

/// Appends the little-endian bytes of a 64-bit value.
fn push_le64(out: &mut Vec<u8>, n: u64)
    ensures
        final(out)@ == old(out)@ + le64(n),
{
    proof {
        assert(n & 0xff < 256 && (n >> 8) & 0xff < 256 && (n >> 16) & 0xff < 256 && (n >> 24)
            & 0xff < 256 && (n >> 32) & 0xff < 256 && (n >> 40) & 0xff < 256 && (n >> 48) & 0xff
            < 256 && (n >> 56) & 0xff < 256) by (bit_vector);
    }
    out.push((n & 0xff) as u8);
    out.push(((n >> 8) & 0xff) as u8);
    out.push(((n >> 16) & 0xff) as u8);
    out.push(((n >> 24) & 0xff) as u8);
    out.push(((n >> 32) & 0xff) as u8);
    out.push(((n >> 40) & 0xff) as u8);
    out.push(((n >> 48) & 0xff) as u8);
    out.push(((n >> 56) & 0xff) as u8);
    assert(out@ =~= old(out)@ + le64(n));
}

/// The two's-complement bit pattern of a signed integer, computed without
/// overflow.
fn i64_bits(i: i64) -> (r: u64)
    ensures
        r == u64_of_i64(i),
{
    if i >= 0 {
        i as u64
    } else {
        let m: u64 = (-(i + 1)) as u64;
        0xffff_ffff_ffff_ffff - m
    }
}

/// The signed integer with the given two's-complement bit pattern,
/// computed without overflow.
fn i64_from_bits(n: u64) -> (r: i64)
    ensures
        r == i64_of_u64(n),
{
    if n < 0x8000_0000_0000_0000 {
        n as i64
    } else {
        let m: i64 = (0xffff_ffff_ffff_ffff - n) as i64;
        -m - 1
    }
}

/// Whether a 64-bit pattern is a finite IEEE 754 double.
fn is_finite_bits(bits: u64) -> (r: bool)
    ensures
        r == finite_bits(bits),
{
    (bits >> 52) & 0x7ff != 0x7ff
}

/// Appends the wire form of a string.
pub(crate) fn push_str(out: &mut Vec<u8>, s: &String)
    requires
        encode_utf8(s@).len() <= u32::MAX,
    ensures
        final(out)@ == old(out)@ + spec_encoded_str(s@),
{
    let bytes: &[u8] = s.as_str().as_bytes();
    push_le32(out, bytes.len() as u32);
    out.extend_from_slice(bytes);
    assert(out@ =~= old(out)@ + spec_encoded_str(s@));
}

/// Appends the wire form of a well-formed value tree.
#[verifier::loop_isolation(false)]
fn encode_value(v: &Value, out: &mut Vec<u8>)
    requires
        v@.wf(),
    ensures
        final(out)@ == old(out)@ + spec_encoded(v@),
    decreases v,
{
    match v {
        Value::Null => {
            out.push(TAG_NULL);
            assert(out@ =~= old(out)@ + spec_encoded(v@));
        },
        Value::Bool(b) => {
            out.push(TAG_BOOL);
            out.push(if *b { 1u8 } else { 0u8 });
            assert(out@ =~= old(out)@ + spec_encoded(v@));
        },
        Value::Float(bits) => {
            out.push(TAG_NUMBER);
            out.push(SUB_FLOAT);
            push_le64(out, *bits);
            assert(out@ =~= old(out)@ + spec_encoded(v@));
        },
        Value::SignedInt(i) => {
            out.push(TAG_NUMBER);
            out.push(SUB_SIGNED);
            let bits = i64_bits(*i);
            push_le64(out, bits);
            assert(out@ =~= old(out)@ + spec_encoded(v@));
        },
        Value::UnsignedInt(u) => {
            out.push(TAG_NUMBER);
            out.push(SUB_UNSIGNED);
            push_le64(out, *u);
            assert(out@ =~= old(out)@ + spec_encoded(v@));
        },
        Value::Text(s) => {
            out.push(TAG_TEXT);
            push_str(out, s);
            assert(out@ =~= old(out)@ + spec_encoded(v@));
        },
        Value::Array(items) => {
            out.push(TAG_ARRAY);
            push_le32(out, items.len() as u32);
            let ghost base = out@;
            let ghost itemsv = (v@).arr_items();
            let n = items.len();
            for k in 0..n
                invariant
                    v@ == ValueView::Array(itemsv),
                    v@.wf(),
                    n == items@.len(),
                    itemsv.len() == items@.len(),
                    forall|j: int| 0 <= j < n ==> itemsv[j] == #[trigger] items@[j]@,
                    out@ + spec_encoded_items(itemsv, k as int) == base + spec_encoded_items(
                        itemsv,
                        0,
                    ),
                decreases n - k,
            {
                proof {
                    assert(decreases_to!(items => items@[k as int]));
                    assert(ValueView::Array(itemsv).wf());
                    assert(itemsv[k as int].wf());
                }
                encode_value(&items[k], out);
                assert(out@ + spec_encoded_items(itemsv, k + 1) =~= base + spec_encoded_items(
                    itemsv,
                    0,
                ));
            }
            assert(out@ =~= base + spec_encoded_items(itemsv, 0));
            assert(out@ =~= old(out)@ + spec_encoded(v@));
        },
        Value::Object(pairs) => {
            out.push(TAG_OBJECT);
            push_le32(out, pairs.len() as u32);
            let ghost base = out@;
            let ghost pairsv = (v@).obj_pairs();
            let n = pairs.len();
            for k in 0..n
                invariant
                    v@ == ValueView::Object(pairsv),
                    v@.wf(),
                    n == pairs@.len(),
                    pairsv.len() == pairs@.len(),
                    forall|j: int| 0 <= j < n ==> (#[trigger] pairsv[j]).0 == pairs@[j].0@
                        && pairsv[j].1 == pairs@[j].1@,
                    out@ + spec_encoded_pairs(pairsv, k as int) == base + spec_encoded_pairs(
                        pairsv,
                        0,
                    ),
                decreases n - k,
            {
                proof {
                    assert(decreases_to!(pairs => pairs@[k as int]));
                    assert(decreases_to!(pairs@[k as int] => pairs@[k as int].1));
                    assert(ValueView::Object(pairsv).wf());
                    assert(pairsv[k as int].1.wf());
                    assert(encode_utf8(pairsv[k as int].0).len() <= u32::MAX);
                }
                push_str(out, &pairs[k].0);
                encode_value(&pairs[k].1, out);
                assert(out@ + spec_encoded_pairs(pairsv, k + 1) =~= base + spec_encoded_pairs(
                    pairsv,
                    0,
                ));
            }
            assert(out@ =~= base + spec_encoded_pairs(pairsv, 0));
            assert(out@ =~= old(out)@ + spec_encoded(v@));
        },
    }
}

/// Whether a value tree is well formed: finite floats, lengths that fit
/// the 32-bit prefixes, unique object keys.
#[verifier::loop_isolation(false)]
pub fn is_wf(v: &Value) -> (r: bool)
    ensures
        r == v@.wf(),
    decreases v,
{
    match v {
        Value::Null => true,
        Value::Bool(_) => true,
        Value::Float(bits) => is_finite_bits(*bits),
        Value::SignedInt(_) => true,
        Value::UnsignedInt(_) => true,
        Value::Text(s) => s.as_str().as_bytes().len() as u64 <= u32::MAX as u64,
        Value::Array(items) => {
            let ghost itemsv = (v@).arr_items();
            if items.len() as u64 > u32::MAX as u64 {
                return false;
            }
            let n = items.len();
            for k in 0..n
                invariant
                    v@ == ValueView::Array(itemsv),
                    n == items@.len(),
                    itemsv.len() == items@.len(),
                    forall|j: int| 0 <= j < n ==> itemsv[j] == #[trigger] items@[j]@,
                    forall|j: int| 0 <= j < k ==> (#[trigger] itemsv[j]).wf(),
                decreases n - k,
            {
                proof {
                    assert(decreases_to!(items => items@[k as int]));
                }
                if !is_wf(&items[k]) {
                    proof {
                        assert(!itemsv[k as int].wf());
                        assert(!v@.wf());
                    }
                    return false;
                }
            }
            proof {
                assert(ValueView::Array(itemsv).wf());
            }
            true
        },
        Value::Object(pairs) => {
            let ghost pairsv = (v@).obj_pairs();
            if pairs.len() as u64 > u32::MAX as u64 {
                return false;
            }
            let n = pairs.len();
            for k in 0..n
                invariant
                    v@ == ValueView::Object(pairsv),
                    n == pairs@.len(),
                    pairsv.len() == pairs@.len(),
                    forall|j: int| 0 <= j < n ==> (#[trigger] pairsv[j]).0 == pairs@[j].0@
                        && pairsv[j].1 == pairs@[j].1@,
                    forall|j: int| 0 <= j < k ==> (#[trigger] pairsv[j]).1.wf(),
                    forall|j: int| 0 <= j < k ==> encode_utf8((#[trigger] pairsv[j]).0).len()
                        <= u32::MAX,
                    forall|a: int, b: int| 0 <= a < b < k ==> (#[trigger] pairsv[a].0) != (
                    #[trigger] pairsv[b].0),
                decreases n - k,
            {
                if pairs[k].0.as_str().as_bytes().len() as u64 > u32::MAX as u64 {
                    proof {
                        assert(encode_utf8(pairsv[k as int].0).len() > u32::MAX);
                        assert(!v@.wf());
                    }
                    return false;
                }
                proof {
                    assert(encode_utf8(pairsv[k as int].0).len() <= u32::MAX);
                }
                for j in 0..k
                    invariant
                        k < n,
                        forall|a: int| 0 <= a < j ==> (#[trigger] pairsv[a].0) != pairsv[k as int].0,
                    decreases k - j,
                {
                    if pairs[j].0 == pairs[k].0 {
                        proof {
                            assert(pairsv[j as int].0 == pairsv[k as int].0);
                            assert(!v@.wf());
                        }
                        return false;
                    }
                }
                proof {
                    assert(decreases_to!(pairs => pairs@[k as int]));
                    assert(decreases_to!(pairs@[k as int] => pairs@[k as int].1));
                }
                if !is_wf(&pairs[k].1) {
                    proof {
                        assert(!pairsv[k as int].1.wf());
                        assert(!v@.wf());
                    }
                    return false;
                }
                proof {
                    assert(forall|a: int| 0 <= a < k ==> (#[trigger] pairsv[a].0) != pairsv[
                        k as int].0);
                }
            }
            proof {
                assert(ValueView::Object(pairsv).wf());
            }
            true
        },
    }
}

/// Encodes a well-formed value tree to its wire form.
pub fn encode(w: &ValueWrapper) -> (out: Vec<u8>)
    requires
        w@.wf(),
    ensures
        out@ == spec_encoded(w@),
{
    let mut out: Vec<u8> = Vec::new();
    encode_value(&w.0, &mut out);
    out
}

/// Encodes a value tree after checking well-formedness at run time:
/// `None` exactly when the tree is not well formed.
pub fn encode_checked(w: &ValueWrapper) -> (r: Option<Vec<u8>>)
    ensures
        w@.wf() ==> (r matches Some(out) && out@ == spec_encoded(w@)),
        !w@.wf() ==> r is None,
{
    if is_wf(&w.0) {
        Some(encode(w))
    } else {
        None
    }
}

/// The 32-bit value whose little-endian bytes sit at `s[i .. i + 4]`.
pub open spec fn le32_at(s: Seq<u8>, i: int) -> u32 {
    (s[i] as u32) | ((s[i + 1] as u32) << 8) | ((s[i + 2] as u32) << 16) | ((s[i + 3] as u32)
        << 24)
}

/// The 64-bit value whose little-endian bytes sit at `s[i .. i + 8]`.
pub open spec fn le64_at(s: Seq<u8>, i: int) -> u64 {
    (s[i] as u64) | ((s[i + 1] as u64) << 8) | ((s[i + 2] as u64) << 16) | ((s[i + 3] as u64)
        << 24) | ((s[i + 4] as u64) << 32) | ((s[i + 5] as u64) << 40) | ((s[i + 6] as u64) << 48)
        | ((s[i + 7] as u64) << 56)
}

/// Map-style insertion into an ordered pair sequence: a pair whose key is
/// already present replaces the value in place, keeping the key's position;
/// a fresh key is appended.
pub open spec fn obj_insert(
    pairs: Seq<(Seq<char>, ValueView)>,
    key: Seq<char>,
    v: ValueView,
) -> Seq<(Seq<char>, ValueView)>
    decreases pairs.len(),
{
    if pairs.len() == 0 {
        seq![(key, v)]
    } else if pairs[0].0 == key {
        seq![(key, v)] + pairs.drop_first()
    } else {
        seq![pairs[0]] + obj_insert(pairs.drop_first(), key, v)
    }
}

/// Decoded string at position `i`: its character sequence and the position
/// just past it.
pub open spec fn dec_str(s: Seq<u8>, i: int) -> Result<(Seq<char>, int), CodecError> {
    if i + 4 > s.len() {
        Err(CodecError::Truncated)
    } else {
        let n = le32_at(s, i) as int;
        if i + 4 + n > s.len() {
            Err(CodecError::Truncated)
        } else {
            let bytes = s.subrange(i + 4, i + 4 + n);
            if valid_utf8(bytes) {
                Ok((decode_utf8(bytes), i + 4 + n))
            } else {
                Err(CodecError::InvalidString)
            }
        }
    }
}

/// Decoded value at position `i` with `depth` levels of nesting allowed:
/// the value and the position just past it.
pub open spec fn dec_value(s: Seq<u8>, i: int, depth: nat) -> Result<
    (ValueView, int),
    CodecError,
>
    decreases depth, 0nat,
{
    if i >= s.len() {
        Err(CodecError::Truncated)
    } else {
        let tag = s[i];
        if tag == TAG_BOOL {
            if i + 2 > s.len() {
                Err(CodecError::Truncated)
            } else if s[i + 1] == 0 {
                Ok((ValueView::Bool(false), i + 2))
            } else if s[i + 1] == 1 {
                Ok((ValueView::Bool(true), i + 2))
            } else {
                Err(CodecError::InvalidTag(s[i + 1]))
            }
        } else if tag == TAG_NUMBER {
            if i + 2 > s.len() {
                Err(CodecError::Truncated)
            } else {
                let sub = s[i + 1];
                if sub != SUB_FLOAT && sub != SUB_SIGNED && sub != SUB_UNSIGNED {
                    Err(CodecError::InvalidTag(sub))
                } else if i + 10 > s.len() {
                    Err(CodecError::Truncated)
                } else {
                    let bits = le64_at(s, i + 2);
                    if sub == SUB_FLOAT {
                        if finite_bits(bits) {
                            Ok((ValueView::Float(bits), i + 10))
                        } else {
                            Err(CodecError::InvalidNumber)
                        }
                    } else if sub == SUB_SIGNED {
                        Ok((ValueView::SignedInt(i64_of_u64(bits)), i + 10))
                    } else {
                        Ok((ValueView::UnsignedInt(bits), i + 10))
                    }
                }
            }
        } else if tag == TAG_TEXT {
            match dec_str(s, i + 1) {
                Ok(p) => Ok((ValueView::Text(p.0), p.1)),
                Err(e) => Err(e),
            }
        } else if tag == TAG_ARRAY {
            if i + 5 > s.len() {
                Err(CodecError::Truncated)
            } else if depth == 0 {
                Err(CodecError::TooDeep)
            } else {
                let n = le32_at(s, i + 1) as int;
                match dec_items(s, i + 5, n, (depth - 1) as nat, Seq::empty()) {
                    Ok(p) => Ok((ValueView::Array(p.0), p.1)),
                    Err(e) => Err(e),
                }
            }
        } else if tag == TAG_OBJECT {
            if i + 5 > s.len() {
                Err(CodecError::Truncated)
            } else if depth == 0 {
                Err(CodecError::TooDeep)
            } else {
                let n = le32_at(s, i + 1) as int;
                match dec_pairs(s, i + 5, n, (depth - 1) as nat, Seq::empty()) {
                    Ok(p) => Ok((ValueView::Object(p.0), p.1)),
                    Err(e) => Err(e),
                }
            }
        } else if tag == TAG_NULL {
            Ok((ValueView::Null, i + 1))
        } else {
            Err(CodecError::InvalidTag(tag))
        }
    }
}

/// `n` decoded array elements starting at position `i`, appended to the
/// accumulated elements `acc`.
pub open spec fn dec_items(s: Seq<u8>, i: int, n: int, depth: nat, acc: Seq<ValueView>) -> Result<
    (Seq<ValueView>, int),
    CodecError,
>
    decreases depth, n,
{
    if n <= 0 {
        Ok((acc, i))
    } else {
        match dec_value(s, i, depth) {
            Ok(p) => dec_items(s, p.1, n - 1, depth, acc.push(p.0)),
            Err(e) => Err(e),
        }
    }
}

/// `n` decoded object pairs starting at position `i`, inserted in order
/// into the accumulated object `acc`.
pub open spec fn dec_pairs(
    s: Seq<u8>,
    i: int,
    n: int,
    depth: nat,
    acc: Seq<(Seq<char>, ValueView)>,
) -> Result<(Seq<(Seq<char>, ValueView)>, int), CodecError>
    decreases depth, n,
{
    if n <= 0 {
        Ok((acc, i))
    } else {
        match dec_str(s, i) {
            Ok(k) => match dec_value(s, k.1, depth) {
                Ok(p) => dec_pairs(s, p.1, n - 1, depth, obj_insert(acc, k.0, p.0)),
                Err(e) => Err(e),
            },
            Err(e) => Err(e),
        }
    }
}

/// The models of a sequence of executable values.
pub open spec fn seq_view(items: Seq<Value>) -> Seq<ValueView> {
    Seq::new(items.len(), |i: int| value_view(items[i]))
}

/// The models of a sequence of executable key-value pairs.
pub open spec fn pairs_view(pairs: Seq<(String, Value)>) -> Seq<(Seq<char>, ValueView)> {
    Seq::new(pairs.len(), |i: int| (pairs[i].0@, value_view(pairs[i].1)))
}

/// Relies on `String::from_utf8`: it succeeds exactly on valid UTF-8 input
/// and yields the string those bytes encode.
#[verifier::external_body]
fn string_from_utf8(bytes: Vec<u8>) -> (r: Option<String>)
    ensures
        r is Some <==> valid_utf8(bytes@),
        r matches Some(s) ==> s@ == decode_utf8(bytes@),
{
    String::from_utf8(bytes).ok()
}

/// Reads the 32-bit little-endian value at `i`.
fn read_le32(bytes: &[u8], i: usize) -> (n: u32)
    requires
        i + 4 <= bytes@.len(),
    ensures
        n == le32_at(bytes@, i as int),
{
    (bytes[i] as u32) | ((bytes[i + 1] as u32) << 8) | ((bytes[i + 2] as u32) << 16) | ((bytes[i
        + 3] as u32) << 24)
}

/// Reads the 64-bit little-endian value at `i`.
fn read_le64(bytes: &[u8], i: usize) -> (n: u64)
    requires
        i + 8 <= bytes@.len(),
    ensures
        n == le64_at(bytes@, i as int),
{
    (bytes[i] as u64) | ((bytes[i + 1] as u64) << 8) | ((bytes[i + 2] as u64) << 16) | ((bytes[i
        + 3] as u64) << 24) | ((bytes[i + 4] as u64) << 32) | ((bytes[i + 5] as u64) << 40) | ((
    bytes[i + 6] as u64) << 48) | ((bytes[i + 7] as u64) << 56)
}

/// Decodes a length-prefixed UTF-8 string at position `i`.
fn decode_str_at(bytes: &[u8], i: usize) -> (r: Result<(String, usize), CodecError>)
    requires
        i <= bytes@.len(),
    ensures
        ({
            let d = dec_str(bytes@, i as int);
            match r {
                Ok(p) => (d matches Ok(q) && q.0 == p.0@ && q.1 == p.1 as int && i <= p.1
                    <= bytes@.len()),
                Err(e) => d == Err::<(Seq<char>, int), CodecError>(e),
            }
        }),
{
    let n = bytes.len();
    if n - i < 4 {
        return Err(CodecError::Truncated);
    }
    let m = read_le32(bytes, i) as usize;
    if m > n - (i + 4) {
        return Err(CodecError::Truncated);
    }
    let sub = vstd::slice::slice_subrange(bytes, i + 4, i + 4 + m);
    let v = vstd::slice::slice_to_vec(sub);
    match string_from_utf8(v) {
        Some(s) => Ok((s, i + 4 + m)),
        None => Err(CodecError::InvalidString),
    }
}

/// Inserting a fresh key appends the pair.
proof fn lemma_obj_insert_fresh(ps: Seq<(Seq<char>, ValueView)>, key: Seq<char>, v: ValueView)
    requires
        forall|a: int| 0 <= a < ps.len() ==> (#[trigger] ps[a]).0 != key,
    ensures
        obj_insert(ps, key, v) == ps.push((key, v)),
    decreases ps.len(),
{
    if ps.len() == 0 {
        assert(obj_insert(ps, key, v) =~= ps.push((key, v)));
    } else {
        assert(ps[0].0 != key);
        lemma_obj_insert_fresh(ps.drop_first(), key, v);
        assert(obj_insert(ps, key, v) =~= ps.push((key, v)));
    }
}

/// Inserting a key present at position `j` (and nowhere before it)
/// replaces the value in place.
proof fn lemma_obj_insert_found(
    ps: Seq<(Seq<char>, ValueView)>,
    key: Seq<char>,
    v: ValueView,
    j: int,
)
    requires
        0 <= j < ps.len(),
        ps[j].0 == key,
        forall|a: int| 0 <= a < j ==> (#[trigger] ps[a]).0 != key,
    ensures
        obj_insert(ps, key, v) == ps.update(j, (key, v)),
    decreases ps.len(),
{
    if j == 0 {
        assert(obj_insert(ps, key, v) =~= ps.update(0, (key, v)));
    } else {
        assert(ps[0].0 != key);
        lemma_obj_insert_found(ps.drop_first(), key, v, j - 1);
        assert(ps.drop_first().update(j - 1, (key, v)) =~= ps.update(j, (key, v)).drop_first());
        assert(obj_insert(ps, key, v) =~= ps.update(j, (key, v)));
    }
}

/// Inserts a decoded pair with map semantics: an existing key keeps its
/// position and gets the new value; a fresh key is appended.
#[verifier::loop_isolation(false)]
fn insert_pair(pairs: &mut Vec<(String, Value)>, key: String, v: Value)
    ensures
        pairs_view(final(pairs)@) == obj_insert(pairs_view(old(pairs)@), key@, value_view(v)),
        final(pairs)@.len() <= old(pairs)@.len() + 1,
{
    let ghost kv = key@;
    let ghost vv = value_view(v);
    let n = pairs.len();
    let mut j: usize = 0;
    while j < n
        invariant
            j <= n,
            n == pairs@.len(),
            pairs@ == old(pairs)@,
            forall|a: int| 0 <= a < j ==> (#[trigger] pairs@[a]).0@ != kv,
        decreases n - j,
    {
        if pairs[j].0 == key {
            pairs.remove(j);
            pairs.insert(j, (key, v));
            proof {
                assert forall|a: int| 0 <= a < j implies (#[trigger] pairs_view(old(pairs)@)[a]).0
                    != kv by {
                    assert(pairs_view(old(pairs)@)[a].0 == old(pairs)@[a].0@);
                }
                lemma_obj_insert_found(pairs_view(old(pairs)@), kv, vv, j as int);
                assert(pairs_view(pairs@) =~= pairs_view(old(pairs)@).update(j as int, (kv, vv)));
            }
            return ;
        }
        j = j + 1;
    }
    pairs.push((key, v));
    proof {
        assert forall|a: int| 0 <= a < pairs_view(old(pairs)@).len() implies (#[trigger] pairs_view(
            old(pairs)@,
        )[a]).0 != kv by {
            assert(pairs_view(old(pairs)@)[a].0 == old(pairs)@[a].0@);
        }
        lemma_obj_insert_fresh(pairs_view(old(pairs)@), kv, vv);
        assert(pairs_view(pairs@) =~= pairs_view(old(pairs)@).push((kv, vv)));
    }
}

/// Decodes the value at position `i`, with `depth` nesting levels allowed.
#[verifier::loop_isolation(false)]
fn decode_at(bytes: &[u8], i: usize, depth: u32) -> (r: Result<(Value, usize), CodecError>)
    requires
        i <= bytes@.len(),
    ensures
        ({
            let d = dec_value(bytes@, i as int, depth as nat);
            match r {
                Ok(p) => (d matches Ok(q) && q.0 == p.0@ && q.1 == p.1 as int && i <= p.1
                    <= bytes@.len()),
                Err(e) => d == Err::<(ValueView, int), CodecError>(e),
            }
        }),
    decreases depth, 0nat,
{
    let ghost s = bytes@;
    let n = bytes.len();
    if i >= n {
        return Err(CodecError::Truncated);
    }
    let tag = bytes[i];
    if tag == TAG_BOOL {
        if n - i < 2 {
            return Err(CodecError::Truncated);
        }
        let b = bytes[i + 1];
        if b == 0 {
            Ok((Value::Bool(false), i + 2))
        } else if b == 1 {
            Ok((Value::Bool(true), i + 2))
        } else {
            Err(CodecError::InvalidTag(b))
        }
    } else if tag == TAG_NUMBER {
        if n - i < 2 {
            return Err(CodecError::Truncated);
        }
        let sub = bytes[i + 1];
        if sub != SUB_FLOAT && sub != SUB_SIGNED && sub != SUB_UNSIGNED {
            return Err(CodecError::InvalidTag(sub));
        }
        if n - i < 10 {
            return Err(CodecError::Truncated);
        }
        let bits = read_le64(bytes, i + 2);
        if sub == SUB_FLOAT {
            if is_finite_bits(bits) {
                Ok((Value::Float(bits), i + 10))
            } else {
                Err(CodecError::InvalidNumber)
            }
        } else if sub == SUB_SIGNED {
            Ok((Value::SignedInt(i64_from_bits(bits)), i + 10))
        } else {
            Ok((Value::UnsignedInt(bits), i + 10))
        }
    } else if tag == TAG_TEXT {
        match decode_str_at(bytes, i + 1) {
            Ok(p) => Ok((Value::Text(p.0), p.1)),
            Err(e) => Err(e),
        }
    } else if tag == TAG_ARRAY {
        if n - i < 5 {
            return Err(CodecError::Truncated);
        }
        if depth == 0 {
            return Err(CodecError::TooDeep);
        }
        let cnt = read_le32(bytes, i + 1);
        let ghost d1 = (depth - 1) as nat;
        let ghost start = (i + 5) as int;
        let mut items: Vec<Value> = Vec::new();
        let mut pos: usize = i + 5;
        let mut k: u32 = 0;
        proof {
            assert(seq_view(items@) =~= Seq::<ValueView>::empty());
        }
        while k < cnt
            invariant
                i + 5 <= pos <= n,
                k <= cnt,
                dec_items(s, start, cnt as int, d1, Seq::empty()) == dec_items(
                    s,
                    pos as int,
                    cnt - k,
                    d1,
                    seq_view(items@),
                ),
            decreases cnt - k,
        {
            match decode_at(bytes, pos, depth - 1) {
                Ok(p) => {
                    let ghost pv = (p.0)@;
                    proof {
                        assert(dec_items(s, pos as int, cnt - k, d1, seq_view(items@)) == dec_items(
                            s,
                            p.1 as int,
                            cnt - k - 1,
                            d1,
                            seq_view(items@).push(pv),
                        ));
                    }
                    let ghost itemsg = items@;
                    pos = p.1;
                    items.push(p.0);
                    k = k + 1;
                    proof {
                        assert(seq_view(items@) =~= seq_view(itemsg).push(pv));
                    }
                },
                Err(e) => {
                    proof {
                        assert(dec_items(s, pos as int, cnt - k, d1, seq_view(items@))
                            == Err::<(Seq<ValueView>, int), CodecError>(e));
                    }
                    return Err(e);
                },
            }
        }
        proof {
            assert(dec_items(s, start, cnt as int, d1, Seq::empty()) == Ok::<
                (Seq<ValueView>, int),
                CodecError,
            >((seq_view(items@), pos as int)));
        }
        let result = Value::Array(items);
        proof {
            assert(result@.arr_items() =~= seq_view(items@));
            assert(result@ == ValueView::Array(seq_view(items@)));
        }
        Ok((result, pos))
    } else if tag == TAG_OBJECT {
        if n - i < 5 {
            return Err(CodecError::Truncated);
        }
        if depth == 0 {
            return Err(CodecError::TooDeep);
        }
        let cnt = read_le32(bytes, i + 1);
        let ghost d1 = (depth - 1) as nat;
        let ghost start = (i + 5) as int;
        let mut pairs: Vec<(String, Value)> = Vec::new();
        let mut pos: usize = i + 5;
        let mut k: u32 = 0;
        proof {
            assert(pairs_view(pairs@) =~= Seq::<(Seq<char>, ValueView)>::empty());
        }
        while k < cnt
            invariant
                i + 5 <= pos <= n,
                k <= cnt,
                dec_pairs(s, start, cnt as int, d1, Seq::empty()) == dec_pairs(
                    s,
                    pos as int,
                    cnt - k,
                    d1,
                    pairs_view(pairs@),
                ),
            decreases cnt - k,
        {
            let key = match decode_str_at(bytes, pos) {
                Ok(kp) => {
                    pos = kp.1;
                    kp.0
                },
                Err(e) => {
                    return Err(e);
                },
            };
            match decode_at(bytes, pos, depth - 1) {
                Ok(p) => {
                    pos = p.1;
                    insert_pair(&mut pairs, key, p.0);
                    k = k + 1;
                },
                Err(e) => {
                    return Err(e);
                },
            }
        }
        let result = Value::Object(pairs);
        proof {
            assert(result@.obj_pairs() =~= pairs_view(pairs@));
            assert(result@ == ValueView::Object(pairs_view(pairs@)));
        }
        Ok((result, pos))
    } else if tag == TAG_NULL {
        Ok((Value::Null, i + 1))
    } else {
        Err(CodecError::InvalidTag(tag))
    }
}

/// The decoded form of a whole buffer: one value that must consume every
/// byte, with nesting bounded by [`VALUE_DEPTH_LIMIT`].
pub open spec fn spec_decoded(bytes: Seq<u8>) -> Result<ValueView, CodecError> {
    match dec_value(bytes, 0, VALUE_DEPTH_LIMIT as nat) {
        Ok(p) => if p.1 == bytes.len() {
            Ok(p.0)
        } else {
            Err(CodecError::TrailingData)
        },
        Err(e) => Err(e),
    }
}

/// Decodes a whole buffer into a value tree: every byte must be consumed,
/// nesting is bounded, and every malformed input is rejected with the
/// matching [`CodecError`].
pub fn decode(bytes: &Vec<u8>) -> (r: Result<ValueWrapper, CodecError>)
    ensures
        ({
            let d = spec_decoded(bytes@);
            match r {
                Ok(w) => (d matches Ok(m) && m == w@),
                Err(e) => d == Err::<ValueView, CodecError>(e),
            }
        }),
{
    match decode_at(bytes.as_slice(), 0, VALUE_DEPTH_LIMIT) {
        Ok(p) => {
            if p.1 == bytes.len() {
                Ok(ValueWrapper(p.0))
            } else {
                Err(CodecError::TrailingData)
            }
        },
        Err(e) => Err(e),
    }
}

/// The bytes of `e` sit at position `i` of `s`.
pub open spec fn bytes_at(s: Seq<u8>, i: int, e: Seq<u8>) -> bool {
    &&& 0 <= i
    &&& i + e.len() <= s.len()
    &&& forall|k: int| 0 <= k < e.len() ==> s[i + k] == (#[trigger] e[k])
}

/// Splits a `bytes_at` fact over a concatenation.
proof fn lemma_bytes_at_split(s: Seq<u8>, i: int, a: Seq<u8>, b: Seq<u8>)
    requires
        bytes_at(s, i, a + b),
    ensures
        bytes_at(s, i, a),
        bytes_at(s, i + a.len(), b),
{
    assert forall|k: int| 0 <= k < a.len() implies s[i + k] == (#[trigger] a[k]) by {
        assert((a + b)[k] == a[k]);
    }
    assert forall|k: int| 0 <= k < b.len() implies s[i + a.len() + k] == (#[trigger] b[k]) by {
        assert((a + b)[a.len() + k] == b[k]);
    }
}

/// Reading back four little-endian bytes yields the value they encode.
proof fn lemma_le32_at(s: Seq<u8>, i: int, n: u32)
    requires
        bytes_at(s, i, le32(n)),
    ensures
        le32_at(s, i) == n,
{
    let b0 = s[i];
    let b1 = s[i + 1];
    let b2 = s[i + 2];
    let b3 = s[i + 3];
    assert(b0 == le32(n)[0] && b1 == le32(n)[1] && b2 == le32(n)[2] && b3 == le32(n)[3]);
    assert((b0 as u32) | ((b1 as u32) << 8) | ((b2 as u32) << 16) | ((b3 as u32) << 24) == n)
        by (bit_vector)
        requires
            b0 == (n & 0xff) as u8,
            b1 == ((n >> 8) & 0xff) as u8,
            b2 == ((n >> 16) & 0xff) as u8,
            b3 == ((n >> 24) & 0xff) as u8,
    ;
}

/// Reading back eight little-endian bytes yields the value they encode.
proof fn lemma_le64_at(s: Seq<u8>, i: int, n: u64)
    requires
        bytes_at(s, i, le64(n)),
    ensures
        le64_at(s, i) == n,
{
    let b0 = s[i];
    let b1 = s[i + 1];
    let b2 = s[i + 2];
    let b3 = s[i + 3];
    let b4 = s[i + 4];
    let b5 = s[i + 5];
    let b6 = s[i + 6];
    let b7 = s[i + 7];
    assert(b0 == le64(n)[0] && b1 == le64(n)[1] && b2 == le64(n)[2] && b3 == le64(n)[3] && b4
        == le64(n)[4] && b5 == le64(n)[5] && b6 == le64(n)[6] && b7 == le64(n)[7]);
    assert((b0 as u64) | ((b1 as u64) << 8) | ((b2 as u64) << 16) | ((b3 as u64) << 24) | ((
    b4 as u64) << 32) | ((b5 as u64) << 40) | ((b6 as u64) << 48) | ((b7 as u64) << 56) == n)
        by (bit_vector)
        requires
            b0 == (n & 0xff) as u8,
            b1 == ((n >> 8) & 0xff) as u8,
            b2 == ((n >> 16) & 0xff) as u8,
            b3 == ((n >> 24) & 0xff) as u8,
            b4 == ((n >> 32) & 0xff) as u8,
            b5 == ((n >> 40) & 0xff) as u8,
            b6 == ((n >> 48) & 0xff) as u8,
            b7 == ((n >> 56) & 0xff) as u8,
    ;
}

/// The two's-complement pattern of an integer reads back as that integer.
proof fn lemma_i64_roundtrip(x: i64)
    ensures
        i64_of_u64(u64_of_i64(x)) == x,
{
}

/// A string's wire form decodes back to its characters.
proof fn lemma_dec_enc_str(s: Seq<u8>, i: int, t: Seq<char>)
    requires
        encode_utf8(t).len() <= u32::MAX,
        bytes_at(s, i, spec_encoded_str(t)),
    ensures
        dec_str(s, i) == Ok::<(Seq<char>, int), CodecError>((t, i + spec_encoded_str(t).len())),
{
    broadcast use vstd::utf8::encode_utf8_valid_utf8, vstd::utf8::encode_utf8_decode_utf8;

    let eb = encode_utf8(t);
    let m = eb.len() as u32;
    lemma_bytes_at_split(s, i, le32(m), eb);
    lemma_le32_at(s, i, m);
    assert(s.subrange(i + 4, i + 4 + m as int) =~= eb);
}

/// Decoding an encoded well-formed value at its position in a larger
/// buffer yields the value back and stops exactly past its bytes.
proof fn lemma_dec_enc(s: Seq<u8>, i: int, v: ValueView, depth: nat)
    requires
        v.wf(),
        v.fits(depth),
        bytes_at(s, i, spec_encoded(v)),
    ensures
        dec_value(s, i, depth) == Ok::<(ValueView, int), CodecError>(
            (v, i + spec_encoded(v).len()),
        ),
    decreases v, 0nat,
{
    let e = spec_encoded(v);
    assert(s[i] == e[0]);
    match v {
        ValueView::Null => {},
        ValueView::Bool(b) => {
            assert(s[i + 1] == e[1]);
        },
        ValueView::Float(bits) => {
            assert(s[i + 1] == e[1]);
            lemma_bytes_at_split(s, i, seq![TAG_NUMBER, SUB_FLOAT], le64(bits));
            lemma_le64_at(s, i + 2, bits);
        },
        ValueView::SignedInt(x) => {
            assert(s[i + 1] == e[1]);
            lemma_bytes_at_split(s, i, seq![TAG_NUMBER, SUB_SIGNED], le64(u64_of_i64(x)));
            lemma_le64_at(s, i + 2, u64_of_i64(x));
            lemma_i64_roundtrip(x);
        },
        ValueView::UnsignedInt(u) => {
            assert(s[i + 1] == e[1]);
            lemma_bytes_at_split(s, i, seq![TAG_NUMBER, SUB_UNSIGNED], le64(u));
            lemma_le64_at(s, i + 2, u);
        },
        ValueView::Text(t) => {
            lemma_bytes_at_split(s, i, seq![TAG_TEXT], spec_encoded_str(t));
            lemma_dec_enc_str(s, i + 1, t);
        },
        ValueView::Array(items) => {
            let n = items.len() as u32;
            lemma_bytes_at_split(s, i, seq![TAG_ARRAY] + le32(n), spec_encoded_items(items, 0));
            lemma_bytes_at_split(s, i, seq![TAG_ARRAY], le32(n));
            lemma_le32_at(s, i + 1, n);
            lemma_dec_enc_items(s, i + 5, items, 0, (depth - 1) as nat, Seq::empty());
            assert(Seq::<ValueView>::empty() + items.skip(0) =~= items);
        },
        ValueView::Object(pairs) => {
            let n = pairs.len() as u32;
            lemma_bytes_at_split(s, i, seq![TAG_OBJECT] + le32(n), spec_encoded_pairs(pairs, 0));
            lemma_bytes_at_split(s, i, seq![TAG_OBJECT], le32(n));
            lemma_le32_at(s, i + 1, n);
            assert(pairs.take(0) =~= Seq::<(Seq<char>, ValueView)>::empty());
            lemma_dec_enc_pairs(s, i + 5, pairs, 0, (depth - 1) as nat);
        },
    }
}

/// Decoding the encoded tail of an array, starting after `j` already
/// accumulated elements, completes the array.
proof fn lemma_dec_enc_items(
    s: Seq<u8>,
    i: int,
    items: Seq<ValueView>,
    j: int,
    depth: nat,
    acc: Seq<ValueView>,
)
    requires
        0 <= j <= items.len(),
        forall|k: int|
            j <= k < items.len() ==> (#[trigger] items[k]).wf() && items[k].fits(depth),
        bytes_at(s, i, spec_encoded_items(items, j)),
    ensures
        dec_items(s, i, items.len() - j, depth, acc) == Ok::<(Seq<ValueView>, int), CodecError>(
            (acc + items.skip(j), i + spec_encoded_items(items, j).len()),
        ),
    decreases items, items.len() - j,
{
    if j == items.len() {
        assert(acc + items.skip(j) =~= acc);
    } else {
        let e0 = spec_encoded(items[j]);
        lemma_bytes_at_split(s, i, e0, spec_encoded_items(items, j + 1));
        lemma_dec_enc(s, i, items[j], depth);
        lemma_dec_enc_items(s, i + e0.len(), items, j + 1, depth, acc.push(items[j]));
        assert(acc.push(items[j]) + items.skip(j + 1) =~= acc + items.skip(j));
    }
}

/// Decoding the encoded tail of an object whose keys are unique, with the
/// first `j` pairs already accumulated, completes the object.
proof fn lemma_dec_enc_pairs(s: Seq<u8>, i: int, pairs: Seq<(Seq<char>, ValueView)>, j: int, depth: nat)
    requires
        0 <= j <= pairs.len(),
        forall|a: int, b: int|
            0 <= a < b < pairs.len() ==> (#[trigger] pairs[a].0) != (#[trigger] pairs[b].0),
        forall|k: int|
            j <= k < pairs.len() ==> (#[trigger] pairs[k]).1.wf() && pairs[k].1.fits(depth)
                && encode_utf8(pairs[k].0).len() <= u32::MAX,
        bytes_at(s, i, spec_encoded_pairs(pairs, j)),
    ensures
        dec_pairs(s, i, pairs.len() - j, depth, pairs.take(j)) == Ok::<
            (Seq<(Seq<char>, ValueView)>, int),
            CodecError,
        >((pairs, i + spec_encoded_pairs(pairs, j).len())),
    decreases pairs, pairs.len() - j,
{
    if j == pairs.len() {
        assert(pairs.take(j) =~= pairs);
    } else {
        let key = pairs[j].0;
        let es = spec_encoded_str(key);
        let e0 = spec_encoded(pairs[j].1);
        lemma_bytes_at_split(s, i, es + e0, spec_encoded_pairs(pairs, j + 1));
        lemma_bytes_at_split(s, i, es, e0);
        lemma_dec_enc_str(s, i, key);
        lemma_dec_enc(s, i + es.len(), pairs[j].1, depth);
        assert forall|a: int| 0 <= a < pairs.take(j).len() implies (#[trigger] pairs.take(j)[a]).0
            != key by {
            assert(pairs.take(j)[a] == pairs[a]);
        }
        lemma_obj_insert_fresh(pairs.take(j), key, pairs[j].1);
        assert(pairs.take(j).push(pairs[j]) =~= pairs.take(j + 1));
        lemma_dec_enc_pairs(s, i + es.len() + e0.len(), pairs, j + 1, depth);
    }
}

/// Round trip: any well-formed value tree within the decoder's depth
/// limit decodes from its own encoding to exactly itself, number subtypes
/// and object key order included.
pub proof fn lemma_round_trip(v: ValueView)
    requires
        v.wf(),
        v.fits(VALUE_DEPTH_LIMIT as nat),
    ensures
        spec_decoded(spec_encoded(v)) == Ok::<ValueView, CodecError>(v),
{
    let s = spec_encoded(v);
    assert forall|k: int| 0 <= k < s.len() implies s[0 + k] == (#[trigger] s[k]) by {}
    lemma_dec_enc(s, 0, v, VALUE_DEPTH_LIMIT as nat);
}

/// A buffer whose leading discriminant is not a wire tag is rejected with
/// `InvalidTag` carrying that byte.
pub proof fn lemma_leading_tag_rejected(bytes: Seq<u8>)
    requires
        bytes.len() > 0,
        bytes[0] > TAG_NULL,
    ensures
        spec_decoded(bytes) == Err::<ValueView, CodecError>(CodecError::InvalidTag(bytes[0])),
{
}

/// The empty buffer is rejected as truncated.
pub proof fn lemma_empty_truncated()
    ensures
        spec_decoded(Seq::empty()) == Err::<ValueView, CodecError>(CodecError::Truncated),
{
}

/// A UTF-8 encoding takes at most four bytes per character.
pub proof fn lemma_encode_utf8_len(t: Seq<char>)
    ensures
        encode_utf8(t).len() <= 4 * t.len(),
    decreases t.len(),
{
    if t.len() == 0 {
    } else {
        lemma_encode_utf8_len(t.drop_first());
        assert(vstd::utf8::encode_scalar(t[0] as u32).len() <= 4);
    }
}

/// The bytes of `e` begin at position `i` of `s`, but `s` ends first.
pub open spec fn bytes_at_cut(s: Seq<u8>, i: int, e: Seq<u8>) -> bool {
    &&& 0 <= i <= s.len()
    &&& s.len() < i + e.len()
    &&& forall|k: int| 0 <= k < s.len() - i ==> s[i + k] == (#[trigger] e[k])
}

/// A string's wire form cut short decodes as truncated.
proof fn lemma_dec_enc_str_truncated(s: Seq<u8>, i: int, t: Seq<char>)
    requires
        encode_utf8(t).len() <= u32::MAX,
        bytes_at_cut(s, i, spec_encoded_str(t)),
    ensures
        dec_str(s, i) == Err::<(Seq<char>, int), CodecError>(CodecError::Truncated),
{
    let eb = encode_utf8(t);
    let m = eb.len() as u32;
    if i + 4 <= s.len() {
        assert forall|k: int| 0 <= k < 4 implies s[i + k] == (#[trigger] le32(m)[k]) by {
            assert(spec_encoded_str(t)[k] == le32(m)[k]);
        }
        lemma_le32_at(s, i, m);
    }
}

/// An encoded value cut short anywhere decodes as truncated.
proof fn lemma_dec_enc_truncated(s: Seq<u8>, i: int, v: ValueView, depth: nat)
    requires
        v.wf(),
        v.fits(depth),
        bytes_at_cut(s, i, spec_encoded(v)),
    ensures
        dec_value(s, i, depth) == Err::<(ValueView, int), CodecError>(CodecError::Truncated),
    decreases v, 0nat,
{
    let e = spec_encoded(v);
    if i < s.len() {
        assert(s[i] == e[0]);
        match v {
            ValueView::Null => {},
            ValueView::Bool(b) => {},
            ValueView::Float(bits) => {
                if i + 1 < s.len() {
                    assert(s[i + 1] == e[1]);
                }
            },
            ValueView::SignedInt(x) => {
                if i + 1 < s.len() {
                    assert(s[i + 1] == e[1]);
                }
            },
            ValueView::UnsignedInt(u) => {
                if i + 1 < s.len() {
                    assert(s[i + 1] == e[1]);
                }
            },
            ValueView::Text(t) => {
                assert forall|k: int| 0 <= k < s.len() - (i + 1) implies s[i + 1 + k] == (
                #[trigger] spec_encoded_str(t)[k]) by {
                    assert(e[1 + k] == spec_encoded_str(t)[k]);
                }
                lemma_dec_enc_str_truncated(s, i + 1, t);
            },
            ValueView::Array(items) => {
                let n = items.len() as u32;
                if i + 5 <= s.len() {
                    assert forall|k: int| 0 <= k < 4 implies s[i + 1 + k] == (
                    #[trigger] le32(n)[k]) by {
                        assert(e[1 + k] == le32(n)[k]);
                    }
                    lemma_le32_at(s, i + 1, n);
                    assert forall|k: int| 0 <= k < s.len() - (i + 5) implies s[i + 5 + k] == (
                    #[trigger] spec_encoded_items(items, 0)[k]) by {
                        assert(e[5 + k] == spec_encoded_items(items, 0)[k]);
                    }
                    lemma_dec_enc_items_truncated(
                        s,
                        i + 5,
                        items,
                        0,
                        (depth - 1) as nat,
                        Seq::empty(),
                    );
                }
            },
            ValueView::Object(pairs) => {
                let n = pairs.len() as u32;
                if i + 5 <= s.len() {
                    assert forall|k: int| 0 <= k < 4 implies s[i + 1 + k] == (
                    #[trigger] le32(n)[k]) by {
                        assert(e[1 + k] == le32(n)[k]);
                    }
                    lemma_le32_at(s, i + 1, n);
                    assert forall|k: int| 0 <= k < s.len() - (i + 5) implies s[i + 5 + k] == (
                    #[trigger] spec_encoded_pairs(pairs, 0)[k]) by {
                        assert(e[5 + k] == spec_encoded_pairs(pairs, 0)[k]);
                    }
                    assert(pairs.take(0) =~= Seq::<(Seq<char>, ValueView)>::empty());
                    lemma_dec_enc_pairs_truncated(s, i + 5, pairs, 0, (depth - 1) as nat);
                }
            },
        }
    }
}

/// An encoded array tail cut short decodes as truncated.
proof fn lemma_dec_enc_items_truncated(
    s: Seq<u8>,
    i: int,
    items: Seq<ValueView>,
    j: int,
    depth: nat,
    acc: Seq<ValueView>,
)
    requires
        0 <= j <= items.len(),
        forall|k: int|
            j <= k < items.len() ==> (#[trigger] items[k]).wf() && items[k].fits(depth),
        bytes_at_cut(s, i, spec_encoded_items(items, j)),
    ensures
        dec_items(s, i, items.len() - j, depth, acc) == Err::<
            (Seq<ValueView>, int),
            CodecError,
        >(CodecError::Truncated),
    decreases items, items.len() - j,
{
    let e0 = spec_encoded(items[j]);
    if s.len() < i + e0.len() {
        assert forall|k: int| 0 <= k < s.len() - i implies s[i + k] == (#[trigger] e0[k]) by {
            assert(spec_encoded_items(items, j)[k] == e0[k]);
        }
        lemma_dec_enc_truncated(s, i, items[j], depth);
    } else {
        assert forall|k: int| 0 <= k < e0.len() implies s[i + k] == (#[trigger] e0[k]) by {
            assert(spec_encoded_items(items, j)[k] == e0[k]);
        }
        lemma_dec_enc(s, i, items[j], depth);
        assert forall|k: int| 0 <= k < s.len() - (i + e0.len()) implies s[i + e0.len() + k] == (
        #[trigger] spec_encoded_items(items, j + 1)[k]) by {
            assert(spec_encoded_items(items, j)[e0.len() + k] == spec_encoded_items(
                items,
                j + 1,
            )[k]);
        }
        lemma_dec_enc_items_truncated(s, i + e0.len(), items, j + 1, depth, acc.push(items[j]));
    }
}

/// An encoded object tail cut short decodes as truncated.
proof fn lemma_dec_enc_pairs_truncated(
    s: Seq<u8>,
    i: int,
    pairs: Seq<(Seq<char>, ValueView)>,
    j: int,
    depth: nat,
)
    requires
        0 <= j <= pairs.len(),
        forall|a: int, b: int|
            0 <= a < b < pairs.len() ==> (#[trigger] pairs[a].0) != (#[trigger] pairs[b].0),
        forall|k: int|
            j <= k < pairs.len() ==> (#[trigger] pairs[k]).1.wf() && pairs[k].1.fits(depth)
                && encode_utf8(pairs[k].0).len() <= u32::MAX,
        bytes_at_cut(s, i, spec_encoded_pairs(pairs, j)),
    ensures
        dec_pairs(s, i, pairs.len() - j, depth, pairs.take(j)) == Err::<
            (Seq<(Seq<char>, ValueView)>, int),
            CodecError,
        >(CodecError::Truncated),
    decreases pairs, pairs.len() - j,
{
    let key = pairs[j].0;
    let es = spec_encoded_str(key);
    let e0 = spec_encoded(pairs[j].1);
    if s.len() < i + es.len() {
        assert forall|k: int| 0 <= k < s.len() - i implies s[i + k] == (#[trigger] es[k]) by {
            assert(spec_encoded_pairs(pairs, j)[k] == es[k]);
        }
        lemma_dec_enc_str_truncated(s, i, key);
    } else {
        assert forall|k: int| 0 <= k < es.len() implies s[i + k] == (#[trigger] es[k]) by {
            assert(spec_encoded_pairs(pairs, j)[k] == es[k]);
        }
        lemma_dec_enc_str(s, i, key);
        if s.len() < i + es.len() + e0.len() {
            assert forall|k: int| 0 <= k < s.len() - (i + es.len()) implies s[i + es.len() + k]
                == (#[trigger] e0[k]) by {
                assert(spec_encoded_pairs(pairs, j)[es.len() + k] == e0[k]);
            }
            lemma_dec_enc_truncated(s, i + es.len(), pairs[j].1, depth);
        } else {
            assert forall|k: int| 0 <= k < e0.len() implies s[i + es.len() + k] == (
            #[trigger] e0[k]) by {
                assert(spec_encoded_pairs(pairs, j)[es.len() + k] == e0[k]);
            }
            lemma_dec_enc(s, i + es.len(), pairs[j].1, depth);
            assert forall|a: int| 0 <= a < pairs.take(j).len() implies (#[trigger] pairs.take(
                j,
            )[a]).0 != key by {
                assert(pairs.take(j)[a] == pairs[a]);
            }
            lemma_obj_insert_fresh(pairs.take(j), key, pairs[j].1);
            assert(pairs.take(j).push(pairs[j]) =~= pairs.take(j + 1));
            assert forall|k: int|
                0 <= k < s.len() - (i + es.len() + e0.len()) implies s[i + es.len() + e0.len()
                + k] == (#[trigger] spec_encoded_pairs(pairs, j + 1)[k]) by {
                assert(spec_encoded_pairs(pairs, j)[es.len() + e0.len() + k]
                    == spec_encoded_pairs(pairs, j + 1)[k]);
            }
            lemma_dec_enc_pairs_truncated(s, i + es.len() + e0.len(), pairs, j + 1, depth);
        }
    }
}

/// Any strict prefix of a valid encoding is rejected as truncated: cutting
/// a well-formed value's wire form anywhere never crashes the decoder and
/// never yields a value.
pub proof fn lemma_truncation_rejected(v: ValueView, cut: int)
    requires
        v.wf(),
        v.fits(VALUE_DEPTH_LIMIT as nat),
        0 <= cut < spec_encoded(v).len(),
    ensures
        spec_decoded(spec_encoded(v).take(cut)) == Err::<ValueView, CodecError>(
            CodecError::Truncated,
        ),
{
    let s = spec_encoded(v).take(cut);
    assert forall|k: int| 0 <= k < s.len() - 0 implies s[0 + k] == (
    #[trigger] spec_encoded(v)[k]) by {}
    lemma_dec_enc_truncated(s, 0, v, VALUE_DEPTH_LIMIT as nat);
}

} // verus!

