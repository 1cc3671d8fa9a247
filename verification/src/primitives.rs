//! `Versionize` implementations for the primitive wire types: fixed-width
//! integers, booleans, strings, and length-prefixed vectors.
//!
//! Primitive encodings do not depend on the version map; their `name` is
//! empty and their version is 1, as the version map never keys them.

use crate::codec::{Reader, Versionize, VersionizeError};
use crate::version_map::VersionMap;
use vstd::bytes::*;
use vstd::prelude::*;

verus! {

/// The concatenated encodings of a sequence of values.
pub open spec fn seq_encode<T: Versionize>(vals: Seq<T>, vm: VersionMap, app: u16) -> Seq<u8>
    decreases vals.len(),
{
    if vals.len() == 0 {
        Seq::empty()
    } else {
        vals[0].spec_encode(vm, app) + seq_encode(vals.skip(1), vm, app)
    }
}

/// Whether every value of a sequence can be encoded.
pub open spec fn seq_encode_ok<T: Versionize>(vals: Seq<T>, vm: VersionMap, app: u16) -> bool {
    forall|i: int| 0 <= i < vals.len() ==> (#[trigger] vals[i]).spec_encode_ok(vm, app)
}

/// Whether decoding the front of `bytes` yields the values `vals` one
/// after another, consuming `n` bytes in all.
pub open spec fn seq_decodes<T: Versionize>(
    bytes: Seq<u8>,
    vm: VersionMap,
    app: u16,
    vals: Seq<T>,
    n: nat,
) -> bool
    decreases vals.len(),
{
    if vals.len() == 0 {
        n == 0
    } else {
        exists|n1: nat|
            {
                &&& #[trigger] T::spec_decodes(bytes, vm, app, vals[0], n1)
                &&& n1 <= n
                &&& seq_decodes(bytes.skip(n1 as int), vm, app, vals.skip(1), (n - n1) as nat)
            }
    }
}

/// Appending one value to a sequence appends its encoding.
pub proof fn lemma_seq_encode_push<T: Versionize>(vals: Seq<T>, vm: VersionMap, app: u16, v: T)
    ensures
        seq_encode(vals.push(v), vm, app) == seq_encode(vals, vm, app) + v.spec_encode(vm, app),
    decreases vals.len(),
{
    let p = vals.push(v);
    if vals.len() == 0 {
        assert(p[0] == v);
        assert(p.skip(1) =~= Seq::<T>::empty());
        assert(seq_encode(p.skip(1), vm, app) =~= Seq::<u8>::empty());
        assert(seq_encode(p, vm, app) =~= v.spec_encode(vm, app));
        assert(seq_encode(vals, vm, app) + v.spec_encode(vm, app) =~= v.spec_encode(vm, app));
    } else {
        assert(p[0] == vals[0]);
        assert(p.skip(1) =~= vals.skip(1).push(v));
        lemma_seq_encode_push(vals.skip(1), vm, app, v);
        assert(seq_encode(p, vm, app) =~= seq_encode(vals, vm, app) + v.spec_encode(vm, app));
    }
}

/// A decoded sequence never consumes more bytes than there are.
pub proof fn lemma_seq_decodes_bound<T: Versionize>(
    bytes: Seq<u8>,
    vm: VersionMap,
    app: u16,
    vals: Seq<T>,
    n: nat,
)
    requires
        seq_decodes(bytes, vm, app, vals, n),
    ensures
        n <= bytes.len(),
    decreases vals.len(),
{
    if vals.len() > 0 {
        let n1 = choose|n1: nat|
            {
                &&& #[trigger] T::spec_decodes(bytes, vm, app, vals[0], n1)
                &&& n1 <= n
                &&& seq_decodes(bytes.skip(n1 as int), vm, app, vals.skip(1), (n - n1) as nat)
            };
        T::lemma_decode_bound(bytes, vm, app, vals[0], n1);
        lemma_seq_decodes_bound(bytes.skip(n1 as int), vm, app, vals.skip(1), (n - n1) as nat);
    }
}

/// A value decoded right after a decoded sequence extends that sequence.
pub proof fn lemma_seq_decodes_push<T: Versionize>(
    bytes: Seq<u8>,
    vm: VersionMap,
    app: u16,
    vals: Seq<T>,
    n: nat,
    v: T,
    m: nat,
)
    requires
        seq_decodes(bytes, vm, app, vals, n),
        T::spec_decodes(bytes.skip(n as int), vm, app, v, m),
    ensures
        seq_decodes(bytes, vm, app, vals.push(v), n + m),
    decreases vals.len(),
{
    let p = vals.push(v);
    if vals.len() == 0 {
        assert(n == 0);
        assert(bytes.skip(0) =~= bytes);
        assert(p[0] == v);
        assert(p.skip(1) =~= Seq::<T>::empty());
        assert(T::spec_decodes(bytes, vm, app, p[0], m));
        assert(seq_decodes(bytes.skip(m as int), vm, app, p.skip(1), ((n + m) - m) as nat));
    } else {
        let n1 = choose|n1: nat|
            {
                &&& #[trigger] T::spec_decodes(bytes, vm, app, vals[0], n1)
                &&& n1 <= n
                &&& seq_decodes(bytes.skip(n1 as int), vm, app, vals.skip(1), (n - n1) as nat)
            };
        T::lemma_decode_bound(bytes, vm, app, vals[0], n1);
        lemma_seq_decodes_bound(bytes.skip(n1 as int), vm, app, vals.skip(1), (n - n1) as nat);
        vstd::seq_lib::lemma_seq_skip_of_skip(bytes, n1 as int, (n - n1) as int);
        assert(bytes.skip(n1 as int).skip((n - n1) as int) =~= bytes.skip(n as int));
        lemma_seq_decodes_push(bytes.skip(n1 as int), vm, app, vals.skip(1), (n - n1) as nat, v, m);
        assert(p[0] == vals[0]);
        assert(p.skip(1) =~= vals.skip(1).push(v));
        assert(T::spec_decodes(bytes, vm, app, p[0], n1));
        assert(seq_decodes(bytes.skip(n1 as int), vm, app, p.skip(1), ((n + m) - n1) as nat));
    }
}

/// Two decodings of the same count of values consume the same bytes.
pub proof fn lemma_seq_decodes_len_det<T: Versionize>(
    bytes: Seq<u8>,
    vm: VersionMap,
    app: u16,
    v1: Seq<T>,
    n1: nat,
    v2: Seq<T>,
    n2: nat,
)
    requires
        seq_decodes(bytes, vm, app, v1, n1),
        seq_decodes(bytes, vm, app, v2, n2),
        v1.len() == v2.len(),
    ensures
        n1 == n2,
    decreases v1.len(),
{
    if v1.len() > 0 {
        let m1 = choose|m: nat|
            {
                &&& #[trigger] T::spec_decodes(bytes, vm, app, v1[0], m)
                &&& m <= n1
                &&& seq_decodes(bytes.skip(m as int), vm, app, v1.skip(1), (n1 - m) as nat)
            };
        let m2 = choose|m: nat|
            {
                &&& #[trigger] T::spec_decodes(bytes, vm, app, v2[0], m)
                &&& m <= n2
                &&& seq_decodes(bytes.skip(m as int), vm, app, v2.skip(1), (n2 - m) as nat)
            };
        T::lemma_decode_len(bytes, vm, app, v1[0], m1, v2[0], m2);
        lemma_seq_decodes_len_det(
            bytes.skip(m1 as int),
            vm,
            app,
            v1.skip(1),
            (n1 - m1) as nat,
            v2.skip(1),
            (n2 - m2) as nat,
        );
    }
}

/// Where one more value cannot be decoded after a decoded prefix, no
/// longer sequence decodes at all.
pub proof fn lemma_seq_decodes_no_extension<T: Versionize>(
    bytes: Seq<u8>,
    vm: VersionMap,
    app: u16,
    built: Seq<T>,
    n: nat,
    full: Seq<T>,
    nf: nat,
)
    requires
        seq_decodes(bytes, vm, app, built, n),
        built.len() < full.len(),
        forall|v: T, m: nat| !T::spec_decodes(bytes.skip(n as int), vm, app, v, m),
    ensures
        !seq_decodes(bytes, vm, app, full, nf),
    decreases built.len(),
{
    if seq_decodes(bytes, vm, app, full, nf) {
        let m2 = choose|m: nat|
            {
                &&& #[trigger] T::spec_decodes(bytes, vm, app, full[0], m)
                &&& m <= nf
                &&& seq_decodes(bytes.skip(m as int), vm, app, full.skip(1), (nf - m) as nat)
            };
        if built.len() == 0 {
            assert(n == 0);
            assert(bytes.skip(0) =~= bytes);
            assert(!T::spec_decodes(bytes, vm, app, full[0], m2));
        } else {
            let m1 = choose|m: nat|
                {
                    &&& #[trigger] T::spec_decodes(bytes, vm, app, built[0], m)
                    &&& m <= n
                    &&& seq_decodes(bytes.skip(m as int), vm, app, built.skip(1), (n - m) as nat)
                };
            T::lemma_decode_len(bytes, vm, app, built[0], m1, full[0], m2);
            T::lemma_decode_bound(bytes, vm, app, built[0], m1);
            lemma_seq_decodes_bound(bytes.skip(m1 as int), vm, app, built.skip(1), (n - m1) as nat);
            vstd::seq_lib::lemma_seq_skip_of_skip(bytes, m1 as int, (n - m1) as int);
            assert(bytes.skip(m1 as int).skip((n - m1) as int) =~= bytes.skip(n as int));
            lemma_seq_decodes_no_extension(
                bytes.skip(m1 as int),
                vm,
                app,
                built.skip(1),
                (n - m1) as nat,
                full.skip(1),
                (nf - m2) as nat,
            );
        }
    }
}

/// A prefix of raw bytes decodes as that very sequence of `u8` values.
pub proof fn lemma_seq_decodes_u8(bytes: Seq<u8>, vm: VersionMap, app: u16, vals: Seq<u8>)
    requires
        bytes.len() >= vals.len(),
        forall|i: int| 0 <= i < vals.len() ==> vals[i] == bytes[i],
    ensures
        seq_decodes(bytes, vm, app, vals, vals.len()),
    decreases vals.len(),
{
    if vals.len() > 0 {
        assert(<u8 as Versionize>::spec_decodes(bytes, vm, app, vals[0], 1));
        assert(forall|i: int|
            0 <= i < vals.skip(1).len() ==> vals.skip(1)[i] == bytes.skip(1)[i]);
        lemma_seq_decodes_u8(bytes.skip(1), vm, app, vals.skip(1));
        assert(seq_decodes(bytes.skip(1), vm, app, vals.skip(1), (vals.len() - 1) as nat));
    }
}

/// A decoded sequence of `u8` values is exactly the bytes it was read
/// from.
pub proof fn lemma_seq_decodes_u8_det(bytes: Seq<u8>, vm: VersionMap, app: u16, vals: Seq<u8>, n: nat)
    requires
        seq_decodes(bytes, vm, app, vals, n),
    ensures
        n == vals.len(),
        vals.len() <= bytes.len(),
        forall|i: int| 0 <= i < vals.len() ==> vals[i] == bytes[i],
    decreases vals.len(),
{
    if vals.len() > 0 {
        let n1 = choose|n1: nat|
            {
                &&& #[trigger] <u8 as Versionize>::spec_decodes(bytes, vm, app, vals[0], n1)
                &&& n1 <= n
                &&& seq_decodes(bytes.skip(n1 as int), vm, app, vals.skip(1), (n - n1) as nat)
            };
        assert(n1 == 1);
        lemma_seq_decodes_u8_det(bytes.skip(1), vm, app, vals.skip(1), (n - 1) as nat);
        assert(forall|i: int|
            0 <= i < vals.skip(1).len() ==> vals.skip(1)[i] == bytes.skip(1)[i]);
        assert forall|i: int| 0 <= i < vals.len() implies vals[i] == bytes[i] by {
            if i > 0 {
                assert(vals.skip(1)[i - 1] == bytes.skip(1)[i - 1]);
            }
        }
    }
}

/// The bytes of a `u16` encoding decode back to the same value.
pub proof fn lemma_u16_encode_decodes(
    x: u16,
    vm_a: VersionMap,
    app_a: u16,
    vm_b: VersionMap,
    app_b: u16,
    rest: Seq<u8>,
)
    ensures
        <u16 as Versionize>::spec_decodes(x.spec_encode(vm_a, app_a) + rest, vm_b, app_b, x, 2),
{
    lemma_auto_spec_u16_to_from_le_bytes();
    assert((spec_u16_to_le_bytes(x) + rest).take(2) =~= spec_u16_to_le_bytes(x));
}

/// The bytes of a `u32` encoding decode back to the same value.
pub proof fn lemma_u32_encode_decodes(
    x: u32,
    vm_a: VersionMap,
    app_a: u16,
    vm_b: VersionMap,
    app_b: u16,
    rest: Seq<u8>,
)
    ensures
        <u32 as Versionize>::spec_decodes(x.spec_encode(vm_a, app_a) + rest, vm_b, app_b, x, 4),
{
    lemma_auto_spec_u32_to_from_le_bytes();
    assert((spec_u32_to_le_bytes(x) + rest).take(4) =~= spec_u32_to_le_bytes(x));
}

/// The bytes of a `u64` encoding decode back to the same value.
pub proof fn lemma_u64_encode_decodes(
    x: u64,
    vm_a: VersionMap,
    app_a: u16,
    vm_b: VersionMap,
    app_b: u16,
    rest: Seq<u8>,
)
    ensures
        <u64 as Versionize>::spec_decodes(x.spec_encode(vm_a, app_a) + rest, vm_b, app_b, x, 8),
{
    lemma_auto_spec_u64_to_from_le_bytes();
    assert((spec_u64_to_le_bytes(x) + rest).take(8) =~= spec_u64_to_le_bytes(x));
}

/// The byte of a `u8` encoding decodes back to the same value.
pub proof fn lemma_u8_encode_decodes(
    x: u8,
    vm_a: VersionMap,
    app_a: u16,
    vm_b: VersionMap,
    app_b: u16,
    rest: Seq<u8>,
)
    ensures
        <u8 as Versionize>::spec_decodes(x.spec_encode(vm_a, app_a) + rest, vm_b, app_b, x, 1),
{
    assert((x.spec_encode(vm_a, app_a) + rest)[0] == x);
}

/// The byte of an `i8` encoding decodes back to the same value.
pub proof fn lemma_i8_encode_decodes(
    x: i8,
    vm_a: VersionMap,
    app_a: u16,
    vm_b: VersionMap,
    app_b: u16,
    rest: Seq<u8>,
)
    ensures
        <i8 as Versionize>::spec_decodes(x.spec_encode(vm_a, app_a) + rest, vm_b, app_b, x, 1),
{
    assert((x.spec_encode(vm_a, app_a) + rest)[0] == x as u8);
    assert((x as u8) as i8 == x) by (bit_vector);
}

/// The byte of a `bool` encoding decodes back to the same value.
pub proof fn lemma_bool_encode_decodes(
    x: bool,
    vm_a: VersionMap,
    app_a: u16,
    vm_b: VersionMap,
    app_b: u16,
    rest: Seq<u8>,
)
    ensures
        <bool as Versionize>::spec_decodes(x.spec_encode(vm_a, app_a) + rest, vm_b, app_b, x, 1),
{
    assert((x.spec_encode(vm_a, app_a) + rest)[0] == if x {
        1u8
    } else {
        0u8
    });
}

/// The bytes of a `usize` encoding decode back to the same value.
pub proof fn lemma_usize_encode_decodes(
    x: usize,
    vm_a: VersionMap,
    app_a: u16,
    vm_b: VersionMap,
    app_b: u16,
    rest: Seq<u8>,
)
    ensures
        <usize as Versionize>::spec_decodes(x.spec_encode(vm_a, app_a) + rest, vm_b, app_b, x, 8),
{
    lemma_auto_spec_u64_to_from_le_bytes();
    assert((spec_u64_to_le_bytes(x as u64) + rest).take(8) =~= spec_u64_to_le_bytes(x as u64));
}

/// The bytes of a `String` encoding decode back to the same string.
pub proof fn lemma_string_encode_decodes(
    s: String,
    vm_a: VersionMap,
    app_a: u16,
    vm_b: VersionMap,
    app_b: u16,
    rest: Seq<u8>,
)
    requires
        vstd::utf8::encode_utf8(s@).len() <= usize::MAX,
    ensures
        <String as Versionize>::spec_decodes(
            s.spec_encode(vm_a, app_a) + rest,
            vm_b,
            app_b,
            s,
            s.spec_encode(vm_a, app_a).len(),
        ),
{
    let eb = vstd::utf8::encode_utf8(s@);
    let b = s.spec_encode(vm_a, app_a) + rest;
    lemma_auto_spec_u64_to_from_le_bytes();
    assert(b.take(8) =~= spec_u64_to_le_bytes(eb.len() as u64));
    assert(b.subrange(8, 8 + eb.len() as int) =~= eb);
}

/// Encoding a sequence of raw bytes concatenates exactly those bytes.
pub proof fn lemma_seq_encode_u8_id(vals: Seq<u8>, vm: VersionMap, app: u16)
    ensures
        seq_encode(vals, vm, app) == vals,
    decreases vals.len(),
{
    if vals.len() == 0 {
        assert(seq_encode(vals, vm, app) =~= vals);
    } else {
        lemma_seq_encode_u8_id(vals.skip(1), vm, app);
        assert(seq_encode(vals, vm, app) =~= vals);
    }
}

/// The bytes of a `Vec<u8>` encoding decode back to the same contents.
pub proof fn lemma_vec_u8_encode_decodes(
    v: Vec<u8>,
    vm_a: VersionMap,
    app_a: u16,
    vm_b: VersionMap,
    app_b: u16,
    rest: Seq<u8>,
)
    requires
        v@.len() <= usize::MAX,
    ensures
        <Vec<u8> as Versionize>::spec_decodes(
            v.spec_encode(vm_a, app_a) + rest,
            vm_b,
            app_b,
            v,
            v.spec_encode(vm_a, app_a).len(),
        ),
{
    let enc = v.spec_encode(vm_a, app_a);
    let b = enc + rest;
    lemma_seq_encode_u8_id(v@, vm_a, app_a);
    lemma_auto_spec_u64_to_from_le_bytes();
    assert(b.take(8) =~= spec_u64_to_le_bytes(v@.len() as u64));
    assert(forall|i: int| 0 <= i < v@.len() ==> v@[i] == b.skip(8)[i]);
    lemma_seq_decodes_u8(b.skip(8), vm_b, app_b, v@);
    assert(enc.len() == 8 + v@.len());
}

/// Two strings decoded from the same bytes agree in characters and
/// consumed count.
pub proof fn lemma_string_decode_det(
    bytes: Seq<u8>,
    vm: VersionMap,
    app: u16,
    s1: String,
    n1: nat,
    s2: String,
    n2: nat,
)
    requires
        <String as Versionize>::spec_decodes(bytes, vm, app, s1, n1),
        <String as Versionize>::spec_decodes(bytes, vm, app, s2, n2),
    ensures
        n1 == n2,
        s1@ == s2@,
{
    vstd::utf8::encode_utf8_decode_utf8(s1@);
    vstd::utf8::encode_utf8_decode_utf8(s2@);
}

/// Two byte vectors decoded from the same bytes agree in contents and
/// consumed count.
pub proof fn lemma_vec_u8_decode_det(
    bytes: Seq<u8>,
    vm: VersionMap,
    app: u16,
    v1: Vec<u8>,
    n1: nat,
    v2: Vec<u8>,
    n2: nat,
)
    requires
        <Vec<u8> as Versionize>::spec_decodes(bytes, vm, app, v1, n1),
        <Vec<u8> as Versionize>::spec_decodes(bytes, vm, app, v2, n2),
    ensures
        n1 == n2,
        v1@ == v2@,
{
    let m1 = choose|m: nat|
        {
            &&& #[trigger] seq_decodes(bytes.skip(8), vm, app, v1@, m)
            &&& n1 == 8 + m
        };
    let m2 = choose|m: nat|
        {
            &&& #[trigger] seq_decodes(bytes.skip(8), vm, app, v2@, m)
            &&& n2 == 8 + m
        };
    lemma_seq_decodes_u8_det(bytes.skip(8), vm, app, v1@, m1);
    lemma_seq_decodes_u8_det(bytes.skip(8), vm, app, v2@, m2);
    assert(v1@ =~= v2@);
}

/// A run of `u64` encodings decodes back to the same values.
pub proof fn lemma_seq_u64_encode_decodes(
    vals: Seq<u64>,
    vm_a: VersionMap,
    app_a: u16,
    vm_b: VersionMap,
    app_b: u16,
    rest: Seq<u8>,
)
    ensures
        seq_encode(vals, vm_a, app_a).len() == 8 * vals.len(),
        seq_decodes(
            seq_encode(vals, vm_a, app_a) + rest,
            vm_b,
            app_b,
            vals,
            seq_encode(vals, vm_a, app_a).len(),
        ),
    decreases vals.len(),
{
    lemma_auto_spec_u64_to_from_le_bytes();
    if vals.len() == 0 {
        assert(seq_encode(vals, vm_a, app_a) =~= Seq::<u8>::empty());
        assert(seq_decodes(seq_encode(vals, vm_a, app_a) + rest, vm_b, app_b, vals, 0nat));
    } else {
        let head_enc = vals[0].spec_encode(vm_a, app_a);
        let tail_enc = seq_encode(vals.skip(1), vm_a, app_a);
        let b = seq_encode(vals, vm_a, app_a) + rest;
        assert(b =~= head_enc + (tail_enc + rest));
        lemma_u64_encode_decodes(vals[0], vm_a, app_a, vm_b, app_b, tail_enc + rest);
        lemma_seq_u64_encode_decodes(vals.skip(1), vm_a, app_a, vm_b, app_b, rest);
        assert(b.skip(8) =~= tail_enc + rest);
        assert(<u64 as Versionize>::spec_decodes(b, vm_b, app_b, vals[0], 8));
        assert(seq_decodes(b.skip(8), vm_b, app_b, vals.skip(1), tail_enc.len()));
        assert(seq_decodes(b, vm_b, app_b, vals, (8 + tail_enc.len()) as nat));
    }
}

/// Two runs of the same count of `u64` values decoded from the same
/// bytes agree pointwise.
pub proof fn lemma_seq_u64_decode_det(
    bytes: Seq<u8>,
    vm: VersionMap,
    app: u16,
    v1: Seq<u64>,
    n1: nat,
    v2: Seq<u64>,
    n2: nat,
)
    requires
        seq_decodes(bytes, vm, app, v1, n1),
        seq_decodes(bytes, vm, app, v2, n2),
        v1.len() == v2.len(),
    ensures
        v1 == v2,
        n1 == n2,
    decreases v1.len(),
{
    if v1.len() == 0 {
        assert(v1 =~= v2);
    } else {
        let m1 = choose|m: nat|
            {
                &&& #[trigger] <u64 as Versionize>::spec_decodes(bytes, vm, app, v1[0], m)
                &&& m <= n1
                &&& seq_decodes(bytes.skip(m as int), vm, app, v1.skip(1), (n1 - m) as nat)
            };
        let m2 = choose|m: nat|
            {
                &&& #[trigger] <u64 as Versionize>::spec_decodes(bytes, vm, app, v2[0], m)
                &&& m <= n2
                &&& seq_decodes(bytes.skip(m as int), vm, app, v2.skip(1), (n2 - m) as nat)
            };
        assert(m1 == 8 && m2 == 8);
        lemma_seq_u64_decode_det(
            bytes.skip(8),
            vm,
            app,
            v1.skip(1),
            (n1 - 8) as nat,
            v2.skip(1),
            (n2 - 8) as nat,
        );
        assert(v1[0] == v2[0]);
        assert forall|i: int| 0 <= i < v1.len() implies v1[i] == v2[i] by {
            if i > 0 {
                assert(v1.skip(1)[i - 1] == v2.skip(1)[i - 1]);
            }
        }
        assert(v1 =~= v2);
    }
}

/// The bytes of a `Vec<u64>` encoding decode back to the same contents.
pub proof fn lemma_vec_u64_encode_decodes(
    v: Vec<u64>,
    vm_a: VersionMap,
    app_a: u16,
    vm_b: VersionMap,
    app_b: u16,
    rest: Seq<u8>,
)
    requires
        v@.len() <= usize::MAX,
    ensures
        <Vec<u64> as Versionize>::spec_decodes(
            v.spec_encode(vm_a, app_a) + rest,
            vm_b,
            app_b,
            v,
            v.spec_encode(vm_a, app_a).len(),
        ),
{
    let enc = v.spec_encode(vm_a, app_a);
    let b = enc + rest;
    lemma_auto_spec_u64_to_from_le_bytes();
    assert(b.take(8) =~= spec_u64_to_le_bytes(v@.len() as u64));
    lemma_seq_u64_encode_decodes(v@, vm_a, app_a, vm_b, app_b, rest);
    assert(b.skip(8) =~= seq_encode(v@, vm_a, app_a) + rest);
}

/// Two `u64` vectors decoded from the same bytes agree in contents and
/// consumed count.
pub proof fn lemma_vec_u64_decode_det(
    bytes: Seq<u8>,
    vm: VersionMap,
    app: u16,
    v1: Vec<u64>,
    n1: nat,
    v2: Vec<u64>,
    n2: nat,
)
    requires
        <Vec<u64> as Versionize>::spec_decodes(bytes, vm, app, v1, n1),
        <Vec<u64> as Versionize>::spec_decodes(bytes, vm, app, v2, n2),
    ensures
        n1 == n2,
        v1@ == v2@,
{
    let m1 = choose|m: nat|
        {
            &&& #[trigger] seq_decodes(bytes.skip(8), vm, app, v1@, m)
            &&& n1 == 8 + m
        };
    let m2 = choose|m: nat|
        {
            &&& #[trigger] seq_decodes(bytes.skip(8), vm, app, v2@, m)
            &&& n2 == 8 + m
        };
    lemma_seq_u64_decode_det(bytes.skip(8), vm, app, v1@, m1, v2@, m2);
}

/// A decoded sequence of `i8` values consumes exactly one byte each.
pub proof fn lemma_seq_decodes_i8_det(
    bytes: Seq<u8>,
    vm: VersionMap,
    app: u16,
    vals: Seq<i8>,
    n: nat,
)
    requires
        seq_decodes(bytes, vm, app, vals, n),
    ensures
        n == vals.len(),
        vals.len() <= bytes.len(),
    decreases vals.len(),
{
    if vals.len() > 0 {
        let n1 = choose|n1: nat|
            {
                &&& #[trigger] <i8 as Versionize>::spec_decodes(bytes, vm, app, vals[0], n1)
                &&& n1 <= n
                &&& seq_decodes(bytes.skip(n1 as int), vm, app, vals.skip(1), (n - n1) as nat)
            };
        assert(n1 == 1);
        lemma_seq_decodes_i8_det(bytes.skip(1), vm, app, vals.skip(1), (n - 1) as nat);
    }
}

/// A decoded byte vector consumes the span its length prefix announces.
pub proof fn lemma_vec_u8_span(bytes: Seq<u8>, vm: VersionMap, app: u16, v: Vec<u8>, n: nat)
    requires
        <Vec<u8> as Versionize>::spec_decodes(bytes, vm, app, v, n),
    ensures
        n == 8 + spec_u64_from_le_bytes(bytes.take(8)),
        v@.len() == spec_u64_from_le_bytes(bytes.take(8)),
{
    let m = choose|m: nat|
        {
            &&& #[trigger] seq_decodes(bytes.skip(8), vm, app, v@, m)
            &&& n == 8 + m
        };
    lemma_seq_decodes_u8_det(bytes.skip(8), vm, app, v@, m);
}

/// Relies on String::from_utf8: it accepts exactly the valid UTF-8 byte
/// sequences, and the returned string's characters encode back to the
/// given bytes.
#[verifier::external_body]
fn string_from_utf8(bytes: Vec<u8>) -> (r: Option<String>)
    ensures
        match r {
            Some(s) => vstd::utf8::valid_utf8(bytes@) && vstd::utf8::encode_utf8(s@) == bytes@,
            None => !vstd::utf8::valid_utf8(bytes@),
        },
{
    match String::from_utf8(bytes) {
        Ok(s) => Some(s),
        Err(_) => None,
    }
}

impl Versionize for u8 {
    open spec fn spec_name() -> Seq<char> {
        Seq::empty()
    }

    open spec fn spec_version() -> u16 {
        1u16
    }

    open spec fn spec_encode_ok(self, vm: VersionMap, app: u16) -> bool {
        true
    }

    open spec fn spec_encode(self, vm: VersionMap, app: u16) -> Seq<u8> {
        seq![self]
    }

    open spec fn spec_decodes(bytes: Seq<u8>, vm: VersionMap, app: u16, val: u8, n: nat) -> bool {
        n == 1 && bytes.len() >= 1 && val == bytes[0]
    }

    proof fn lemma_decode_bound(bytes: Seq<u8>, vm: VersionMap, app: u16, val: u8, n: nat) {
    }

    proof fn lemma_decode_len(
        bytes: Seq<u8>,
        vm: VersionMap,
        app: u16,
        v1: u8,
        n1: nat,
        v2: u8,
        n2: nat,
    ) {
    }

    fn serialize(&self, out: &mut Vec<u8>, version_map: &VersionMap, target_app_version: u16) -> (r:
        Result<(), VersionizeError>) {
        out.push(*self);
        proof {
            assert(out@ =~= old(out)@ + seq![*self]);
        }
        Ok(())
    }

    fn deserialize(reader: &mut Reader, version_map: &VersionMap, src_app_version: u16) -> (r:
        Result<u8, VersionizeError>) {
        match reader.take(1) {
            Ok(s) => {
                let v: u8 = s[0];
                proof {
                    assert(s@[0] == old(reader).remaining()[0]);
                }
                Ok(v)
            },
            Err(e) => Err(e),
        }
    }

    fn name() -> (r: String) {
        String::new()
    }

    fn version() -> (r: u16) {
        1
    }
}

impl Versionize for i8 {
    open spec fn spec_name() -> Seq<char> {
        Seq::empty()
    }

    open spec fn spec_version() -> u16 {
        1u16
    }

    open spec fn spec_encode_ok(self, vm: VersionMap, app: u16) -> bool {
        true
    }

    open spec fn spec_encode(self, vm: VersionMap, app: u16) -> Seq<u8> {
        seq![self as u8]
    }

    open spec fn spec_decodes(bytes: Seq<u8>, vm: VersionMap, app: u16, val: i8, n: nat) -> bool {
        n == 1 && bytes.len() >= 1 && val == bytes[0] as i8
    }

    proof fn lemma_decode_bound(bytes: Seq<u8>, vm: VersionMap, app: u16, val: i8, n: nat) {
    }

    proof fn lemma_decode_len(
        bytes: Seq<u8>,
        vm: VersionMap,
        app: u16,
        v1: i8,
        n1: nat,
        v2: i8,
        n2: nat,
    ) {
    }

    fn serialize(&self, out: &mut Vec<u8>, version_map: &VersionMap, target_app_version: u16) -> (r:
        Result<(), VersionizeError>) {
        out.push(*self as u8);
        proof {
            assert(out@ =~= old(out)@ + seq![*self as u8]);
        }
        Ok(())
    }

    fn deserialize(reader: &mut Reader, version_map: &VersionMap, src_app_version: u16) -> (r:
        Result<i8, VersionizeError>) {
        match reader.take(1) {
            Ok(s) => {
                let v: i8 = s[0] as i8;
                proof {
                    assert(s@[0] == old(reader).remaining()[0]);
                }
                Ok(v)
            },
            Err(e) => Err(e),
        }
    }

    fn name() -> (r: String) {
        String::new()
    }

    fn version() -> (r: u16) {
        1
    }
}

impl Versionize for bool {
    open spec fn spec_name() -> Seq<char> {
        Seq::empty()
    }

    open spec fn spec_version() -> u16 {
        1u16
    }

    open spec fn spec_encode_ok(self, vm: VersionMap, app: u16) -> bool {
        true
    }

    open spec fn spec_encode(self, vm: VersionMap, app: u16) -> Seq<u8> {
        seq![
            if self {
                1u8
            } else {
                0u8
            },
        ]
    }

    open spec fn spec_decodes(bytes: Seq<u8>, vm: VersionMap, app: u16, val: bool, n: nat) -> bool {
        &&& n == 1
        &&& bytes.len() >= 1
        &&& (bytes[0] == 0 || bytes[0] == 1)
        &&& val == (bytes[0] == 1)
    }

    proof fn lemma_decode_bound(bytes: Seq<u8>, vm: VersionMap, app: u16, val: bool, n: nat) {
    }

    proof fn lemma_decode_len(
        bytes: Seq<u8>,
        vm: VersionMap,
        app: u16,
        v1: bool,
        n1: nat,
        v2: bool,
        n2: nat,
    ) {
    }

    fn serialize(&self, out: &mut Vec<u8>, version_map: &VersionMap, target_app_version: u16) -> (r:
        Result<(), VersionizeError>) {
        let b: u8 = if *self {
            1
        } else {
            0
        };
        out.push(b);
        proof {
            assert(out@ =~= old(out)@ + self.spec_encode(*version_map, target_app_version));
        }
        Ok(())
    }

    fn deserialize(reader: &mut Reader, version_map: &VersionMap, src_app_version: u16) -> (r:
        Result<bool, VersionizeError>) {
        match reader.take(1) {
            Ok(s) => {
                let b: u8 = s[0];
                proof {
                    assert(s@[0] == old(reader).remaining()[0]);
                }
                if b == 0 {
                    Ok(false)
                } else if b == 1 {
                    Ok(true)
                } else {
                    Err(VersionizeError::InvalidEncoding)
                }
            },
            Err(e) => Err(e),
        }
    }

    fn name() -> (r: String) {
        String::new()
    }

    fn version() -> (r: u16) {
        1
    }
}

impl Versionize for u16 {
    open spec fn spec_name() -> Seq<char> {
        Seq::empty()
    }

    open spec fn spec_version() -> u16 {
        1u16
    }

    open spec fn spec_encode_ok(self, vm: VersionMap, app: u16) -> bool {
        true
    }

    open spec fn spec_encode(self, vm: VersionMap, app: u16) -> Seq<u8> {
        spec_u16_to_le_bytes(self)
    }

    open spec fn spec_decodes(bytes: Seq<u8>, vm: VersionMap, app: u16, val: u16, n: nat) -> bool {
        n == 2 && bytes.len() >= 2 && val == spec_u16_from_le_bytes(bytes.take(2))
    }

    proof fn lemma_decode_bound(bytes: Seq<u8>, vm: VersionMap, app: u16, val: u16, n: nat) {
    }

    proof fn lemma_decode_len(
        bytes: Seq<u8>,
        vm: VersionMap,
        app: u16,
        v1: u16,
        n1: nat,
        v2: u16,
        n2: nat,
    ) {
    }

    fn serialize(&self, out: &mut Vec<u8>, version_map: &VersionMap, target_app_version: u16) -> (r:
        Result<(), VersionizeError>) {
        let mut b = u16_to_le_bytes(*self);
        out.append(&mut b);
        Ok(())
    }

    fn deserialize(reader: &mut Reader, version_map: &VersionMap, src_app_version: u16) -> (r:
        Result<u16, VersionizeError>) {
        match reader.take(2) {
            Ok(s) => {
                proof {
                    assert(s@ =~= old(reader).remaining().take(2));
                }
                Ok(u16_from_le_bytes(s))
            },
            Err(e) => Err(e),
        }
    }

    fn name() -> (r: String) {
        String::new()
    }

    fn version() -> (r: u16) {
        1
    }
}

impl Versionize for u32 {
    open spec fn spec_name() -> Seq<char> {
        Seq::empty()
    }

    open spec fn spec_version() -> u16 {
        1u16
    }

    open spec fn spec_encode_ok(self, vm: VersionMap, app: u16) -> bool {
        true
    }

    open spec fn spec_encode(self, vm: VersionMap, app: u16) -> Seq<u8> {
        spec_u32_to_le_bytes(self)
    }

    open spec fn spec_decodes(bytes: Seq<u8>, vm: VersionMap, app: u16, val: u32, n: nat) -> bool {
        n == 4 && bytes.len() >= 4 && val == spec_u32_from_le_bytes(bytes.take(4))
    }

    proof fn lemma_decode_bound(bytes: Seq<u8>, vm: VersionMap, app: u16, val: u32, n: nat) {
    }

    proof fn lemma_decode_len(
        bytes: Seq<u8>,
        vm: VersionMap,
        app: u16,
        v1: u32,
        n1: nat,
        v2: u32,
        n2: nat,
    ) {
    }

    fn serialize(&self, out: &mut Vec<u8>, version_map: &VersionMap, target_app_version: u16) -> (r:
        Result<(), VersionizeError>) {
        let mut b = u32_to_le_bytes(*self);
        out.append(&mut b);
        Ok(())
    }

    fn deserialize(reader: &mut Reader, version_map: &VersionMap, src_app_version: u16) -> (r:
        Result<u32, VersionizeError>) {
        match reader.take(4) {
            Ok(s) => {
                proof {
                    assert(s@ =~= old(reader).remaining().take(4));
                }
                Ok(u32_from_le_bytes(s))
            },
            Err(e) => Err(e),
        }
    }

    fn name() -> (r: String) {
        String::new()
    }

    fn version() -> (r: u16) {
        1
    }
}

impl Versionize for u64 {
    open spec fn spec_name() -> Seq<char> {
        Seq::empty()
    }

    open spec fn spec_version() -> u16 {
        1u16
    }

    open spec fn spec_encode_ok(self, vm: VersionMap, app: u16) -> bool {
        true
    }

    open spec fn spec_encode(self, vm: VersionMap, app: u16) -> Seq<u8> {
        spec_u64_to_le_bytes(self)
    }

    open spec fn spec_decodes(bytes: Seq<u8>, vm: VersionMap, app: u16, val: u64, n: nat) -> bool {
        n == 8 && bytes.len() >= 8 && val == spec_u64_from_le_bytes(bytes.take(8))
    }

    proof fn lemma_decode_bound(bytes: Seq<u8>, vm: VersionMap, app: u16, val: u64, n: nat) {
    }

    proof fn lemma_decode_len(
        bytes: Seq<u8>,
        vm: VersionMap,
        app: u16,
        v1: u64,
        n1: nat,
        v2: u64,
        n2: nat,
    ) {
    }

    fn serialize(&self, out: &mut Vec<u8>, version_map: &VersionMap, target_app_version: u16) -> (r:
        Result<(), VersionizeError>) {
        let mut b = u64_to_le_bytes(*self);
        out.append(&mut b);
        Ok(())
    }

    fn deserialize(reader: &mut Reader, version_map: &VersionMap, src_app_version: u16) -> (r:
        Result<u64, VersionizeError>) {
        match reader.take(8) {
            Ok(s) => {
                proof {
                    assert(s@ =~= old(reader).remaining().take(8));
                }
                Ok(u64_from_le_bytes(s))
            },
            Err(e) => Err(e),
        }
    }

    fn name() -> (r: String) {
        String::new()
    }

    fn version() -> (r: u16) {
        1
    }
}

impl Versionize for usize {
    open spec fn spec_name() -> Seq<char> {
        Seq::empty()
    }

    open spec fn spec_version() -> u16 {
        1u16
    }

    open spec fn spec_encode_ok(self, vm: VersionMap, app: u16) -> bool {
        true
    }

    open spec fn spec_encode(self, vm: VersionMap, app: u16) -> Seq<u8> {
        spec_u64_to_le_bytes(self as u64)
    }

    open spec fn spec_decodes(bytes: Seq<u8>, vm: VersionMap, app: u16, val: usize, n: nat) -> bool {
        &&& n == 8
        &&& bytes.len() >= 8
        &&& spec_u64_from_le_bytes(bytes.take(8)) <= usize::MAX
        &&& val == spec_u64_from_le_bytes(bytes.take(8)) as usize
    }

    proof fn lemma_decode_bound(bytes: Seq<u8>, vm: VersionMap, app: u16, val: usize, n: nat) {
    }

    proof fn lemma_decode_len(
        bytes: Seq<u8>,
        vm: VersionMap,
        app: u16,
        v1: usize,
        n1: nat,
        v2: usize,
        n2: nat,
    ) {
    }

    fn serialize(&self, out: &mut Vec<u8>, version_map: &VersionMap, target_app_version: u16) -> (r:
        Result<(), VersionizeError>) {
        let mut b = u64_to_le_bytes(*self as u64);
        out.append(&mut b);
        Ok(())
    }

    fn deserialize(reader: &mut Reader, version_map: &VersionMap, src_app_version: u16) -> (r:
        Result<usize, VersionizeError>) {
        match reader.take(8) {
            Ok(s) => {
                proof {
                    assert(s@ =~= old(reader).remaining().take(8));
                }
                let v: u64 = u64_from_le_bytes(s);
                if v > usize::MAX as u64 {
                    Err(VersionizeError::LengthOverflow)
                } else {
                    Ok(v as usize)
                }
            },
            Err(e) => Err(e),
        }
    }

    fn name() -> (r: String) {
        String::new()
    }

    fn version() -> (r: u16) {
        1
    }
}

impl Versionize for String {
    open spec fn spec_name() -> Seq<char> {
        Seq::empty()
    }

    open spec fn spec_version() -> u16 {
        1u16
    }

    open spec fn spec_encode_ok(self, vm: VersionMap, app: u16) -> bool {
        true
    }

    open spec fn spec_encode(self, vm: VersionMap, app: u16) -> Seq<u8> {
        spec_u64_to_le_bytes(vstd::utf8::encode_utf8(self@).len() as u64) + vstd::utf8::encode_utf8(
            self@,
        )
    }

    open spec fn spec_decodes(bytes: Seq<u8>, vm: VersionMap, app: u16, val: String, n: nat) -> bool {
        let k = spec_u64_from_le_bytes(bytes.take(8)) as nat;
        &&& bytes.len() >= 8
        &&& k <= usize::MAX
        &&& bytes.len() >= 8 + k
        &&& n == 8 + k
        &&& vstd::utf8::encode_utf8(val@) == bytes.subrange(8, 8 + k as int)
    }

    proof fn lemma_decode_bound(bytes: Seq<u8>, vm: VersionMap, app: u16, val: String, n: nat) {
    }

    proof fn lemma_decode_len(
        bytes: Seq<u8>,
        vm: VersionMap,
        app: u16,
        v1: String,
        n1: nat,
        v2: String,
        n2: nat,
    ) {
    }

    fn serialize(&self, out: &mut Vec<u8>, version_map: &VersionMap, target_app_version: u16) -> (r:
        Result<(), VersionizeError>) {
        let bytes: &[u8] = self.as_str().as_bytes();
        let mut pre = u64_to_le_bytes(bytes.len() as u64);
        out.append(&mut pre);
        let mut payload = vstd::slice::slice_to_vec(bytes);
        out.append(&mut payload);
        proof {
            assert(out@ =~= old(out)@ + self.spec_encode(*version_map, target_app_version));
        }
        Ok(())
    }

    fn deserialize(reader: &mut Reader, version_map: &VersionMap, src_app_version: u16) -> (r:
        Result<String, VersionizeError>) {
        let ghost rem0 = old(reader).remaining();
        match reader.take(8) {
            Ok(s) => {
                proof {
                    assert(s@ =~= rem0.take(8));
                }
                let k64: u64 = u64_from_le_bytes(s);
                if k64 > usize::MAX as u64 {
                    return Err(VersionizeError::LengthOverflow);
                }
                let k: usize = k64 as usize;
                match reader.take(k) {
                    Ok(payload) => {
                        proof {
                            assert(payload@ =~= rem0.subrange(8, 8 + k as int));
                        }
                        let pv = vstd::slice::slice_to_vec(payload);
                        match string_from_utf8(pv) {
                            Some(st) => {
                                proof {
                                    assert(vstd::utf8::encode_utf8(st@) == rem0.subrange(
                                        8,
                                        8 + k as int,
                                    ));
                                }
                                Ok(st)
                            },
                            None => {
                                proof {
                                    assert forall|val: String, n: nat|
                                        !String::spec_decodes(
                                            rem0,
                                            *version_map,
                                            src_app_version,
                                            val,
                                            n,
                                        ) by {
                                        if String::spec_decodes(
                                            rem0,
                                            *version_map,
                                            src_app_version,
                                            val,
                                            n,
                                        ) {
                                            vstd::utf8::encode_utf8_valid_utf8(val@);
                                        }
                                    }
                                }
                                Err(VersionizeError::InvalidEncoding)
                            },
                        }
                    },
                    Err(e) => Err(e),
                }
            },
            Err(e) => Err(e),
        }
    }

    fn name() -> (r: String) {
        String::new()
    }

    fn version() -> (r: u16) {
        1
    }
}

impl<T: Versionize> Versionize for Vec<T> {
    open spec fn spec_name() -> Seq<char> {
        Seq::empty()
    }

    open spec fn spec_version() -> u16 {
        1u16
    }

    open spec fn spec_encode_ok(self, vm: VersionMap, app: u16) -> bool {
        seq_encode_ok(self@, vm, app)
    }

    open spec fn spec_encode(self, vm: VersionMap, app: u16) -> Seq<u8> {
        spec_u64_to_le_bytes(self@.len() as u64) + seq_encode(self@, vm, app)
    }

    open spec fn spec_decodes(bytes: Seq<u8>, vm: VersionMap, app: u16, val: Vec<T>, n: nat) -> bool {
        let cnt = spec_u64_from_le_bytes(bytes.take(8)) as nat;
        &&& bytes.len() >= 8
        &&& cnt <= usize::MAX
        &&& val@.len() == cnt
        &&& exists|m: nat|
            {
                &&& #[trigger] seq_decodes(bytes.skip(8), vm, app, val@, m)
                &&& n == 8 + m
            }
    }

    proof fn lemma_decode_bound(bytes: Seq<u8>, vm: VersionMap, app: u16, val: Vec<T>, n: nat) {
        let m = choose|m: nat|
            {
                &&& #[trigger] seq_decodes(bytes.skip(8), vm, app, val@, m)
                &&& n == 8 + m
            };
        lemma_seq_decodes_bound(bytes.skip(8), vm, app, val@, m);
    }

    proof fn lemma_decode_len(
        bytes: Seq<u8>,
        vm: VersionMap,
        app: u16,
        v1: Vec<T>,
        n1: nat,
        v2: Vec<T>,
        n2: nat,
    ) {
        let m1 = choose|m: nat|
            {
                &&& #[trigger] seq_decodes(bytes.skip(8), vm, app, v1@, m)
                &&& n1 == 8 + m
            };
        let m2 = choose|m: nat|
            {
                &&& #[trigger] seq_decodes(bytes.skip(8), vm, app, v2@, m)
                &&& n2 == 8 + m
            };
        lemma_seq_decodes_len_det(bytes.skip(8), vm, app, v1@, m1, v2@, m2);
    }

    fn serialize(&self, out: &mut Vec<u8>, version_map: &VersionMap, target_app_version: u16) -> (r:
        Result<(), VersionizeError>) {
        let mut pre = u64_to_le_bytes(self.len() as u64);
        out.append(&mut pre);
        let ghost base = out@;
        let mut i: usize = 0;
        while i < self.len()
            invariant
                0 <= i <= self@.len(),
                version_map.wf(),
                out@ == base + seq_encode(self@.take(i as int), *version_map, target_app_version),
                seq_encode_ok(self@.take(i as int), *version_map, target_app_version),
            decreases self@.len() - i,
        {
            let ghost done = self@.take(i as int);
            match self[i].serialize(out, version_map, target_app_version) {
                Ok(()) => {},
                Err(e) => {
                    proof {
                        assert(!self@[i as int].spec_encode_ok(*version_map, target_app_version));
                    }
                    return Err(e);
                },
            }
            proof {
                lemma_seq_encode_push(done, *version_map, target_app_version, self@[i as int]);
                assert(self@.take(i + 1) =~= done.push(self@[i as int]));
                assert(seq_encode_ok(self@.take(i + 1), *version_map, target_app_version));
            }
            i = i + 1;
        }
        proof {
            assert(self@.take(self@.len() as int) =~= self@);
        }
        Ok(())
    }

    fn deserialize(reader: &mut Reader, version_map: &VersionMap, src_app_version: u16) -> (r:
        Result<Vec<T>, VersionizeError>) {
        let ghost rem0 = old(reader).remaining();
        let cnt64: u64 = match reader.take(8) {
            Ok(s) => {
                proof {
                    assert(s@ =~= rem0.take(8));
                }
                u64_from_le_bytes(s)
            },
            Err(e) => {
                return Err(e);
            },
        };
        if cnt64 > usize::MAX as u64 {
            return Err(VersionizeError::LengthOverflow);
        }
        let cnt: usize = cnt64 as usize;
        let ghost rem8 = rem0.skip(8);
        let ghost base_pos = reader.pos as int;
        proof {
            vstd::seq_lib::lemma_seq_skip_of_skip(reader.bytes@, old(reader).pos as int, 8);
            assert(rem8 =~= reader.bytes@.skip(base_pos));
        }
        let mut v: Vec<T> = Vec::new();
        let mut i: usize = 0;
        while i < cnt
            invariant
                0 <= i <= cnt,
                version_map.wf(),
                reader.wf(),
                reader.bytes == old(reader).bytes,
                base_pos == old(reader).pos + 8,
                base_pos <= reader.pos,
                rem0 == old(reader).remaining(),
                rem0.len() >= 8,
                cnt == spec_u64_from_le_bytes(rem0.take(8)),
                rem8 == rem0.skip(8),
                rem8 == reader.bytes@.skip(base_pos),
                v@.len() == i,
                seq_decodes(
                    rem8,
                    *version_map,
                    src_app_version,
                    v@,
                    (reader.pos - base_pos) as nat,
                ),
            decreases cnt - i,
        {
            let ghost before_pos = reader.pos as int;
            let ghost rem_here = reader.remaining();
            let ghost built = v@;
            match T::deserialize(reader, version_map, src_app_version) {
                Ok(x) => {
                    proof {
                        vstd::seq_lib::lemma_seq_skip_of_skip(
                            reader.bytes@,
                            base_pos,
                            before_pos - base_pos,
                        );
                        assert(reader.bytes@.skip(before_pos) =~= rem8.skip(
                            before_pos - base_pos,
                        ));
                        lemma_seq_decodes_push(
                            rem8,
                            *version_map,
                            src_app_version,
                            built,
                            (before_pos - base_pos) as nat,
                            x,
                            (reader.pos - before_pos) as nat,
                        );
                    }
                    v.push(x);
                },
                Err(e) => {
                    proof {
                        assert forall|val: Vec<T>, n: nat|
                            !Vec::<T>::spec_decodes(
                                rem0,
                                *version_map,
                                src_app_version,
                                val,
                                n,
                            ) by {
                            if Vec::<T>::spec_decodes(rem0, *version_map, src_app_version, val, n) {
                                let m = choose|m: nat|
                                    {
                                        &&& #[trigger] seq_decodes(
                                            rem0.skip(8),
                                            *version_map,
                                            src_app_version,
                                            val@,
                                            m,
                                        )
                                        &&& n == 8 + m
                                    };
                                vstd::seq_lib::lemma_seq_skip_of_skip(
                                    reader.bytes@,
                                    base_pos,
                                    before_pos - base_pos,
                                );
                                assert(reader.bytes@.skip(before_pos) =~= rem8.skip(
                                    before_pos - base_pos,
                                ));
                                assert(rem8.skip((before_pos - base_pos) as nat as int) =~= rem8
                                    .skip(before_pos - base_pos));
                                assert forall|v2: T, m2: nat|
                                    !#[trigger] T::spec_decodes(
                                        rem8.skip(((before_pos - base_pos) as nat) as int),
                                        *version_map,
                                        src_app_version,
                                        v2,
                                        m2,
                                    ) by {
                                    assert(!T::spec_decodes(
                                        rem_here,
                                        *version_map,
                                        src_app_version,
                                        v2,
                                        m2,
                                    ));
                                    assert(rem_here =~= rem8.skip(before_pos - base_pos));
                                }
                                lemma_seq_decodes_no_extension(
                                    rem8,
                                    *version_map,
                                    src_app_version,
                                    built,
                                    (before_pos - base_pos) as nat,
                                    val@,
                                    m,
                                );
                            }
                        }
                    }
                    return Err(e);
                },
            }
            i = i + 1;
        }
        proof {
            assert(Vec::<T>::spec_decodes(
                rem0,
                *version_map,
                src_app_version,
                v,
                (reader.pos - old(reader).pos) as nat,
            ));
        }
        Ok(v)
    }

    fn name() -> (r: String) {
        String::new()
    }

    fn version() -> (r: u16) {
        1
    }
}

} // verus!
