//! Wire format core: a byte reader, the error taxonomy, and the
//! `Versionize` trait that every snapshot-serializable type implements.
//!
//! All integers are encoded fixed-width little-endian; variable-length
//! data carries a `u64` little-endian length prefix.  Encoding is stated
//! as a function from values to byte sequences; decoding is stated as a
//! relation between bytes, the decoded value and the count of consumed
//! bytes, so that every implementation's success and failure cases are
//! pinned down exactly.

use crate::version_map::VersionMap;
use vstd::prelude::*;

verus! {

/// Failures of encoding or decoding.
#[derive(Clone, Copy, Debug, PartialEq, Eq, Structural)]
pub enum VersionizeError {
    /// The reader ran out of bytes.
    EndOfData,
    /// A byte pattern that no value encodes to: a bad boolean byte, an
    /// unknown enum discriminant, or text that is not UTF-8.
    InvalidEncoding,
    /// A decoded length or value too large for this platform.
    LengthOverflow,
    /// A fixed-size slot was decoded from a sequence of another length.
    ArrayLength,
    /// The version map demands a struct version this type does not know.
    UnknownVersion,
}

/// A cursor over a byte slice from which values are decoded.
pub struct Reader<'a> {
    pub bytes: &'a [u8],
    pub pos: usize,
}

impl<'a> Reader<'a> {
    /// The whole underlying byte sequence.
    pub open spec fn data(self) -> Seq<u8> {
        self.bytes@
    }

    /// The bytes not yet consumed.
    pub open spec fn remaining(self) -> Seq<u8> {
        self.bytes@.skip(self.pos as int)
    }

    /// The cursor never passes the end of the data.
    pub open spec fn wf(self) -> bool {
        self.pos <= self.bytes@.len()
    }

    /// A reader positioned at the start of `bytes`.
    pub fn new(bytes: &'a [u8]) -> (r: Reader<'a>)
        ensures
            r.wf(),
            r.data() == bytes@,
            r.remaining() == bytes@,
            r.pos == 0,
    {
        let r = Reader { bytes, pos: 0 };
        proof {
            assert(r.remaining() =~= bytes@);
        }
        r
    }

    /// Takes the next `n` bytes, or fails without moving when fewer are
    /// left.
    pub fn take(&mut self, n: usize) -> (r: Result<&'a [u8], VersionizeError>)
        requires
            old(self).wf(),
        ensures
            final(self).wf(),
            final(self).bytes == old(self).bytes,
            match r {
                Ok(s) => {
                    &&& old(self).remaining().len() >= n
                    &&& s@ == old(self).remaining().take(n as int)
                    &&& final(self).pos == old(self).pos + n
                },
                Err(e) => {
                    &&& e == VersionizeError::EndOfData
                    &&& old(self).remaining().len() < n
                    &&& *final(self) == *old(self)
                },
            },
    {
        if n <= self.bytes.len() - self.pos {
            let whole: &'a [u8] = self.bytes;
            let s: &'a [u8] = &whole[self.pos..self.pos + n];
            proof {
                assert(s@ =~= self.bytes@.skip(self.pos as int).take(n as int));
            }
            self.pos = self.pos + n;
            Ok(s)
        } else {
            Err(VersionizeError::EndOfData)
        }
    }
}

/// A type the snapshot engine can carry: encoding is a function of the
/// value and the version in force; decoding is the inverse relation.
pub trait Versionize: Sized {
    /// The stable identifier under which the version map keys this type.
    spec fn spec_name() -> Seq<char>;

    /// The newest struct version this type defines.
    spec fn spec_version() -> u16;

    /// Whether the value can be encoded under `vm` at app version `app`.
    spec fn spec_encode_ok(self, vm: VersionMap, app: u16) -> bool;

    /// The bytes the value encodes to under `vm` at app version `app`.
    spec fn spec_encode(self, vm: VersionMap, app: u16) -> Seq<u8>;

    /// Whether decoding the front of `bytes` yields `val`, consuming
    /// exactly `n` bytes.
    spec fn spec_decodes(bytes: Seq<u8>, vm: VersionMap, app: u16, val: Self, n: nat) -> bool;

    /// A decoding never consumes more bytes than there are.
    proof fn lemma_decode_bound(bytes: Seq<u8>, vm: VersionMap, app: u16, val: Self, n: nat)
        requires
            Self::spec_decodes(bytes, vm, app, val, n),
        ensures
            n <= bytes.len(),
    ;

    /// Any two decodings of the same bytes consume the same count.
    proof fn lemma_decode_len(
        bytes: Seq<u8>,
        vm: VersionMap,
        app: u16,
        v1: Self,
        n1: nat,
        v2: Self,
        n2: nat,
    )
        requires
            Self::spec_decodes(bytes, vm, app, v1, n1),
            Self::spec_decodes(bytes, vm, app, v2, n2),
        ensures
            n1 == n2,
    ;

    /// Appends the encoding of `self` at `target_app_version` to `out`.
    fn serialize(&self, out: &mut Vec<u8>, version_map: &VersionMap, target_app_version: u16) -> (r:
        Result<(), VersionizeError>)
        requires
            version_map.wf(),
        ensures
            r is Ok <==> self.spec_encode_ok(*version_map, target_app_version),
            r is Ok ==> final(out)@ == old(out)@ + self.spec_encode(
                *version_map,
                target_app_version,
            ),
    ;

    /// Decodes one value of `Self` from the front of the reader.
    fn deserialize(reader: &mut Reader, version_map: &VersionMap, src_app_version: u16) -> (r:
        Result<Self, VersionizeError>)
        requires
            version_map.wf(),
            old(reader).wf(),
        ensures
            final(reader).wf(),
            final(reader).bytes == old(reader).bytes,
            old(reader).pos <= final(reader).pos,
            match r {
                Ok(val) => Self::spec_decodes(
                    old(reader).remaining(),
                    *version_map,
                    src_app_version,
                    val,
                    (final(reader).pos - old(reader).pos) as nat,
                ),
                Err(_) => forall|val: Self, n: nat|
                    !Self::spec_decodes(
                        old(reader).remaining(),
                        *version_map,
                        src_app_version,
                        val,
                        n,
                    ),
            },
    ;

    /// The stable identifier as a runtime string.
    fn name() -> (r: String)
        ensures
            r@ == Self::spec_name(),
    ;

    /// The newest struct version as a runtime value.
    fn version() -> (r: u16)
        ensures
            r == Self::spec_version(),
    ;
}

} // verus!
