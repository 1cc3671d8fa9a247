//! Section-oriented snapshot container.
//!
//! A saved snapshot is a 64-bit magic id carrying an architecture tag and
//! a format version, followed by a header (data version and section
//! count) and the sections, each a named blob.  Sections are keyed by
//! name; an unknown architecture tag is fatal on load.

use crate::codec::{Reader, Versionize, VersionizeError};
use crate::primitives::{lemma_seq_decodes_push, lemma_seq_encode_push, seq_decodes, seq_encode};
use crate::version_map::VersionMap;
use vstd::bytes::*;
use vstd::prelude::*;
use vstd::string::StringSliceAdditionalSpecFns;

verus! {

/// Ceiling on the encoded size of one section's payload.
pub const SNAPSHOT_MAX_SECTION_SIZE: usize = 0x40000;

/// The format version this library writes.
pub const SNAPSHOT_FORMAT_VERSION: u16 = 1;

/// Magic id bits that carry the architecture tag.
pub const BASE_MAGIC_ID_MASK: u64 = 0xFFFF_FFFF_FFFF_0000;

/// Architecture-tagged base of the magic id (x86-64 tag).
pub const BASE_MAGIC_ID: u64 = 0x0710_1984_8664_0000;

/// The format version a magic id selects, or nothing when its
/// architecture tag is foreign.
pub open spec fn spec_validate_magic_id(magic_id: u64) -> Option<u16> {
    if magic_id & BASE_MAGIC_ID_MASK == BASE_MAGIC_ID {
        Some((magic_id & 0xFFFF) as u16)
    } else {
        None
    }
}

/// Returns the format version encoded in `magic_id`, or `None` when the
/// architecture tag does not match this library's.
pub fn validate_magic_id(magic_id: u64) -> (r: Option<u16>)
    ensures
        r == spec_validate_magic_id(magic_id),
{
    let magic_arch: u64 = magic_id & BASE_MAGIC_ID_MASK;
    if magic_arch == BASE_MAGIC_ID {
        Some((magic_id & 0xFFFF) as u16)
    } else {
        None
    }
}

/// The magic id that tags `format_version` with this architecture.
pub fn build_magic_id(format_version: u16) -> (r: u64)
    ensures
        r == BASE_MAGIC_ID | format_version as u64,
{
    BASE_MAGIC_ID | format_version as u64
}

/// A magic id built from any format version validates back to it.
pub proof fn lemma_magic_id_round_trip(v: u16)
    ensures
        spec_validate_magic_id(BASE_MAGIC_ID | v as u64) == Some(v),
{
    let m = BASE_MAGIC_ID | v as u64;
    assert((0x0710_1984_8664_0000u64 | v as u64) & 0xFFFF_FFFF_FFFF_0000u64
        == 0x0710_1984_8664_0000u64) by (bit_vector);
    assert(((0x0710_1984_8664_0000u64 | v as u64) & 0xFFFFu64) == v as u64) by (bit_vector);
    assert(m & 0xFFFF == v as u64);
}

/// Any change to the architecture-tag bits of a valid magic id makes it
/// validate to nothing.
pub proof fn lemma_magic_id_tag_change(m1: u64, m2: u64)
    requires
        spec_validate_magic_id(m1) is Some,
        m1 & BASE_MAGIC_ID_MASK != m2 & BASE_MAGIC_ID_MASK,
    ensures
        spec_validate_magic_id(m2) is None,
{
}

/// Leading header of a saved snapshot.
pub struct SnapshotHdr {
    /// The application version the snapshot's sections were encoded at.
    pub data_version: u16,
    /// How many sections follow the header.
    pub section_count: u16,
}

impl Versionize for SnapshotHdr {
    open spec fn spec_name() -> Seq<char> {
        "SnapshotHdr"@
    }

    open spec fn spec_version() -> u16 {
        1u16
    }

    open spec fn spec_encode_ok(self, vm: VersionMap, app: u16) -> bool {
        true
    }

    open spec fn spec_encode(self, vm: VersionMap, app: u16) -> Seq<u8> {
        spec_u16_to_le_bytes(self.data_version) + spec_u16_to_le_bytes(self.section_count)
    }

    open spec fn spec_decodes(
        bytes: Seq<u8>,
        vm: VersionMap,
        app: u16,
        val: SnapshotHdr,
        n: nat,
    ) -> bool {
        &&& n == 4
        &&& <u16 as Versionize>::spec_decodes(bytes, vm, app, val.data_version, 2)
        &&& <u16 as Versionize>::spec_decodes(bytes.skip(2), vm, app, val.section_count, 2)
    }

    proof fn lemma_decode_bound(
        bytes: Seq<u8>,
        vm: VersionMap,
        app: u16,
        val: SnapshotHdr,
        n: nat,
    ) {
    }

    proof fn lemma_decode_len(
        bytes: Seq<u8>,
        vm: VersionMap,
        app: u16,
        v1: SnapshotHdr,
        n1: nat,
        v2: SnapshotHdr,
        n2: nat,
    ) {
    }

    fn serialize(&self, out: &mut Vec<u8>, version_map: &VersionMap, target_app_version: u16) -> (r:
        Result<(), VersionizeError>) {
        let res1 = self.data_version.serialize(out, version_map, target_app_version);
        if res1.is_err() {
            return res1;
        }
        let res2 = self.section_count.serialize(out, version_map, target_app_version);
        if res2.is_err() {
            return res2;
        }
        proof {
            assert(out@ =~= old(out)@ + self.spec_encode(*version_map, target_app_version));
        }
        Ok(())
    }

    fn deserialize(reader: &mut Reader, version_map: &VersionMap, src_app_version: u16) -> (r:
        Result<SnapshotHdr, VersionizeError>) {
        let ghost rem0 = old(reader).remaining();
        let data_version = match u16::deserialize(reader, version_map, src_app_version) {
            Ok(v) => v,
            Err(e) => {
                return Err(e);
            },
        };
        let ghost rem_mid = reader.remaining();
        let section_count = match u16::deserialize(reader, version_map, src_app_version) {
            Ok(v) => v,
            Err(e) => {
                proof {
                    assert forall|val: SnapshotHdr, n: nat|
                        !SnapshotHdr::spec_decodes(rem0, *version_map, src_app_version, val, n) by {
                        assert(rem_mid =~= rem0.skip(2));
                        assert(!<u16 as Versionize>::spec_decodes(
                            rem_mid,
                            *version_map,
                            src_app_version,
                            val.section_count,
                            2,
                        ));
                    }
                }
                return Err(e);
            },
        };
        let hdr = SnapshotHdr { data_version, section_count };
        proof {
            assert(rem_mid =~= rem0.skip(2));
        }
        Ok(hdr)
    }

    fn name() -> (r: String) {
        "SnapshotHdr".to_owned()
    }

    fn version() -> (r: u16) {
        1
    }
}

/// A named blob inside a snapshot.
pub struct Section {
    /// The key under which readers find the section.
    pub name: String,
    /// The section's encoded payload.
    pub data: Vec<u8>,
}

impl Versionize for Section {
    open spec fn spec_name() -> Seq<char> {
        "Section"@
    }

    open spec fn spec_version() -> u16 {
        1u16
    }

    open spec fn spec_encode_ok(self, vm: VersionMap, app: u16) -> bool {
        true
    }

    open spec fn spec_encode(self, vm: VersionMap, app: u16) -> Seq<u8> {
        self.name.spec_encode(vm, app) + self.data.spec_encode(vm, app)
    }

    open spec fn spec_decodes(bytes: Seq<u8>, vm: VersionMap, app: u16, val: Section, n: nat) -> bool {
        exists|k: nat, j: nat|
            {
                &&& #[trigger] <String as Versionize>::spec_decodes(bytes, vm, app, val.name, k)
                &&& #[trigger] <Vec<u8> as Versionize>::spec_decodes(
                    bytes.skip(k as int),
                    vm,
                    app,
                    val.data,
                    j,
                )
                &&& n == k + j
            }
    }

    proof fn lemma_decode_bound(bytes: Seq<u8>, vm: VersionMap, app: u16, val: Section, n: nat) {
        let (k, j): (nat, nat) = choose|k: nat, j: nat|
            {
                &&& #[trigger] <String as Versionize>::spec_decodes(bytes, vm, app, val.name, k)
                &&& #[trigger] <Vec<u8> as Versionize>::spec_decodes(
                    bytes.skip(k as int),
                    vm,
                    app,
                    val.data,
                    j,
                )
                &&& n == k + j
            };
        <String as Versionize>::lemma_decode_bound(bytes, vm, app, val.name, k);
        <Vec<u8> as Versionize>::lemma_decode_bound(bytes.skip(k as int), vm, app, val.data, j);
    }

    proof fn lemma_decode_len(
        bytes: Seq<u8>,
        vm: VersionMap,
        app: u16,
        v1: Section,
        n1: nat,
        v2: Section,
        n2: nat,
    ) {
        let (k1, j1): (nat, nat) = choose|k: nat, j: nat|
            {
                &&& #[trigger] <String as Versionize>::spec_decodes(bytes, vm, app, v1.name, k)
                &&& #[trigger] <Vec<u8> as Versionize>::spec_decodes(
                    bytes.skip(k as int),
                    vm,
                    app,
                    v1.data,
                    j,
                )
                &&& n1 == k + j
            };
        let (k2, j2): (nat, nat) = choose|k: nat, j: nat|
            {
                &&& #[trigger] <String as Versionize>::spec_decodes(bytes, vm, app, v2.name, k)
                &&& #[trigger] <Vec<u8> as Versionize>::spec_decodes(
                    bytes.skip(k as int),
                    vm,
                    app,
                    v2.data,
                    j,
                )
                &&& n2 == k + j
            };
        <String as Versionize>::lemma_decode_len(bytes, vm, app, v1.name, k1, v2.name, k2);
        <Vec<u8> as Versionize>::lemma_decode_len(
            bytes.skip(k1 as int),
            vm,
            app,
            v1.data,
            j1,
            v2.data,
            j2,
        );
    }

    fn serialize(&self, out: &mut Vec<u8>, version_map: &VersionMap, target_app_version: u16) -> (r:
        Result<(), VersionizeError>) {
        let res1 = self.name.serialize(out, version_map, target_app_version);
        if res1.is_err() {
            return res1;
        }
        let res2 = self.data.serialize(out, version_map, target_app_version);
        if res2.is_err() {
            return res2;
        }
        proof {
            assert(out@ =~= old(out)@ + self.spec_encode(*version_map, target_app_version));
        }
        Ok(())
    }

    fn deserialize(reader: &mut Reader, version_map: &VersionMap, src_app_version: u16) -> (r:
        Result<Section, VersionizeError>) {
        let ghost rem0 = old(reader).remaining();
        let ghost pos0 = old(reader).pos as int;
        let name = match String::deserialize(reader, version_map, src_app_version) {
            Ok(v) => v,
            Err(e) => {
                return Err(e);
            },
        };
        let ghost k = (reader.pos - pos0) as nat;
        let ghost rem_mid = reader.remaining();
        let data = match <Vec<u8> as Versionize>::deserialize(reader, version_map, src_app_version) {
            Ok(v) => v,
            Err(e) => {
                proof {
                    vstd::seq_lib::lemma_seq_skip_of_skip(reader.bytes@, pos0, k as int);
                    assert(rem_mid =~= rem0.skip(k as int));
                    assert forall|val: Section, n: nat|
                        !Section::spec_decodes(rem0, *version_map, src_app_version, val, n) by {
                        if Section::spec_decodes(rem0, *version_map, src_app_version, val, n) {
                            let (k2, j2): (nat, nat) = choose|k2: nat, j2: nat|
                                {
                                    &&& #[trigger] <String as Versionize>::spec_decodes(
                                        rem0,
                                        *version_map,
                                        src_app_version,
                                        val.name,
                                        k2,
                                    )
                                    &&& #[trigger] <Vec<u8> as Versionize>::spec_decodes(
                                        rem0.skip(k2 as int),
                                        *version_map,
                                        src_app_version,
                                        val.data,
                                        j2,
                                    )
                                    &&& n == k2 + j2
                                };
                            <String as Versionize>::lemma_decode_len(
                                rem0,
                                *version_map,
                                src_app_version,
                                val.name,
                                k2,
                                name,
                                k,
                            );
                            assert(!<Vec<u8> as Versionize>::spec_decodes(
                                rem_mid,
                                *version_map,
                                src_app_version,
                                val.data,
                                j2,
                            ));
                        }
                    }
                }
                return Err(e);
            },
        };
        let sec = Section { name, data };
        proof {
            vstd::seq_lib::lemma_seq_skip_of_skip(reader.bytes@, pos0, k as int);
            assert(rem_mid =~= rem0.skip(k as int));
            let j = (reader.pos - pos0 - k) as nat;
            assert(<String as Versionize>::spec_decodes(
                rem0,
                *version_map,
                src_app_version,
                sec.name,
                k,
            ));
            assert(<Vec<u8> as Versionize>::spec_decodes(
                rem0.skip(k as int),
                *version_map,
                src_app_version,
                sec.data,
                j,
            ));
            assert(Section::spec_decodes(
                rem0,
                *version_map,
                src_app_version,
                sec,
                (reader.pos - pos0) as nat,
            ));
        }
        Ok(sec)
    }

    fn name() -> (r: String) {
        "Section".to_owned()
    }

    fn version() -> (r: u16) {
        1
    }
}

/// The names and payloads of a run of sections, as mathematical values.
pub open spec fn sections_view(secs: Seq<Section>) -> Seq<(Seq<char>, Seq<u8>)> {
    secs.map_values(|s: Section| (s.name@, s.data@))
}

/// The payload of the first pair carrying `name`, or nothing.
pub open spec fn first_lookup(pairs: Seq<(Seq<char>, Seq<u8>)>, name: Seq<char>) -> Option<Seq<u8>>
    decreases pairs.len(),
{
    if pairs.len() == 0 {
        None
    } else if pairs[0].0 == name {
        Some(pairs[0].1)
    } else {
        first_lookup(pairs.skip(1), name)
    }
}

/// The payload of the last pair carrying `name`, or nothing.
pub open spec fn last_lookup(pairs: Seq<(Seq<char>, Seq<u8>)>, name: Seq<char>) -> Option<Seq<u8>>
    decreases pairs.len(),
{
    if pairs.len() == 0 {
        None
    } else if pairs.last().0 == name {
        Some(pairs.last().1)
    } else {
        last_lookup(pairs.drop_last(), name)
    }
}

/// Whether no two pairs share a name.
pub open spec fn unique_pair_names(pairs: Seq<(Seq<char>, Seq<u8>)>) -> bool {
    forall|i: int, j: int| 0 <= i < j < pairs.len() ==> pairs[i].0 != pairs[j].0
}


/// Whether some pair carries `name`.
pub open spec fn pair_has(pairs: Seq<(Seq<char>, Seq<u8>)>, name: Seq<char>) -> bool {
    exists|i: int| 0 <= i < pairs.len() && pairs[i].0 == name
}

/// Bounds that every section of a well-formed snapshot obeys.
pub open spec fn section_bounded(sec: Section) -> bool {
    &&& vstd::utf8::encode_utf8(sec.name@).len() <= usize::MAX
    &&& sec.data@.len() <= usize::MAX
}

proof fn lemma_first_lookup_of_match(pairs: Seq<(Seq<char>, Seq<u8>)>, name: Seq<char>, i: int)
    requires
        0 <= i < pairs.len(),
        pairs[i].0 == name,
        forall|j: int| 0 <= j < i ==> pairs[j].0 != name,
    ensures
        first_lookup(pairs, name) == Some(pairs[i].1),
    decreases pairs.len(),
{
    if i > 0 {
        assert(forall|j: int| 0 <= j < pairs.skip(1).len() ==> pairs.skip(1)[j] == pairs[j + 1]);
        lemma_first_lookup_of_match(pairs.skip(1), name, i - 1);
    }
}

proof fn lemma_first_lookup_of_miss(pairs: Seq<(Seq<char>, Seq<u8>)>, name: Seq<char>)
    requires
        !pair_has(pairs, name),
    ensures
        first_lookup(pairs, name) is None,
    decreases pairs.len(),
{
    if pairs.len() > 0 {
        assert(pairs[0].0 != name);
        assert(forall|j: int| 0 <= j < pairs.skip(1).len() ==> pairs.skip(1)[j] == pairs[j + 1]);
        lemma_first_lookup_of_miss(pairs.skip(1), name);
    }
}

proof fn lemma_first_lookup_update(pairs: Seq<(Seq<char>, Seq<u8>)>, i: int, p: (Seq<char>, Seq<u8>))
    requires
        0 <= i < pairs.len(),
        pairs[i].0 == p.0,
        unique_pair_names(pairs),
    ensures
        first_lookup(pairs.update(i, p), p.0) == Some(p.1),
        forall|other: Seq<char>|
            other != p.0 ==> first_lookup(pairs.update(i, p), other) == first_lookup(pairs, other),
        unique_pair_names(pairs.update(i, p)),
    decreases pairs.len(),
{
    let upd = pairs.update(i, p);
    assert(forall|j: int| 0 <= j < pairs.len() && j != i ==> upd[j] == pairs[j]);
    assert(upd[i] == p);
    assert(forall|a: int, b: int| 0 <= a < b < upd.len() ==> upd[a].0 != upd[b].0);
    if i == 0 {
        assert forall|other: Seq<char>| other != p.0 implies first_lookup(upd, other)
            == first_lookup(pairs, other) by {
            assert(upd.skip(1) =~= pairs.skip(1));
        }
    } else {
        assert(pairs[0].0 != p.0);
        assert(forall|j: int| 0 <= j < pairs.skip(1).len() ==> pairs.skip(1)[j] == pairs[j + 1]);
        lemma_first_lookup_update(pairs.skip(1), i - 1, p);
        assert(upd.skip(1) =~= pairs.skip(1).update(i - 1, p));
        assert(upd[0] == pairs[0]);
        assert(first_lookup(upd, p.0) == first_lookup(upd.skip(1), p.0));
        assert forall|other: Seq<char>| other != p.0 implies first_lookup(upd, other)
            == first_lookup(pairs, other) by {
            if pairs[0].0 == other {
            } else {
                assert(first_lookup(upd, other) == first_lookup(upd.skip(1), other));
                assert(first_lookup(pairs, other) == first_lookup(pairs.skip(1), other));
            }
        }
    }
}

proof fn lemma_first_lookup_push(pairs: Seq<(Seq<char>, Seq<u8>)>, p: (Seq<char>, Seq<u8>))
    requires
        !pair_has(pairs, p.0),
    ensures
        first_lookup(pairs.push(p), p.0) == Some(p.1),
        forall|other: Seq<char>|
            other != p.0 ==> first_lookup(pairs.push(p), other) == first_lookup(pairs, other),
        unique_pair_names(pairs) ==> unique_pair_names(pairs.push(p)),
    decreases pairs.len(),
{
    let pu = pairs.push(p);
    if pairs.len() == 0 {
        assert(pu[0] == p);
        assert forall|other: Seq<char>| other != p.0 implies first_lookup(pu, other)
            == first_lookup(pairs, other) by {
            assert(first_lookup(pu, other) == first_lookup(pu.skip(1), other));
            assert(pu.skip(1).len() == 0);
        }
    } else {
        assert(pairs[0].0 != p.0);
        assert(pu[0] == pairs[0]);
        assert(pu.skip(1) =~= pairs.skip(1).push(p));
        assert(forall|j: int| 0 <= j < pairs.skip(1).len() ==> pairs.skip(1)[j] == pairs[j + 1]);
        lemma_first_lookup_push(pairs.skip(1), p);
        assert(first_lookup(pu, p.0) == first_lookup(pu.skip(1), p.0));
        assert forall|other: Seq<char>| other != p.0 implies first_lookup(pu, other)
            == first_lookup(pairs, other) by {
            if pairs[0].0 == other {
            } else {
                assert(first_lookup(pu, other) == first_lookup(pu.skip(1), other));
                assert(first_lookup(pairs, other) == first_lookup(pairs.skip(1), other));
            }
        }
        if unique_pair_names(pairs) {
            assert(forall|a: int, b: int| 0 <= a < b < pu.len() ==> pu[a].0 != pu[b].0);
        }
    }
}

proof fn lemma_first_lookup_append_last(
    pairs: Seq<(Seq<char>, Seq<u8>)>,
    p: (Seq<char>, Seq<u8>),
    name: Seq<char>,
)
    ensures
        first_lookup(pairs.push(p), name) == match first_lookup(pairs, name) {
            Some(d) => Some(d),
            None => if p.0 == name {
                Some(p.1)
            } else {
                None
            },
        },
    decreases pairs.len(),
{
    let pu = pairs.push(p);
    if pairs.len() == 0 {
        assert(pu[0] == p);
        if p.0 != name {
            assert(first_lookup(pu, name) == first_lookup(pu.skip(1), name));
            assert(pu.skip(1).len() == 0);
        }
    } else {
        assert(pu[0] == pairs[0]);
        assert(pu.skip(1) =~= pairs.skip(1).push(p));
        lemma_first_lookup_append_last(pairs.skip(1), p, name);
        if pairs[0].0 != name {
            assert(first_lookup(pu, name) == first_lookup(pu.skip(1), name));
            assert(first_lookup(pairs, name) == first_lookup(pairs.skip(1), name));
        }
    }
}

/// The push rule for last-match lookup: the pushed pair wins its name.
proof fn lemma_last_lookup_push(
    pairs: Seq<(Seq<char>, Seq<u8>)>,
    p: (Seq<char>, Seq<u8>),
    name: Seq<char>,
)
    ensures
        last_lookup(pairs.push(p), name) == if p.0 == name {
            Some(p.1)
        } else {
            last_lookup(pairs, name)
        },
{
    let pu = pairs.push(p);
    assert(pu.last() == p);
    assert(pu.drop_last() =~= pairs);
}

/// With unique names the first and the last match agree.
proof fn lemma_lookup_unique(pairs: Seq<(Seq<char>, Seq<u8>)>, name: Seq<char>)
    requires
        unique_pair_names(pairs),
    ensures
        first_lookup(pairs, name) == last_lookup(pairs, name),
    decreases pairs.len(),
{
    if pairs.len() > 0 {
        let dl = pairs.drop_last();
        let p = pairs.last();
        assert(pairs =~= dl.push(p));
        assert(unique_pair_names(dl));
        lemma_lookup_unique(dl, name);
        lemma_first_lookup_append_last(dl, p, name);
        lemma_last_lookup_push(dl, p, name);
        if p.0 == name {
            assert(!pair_has(dl, name));
            lemma_first_lookup_of_miss(dl, name);
        }
    }
}

/// Replaces the section of the same name, or appends the new section.
fn insert_section(sections: &mut Vec<Section>, sec: Section)
    requires
        unique_pair_names(sections_view(old(sections)@)),
        old(sections)@.len() < usize::MAX,
    ensures
        unique_pair_names(sections_view(final(sections)@)),
        old(sections)@.len() <= final(sections)@.len() <= old(sections)@.len() + 1,
        pair_has(sections_view(old(sections)@), sec.name@) <==> final(sections)@.len() == old(
            sections,
        )@.len(),
        first_lookup(sections_view(final(sections)@), sec.name@) == Some(sec.data@),
        forall|other: Seq<char>|
            other != sec.name@ ==> first_lookup(sections_view(final(sections)@), other)
                == first_lookup(sections_view(old(sections)@), other),
        forall|i: int|
            0 <= i < final(sections)@.len() ==> (#[trigger] final(sections)@[i]) == sec || exists|
                j: int,
            | 0 <= j < old(sections)@.len() && final(sections)@[i] == old(sections)@[j],
{
    let ghost vw = sections_view(old(sections)@);
    let n: usize = sections.len();
    let mut i: usize = 0;
    let mut found: bool = false;
    let mut found_at: usize = 0;
    while i < n
        invariant
            0 <= i <= n,
            *sections == *old(sections),
            n == sections@.len(),
            vw == sections_view(sections@),
            found ==> found_at < i <= vw.len() && vw[found_at as int].0 == sec.name@,
            !found ==> forall|j: int| 0 <= j < i ==> vw[j].0 != sec.name@,
        decreases n - i,
    {
        if !found && sections[i].name == sec.name {
            proof {
                assert(vw[i as int].0 == sec.name@);
            }
            found = true;
            found_at = i;
        }
        i = i + 1;
    }
    let ghost pair = (sec.name@, sec.data@);
    if found {
        sections.set(found_at, sec);
        proof {
            lemma_first_lookup_update(vw, found_at as int, pair);
            assert(sections_view(sections@) =~= vw.update(found_at as int, pair));
        }
    } else {
        sections.push(sec);
        proof {
            assert(!pair_has(vw, sec.name@));
            lemma_first_lookup_push(vw, pair);
            assert(sections_view(sections@) =~= vw.push(pair));
        }
    }
}

/// In-memory snapshot: a header, the version map that drives encoding
/// and decoding, and the sections keyed by name.
pub struct Snapshot {
    hdr: SnapshotHdr,
    format_version: u16,
    version_map: VersionMap,
    sections: Vec<Section>,
    target_version: u16,
}

/// Whether reading `name` out of `snap` can yield `val`: the stored
/// payload decodes to it at the snapshot's data version.
pub open spec fn section_decodes_to<T: Versionize>(snap: Snapshot, name: Seq<char>, val: T) -> bool {
    exists|n: nat, d: Seq<u8>|
        #![auto]
        snap.spec_section(name) == Some(d) && T::spec_decodes(
            d,
            snap.spec_vm(),
            snap.spec_data_version(),
            val,
            n,
        )
}

/// Whether `name` is stored in `snap` but its payload decodes to no
/// value of `T` at the snapshot's data version.
pub open spec fn section_undecodable<T: Versionize>(snap: Snapshot, name: Seq<char>) -> bool {
    &&& snap.spec_section(name) is Some
    &&& forall|val: T, n: nat|
        !T::spec_decodes(
            snap.spec_section(name).unwrap(),
            snap.spec_vm(),
            snap.spec_data_version(),
            val,
            n,
        )
}

impl Snapshot {
    /// Well-formedness: a sound version map, at most `u16::MAX` sections,
    /// no name used twice, every section within platform bounds.
    pub closed spec fn wf(self) -> bool {
        &&& self.version_map.wf()
        &&& self.sections@.len() <= u16::MAX
        &&& unique_pair_names(sections_view(self.sections@))
        &&& forall|i: int|
            0 <= i < self.sections@.len() ==> section_bounded(#[trigger] self.sections@[i])
    }

    /// The application version sections are encoded at on save.
    pub closed spec fn spec_target(self) -> u16 {
        self.target_version
    }

    /// The application version sections decode at on read.
    pub closed spec fn spec_data_version(self) -> u16 {
        self.hdr.data_version
    }

    /// The format version the snapshot was loaded with.
    pub closed spec fn spec_format_version(self) -> u16 {
        self.format_version
    }

    /// The version map driving encoding and decoding.
    pub closed spec fn spec_vm(self) -> VersionMap {
        self.version_map
    }

    /// The payload stored under `name`, or nothing.
    pub closed spec fn spec_section(self, name: Seq<char>) -> Option<Seq<u8>> {
        first_lookup(sections_view(self.sections@), name)
    }

    /// How many sections the snapshot holds.
    pub closed spec fn spec_section_count(self) -> nat {
        self.sections@.len()
    }

    /// The exact bytes `save` emits: the magic id, the header, then every
    /// section in storage order.
    pub closed spec fn spec_save_bytes(self) -> Seq<u8> {
        spec_u64_to_le_bytes(BASE_MAGIC_ID | SNAPSHOT_FORMAT_VERSION as u64) + SnapshotHdr {
            data_version: self.target_version,
            section_count: self.sections@.len() as u16,
        }.spec_encode(self.version_map, SNAPSHOT_FORMAT_VERSION) + seq_encode(
            self.sections@,
            self.version_map,
            SNAPSHOT_FORMAT_VERSION,
        )
    }

    /// An empty snapshot that will encode sections at `target_version`.
    pub fn new(version_map: VersionMap, target_version: u16) -> (r: Snapshot)
        requires
            version_map.wf(),
        ensures
            r.wf(),
            r.spec_target() == target_version,
            r.spec_vm() == version_map,
            r.spec_data_version() == 0,
            r.spec_format_version() == SNAPSHOT_FORMAT_VERSION,
            forall|name: Seq<char>| r.spec_section(name) is None,
    {
        let r = Snapshot {
            hdr: SnapshotHdr { data_version: 0, section_count: 0 },
            format_version: SNAPSHOT_FORMAT_VERSION,
            version_map,
            sections: Vec::new(),
            target_version,
        };
        proof {
            assert(sections_view(r.sections@).len() == 0);
            assert forall|name: Seq<char>| r.spec_section(name) is None by {
                assert(first_lookup(sections_view(r.sections@), name) is None);
            }
        }
        r
    }

    /// The version map that governs the container format itself.
    pub fn format_version_map() -> (r: VersionMap)
        ensures
            r.wf(),
            r.spec_latest() == 1,
    {
        VersionMap::new()
    }

    /// Encodes `object` at the snapshot's target version and stores it
    /// under `name`, replacing any section of the same name.  Fails
    /// exactly when the object cannot be encoded, when its encoding
    /// exceeds the section ceiling, or when a new name would not fit in
    /// the section count.
    pub fn write_section<T: Versionize>(&mut self, name: &String, object: &T) -> (r: Result<
        (),
        VersionizeError,
    >)
        requires
            old(self).wf(),
        ensures
            final(self).wf(),
            final(self).spec_target() == old(self).spec_target(),
            final(self).spec_vm() == old(self).spec_vm(),
            final(self).spec_data_version() == old(self).spec_data_version(),
            match r {
                Ok(()) => {
                    &&& object.spec_encode_ok(old(self).spec_vm(), old(self).spec_target())
                    &&& object.spec_encode(old(self).spec_vm(), old(self).spec_target()).len()
                        <= SNAPSHOT_MAX_SECTION_SIZE
                    &&& final(self).spec_section(name@) == Some(
                        object.spec_encode(old(self).spec_vm(), old(self).spec_target()),
                    )
                    &&& forall|other: Seq<char>|
                        other != name@ ==> final(self).spec_section(other) == old(
                            self,
                        ).spec_section(other)
                },
                Err(_) => {
                    &&& *final(self) == *old(self)
                    &&& !({
                        &&& object.spec_encode_ok(old(self).spec_vm(), old(self).spec_target())
                        &&& object.spec_encode(old(self).spec_vm(), old(self).spec_target()).len()
                            <= SNAPSHOT_MAX_SECTION_SIZE
                        &&& (old(self).spec_section(name@) is Some || old(
                            self,
                        ).spec_section_count() < u16::MAX)
                    })
                },
            },
    {
        let mut data: Vec<u8> = Vec::new();
        match object.serialize(&mut data, &self.version_map, self.target_version) {
            Ok(()) => {},
            Err(e) => {
                return Err(e);
            },
        }
        if data.len() > SNAPSHOT_MAX_SECTION_SIZE {
            return Err(VersionizeError::LengthOverflow);
        }
        let ghost vw = sections_view(self.sections@);
        let n: usize = self.sections.len();
        let mut i: usize = 0;
        let mut found: bool = false;
        while i < n
            invariant
                0 <= i <= n,
                *self == *old(self),
                n == self.sections@.len(),
                vw == sections_view(self.sections@),
                found ==> pair_has(vw, name@),
                !found ==> forall|j: int| 0 <= j < i ==> vw[j].0 != name@,
            decreases n - i,
        {
            if !found && self.sections[i].name == *name {
                proof {
                    assert(vw[i as int].0 == name@);
                }
                found = true;
            }
            i = i + 1;
        }
        if !found && self.sections.len() >= u16::MAX as usize {
            proof {
                lemma_first_lookup_of_miss(vw, name@);
            }
            return Err(VersionizeError::LengthOverflow);
        }
        let sec_name = name.clone();
        let name_bytes: &[u8] = sec_name.as_str().as_bytes();
        let name_len: usize = name_bytes.len();
        proof {
            assert(vstd::utf8::encode_utf8(sec_name@).len() == name_len);
        }
        let ghost data_view = data@;
        let sec = Section { name: sec_name, data };
        insert_section(&mut self.sections, sec);
        proof {
            if found {
                assert(self.sections@.len() == old(self).sections@.len());
            }
            assert(forall|i2: int|
                0 <= i2 < self.sections@.len() ==> section_bounded(#[trigger] self.sections@[i2]));
        }
        Ok(())
    }

    /// Reads the section stored under `name`: `None` when the name is
    /// absent, the decoded value when its payload decodes at the
    /// snapshot's data version, an error otherwise.
    pub fn read_section<T: Versionize>(&self, name: &String) -> (r: Result<
        Option<T>,
        VersionizeError,
    >)
        requires
            self.wf(),
        ensures
            r == Ok::<Option<T>, VersionizeError>(None) <==> self.spec_section(name@) is None,
            r matches Ok(Some(val)) ==> section_decodes_to(*self, name@, val),
            r is Err ==> section_undecodable::<T>(*self, name@),
    {
        let ghost vw = sections_view(self.sections@);
        let n: usize = self.sections.len();
        let mut i: usize = 0;
        let mut found: bool = false;
        let mut found_at: usize = 0;
        while i < n
            invariant
                0 <= i <= n,
                n == self.sections@.len(),
                vw == sections_view(self.sections@),
                found ==> found_at < i <= vw.len() && vw[found_at as int].0 == name@,
                !found ==> forall|j: int| 0 <= j < i ==> vw[j].0 != name@,
            decreases n - i,
        {
            if !found && self.sections[i].name == *name {
                proof {
                    assert(vw[i as int].0 == name@);
                }
                found = true;
                found_at = i;
            }
            i = i + 1;
        }
        if !found {
            proof {
                lemma_first_lookup_of_miss(vw, name@);
            }
            return Ok(None);
        }
        proof {
            lemma_first_lookup_of_match(vw, name@, found_at as int);
            assert(vw[found_at as int] == (
                self.sections@[found_at as int].name@,
                self.sections@[found_at as int].data@,
            ));
            assert(self.spec_section(name@) == Some(self.sections@[found_at as int].data@));
        }
        let ghost dc = self.sections@[found_at as int].data@;
        let mut reader = Reader::new(self.sections[found_at].data.as_slice());
        proof {
            assert(reader.remaining() =~= dc);
        }
        let ghost rem_call = reader.remaining();
        match T::deserialize(&mut reader, &self.version_map, self.hdr.data_version) {
            Ok(val) => {
                proof {
                    let nc = (reader.pos - 0) as nat;
                    assert(T::spec_decodes(
                        dc,
                        self.spec_vm(),
                        self.spec_data_version(),
                        val,
                        nc,
                    ));
                    assert(section_decodes_to(*self, name@, val));
                }
                Ok(Some(val))
            },
            Err(e) => {
                proof {
                    assert forall|val: T, n2: nat|
                        !T::spec_decodes(
                            self.spec_section(name@).unwrap(),
                            self.spec_vm(),
                            self.spec_data_version(),
                            val,
                            n2,
                        ) by {
                        assert(!T::spec_decodes(
                            rem_call,
                            self.spec_vm(),
                            self.spec_data_version(),
                            val,
                            n2,
                        ));
                        assert(self.spec_section(name@).unwrap() == dc);
                    }
                    assert(section_undecodable::<T>(*self, name@));
                }
                Err(e)
            },
        }
    }

    /// Emits the snapshot's bytes: magic id, header, then every section.
    /// The header is refreshed to the target version and section count.
    pub fn save(&mut self) -> (r: Vec<u8>)
        requires
            old(self).wf(),
        ensures
            final(self).wf(),
            r@ == old(self).spec_save_bytes(),
            final(self).spec_target() == old(self).spec_target(),
            final(self).spec_vm() == old(self).spec_vm(),
            final(self).spec_data_version() == old(self).spec_target(),
            forall|name: Seq<char>|
                final(self).spec_section(name) == old(self).spec_section(name),
    {
        self.hdr = SnapshotHdr {
            data_version: self.target_version,
            section_count: self.sections.len() as u16,
        };
        let magic: u64 = build_magic_id(SNAPSHOT_FORMAT_VERSION);
        let mut out: Vec<u8> = Vec::new();
        let res_magic = magic.serialize(&mut out, &self.version_map, SNAPSHOT_FORMAT_VERSION);
        proof {
            assert(res_magic is Ok);
            assert(out@ =~= spec_u64_to_le_bytes(BASE_MAGIC_ID | SNAPSHOT_FORMAT_VERSION as u64));
        }
        let res_hdr = self.hdr.serialize(&mut out, &self.version_map, SNAPSHOT_FORMAT_VERSION);
        proof {
            assert(res_hdr is Ok);
        }
        let ghost base = out@;
        let n: usize = self.sections.len();
        let mut i: usize = 0;
        while i < n
            invariant
                0 <= i <= n,
                self.format_version == old(self).format_version,
                self.version_map == old(self).version_map,
                self.sections == old(self).sections,
                self.target_version == old(self).target_version,
                self.hdr.data_version == old(self).target_version,
                self.hdr.section_count == old(self).sections@.len() as u16,
                self.version_map.wf(),
                n == self.sections@.len(),
                out@ == base + seq_encode(
                    self.sections@.take(i as int),
                    self.version_map,
                    SNAPSHOT_FORMAT_VERSION,
                ),
            decreases n - i,
        {
            let ghost done = self.sections@.take(i as int);
            let res = self.sections[i].serialize(
                &mut out,
                &self.version_map,
                SNAPSHOT_FORMAT_VERSION,
            );
            proof {
                assert(res is Ok);
                lemma_seq_encode_push(
                    done,
                    self.version_map,
                    SNAPSHOT_FORMAT_VERSION,
                    self.sections@[i as int],
                );
                assert(self.sections@.take(i + 1) =~= done.push(self.sections@[i as int]));
            }
            i = i + 1;
        }
        proof {
            assert(self.sections@.take(n as int) =~= self.sections@);
            assert(out@ =~= old(self).spec_save_bytes());
        }
        out
    }
}


/// Whether `bytes` parse as a snapshot under `vm`: a valid magic id, a
/// header, and as many sections as the header announces.
pub open spec fn spec_load_ok(bytes: Seq<u8>, vm: VersionMap) -> bool {
    &&& bytes.len() >= 8
    &&& spec_validate_magic_id(spec_u64_from_le_bytes(bytes.take(8))) matches Some(fv)
    &&& exists|hdr: SnapshotHdr, nh: nat|
        {
            &&& #[trigger] SnapshotHdr::spec_decodes(bytes.skip(8), vm, fv, hdr, nh)
            &&& exists|secs: Seq<Section>, ns: nat|
                {
                    &&& #[trigger] seq_decodes(bytes.skip(8 + nh as int), vm, fv, secs, ns)
                    &&& secs.len() == hdr.section_count
                }
        }
}

/// Whether `loaded` is what parsing `bytes` under `vm` yields: the data
/// version of the parsed header, and the sections of the parsed run,
/// later duplicates winning.
pub open spec fn spec_loaded_from(loaded: Snapshot, bytes: Seq<u8>, vm: VersionMap) -> bool {
    &&& bytes.len() >= 8
    &&& spec_validate_magic_id(spec_u64_from_le_bytes(bytes.take(8))) matches Some(fv)
    &&& loaded.spec_format_version() == fv
    &&& loaded.spec_vm() == vm
    &&& exists|hdr: SnapshotHdr, nh: nat|
        {
            &&& #[trigger] SnapshotHdr::spec_decodes(bytes.skip(8), vm, fv, hdr, nh)
            &&& loaded.spec_data_version() == hdr.data_version
            &&& exists|secs: Seq<Section>, ns: nat|
                {
                    &&& #[trigger] seq_decodes(bytes.skip(8 + nh as int), vm, fv, secs, ns)
                    &&& secs.len() == hdr.section_count
                    &&& forall|name: Seq<char>|
                        #[trigger] loaded.spec_section(name) == last_lookup(
                            sections_view(secs),
                            name,
                        )
                }
        }
}

proof fn lemma_section_decoded_bounded(
    bytes: Seq<u8>,
    vm: VersionMap,
    app: u16,
    sec: Section,
    n: nat,
)
    requires
        Section::spec_decodes(bytes, vm, app, sec, n),
    ensures
        section_bounded(sec),
{
    let (k, j): (nat, nat) = choose|k: nat, j: nat|
        {
            &&& #[trigger] <String as Versionize>::spec_decodes(bytes, vm, app, sec.name, k)
            &&& #[trigger] <Vec<u8> as Versionize>::spec_decodes(
                bytes.skip(k as int),
                vm,
                app,
                sec.data,
                j,
            )
            &&& n == k + j
        };
}

impl Snapshot {
    /// Parses a saved snapshot.  Fails exactly when the magic id cannot
    /// be read, carries a foreign architecture tag, or the header or a
    /// section does not decode.
    pub fn load(bytes: &[u8], version_map: VersionMap) -> (r: Result<Snapshot, VersionizeError>)
        requires
            version_map.wf(),
        ensures
            match r {
                Ok(snap) => snap.wf() && snap.spec_target() == 0 && spec_loaded_from(
                    snap,
                    bytes@,
                    version_map,
                ),
                Err(_) => !spec_load_ok(bytes@, version_map),
            },
    {
        let mut reader = Reader::new(bytes);
        let magic: u64 = match u64::deserialize(&mut reader, &version_map, 0) {
            Ok(m) => m,
            Err(e) => {
                proof {
                    if bytes@.len() >= 8 {
                        assert(<u64 as Versionize>::spec_decodes(
                            bytes@,
                            version_map,
                            0u16,
                            spec_u64_from_le_bytes(bytes@.take(8)),
                            8nat,
                        ));
                    }
                }
                return Err(e);
            },
        };
        let format_version: u16 = match validate_magic_id(magic) {
            Some(v) => v,
            None => {
                return Err(VersionizeError::InvalidEncoding);
            },
        };
        let ghost rem_hdr = reader.remaining();
        proof {
            assert(rem_hdr =~= bytes@.skip(8));
        }
        let hdr: SnapshotHdr = match SnapshotHdr::deserialize(
            &mut reader,
            &version_map,
            format_version,
        ) {
            Ok(h) => h,
            Err(e) => {
                return Err(e);
            },
        };
        let ghost ghdr = hdr;
        let ghost nh = (reader.pos - 8) as nat;
        let ghost rem_secs = reader.remaining();
        proof {
            vstd::seq_lib::lemma_seq_skip_of_skip(reader.bytes@, 8, nh as int);
            assert(rem_secs =~= bytes@.skip(8 + nh as int));
        }
        let count: u16 = hdr.section_count;
        let data_version: u16 = hdr.data_version;
        let ghost base_pos = reader.pos as int;
        let mut sections: Vec<Section> = Vec::new();
        let ghost mut decoded: Seq<Section> = Seq::empty();
        let mut i: u16 = 0;
        while i < count
            invariant
                0 <= i <= count,
                version_map.wf(),
                reader.wf(),
                reader.bytes@ == bytes@,
                bytes@.len() >= 8,
                spec_validate_magic_id(spec_u64_from_le_bytes(bytes@.take(8))) == Some(
                    format_version,
                ),
                SnapshotHdr::spec_decodes(bytes@.skip(8), version_map, format_version, ghdr, nh),
                ghdr.section_count == count,
                ghdr.data_version == data_version,
                nh == 4,
                base_pos == 8 + nh,
                base_pos <= reader.pos,
                rem_secs == reader.bytes@.skip(base_pos),
                rem_secs == bytes@.skip(8 + nh as int),
                decoded.len() == i,
                seq_decodes(
                    rem_secs,
                    version_map,
                    format_version,
                    decoded,
                    (reader.pos - base_pos) as nat,
                ),
                unique_pair_names(sections_view(sections@)),
                sections@.len() <= i,
                forall|nm: Seq<char>|
                    #[trigger] first_lookup(sections_view(sections@), nm) == last_lookup(
                        sections_view(decoded),
                        nm,
                    ),
                forall|k: int|
                    0 <= k < sections@.len() ==> section_bounded(#[trigger] sections@[k]),
            decreases count - i,
        {
            let ghost before_pos = reader.pos as int;
            let ghost rem_here = reader.remaining();
            let ghost built = decoded;
            let sec: Section = match Section::deserialize(&mut reader, &version_map, format_version) {
                Ok(sc) => sc,
                Err(e) => {
                    proof {
                        vstd::seq_lib::lemma_seq_skip_of_skip(
                            reader.bytes@,
                            base_pos,
                            before_pos - base_pos,
                        );
                        assert(rem_here =~= rem_secs.skip(before_pos - base_pos));
                        assert forall|v2: Section, m2: nat|
                            !#[trigger] Section::spec_decodes(
                                rem_secs.skip(((before_pos - base_pos) as nat) as int),
                                version_map,
                                format_version,
                                v2,
                                m2,
                            ) by {
                            assert(!Section::spec_decodes(
                                rem_here,
                                version_map,
                                format_version,
                                v2,
                                m2,
                            ));
                        }
                        assert forall|secs2: Seq<Section>, ns2: nat|
                            #[trigger] seq_decodes(
                                rem_secs,
                                version_map,
                                format_version,
                                secs2,
                                ns2,
                            ) implies secs2.len() < count by {
                            if secs2.len() >= count {
                                lemma_seq_decodes_take(
                                    rem_secs,
                                    version_map,
                                    format_version,
                                    secs2,
                                    ns2,
                                    built.len() + 1 as int,
                                );
                                let mt = choose|mt: nat|
                                    mt <= ns2 && #[trigger] seq_decodes(
                                        rem_secs,
                                        version_map,
                                        format_version,
                                        secs2.take(built.len() + 1 as int),
                                        mt,
                                    );
                                crate::primitives::lemma_seq_decodes_no_extension(
                                    rem_secs,
                                    version_map,
                                    format_version,
                                    built,
                                    (before_pos - base_pos) as nat,
                                    secs2.take(built.len() + 1 as int),
                                    mt,
                                );
                            }
                        }
                        if spec_load_ok(bytes@, version_map) {
                            let (hdr2, nh2): (SnapshotHdr, nat) = choose|
                                hdr2: SnapshotHdr,
                                nh2: nat,
                            |
                                {
                                    &&& #[trigger] SnapshotHdr::spec_decodes(
                                        bytes@.skip(8),
                                        version_map,
                                        format_version,
                                        hdr2,
                                        nh2,
                                    )
                                    &&& exists|secs: Seq<Section>, ns: nat|
                                        {
                                            &&& #[trigger] seq_decodes(
                                                bytes@.skip(8 + nh2 as int),
                                                version_map,
                                                format_version,
                                                secs,
                                                ns,
                                            )
                                            &&& secs.len() == hdr2.section_count
                                        }
                                };
                            assert(nh2 == 4);
                            assert(hdr2.section_count == ghdr.section_count);
                            let (secs, ns): (Seq<Section>, nat) = choose|
                                secs: Seq<Section>,
                                ns: nat,
                            |
                                {
                                    &&& #[trigger] seq_decodes(
                                        bytes@.skip(8 + nh2 as int),
                                        version_map,
                                        format_version,
                                        secs,
                                        ns,
                                    )
                                    &&& secs.len() == hdr2.section_count
                                };
                            assert(bytes@.skip(8 + nh2 as int) == rem_secs);
                            assert(secs.len() < count);
                        }
                    }
                    return Err(e);
                },
            };
            proof {
                vstd::seq_lib::lemma_seq_skip_of_skip(
                    reader.bytes@,
                    base_pos,
                    before_pos - base_pos,
                );
                assert(rem_here =~= rem_secs.skip(before_pos - base_pos));
                assert(Section::spec_decodes(
                    rem_secs.skip((before_pos - base_pos) as nat as int),
                    version_map,
                    format_version,
                    sec,
                    (reader.pos - before_pos) as nat,
                ));
                lemma_seq_decodes_push(
                    rem_secs,
                    version_map,
                    format_version,
                    built,
                    (before_pos - base_pos) as nat,
                    sec,
                    (reader.pos - before_pos) as nat,
                );
                lemma_section_decoded_bounded(
                    rem_secs.skip(before_pos - base_pos),
                    version_map,
                    format_version,
                    sec,
                    (reader.pos - before_pos) as nat,
                );
                decoded = decoded.push(sec);
                assert(sections_view(decoded) =~= sections_view(built).push((sec.name@, sec.data@)));
            }
            let ghost old_sections_vw = sections_view(sections@);
            insert_section(&mut sections, sec);
            proof {
                assert forall|nm: Seq<char>|
                    #[trigger] first_lookup(sections_view(sections@), nm) == last_lookup(
                        sections_view(decoded),
                        nm,
                    ) by {
                    lemma_last_lookup_push(
                        sections_view(built),
                        (decoded.last().name@, decoded.last().data@),
                        nm,
                    );
                    if nm != decoded.last().name@ {
                        assert(first_lookup(sections_view(sections@), nm) == first_lookup(
                            old_sections_vw,
                            nm,
                        ));
                    }
                }
            }
            i = i + 1;
        }
        let snap = Snapshot {
            hdr: SnapshotHdr { data_version, section_count: count },
            format_version,
            version_map,
            sections,
            target_version: 0,
        };
        proof {
            assert(snap.wf());
            let consumed = (reader.pos - base_pos) as nat;
            assert(SnapshotHdr::spec_decodes(
                bytes@.skip(8),
                snap.version_map,
                format_version,
                ghdr,
                nh,
            ));
            assert(seq_decodes(
                bytes@.skip(8 + nh as int),
                snap.version_map,
                format_version,
                decoded,
                consumed,
            ));
            assert(spec_loaded_from(snap, bytes@, snap.version_map));
        }
        Ok(snap)
    }
}

/// A prefix of a decoded sequence decodes on its own.
pub proof fn lemma_seq_decodes_take(
    bytes: Seq<u8>,
    vm: VersionMap,
    app: u16,
    vals: Seq<Section>,
    n: nat,
    k: int,
)
    requires
        seq_decodes(bytes, vm, app, vals, n),
        0 <= k <= vals.len(),
    ensures
        exists|m: nat|
            m <= n && #[trigger] seq_decodes(bytes, vm, app, vals.take(k), m),
    decreases k,
{
    if k == 0 {
        assert(vals.take(0).len() == 0);
        assert(seq_decodes(bytes, vm, app, vals.take(0), 0nat));
    } else {
        let n1 = choose|n1: nat|
            {
                &&& #[trigger] Section::spec_decodes(bytes, vm, app, vals[0], n1)
                &&& n1 <= n
                &&& seq_decodes(bytes.skip(n1 as int), vm, app, vals.skip(1), (n - n1) as nat)
            };
        lemma_seq_decodes_take(bytes.skip(n1 as int), vm, app, vals.skip(1), (n - n1) as nat, k - 1);
        let m2 = choose|m2: nat|
            m2 <= (n - n1) as nat && #[trigger] seq_decodes(
                bytes.skip(n1 as int),
                vm,
                app,
                vals.skip(1).take(k - 1),
                m2,
            );
        assert(vals.take(k)[0] == vals[0]);
        assert(vals.take(k).skip(1) =~= vals.skip(1).take(k - 1));
        assert(seq_decodes(bytes, vm, app, vals.take(k), (n1 + m2) as nat));
    }
}


/// The bytes of a header encoding decode back to the same header.
proof fn lemma_hdr_encode_decodes(
    hdr: SnapshotHdr,
    vm_a: VersionMap,
    app_a: u16,
    vm_b: VersionMap,
    app_b: u16,
    rest: Seq<u8>,
)
    ensures
        SnapshotHdr::spec_decodes(hdr.spec_encode(vm_a, app_a) + rest, vm_b, app_b, hdr, 4),
{
    lemma_auto_spec_u16_to_from_le_bytes();
    let b = hdr.spec_encode(vm_a, app_a) + rest;
    crate::primitives::lemma_u16_encode_decodes(
        hdr.data_version,
        vm_a,
        app_a,
        vm_b,
        app_b,
        spec_u16_to_le_bytes(hdr.section_count) + rest,
    );
    assert(b =~= spec_u16_to_le_bytes(hdr.data_version) + (spec_u16_to_le_bytes(hdr.section_count)
        + rest));
    crate::primitives::lemma_u16_encode_decodes(hdr.section_count, vm_a, app_a, vm_b, app_b, rest);
    assert(b.skip(2) =~= spec_u16_to_le_bytes(hdr.section_count) + rest);
}

/// The bytes of a section encoding decode back to the same section.
proof fn lemma_section_encode_decodes(
    sec: Section,
    vm_a: VersionMap,
    app_a: u16,
    vm_b: VersionMap,
    app_b: u16,
    rest: Seq<u8>,
)
    requires
        section_bounded(sec),
    ensures
        Section::spec_decodes(
            sec.spec_encode(vm_a, app_a) + rest,
            vm_b,
            app_b,
            sec,
            sec.spec_encode(vm_a, app_a).len(),
        ),
{
    let name_enc = sec.name.spec_encode(vm_a, app_a);
    let data_enc = sec.data.spec_encode(vm_a, app_a);
    let b = sec.spec_encode(vm_a, app_a) + rest;
    assert(b =~= name_enc + (data_enc + rest));
    crate::primitives::lemma_string_encode_decodes(
        sec.name,
        vm_a,
        app_a,
        vm_b,
        app_b,
        data_enc + rest,
    );
    assert(b.skip(name_enc.len() as int) =~= data_enc + rest);
    crate::primitives::lemma_vec_u8_encode_decodes(sec.data, vm_a, app_a, vm_b, app_b, rest);
    let k = name_enc.len();
    let j = data_enc.len();
    assert(<String as Versionize>::spec_decodes(b, vm_b, app_b, sec.name, k));
    assert(<Vec<u8> as Versionize>::spec_decodes(b.skip(k as int), vm_b, app_b, sec.data, j));
    assert(Section::spec_decodes(b, vm_b, app_b, sec, k + j));
}

/// Two sections decoded from the same bytes agree in name, payload and
/// consumed count.
proof fn lemma_section_decode_det(
    bytes: Seq<u8>,
    vm: VersionMap,
    app: u16,
    s1: Section,
    n1: nat,
    s2: Section,
    n2: nat,
)
    requires
        Section::spec_decodes(bytes, vm, app, s1, n1),
        Section::spec_decodes(bytes, vm, app, s2, n2),
    ensures
        n1 == n2,
        s1.name@ == s2.name@,
        s1.data@ == s2.data@,
{
    let (k1, j1): (nat, nat) = choose|k: nat, j: nat|
        {
            &&& #[trigger] <String as Versionize>::spec_decodes(bytes, vm, app, s1.name, k)
            &&& #[trigger] <Vec<u8> as Versionize>::spec_decodes(
                bytes.skip(k as int),
                vm,
                app,
                s1.data,
                j,
            )
            &&& n1 == k + j
        };
    let (k2, j2): (nat, nat) = choose|k: nat, j: nat|
        {
            &&& #[trigger] <String as Versionize>::spec_decodes(bytes, vm, app, s2.name, k)
            &&& #[trigger] <Vec<u8> as Versionize>::spec_decodes(
                bytes.skip(k as int),
                vm,
                app,
                s2.data,
                j,
            )
            &&& n2 == k + j
        };
    crate::primitives::lemma_string_decode_det(bytes, vm, app, s1.name, k1, s2.name, k2);
    crate::primitives::lemma_vec_u8_decode_det(
        bytes.skip(k1 as int),
        vm,
        app,
        s1.data,
        j1,
        s2.data,
        j2,
    );
}

/// The bytes of a run of section encodings decode back to sections with
/// the same names and payloads, consuming the whole run.
proof fn lemma_sections_encode_decodes(
    secs: Seq<Section>,
    vm_a: VersionMap,
    app_a: u16,
    vm_b: VersionMap,
    app_b: u16,
    rest: Seq<u8>,
)
    requires
        forall|i: int| 0 <= i < secs.len() ==> section_bounded(#[trigger] secs[i]),
    ensures
        seq_decodes(
            seq_encode(secs, vm_a, app_a) + rest,
            vm_b,
            app_b,
            secs,
            seq_encode(secs, vm_a, app_a).len(),
        ),
    decreases secs.len(),
{
    if secs.len() == 0 {
        assert(seq_encode(secs, vm_a, app_a) =~= Seq::<u8>::empty());
        assert(seq_decodes(
            seq_encode(secs, vm_a, app_a) + rest,
            vm_b,
            app_b,
            secs,
            0nat,
        ));
    } else {
        let head = secs[0];
        let head_enc = head.spec_encode(vm_a, app_a);
        let tail_enc = seq_encode(secs.skip(1), vm_a, app_a);
        let b = seq_encode(secs, vm_a, app_a) + rest;
        assert(b =~= head_enc + (tail_enc + rest));
        lemma_section_encode_decodes(head, vm_a, app_a, vm_b, app_b, tail_enc + rest);
        assert(forall|i: int|
            0 <= i < secs.skip(1).len() ==> section_bounded(#[trigger] secs.skip(1)[i]));
        lemma_sections_encode_decodes(secs.skip(1), vm_a, app_a, vm_b, app_b, rest);
        assert(b.skip(head_enc.len() as int) =~= tail_enc + rest);
        assert(Section::spec_decodes(b, vm_b, app_b, secs[0], head_enc.len()));
        assert(seq_decodes(
            b.skip(head_enc.len() as int),
            vm_b,
            app_b,
            secs.skip(1),
            tail_enc.len(),
        ));
        assert(seq_decodes(b, vm_b, app_b, secs, (head_enc.len() + tail_enc.len()) as nat));
    }
}

/// Two runs of the same count of sections decoded from the same bytes
/// agree pointwise in names and payloads.
proof fn lemma_sections_decode_det(
    bytes: Seq<u8>,
    vm: VersionMap,
    app: u16,
    s1: Seq<Section>,
    n1: nat,
    s2: Seq<Section>,
    n2: nat,
)
    requires
        seq_decodes(bytes, vm, app, s1, n1),
        seq_decodes(bytes, vm, app, s2, n2),
        s1.len() == s2.len(),
    ensures
        sections_view(s1) == sections_view(s2),
    decreases s1.len(),
{
    if s1.len() == 0 {
        assert(sections_view(s1) =~= sections_view(s2));
    } else {
        let m1 = choose|m: nat|
            {
                &&& #[trigger] Section::spec_decodes(bytes, vm, app, s1[0], m)
                &&& m <= n1
                &&& seq_decodes(bytes.skip(m as int), vm, app, s1.skip(1), (n1 - m) as nat)
            };
        let m2 = choose|m: nat|
            {
                &&& #[trigger] Section::spec_decodes(bytes, vm, app, s2[0], m)
                &&& m <= n2
                &&& seq_decodes(bytes.skip(m as int), vm, app, s2.skip(1), (n2 - m) as nat)
            };
        lemma_section_decode_det(bytes, vm, app, s1[0], m1, s2[0], m2);
        lemma_sections_decode_det(
            bytes.skip(m1 as int),
            vm,
            app,
            s1.skip(1),
            (n1 - m1) as nat,
            s2.skip(1),
            (n2 - m2) as nat,
        );
        assert(sections_view(s1.skip(1)) =~= sections_view(s1).skip(1));
        assert(sections_view(s2.skip(1)) =~= sections_view(s2).skip(1));
        assert forall|i: int|
            0 <= i < sections_view(s1).len() implies sections_view(s1)[i] == sections_view(
            s2,
        )[i] by {
            if i == 0 {
                assert(sections_view(s1)[0] == (s1[0].name@, s1[0].data@));
                assert(sections_view(s2)[0] == (s2[0].name@, s2[0].data@));
            } else {
                assert(sections_view(s1)[i] == sections_view(s1).skip(1)[i - 1]);
                assert(sections_view(s2)[i] == sections_view(s2).skip(1)[i - 1]);
            }
        }
        assert(sections_view(s1) =~= sections_view(s2));
    }
}

/// Loading the bytes a snapshot saved yields the same sections under the
/// same names, and the saver's target version as the data version.
pub proof fn lemma_save_load_round_trip(s: Snapshot, loaded: Snapshot, vm2: VersionMap)
    requires
        s.wf(),
        spec_loaded_from(loaded, s.spec_save_bytes(), vm2),
    ensures
        loaded.spec_data_version() == s.spec_target(),
        forall|name: Seq<char>| #[trigger] loaded.spec_section(name) == s.spec_section(name),
{
    let bytes = s.spec_save_bytes();
    let magic_enc = spec_u64_to_le_bytes(BASE_MAGIC_ID | SNAPSHOT_FORMAT_VERSION as u64);
    let shdr = SnapshotHdr {
        data_version: s.spec_target(),
        section_count: s.spec_section_count() as u16,
    };
    let hdr_enc = shdr.spec_encode(s.spec_vm(), SNAPSHOT_FORMAT_VERSION);
    let secs_enc = seq_encode(s.sections@, s.spec_vm(), SNAPSHOT_FORMAT_VERSION);
    lemma_auto_spec_u64_to_from_le_bytes();
    lemma_auto_spec_u16_to_from_le_bytes();
    assert(bytes.take(8) =~= magic_enc);
    lemma_magic_id_round_trip(SNAPSHOT_FORMAT_VERSION);
    assert(spec_validate_magic_id(spec_u64_from_le_bytes(bytes.take(8))) == Some(
        SNAPSHOT_FORMAT_VERSION,
    ));
    let fv = SNAPSHOT_FORMAT_VERSION;
    // The saver's header and sections decode from the saved bytes.
    lemma_hdr_encode_decodes(shdr, s.spec_vm(), fv, vm2, fv, secs_enc);
    assert(bytes.skip(8) =~= hdr_enc + secs_enc);
    assert(SnapshotHdr::spec_decodes(bytes.skip(8), vm2, fv, shdr, 4));
    lemma_sections_encode_decodes(s.sections@, s.spec_vm(), fv, vm2, fv, Seq::empty());
    assert(seq_encode(s.sections@, s.spec_vm(), fv) + Seq::<u8>::empty() =~= secs_enc);
    assert(bytes.skip(12int) =~= secs_enc);
    assert(seq_decodes(bytes.skip(12int), vm2, fv, s.sections@, secs_enc.len()));
    // Whatever header and sections the loader parsed must agree.
    let (hdr2, nh2): (SnapshotHdr, nat) = choose|hdr2: SnapshotHdr, nh2: nat|
        {
            &&& #[trigger] SnapshotHdr::spec_decodes(bytes.skip(8), vm2, fv, hdr2, nh2)
            &&& loaded.spec_data_version() == hdr2.data_version
            &&& exists|secs: Seq<Section>, ns: nat|
                {
                    &&& #[trigger] seq_decodes(bytes.skip(8 + nh2 as int), vm2, fv, secs, ns)
                    &&& secs.len() == hdr2.section_count
                    &&& forall|name: Seq<char>|
                        #[trigger] loaded.spec_section(name) == last_lookup(
                            sections_view(secs),
                            name,
                        )
                }
        };
    assert(nh2 == 4);
    assert(hdr2.data_version == shdr.data_version);
    assert(hdr2.section_count == shdr.section_count);
    let (secs2, ns2): (Seq<Section>, nat) = choose|secs: Seq<Section>, ns: nat|
        {
            &&& #[trigger] seq_decodes(bytes.skip(8 + nh2 as int), vm2, fv, secs, ns)
            &&& secs.len() == hdr2.section_count
            &&& forall|name: Seq<char>|
                #[trigger] loaded.spec_section(name) == last_lookup(sections_view(secs), name)
        };
    assert(secs2.len() == s.sections@.len());
    lemma_sections_decode_det(
        bytes.skip(12int),
        vm2,
        fv,
        secs2,
        ns2,
        s.sections@,
        secs_enc.len(),
    );
    assert forall|name: Seq<char>| #[trigger] loaded.spec_section(name) == s.spec_section(
        name,
    ) by {
        lemma_lookup_unique(sections_view(s.sections@), name);
        assert(last_lookup(sections_view(secs2), name) == last_lookup(
            sections_view(s.sections@),
            name,
        ));
    }
}

} // verus!
