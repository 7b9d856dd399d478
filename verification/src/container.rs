//! The top-level container: a fixed header (magic tag, format version,
//! fragment count, string blob length), the obfuscated string blob, then the
//! declared number of framed fragment records. A container is built once per
//! input buffer and immutable after parsing; references are resolved on
//! demand against the finished list and pool.

use crate::bytes::{
    copy_range, lemma_le_bytes, lemma_subrange_eq_sub, push_u32, read_u32, u32_at, u32_le,
};
use crate::error::ParseError;
use crate::fragment::{
    fragment_bytes, lemma_record_parse_exact, lemma_record_round_trip, parse_record,
    parse_record_at, record_bytes, record_wf, serialize_record_into, Fragment, FragmentRecord,
    FragmentRecordView,
};
use crate::refs::StringReference;
use crate::string_pool::{
    crypt, lemma_crypt_self_inverse, lossy_string_of, resolve_spec, StringPool,
};
use vstd::prelude::*;

verus! {

/// The fixed magic tag at offset 0 of every container file.
pub const CONTAINER_MAGIC: u32 = 0x54503d02;

/// The bytes a sequence of records serializes to, in file order.
pub open spec fn records_bytes(rs: Seq<FragmentRecordView>) -> Seq<u8>
    decreases rs.len(),
{
    if rs.len() == 0 {
        Seq::empty()
    } else {
        record_bytes(rs[0]) + records_bytes(rs.drop_first())
    }
}

/// Appending one record appends its bytes.
pub proof fn lemma_records_bytes_push(rs: Seq<FragmentRecordView>, r: FragmentRecordView)
    ensures
        records_bytes(rs.push(r)) == records_bytes(rs) + record_bytes(r),
    decreases rs.len(),
{
    if rs.len() == 0 {
        assert(rs.push(r)[0] == r);
        assert(rs.push(r).drop_first() =~= Seq::<FragmentRecordView>::empty());
        assert(records_bytes(Seq::<FragmentRecordView>::empty()) == Seq::<u8>::empty());
        assert(records_bytes(rs.push(r)) == record_bytes(r) + Seq::<u8>::empty());
        assert(records_bytes(rs) == Seq::<u8>::empty());
        assert(record_bytes(r) + Seq::<u8>::empty() =~= Seq::<u8>::empty() + record_bytes(r));
    } else {
        lemma_records_bytes_push(rs.drop_first(), r);
        assert(rs.push(r).drop_first() =~= rs.drop_first().push(r));
        assert(rs.push(r)[0] == rs[0]);
        assert((record_bytes(rs[0]) + records_bytes(rs.drop_first())) + record_bytes(r)
            =~= record_bytes(rs[0]) + (records_bytes(rs.drop_first()) + record_bytes(r)));
    }
}

/// Reading `n` consecutive records starting at offset `pos` of `b`.
pub open spec fn parse_records_at(b: Seq<u8>, pos: int, n: nat) -> Option<
    (Seq<FragmentRecordView>, int),
>
    decreases n,
{
    if n == 0 {
        Some((Seq::empty(), pos))
    } else {
        match parse_record_at(b, pos) {
            None => None,
            Some((r, p2)) => match parse_records_at(b, p2, (n - 1) as nat) {
                None => None,
                Some((rs, p3)) => Some((seq![r] + rs, p3)),
            },
        }
    }
}

/// Byte identity of a record run: `n` parsed records are well formed and
/// serialize back to exactly the consumed range.
pub proof fn lemma_records_parse_exact(b: Seq<u8>, pos: int, n: nat)
    requires
        0 <= pos <= b.len(),
    ensures
        match parse_records_at(b, pos, n) {
            Some((rs, p)) => rs.len() == n && pos <= p <= b.len() && (forall|i: int|
                0 <= i < rs.len() ==> record_wf(#[trigger] rs[i])) && records_bytes(rs)
                == b.subrange(pos, p),
            None => true,
        },
    decreases n,
{
    if n == 0 {
        assert(b.subrange(pos, pos) =~= Seq::<u8>::empty());
        assert(records_bytes(Seq::empty()) == Seq::<u8>::empty());
    } else {
        lemma_record_parse_exact(b, pos);
        match parse_record_at(b, pos) {
            None => (),
            Some((r, p2)) => {
                lemma_records_parse_exact(b, p2, (n - 1) as nat);
                match parse_records_at(b, p2, (n - 1) as nat) {
                    None => (),
                    Some((rs, p3)) => {
                        let all = seq![r] + rs;
                        assert(all[0] == r);
                        assert(all.drop_first() =~= rs);
                        assert(records_bytes(all) == record_bytes(r) + records_bytes(rs));
                        assert(b.subrange(pos, p2) + b.subrange(p2, p3) =~= b.subrange(pos, p3));
                    },
                }
            },
        }
    }
}

/// Round trip of a record run: parsing the bytes that well-formed records
/// serialize to yields them back, in order.
pub proof fn lemma_records_round_trip(rs: Seq<FragmentRecordView>, b: Seq<u8>, pos: int)
    requires
        forall|i: int| 0 <= i < rs.len() ==> record_wf(#[trigger] rs[i]),
        0 <= pos,
        pos + records_bytes(rs).len() <= b.len(),
        b.subrange(pos, pos + records_bytes(rs).len()) == records_bytes(rs),
    ensures
        parse_records_at(b, pos, rs.len()) == Some((rs, pos + records_bytes(rs).len())),
    decreases rs.len(),
{
    if rs.len() == 0 {
        assert(rs =~= Seq::<FragmentRecordView>::empty());
    } else {
        let r = rs[0];
        let rb = record_bytes(r);
        let rest = rs.drop_first();
        let all = records_bytes(rs);
        assert(all == rb + records_bytes(rest));
        lemma_subrange_eq_sub(b, pos, all, 0, rb.len() as int);
        assert(all.subrange(0, rb.len() as int) =~= rb);
        lemma_record_round_trip(r, b, pos);
        let p2 = pos + rb.len() as int;
        lemma_subrange_eq_sub(b, pos, all, rb.len() as int, all.len() as int);
        assert(all.subrange(rb.len() as int, all.len() as int) =~= records_bytes(rest));
        lemma_records_round_trip(rest, b, p2);
        assert(seq![r] + rest =~= rs);
    }
}

/// The mathematical value of a container: format version, decoded pool
/// bytes, and the framed records in file order.
#[verifier::ext_equal]
pub struct ContainerView {
    pub version: u32,
    pub pool: Seq<u8>,
    pub records: Seq<FragmentRecordView>,
}

/// A well-formed container: the fragment count and blob length fit their
/// header fields, and every record is well formed.
pub open spec fn container_wf(c: ContainerView) -> bool {
    &&& c.records.len() <= u32::MAX
    &&& c.pool.len() <= u32::MAX
    &&& forall|i: int| 0 <= i < c.records.len() ==> record_wf(#[trigger] c.records[i])
}

/// What a container needs for its byte lengths to fit the format's header
/// and framing fields; implied by `container_wf`.
pub open spec fn container_serializable(c: ContainerView) -> bool {
    &&& c.records.len() <= u32::MAX
    &&& c.pool.len() <= u32::MAX
    &&& forall|i: int|
        0 <= i < c.records.len() ==> fragment_bytes(
            (#[trigger] c.records[i]).fragment,
        ).len() + c.records[i].trailing.len() <= u32::MAX
}

/// The bytes a container serializes to: magic, version, fragment count, blob
/// length, the re-obfuscated string blob, then every record.
pub open spec fn container_bytes(c: ContainerView) -> Seq<u8> {
    u32_le(CONTAINER_MAGIC) + u32_le(c.version) + u32_le(c.records.len() as u32) + u32_le(
        c.pool.len() as u32,
    ) + crypt(c.pool) + records_bytes(c.records)
}

/// Reading a container: the 16-byte header bounds the sub-parses — the blob
/// length bounds the pool, the count bounds the record run — and a
/// well-formed file ends exactly at the last declared record.
pub open spec fn parse_container_spec(b: Seq<u8>) -> Option<ContainerView> {
    if b.len() >= 16 {
        let magic = u32_at(b, 0);
        let version = u32_at(b, 4);
        let count = u32_at(b, 8);
        let blob_len = u32_at(b, 12) as int;
        if magic == CONTAINER_MAGIC && 16 + blob_len <= b.len() {
            let pool = crypt(b.subrange(16, 16 + blob_len));
            match parse_records_at(b, 16 + blob_len, count as nat) {
                None => None,
                Some((rs, p)) => if p == b.len() {
                    Some(ContainerView { version, pool, records: rs })
                } else {
                    None
                },
            }
        } else {
            None
        }
    } else {
        None
    }
}

/// Byte identity for whole files: any container parsed from `b` is well
/// formed and serializes back to exactly `b` — unknown fragment types via
/// opaque passthrough, the string blob via the XOR key's self-inverse.
pub proof fn lemma_byte_identity(b: Seq<u8>)
    ensures
        match parse_container_spec(b) {
            Some(c) => container_wf(c) && container_bytes(c) == b,
            None => true,
        },
{
    lemma_le_bytes();
    if parse_container_spec(b) is Some {
        let count = u32_at(b, 8);
        let blob_len = u32_at(b, 12) as int;
        let raw = b.subrange(16, 16 + blob_len);
        let pool = crypt(raw);
        lemma_crypt_self_inverse(raw);
        lemma_records_parse_exact(b, 16 + blob_len, count as nat);
        match parse_records_at(b, 16 + blob_len, count as nat) {
            None => (),
            Some((rs, p)) => {
                let c = ContainerView { version: u32_at(b, 4), pool, records: rs };
                assert(u32_le(CONTAINER_MAGIC) == b.subrange(0, 4));
                assert(u32_le(c.version) == b.subrange(4, 8));
                assert(c.records.len() as u32 == count);
                assert(u32_le(c.records.len() as u32) == b.subrange(8, 12));
                assert(c.pool.len() as u32 == u32_at(b, 12));
                assert(u32_le(c.pool.len() as u32) == b.subrange(12, 16));
                assert(crypt(c.pool) == raw);
                assert(container_bytes(c) =~= b);
            },
        }
    }
}

/// Full round trip: serializing any well-formed container and parsing the
/// result yields the container back.
pub proof fn lemma_container_round_trip(c: ContainerView)
    requires
        container_wf(c),
    ensures
        parse_container_spec(container_bytes(c)) == Some(c),
{
    lemma_le_bytes();
    let b = container_bytes(c);
    let rb = records_bytes(c.records);
    assert(b.subrange(0, 4) =~= u32_le(CONTAINER_MAGIC));
    assert(b.subrange(4, 8) =~= u32_le(c.version));
    assert(b.subrange(8, 12) =~= u32_le(c.records.len() as u32));
    assert(b.subrange(12, 16) =~= u32_le(c.pool.len() as u32));
    assert(u32_at(b, 12) as int == c.pool.len());
    assert(b.subrange(16, 16 + c.pool.len() as int) =~= crypt(c.pool));
    lemma_crypt_self_inverse(c.pool);
    let pos = 16 + c.pool.len() as int;
    assert(b.subrange(pos, pos + rb.len() as int) =~= rb);
    lemma_records_round_trip(c.records, b, pos);
    assert(u32_at(b, 8) as nat == c.records.len());
    assert(pos + rb.len() as int == b.len());
}

/// The parsed container: the format version, the decoded string pool, and
/// the framed records in file order. Immutable once built; the pool and the
/// list are resolved against on demand.
#[derive(Clone, Debug, PartialEq, Eq)]
pub struct Container {
    /// The header's format version word.
    pub version: u32,
    /// The decoded string pool.
    pub strings: StringPool,
    /// The framed records, 1-based targets of `FragmentRef` indices.
    pub records: Vec<FragmentRecord>,
}

impl View for Container {
    type V = ContainerView;

    open spec fn view(&self) -> ContainerView {
        ContainerView {
            version: self.version,
            pool: self.strings@,
            records: self.records@.map_values(|r: FragmentRecord| r@),
        }
    }
}

/// Parses a whole container file. Returns `Ok` exactly on the buffers the
/// format accepts: a correct magic tag, a pool and a record run within
/// bounds, every record parsable, and no bytes after the declared records.
#[verifier::loop_isolation(false)]
pub fn parse(data: &Vec<u8>) -> (r: Result<Container, ParseError>)
    ensures
        match r {
            Ok(c) => parse_container_spec(data@) == Some(c@) && container_wf(c@),
            Err(_) => parse_container_spec(data@) is None,
        },
        r matches Err(ParseError::BadMagic { found }) ==> data@.len() >= 16 && found == u32_at(
            data@,
            0,
        ) && found != CONTAINER_MAGIC,
        r matches Err(ParseError::TrailingBytes { offset, remaining }) ==> offset + remaining
            == data@.len() && remaining > 0,
{
    let n = data.len();
    if n < 16 {
        return Err(ParseError::Truncated { offset: 0, needed: 16, available: n });
    }
    let magic = read_u32(data, 0);
    if magic != CONTAINER_MAGIC {
        return Err(ParseError::BadMagic { found: magic });
    }
    let version = read_u32(data, 4);
    let count = read_u32(data, 8);
    let blob_len32 = read_u32(data, 12);
    let blob_len = blob_len32 as usize;
    if n - 16 < blob_len {
        return Err(ParseError::Truncated { offset: 16, needed: blob_len, available: n - 16 });
    }
    let raw = copy_range(data, 16, 16 + blob_len);
    let strings = StringPool::decode(&raw);
    let after_pool = 16 + blob_len;
    let ghost to_view = |x: FragmentRecord| x@;
    let mut records: Vec<FragmentRecord> = Vec::new();
    let mut pos: usize = after_pool;
    let mut i: u32 = 0;
    while i < count
        invariant
            i <= count,
            after_pool <= pos <= n,
            records@.len() == i,
            forall|k: int| 0 <= k < records@.len() ==> record_wf(#[trigger] records@[k]@),
            match parse_records_at(data@, pos as int, (count - i) as nat) {
                Some((rs, p)) => parse_records_at(data@, after_pool as int, count as nat) == Some(
                    (records@.map_values(to_view) + rs, p),
                ),
                None => parse_records_at(data@, after_pool as int, count as nat) is None,
            },
        decreases count - i,
    {
        match parse_record(data, pos) {
            Err(e) => {
                proof {
                    let m = (count - i) as nat;
                    assert(m > 0);
                    assert(parse_records_at(data@, pos as int, m) is None);
                    assert(parse_container_spec(data@) is None);
                }
                return Err(e);
            },
            Ok((rec, p2)) => {
                proof {
                    let m = (count - i) as nat;
                    let old_map = records@.map_values(to_view);
                    match parse_records_at(data@, p2 as int, (m - 1) as nat) {
                        Some((rs2, p3)) => {
                            assert(parse_records_at(data@, pos as int, m) == Some(
                                (seq![rec@] + rs2, p3),
                            ));
                            assert((old_map + (seq![rec@] + rs2)) =~= ((old_map + seq![rec@])
                                + rs2));
                            records@.lemma_push_map_commute(to_view, rec);
                            assert(to_view(rec) == rec@);
                            assert(old_map.push(rec@) =~= old_map + seq![rec@]);
                        },
                        None => {
                            assert(parse_records_at(data@, pos as int, m) is None);
                        },
                    }
                }
                records.push(rec);
                pos = p2;
                i = i + 1;
            },
        }
    }
    if pos != n {
        proof {
            assert(parse_records_at(data@, after_pool as int, count as nat) == Some(
                (records@.map_values(to_view), pos as int),
            )) by {
                assert(records@.map_values(to_view) + Seq::<FragmentRecordView>::empty()
                    =~= records@.map_values(to_view));
            }
        }
        return Err(ParseError::TrailingBytes { offset: pos, remaining: n - pos });
    }
    proof {
        assert(records@.map_values(to_view) + Seq::<FragmentRecordView>::empty()
            =~= records@.map_values(to_view));
        assert(raw@ == data@.subrange(16, 16 + blob_len as int));
    }
    Ok(Container { version, strings, records })
}

impl Container {
    /// The number of fragments in the list, equal to the header's declared
    /// count in a parsed container.
    pub fn fragment_count(&self) -> (n: usize)
        ensures
            n == self@.records.len(),
    {
        proof {
            assert(self@.records.len() == self.records@.len());
        }
        self.records.len()
    }

    /// The fragment at 0-based position `index` of the list, or `None` past
    /// the end.
    pub fn fragment(&self, index: usize) -> (r: Option<&Fragment>)
        ensures
            match r {
                Some(f) => index < self@.records.len() && f@ == self@.records[index as int].fragment,
                None => index >= self@.records.len(),
            },
    {
        if index < self.records.len() {
            proof {
                assert(self@.records[index as int] == self.records@[index as int]@);
            }
            Some(&self.records[index].fragment)
        } else {
            None
        }
    }

    /// Resolves a string reference against the pool: the decoded bytes of
    /// the referenced string (empty for the null, positive, or out-of-range
    /// offsets).
    pub fn resolve_string_bytes(&self, r: StringReference) -> (s: Vec<u8>)
        ensures
            s@ == resolve_spec(self@.pool, r.0 as int),
    {
        self.strings.resolve(r.0)
    }

    /// Resolves a string reference against the pool as text; an ASCII string
    /// (the usual case for this format) decodes to exactly its bytes.
    pub fn resolve_string(&self, r: StringReference) -> (s: String)
        ensures
            s@ == lossy_string_of(resolve_spec(self@.pool, r.0 as int)),
    {
        self.strings.resolve_string(r.0)
    }

    /// Serializes the container back to a file image: header, re-obfuscated
    /// blob, then every record.
    #[verifier::loop_isolation(false)]
    pub fn serialize(&self) -> (r: Vec<u8>)
        requires
            container_serializable(self@),
        ensures
            r@ == container_bytes(self@),
    {
        let ghost to_view = |x: FragmentRecord| x@;
        let ghost rvs = self.records@.map_values(to_view);
        let mut out: Vec<u8> = Vec::new();
        push_u32(&mut out, CONTAINER_MAGIC);
        push_u32(&mut out, self.version);
        push_u32(&mut out, self.records.len() as u32);
        let pool_len = self.strings.len();
        push_u32(&mut out, pool_len as u32);
        let mut blob = self.strings.encode();
        out.append(&mut blob);
        let ghost prefix = out@;
        proof {
            assert(records_bytes(rvs.take(0)) == Seq::<u8>::empty()) by {
                assert(rvs.take(0) =~= Seq::<FragmentRecordView>::empty());
            }
            assert(out@ =~= prefix + Seq::<u8>::empty());
        }
        let mut i: usize = 0;
        while i < self.records.len()
            invariant
                i <= self.records@.len(),
                out@ == prefix + records_bytes(rvs.take(i as int)),
            decreases self.records@.len() - i,
        {
            proof {
                assert(rvs[i as int] == self.records@[i as int]@);
            }
            serialize_record_into(&mut out, &self.records[i]);
            proof {
                lemma_records_bytes_push(rvs.take(i as int), rvs[i as int]);
                assert(rvs.take(i as int).push(rvs[i as int]) =~= rvs.take(i as int + 1));
                assert((prefix + records_bytes(rvs.take(i as int))) + record_bytes(rvs[i as int])
                    =~= prefix + (records_bytes(rvs.take(i as int)) + record_bytes(
                    rvs[i as int],
                )));
            }
            i = i + 1;
        }
        proof {
            assert(rvs.take(self.records@.len() as int) =~= rvs);
            assert(out@ =~= container_bytes(self@));
        }
        out
    }
}

} // verus!
