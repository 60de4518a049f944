//! The redo log.
//!
//! A committing transaction appends one DATA record per written
//! object, then a TXN_COMMIT marker keyed by its Tid. Records are
//! densely packed, little-endian: a 24-byte header (kind, payload
//! length, Tid, padding) followed by the payload. Replay walks the
//! stream from the base: a DATA record is authoritative exactly when
//! a TXN_COMMIT for its Tid follows it, and an authoritative payload
//! is copied into the object named by the externally reconstructed
//! binding table.

use vstd::prelude::*;

verus! {

use crate::txn::Tid;

pub const LOG_KIND_DATA: u16 = 0;

pub const LOG_KIND_TXN: u16 = 1;

/// Header size on the wire: kind (2) + payload length (8) + Tid (4),
/// padded to 24 bytes.
pub const LOG_HEADER_SIZE: usize = 24;

/// The two little-endian bytes of a 16-bit value.
pub open spec fn u16_le_bytes(v: u16) -> Seq<u8> {
    seq![(v & 0xff) as u8, ((v >> 8) & 0xff) as u8]
}

/// The 16-bit value read from two little-endian bytes.
pub open spec fn u16_from_le(b0: u8, b1: u8) -> u16 {
    (b0 as u16) | ((b1 as u16) << 8)
}

/// The four little-endian bytes of a 32-bit value.
pub open spec fn u32_le_bytes(v: u32) -> Seq<u8> {
    seq![
        (v & 0xff) as u8,
        ((v >> 8) & 0xff) as u8,
        ((v >> 16) & 0xff) as u8,
        ((v >> 24) & 0xff) as u8,
    ]
}

/// The 32-bit value read from four little-endian bytes.
pub open spec fn u32_from_le(b0: u8, b1: u8, b2: u8, b3: u8) -> u32 {
    (b0 as u32) | ((b1 as u32) << 8) | ((b2 as u32) << 16) | ((b3 as u32) << 24)
}

/// The eight little-endian bytes of a 64-bit value.
pub open spec fn u64_le_bytes(v: u64) -> Seq<u8> {
    seq![
        (v & 0xff) as u8,
        ((v >> 8) & 0xff) as u8,
        ((v >> 16) & 0xff) as u8,
        ((v >> 24) & 0xff) as u8,
        ((v >> 32) & 0xff) as u8,
        ((v >> 40) & 0xff) as u8,
        ((v >> 48) & 0xff) as u8,
        ((v >> 56) & 0xff) as u8,
    ]
}

/// The 64-bit value read from eight little-endian bytes.
pub open spec fn u64_from_le(
    b0: u8,
    b1: u8,
    b2: u8,
    b3: u8,
    b4: u8,
    b5: u8,
    b6: u8,
    b7: u8,
) -> u64 {
    (b0 as u64) | ((b1 as u64) << 8) | ((b2 as u64) << 16) | ((b3 as u64) << 24) | ((b4 as u64)
        << 32) | ((b5 as u64) << 40) | ((b6 as u64) << 48) | ((b7 as u64) << 56)
}

pub proof fn lemma_u16_le_roundtrip(v: u16)
    ensures
        u16_from_le(u16_le_bytes(v)[0], u16_le_bytes(v)[1]) == v,
{
    let b0 = (v & 0xff) as u8;
    let b1 = ((v >> 8) & 0xff) as u8;
    assert(((b0 as u16) | ((b1 as u16) << 8)) == v) by (bit_vector)
        requires
            b0 == (v & 0xff) as u8,
            b1 == ((v >> 8) & 0xff) as u8,
    ;
}

pub proof fn lemma_u32_le_roundtrip(v: u32)
    ensures
        u32_from_le(
            u32_le_bytes(v)[0],
            u32_le_bytes(v)[1],
            u32_le_bytes(v)[2],
            u32_le_bytes(v)[3],
        ) == v,
{
    let b0 = (v & 0xff) as u8;
    let b1 = ((v >> 8) & 0xff) as u8;
    let b2 = ((v >> 16) & 0xff) as u8;
    let b3 = ((v >> 24) & 0xff) as u8;
    assert(((b0 as u32) | ((b1 as u32) << 8) | ((b2 as u32) << 16) | ((b3 as u32) << 24)) == v)
        by (bit_vector)
        requires
            b0 == (v & 0xff) as u8,
            b1 == ((v >> 8) & 0xff) as u8,
            b2 == ((v >> 16) & 0xff) as u8,
            b3 == ((v >> 24) & 0xff) as u8,
    ;
}

pub proof fn lemma_u64_le_roundtrip(v: u64)
    ensures
        u64_from_le(
            u64_le_bytes(v)[0],
            u64_le_bytes(v)[1],
            u64_le_bytes(v)[2],
            u64_le_bytes(v)[3],
            u64_le_bytes(v)[4],
            u64_le_bytes(v)[5],
            u64_le_bytes(v)[6],
            u64_le_bytes(v)[7],
        ) == v,
{
    let b0 = (v & 0xff) as u8;
    let b1 = ((v >> 8) & 0xff) as u8;
    let b2 = ((v >> 16) & 0xff) as u8;
    let b3 = ((v >> 24) & 0xff) as u8;
    let b4 = ((v >> 32) & 0xff) as u8;
    let b5 = ((v >> 40) & 0xff) as u8;
    let b6 = ((v >> 48) & 0xff) as u8;
    let b7 = ((v >> 56) & 0xff) as u8;
    assert(((b0 as u64) | ((b1 as u64) << 8) | ((b2 as u64) << 16) | ((b3 as u64) << 24) | ((
    b4 as u64) << 32) | ((b5 as u64) << 40) | ((b6 as u64) << 48) | ((b7 as u64) << 56)) == v)
        by (bit_vector)
        requires
            b0 == (v & 0xff) as u8,
            b1 == ((v >> 8) & 0xff) as u8,
            b2 == ((v >> 16) & 0xff) as u8,
            b3 == ((v >> 24) & 0xff) as u8,
            b4 == ((v >> 32) & 0xff) as u8,
            b5 == ((v >> 40) & 0xff) as u8,
            b6 == ((v >> 48) & 0xff) as u8,
            b7 == ((v >> 56) & 0xff) as u8,
    ;
}

/// The 24 header bytes of one record.
pub open spec fn header_bytes(kind: u16, payload_len: u64, tid: u32) -> Seq<u8> {
    u16_le_bytes(kind) + u64_le_bytes(payload_len) + u32_le_bytes(tid) + seq![
        0u8,
        0u8,
        0u8,
        0u8,
        0u8,
        0u8,
        0u8,
        0u8,
        0u8,
        0u8,
    ]
}

/// The full wire image of one record: header then payload.
pub open spec fn rec_bytes(kind: u16, tid: u32, payload: Seq<u8>) -> Seq<u8> {
    header_bytes(kind, payload.len() as u64, tid) + payload
}

/// One decoded log record.
pub struct SpecRec {
    pub kind: u16,
    pub tid: u32,
    pub payload: Seq<u8>,
}

/// Parses the stream from `pos` to its end: a sequence of records, or
/// nothing if the tail is torn (a truncated header or payload).
pub open spec fn parse_from(bytes: Seq<u8>, pos: int) -> Option<Seq<SpecRec>>
    decreases bytes.len() - pos,
    when 0 <= pos <= bytes.len()
{
    if pos == bytes.len() {
        Some(Seq::empty())
    } else if pos + LOG_HEADER_SIZE > bytes.len() {
        None
    } else {
        let kind = u16_from_le(bytes[pos], bytes[pos + 1]);
        let plen = u64_from_le(
            bytes[pos + 2],
            bytes[pos + 3],
            bytes[pos + 4],
            bytes[pos + 5],
            bytes[pos + 6],
            bytes[pos + 7],
            bytes[pos + 8],
            bytes[pos + 9],
        );
        let tid = u32_from_le(bytes[pos + 10], bytes[pos + 11], bytes[pos + 12], bytes[pos + 13]);
        if pos + LOG_HEADER_SIZE + plen > bytes.len() {
            None
        } else {
            let payload = bytes.subrange(
                pos + LOG_HEADER_SIZE,
                pos + LOG_HEADER_SIZE + plen,
            );
            match parse_from(bytes, pos + LOG_HEADER_SIZE + plen) {
                Option::None => None,
                Option::Some(rest) => Some(
                    seq![SpecRec { kind: kind, tid: tid, payload: payload }] + rest,
                ),
            }
        }
    }
}

/// Parses a whole stream.
pub open spec fn spec_parse(bytes: Seq<u8>) -> Option<Seq<SpecRec>> {
    parse_from(bytes, 0)
}

} // verus!

verus! {

/// The records of a well-formed stream.
pub open spec fn parsed(bytes: Seq<u8>) -> Seq<SpecRec> {
    spec_parse(bytes)->0
}

/// Parsing from any mid-stream position never looks at bytes before
/// it, so extending the stream on the right leaves every earlier
/// record in place and appends what the extension parses to.
proof fn lemma_parse_from_append(bytes: Seq<u8>, ext: Seq<u8>, pos: int)
    requires
        0 <= pos <= bytes.len(),
        parse_from(bytes, pos) is Some,
        parse_from(bytes + ext, bytes.len() as int) is Some,
    ensures
        parse_from(bytes + ext, pos) == Some(
            parse_from(bytes, pos)->0 + parse_from(bytes + ext, bytes.len() as int)->0,
        ),
    decreases bytes.len() - pos,
{
    let all = bytes + ext;
    if pos == bytes.len() {
        assert(parse_from(bytes, pos)->0 =~= Seq::<SpecRec>::empty());
        assert(parse_from(all, pos)->0 =~= parse_from(bytes, pos)->0 + parse_from(
            all,
            bytes.len() as int,
        )->0);
    } else {
        assert(pos + LOG_HEADER_SIZE <= bytes.len());
        let plen = u64_from_le(
            bytes[pos + 2],
            bytes[pos + 3],
            bytes[pos + 4],
            bytes[pos + 5],
            bytes[pos + 6],
            bytes[pos + 7],
            bytes[pos + 8],
            bytes[pos + 9],
        );
        assert(pos + LOG_HEADER_SIZE + plen <= bytes.len());
        let next = pos + LOG_HEADER_SIZE + plen;
        assert(parse_from(bytes, next) is Some);
        lemma_parse_from_append(bytes, ext, next);
        assert(all.subrange(pos + LOG_HEADER_SIZE, pos + LOG_HEADER_SIZE + plen) =~= bytes
            .subrange(pos + LOG_HEADER_SIZE, pos + LOG_HEADER_SIZE + plen));
        assert(parse_from(all, pos)->0 =~= parse_from(bytes, pos)->0 + parse_from(
            all,
            bytes.len() as int,
        )->0);
    }
}

/// A tail that is exactly one whole record parses to that record.
proof fn lemma_parse_single_rec(s: Seq<u8>, pos: int, kind: u16, tid: u32, payload: Seq<u8>)
    requires
        0 <= pos,
        payload.len() <= u64::MAX,
        pos + LOG_HEADER_SIZE + payload.len() == s.len(),
        s.subrange(pos, s.len() as int) =~= rec_bytes(kind, tid, payload),
    ensures
        parse_from(s, pos) == Some(seq![SpecRec { kind: kind, tid: tid, payload: payload }]),
{
    let r = rec_bytes(kind, tid, payload);
    let plen_v = payload.len() as u64;
    lemma_u16_le_roundtrip(kind);
    lemma_u64_le_roundtrip(plen_v);
    lemma_u32_le_roundtrip(tid);
    assert forall|i: int| 0 <= i < r.len() implies s[pos + i] == r[i] by {
        assert(s.subrange(pos, s.len() as int)[i] == s[pos + i]);
    }
    let hb = header_bytes(kind, plen_v, tid);
    assert forall|i: int| 0 <= i < LOG_HEADER_SIZE implies r[i] == hb[i] by {
        assert(hb.len() == 24);
    }
    assert(hb[0] == u16_le_bytes(kind)[0]);
    assert(hb[1] == u16_le_bytes(kind)[1]);
    assert(hb[2] == u64_le_bytes(plen_v)[0]);
    assert(hb[3] == u64_le_bytes(plen_v)[1]);
    assert(hb[4] == u64_le_bytes(plen_v)[2]);
    assert(hb[5] == u64_le_bytes(plen_v)[3]);
    assert(hb[6] == u64_le_bytes(plen_v)[4]);
    assert(hb[7] == u64_le_bytes(plen_v)[5]);
    assert(hb[8] == u64_le_bytes(plen_v)[6]);
    assert(hb[9] == u64_le_bytes(plen_v)[7]);
    assert(hb[10] == u32_le_bytes(tid)[0]);
    assert(hb[11] == u32_le_bytes(tid)[1]);
    assert(hb[12] == u32_le_bytes(tid)[2]);
    assert(hb[13] == u32_le_bytes(tid)[3]);
    assert(s[pos + 0] == r[0]);
    assert(s[pos + 1] == r[1]);
    assert(s[pos + 2] == r[2]);
    assert(s[pos + 3] == r[3]);
    assert(s[pos + 4] == r[4]);
    assert(s[pos + 5] == r[5]);
    assert(s[pos + 6] == r[6]);
    assert(s[pos + 7] == r[7]);
    assert(s[pos + 8] == r[8]);
    assert(s[pos + 9] == r[9]);
    assert(s[pos + 10] == r[10]);
    assert(s[pos + 11] == r[11]);
    assert(s[pos + 12] == r[12]);
    assert(s[pos + 13] == r[13]);
    assert(s[pos] == u16_le_bytes(kind)[0]);
    assert(s[pos + 1] == u16_le_bytes(kind)[1]);
    assert(u16_from_le(s[pos], s[pos + 1]) == kind);
    assert(s[pos + 2] == u64_le_bytes(plen_v)[0]);
    assert(s[pos + 3] == u64_le_bytes(plen_v)[1]);
    assert(s[pos + 4] == u64_le_bytes(plen_v)[2]);
    assert(s[pos + 5] == u64_le_bytes(plen_v)[3]);
    assert(s[pos + 6] == u64_le_bytes(plen_v)[4]);
    assert(s[pos + 7] == u64_le_bytes(plen_v)[5]);
    assert(s[pos + 8] == u64_le_bytes(plen_v)[6]);
    assert(s[pos + 9] == u64_le_bytes(plen_v)[7]);
    assert(u64_from_le(
        s[pos + 2],
        s[pos + 3],
        s[pos + 4],
        s[pos + 5],
        s[pos + 6],
        s[pos + 7],
        s[pos + 8],
        s[pos + 9],
    ) == plen_v);
    assert(s[pos + 10] == u32_le_bytes(tid)[0]);
    assert(s[pos + 11] == u32_le_bytes(tid)[1]);
    assert(s[pos + 12] == u32_le_bytes(tid)[2]);
    assert(s[pos + 13] == u32_le_bytes(tid)[3]);
    assert(u32_from_le(s[pos + 10], s[pos + 11], s[pos + 12], s[pos + 13]) == tid);
    let sub = s.subrange(pos + LOG_HEADER_SIZE, pos + LOG_HEADER_SIZE + plen_v);
    assert(sub.len() == payload.len());
    assert forall|i: int| 0 <= i < payload.len() implies sub[i] == payload[i] by {
        assert(sub[i] == s[pos + LOG_HEADER_SIZE + i]);
        assert(s[pos + (LOG_HEADER_SIZE + i)] == r[LOG_HEADER_SIZE + i]);
        assert(r[LOG_HEADER_SIZE + i] == payload[i]);
    }
    assert(sub =~= payload);
    assert(parse_from(s, s.len() as int) == Some(Seq::<SpecRec>::empty()));
    assert(parse_from(s, pos)->0 =~= seq![SpecRec { kind: kind, tid: tid, payload: payload }]);
}

/// Appending one whole record to a well-formed stream keeps it
/// well-formed and appends exactly that record to what it parses to.
pub proof fn lemma_parse_append(bytes: Seq<u8>, kind: u16, tid: u32, payload: Seq<u8>)
    requires
        spec_parse(bytes) is Some,
        payload.len() <= u64::MAX,
    ensures
        spec_parse(bytes + rec_bytes(kind, tid, payload)) is Some,
        parsed(bytes + rec_bytes(kind, tid, payload)) == parsed(bytes).push(
            SpecRec { kind: kind, tid: tid, payload: payload },
        ),
{
    let ext = rec_bytes(kind, tid, payload);
    let all = bytes + ext;
    assert(all.subrange(bytes.len() as int, all.len() as int) =~= ext);
    lemma_parse_single_rec(all, bytes.len() as int, kind, tid, payload);
    lemma_parse_from_append(bytes, ext, 0);
    assert(parsed(all) =~= parsed(bytes).push(SpecRec { kind: kind, tid: tid, payload: payload }));
}

} // verus!

verus! {

/// The header of one log record as built in memory.
#[derive(Debug, Clone, Copy)]
pub struct PLogHeader {
    pub log_kind: u16,
    pub len: u64,
    pub txn_id: u32,
}

/// The payload of one DATA record: the object's byte image and the
/// binding to the object it belongs to.
#[derive(Debug)]
pub struct PLogData {
    pub oid: u64,
    pub bytes: Vec<u8>,
}

/// One log record ready to append: header and payload.
#[derive(Debug)]
pub struct PLog {
    pub header: PLogHeader,
    pub data: PLogData,
}

impl PLog {
    /// The header's length field agrees with the payload.
    pub open spec fn wf(self) -> bool {
        self.header.len == self.data.bytes@.len()
    }

    /// The record seen by the parser.
    pub open spec fn spec_rec(self) -> SpecRec {
        SpecRec { kind: self.header.log_kind, tid: self.header.txn_id, payload: self.data.bytes@ }
    }

    /// A DATA record carrying one object's byte image.
    pub fn new(bytes: Vec<u8>, oid: u64, id: Tid) -> (p: PLog)
        ensures
            p.wf(),
            p.header.log_kind == LOG_KIND_DATA,
            p.header.txn_id == id.spec_value(),
            p.data.bytes@ == bytes@,
            p.data.oid == oid,
    {
        let n: u64 = bytes.len() as u64;
        PLog {
            header: PLogHeader { log_kind: LOG_KIND_DATA, len: n, txn_id: id.value() },
            data: PLogData { oid: oid, bytes: bytes },
        }
    }
}

/// The append-only redo-log stream, with the object-binding table the
/// replayer reconstructs from the ObjectId table: one binding per
/// record (markers bind to 0).
#[derive(Debug)]
pub struct NvmLog {
    pub bytes: Vec<u8>,
    pub binds: Vec<u64>,
}

impl NvmLog {
    /// The stream parses whole and every record has its binding.
    pub open spec fn wf(self) -> bool {
        &&& spec_parse(self.bytes@) is Some
        &&& self.binds@.len() == parsed(self.bytes@).len()
    }

    /// The records the stream parses to.
    pub open spec fn recs(self) -> Seq<SpecRec> {
        parsed(self.bytes@)
    }

    pub fn new() -> (log: NvmLog)
        ensures
            log.wf(),
            log.recs() == Seq::<SpecRec>::empty(),
            log.binds@ == Seq::<u64>::empty(),
    {
        let log = NvmLog { bytes: Vec::new(), binds: Vec::new() };
        proof {
            assert(log.recs() =~= Seq::<SpecRec>::empty());
        }
        log
    }
}

/// Appends the little-endian wire image of one header.
fn append_header(out: &mut Vec<u8>, kind: u16, plen: u64, tid: u32)
    ensures
        final(out)@ == old(out)@ + header_bytes(kind, plen, tid),
{
    out.push((kind & 0xff) as u8);
    out.push(((kind >> 8) & 0xff) as u8);
    out.push((plen & 0xff) as u8);
    out.push(((plen >> 8) & 0xff) as u8);
    out.push(((plen >> 16) & 0xff) as u8);
    out.push(((plen >> 24) & 0xff) as u8);
    out.push(((plen >> 32) & 0xff) as u8);
    out.push(((plen >> 40) & 0xff) as u8);
    out.push(((plen >> 48) & 0xff) as u8);
    out.push(((plen >> 56) & 0xff) as u8);
    out.push((tid & 0xff) as u8);
    out.push(((tid >> 8) & 0xff) as u8);
    out.push(((tid >> 16) & 0xff) as u8);
    out.push(((tid >> 24) & 0xff) as u8);
    let mut i: usize = 0;
    while i < 10
        invariant
            i <= 10,
            out@.len() == old(out)@.len() + 14 + i,
            out@ == old(out)@ + header_bytes(kind, plen, tid).subrange(0, 14 + i),
        decreases 10 - i,
    {
        proof {
            assert(header_bytes(kind, plen, tid)[14 + i] == 0u8);
            assert(header_bytes(kind, plen, tid).subrange(0, 14 + i as int + 1)
                =~= header_bytes(kind, plen, tid).subrange(0, 14 + i as int).push(0u8));
        }
        out.push(0u8);
        i = i + 1;
    }
    proof {
        assert(header_bytes(kind, plen, tid).subrange(0, 24) =~= header_bytes(kind, plen, tid));
    }
}

/// Appends all of `src` to `out`.
fn append_bytes(out: &mut Vec<u8>, src: &Vec<u8>)
    ensures
        final(out)@ == old(out)@ + src@,
{
    let mut i: usize = 0;
    while i < src.len()
        invariant
            i <= src@.len(),
            out@ == old(out)@ + src@.subrange(0, i as int),
        decreases src@.len() - i,
    {
        proof {
            assert(src@.subrange(0, i as int + 1) =~= src@.subrange(0, i as int).push(
                src@[i as int]));
        }
        out.push(src[i]);
        i = i + 1;
    }
    proof {
        assert(src@.subrange(0, src@.len() as int) =~= src@);
    }
}

/// Appends one whole record (header, then payload) to the stream and
/// its binding to the binding table.
fn append_rec(log: &mut NvmLog, kind: u16, tid: u32, payload: &Vec<u8>, bind: u64)
    requires
        old(log).wf(),
    ensures
        final(log).wf(),
        final(log).recs() == old(log).recs().push(
            SpecRec { kind: kind, tid: tid, payload: payload@ },
        ),
        final(log).binds@ == old(log).binds@.push(bind),
    {
    let plen: u64 = payload.len() as u64;
    proof {
        lemma_parse_append(log.bytes@, kind, tid, payload@);
    }
    append_header(&mut log.bytes, kind, plen, tid);
    append_bytes(&mut log.bytes, payload);
    log.binds.push(bind);
    proof {
        assert(log.bytes@ =~= old(log).bytes@ + rec_bytes(kind, tid, payload@));
    }
}

/// Appends one DATA record per buffered write, as one scatter/gather
/// append to the stream.
pub fn persist_log(log: &mut NvmLog, logs: &Vec<PLog>)
    requires
        old(log).wf(),
        forall|i: int| 0 <= i < logs@.len() ==> (#[trigger] logs@[i]).wf(),
    ensures
        final(log).wf(),
        final(log).recs() == old(log).recs() + logs@.map(|i: int, p: PLog| p.spec_rec()),
        final(log).binds@ == old(log).binds@ + logs@.map(|i: int, p: PLog| p.data.oid),
{
    let ghost recs0 = log.recs();
    let ghost binds0 = log.binds@;
    let mut i: usize = 0;
    while i < logs.len()
        invariant
            log.wf(),
            i <= logs@.len(),
            forall|k: int| 0 <= k < logs@.len() ==> (#[trigger] logs@[k]).wf(),
            log.recs() == recs0 + logs@.subrange(0, i as int).map(|k: int, p: PLog| p.spec_rec()),
            log.binds@ == binds0 + logs@.subrange(0, i as int).map(|k: int, p: PLog| p.data.oid),
        decreases logs@.len() - i,
    {
        let p: &PLog = &logs[i];
        append_rec(log, p.header.log_kind, p.header.txn_id, &p.data.bytes, p.data.oid);
        proof {
            assert(logs@.subrange(0, i as int + 1).map(|k: int, q: PLog| q.spec_rec()) =~= logs@
                .subrange(0, i as int).map(|k: int, q: PLog| q.spec_rec()).push(logs@[i as int].spec_rec()));
            assert(logs@.subrange(0, i as int + 1).map(|k: int, q: PLog| q.data.oid) =~= logs@
                .subrange(0, i as int).map(|k: int, q: PLog| q.data.oid).push(logs@[i as int].data.oid));
        }
        i = i + 1;
    }
    proof {
        assert(logs@.subrange(0, logs@.len() as int) =~= logs@);
    }
}

/// Appends the durable TXN_COMMIT marker of one transaction: kind 1,
/// a 4-byte payload holding the Tid itself.
pub fn persist_txn(log: &mut NvmLog, id: u32)
    requires
        old(log).wf(),
    ensures
        final(log).wf(),
        final(log).recs() == old(log).recs().push(
            SpecRec { kind: LOG_KIND_TXN, tid: id, payload: u32_le_bytes(id) },
        ),
        final(log).binds@ == old(log).binds@.push(0),
{
    let mut payload: Vec<u8> = Vec::new();
    payload.push((id & 0xff) as u8);
    payload.push(((id >> 8) & 0xff) as u8);
    payload.push(((id >> 16) & 0xff) as u8);
    payload.push(((id >> 24) & 0xff) as u8);
    proof {
        assert(payload@ =~= u32_le_bytes(id));
    }
    append_rec(log, LOG_KIND_TXN, id, &payload, 0);
}

} // verus!

verus! {

/// Whether the record at `i` is an authoritative DATA record: a
/// TXN_COMMIT marker for its Tid stands somewhere after it.
pub open spec fn authoritative(recs: Seq<SpecRec>, i: int) -> bool {
    &&& 0 <= i < recs.len()
    &&& recs[i].kind == LOG_KIND_DATA
    &&& exists|j: int|
        i < j < recs.len() && (#[trigger] recs[j]).kind == LOG_KIND_TXN && recs[j].tid
            == recs[i].tid
}

/// Replays the records from position `i` on into the state: each
/// authoritative DATA payload is copied into the object its binding
/// names, in log order.
pub open spec fn replay_from(
    recs: Seq<SpecRec>,
    binds: Seq<u64>,
    i: int,
    st: Map<u64, Seq<u8>>,
) -> Map<u64, Seq<u8>>
    decreases recs.len() - i,
    when 0 <= i <= recs.len()
{
    if i >= recs.len() {
        st
    } else {
        let st2 = if authoritative(recs, i) {
            st.insert(binds[i], recs[i].payload)
        } else {
            st
        };
        replay_from(recs, binds, i + 1, st2)
    }
}

/// The authoritative state recovered by replaying a whole log over a
/// prior state.
pub open spec fn spec_replay(
    recs: Seq<SpecRec>,
    binds: Seq<u64>,
    st: Map<u64, Seq<u8>>,
) -> Map<u64, Seq<u8>> {
    replay_from(recs, binds, 0, st)
}

/// The objects that some authoritative record at or after `i` writes.
pub open spec fn written_after(recs: Seq<SpecRec>, binds: Seq<u64>, i: int) -> Set<u64> {
    Set::new(
        |oid: u64|
            exists|k: int|
                i <= k < recs.len() && #[trigger] authoritative(recs, k) && binds[k] == oid,
    )
}

/// The two states agree on every object outside `w`.
pub open spec fn agree_off(st1: Map<u64, Seq<u8>>, st2: Map<u64, Seq<u8>>, w: Set<u64>) -> bool {
    forall|oid: u64|
        !(#[trigger] w.contains(oid)) ==> {
            &&& st1.dom().contains(oid) <==> st2.dom().contains(oid)
            &&& st1.dom().contains(oid) ==> st1[oid] == st2[oid]
        }
}

/// Replay writes only through the bindings of authoritative records:
/// two prior states that agree outside those objects replay to the
/// same state.
proof fn lemma_replay_depends_off_writes(
    recs: Seq<SpecRec>,
    binds: Seq<u64>,
    i: int,
    st1: Map<u64, Seq<u8>>,
    st2: Map<u64, Seq<u8>>,
)
    requires
        0 <= i <= recs.len(),
        agree_off(st1, st2, written_after(recs, binds, i)),
    ensures
        replay_from(recs, binds, i, st1) == replay_from(recs, binds, i, st2),
    decreases recs.len() - i,
{
    let w = written_after(recs, binds, i);
    let w1 = written_after(recs, binds, i + 1);
    if i >= recs.len() {
        assert forall|oid: u64| st1.dom().contains(oid) implies st2.dom().contains(oid) by {
            assert(!w.contains(oid));
        }
        assert forall|oid: u64| st2.dom().contains(oid) implies st1.dom().contains(oid) by {
            assert(!w.contains(oid));
        }
        assert forall|oid: u64| st1.dom().contains(oid) implies st1[oid] == st2[oid] by {
            assert(!w.contains(oid));
        }
        assert(st1 =~= st2);
    } else if authoritative(recs, i) {
        let st1n = st1.insert(binds[i], recs[i].payload);
        let st2n = st2.insert(binds[i], recs[i].payload);
        assert forall|oid: u64| !(#[trigger] w1.contains(oid)) implies {
            &&& st1n.dom().contains(oid) <==> st2n.dom().contains(oid)
            &&& st1n.dom().contains(oid) ==> st1n[oid] == st2n[oid]
        } by {
            if oid != binds[i] {
                assert(!w.contains(oid));
            }
        }
        lemma_replay_depends_off_writes(recs, binds, i + 1, st1n, st2n);
    } else {
        assert forall|oid: u64| !(#[trigger] w1.contains(oid)) implies {
            &&& st1.dom().contains(oid) <==> st2.dom().contains(oid)
            &&& st1.dom().contains(oid) ==> st1[oid] == st2[oid]
        } by {
            assert(!w.contains(oid));
        }
        lemma_replay_depends_off_writes(recs, binds, i + 1, st1, st2);
    }
}

/// Outside the objects that replay writes, the state comes through
/// unchanged.
proof fn lemma_replay_preserves_off_writes(
    recs: Seq<SpecRec>,
    binds: Seq<u64>,
    i: int,
    st: Map<u64, Seq<u8>>,
    oid: u64,
)
    requires
        0 <= i <= recs.len(),
        !written_after(recs, binds, i).contains(oid),
    ensures
        replay_from(recs, binds, i, st).dom().contains(oid) <==> st.dom().contains(oid),
        st.dom().contains(oid) ==> replay_from(recs, binds, i, st)[oid] == st[oid],
    decreases recs.len() - i,
{
    if i < recs.len() {
        if authoritative(recs, i) {
            assert(binds[i] != oid);
            let stn = st.insert(binds[i], recs[i].payload);
            assert(!written_after(recs, binds, i + 1).contains(oid));
            lemma_replay_preserves_off_writes(recs, binds, i + 1, stn, oid);
        } else {
            assert(!written_after(recs, binds, i + 1).contains(oid));
            lemma_replay_preserves_off_writes(recs, binds, i + 1, st, oid);
        }
    }
}

/// Log-replay idempotence: replaying the log a second time over the
/// state the first replay produced changes nothing, so recovery may
/// run the log any number of times.
pub proof fn lemma_replay_idempotent(recs: Seq<SpecRec>, binds: Seq<u64>, st: Map<u64, Seq<u8>>)
    ensures
        spec_replay(recs, binds, spec_replay(recs, binds, st)) == spec_replay(recs, binds, st),
{
    let once = spec_replay(recs, binds, st);
    let w = written_after(recs, binds, 0);
    assert forall|oid: u64| !(#[trigger] w.contains(oid)) implies {
        &&& once.dom().contains(oid) <==> st.dom().contains(oid)
        &&& once.dom().contains(oid) ==> once[oid] == st[oid]
    } by {
        lemma_replay_preserves_off_writes(recs, binds, 0, st, oid);
    }
    lemma_replay_depends_off_writes(recs, binds, 0, once, st);
}

/// Once an object is in the state, no amount of further replay
/// removes it.
proof fn lemma_replay_keeps_dom(
    recs: Seq<SpecRec>,
    binds: Seq<u64>,
    i: int,
    st: Map<u64, Seq<u8>>,
    oid: u64,
)
    requires
        0 <= i <= recs.len(),
        st.dom().contains(oid),
    ensures
        replay_from(recs, binds, i, st).dom().contains(oid),
    decreases recs.len() - i,
{
    if i < recs.len() {
        if authoritative(recs, i) {
            lemma_replay_keeps_dom(recs, binds, i + 1, st.insert(binds[i], recs[i].payload), oid);
        } else {
            lemma_replay_keeps_dom(recs, binds, i + 1, st, oid);
        }
    }
}

/// An authoritative record reaches the replayed state: its object is
/// recovered, and when no later authoritative record overwrites the
/// same object, the recovered bytes are exactly its payload.
proof fn lemma_replay_applies(
    recs: Seq<SpecRec>,
    binds: Seq<u64>,
    i0: int,
    m: int,
    st: Map<u64, Seq<u8>>,
)
    requires
        0 <= i0 <= m < recs.len(),
        authoritative(recs, m),
    ensures
        replay_from(recs, binds, i0, st).dom().contains(binds[m]),
        (forall|k: int|
            m < k < recs.len() && #[trigger] authoritative(recs, k) ==> binds[k] != binds[m])
            ==> replay_from(recs, binds, i0, st)[binds[m]] == recs[m].payload,
    decreases m - i0,
{
    if i0 == m {
        let stn = st.insert(binds[m], recs[m].payload);
        lemma_replay_keeps_dom(recs, binds, m + 1, stn, binds[m]);
        if forall|k: int|
            m < k < recs.len() && #[trigger] authoritative(recs, k) ==> binds[k] != binds[m] {
            assert(!written_after(recs, binds, m + 1).contains(binds[m]));
            lemma_replay_preserves_off_writes(recs, binds, m + 1, stn, binds[m]);
        }
    } else {
        if authoritative(recs, i0) {
            lemma_replay_applies(recs, binds, i0 + 1, m, st.insert(binds[i0], recs[i0].payload));
        } else {
            lemma_replay_applies(recs, binds, i0 + 1, m, st);
        }
    }
}

/// Durability after the marker: when a TXN_COMMIT for some Tid stands
/// in the log, every DATA record of that Tid before it is
/// authoritative and is recovered by replay — its object is in the
/// replayed state, and where it is the last authoritative write to
/// that object the recovered bytes are its payload.
pub proof fn lemma_durability_after_marker(
    recs: Seq<SpecRec>,
    binds: Seq<u64>,
    st: Map<u64, Seq<u8>>,
    i: int,
    j: int,
)
    requires
        0 <= i < j < recs.len(),
        recs[i].kind == LOG_KIND_DATA,
        recs[j].kind == LOG_KIND_TXN,
        recs[j].tid == recs[i].tid,
    ensures
        authoritative(recs, i),
        spec_replay(recs, binds, st).dom().contains(binds[i]),
        (forall|k: int|
            i < k < recs.len() && #[trigger] authoritative(recs, k) ==> binds[k] != binds[i])
            ==> spec_replay(recs, binds, st)[binds[i]] == recs[i].payload,
{
    assert(authoritative(recs, i));
    lemma_replay_applies(recs, binds, 0, i, st);
}

} // verus!

verus! {

/// The association of object identifiers to byte images that a
/// sequence of keys and values represents; later entries win.
pub open spec fn kv_map(keys: Seq<u64>, vals: Seq<Seq<u8>>) -> Map<u64, Seq<u8>>
    decreases keys.len(),
    when keys.len() == vals.len()
{
    if keys.len() == 0 {
        Map::empty()
    } else {
        kv_map(keys.drop_last(), vals.drop_last()).insert(keys.last(), vals.last())
    }
}

/// The authoritative state rebuilt by replay: one byte image per
/// recovered object.
#[derive(Debug)]
pub struct RecoveredState {
    pub keys: Vec<u64>,
    pub vals: Vec<Vec<u8>>,
}

impl RecoveredState {
    pub open spec fn wf(self) -> bool {
        &&& self.keys@.len() == self.vals@.len()
        &&& forall|a: int, b: int|
            0 <= a < b < self.keys@.len() ==> self.keys@[a] != self.keys@[b]
    }

    pub open spec fn as_map(self) -> Map<u64, Seq<u8>> {
        kv_map(self.keys@, self.vals@.map(|i: int, v: Vec<u8>| v@))
    }

    pub fn new() -> (st: RecoveredState)
        ensures
            st.wf(),
            st.as_map() == Map::<u64, Seq<u8>>::empty(),
    {
        RecoveredState { keys: Vec::new(), vals: Vec::new() }
    }
}

/// Looking a key up in the association equals scanning it: a present
/// key maps to the value at its (unique) position, an absent key is
/// not in the domain.
proof fn lemma_kv_map_get(keys: Seq<u64>, vals: Seq<Seq<u8>>, k: u64)
    requires
        keys.len() == vals.len(),
        forall|a: int, b: int| 0 <= a < b < keys.len() ==> keys[a] != keys[b],
    ensures
        kv_map(keys, vals).dom().contains(k) <==> keys.contains(k),
        forall|i: int| 0 <= i < keys.len() && keys[i] == k ==> kv_map(keys, vals)[k] == vals[i],
    decreases keys.len(),
{
    if keys.len() > 0 {
        lemma_kv_map_get(keys.drop_last(), vals.drop_last(), k);
        if keys.last() == k {
            assert(keys.contains(k)) by {
                assert(keys[keys.len() - 1] == k);
            }
            assert forall|i: int| 0 <= i < keys.len() && keys[i] == k implies kv_map(keys, vals)[k]
                == vals[i] by {
                assert(i == keys.len() - 1);
            }
        } else {
            assert(keys.contains(k) <==> keys.drop_last().contains(k)) by {
                if keys.contains(k) {
                    let w = choose|w: int| 0 <= w < keys.len() && keys[w] == k;
                    assert(w < keys.len() - 1);
                    assert(keys.drop_last()[w] == k);
                }
                if keys.drop_last().contains(k) {
                    let w = choose|w: int| 0 <= w < keys.len() - 1 && keys.drop_last()[w] == k;
                    assert(keys[w] == k);
                }
            }
            assert forall|i: int| 0 <= i < keys.len() && keys[i] == k implies kv_map(keys, vals)[k]
                == vals[i] by {
                assert(i < keys.len() - 1);
                assert(keys.drop_last()[i] == k);
                assert(keys.drop_last().contains(k));
            }
        }
    }
}

/// Updating the value at a key's position updates the association at
/// that key alone.
proof fn lemma_kv_map_update(keys: Seq<u64>, vals: Seq<Seq<u8>>, i: int, v: Seq<u8>)
    requires
        keys.len() == vals.len(),
        forall|a: int, b: int| 0 <= a < b < keys.len() ==> keys[a] != keys[b],
        0 <= i < keys.len(),
    ensures
        kv_map(keys, vals.update(i, v)) == kv_map(keys, vals).insert(keys[i], v),
    decreases keys.len(),
{
    if i == keys.len() - 1 {
        assert(vals.update(i, v).drop_last() =~= vals.drop_last());
        assert(vals.update(i, v).last() == v);
        assert(kv_map(keys, vals.update(i, v)) =~= kv_map(keys, vals).insert(keys[i], v));
    } else {
        assert(vals.update(i, v).drop_last() =~= vals.drop_last().update(i, v));
        assert(vals.update(i, v).last() == vals.last());
        lemma_kv_map_update(keys.drop_last(), vals.drop_last(), i, v);
        assert(keys.drop_last()[i] == keys[i]);
        assert(kv_map(keys, vals.update(i, v)) =~= kv_map(keys, vals).insert(keys[i], v));
    }
}

impl RecoveredState {
    /// The recovered byte image of one object, if the state holds it.
    #[verifier::loop_isolation(false)]
    pub fn get(&self, oid: u64) -> (r: Option<&Vec<u8>>)
        requires
            self.wf(),
        ensures
            match r {
                Option::Some(v) => self.as_map().dom().contains(oid) && v@ == self.as_map()[oid],
                Option::None => !self.as_map().dom().contains(oid),
            },
    {
        proof {
            lemma_kv_map_get(self.keys@, self.vals@.map(|i: int, v: Vec<u8>| v@), oid);
        }
        let mut i: usize = 0;
        while i < self.keys.len()
            invariant
                self.wf(),
                i <= self.keys@.len(),
                forall|a: int| 0 <= a < i ==> self.keys@[a] != oid,
            decreases self.keys@.len() - i,
        {
            if self.keys[i] == oid {
                proof {
                    assert(self.keys@[i as int] == oid);
                    assert(self.keys@.contains(oid));
                    assert(self.vals@.map(|k: int, v: Vec<u8>| v@)[i as int] == self.vals@[
                        i as int]@);
                }
                return Some(&self.vals[i]);
            }
            i = i + 1;
        }
        proof {
            if self.keys@.contains(oid) {
                let w = choose|w: int| 0 <= w < self.keys@.len() && self.keys@[w] == oid;
                assert(false);
            }
        }
        None
    }

    /// Copies one object's bytes into the state, replacing what was
    /// there.
    #[verifier::loop_isolation(false)]
    pub fn set(&mut self, oid: u64, bytes: Vec<u8>)
        requires
            old(self).wf(),
        ensures
            final(self).wf(),
            final(self).as_map() == old(self).as_map().insert(oid, bytes@),
    {
        let ghost vspec = self.vals@.map(|i: int, v: Vec<u8>| v@);
        let mut i: usize = 0;
        while i < self.keys.len()
            invariant
                self.wf(),
                *self == *old(self),
                i <= self.keys@.len(),
                forall|a: int| 0 <= a < i ==> self.keys@[a] != oid,
            decreases self.keys@.len() - i,
        {
            if self.keys[i] == oid {
                proof {
                    assert(self.keys@[i as int] == oid);
                    assert(vspec.len() == self.keys@.len());
                    lemma_kv_map_update(self.keys@, vspec, i as int, bytes@);
                    lemma_kv_map_get(self.keys@, vspec, oid);
                }
                self.vals.set(i, bytes);
                proof {
                    assert(self.vals@.map(|k: int, v: Vec<u8>| v@) =~= vspec.update(
                        i as int,
                        bytes@,
                    ));
                }
                return;
            }
            i = i + 1;
        }
        self.keys.push(oid);
        self.vals.push(bytes);
        proof {
            assert(self.keys@.drop_last() =~= old(self).keys@);
            assert(self.vals@.map(|k: int, v: Vec<u8>| v@).drop_last() =~= vspec);
            assert(self.vals@.map(|k: int, v: Vec<u8>| v@).last() == bytes@);
            assert forall|a: int, b: int|
                0 <= a < b < self.keys@.len() implies self.keys@[a] != self.keys@[b] by {
                if b == self.keys@.len() - 1 {
                    assert(self.keys@[a] != oid);
                }
            }
        }
    }
}

} // verus!

verus! {

/// One record decoded off the wire.
#[derive(Debug)]
pub struct DecodedRec {
    pub kind: u16,
    pub tid: u32,
    pub payload: Vec<u8>,
}

/// The decoded records as the parser sees them.
pub open spec fn drecs_spec(entries: Seq<DecodedRec>) -> Seq<SpecRec> {
    entries.map(
        |i: int, e: DecodedRec| SpecRec { kind: e.kind, tid: e.tid, payload: e.payload@ },
    )
}

fn load_u16_le(b: &Vec<u8>, pos: usize) -> (r: u16)
    requires
        pos + 2 <= b@.len(),
    ensures
        r == u16_from_le(b@[pos as int], b@[pos + 1]),
{
    let _n: usize = b.len();
    (b[pos] as u16) | ((b[pos + 1] as u16) << 8)
}

fn load_u32_le(b: &Vec<u8>, pos: usize) -> (r: u32)
    requires
        pos + 4 <= b@.len(),
    ensures
        r == u32_from_le(b@[pos as int], b@[pos + 1], b@[pos + 2], b@[pos + 3]),
{
    let _n: usize = b.len();
    (b[pos] as u32) | ((b[pos + 1] as u32) << 8) | ((b[pos + 2] as u32) << 16) | ((b[pos
        + 3] as u32) << 24)
}

fn load_u64_le(b: &Vec<u8>, pos: usize) -> (r: u64)
    requires
        pos + 8 <= b@.len(),
    ensures
        r == u64_from_le(
            b@[pos as int],
            b@[pos + 1],
            b@[pos + 2],
            b@[pos + 3],
            b@[pos + 4],
            b@[pos + 5],
            b@[pos + 6],
            b@[pos + 7],
        ),
{
    let _n: usize = b.len();
    (b[pos] as u64) | ((b[pos + 1] as u64) << 8) | ((b[pos + 2] as u64) << 16) | ((b[pos
        + 3] as u64) << 24) | ((b[pos + 4] as u64) << 32) | ((b[pos + 5] as u64) << 40) | ((b[pos
        + 6] as u64) << 48) | ((b[pos + 7] as u64) << 56)
}

/// A fresh copy of `n` bytes of `b` starting at `start`.
#[verifier::loop_isolation(false)]
pub fn copy_range(b: &Vec<u8>, start: usize, n: usize) -> (r: Vec<u8>)
    requires
        start + n <= b@.len(),
    ensures
        r@ == b@.subrange(start as int, start + n),
{
    let _total: usize = b.len();
    let mut out: Vec<u8> = Vec::new();
    let mut i: usize = 0;
    while i < n
        invariant
            i <= n,
            out@ == b@.subrange(start as int, start + i),
        decreases n - i,
    {
        proof {
            assert(b@.subrange(start as int, start + i + 1) =~= b@.subrange(
                start as int,
                start + i,
            ).push(b@[start + i]));
        }
        out.push(b[start + i]);
        i = i + 1;
    }
    out
}

/// Replays a log stream over a prior state: decodes the records,
/// then copies every authoritative DATA payload into the object its
/// binding names, in log order. Returns false — and leaves the state
/// untouched — when the stream's tail is torn or a binding is
/// missing.
#[verifier::loop_isolation(false)]
pub fn replay(bytes: &Vec<u8>, binds: &Vec<u64>, state: &mut RecoveredState) -> (ok: bool)
    requires
        old(state).wf(),
    ensures
        final(state).wf(),
        ok == (spec_parse(bytes@) is Some && binds@.len() == parsed(bytes@).len()),
        ok ==> final(state).as_map() == spec_replay(parsed(bytes@), binds@, old(state).as_map()),
        !ok ==> *final(state) == *old(state),
{
    let mut entries: Vec<DecodedRec> = Vec::new();
    let mut pos: usize = 0;
    while pos < bytes.len()
        invariant
            pos <= bytes@.len(),
            parse_from(bytes@, pos as int) is Some ==> parse_from(bytes@, 0) == Some(
                drecs_spec(entries@) + parse_from(bytes@, pos as int)->0,
            ),
            parse_from(bytes@, pos as int) is None ==> parse_from(bytes@, 0) is None,
        decreases bytes@.len() - pos,
    {
        if bytes.len() - pos < LOG_HEADER_SIZE {
            return false;
        }
        let kind: u16 = load_u16_le(bytes, pos);
        let plen64: u64 = load_u64_le(bytes, pos + 2);
        let tid: u32 = load_u32_le(bytes, pos + 10);
        let remaining: usize = bytes.len() - pos - LOG_HEADER_SIZE;
        if plen64 > (remaining as u64) {
            return false;
        }
        let plen: usize = plen64 as usize;
        let payload: Vec<u8> = copy_range(bytes, pos + LOG_HEADER_SIZE, plen);
        let ghost rec = SpecRec { kind: kind, tid: tid, payload: payload@ };
        let ghost entries0 = entries@;
        entries.push(DecodedRec { kind: kind, tid: tid, payload: payload });
        proof {
            assert(drecs_spec(entries@) =~= drecs_spec(entries0).push(rec));
            let next = pos + LOG_HEADER_SIZE + plen64;
            if parse_from(bytes@, next as int) is Some {
                assert(parse_from(bytes@, pos as int) == Some(
                    seq![rec] + parse_from(bytes@, next as int)->0,
                ));
                assert(drecs_spec(entries0) + (seq![rec] + parse_from(bytes@, next as int)->0)
                    =~= drecs_spec(entries@) + parse_from(bytes@, next as int)->0);
            } else {
                assert(parse_from(bytes@, pos as int) is None);
            }
        }
        pos = pos + LOG_HEADER_SIZE + plen;
    }
    proof {
        assert(parse_from(bytes@, pos as int) == Some(Seq::<SpecRec>::empty()));
        assert(drecs_spec(entries@) + Seq::<SpecRec>::empty() =~= drecs_spec(entries@));
        assert(parsed(bytes@) == drecs_spec(entries@));
    }
    if binds.len() != entries.len() {
        return false;
    }
    let ghost recs = drecs_spec(entries@);
    let ghost st0 = state.as_map();
    let n: usize = entries.len();
    let mut i: usize = 0;
    while i < n
        invariant
            i <= n,
            state.wf(),
            spec_replay(recs, binds@, st0) == replay_from(recs, binds@, i as int, state.as_map()),
        decreases n - i,
    {
        let e: &DecodedRec = &entries[i];
        let mut found: bool = false;
        if e.kind == LOG_KIND_DATA {
            let mut j: usize = i + 1;
            while j < n
                invariant
                    i < j <= n,
                    !found ==> forall|q: int|
                        i < q < j ==> !((#[trigger] recs[q]).kind == LOG_KIND_TXN && recs[q].tid
                            == recs[i as int].tid),
                    found ==> authoritative(recs, i as int),
                decreases n - j,
            {
                let m: &DecodedRec = &entries[j];
                if m.kind == LOG_KIND_TXN && m.tid == e.tid {
                    found = true;
                    proof {
                        assert(recs[j as int].kind == LOG_KIND_TXN && recs[j as int].tid == recs[
                            i as int].tid);
                    }
                    break;
                }
                j = j + 1;
            }
        }
        proof {
            assert(found == authoritative(recs, i as int));
        }
        if found {
            let img: Vec<u8> = copy_range(&e.payload, 0, e.payload.len());
            proof {
                assert(img@ =~= recs[i as int].payload);
            }
            state.set(binds[i], img);
        }
        i = i + 1;
    }
    true
}

} // verus!
