//! Framing of the write-ahead log: each record is its payload's length as
//! four little-endian bytes, a kind byte, and the payload.

use vstd::prelude::*;

use crate::{BftError, BftMsg};

verus! {

/// One record of the log.
#[derive(Clone, Debug, PartialEq, Eq)]
pub struct WalRecord {
    /// The kind of message the payload holds.
    pub kind: u8,
    /// The encoded message.
    pub payload: Vec<u8>,
}

impl View for WalRecord {
    type V = (u8, Seq<u8>);

    open spec fn view(&self) -> (u8, Seq<u8>) {
        (self.kind, self.payload@)
    }
}

/// The views of a sequence of records.
pub open spec fn records_view(rs: Seq<WalRecord>) -> Seq<(u8, Seq<u8>)> {
    rs.map_values(|r: WalRecord| r@)
}

/// `n` as four little-endian bytes.
pub open spec fn le32(n: nat) -> Seq<u8> {
    seq![
        (n % 256) as u8,
        ((n / 256) % 256) as u8,
        ((n / 65536) % 256) as u8,
        ((n / 16777216) % 256) as u8,
    ]
}

/// The number that four little-endian bytes stand for.
pub open spec fn le32_value(b: Seq<u8>) -> nat {
    (b[0] as nat) + 256 * (b[1] as nat) + 65536 * (b[2] as nat) + 16777216 * (b[3] as nat)
}

/// The bytes of one record.
pub open spec fn frame(r: (u8, Seq<u8>)) -> Seq<u8> {
    le32(r.1.len()) + seq![r.0] + r.1
}

/// The bytes of a sequence of records, one after the other.
pub open spec fn frames(rs: Seq<(u8, Seq<u8>)>) -> Seq<u8>
    decreases rs.len(),
{
    if rs.len() == 0 {
        Seq::empty()
    } else {
        frame(rs[0]) + frames(rs.skip(1))
    }
}

/// The records that `bytes` hold, or the offset of the first record that
/// does not fit in them.
pub open spec fn parse(bytes: Seq<u8>) -> Result<Seq<(u8, Seq<u8>)>, int>
    decreases bytes.len(),
{
    if bytes.len() == 0 {
        Ok(Seq::empty())
    } else if bytes.len() < 5 {
        Err(0)
    } else {
        let n: int = le32_value(bytes.take(4)) as int;
        if bytes.len() < 5 + n {
            Err(0)
        } else {
            let rec = (bytes[4], bytes.subrange(5, 5 + n));
            match parse(bytes.skip(5 + n)) {
                Ok(rest) => Ok(seq![rec] + rest),
                Err(e) => Err(e + 5 + n),
            }
        }
    }
}

/// The kind byte of each message.
pub open spec fn kind_of(m: BftMsg) -> u8 {
    match m {
        BftMsg::Proposal(_) => 0,
        BftMsg::Vote(_) => 1,
        BftMsg::Feed(_) => 2,
        BftMsg::VerifyResp(_) => 3,
        BftMsg::Status(_) => 4,
        BftMsg::Commit(_) => 5,
        BftMsg::Pause => 6,
        BftMsg::Start => 7,
    }
}

/// The kind byte under which `msg` is logged.
pub fn msg_kind(msg: &BftMsg) -> (r: u8)
    ensures
        r == kind_of(*msg),
{
    match msg {
        BftMsg::Proposal(_) => 0,
        BftMsg::Vote(_) => 1,
        BftMsg::Feed(_) => 2,
        BftMsg::VerifyResp(_) => 3,
        BftMsg::Status(_) => 4,
        BftMsg::Commit(_) => 5,
        BftMsg::Pause => 6,
        BftMsg::Start => 7,
    }
}

/// Four little-endian bytes give back the number they were made from.
pub proof fn lemma_le32_round_trip(n: nat)
    requires
        n <= u32::MAX,
    ensures
        le32(n).len() == 4,
        le32_value(le32(n)) == n,
{
    let b = le32(n);
    assert(b[0] as nat == n % 256);
    assert(b[1] as nat == (n / 256) % 256);
    assert(b[2] as nat == (n / 65536) % 256);
    assert(b[3] as nat == (n / 16777216) % 256);
    assert((n % 256) + 256 * ((n / 256) % 256) + 65536 * ((n / 65536) % 256) + 16777216 * ((n
        / 16777216) % 256) == n) by (nonlinear_arith)
        requires
            n <= 4294967295,
    ;
}

/// Appends the bytes of record `rec` to `out`.
pub fn append_record(out: &mut Vec<u8>, rec: &WalRecord)
    requires
        rec.payload.len() <= u32::MAX,
    ensures
        final(out)@ == old(out)@ + frame(rec@),
{
    let n = rec.payload.len() as u64;
    out.push((n % 256) as u8);
    out.push(((n / 256) % 256) as u8);
    out.push(((n / 65536) % 256) as u8);
    out.push(((n / 16777216) % 256) as u8);
    out.push(rec.kind);
    let mut i: usize = 0;
    let ghost base = out@;
    while i < rec.payload.len()
        invariant
            i <= rec.payload.len(),
            out@ == base + rec.payload@.take(i as int),
        decreases rec.payload.len() - i,
    {
        out.push(rec.payload[i]);
        i = i + 1;
        assert(out@ =~= base + rec.payload@.take(i as int));
    }
    assert(rec.payload@.take(i as int) =~= rec.payload@);
    assert(base =~= old(out)@ + le32(rec.payload@.len()) + seq![rec.kind]);
    assert(final(out)@ =~= old(out)@ + frame(rec@));
}

/// The bytes of `records`, one after the other.
pub fn encode_log(records: &Vec<WalRecord>) -> (r: Vec<u8>)
    requires
        forall|i: int| 0 <= i < records.len() ==> (#[trigger] records@[i]).payload.len() <= u32::MAX,
    ensures
        r@ == frames(records_view(records@)),
{
    let mut i: usize = records.len();
    let ghost rv = records_view(records@);
    // the records from the end, so that each step puts one in front
    let mut tail: Vec<u8> = Vec::new();
    assert(tail@ =~= frames(rv.skip(i as int)));
    while i > 0
        invariant
            i <= records.len(),
            rv == records_view(records@),
            tail@ == frames(rv.skip(i as int)),
            forall|k: int| 0 <= k < records.len() ==> (#[trigger] records@[k]).payload.len() <= u32::MAX,
        decreases i,
    {
        let mut front: Vec<u8> = Vec::new();
        append_record(&mut front, &records[i - 1]);
        let mut k: usize = 0;
        let ghost f = front@;
        while k < tail.len()
            invariant
                k <= tail.len(),
                front@ == f + tail@.take(k as int),
            decreases tail.len() - k,
        {
            front.push(tail[k]);
            k = k + 1;
            assert(front@ =~= f + tail@.take(k as int));
        }
        assert(tail@.take(k as int) =~= tail@);
        proof {
            let s = rv.skip(i - 1);
            assert(s[0] == records@[i - 1]@);
            assert(s.skip(1) =~= rv.skip(i as int));
        }
        tail = front;
        i = i - 1;
    }
    assert(rv.skip(0) =~= rv);
    tail
}

/// The records that `bytes` hold; where one does not fit, the log is
/// corrupt at the offset where that record starts.
pub fn decode_log(bytes: &Vec<u8>) -> (r: Result<Vec<WalRecord>, BftError>)
    ensures
        match parse(bytes@) {
            Ok(rs) => r is Ok && records_view(r.unwrap()@) == rs,
            Err(e) => r == Err::<Vec<WalRecord>, BftError>(BftError::WalCorrupt(e as usize)),
        },
{
    let mut out: Vec<WalRecord> = Vec::new();
    let mut pos: usize = 0;
    proof {
        assert(bytes@.skip(0) =~= bytes@);
        assert(records_view(out@) =~= Seq::<(u8, Seq<u8>)>::empty());
        match parse(bytes@) {
            Ok(rest) => {
                assert(records_view(out@) + rest =~= rest);
            },
            Err(e) => {},
        }
    }
    while pos < bytes.len()
        invariant
            pos <= bytes.len(),
            match parse(bytes@.skip(pos as int)) {
                Ok(rest) => parse(bytes@) == Ok::<Seq<(u8, Seq<u8>)>, int>(records_view(out@) + rest),
                Err(e) => parse(bytes@) == Err::<Seq<(u8, Seq<u8>)>, int>(pos + e),
            },
        decreases bytes.len() - pos,
    {
        let ghost cur = bytes@.skip(pos as int);
        if bytes.len() - pos < 5 {
            return Err(BftError::WalCorrupt(pos));
        }
        let n: u64 = bytes[pos] as u64 + 256 * (bytes[pos + 1] as u64) + 65536 * (bytes[pos + 2] as u64)
            + 16777216 * (bytes[pos + 3] as u64);
        proof {
            assert(cur.take(4)[0] == bytes@[pos as int]);
            assert(cur.take(4)[1] == bytes@[pos + 1]);
            assert(cur.take(4)[2] == bytes@[pos + 2]);
            assert(cur.take(4)[3] == bytes@[pos + 3]);
            assert(n == le32_value(cur.take(4)));
        }
        if ((bytes.len() - pos) as u64) < 5 + n {
            return Err(BftError::WalCorrupt(pos));
        }
        let kind = bytes[pos + 4];
        let start = pos + 5;
        let end = start + n as usize;
        let mut payload: Vec<u8> = Vec::new();
        let mut k: usize = start;
        while k < end
            invariant
                start <= k <= end <= bytes.len(),
                payload@ == bytes@.subrange(start as int, k as int),
            decreases end - k,
        {
            payload.push(bytes[k]);
            k = k + 1;
            assert(payload@ =~= bytes@.subrange(start as int, k as int));
        }
        proof {
            assert(cur[4] == kind);
            assert(cur.subrange(5, 5 + n) =~= payload@);
            assert(cur.skip(5 + n) =~= bytes@.skip(end as int));
        }
        let ghost before = records_view(out@);
        out.push(WalRecord { kind, payload });
        proof {
            assert(records_view(out@) =~= before.push((kind, payload@)));
            match parse(bytes@.skip(end as int)) {
                Ok(rest) => {
                    assert(before + (seq![(kind, payload@)] + rest) =~= records_view(out@) + rest);
                },
                Err(e) => {},
            }
        }
        pos = end;
    }
    proof {
        assert(bytes@.skip(pos as int) =~= Seq::<u8>::empty());
        assert(records_view(out@) + Seq::<(u8, Seq<u8>)>::empty() =~= records_view(out@));
    }
    Ok(out)
}

/// Parsing a record in front of `tail` gives that record in front of what
/// `tail` parses to.
pub proof fn lemma_parse_frame(r: (u8, Seq<u8>), tail: Seq<u8>)
    requires
        r.1.len() <= u32::MAX,
    ensures
        parse(frame(r) + tail) == match parse(tail) {
            Ok(rest) => Ok::<Seq<(u8, Seq<u8>)>, int>(seq![r] + rest),
            Err(e) => Err(e + 5 + r.1.len()),
        },
{
    lemma_le32_round_trip(r.1.len());
    let b = frame(r) + tail;
    let n: int = r.1.len() as int;
    assert(b.take(4) =~= le32(r.1.len()));
    assert(b[4] == r.0);
    assert(b.subrange(5, 5 + n) =~= r.1);
    assert(b.skip(5 + n) =~= tail);
}

/// Replaying the log gives back what was written: the bytes of any records
/// whose payloads fit the length field parse to those same records.
pub proof fn lemma_wal_round_trip(rs: Seq<(u8, Seq<u8>)>)
    requires
        forall|i: int| 0 <= i < rs.len() ==> (#[trigger] rs[i]).1.len() <= u32::MAX,
    ensures
        parse(frames(rs)) == Ok::<Seq<(u8, Seq<u8>)>, int>(rs),
    decreases rs.len(),
{
    if rs.len() == 0 {
        assert(frames(rs) =~= Seq::<u8>::empty());
        assert(rs =~= Seq::<(u8, Seq<u8>)>::empty());
    } else {
        let rest = rs.skip(1);
        assert forall|i: int| 0 <= i < rest.len() implies (#[trigger] rest[i]).1.len() <= u32::MAX by {
            assert(rest[i] == rs[i + 1]);
        }
        lemma_wal_round_trip(rest);
        lemma_parse_frame(rs[0], frames(rest));
        assert(frames(rs) == frame(rs[0]) + frames(rest));
        assert(seq![rs[0]] + rest =~= rs);
    }
}

} // verus!
