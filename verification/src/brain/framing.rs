use vstd::prelude::*;

verus! {

/// The largest record a transaction log holds: 8 MiB.
pub const MAX_RECORD_BYTES: usize = 8388608;

/// `NTL1`, the first bytes of a transaction log.
pub open spec fn log_magic() -> Seq<u8> {
    seq![78u8, 84u8, 76u8, 49u8]
}

/// `BSP1`, the first bytes of a brain snapshot bundle.
pub open spec fn bundle_magic() -> Seq<u8> {
    seq![66u8, 83u8, 80u8, 49u8]
}

/// The value of four little-endian bytes.
pub open spec fn le32_value(b: Seq<u8>) -> nat
    recommends
        b.len() >= 4,
{
    (b[0] + 256 * b[1] + 65536 * b[2] + 16777216 * b[3]) as nat
}

/// The four little-endian bytes of `n`.
pub open spec fn le32_bytes(n: nat) -> Seq<u8> {
    seq![(n % 256) as u8, ((n / 256) % 256) as u8, ((n / 65536) % 256) as u8, ((n / 16777216) % 256) as u8]
}

/// The four little-endian bytes of a `u32` give it back.
pub proof fn lemma_le32_round_trip(n: nat)
    requires
        n < 0x1_0000_0000,
    ensures
        le32_value(le32_bytes(n)) == n,
        le32_bytes(n).len() == 4,
{
}

/// A record framed by its little-endian length.
pub open spec fn frame(record: Seq<u8>) -> Seq<u8> {
    le32_bytes(record.len()) + record
}

/// The records framed one after the other.
pub open spec fn frames_concat(records: Seq<Seq<u8>>) -> Seq<u8>
    decreases records.len(),
{
    if records.len() == 0 {
        Seq::empty()
    } else {
        frame(records[0]) + frames_concat(records.drop_first())
    }
}

/// The bytes of a transaction log holding the given records.
pub open spec fn encoded_log(records: Seq<Seq<u8>>) -> Seq<u8> {
    log_magic() + frames_concat(records)
}

/// The records that can be read from framed bytes: reading stops at a zero or oversized
/// length, at a record cut short, or when fewer than four bytes remain.
pub open spec fn readable_frames(b: Seq<u8>) -> Seq<Seq<u8>>
    decreases b.len(),
{
    if b.len() < 4 {
        Seq::empty()
    } else {
        let n = le32_value(b);
        if n == 0 || n > MAX_RECORD_BYTES || 4 + n > b.len() {
            Seq::empty()
        } else {
            seq![b.subrange(4, 4 + n as int)] + readable_frames(b.skip(4 + n as int))
        }
    }
}

/// Why reading a transaction log can fail.
#[derive(Debug, Clone, Copy, PartialEq, Eq, Structural)]
pub enum LogFramingError {
    InvalidHeader,
}

/// What reading a transaction log gives: no records for an empty log, an error when the
/// header is not `NTL1`, and otherwise the readable records after the header.
pub open spec fn parsed_log(b: Seq<u8>) -> Result<Seq<Seq<u8>>, LogFramingError> {
    if b.len() == 0 {
        Ok(Seq::empty())
    } else if b.len() < 4 || b.take(4) != log_magic() {
        Err(LogFramingError::InvalidHeader)
    } else {
        Ok(readable_frames(b.skip(4)))
    }
}

/// Whether every record can be written to a transaction log.
pub open spec fn records_fit(records: Seq<Seq<u8>>) -> bool {
    forall|i: int|
        0 <= i < records.len() ==> 0 < #[trigger] records[i].len() && records[i].len()
            <= MAX_RECORD_BYTES
}

/// Reading framed records of allowed sizes gives them back.
pub proof fn lemma_readable_frames_concat(records: Seq<Seq<u8>>)
    requires
        records_fit(records),
    ensures
        readable_frames(frames_concat(records)) == records,
    decreases records.len(),
{
    if records.len() == 0 {
        assert(readable_frames(Seq::<u8>::empty()) == Seq::<Seq<u8>>::empty());
        assert(records =~= Seq::<Seq<u8>>::empty());
    } else {
        let r = records[0];
        let rest = records.drop_first();
        assert(records_fit(rest)) by {
            assert forall|i: int| 0 <= i < rest.len() implies 0 < #[trigger] rest[i].len()
                && rest[i].len() <= MAX_RECORD_BYTES by {
                assert(rest[i] == records[i + 1]);
            }
        }
        lemma_readable_frames_concat(rest);
        lemma_le32_round_trip(r.len());
        let b = frames_concat(records);
        assert(b == le32_bytes(r.len()) + r + frames_concat(rest));
        assert(b.take(4) =~= le32_bytes(r.len()));
        assert(le32_value(b) == le32_value(le32_bytes(r.len())));
        assert(b.subrange(4, 4 + r.len() as int) =~= r);
        assert(b.skip(4 + r.len() as int) =~= frames_concat(rest));
        assert(records =~= seq![r] + rest);
    }
}

/// Reading back an encoded log gives exactly the records that were written.
pub proof fn lemma_log_round_trip(records: Seq<Seq<u8>>)
    requires
        records_fit(records),
    ensures
        parsed_log(encoded_log(records)) == Ok::<Seq<Seq<u8>>, LogFramingError>(records),
{
    lemma_readable_frames_concat(records);
    let b = encoded_log(records);
    assert(b.take(4) =~= log_magic());
    assert(b.skip(4) =~= frames_concat(records));
}

/// Framing one more record appends its frame.
pub proof fn lemma_frames_concat_push(records: Seq<Seq<u8>>, r: Seq<u8>)
    ensures
        frames_concat(records.push(r)) == frames_concat(records) + frame(r),
    decreases records.len(),
{
    if records.len() == 0 {
        assert(records.push(r).drop_first() =~= Seq::<Seq<u8>>::empty());
        assert(frames_concat(Seq::<Seq<u8>>::empty()) == Seq::<u8>::empty());
        assert(records.push(r)[0] == r);
        assert(frames_concat(records) == Seq::<u8>::empty());
        assert(frames_concat(records.push(r)) =~= frame(r) + Seq::<u8>::empty());
        assert(frames_concat(records.push(r)) =~= frames_concat(records) + frame(r));
    } else {
        lemma_frames_concat_push(records.drop_first(), r);
        assert(records.push(r).drop_first() =~= records.drop_first().push(r));
        assert(frames_concat(records.push(r)) =~= frame(records[0]) + (frames_concat(
            records.drop_first(),
        ) + frame(r)));
    }
}

/// The bytes that appending a record adds to a log file: the header first when the file is
/// empty, then the framed record.
pub open spec fn appended_bytes(file_is_empty: bool, record: Seq<u8>) -> Seq<u8> {
    if file_is_empty {
        log_magic() + frame(record)
    } else {
        frame(record)
    }
}

/// Appending to an empty file or to an encoded log gives the encoded log with the record added.
pub proof fn lemma_append_extends_log(records: Seq<Seq<u8>>, r: Seq<u8>)
    ensures
        Seq::<u8>::empty() + appended_bytes(true, r) == encoded_log(seq![r]),
        encoded_log(records) + appended_bytes(false, r) == encoded_log(records.push(r)),
{
    lemma_frames_concat_push(records, r);
    lemma_frames_concat_push(Seq::empty(), r);
    assert(Seq::<Seq<u8>>::empty().push(r) =~= seq![r]);
    assert(frames_concat(Seq::<Seq<u8>>::empty()) == Seq::<u8>::empty());
    assert(Seq::<u8>::empty() + appended_bytes(true, r) =~= encoded_log(seq![r]));
    assert(encoded_log(records) + appended_bytes(false, r) =~= encoded_log(records.push(r)));
}

pub fn push_le32(out: &mut Vec<u8>, n: u32)
    ensures
        final(out)@ == old(out)@ + le32_bytes(n as nat),
{
    out.push((n % 256) as u8);
    out.push(((n / 256) % 256) as u8);
    out.push(((n / 65536) % 256) as u8);
    out.push(((n / 16777216) % 256) as u8);
    assert(out@ =~= old(out)@ + le32_bytes(n as nat));
}

fn push_bytes(out: &mut Vec<u8>, bytes: &[u8])
    ensures
        final(out)@ == old(out)@ + bytes@,
{
    let mut i: usize = 0;
    while i < bytes.len()
        invariant
            i <= bytes.len(),
            out@ == old(out)@ + bytes@.take(i as int),
        decreases bytes.len() - i,
    {
        out.push(bytes[i]);
        i = i + 1;
        assert(bytes@.take(i as int) == bytes@.take(i - 1).push(bytes@[i - 1]));
    }
    assert(bytes@.take(bytes.len() as int) == bytes@);
}

fn push_log_magic(out: &mut Vec<u8>)
    ensures
        final(out)@ == old(out)@ + log_magic(),
{
    out.push(78u8);
    out.push(84u8);
    out.push(76u8);
    out.push(49u8);
    assert(out@ =~= old(out)@ + log_magic());
}

/// Why a record cannot be appended.
#[derive(Debug, Clone, Copy, PartialEq, Eq, Structural)]
pub enum RecordTooLarge {
    Bytes(usize),
}

/// The bytes to append to a log file for one encoded record, or the error for a record
/// above the size limit.
pub fn append_record_bytes(file_is_empty: bool, record: &[u8]) -> (r: Result<Vec<u8>, RecordTooLarge>)
    ensures
        record@.len() > MAX_RECORD_BYTES ==> r == Err::<Vec<u8>, RecordTooLarge>(
            RecordTooLarge::Bytes(record@.len() as usize),
        ),
        record@.len() <= MAX_RECORD_BYTES ==> r is Ok && r->Ok_0@ == appended_bytes(
            file_is_empty,
            record@,
        ),
{
    if record.len() > MAX_RECORD_BYTES {
        return Err(RecordTooLarge::Bytes(record.len()));
    }
    let mut out: Vec<u8> = Vec::new();
    if file_is_empty {
        push_log_magic(&mut out);
    }
    push_le32(&mut out, record.len() as u32);
    push_bytes(&mut out, record);
    assert(out@ =~= appended_bytes(file_is_empty, record@));
    Ok(out)
}

/// The whole log for the given encoded records, as a rewrite writes it.
pub fn encode_log(records: &Vec<Vec<u8>>) -> (r: Vec<u8>)
    requires
        forall|i: int| 0 <= i < records@.len() ==> #[trigger] records@[i]@.len() < 0x1_0000_0000,
    ensures
        r@ == encoded_log(records@.map_values(|v: Vec<u8>| v@)),
{
    let ghost views = records@.map_values(|v: Vec<u8>| v@);
    let mut out: Vec<u8> = Vec::new();
    push_log_magic(&mut out);
    let mut i: usize = 0;
    while i < records.len()
        invariant
            i <= records.len(),
            views == records@.map_values(|v: Vec<u8>| v@),
            forall|k: int| 0 <= k < records@.len() ==> #[trigger] records@[k]@.len() < 0x1_0000_0000,
            out@ == encoded_log(views.take(i as int)),
        decreases records.len() - i,
    {
        let rec = &records[i];
        assert(records@[i as int]@.len() < 0x1_0000_0000);
        push_le32(&mut out, rec.len() as u32);
        push_bytes(&mut out, rec.as_slice());
        proof {
            lemma_frames_concat_push(views.take(i as int), views[i as int]);
            assert(views.take(i + 1) =~= views.take(i as int).push(views[i as int]));
        }
        i = i + 1;
    }
    assert(views.take(records.len() as int) =~= views);
    out
}

fn read_le32(b: &[u8], at: usize) -> (n: usize)
    requires
        at + 4 <= b@.len(),
    ensures
        n == le32_value(b@.skip(at as int)),
{
    let v: u64 = (b[at] as u64) + 256 * (b[at + 1] as u64) + 65536 * (b[at + 2] as u64)
        + 16777216 * (b[at + 3] as u64);
    assert(v < 0x1_0000_0000);
    v as usize
}

/// The records of a transaction log, or the header error.
pub fn parse_log(bytes: &[u8]) -> (r: Result<Vec<Vec<u8>>, LogFramingError>)
    ensures
        match r {
            Ok(records) => parsed_log(bytes@) == Ok::<Seq<Seq<u8>>, LogFramingError>(
                records@.map_values(|v: Vec<u8>| v@),
            ),
            Err(e) => parsed_log(bytes@) == Err::<Seq<Seq<u8>>, LogFramingError>(e),
        },
{
    let len = bytes.len();
    if len == 0 {
        let empty: Vec<Vec<u8>> = Vec::new();
        assert(empty@.map_values(|v: Vec<u8>| v@) =~= Seq::<Seq<u8>>::empty());
        return Ok(empty);
    }
    if len < 4 || bytes[0] != 78u8 || bytes[1] != 84u8 || bytes[2] != 76u8 || bytes[3] != 49u8 {
        proof {
            if len >= 4 {
                assert(bytes@.take(4) != log_magic()) by {
                    if bytes@.take(4) == log_magic() {
                        assert(bytes@.take(4)[0] == bytes@[0]);
                        assert(bytes@.take(4)[1] == bytes@[1]);
                        assert(bytes@.take(4)[2] == bytes@[2]);
                        assert(bytes@.take(4)[3] == bytes@[3]);
                    }
                }
            }
        }
        return Err(LogFramingError::InvalidHeader);
    }
    assert(bytes@.take(4) =~= log_magic());
    let ghost body = bytes@.skip(4);
    let mut records: Vec<Vec<u8>> = Vec::new();
    let mut cursor: usize = 4;
    while cursor <= len && len - cursor >= 4
        invariant_except_break
            4 <= cursor <= len == bytes@.len(),
            body == bytes@.skip(4),
            readable_frames(body) == records@.map_values(|v: Vec<u8>| v@) + readable_frames(
                bytes@.skip(cursor as int),
            ),
        ensures
            readable_frames(body) == records@.map_values(|v: Vec<u8>| v@),
        decreases len - cursor,
    {
        let ghost rest = bytes@.skip(cursor as int);
        let n = read_le32(bytes, cursor);
        if n == 0 || n > MAX_RECORD_BYTES || n > len - cursor - 4 {
            assert(readable_frames(rest) =~= Seq::<Seq<u8>>::empty());
            assert(records@.map_values(|v: Vec<u8>| v@) + Seq::<Seq<u8>>::empty() =~= records@.map_values(
                |v: Vec<u8>| v@,
            ));
            break;
        }
        let start = cursor + 4;
        let mut rec: Vec<u8> = Vec::new();
        let mut k: usize = 0;
        while k < n
            invariant
                start + n <= len == bytes@.len(),
                k <= n,
                rec@ == bytes@.subrange(start as int, start + k),
            decreases n - k,
        {
            rec.push(bytes[start + k]);
            k = k + 1;
            assert(rec@ =~= bytes@.subrange(start as int, start + k));
        }
        assert(rec@ =~= rest.subrange(4, 4 + n as int));
        assert(rest.skip(4 + n as int) =~= bytes@.skip(start + n));
        let ghost before = records@.map_values(|v: Vec<u8>| v@);
        records.push(rec);
        assert(records@.map_values(|v: Vec<u8>| v@) =~= before.push(rec@));
        assert(readable_frames(rest) == seq![rec@] + readable_frames(bytes@.skip(start + n)));
        assert(before + readable_frames(rest) =~= records@.map_values(|v: Vec<u8>| v@)
            + readable_frames(bytes@.skip(start + n)));
        cursor = start + n;
    }
    Ok(records)
}

/// Bytes behind a four-byte tag.
pub open spec fn tagged(tag: Seq<u8>, payload: Seq<u8>) -> Seq<u8> {
    tag + payload
}

/// What follows a four-byte tag, or `None` when the bytes do not start with it.
pub open spec fn untagged(tag: Seq<u8>, b: Seq<u8>) -> Option<Seq<u8>> {
    if b.len() >= 4 && b.take(4) == tag {
        Some(b.skip(4))
    } else {
        None
    }
}

/// Removing the tag of tagged bytes gives them back.
pub proof fn lemma_tag_round_trip(tag: Seq<u8>, payload: Seq<u8>)
    requires
        tag.len() == 4,
    ensures
        untagged(tag, tagged(tag, payload)) == Some(payload),
{
    assert(tagged(tag, payload).take(4) =~= tag);
    assert(tagged(tag, payload).skip(4) =~= payload);
}

/// The four-byte tag followed by the payload.
pub fn frame_tagged(tag: [u8; 4], payload: &[u8]) -> (r: Vec<u8>)
    ensures
        r@ == tagged(tag@, payload@),
{
    let mut out: Vec<u8> = Vec::new();
    out.push(tag[0]);
    out.push(tag[1]);
    out.push(tag[2]);
    out.push(tag[3]);
    push_bytes(&mut out, payload);
    assert(out@ =~= tagged(tag@, payload@));
    out
}

/// What follows the four-byte tag, or `None` when the bytes do not start with it.
pub fn unframe_tagged(tag: [u8; 4], bytes: &[u8]) -> (r: Option<Vec<u8>>)
    ensures
        match r {
            Some(p) => untagged(tag@, bytes@) == Some(p@),
            None => untagged(tag@, bytes@) is None,
        },
{
    if bytes.len() < 4 || bytes[0] != tag[0] || bytes[1] != tag[1] || bytes[2] != tag[2] || bytes[3]
        != tag[3] {
        proof {
            if bytes@.len() >= 4 && bytes@.take(4) == tag@ {
                assert(bytes@.take(4)[0] == bytes@[0]);
                assert(bytes@.take(4)[1] == bytes@[1]);
                assert(bytes@.take(4)[2] == bytes@[2]);
                assert(bytes@.take(4)[3] == bytes@[3]);
            }
        }
        return None;
    }
    assert(bytes@.take(4) =~= tag@);
    let mut out: Vec<u8> = Vec::new();
    let mut i: usize = 4;
    while i < bytes.len()
        invariant
            4 <= i <= bytes@.len(),
            out@ == bytes@.subrange(4, i as int),
        decreases bytes.len() - i,
    {
        out.push(bytes[i]);
        i = i + 1;
        assert(out@ =~= bytes@.subrange(4, i as int));
    }
    assert(out@ =~= bytes@.skip(4));
    Some(out)
}

/// The `BSP1` tag of a brain snapshot bundle.
fn bundle_tag() -> (r: [u8; 4])
    ensures
        r@ == bundle_magic(),
{
    let tag = [66u8, 83u8, 80u8, 49u8];
    assert(tag@ =~= bundle_magic());
    tag
}

/// A snapshot bundle: the `BSP1` header, then the encoded payload.
pub open spec fn framed_bundle(payload: Seq<u8>) -> Seq<u8> {
    tagged(bundle_magic(), payload)
}

/// The payload of a snapshot bundle, or `None` when the header is missing.
pub open spec fn bundle_payload(b: Seq<u8>) -> Option<Seq<u8>> {
    untagged(bundle_magic(), b)
}

/// Unframing a framed bundle gives its payload back.
pub proof fn lemma_bundle_round_trip(payload: Seq<u8>)
    ensures
        bundle_payload(framed_bundle(payload)) == Some(payload),
{
    lemma_tag_round_trip(bundle_magic(), payload);
}

/// Frames an encoded snapshot bundle behind its header.
pub fn frame_bundle(payload: &[u8]) -> (r: Vec<u8>)
    ensures
        r@ == framed_bundle(payload@),
{
    frame_tagged(bundle_tag(), payload)
}

/// The payload of snapshot bundle bytes, or `None` without the `BSP1` header.
pub fn unframe_bundle(bytes: &[u8]) -> (r: Option<Vec<u8>>)
    ensures
        match r {
            Some(p) => bundle_payload(bytes@) == Some(p@),
            None => bundle_payload(bytes@) is None,
        },
{
    unframe_tagged(bundle_tag(), bytes)
}

} // verus!
