//! The records of the foreign interface and the three conversions between them
//! and owned `sspi::SecurityBuffer` values.
use crate::kind::{
    code_from_kind, is_known_code, kind_code, kind_from_code, kind_of_code, lemma_kind_of_code_inverse,
};
use sspi::{SecurityBuffer, SecurityBufferType};
use vstd::prelude::*;

verus! {

/// `sspi`'s owned buffer; Verus reads its two public fields, bytes and kind, as declared.
#[verifier::external_type_specification]
pub struct ExSecurityBuffer(sspi::SecurityBuffer);

/// A buffer record of the foreign caller, borrowed for one call: its length
/// field, its kind code, and the bytes that its data pointer addresses.
pub struct ForeignBuffer<'a> {
    pub length: u32,
    pub kind_code: u32,
    pub data: &'a [u8],
}

/// A buffer record whose byte storage is handed over to the foreign caller.
pub struct OutgoingBuffer {
    pub length: u32,
    pub kind_code: u32,
    pub data: Vec<u8>,
}

/// A buffer record of the foreign caller whose storage is written in place:
/// `data` is the whole writable region, so its length is the capacity.
pub struct ForeignBufferMut<'a> {
    pub length: u32,
    pub kind_code: u32,
    pub data: &'a mut [u8],
}

#[derive(Debug, Clone, Copy, PartialEq, Eq, Structural)]
pub enum DecodeError {
    /// The record at `index` carries a code that names no buffer kind.
    UnknownKind { index: usize, code: u32 },
}

#[derive(Debug, Clone, Copy, PartialEq, Eq, Structural)]
pub enum EncodeError {
    /// The buffer at `index` holds more bytes than a length field can count.
    LengthOverflow { index: usize, length: usize },
}

#[derive(Debug, Clone, Copy, PartialEq, Eq, Structural)]
pub enum CopyError {
    /// The destination holds another number of records than the source.
    CountMismatch { expected: usize, found: usize },
    /// The buffer at `index` holds more bytes than a length field can count.
    LengthOverflow { index: usize, length: usize },
    /// The destination region at `index` is smaller than the source buffer.
    CapacityExceeded { index: usize, length: usize, capacity: usize },
}

/// An owned buffer as a kind and its bytes.
pub type OwnedModel = (SecurityBufferType, Seq<u8>);

/// A foreign record as its length field, its kind code and the bytes it addresses.
pub type RecordModel = (u32, u32, Seq<u8>);

pub open spec fn owned_model(b: SecurityBuffer) -> OwnedModel {
    (b.buffer_type, b.buffer@)
}

pub open spec fn owned_models(bs: Seq<SecurityBuffer>) -> Seq<OwnedModel> {
    bs.map_values(|b: SecurityBuffer| owned_model(b))
}

pub open spec fn foreign_models(rs: Seq<ForeignBuffer>) -> Seq<RecordModel> {
    rs.map_values(|r: ForeignBuffer| (r.length, r.kind_code, r.data@))
}

pub open spec fn outgoing_models(rs: Seq<OutgoingBuffer>) -> Seq<RecordModel> {
    rs.map_values(|r: OutgoingBuffer| (r.length, r.kind_code, r.data@))
}

/// Every buffer's length can be written in a length field.
pub open spec fn lengths_fit(bs: Seq<OwnedModel>) -> bool {
    forall|i: int| 0 <= i < bs.len() ==> #[trigger] bs[i].1.len() <= u32::MAX
}

/// The records that encode `bs`, in the same order.
pub open spec fn encode_model(bs: Seq<OwnedModel>) -> Seq<RecordModel> {
    bs.map_values(|b: OwnedModel| (b.1.len() as u32, kind_code(b.0), b.1))
}

/// Every record's length field stays within the bytes it addresses.
pub open spec fn records_readable(rs: Seq<RecordModel>) -> bool {
    forall|i: int| 0 <= i < rs.len() ==> #[trigger] rs[i].0 <= rs[i].2.len()
}

pub open spec fn decode_record(r: RecordModel) -> OwnedModel {
    (kind_of_code(r.1)->Some_0, r.2.take(r.0 as int))
}

/// The owned buffers that `rs` decodes to, or `None` when a code names no kind.
pub open spec fn decode_model(rs: Seq<RecordModel>) -> Option<Seq<OwnedModel>> {
    if forall|i: int| 0 <= i < rs.len() ==> is_known_code(#[trigger] rs[i].1) {
        Some(rs.map_values(|r: RecordModel| decode_record(r)))
    } else {
        None
    }
}

/// Copies the first `length` bytes of `data` into a new vector.
fn copy_prefix(data: &[u8], length: usize) -> (r: Vec<u8>)
    requires
        length <= data@.len(),
    ensures
        r@ == data@.take(length as int),
{
    let mut out: Vec<u8> = Vec::with_capacity(length);
    let mut j: usize = 0;
    while j < length
        invariant
            j <= length <= data@.len(),
            out@ == data@.take(j as int),
        decreases length - j,
    {
        out.push(data[j]);
        j = j + 1;
        assert(out@ =~= data@.take(j as int));
    }
    out
}

/// Decodes foreign records into owned buffers, copying each record's bytes and
/// leaving the foreign memory as it was. Fails on the first record whose code
/// names no buffer kind.
pub fn p_sec_buffers_to_security_buffers(raw_buffers: &[ForeignBuffer]) -> (r: Result<
    Vec<SecurityBuffer>,
    DecodeError,
>)
    requires
        records_readable(foreign_models(raw_buffers@)),
    ensures
        r is Ok <==> decode_model(foreign_models(raw_buffers@)) is Some,
        r matches Ok(v) ==> v@.len() == raw_buffers@.len() && decode_model(foreign_models(raw_buffers@))
            == Some(owned_models(v@)),
        r matches Err(DecodeError::UnknownKind { index, code }) ==> {
            &&& index < raw_buffers@.len()
            &&& code == raw_buffers@[index as int].kind_code
            &&& !is_known_code(code)
            &&& forall|j: int| 0 <= j < index ==> is_known_code(#[trigger] raw_buffers@[j].kind_code)
        },
{
    let ghost rs = foreign_models(raw_buffers@);
    let mut out: Vec<SecurityBuffer> = Vec::new();
    let mut i: usize = 0;
    while i < raw_buffers.len()
        invariant
            i <= raw_buffers@.len(),
            rs == foreign_models(raw_buffers@),
            records_readable(rs),
            out@.len() == i,
            forall|j: int| 0 <= j < i ==> is_known_code(#[trigger] raw_buffers@[j].kind_code),
            forall|j: int| 0 <= j < i ==> owned_model(#[trigger] out@[j]) == decode_record(rs[j]),
        decreases raw_buffers@.len() - i,
    {
        let raw = &raw_buffers[i];
        assert(rs[i as int] == (raw.length, raw.kind_code, raw.data@));
        assert(rs[i as int].0 <= rs[i as int].2.len());
        match kind_from_code(raw.kind_code) {
            None => {
                assert(!is_known_code(rs[i as int].1));
                return Err(DecodeError::UnknownKind { index: i, code: raw.kind_code });
            },
            Some(t) => {
                let bytes = copy_prefix(raw.data, raw.length as usize);
                out.push(SecurityBuffer { buffer: bytes, buffer_type: t });
            },
        }
        i = i + 1;
    }
    assert(owned_models(out@) =~= rs.map_values(|r: RecordModel| decode_record(r)));
    Ok(out)
}

/// The index of the first buffer whose length a length field cannot count,
/// or `None` when every length fits.
fn first_oversized(buffers: &[SecurityBuffer]) -> (r: Option<usize>)
    ensures
        r is None <==> lengths_fit(owned_models(buffers@)),
        r matches Some(k) ==> {
            &&& k < buffers@.len()
            &&& buffers@[k as int].buffer@.len() > u32::MAX
            &&& forall|j: int| 0 <= j < k ==> (#[trigger] buffers@[j]).buffer@.len() <= u32::MAX
        },
{
    let mut i: usize = 0;
    while i < buffers.len()
        invariant
            i <= buffers@.len(),
            forall|j: int| 0 <= j < i ==> (#[trigger] buffers@[j]).buffer@.len() <= u32::MAX,
        decreases buffers@.len() - i,
    {
        if buffers[i].buffer.len() > u32::MAX as usize {
            assert(owned_models(buffers@)[i as int].1.len() > u32::MAX);
            return Some(i);
        }
        i = i + 1;
    }
    assert forall|j: int| 0 <= j < buffers@.len() implies #[trigger] owned_models(buffers@)[j].1.len()
        <= u32::MAX by {
        assert(buffers@[j].buffer@.len() <= u32::MAX);
    }
    None
}

/// Encodes owned buffers into new foreign records, in the same order. Each
/// buffer's bytes move into the record, whose storage the caller then hands
/// over to the foreign side. Fails when a buffer holds more bytes than a
/// length field can count.
pub fn security_buffers_to_raw(buffers: Vec<SecurityBuffer>) -> (r: Result<
    Vec<OutgoingBuffer>,
    EncodeError,
>)
    ensures
        r is Ok <==> lengths_fit(owned_models(buffers@)),
        r matches Ok(v) ==> v@.len() == buffers@.len() && outgoing_models(v@) == encode_model(
            owned_models(buffers@),
        ),
        r matches Err(EncodeError::LengthOverflow { index, length }) ==> {
            &&& index < buffers@.len()
            &&& length == buffers@[index as int].buffer@.len()
            &&& length > u32::MAX
            &&& forall|j: int| 0 <= j < index ==> (#[trigger] buffers@[j]).buffer@.len() <= u32::MAX
        },
{
    if let Some(k) = first_oversized(buffers.as_slice()) {
        return Err(EncodeError::LengthOverflow { index: k, length: buffers[k].buffer.len() });
    }
    let ghost bs = owned_models(buffers@);
    let ghost src = buffers@;
    let mut out: Vec<OutgoingBuffer> = Vec::with_capacity(buffers.len());
    for b in it: buffers.into_iter()
        invariant
            it.seq() == src,
            bs == owned_models(src),
            lengths_fit(bs),
            out@.len() == it.index(),
            forall|j: int| 0 <= j < it.index() ==> #[trigger] outgoing_models(out@)[j] == encode_model(bs)[j],
    {
        let ghost k = it.index() as int;
        let ghost old_out = out@;
        assert(b == src[k]);
        assert(bs[k].1.len() <= u32::MAX);
        let length = b.buffer.len() as u32;
        let kind_code = code_from_kind(b.buffer_type);
        out.push(OutgoingBuffer { length, kind_code, data: b.buffer });
        assert(outgoing_models(out@)[k] == encode_model(bs)[k]);
        assert forall|j: int| 0 <= j < k + 1 implies #[trigger] outgoing_models(out@)[j] == encode_model(bs)[j] by {
            if j < k {
                assert(out@[j] == old_out[j]);
                assert(outgoing_models(old_out)[j] == encode_model(bs)[j]);
            }
        }
    }
    assert(outgoing_models(out@) =~= encode_model(bs));
    Ok(out)
}

/// The bytes a destination region holds.
pub open spec fn region(r: ForeignBufferMut) -> Seq<u8> {
    (*r.data)@
}

/// A region after `src` was written at its start: the rest stays as it was.
pub open spec fn overwritten(region: Seq<u8>, src: Seq<u8>) -> Seq<u8> {
    src + region.skip(src.len() as int)
}

/// Whether `src` can be copied into `dest`: as many records, every length
/// countable by a length field, and every region large enough.
pub open spec fn copy_fits(src: Seq<SecurityBuffer>, dest: Seq<ForeignBufferMut>) -> bool {
    &&& src.len() == dest.len()
    &&& forall|i: int| 0 <= i < src.len() ==> (#[trigger] src[i]).buffer@.len() <= u32::MAX
    &&& forall|i: int| 0 <= i < src.len() ==> (#[trigger] src[i]).buffer@.len() <= region(dest[i]).len()
}

/// The destination after an in-place copy of `src`: length fields and region
/// contents follow the source; kinds, region sizes and order stay.
pub open spec fn copied(src: Seq<SecurityBuffer>, before: Seq<ForeignBufferMut>, after: Seq<ForeignBufferMut>) -> bool {
    &&& after.len() == before.len()
    &&& forall|i: int| 0 <= i < after.len() ==> {
        &&& (#[trigger] after[i]).length == src[i].buffer@.len()
        &&& after[i].kind_code == before[i].kind_code
        &&& region(after[i]) == overwritten(region(before[i]), src[i].buffer@)
    }
}

/// Writes `src` at the start of the destination's region and sets its length.
fn write_record(src: &[u8], dest: &mut ForeignBufferMut)
    requires
        src@.len() <= region(*old(dest)).len(),
        src@.len() <= u32::MAX,
    ensures
        final(dest).length == src@.len(),
        final(dest).kind_code == old(dest).kind_code,
        region(*final(dest)) == overwritten(region(*old(dest)), src@),
{
    dest.length = src.len() as u32;
    let ghost before = region(*dest);
    let mut j: usize = 0;
    while j < src.len()
        invariant
            j <= src@.len() <= before.len(),
            region(*dest).len() == before.len(),
            dest.length == src@.len(),
            dest.kind_code == old(dest).kind_code,
            before == region(*old(dest)),
            forall|k: int| 0 <= k < j ==> region(*dest)[k] == src@[k],
            forall|k: int| src@.len() <= k < before.len() ==> region(*dest)[k] == before[k],
        decreases src@.len() - j,
    {
        dest.data[j] = src[j];
        j = j + 1;
    }
    assert(region(*dest) =~= overwritten(before, src@));
}

/// The first reason why `src` cannot be copied into `dest`, if any.
fn copy_error(src: &[SecurityBuffer], dest: &[ForeignBufferMut]) -> (r: Option<CopyError>)
    ensures
        r is None <==> copy_fits(src@, dest@),
        r matches Some(CopyError::CountMismatch { expected, found }) ==> expected == src@.len()
            && found == dest@.len() && expected != found,
        r matches Some(CopyError::LengthOverflow { index, length }) ==> {
            &&& src@.len() == dest@.len()
            &&& index < src@.len()
            &&& length == src@[index as int].buffer@.len() > u32::MAX
            &&& forall|j: int| 0 <= j < index ==> (#[trigger] src@[j]).buffer@.len() <= u32::MAX
                && src@[j].buffer@.len() <= region(dest@[j]).len()
        },
        r matches Some(CopyError::CapacityExceeded { index, length, capacity }) ==> {
            &&& src@.len() == dest@.len()
            &&& index < src@.len()
            &&& length == src@[index as int].buffer@.len() <= u32::MAX
            &&& capacity == region(dest@[index as int]).len() < length
            &&& forall|j: int| 0 <= j < index ==> (#[trigger] src@[j]).buffer@.len() <= u32::MAX
                && src@[j].buffer@.len() <= region(dest@[j]).len()
        },
{
    if src.len() != dest.len() {
        return Some(CopyError::CountMismatch { expected: src.len(), found: dest.len() });
    }
    let mut i: usize = 0;
    while i < src.len()
        invariant
            i <= src@.len() == dest@.len(),
            forall|j: int| 0 <= j < i ==> (#[trigger] src@[j]).buffer@.len() <= u32::MAX
                && src@[j].buffer@.len() <= region(dest@[j]).len(),
        decreases src@.len() - i,
    {
        let length = src[i].buffer.len();
        if length > u32::MAX as usize {
            return Some(CopyError::LengthOverflow { index: i, length });
        }
        let capacity = dest[i].data.len();
        if length > capacity {
            return Some(CopyError::CapacityExceeded { index: i, length, capacity });
        }
        i = i + 1;
    }
    None
}

/// Copies owned buffers into records the foreign caller already allocated:
/// each length field and the start of each region take the source's length
/// and bytes; no region is reallocated, and kinds stay as they were. Checks
/// counts, lengths and capacities first, and writes nothing when one fails.
pub fn copy_to_c_sec_buffer(from_buffers: &[SecurityBuffer], to_buffers: &mut [ForeignBufferMut]) -> (r:
    Result<(), CopyError>)
    ensures
        r is Ok <==> copy_fits(from_buffers@, old(to_buffers)@),
        r is Ok ==> copied(from_buffers@, old(to_buffers)@, final(to_buffers)@),
        r is Err ==> final(to_buffers)@ == old(to_buffers)@,
        r matches Err(CopyError::CountMismatch { expected, found }) ==> expected == from_buffers@.len()
            && found == old(to_buffers)@.len() && expected != found,
        r matches Err(CopyError::LengthOverflow { index, length }) ==> {
            &&& index < from_buffers@.len()
            &&& length == from_buffers@[index as int].buffer@.len() > u32::MAX
            &&& forall|j: int| 0 <= j < index ==> (#[trigger] from_buffers@[j]).buffer@.len() <= u32::MAX
                && from_buffers@[j].buffer@.len() <= region(old(to_buffers)@[j]).len()
        },
        r matches Err(CopyError::CapacityExceeded { index, length, capacity }) ==> {
            &&& index < from_buffers@.len()
            &&& length == from_buffers@[index as int].buffer@.len() <= u32::MAX
            &&& capacity == region(old(to_buffers)@[index as int]).len() < length
            &&& forall|j: int| 0 <= j < index ==> (#[trigger] from_buffers@[j]).buffer@.len() <= u32::MAX
                && from_buffers@[j].buffer@.len() <= region(old(to_buffers)@[j]).len()
        },
{
    if let Some(e) = copy_error(from_buffers, to_buffers) {
        return Err(e);
    }
    let ghost before = to_buffers@;
    let mut i: usize = 0;
    while i < from_buffers.len()
        invariant
            i <= from_buffers@.len(),
            before == old(to_buffers)@,
            copy_fits(from_buffers@, before),
            to_buffers@.len() == before.len(),
            forall|j: int| 0 <= j < i ==> {
                &&& (#[trigger] to_buffers@[j]).length == from_buffers@[j].buffer@.len()
                &&& to_buffers@[j].kind_code == before[j].kind_code
                &&& region(to_buffers@[j]) == overwritten(region(before[j]), from_buffers@[j].buffer@)
            },
            forall|j: int| i <= j < before.len() ==> #[trigger] to_buffers@[j] == before[j],
        decreases from_buffers@.len() - i,
    {
        assert(from_buffers@[i as int].buffer@.len() <= u32::MAX);
        assert(from_buffers@[i as int].buffer@.len() <= region(before[i as int]).len());
        write_record(from_buffers[i].buffer.as_slice(), &mut to_buffers[i]);
        i = i + 1;
    }
    Ok(())
}

/// Decoding the records that a fresh encode made gives back every buffer, with
/// its kind and bytes, in the same order.
pub proof fn lemma_round_trip(bs: Seq<OwnedModel>)
    requires
        lengths_fit(bs),
    ensures
        records_readable(encode_model(bs)),
        decode_model(encode_model(bs)) == Some(bs),
{
    let rs = encode_model(bs);
    assert forall|i: int| 0 <= i < rs.len() implies #[trigger] rs[i].0 <= rs[i].2.len() && is_known_code(rs[i].1)
        && decode_record(rs[i]) == bs[i] by {
        assert(bs[i].1.len() <= u32::MAX);
        lemma_kind_of_code_inverse(bs[i].0);
        assert(rs[i].2.take(rs[i].0 as int) =~= bs[i].1);
    }
    assert(rs.map_values(|r: RecordModel| decode_record(r)) =~= bs);
}

/// Encoding what exact-size records decode to gives back the same records: the
/// same lengths, codes and bytes, byte for byte.
pub proof fn lemma_decode_then_encode(rs: Seq<RecordModel>)
    requires
        forall|i: int| 0 <= i < rs.len() ==> #[trigger] rs[i].0 == rs[i].2.len(),
        decode_model(rs) is Some,
    ensures
        lengths_fit(decode_model(rs)->Some_0),
        encode_model(decode_model(rs)->Some_0) == rs,
{
    let bs = decode_model(rs)->Some_0;
    assert forall|i: int| 0 <= i < bs.len() implies #[trigger] bs[i].1.len() <= u32::MAX
        && encode_model(bs)[i] == rs[i] by {
        assert(rs[i].0 == rs[i].2.len());
        assert(is_known_code(rs[i].1));
        crate::kind::lemma_code_of_kind_of_code(rs[i].1);
        assert(rs[i].2.take(rs[i].0 as int) =~= rs[i].2);
    }
    assert(encode_model(bs) =~= rs);
}

} // verus!
