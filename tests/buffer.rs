use sec_buffer::buffer::{
    copy_to_c_sec_buffer, p_sec_buffers_to_security_buffers, security_buffers_to_raw, CopyError,
    DecodeError, ForeignBuffer, ForeignBufferMut, OutgoingBuffer,
};
use sec_buffer::kind::{code_from_kind, kind_from_code};
use sspi::{SecurityBuffer, SecurityBufferType};

fn owned(bytes: &[u8], kind: SecurityBufferType) -> SecurityBuffer {
    SecurityBuffer { buffer: bytes.to_vec(), buffer_type: kind }
}

fn borrow_all(records: &[OutgoingBuffer]) -> Vec<ForeignBuffer<'_>> {
    records
        .iter()
        .map(|r| ForeignBuffer { length: r.length, kind_code: r.kind_code, data: r.data.as_slice() })
        .collect()
}

#[test]
fn kind_codes_follow_the_protocol_table() {
    assert_eq!(kind_from_code(0), Some(SecurityBufferType::Empty));
    assert_eq!(kind_from_code(2), Some(SecurityBufferType::Token));
    assert_eq!(kind_from_code(18), Some(SecurityBufferType::ApplicationProtocol));
    assert_eq!(kind_from_code(0xF000_0000), Some(SecurityBufferType::AttributeMark));
    assert_eq!(kind_from_code(0x8000_0000), Some(SecurityBufferType::ReadOnly));
    assert_eq!(kind_from_code(0x1000_0000), Some(SecurityBufferType::ReadOnlyWithChecksum));
    assert_eq!(kind_from_code(19), None);
    assert_eq!(kind_from_code(0x2000_0000), None);
    assert_eq!(code_from_kind(SecurityBufferType::Padding), 9);
    assert_eq!(code_from_kind(SecurityBufferType::ReadOnly), 0x8000_0000);
    assert_eq!(code_from_kind(SecurityBufferType::Empty), 0);
}

#[test]
fn decode_of_fresh_encode_gives_back_the_buffers() {
    let sent = vec![
        owned(&[1, 2, 3], SecurityBufferType::Token),
        owned(&[], SecurityBufferType::Empty),
        owned(&[0xFF, 0x00, 0x7F, 0x80], SecurityBufferType::ReadOnlyWithChecksum),
    ];
    let expected = sent.clone();
    let records = security_buffers_to_raw(sent).unwrap();
    let decoded = p_sec_buffers_to_security_buffers(&borrow_all(&records)).unwrap();
    assert_eq!(decoded.len(), expected.len());
    for (d, e) in decoded.iter().zip(expected.iter()) {
        assert_eq!(d.buffer, e.buffer);
        assert_eq!(d.buffer_type, e.buffer_type);
    }
}

#[test]
fn encode_sets_exact_lengths_and_codes() {
    let records = security_buffers_to_raw(vec![
        owned(&[7; 300], SecurityBufferType::Data),
        owned(&[1], SecurityBufferType::Alert),
        owned(&[], SecurityBufferType::Stream),
    ])
    .unwrap();
    let summary: Vec<(u32, u32, usize)> = records.iter().map(|r| (r.length, r.kind_code, r.data.len())).collect();
    assert_eq!(summary, vec![(300, 1, 300), (1, 17, 1), (0, 10, 0)]);
    assert_eq!(records[0].data, vec![7u8; 300]);
}

#[test]
fn every_byte_value_passes_through_unchanged() {
    let all: Vec<u8> = (0..=255u8).collect();
    let raw = [ForeignBuffer { length: 256, kind_code: 1, data: all.as_slice() }];
    let decoded = p_sec_buffers_to_security_buffers(&raw).unwrap();
    assert_eq!(decoded[0].buffer, all);
    let records = security_buffers_to_raw(decoded).unwrap();
    assert_eq!(records[0].data, all);
    assert_eq!(records[0].length, 256);
    assert_eq!(records[0].kind_code, 1);
}

#[test]
fn decode_copies_only_the_counted_prefix() {
    let bytes = [10u8, 20, 30, 40];
    let raw = [ForeignBuffer { length: 2, kind_code: 2, data: &bytes }];
    let decoded = p_sec_buffers_to_security_buffers(&raw).unwrap();
    assert_eq!(decoded[0].buffer, vec![10, 20]);
    assert_eq!(bytes, [10, 20, 30, 40]);
}

#[test]
fn decode_fails_on_an_unknown_kind() {
    let a = [1u8];
    let b = [2u8];
    let raw = [
        ForeignBuffer { length: 1, kind_code: 2, data: &a },
        ForeignBuffer { length: 1, kind_code: 19, data: &b },
        ForeignBuffer { length: 1, kind_code: 0x4000_0000, data: &b },
    ];
    assert_eq!(
        p_sec_buffers_to_security_buffers(&raw).err(),
        Some(DecodeError::UnknownKind { index: 1, code: 19 })
    );
}

#[test]
fn copy_writes_in_place_and_keeps_regions() {
    let from = vec![owned(&[1, 2], SecurityBufferType::Token), owned(&[9, 8, 7], SecurityBufferType::Data)];
    let mut first = [0xAAu8; 4];
    let mut second = [0xBBu8; 3];
    let first_addr = first.as_ptr();
    {
        let mut to = [
            ForeignBufferMut { length: 4, kind_code: 2, data: &mut first },
            ForeignBufferMut { length: 3, kind_code: 1, data: &mut second },
        ];
        assert_eq!(copy_to_c_sec_buffer(&from, &mut to), Ok(()));
        assert_eq!((to[0].length, to[0].kind_code), (2, 2));
        assert_eq!((to[1].length, to[1].kind_code), (3, 1));
        assert_eq!(to[0].data.as_ptr(), first_addr);
    }
    assert_eq!(first, [1, 2, 0xAA, 0xAA]);
    assert_eq!(second, [9, 8, 7]);
}

#[test]
fn copy_keeps_the_destination_kind_codes() {
    let from = vec![owned(&[5], SecurityBufferType::Padding)];
    let mut region = [0u8; 1];
    let mut to = [ForeignBufferMut { length: 0, kind_code: 7, data: &mut region }];
    assert_eq!(copy_to_c_sec_buffer(&from, &mut to), Ok(()));
    assert_eq!((to[0].length, to[0].kind_code), (1, 7));
}

#[test]
fn copy_refuses_a_region_too_small() {
    let from = vec![owned(&[1], SecurityBufferType::Token), owned(&[1, 2, 3], SecurityBufferType::Data)];
    let mut first = [0u8; 1];
    let mut second = [0u8; 2];
    {
        let mut to = [
            ForeignBufferMut { length: 1, kind_code: 2, data: &mut first },
            ForeignBufferMut { length: 2, kind_code: 1, data: &mut second },
        ];
        assert_eq!(
            copy_to_c_sec_buffer(&from, &mut to),
            Err(CopyError::CapacityExceeded { index: 1, length: 3, capacity: 2 })
        );
        assert_eq!((to[0].length, to[1].length), (1, 2));
    }
    assert_eq!(first, [0]);
    assert_eq!(second, [0, 0]);
}

#[test]
fn copy_refuses_a_count_mismatch() {
    let from = vec![owned(&[1], SecurityBufferType::Token)];
    let mut to: [ForeignBufferMut<'_>; 0] = [];
    assert_eq!(
        copy_to_c_sec_buffer(&from, &mut to),
        Err(CopyError::CountMismatch { expected: 1, found: 0 })
    );
}

#[test]
fn all_three_keep_the_order_of_distinct_kinds() {
    let kinds = [
        SecurityBufferType::StreamHeader,
        SecurityBufferType::Data,
        SecurityBufferType::StreamTrailer,
        SecurityBufferType::Empty,
    ];
    let from: Vec<SecurityBuffer> = kinds.iter().enumerate().map(|(i, k)| owned(&[i as u8], *k)).collect();
    let records = security_buffers_to_raw(from.clone()).unwrap();
    let codes: Vec<u32> = records.iter().map(|r| r.kind_code).collect();
    assert_eq!(codes, vec![7, 1, 6, 0]);
    let decoded = p_sec_buffers_to_security_buffers(&borrow_all(&records)).unwrap();
    let back: Vec<(SecurityBufferType, Vec<u8>)> = decoded.into_iter().map(|b| (b.buffer_type, b.buffer)).collect();
    let want: Vec<(SecurityBufferType, Vec<u8>)> = kinds.iter().enumerate().map(|(i, k)| (*k, vec![i as u8])).collect();
    assert_eq!(back, want);
    let mut regions = [[0u8; 1]; 4];
    let mut to: Vec<ForeignBufferMut<'_>> = regions
        .iter_mut()
        .map(|r| ForeignBufferMut { length: 1, kind_code: 0, data: r })
        .collect();
    assert_eq!(copy_to_c_sec_buffer(&from, &mut to), Ok(()));
    drop(to);
    assert_eq!(regions, [[0], [1], [2], [3]]);
}

#[test]
fn empty_collections_convert_trivially() {
    assert_eq!(p_sec_buffers_to_security_buffers(&[]).unwrap().len(), 0);
    assert_eq!(security_buffers_to_raw(Vec::new()).unwrap().len(), 0);
    let mut to: [ForeignBufferMut<'_>; 0] = [];
    assert_eq!(copy_to_c_sec_buffer(&[], &mut to), Ok(()));
}
