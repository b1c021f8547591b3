use veq::transform::{ChunkGroup, ChunkedData, Chunker};

fn deliver(receiver: &mut Chunker<()>, frames: &[Vec<u8>]) {
    for f in frames {
        let chunk = ChunkedData::decode(f).expect("frame decodes");
        assert!(receiver.accepts_chunk(&chunk));
        receiver.add_chunk(chunk);
    }
}

#[test]
fn transform_test_send_recv() {
    let mut chunker: Chunker<()> = Chunker::new((), 3);
    let data = vec![1, 2, 3, 4, 5, 6, 7, 8];
    let frames = chunker.send_frames(&data);
    deliver(&mut chunker, &frames);
    let received = chunker.next_ready_chunk().unwrap();
    assert_eq!(data, received);
}

#[test]
fn chunker_cuts_into_pieces_of_chunk_size() {
    let mut chunker: Chunker<()> = Chunker::new((), 3);
    let frames = chunker.send_frames(&[1, 2, 3, 4, 5, 6, 7, 8]);
    assert_eq!(frames.len(), 3);
    let pieces: Vec<Vec<u8>> = frames
        .iter()
        .map(|f| ChunkedData::decode(f).unwrap().data)
        .collect();
    assert_eq!(pieces, vec![vec![1, 2, 3], vec![4, 5, 6], vec![7, 8]]);
    for (i, f) in frames.iter().enumerate() {
        let c = ChunkedData::decode(f).unwrap();
        assert_eq!(c.group, 0);
        assert_eq!(c.index, i as u64);
        assert_eq!(c.group_length, 3);
    }
}

#[test]
fn chunker_numbers_groups_in_sending_order() {
    let mut chunker: Chunker<()> = Chunker::new((), 4);
    let first = chunker.send_frames(&[1, 2]);
    let second = chunker.send_frames(&[3, 4]);
    assert_eq!(ChunkedData::decode(&first[0]).unwrap().group, 0);
    assert_eq!(ChunkedData::decode(&second[0]).unwrap().group, 1);
}

#[test]
fn chunker_empty_payload_has_no_frames() {
    let mut chunker: Chunker<()> = Chunker::new((), 3);
    let frames = chunker.send_frames(&[]);
    assert!(frames.is_empty());
    assert!(chunker.next_ready_chunk().is_none());
}

#[test]
fn chunker_reassembles_out_of_order_and_interleaved_groups() {
    let mut sender: Chunker<()> = Chunker::new((), 2);
    let mut receiver: Chunker<()> = Chunker::new((), 2);
    let a: Vec<u8> = (0..7).collect();
    let b: Vec<u8> = (100..105).collect();
    let fa = sender.send_frames(&a);
    let fb = sender.send_frames(&b);
    let mut order: Vec<Vec<u8>> = Vec::new();
    order.push(fb[2].clone());
    order.push(fa[3].clone());
    order.push(fa[0].clone());
    order.push(fb[0].clone());
    order.push(fa[2].clone());
    order.push(fb[1].clone());
    deliver(&mut receiver, &order);
    // group b is complete, group a still misses piece 1
    assert_eq!(receiver.next_ready_chunk(), Some(b.clone()));
    assert_eq!(receiver.next_ready_chunk(), None);
    deliver(&mut receiver, &[fa[1].clone()]);
    assert_eq!(receiver.next_ready_chunk(), Some(a));
}

#[test]
fn chunker_refuses_duplicate_and_out_of_range_pieces() {
    let mut sender: Chunker<()> = Chunker::new((), 2);
    let mut receiver: Chunker<()> = Chunker::new((), 2);
    let frames = sender.send_frames(&[1, 2, 3, 4, 5]);
    let first = ChunkedData::decode(&frames[0]).unwrap();
    assert!(receiver.accepts_chunk(&first));
    receiver.add_chunk(first);
    let again = ChunkedData::decode(&frames[0]).unwrap();
    assert!(!receiver.accepts_chunk(&again));
    let bad = ChunkedData { group: 9, index: 3, group_length: 3, data: vec![1] };
    assert!(!receiver.accepts_chunk(&bad));
}

#[test]
fn chunked_data_layout_matches_bincode() {
    let c = ChunkedData { group: 7, index: 2, group_length: 5, data: vec![9, 8, 7] };
    let expected = bincode::serialize(&(7u64, 2u64, 5u64, vec![9u8, 8, 7])).unwrap();
    assert_eq!(c.encode(), expected);
    let d = ChunkedData::decode(&expected).unwrap();
    assert_eq!((d.group, d.index, d.group_length, d.data), (7, 2, 5, vec![9, 8, 7]));
}

#[test]
fn chunked_data_decode_refuses_truncated_bytes() {
    let c = ChunkedData { group: 1, index: 0, group_length: 1, data: vec![1, 2, 3] };
    let bytes = c.encode();
    assert!(ChunkedData::decode(&bytes[..bytes.len() - 1]).is_none());
    assert!(ChunkedData::decode(&[]).is_none());
}

#[test]
fn chunk_group_collects_in_index_order() {
    let mut g = ChunkGroup::new(3);
    assert!(!g.is_complete());
    g.add_chunk(ChunkedData { group: 0, index: 2, group_length: 3, data: vec![5] });
    g.add_chunk(ChunkedData { group: 0, index: 0, group_length: 3, data: vec![1, 2] });
    assert!(!g.is_complete());
    g.add_chunk(ChunkedData { group: 0, index: 1, group_length: 3, data: vec![3, 4] });
    assert!(g.is_complete());
    assert_eq!(g.collect(), vec![1, 2, 3, 4, 5]);
}
