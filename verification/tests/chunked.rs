use modbus_client::chunked::{ChunkedRead, CHUNK_SIZE};

fn run(start: u16, cnt: u16) -> (Vec<(u16, u16)>, Vec<u32>) {
    let mut r: ChunkedRead<u32> = ChunkedRead::new(start, cnt);
    let mut requests = Vec::new();
    while let Some((addr, qty)) = r.next_request() {
        requests.push((addr, qty));
        let data: Vec<u32> = (0..qty as u32).map(|i| addr as u32 + i).collect();
        r.accept(data);
    }
    (requests, r.finish())
}

#[test]
fn chunked_requests_cover_range() {
    assert_eq!(CHUNK_SIZE, 32);
    let (req, items) = run(0, 70);
    assert_eq!(req, vec![(0, 32), (32, 32), (64, 6)]);
    assert_eq!(items, (0..70).collect::<Vec<u32>>());
    let (req, items) = run(10, 32);
    assert_eq!(req, vec![(10, 32)]);
    assert_eq!(items.len(), 32);
    let (req, items) = run(5, 0);
    assert!(req.is_empty() && items.is_empty());
}

#[test]
fn chunked_addresses_wrap_at_sixteen_bits() {
    let (req, _) = run(65530, 40);
    assert_eq!(req, vec![(65530, 32), (26, 8)]);
    let (req, _) = run(65535, 65535);
    assert_eq!(req.len(), 2048);
    assert_eq!(req[1], (31, 32));
    assert_eq!(req.last(), Some(&(65503, 31)));
}

#[test]
fn chunked_keeps_what_each_read_returned() {
    let mut r: ChunkedRead<bool> = ChunkedRead::new(0, 40);
    assert_eq!(r.next_request(), Some((0, 32)));
    r.accept(vec![true; 3]);
    assert_eq!(r.next_request(), Some((32, 8)));
    r.accept(vec![false; 8]);
    assert_eq!(r.next_request(), None);
    assert_eq!(r.finish().len(), 11);
}
