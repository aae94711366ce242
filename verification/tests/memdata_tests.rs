use cpandas::memdata::{Chunk, ChunkKey, MemData};
use cpandas::Error;

#[test]
fn test_encrypted() {
    let res = String::from("woheni");
    println!("{:?}", res.clone().into_bytes().len());
    println!("{:?}", res);
    let mem_data = MemData::new(res.into_bytes()).unwrap();
    let d = mem_data.decrypt().unwrap();

    println!("{:?}", String::from_utf8(d.clone()).unwrap());
    assert_eq!(String::from_utf8(d).unwrap(), "woheni");
}

#[test]
fn data_longer_than_the_padding_comes_back_whole() {
    let data: Vec<u8> = (0..10_000u32).map(|n| (n % 251) as u8).collect();
    let mem = MemData::new(data.clone()).unwrap();
    assert_eq!(mem.decrypt().unwrap(), data);
    let copy = mem.clone();
    assert_eq!(copy.decrypt().unwrap(), data);
}

#[test]
fn empty_data_comes_back_empty() {
    let mem = MemData::new(Vec::new()).unwrap();
    assert_eq!(mem.decrypt().unwrap(), Vec::<u8>::new());
    assert_eq!(MemData::default().decrypt().unwrap(), Vec::<u8>::new());
}

#[test]
fn nothing_encrypted_assembles_to_an_error() {
    assert!(matches!(MemData::assemble(3, None), Err(Error::CryptoError)));
}

fn key(index: usize) -> ChunkKey {
    ChunkKey { index, dst_hash: [0; 32], src_hash: [index as u8; 32], src_size: 0 }
}

#[test]
fn chunks_that_share_an_index_are_refused() {
    let keys = vec![key(0), key(1), key(2)];
    let chunks = vec![
        Chunk { index: 1, content: vec![1, 2, 3] },
        Chunk { index: 1, content: vec![4, 5, 6] },
    ];
    let mem = MemData::assemble(0, Some((keys, chunks))).unwrap();
    assert_eq!(mem.decrypt(), Err(Error::CryptoError));
}

#[test]
fn chunks_beyond_the_map_are_refused() {
    let chunks = vec![Chunk { index: 3, content: vec![1] }];
    let mem = MemData::assemble(0, Some((vec![key(0), key(1), key(2)], chunks))).unwrap();
    assert_eq!(mem.decrypt(), Err(Error::CryptoError));
    let lone = vec![Chunk { index: 0, content: vec![1] }];
    let mem = MemData::assemble(0, Some((vec![key(0)], lone))).unwrap();
    assert_eq!(mem.decrypt(), Err(Error::CryptoError));
}
