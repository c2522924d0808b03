use std::io::{Seek, SeekFrom, Write};

use my_service_bus::persistence::pages_repo::{compressed_chunks, connect_retries, messages_by_id};
use my_service_bus::persistence::split::split;
use my_service_bus::persistence::zip::{
    compress_payload, decompress_payload, SeekPosition, VecWriter,
};
use my_service_bus::messages_page::MySbMessageContent;
use my_service_bus::date_time::DateTimeAsMicroseconds;

#[test]
fn test_zip_unzip() {
    let src = vec![0u8, 1u8, 2u8, 3u8, 4u8, 5u8, 6u8, 7u8, 8u8, 9u8, 10u8];

    let compressed = compress_payload(&src).unwrap();

    println!("{}", compressed.len());

    let uncompressed = decompress_payload(&compressed).unwrap();

    println!("{}", uncompressed.len());
    assert_eq!(src, uncompressed);
}

#[test]
fn compressed_payload_is_a_zip_archive_not_the_payload() {
    let src: Vec<u8> = (0..200u32).map(|i| (i % 7) as u8).collect();
    let compressed = compress_payload(&src).unwrap();
    assert_ne!(src, compressed);
    assert_eq!(b"PK", &compressed[0..2]);
    assert_eq!(src, decompress_payload(&compressed).unwrap());
}

#[test]
fn empty_payload_round_trips() {
    let compressed = compress_payload(&[]).unwrap();
    assert!(!compressed.is_empty());
    assert_eq!(Vec::<u8>::new(), decompress_payload(&compressed).unwrap());
}

#[test]
fn bytes_that_are_no_archive_are_refused() {
    assert!(decompress_payload(&[]).is_err());
    assert!(decompress_payload(&[0u8, 1u8, 2u8, 3u8]).is_err());
}

#[test]
fn vec_writer_appends_at_the_end() {
    let mut writer = VecWriter::new();
    assert_eq!(3, writer.write_bytes(&[1, 2, 3]));
    assert_eq!(2, writer.write_bytes(&[4, 5]));
    assert_eq!(vec![1u8, 2, 3, 4, 5], writer.buf);
}

#[test]
fn vec_writer_overwrites_after_a_seek_back() {
    let mut writer = VecWriter::new();
    writer.write_bytes(&[1, 2, 3, 4, 5]);
    assert_eq!(1, writer.seek_to(SeekPosition::Start(1)));
    writer.write_bytes(&[9, 9]);
    assert_eq!(vec![1u8, 9, 9, 4, 5], writer.buf);
    assert_eq!(4, writer.seek_to(SeekPosition::End(-1)));
    writer.write_bytes(&[7, 8, 6]);
    assert_eq!(vec![1u8, 9, 9, 4, 7, 8, 6], writer.buf);
    assert_eq!(5, writer.seek_to(SeekPosition::Current(-2)));
    assert_eq!(7, writer.seek_to(SeekPosition::End(0)));
    assert_eq!(vec![1u8, 9, 9, 4, 7, 8, 6], writer.into_bytes());
}

#[test]
fn vec_writer_as_std_writer() {
    let mut writer = VecWriter::new();
    writer.write_all(&[1, 2, 3, 4]).unwrap();
    assert_eq!(2, writer.seek(SeekFrom::Start(2)).unwrap());
    writer.write_all(&[5]).unwrap();
    assert_eq!(4, writer.seek(SeekFrom::End(0)).unwrap());
    writer.flush().unwrap();
    assert_eq!(vec![1u8, 2, 5, 4], writer.buf);
    assert_eq!(3, writer.seek(SeekFrom::End(-1)).unwrap());
    assert_eq!(1, writer.seek(SeekFrom::Current(-2)).unwrap());
    assert_eq!(2, writer.seek(SeekFrom::Current(1)).unwrap());
}

#[test]
fn archive_whose_other_entry_is_corrupt_still_gives_its_payload() {
    let mut writer = zip::ZipWriter::new(std::io::Cursor::new(Vec::new()));
    let options = zip::write::SimpleFileOptions::default().compression_method(zip::CompressionMethod::Stored);
    writer.start_file("d", options).unwrap();
    writer.write_all(&[1, 2, 3]).unwrap();
    writer.start_file("x", options).unwrap();
    writer.write_all(&[0xAB; 16]).unwrap();
    let mut bytes = writer.finish().unwrap().into_inner();
    let at = bytes.windows(16).position(|w| w == [0xAB; 16]).unwrap();
    bytes[at] = 0xCD;
    assert_eq!(vec![1u8, 2, 3], decompress_payload(&bytes).unwrap());
}

#[test]
fn vec_writer_refuses_to_write_past_the_end() {
    let mut writer = VecWriter::new();
    writer.write_bytes(&[1, 2]);
    writer.seek(SeekFrom::Start(5)).unwrap();
    assert!(writer.write(&[3]).is_err());
    assert_eq!(vec![1u8, 2], writer.buf);
}

#[test]
fn split_cuts_into_chunks_of_at_most_max() {
    let src = vec![1u8, 2, 3, 4, 5, 6, 7];
    let chunks = split(&src, 3);
    assert_eq!(vec![vec![1u8, 2, 3], vec![4, 5, 6], vec![7]], chunks);
    assert_eq!(vec![vec![1u8, 2, 3, 4, 5, 6, 7]], split(&src, 7));
    assert_eq!(vec![vec![1u8, 2, 3, 4, 5, 6, 7]], split(&src, 100));
    assert_eq!(Vec::<Vec<u8>>::new(), split(&[], 3));
}

#[test]
fn split_chunks_rejoin_to_the_source() {
    let src: Vec<u8> = (0..50u8).collect();
    let chunks = split(&src, 8);
    assert_eq!(7, chunks.len());
    assert_eq!(src, chunks.concat());
}

#[test]
fn compressed_chunks_rejoin_to_an_archive_of_the_payload() {
    let payload: Vec<u8> = (0..300u32).map(|i| (i * 31 % 251) as u8).collect();
    let chunks = compressed_chunks(&payload, 16).unwrap();
    assert!(chunks.len() > 1);
    assert!(chunks.iter().all(|c| !c.is_empty() && c.len() <= 16));
    let archive = chunks.concat();
    assert_eq!(payload, decompress_payload(&archive).unwrap());
}

#[test]
fn page_messages_are_keyed_by_id() {
    let time = DateTimeAsMicroseconds::new(5);
    let messages = vec![
        MySbMessageContent { id: 10, content: vec![1], time },
        MySbMessageContent { id: 11, content: vec![2], time },
        MySbMessageContent { id: 10, content: vec![3], time },
    ];
    let by_id = messages_by_id(messages);
    assert_eq!(2, by_id.len());
    assert_eq!(vec![3u8], by_id.get(&10).unwrap().content);
    assert_eq!(vec![2u8], by_id.get(&11).unwrap().content);
}

#[test]
fn connecting_is_tried_six_times() {
    assert!(connect_retries(0));
    assert!(connect_retries(4));
    assert!(!connect_retries(5));
    assert!(!connect_retries(9));
}
