use zproxy::error::Failure;
use zproxy::proxy::chunked::{chunk_size, ChunkedRelay, RelayAction};
use zproxy::proxy::transfer::{decode_chunked_body, forward_chunked_body, ByteSource};

#[test]
fn wikipedia_is_relayed_unchanged() {
    let input = b"4\r\nWiki\r\n5\r\npedia\r\n0\r\n\r\n";
    let mut reader = ByteSource::new(input);
    let mut sink: Vec<u8> = Vec::new();
    let got = forward_chunked_body(&mut reader, &mut sink);
    assert_eq!(got, Ok((input.len(), input.len())));
    assert_eq!(sink, input.to_vec());
    assert_eq!(reader.pos, input.len());
}

#[test]
fn wikipedia_payload_is_recovered() {
    let input = b"4\r\nWiki\r\n5\r\npedia\r\n0\r\n\r\n";
    let mut reader = ByteSource::new(input);
    let mut buffer: Vec<u8> = Vec::new();
    let got = decode_chunked_body(&mut reader, &mut buffer);
    assert_eq!(got, Ok((input.len(), 9)));
    assert_eq!(buffer, b"Wikipedia".to_vec());
}

#[test]
fn relay_stops_at_the_end_of_the_body() {
    let input = b"1\r\nx\r\n0\r\n\r\nrest";
    let mut reader = ByteSource::new(input);
    let mut sink: Vec<u8> = vec![7];
    let got = forward_chunked_body(&mut reader, &mut sink);
    assert_eq!(got, Ok((11, 11)));
    assert_eq!(sink, b"\x071\r\nx\r\n0\r\n\r\n".to_vec());
    assert_eq!(reader.pos, 11);
}

#[test]
fn truncated_body_is_an_unexpected_end() {
    let mut reader = ByteSource::new(b"4\r\nWi");
    let mut sink: Vec<u8> = b"-".to_vec();
    assert_eq!(forward_chunked_body(&mut reader, &mut sink), Err(Failure::UnexpectedEof));
    assert_eq!(sink, b"-4\r\nWi".to_vec());
    assert_eq!(reader.pos, 5);
    let mut reader = ByteSource::new(b"4\r\nWiki\r");
    let mut sink: Vec<u8> = Vec::new();
    assert_eq!(forward_chunked_body(&mut reader, &mut sink), Err(Failure::UnexpectedEof));
    assert_eq!(sink, b"4\r\nWiki".to_vec());
    assert_eq!(reader.pos, 8);
    let mut reader = ByteSource::new(b"0\r\n");
    let mut sink: Vec<u8> = Vec::new();
    assert_eq!(forward_chunked_body(&mut reader, &mut sink), Err(Failure::UnexpectedEof));
    assert_eq!(sink, b"0\r\n".to_vec());
    let mut reader = ByteSource::new(b"1\r\nx\r\n5");
    let mut sink: Vec<u8> = Vec::new();
    assert_eq!(forward_chunked_body(&mut reader, &mut sink), Err(Failure::UnexpectedEof));
    assert_eq!(sink, b"1\r\nx\r\n".to_vec());
    assert_eq!(reader.pos, 7);
    let mut reader = ByteSource::new(b"");
    let mut sink: Vec<u8> = Vec::new();
    assert_eq!(forward_chunked_body(&mut reader, &mut sink), Err(Failure::UnexpectedEof));
    assert!(sink.is_empty());
}

#[test]
fn size_that_is_no_number_is_invalid_data() {
    let mut reader = ByteSource::new(b"xyz\r\nabc\r\n0\r\n\r\n");
    let mut sink: Vec<u8> = Vec::new();
    assert_eq!(forward_chunked_body(&mut reader, &mut sink), Err(Failure::InvalidData));
    assert_eq!(sink, b"xyz\r\n".to_vec());
    assert_eq!(reader.pos, 5);
    let mut reader = ByteSource::new(b"2\r\nab\r\nxyz\r\nabc\r\n0\r\n\r\n");
    let mut sink: Vec<u8> = Vec::new();
    assert_eq!(forward_chunked_body(&mut reader, &mut sink), Err(Failure::InvalidData));
    assert_eq!(sink, b"2\r\nab\r\nxyz\r\n".to_vec());
    assert_eq!(reader.pos, 12);
}

#[test]
fn failed_decoding_keeps_the_chunk_data_met_so_far() {
    let mut reader = ByteSource::new(b"2\r\nab\r\nxyz\r\nabc\r\n0\r\n\r\n");
    let mut buffer: Vec<u8> = Vec::new();
    assert_eq!(decode_chunked_body(&mut reader, &mut buffer), Err(Failure::InvalidData));
    assert_eq!(buffer, b"ab".to_vec());
    assert_eq!(reader.pos, 12);
    let mut reader = ByteSource::new(b"4\r\nWi");
    let mut buffer: Vec<u8> = Vec::new();
    assert_eq!(decode_chunked_body(&mut reader, &mut buffer), Err(Failure::UnexpectedEof));
    assert_eq!(buffer, b"Wi".to_vec());
}

#[test]
fn size_lines() {
    assert_eq!(chunk_size(b"4\r\n"), Some(4));
    assert_eq!(chunk_size(b"1A\r\n"), Some(26));
    assert_eq!(chunk_size(b"ff\r\n"), Some(255));
    assert_eq!(chunk_size(b" 10 \r\n"), Some(16));
    assert_eq!(chunk_size(b"+8\r\n"), Some(8));
    assert_eq!(chunk_size(b"4;name=value\r\n"), Some(4));
    assert_eq!(chunk_size(b"0\r\n"), Some(0));
    assert_eq!(chunk_size(b"\r\n"), None);
    assert_eq!(chunk_size(b"\n"), None);
    assert_eq!(chunk_size(b"-4\r\n"), None);
    assert_eq!(chunk_size(b"4g\r\n"), None);
    assert_eq!(chunk_size(b"\xff\xfe\r\n"), None);
    assert_eq!(chunk_size(b"FFFFFFFFFFFFFFFFFFFFFFFF\r\n"), None);
}

#[test]
fn relay_steps_in_order() {
    let mut relay = ChunkedRelay::new(true);
    assert_eq!(relay.pending, RelayAction::ReadSizeLine);
    assert_eq!(relay.on_size_line(b"3\r\n"), Ok(RelayAction::CopyPayload(3)));
    assert_eq!(relay.on_size_line(b"3\r\n"), Err(Failure::InvalidInput));
    assert_eq!(relay.on_moved(2), Err(Failure::UnexpectedEof));
    assert_eq!(relay.on_moved(4), Err(Failure::InvalidInput));
    assert_eq!(relay.on_moved(3), Ok(RelayAction::CopyDelimiter));
    assert_eq!(relay.on_moved(2), Ok(RelayAction::ReadSizeLine));
    assert_eq!(relay.on_moved(2), Err(Failure::InvalidInput));
    assert_eq!(relay.on_size_line(b"0\r\n"), Ok(RelayAction::CopyTrailer));
    assert_eq!(relay.on_moved(2), Ok(RelayAction::Finish));
    assert_eq!((relay.bytes_read, relay.bytes_written), (13, 13));
}

#[test]
fn decoding_relay_counts_only_payload_as_written() {
    let mut relay = ChunkedRelay::new(false);
    assert_eq!(relay.on_size_line(b"3\r\n"), Ok(RelayAction::CopyPayload(3)));
    assert_eq!(relay.on_moved(3), Ok(RelayAction::CopyDelimiter));
    assert_eq!(relay.on_moved(2), Ok(RelayAction::ReadSizeLine));
    assert_eq!(relay.on_size_line(b"0\r\n"), Ok(RelayAction::CopyTrailer));
    assert_eq!(relay.on_moved(2), Ok(RelayAction::Finish));
    assert_eq!((relay.bytes_read, relay.bytes_written), (13, 3));
}
