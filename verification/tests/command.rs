use clam_client::command::chunk_header;
use clam_client::command::chunk_terminator;
use clam_client::command::decode_chunked;
use clam_client::command::encode_chunked;
use clam_client::command::instream_command;
use clam_client::command::ping_command;
use clam_client::command::reload_command;
use clam_client::command::scan_command;
use clam_client::command::shutdown_command;
use clam_client::command::stats_command;
use clam_client::command::version_command;
use clam_client::error::ClamError;

#[test]
fn test_simple_command_bytes() {
    assert_eq!(ping_command(), "zPING\0".as_bytes().to_vec());
    assert_eq!(version_command(), "zVERSION\0".as_bytes().to_vec());
    assert_eq!(reload_command(), "zRELOAD\0".as_bytes().to_vec());
    assert_eq!(stats_command(), "zSTATS\0".as_bytes().to_vec());
    assert_eq!(shutdown_command(), "zSHUTDOWN\0".as_bytes().to_vec());
    assert_eq!(instream_command(), "zINSTREAM\0".as_bytes().to_vec());
}

#[test]
fn test_scan_command_bytes() {
    assert_eq!(scan_command("/tmp/x", false), "zSCAN /tmp/x\0".as_bytes().to_vec());
    assert_eq!(scan_command("/tmp/x", true), "zCONTSCAN /tmp/x\0".as_bytes().to_vec());
}

#[test]
fn test_chunk_header_and_terminator() {
    assert_eq!(chunk_header(4096).unwrap(), vec![0u8, 0, 16, 0]);
    assert_eq!(chunk_header(1808).unwrap(), vec![0u8, 0, 7, 16]);
    assert_eq!(chunk_terminator(), vec![0u8, 0, 0, 0]);
}

#[test]
fn test_chunk_header_oversized() {
    let too_big = (u32::MAX as usize) + 1;
    match chunk_header(too_big) {
        Err(ClamError::InvalidDataLengthError(n)) => assert_eq!(n, too_big),
        other => panic!("expected an oversized-chunk error, got {:?}", other),
    }
}

#[test]
fn test_chunk_encoding_shapes() {
    let data: Vec<u8> = (0..10000u32).map(|i| (i % 251) as u8).collect();
    let wire = encode_chunked(&data);
    // Three chunks of 4096, 4096 and 1808 bytes, then the terminator.
    assert_eq!(wire.len(), 4 + 4096 + 4 + 4096 + 4 + 1808 + 4);
    assert_eq!(&wire[0..4], &[0u8, 0, 16, 0]);
    assert_eq!(&wire[4..4100], &data[0..4096]);
    assert_eq!(&wire[4100..4104], &[0u8, 0, 16, 0]);
    assert_eq!(&wire[4104..8200], &data[4096..8192]);
    assert_eq!(&wire[8200..8204], &[0u8, 0, 7, 16]);
    assert_eq!(&wire[8204..10012], &data[8192..10000]);
    assert_eq!(&wire[10012..10016], &[0u8, 0, 0, 0]);
}

#[test]
fn test_chunk_round_trip() {
    let data: Vec<u8> = (0..10000u32).map(|i| (i % 251) as u8).collect();
    let wire = encode_chunked(&data);
    assert_eq!(decode_chunked(&wire), Some(data));
}

#[test]
fn test_chunk_exact_multiple_terminates() {
    // A source of exactly two full blocks still ends with the empty
    // terminating chunk and decodes back to itself.
    let data: Vec<u8> = (0..8192u32).map(|i| (i % 13) as u8).collect();
    let wire = encode_chunked(&data);
    assert_eq!(wire.len(), 4 + 4096 + 4 + 4096 + 4);
    assert_eq!(&wire[8200..8204], &[0u8, 0, 0, 0]);
    assert_eq!(decode_chunked(&wire), Some(data));
}

#[test]
fn test_chunk_empty_source() {
    let data: Vec<u8> = Vec::new();
    let wire = encode_chunked(&data);
    assert_eq!(wire, vec![0u8, 0, 0, 0]);
    assert_eq!(decode_chunked(&wire), Some(Vec::new()));
}

#[test]
fn test_decode_rejects_truncated_sequence() {
    let wire = vec![0u8, 0, 0, 3, 1, 2];
    assert_eq!(decode_chunked(&wire), None);
    let no_terminator = vec![0u8, 0, 0, 2, 9, 9];
    assert_eq!(decode_chunked(&no_terminator), None);
}
