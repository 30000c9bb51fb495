//! The RESP codec and the command parser, exercised on the wire forms
//! clients actually send.

use rs_redis::command::{command_parser, count_resp_command_type_offset, process_command_vec,
    string_to_bulk_string, string_to_bulk_string_for_psync, array_to_resp_array, RespCommandType};
use rs_redis::message::{RespMessage, RespParsingState, RespType};
use rs_redis::resp::{decode_frame, encode, Decoded, RespFrame};

#[test]
fn test_resp_message_parse() {
    let cmd = RespCommandType::Get(String::from("foo"));
    assert_eq!(count_resp_command_type_offset(cmd), 22);
}

#[test]
fn command_parser_test() {
    let input1 = String::from("*1\r\n$4\r\nping\r\n");
    let input2 = String::from("*3\r\n$3\r\nset\r\n$3\r\nkey\r\n$5\r\nvalue\r\n");
    let input3 = String::from("*5\r\n$3\r\nset\r\n$3\r\nkey\r\n$5\r\nvalue\r\n$2\r\npx\r\n$3\r\n100\r\n");
    let input4 = String::from("*2\r\n$3\r\nget\r\n$3\r\nkey\r\n");
    let input5 = String::from("+FULLRESYNC 75cd7bc10c49047e0d163660f3b90625b1af31dc 0\r\n");
    let input6 = String::from("$3\r\nabc\r\n");

    let d1 = input1.as_bytes().to_vec();
    let d2 = input2.as_bytes().to_vec();
    let d3 = input3.as_bytes().to_vec();
    let d4 = input4.as_bytes().to_vec();
    let d5 = input5.as_bytes().to_vec();
    let d6 = input6.as_bytes().to_vec();

    assert_eq!(command_parser(&d1).unwrap()[0], RespCommandType::Ping);

    assert_eq!(
        command_parser(&d2).unwrap()[0],
        RespCommandType::SetKv("key".to_string(), "value".to_string())
    );

    assert_eq!(
        command_parser(&d3).unwrap()[0],
        RespCommandType::SetPx("key".to_string(), "value".to_string(), 100)
    );

    assert_eq!(
        command_parser(&d4).unwrap()[0],
        RespCommandType::Get("key".to_string())
    );

    assert_eq!(command_parser(&d5).unwrap()[0], RespCommandType::Error);

    assert_eq!(command_parser(&d6).unwrap()[0], RespCommandType::Error);
}

#[test]
fn command_parser_test2() {
    let input1 = String::from(
        "*3\r\n$3\r\nSET\r\n$3\r\nfoo\r\n$3\r\n123\r\n*3\r\n$3\r\nSET\r\n$3\r\nbar\r\n$3\r\n456\r\n",
    );
    let input2 = String::from("*3\r\n$8\r\nREPLCONF\r\n$6\r\nGETACK\r\n$1\r\n*\r\n");
    let d1 = input1.as_bytes().to_vec();
    let d2 = input2.as_bytes().to_vec();

    let mut vec1 = Vec::new();
    vec1.push(RespCommandType::SetKv("foo".to_string(), "123".to_string()));
    vec1.push(RespCommandType::SetKv("bar".to_string(), "456".to_string()));
    assert_eq!(command_parser(&d1).unwrap(), vec1);

    let mut vec2 = Vec::new();
    vec2.push(RespCommandType::Replconf("getack".to_string()));
    assert_eq!(command_parser(&d2).unwrap(), vec2);
}

#[test]
fn encode_decode_round_trip() {
    let frame = RespFrame::Array(vec![
        RespFrame::Bulk(b"SET".to_vec()),
        RespFrame::Bulk(b"key".to_vec()),
        RespFrame::Integer(-42),
        RespFrame::Simple(b"OK".to_vec()),
        RespFrame::NullBulk,
        RespFrame::Array(vec![RespFrame::Bulk(b"x".to_vec())]),
        RespFrame::NullArray,
    ]);
    let bytes = encode(&frame);
    match decode_frame(&bytes, 0) {
        Decoded::Found(back, end) => {
            assert_eq!(back, frame);
            assert_eq!(end, bytes.len());
        }
        other => panic!("expected a frame, got {:?}", other),
    }
}

#[test]
fn decode_handles_pipelined_and_partial_input() {
    let bytes = b"+PONG\r\n:12\r\n$3\r\nabc\r\n".to_vec();
    let first = decode_frame(&bytes, 0);
    match first {
        Decoded::Found(f, end) => {
            assert_eq!(f, RespFrame::Simple(b"PONG".to_vec()));
            assert_eq!(end, 7);
            match decode_frame(&bytes, end) {
                Decoded::Found(g, end2) => {
                    assert_eq!(g, RespFrame::Integer(12));
                    match decode_frame(&bytes, end2) {
                        Decoded::Found(h, end3) => {
                            assert_eq!(h, RespFrame::Bulk(b"abc".to_vec()));
                            assert_eq!(end3, bytes.len());
                        }
                        other => panic!("third frame missing: {:?}", other),
                    }
                }
                other => panic!("second frame missing: {:?}", other),
            }
        }
        other => panic!("first frame missing: {:?}", other),
    }

    let partial = b"$10\r\nabc".to_vec();
    assert_eq!(decode_frame(&partial, 0), Decoded::More);

    let nil = b"$-1\r\n".to_vec();
    assert_eq!(decode_frame(&nil, 0), Decoded::Found(RespFrame::NullBulk, 5));

    let bad = b"x\r\n".to_vec();
    assert_eq!(decode_frame(&bad, 0), Decoded::Bad);
}

#[test]
fn message_assembler_walks_lines() {
    let mut m = RespMessage::new("peer".to_string());
    m.parse("+OK");
    assert_eq!(m.resp_type, RespType::SimpleString);
    assert_eq!(m.state, RespParsingState::End);
    assert_eq!(m.str_data, "OK".to_string());

    let mut header = RespMessage::new("peer".to_string());
    header.parse("$5");
    assert_eq!(header.resp_type, RespType::BulkString);
    assert_eq!(header.state, RespParsingState::ParsingData);
    assert_eq!(header.int_data, 5);
    header.parse("hello");
    assert_eq!(header.state, RespParsingState::End);
    assert_eq!(header.str_data, "hello".to_string());

    let mut arr = RespMessage::new("peer".to_string());
    arr.parse("*2");
    assert_eq!(arr.resp_type, RespType::Array);
    assert_eq!(arr.int_data, 2);
}

#[test]
fn bulk_string_builders_match_the_wire() {
    assert_eq!(string_to_bulk_string("hello".to_string()), "$5\r\nhello\r\n".to_string());
    assert_eq!(
        array_to_resp_array(vec!["dir".to_string(), "/tmp/x".to_string()]),
        "*2\r\n$3\r\ndir\r\n$6\r\n/tmp/x\r\n".to_string()
    );
    assert_eq!(string_to_bulk_string_for_psync("ab".to_string()), "$1\r\n".to_string());
}

#[test]
fn offsets_count_serialized_bytes() {
    // *1\r\n$4\r\nPING\r\n
    assert_eq!(count_resp_command_type_offset(RespCommandType::Ping), 14);
    // *3\r\n$8\r\nREPLCONF\r\n$6\r\nGETACK\r\n$1\r\n*\r\n
    assert_eq!(
        count_resp_command_type_offset(RespCommandType::Replconf("getack".to_string())),
        37
    );
    assert_eq!(
        count_resp_command_type_offset(RespCommandType::Replconf("other".to_string())),
        0
    );
    // *3\r\n$3\r\nSET\r\n$3\r\nfoo\r\n$3\r\n123\r\n
    assert_eq!(
        count_resp_command_type_offset(RespCommandType::SetKv(
            "foo".to_string(),
            "123".to_string()
        )),
        31
    );
    // *5\r\n$3\r\nSET\r\n$3\r\nfoo\r\n$3\r\n123\r\n$2\r\nPX\r\n$3\r\n100\r\n
    assert_eq!(
        count_resp_command_type_offset(RespCommandType::SetPx(
            "foo".to_string(),
            "123".to_string(),
            100
        )),
        48
    );
    assert_eq!(count_resp_command_type_offset(RespCommandType::Error), 0);
}

#[test]
fn process_command_vec_classifies_words() {
    assert_eq!(
        process_command_vec(vec!["PING".to_string()]),
        RespCommandType::Ping
    );
    assert_eq!(
        process_command_vec(vec!["SET".to_string(), "k".to_string(), "v".to_string()]),
        RespCommandType::SetKv("k".to_string(), "v".to_string())
    );
    assert_eq!(
        process_command_vec(vec![
            "set".to_string(),
            "k".to_string(),
            "v".to_string(),
            "PX".to_string(),
            "7".to_string()
        ]),
        RespCommandType::SetPx("k".to_string(), "v".to_string(), 7)
    );
    assert_eq!(
        process_command_vec(vec!["set".to_string(), "k".to_string()]),
        RespCommandType::Error
    );
    assert_eq!(process_command_vec(Vec::new()), RespCommandType::Error);
}

#[test]
fn nil_forms_and_negative_integers_decode() {
    let nil_array = b"*-1\r\n".to_vec();
    assert_eq!(
        decode_frame(&nil_array, 0),
        Decoded::Found(RespFrame::NullArray, 5)
    );
    let negative = b":-5\r\n".to_vec();
    assert_eq!(
        decode_frame(&negative, 0),
        Decoded::Found(RespFrame::Integer(-5), 5)
    );
    let empty_array = b"*0\r\n".to_vec();
    assert_eq!(
        decode_frame(&empty_array, 0),
        Decoded::Found(RespFrame::Array(Vec::new()), 4)
    );
}
