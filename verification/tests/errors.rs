//! Each rejection path, driven once: every handler error on an input
//! that earns it, and the stream-id classifier over its textual forms.

use rs_redis::command::{command_parser, ParseError};
use rs_redis::dispatch::{command_handler, HandlerError};
use rs_redis::message::{RespMessage, RespParsingState, RespType};
use rs_redis::store::StoreEngine;
use rs_redis::stream::{StreamID, StreamIDState};

fn elem(text: &str) -> RespMessage {
    RespMessage {
        remote_addr: "c".to_string(),
        resp_type: RespType::BulkString,
        state: RespParsingState::End,
        int_data: 0,
        str_data: text.to_string(),
        vec_data: Vec::new(),
    }
}

fn msg(args: &[&str]) -> RespMessage {
    RespMessage {
        remote_addr: "c".to_string(),
        resp_type: RespType::Array,
        state: RespParsingState::End,
        int_data: 0,
        str_data: String::new(),
        vec_data: args.iter().map(|a| elem(a)).collect(),
    }
}

#[test]
fn every_rejection_has_its_reason() {
    let mut db = StoreEngine::new();

    // a message of no known kind
    let unknown = RespMessage::new("c".to_string());
    assert_eq!(
        command_handler(&mut db, &unknown, 0),
        Err(HandlerError::UnknownCommand)
    );

    // a bare bulk string that is not a ping
    assert_eq!(
        command_handler(&mut db, &elem("hello"), 0),
        Err(HandlerError::UnknownCommand)
    );

    assert_eq!(
        command_handler(&mut db, &msg(&["GET"]), 0),
        Err(HandlerError::CommandTooShort)
    );
    assert_eq!(
        command_handler(&mut db, &msg(&["CONFIG", "GET"]), 0),
        Err(HandlerError::CommandTooShort)
    );
    assert_eq!(
        command_handler(&mut db, &msg(&["CONFIG", "SET", "dir"]), 0),
        Err(HandlerError::UnknownConfig)
    );
    assert_eq!(
        command_handler(&mut db, &msg(&["CONFIG", "GET", "save"]), 0),
        Err(HandlerError::UnknownConfig)
    );
    assert_eq!(
        command_handler(&mut db, &msg(&["XADD", "s", "1-1", "lonely"]), 0),
        Err(HandlerError::KeyValueMismatch)
    );
    assert_eq!(
        command_handler(&mut db, &msg(&["XRANGE", "s", "nonsense", "+"]), 0),
        Err(HandlerError::InvalidStreamId)
    );
    assert_eq!(
        command_handler(&mut db, &msg(&["WAIT", "zero", "100"]), 0),
        Err(HandlerError::InvalidInteger)
    );
    assert_eq!(
        command_handler(&mut db, &msg(&["REPLCONF", "ACK", "abc"]), 0),
        Err(HandlerError::InvalidInteger)
    );
    assert_eq!(
        command_handler(&mut db, &msg(&["XREAD", "streams", "s", "t", "1-1"]), 0),
        Err(HandlerError::KeyIdMismatch)
    );
    assert_eq!(
        command_handler(&mut db, &msg(&["XREAD", "block", "soon", "streams", "s", "1-1"]), 0),
        Err(HandlerError::InvalidInteger)
    );

    // a stream that ends mid-frame is rejected whole
    assert_eq!(command_parser(&b"*2\r\n$3\r\nget\r\n".to_vec()), Err(ParseError));
    assert_eq!(command_parser(&b"!nonsense\r\n".to_vec()), Err(ParseError));
}

#[test]
fn stream_id_texts_classify() {
    assert_eq!(StreamID::validate("1-1"), StreamIDState::Valid);
    assert_eq!(StreamID::from_text("123-45"), StreamID::new(123, 45));
    assert_eq!(StreamID::validate("7"), StreamIDState::MillisecondOnly(7));
    assert_eq!(StreamID::validate("7-*"), StreamIDState::GenerateSequence(7));
    assert_eq!(StreamID::validate("*"), StreamIDState::GenerateMillisecond);
    assert_eq!(
        StreamID::validate("-"),
        StreamIDState::FirstStreamID(StreamID::new(0, 0))
    );
    assert_eq!(StreamID::validate("+"), StreamIDState::LastStreamID);
    assert_eq!(StreamID::validate("1-2-3"), StreamIDState::Invalid);
    assert_eq!(StreamID::validate("abc"), StreamIDState::Invalid);
    assert_eq!(StreamID::validate(""), StreamIDState::Invalid);
    assert_eq!(StreamID::validate("-5"), StreamIDState::Invalid);
    assert_eq!(StreamID::new(3, 9).to_id_string(), "3-9".to_string());
}

#[test]
fn blocking_xread_defers_with_its_keys() {
    let mut db = StoreEngine::new();
    match command_handler(&mut db, &msg(&["XREAD", "block", "250", "streams", "s", "1-1"]), 0) {
        Ok(rs_redis::dispatch::CommandHandlerResponse::StreamBlock { ms, key_vec, stream_id_vec }) => {
            assert_eq!(ms, 250);
            assert_eq!(key_vec, vec!["s".to_string()]);
            assert_eq!(stream_id_vec, vec![StreamID::new(1, 1)]);
        }
        other => panic!("expected a deferred read, got {:?}", other.map(|_| ())),
    }
}
