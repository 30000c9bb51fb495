//! The store, the dispatcher and the replication bookkeeping, driven
//! the way a connection loop drives them.

use rs_redis::dispatch::{command_handler, CommandHandlerResponse};
use rs_redis::loader::RDBLoader;
use rs_redis::master::MasterEngine;
use rs_redis::message::{RespMessage, RespParsingState, RespType};
use rs_redis::rdb::RDBConfigOps;
use rs_redis::replica::{apply_replicated, handshake_message, handshake_reply_ok};
use rs_redis::replication::HandshakeState;
use rs_redis::command::RespCommandType;
use rs_redis::store::StoreEngine;
use rs_redis::stream::StreamEngine;

fn bulk_elem(text: &str, addr: &str) -> RespMessage {
    RespMessage {
        remote_addr: addr.to_string(),
        resp_type: RespType::BulkString,
        state: RespParsingState::End,
        int_data: 0,
        str_data: text.to_string(),
        vec_data: Vec::new(),
    }
}

fn array_msg(args: &[&str], addr: &str) -> RespMessage {
    let mut elems = Vec::new();
    for a in args {
        elems.push(bulk_elem(a, addr));
    }
    RespMessage {
        remote_addr: addr.to_string(),
        resp_type: RespType::Array,
        state: RespParsingState::End,
        int_data: 0,
        str_data: String::new(),
        vec_data: elems,
    }
}

fn basic_bytes(r: Result<CommandHandlerResponse, rs_redis::dispatch::HandlerError>) -> Vec<u8> {
    match r.expect("handler failed") {
        CommandHandlerResponse::Basic(chunks) => {
            let mut out = Vec::new();
            for c in chunks {
                out.extend_from_slice(&c);
            }
            out
        }
        _ => panic!("expected a basic reply"),
    }
}

#[test]
fn ping_and_echo() {
    let mut db = StoreEngine::new();
    let pong = basic_bytes(command_handler(&mut db, &array_msg(&["PING"], "c"), 0));
    assert_eq!(pong, b"+PONG\r\n".to_vec());

    let echoed = basic_bytes(command_handler(&mut db, &array_msg(&["ECHO", "hello"], "c"), 0));
    assert_eq!(echoed, b"$5\r\nhello\r\n".to_vec());

    // a bare bulk-string ping outside an array
    let bare = bulk_elem("ping", "c");
    let pong2 = basic_bytes(command_handler(&mut db, &bare, 0));
    assert_eq!(pong2, b"+PONG\r\n".to_vec());
}

#[test]
fn get_missing_key_is_nil() {
    let mut db = StoreEngine::new();
    let nil = basic_bytes(command_handler(&mut db, &array_msg(&["GET", "nope"], "c"), 0));
    assert_eq!(nil, b"$-1\r\n".to_vec());
}

#[test]
fn set_then_get_and_idempotence() {
    let mut db = StoreEngine::new();
    let ok = command_handler(&mut db, &array_msg(&["SET", "foo", "bar"], "c"), 0);
    match ok.expect("set failed") {
        CommandHandlerResponse::Stored { message, offset } => {
            assert_eq!(message[0], b"+OK\r\n".to_vec());
            // *3\r\n$3\r\nSET\r\n$3\r\nfoo\r\n$3\r\nbar\r\n
            assert_eq!(offset, 31);
        }
        _ => panic!("expected a stored reply"),
    }
    let got = basic_bytes(command_handler(&mut db, &array_msg(&["GET", "foo"], "c"), 0));
    assert_eq!(got, b"$3\r\nbar\r\n".to_vec());

    // the same write again leaves exactly one entry and the same offset
    let again = command_handler(&mut db, &array_msg(&["SET", "foo", "bar"], "c"), 0);
    match again.expect("set failed") {
        CommandHandlerResponse::Stored { offset, .. } => assert_eq!(offset, 31),
        _ => panic!("expected a stored reply"),
    }
    assert_eq!(db.get_keys().len(), 1);
}

#[test]
fn set_with_px_expires_after_reap() {
    let mut db = StoreEngine::new();
    let ok = command_handler(&mut db, &array_msg(&["SET", "foo", "bar", "PX", "50"], "c"), 1000);
    match ok.expect("set failed") {
        CommandHandlerResponse::Stored { message, .. } => {
            assert_eq!(message[0], b"+OK\r\n".to_vec())
        }
        _ => panic!("expected a stored reply"),
    }
    assert_eq!(db.get("foo"), Some("bar".to_string()));
    // before the deadline the reaper leaves the key alone
    assert_eq!(db.reap_step(1040), false);
    assert_eq!(db.get("foo"), Some("bar".to_string()));
    // past the deadline one pass removes it
    assert_eq!(db.reap_step(1080), true);
    assert_eq!(db.get("foo"), None);
    let nil = basic_bytes(command_handler(&mut db, &array_msg(&["GET", "foo"], "c"), 1100));
    assert_eq!(nil, b"$-1\r\n".to_vec());
}

#[test]
fn keys_on_empty_store_is_empty_array() {
    let mut db = StoreEngine::new();
    let reply = basic_bytes(command_handler(&mut db, &array_msg(&["KEYS", "*"], "c"), 0));
    assert_eq!(reply, b"*0\r\n".to_vec());
}

#[test]
fn config_get_reports_the_paths() {
    let mut db = StoreEngine::new();
    db.set_dir("/tmp/x".to_string());
    db.set_filename("y.rdb".to_string());
    assert_eq!(db.get_dir(), "/tmp/x".to_string());
    assert_eq!(db.get_filename(), "y.rdb".to_string());
    let dir = basic_bytes(command_handler(&mut db, &array_msg(&["CONFIG", "GET", "dir"], "c"), 0));
    assert_eq!(dir, b"*2\r\n$3\r\ndir\r\n$6\r\n/tmp/x\r\n".to_vec());
    let file = basic_bytes(command_handler(
        &mut db,
        &array_msg(&["CONFIG", "GET", "dbfilename"], "c"),
        0,
    ));
    assert_eq!(file, b"*2\r\n$10\r\ndbfilename\r\n$5\r\ny.rdb\r\n".to_vec());
}

#[test]
fn type_reports_where_a_key_lives() {
    let mut db = StoreEngine::new();
    command_handler(&mut db, &array_msg(&["SET", "s", "1"], "c"), 0).unwrap();
    command_handler(&mut db, &array_msg(&["XADD", "st", "1-1", "f", "v"], "c"), 0).unwrap();
    let s = basic_bytes(command_handler(&mut db, &array_msg(&["TYPE", "s"], "c"), 0));
    assert_eq!(s, b"+string\r\n".to_vec());
    let st = basic_bytes(command_handler(&mut db, &array_msg(&["TYPE", "st"], "c"), 0));
    assert_eq!(st, b"+stream\r\n".to_vec());
    let none = basic_bytes(command_handler(&mut db, &array_msg(&["TYPE", "zz"], "c"), 0));
    assert_eq!(none, b"+none\r\n".to_vec());
}

#[test]
fn unknown_commands_get_the_empty_array() {
    let mut db = StoreEngine::new();
    let reply = basic_bytes(command_handler(&mut db, &array_msg(&["FLUSHALL"], "c"), 0));
    assert_eq!(reply, b"*0\r\n".to_vec());
}

#[test]
fn xadd_and_xrange_round() {
    let mut db = StoreEngine::new();
    let first = basic_bytes(command_handler(
        &mut db,
        &array_msg(&["XADD", "s", "1-1", "f", "v"], "c"),
        0,
    ));
    assert_eq!(first, b"$3\r\n1-1\r\n".to_vec());

    let second = basic_bytes(command_handler(
        &mut db,
        &array_msg(&["XADD", "s", "1-1", "g", "w"], "c"),
        0,
    ));
    let text = String::from_utf8_lossy(&second).to_string();
    assert!(text.contains("equal or smaller"));

    let range = basic_bytes(command_handler(
        &mut db,
        &array_msg(&["XRANGE", "s", "-", "+"], "c"),
        0,
    ));
    assert_eq!(range, b"*1\r\n*2\r\n$3\r\n1-1\r\n*2\r\n$1\r\nf\r\n$1\r\nv\r\n".to_vec());
}

#[test]
fn xadd_rejects_the_zero_id_whatever_the_stream_holds() {
    let mut db = StoreEngine::new();
    let empty_err = basic_bytes(command_handler(
        &mut db,
        &array_msg(&["XADD", "s", "0-0", "f", "v"], "c"),
        0,
    ));
    assert_eq!(
        empty_err,
        b"-ERR The ID specified in XADD must be greater than 0-0\r\n".to_vec()
    );
    command_handler(&mut db, &array_msg(&["XADD", "s", "2-2", "f", "v"], "c"), 0).unwrap();
    let nonempty_err = basic_bytes(command_handler(
        &mut db,
        &array_msg(&["XADD", "s", "0-0", "f", "v"], "c"),
        0,
    ));
    assert_eq!(
        nonempty_err,
        b"-ERR The ID specified in XADD must be greater than 0-0\r\n".to_vec()
    );
}

#[test]
fn xadd_generates_ids_at_the_clock() {
    let mut db = StoreEngine::new();
    let first = basic_bytes(command_handler(&mut db, &array_msg(&["XADD", "s", "*", "f", "v"], "c"), 5));
    assert_eq!(first, b"$3\r\n5-0\r\n".to_vec());
    let second = basic_bytes(command_handler(&mut db, &array_msg(&["XADD", "s", "*", "f", "v"], "c"), 5));
    assert_eq!(second, b"$3\r\n5-1\r\n".to_vec());
    let explicit = basic_bytes(command_handler(
        &mut db,
        &array_msg(&["XADD", "s", "5-*", "g", "w"], "c"),
        5,
    ));
    assert_eq!(explicit, b"$3\r\n5-2\r\n".to_vec());
}

#[test]
fn xread_reads_past_an_id() {
    let mut db = StoreEngine::new();
    command_handler(&mut db, &array_msg(&["XADD", "s", "1-1", "f", "v"], "c"), 0).unwrap();
    command_handler(&mut db, &array_msg(&["XADD", "s", "2-1", "g", "w"], "c"), 0).unwrap();
    let reply = basic_bytes(command_handler(
        &mut db,
        &array_msg(&["XREAD", "streams", "s", "1-1"], "c"),
        0,
    ));
    assert_eq!(
        reply,
        b"*1\r\n*2\r\n$1\r\ns\r\n*1\r\n*2\r\n$3\r\n2-1\r\n*2\r\n$1\r\ng\r\n$1\r\nw\r\n".to_vec()
    );
    // nothing past the last id: the stream is left out
    let empty = basic_bytes(command_handler(
        &mut db,
        &array_msg(&["XREAD", "streams", "s", "2-1"], "c"),
        0,
    ));
    assert_eq!(empty, b"*0\r\n".to_vec());
}

#[test]
fn wait_with_no_writes_returns_the_replica_count() {
    let mut db = StoreEngine::new();
    match command_handler(&mut db, &array_msg(&["WAIT", "0", "100"], "c"), 0).unwrap() {
        CommandHandlerResponse::Wait { message, wait_count, wait_time } => {
            assert_eq!(message[0], b":0\r\n".to_vec());
            assert_eq!(wait_count, 0);
            assert_eq!(wait_time, 100);
        }
        _ => panic!("expected a wait reply"),
    }
    assert_eq!(db.wait_immediate(), Some(0));
}

#[test]
fn replication_handshake_observed_on_master() {
    let mut db = StoreEngine::new();
    let addr = "127.0.0.1:5555";

    let pong = basic_bytes(command_handler(&mut db, &array_msg(&["PING"], addr), 0));
    assert_eq!(pong, b"+PONG\r\n".to_vec());

    let ok1 = basic_bytes(command_handler(
        &mut db,
        &array_msg(&["REPLCONF", "listening-port", "6380"], addr),
        0,
    ));
    assert_eq!(ok1, b"+OK\r\n".to_vec());

    let ok2 = basic_bytes(command_handler(
        &mut db,
        &array_msg(&["REPLCONF", "capa", "psync2"], addr),
        0,
    ));
    assert_eq!(ok2, b"+OK\r\n".to_vec());

    match command_handler(&mut db, &array_msg(&["PSYNC", "?", "-1"], addr), 0).unwrap() {
        CommandHandlerResponse::Psync { message, host } => {
            assert_eq!(host, addr.to_string());
            let line = String::from_utf8_lossy(&message[0]).to_string();
            assert!(line.starts_with("+FULLRESYNC "));
            assert!(line.ends_with(" 0\r\n"));
            let id = &line["+FULLRESYNC ".len()..line.len() - " 0\r\n".len()];
            assert_eq!(id.len(), 40);
            assert!(id.chars().all(|c| c.is_ascii_hexdigit()));
            assert!(message[1].starts_with(b"$88\r\n"));
            assert_eq!(message[1].len(), 5 + 88);
        }
        _ => panic!("expected a psync reply"),
    }
    assert_eq!(db.get_connected_replica_count(), 1);
}

#[test]
fn wait_converges_once_the_replica_acknowledges() {
    let mut db = StoreEngine::new();
    let addr = "127.0.0.1:5555";
    command_handler(&mut db, &array_msg(&["REPLCONF", "listening-port", "6380"], addr), 0)
        .unwrap();
    command_handler(&mut db, &array_msg(&["PSYNC", "?", "-1"], addr), 0).unwrap();

    // the master accepts a write and records its serialized length
    let offset = match command_handler(&mut db, &array_msg(&["SET", "a", "1"], "client"), 0)
        .unwrap()
    {
        CommandHandlerResponse::Replica { cmd, offset, .. } => {
            assert_eq!(cmd, RespCommandType::SetKv("a".to_string(), "1".to_string()));
            // *3\r\n$3\r\nSET\r\n$1\r\na\r\n$1\r\n1\r\n
            assert_eq!(offset, 27);
            offset
        }
        _ => panic!("expected a replica fan-out reply"),
    };
    db.add_master_offset(offset);
    assert_eq!(db.get_master_offset(), 27);
    assert_eq!(db.count_caught_up(), 0);

    // the replica reports the new offset; one replica is caught up
    let offtext = offset.to_string();
    let ack = array_msg(&["REPLCONF", "ACK", offtext.as_str()], addr);
    command_handler(&mut db, &ack, 0).unwrap();
    let caught = db.count_caught_up();
    assert_eq!(caught, 1);
    assert!(caught <= db.get_connected_replica_count());
}

#[test]
fn info_reports_the_role() {
    let mut db = StoreEngine::new();
    let master = basic_bytes(command_handler(&mut db, &array_msg(&["INFO", "replication"], "c"), 0));
    let text = String::from_utf8_lossy(&master).to_string();
    assert!(text.contains("role:master"));
    assert!(text.contains("master_replid:"));
    assert!(text.contains("master_repl_offset:0"));

    db.set_replica("127.0.0.1:6379".to_string());
    let slave = basic_bytes(command_handler(&mut db, &array_msg(&["INFO", "replication"], "c"), 0));
    assert_eq!(slave, b"$10\r\nrole:slave\r\n".to_vec());
}

#[test]
fn handshake_messages_and_replies() {
    let db = StoreEngine::new();
    assert_eq!(handshake_message(&db, HandshakeState::Ping), b"*1\r\n$4\r\nPING\r\n".to_vec());
    assert_eq!(
        handshake_message(&db, HandshakeState::Replconf),
        b"*3\r\n$8\r\nREPLCONF\r\n$14\r\nlistening-port\r\n$4\r\n6379\r\n".to_vec()
    );
    assert_eq!(
        handshake_message(&db, HandshakeState::ReplconfCapa),
        b"*3\r\n$8\r\nREPLCONF\r\n$4\r\ncapa\r\n$6\r\npsync2\r\n".to_vec()
    );
    assert!(handshake_reply_ok(HandshakeState::Ping, &b"+PONG\r\n".to_vec()));
    assert!(!handshake_reply_ok(HandshakeState::Ping, &b"-ERR\r\n".to_vec()));
    assert!(handshake_reply_ok(HandshakeState::Replconf, &b"+OK\r\n".to_vec()));
    assert!(handshake_reply_ok(
        HandshakeState::Psync,
        &b"+FULLRESYNC 75cd7bc10c49047e0d163660f3b90625b1af31dc 0\r\n".to_vec()
    ));
}

#[test]
fn replica_applies_the_stream_and_acknowledges() {
    let mut db = StoreEngine::new();
    db.set_replica("127.0.0.1:6379".to_string());

    let none = apply_replicated(
        &mut db,
        RespCommandType::SetKv("k".to_string(), "v".to_string()),
        0,
    );
    assert!(none.is_none());
    assert_eq!(db.get("k"), Some("v".to_string()));
    // *3\r\n$3\r\nSET\r\n$1\r\nk\r\n$1\r\nv\r\n
    assert_eq!(db.slave_info.slave_repl_offset, 27);

    let ack = apply_replicated(&mut db, RespCommandType::Replconf("getack".to_string()), 0)
        .expect("an ACK is owed");
    assert_eq!(ack, b"*3\r\n$8\r\nREPLCONF\r\n$3\r\nACK\r\n$2\r\n27\r\n".to_vec());
    assert_eq!(db.slave_info.slave_repl_offset, 27 + 37);
}

#[test]
fn loader_replays_snapshots() {
    // an empty snapshot: magic, version, metadata, end marker
    let empty = rs_redis::text::hex_decode(rs_redis::dispatch::EMPTY_RDB).expect("valid hex");
    let mut db = StoreEngine::new();
    assert_eq!(db.parse(&empty), Ok(true));
    assert_eq!(db.get_keys().len(), 0);

    // one plain record
    let mut one = b"REDIS0011".to_vec();
    one.push(0);
    one.push(3);
    one.extend_from_slice(b"foo");
    one.push(3);
    one.extend_from_slice(b"bar");
    one.push(255);
    let mut db2 = StoreEngine::new();
    assert_eq!(db2.parse(&one), Ok(true));
    assert_eq!(db2.get("foo"), Some("bar".to_string()));

    // a record with a millisecond expiry stamp
    let mut stamped = b"REDIS0011".to_vec();
    stamped.push(252);
    stamped.extend_from_slice(&2000u64.to_le_bytes());
    stamped.push(0);
    stamped.push(1);
    stamped.extend_from_slice(b"k");
    stamped.push(1);
    stamped.extend_from_slice(b"v");
    stamped.push(255);
    let mut db3 = StoreEngine::new();
    assert_eq!(db3.parse(&stamped), Ok(true));
    assert_eq!(db3.get("k"), Some("v".to_string()));
    assert_eq!(db3.reap_step(1500), false);
    assert_eq!(db3.reap_step(2500), true);
    assert_eq!(db3.get("k"), None);

    // a wrong magic is refused
    let bad = b"RATIO0011\xff".to_vec();
    let mut db4 = StoreEngine::new();
    assert!(db4.parse(&bad).is_err());
}

#[test]
fn stream_sequence_generation_rules() {
    let mut db = StoreEngine::new();
    assert_eq!(
        db.next_stream_sequence_id("s", 0),
        Some(rs_redis::stream::StreamID { millisecond: 0, sequence: 1 })
    );
    assert_eq!(
        db.next_stream_sequence_id("s", 7),
        Some(rs_redis::stream::StreamID { millisecond: 7, sequence: 0 })
    );
    db.set_stream_key("s".to_string(), rs_redis::stream::StreamID::new(5, 3), Vec::new())
        .expect("a fresh stream accepts any nonzero id");
    assert_eq!(
        db.next_stream_sequence_id("s", 5),
        Some(rs_redis::stream::StreamID { millisecond: 5, sequence: 4 })
    );
    assert_eq!(db.next_stream_sequence_id("s", 3), None);
    assert_eq!(
        db.next_stream_sequence_id("s", 9),
        Some(rs_redis::stream::StreamID { millisecond: 9, sequence: 0 })
    );
}

#[test]
fn wire_level_ping_and_echo() {
    let mut db = StoreEngine::new();
    let bytes = b"*1\r\n$4\r\nPING\r\n*2\r\n$4\r\nECHO\r\n$5\r\nhello\r\n".to_vec();
    let mut replies: Vec<u8> = Vec::new();
    let mut pos = 0usize;
    while pos < bytes.len() {
        match rs_redis::resp::decode_frame(&bytes, pos) {
            rs_redis::resp::Decoded::Found(frame, end) => {
                let msg = rs_redis::message::message_of_frame(frame, "client".to_string());
                replies.extend(basic_bytes(command_handler(&mut db, &msg, 0)));
                pos = end;
            }
            other => panic!("expected complete frames, got {:?}", other),
        }
    }
    assert_eq!(replies, b"+PONG\r\n$5\r\nhello\r\n".to_vec());
}


#[test]
fn empty_command_words_are_unknown() {
    let mut db = StoreEngine::new();
    let reply = basic_bytes(command_handler(&mut db, &array_msg(&[""], "c"), 0));
    assert_eq!(reply, b"*0\r\n".to_vec());
}

#[test]
fn handshake_state_never_retreats() {
    let mut db = StoreEngine::new();
    let addr = "127.0.0.1:5555";
    command_handler(&mut db, &array_msg(&["REPLCONF", "listening-port", "6380"], addr), 0)
        .unwrap();
    command_handler(&mut db, &array_msg(&["PSYNC", "?", "-1"], addr), 0).unwrap();
    assert_eq!(db.get_connected_replica_count(), 1);
    // a late listening-port announcement must not drop the attachment
    command_handler(&mut db, &array_msg(&["REPLCONF", "listening-port", "6380"], addr), 0)
        .unwrap();
    assert_eq!(db.get_connected_replica_count(), 1);
    let rec = db.get_slave_node(addr).expect("the replica stays registered");
    assert_eq!(rec.handshake_state, HandshakeState::Psync);
    assert_eq!(rec.port, "6380".to_string());
}

#[test]
fn loader_skips_unknown_value_types() {
    // magic, version, an unknown value type byte, one record, end
    let mut bytes = b"REDIS0011".to_vec();
    bytes.push(9);
    bytes.push(0);
    bytes.push(1);
    bytes.extend_from_slice(b"k");
    bytes.push(1);
    bytes.extend_from_slice(b"v");
    bytes.push(255);
    let mut db = StoreEngine::new();
    assert_eq!(db.parse(&bytes), Ok(true));
    assert_eq!(db.get("k"), Some("v".to_string()));
}

#[test]
fn stream_appends_below_the_last_id_are_refused() {
    let mut db = StoreEngine::new();
    db.set_stream_key("s".to_string(), rs_redis::stream::StreamID::new(2, 2), Vec::new())
        .expect("a fresh stream accepts any nonzero id");
    assert!(db.set_stream_key("s".to_string(), rs_redis::stream::StreamID::new(2, 2), Vec::new())
        .is_err());
    assert!(db.set_stream_key("s".to_string(), rs_redis::stream::StreamID::new(1, 9), Vec::new())
        .is_err());
    assert!(db
        .set_stream_key("t".to_string(), rs_redis::stream::StreamID::new(0, 0), Vec::new())
        .is_err());
    // the refused appends left the stream as it was
    assert_eq!(db.get_last_stream_id("s"), Some(rs_redis::stream::StreamID::new(2, 2)));
    assert_eq!(db.get_last_stream_id("t"), None);
}
