//! The command dispatcher: one parsed message in, one typed response
//! out.
//!
//! Every command's reply bytes and store effect are pinned here; the
//! connection loop only writes the bytes and runs the side effects the
//! response variant calls for.

use vstd::prelude::*;
use crate::command::{array_wire_len, RespCommandType};
use crate::master::MasterEngine;
use crate::message::{RespMessage, RespType};
use crate::replication::HandshakeState;
use crate::resp::{spec_dec_nat, spec_encode, FrameView, RespFrame};
use crate::store::StoreEngine;
use crate::stream::{sid_zero, spec_next_sid, StreamEngine, StreamID, StreamIDState};
use crate::text::{bytes_of_chars, chars_of_bytes};

verus! {

/// An empty RDB snapshot, hex-encoded: what `PSYNC` sends a fresh
/// replica.
pub const EMPTY_RDB: &'static str =
    "524544495330303131fa0972656469732d76657205372e322e30fa0a72656469732d62697473c040fa056374696d65c26d08bc65fa08757365642d6d656dc2b0c41000fa08616f662d62617365c000fff06e3bfec0ff5aa2";

/// The `XADD` rejection for an id at or below the stream's last.
pub const XADD_ERR_SMALLER: &'static str =
    "-ERR The ID specified in XADD is equal or smaller than the target stream top item\r\n";

/// The `XADD` rejection for the sentinel id `0-0`.
pub const XADD_ERR_ZERO: &'static str =
    "-ERR The ID specified in XADD must be greater than 0-0\r\n";

/// The rejection for a write with too few arguments.
pub const ERR_WRONG_ARGS: &'static str = "-ERR wrong number of arguments\r\n";

/// What the connection loop must do with a handled command.
#[derive(Debug, PartialEq, Eq)]
pub enum CommandHandlerResponse {
    /// Write these byte chunks back, in order.
    Basic(Vec<Vec<u8>>),
    /// Write the bytes; the master's offset grows by `offset`.
    Stored { message: Vec<Vec<u8>>, offset: u64 },
    /// Write the bytes, grow the offset, and fan `cmd` out to the
    /// replicas.
    Replica { message: Vec<Vec<u8>>, cmd: RespCommandType, offset: u64 },
    /// Write the bytes and register this connection's write half as
    /// the replica at `host`.
    Psync { message: Vec<Vec<u8>>, host: String },
    /// Write the bytes and record one `GETACK` probe round.
    GetAck(Vec<Vec<u8>>),
    /// Run the `WAIT` protocol for `wait_count` replicas within
    /// `wait_time` milliseconds; the bytes answer an immediate return.
    Wait { message: Vec<Vec<u8>>, wait_count: u64, wait_time: u64 },
    /// A blocking `XREAD`: poll these keys above these ids for up to
    /// `ms` milliseconds.
    StreamBlock { ms: u64, key_vec: Vec<String>, stream_id_vec: Vec<StreamID> },
}

/// Why a command was rejected outright (the connection drops these).
#[derive(Debug, Clone, Copy, PartialEq, Eq, Structural)]
pub enum HandlerError {
    UnknownCommand,
    CommandTooShort,
    UnknownConfig,
    KeyValueMismatch,
    InvalidStreamId,
    InvalidInteger,
    KeyIdMismatch,
}

/// The argument texts of a message: each element's accumulated text.
pub open spec fn args_of(m: RespMessage) -> Seq<Seq<char>> {
    m.vec_data@.map_values(|x: RespMessage| x.str_data@)
}

/// A response that writes exactly one chunk of the given bytes.
pub open spec fn basic1(r: CommandHandlerResponse, bytes: Seq<u8>) -> bool {
    r matches CommandHandlerResponse::Basic(v) && v@.len() == 1 && v@[0]@ == bytes
}

/// The wire bytes of one bulk string of text.
pub open spec fn bulk_bytes(s: Seq<char>) -> Seq<u8> {
    spec_encode(FrameView::Bulk(bytes_of_chars(s)))
}

/// The wire bytes of a simple string of text: `+<s>\r\n`.
pub open spec fn simple_bytes(s: Seq<char>) -> Seq<u8> {
    spec_encode(FrameView::Simple(bytes_of_chars(s)))
}

/// The wire length of `SET k v` as an array of bulk strings.
pub open spec fn set_wire_len(k: Seq<char>, v: Seq<char>) -> nat {
    array_wire_len(seq![3nat, k.len(), v.len()])
}

/// The wire length of `SET k v PX t` as an array of bulk strings.
pub open spec fn setpx_wire_len(k: Seq<char>, v: Seq<char>, t: u64) -> nat {
    array_wire_len(seq![3nat, k.len(), v.len(), 2nat, spec_dec_nat(t as nat).len()])
}

/// The reply bytes `$-1\r\n`, a missing value.
pub fn nil_bulk_reply() -> (r: Vec<u8>)
    ensures
        r@ == spec_encode(FrameView::NullBulk),
{
    crate::resp::encode(&RespFrame::NullBulk)
}

/// The wire bytes of one bulk string reply.
fn bulk_reply(s: &String) -> (r: Vec<u8>)
    ensures
        r@ == bulk_bytes(s@),
{
    crate::resp::encode(&RespFrame::Bulk(crate::text::string_to_bytes(s.as_str())))
}

/// The bytes of a literal, one byte per character.
fn lit_bytes(s: &str) -> (r: Vec<u8>)
    ensures
        r@ == bytes_of_chars(s@),
{
    crate::text::string_to_bytes(s)
}

/// Whether argument `i` spells `w`, ignoring ASCII case.
fn arg_word_is(m: &RespMessage, i: usize, w: &str) -> (r: bool)
    requires
        i < m.vec_data@.len(),
    ensures
        r == (crate::text::spec_lower(bytes_of_chars(args_of(*m)[i as int]))
            == crate::text::spec_lower(bytes_of_chars(w@))),
{
    let b = crate::text::string_to_bytes(m.vec_data[i].str_data.as_str());
    crate::text::eq_ignore_case(&b, w)
}

/// The text of argument `i`, as a fresh string.
fn arg_text(m: &RespMessage, i: usize) -> (r: String)
    requires
        i < m.vec_data@.len(),
    ensures
        r@ == args_of(*m)[i as int],
{
    m.vec_data[i].str_data.clone()
}

/// What `GET k` replied: the stored value as a bulk string, or the
/// nil bulk for a missing key.
pub open spec fn get_post(
    db: StoreEngine,
    m: RespMessage,
    r: Result<CommandHandlerResponse, HandlerError>,
) -> bool {
    let k = args_of(m)[1];
    match r {
        Ok(resp) => if db.kv_text().dom().contains(k) {
            basic1(resp, bulk_bytes(db.kv_text()[k]))
        } else {
            basic1(resp, spec_encode(FrameView::NullBulk))
        },
        Err(_) => false,
    }
}

/// `GET k`: the stored value as a bulk string, or the nil bulk.
pub fn handle_get(db: &StoreEngine, m: &RespMessage) -> (r: Result<
    CommandHandlerResponse,
    HandlerError,
>)
    requires
        db.inv(),
        m.vec_data@.len() >= 2,
    ensures
        get_post(*db, *m, r),
{
    let key = arg_text(m, 1);
    let mut out: Vec<Vec<u8>> = Vec::new();
    match db.get(key.as_str()) {
        Some(v) => {
            out.push(bulk_reply(&v));
        },
        None => {
            out.push(nil_bulk_reply());
        },
    }
    Ok(CommandHandlerResponse::Basic(out))
}

/// `SET k v [PX ms]`: stores the value, optionally with an expiry
/// measured from `now_ms`, replies `+OK`, and reports the command's
/// exact wire length for offset bookkeeping; a master with replicas
/// asks for fan-out.  Too few arguments reject the write untouched.
pub fn handle_set(db: &mut StoreEngine, m: &RespMessage, now_ms: u64) -> (r: Result<
    CommandHandlerResponse,
    HandlerError,
>)
    requires
        old(db).inv(),
        m.vec_data@.len() >= 1,
        args_of(*m).len() >= 3 ==> set_wire_len(args_of(*m)[1], args_of(*m)[2]) <= usize::MAX,
        args_of(*m).len() == 5 ==> (forall|t: u64|
            setpx_wire_len(args_of(*m)[1], args_of(*m)[2], t) <= usize::MAX),
    ensures
        final(db).inv(),
        final(db).streams_view() == old(db).streams_view(),
        final(db).master_info == old(db).master_info,
        final(db).replica_info == old(db).replica_info,
        set_post(*old(db), *final(db), *m, now_ms, r),
{
    let ghost a = args_of(*m);
    if m.vec_data.len() < 3 {
        let mut out: Vec<Vec<u8>> = Vec::new();
        out.push(lit_bytes(ERR_WRONG_ARGS));
        return Ok(CommandHandlerResponse::Basic(out));
    }
    let key = arg_text(m, 1);
    let val = arg_text(m, 2);
    let ghost k = a[1];
    let ghost v = a[2];
    let px = m.vec_data.len() == 5 && arg_word_is(m, 3, "px");
    let mut ttl: Option<u64> = None;
    if px {
        let tb = crate::text::string_to_bytes(m.vec_data[4].str_data.as_str());
        if tb.len() >= 1 && crate::resp::check_all_digits(&tb, 0, tb.len()) {
            proof {
                assert(tb@.subrange(0, tb@.len() as int) =~= tb@);
            }
            ttl = crate::resp::parse_val(&tb, 0, tb.len());
        }
    }
    let cmd: RespCommandType;
    let offset: usize;
    match ttl {
        Some(t) => {
            db.set_with_expire(key.clone(), val.clone(), t, now_ms);
            let kc = key.clone();
            let vc = val.clone();
            proof {
                assert(kc@ == a[1] && vc@ == a[2]);
                assert(setpx_wire_len(a[1], a[2], t) <= usize::MAX);
                assert(seq![3nat, kc@.len(), vc@.len(), 2nat, spec_dec_nat(t as nat).len()]
                    =~= seq![3nat, a[1].len(), a[2].len(), 2nat, spec_dec_nat(t as nat).len()]);
            }
            offset = crate::command::count_resp_command_type_offset(
                RespCommandType::SetPx(kc, vc, t),
            );
            cmd = RespCommandType::SetPx(key, val, t);
        },
        None => {
            if px {
                // `PX` given but its count unreadable: reject untouched
                let mut out: Vec<Vec<u8>> = Vec::new();
                out.push(lit_bytes(ERR_WRONG_ARGS));
                return Ok(CommandHandlerResponse::Basic(out));
            }
            db.set(key.clone(), val.clone());
            let kc = key.clone();
            let vc = val.clone();
            proof {
                assert(kc@ == a[1] && vc@ == a[2]);
                assert(set_wire_len(a[1], a[2]) <= usize::MAX);
                assert(seq![3nat, kc@.len(), vc@.len()] =~= seq![3nat, a[1].len(), a[2].len()]);
            }
            offset = crate::command::count_resp_command_type_offset(
                RespCommandType::SetKv(kc, vc),
            );
            cmd = RespCommandType::SetKv(key, val);
        },
    }
    let mut out: Vec<Vec<u8>> = Vec::new();
    out.push(lit_bytes(crate::command::RESP_OK));
    proof {
        assert(final(db).kv_text() =~= old(db).kv_text().insert(k, v));
    }
    if db.should_sync_command() {
        Ok(CommandHandlerResponse::Replica { message: out, cmd, offset: offset as u64 })
    } else {
        Ok(CommandHandlerResponse::Stored { message: out, offset: offset as u64 })
    }
}

/// What `SET` did overall: too few arguments leave the store be and
/// reply the arity error; otherwise `set_outcome` holds.
pub open spec fn set_post(
    db0: StoreEngine,
    db1: StoreEngine,
    m: RespMessage,
    now_ms: u64,
    r: Result<CommandHandlerResponse, HandlerError>,
) -> bool {
    let a = args_of(m);
    match r {
        Ok(resp) => if a.len() < 3 {
            basic1(resp, bytes_of_chars(ERR_WRONG_ARGS@)) && db1 == db0
        } else {
            set_outcome(db0, db1, a, now_ms, resp)
        },
        Err(_) => false,
    }
}

/// What a well-formed `SET` did: the key now holds the value, the
/// expiry index gained the key exactly when `PX` was readable, the
/// reply is `+OK`, and the reported offset is the command's wire
/// length; fan-out is requested exactly on a master with replicas.
pub open spec fn set_outcome(
    db0: StoreEngine,
    db1: StoreEngine,
    a: Seq<Seq<char>>,
    now_ms: u64,
    resp: CommandHandlerResponse,
) -> bool {
    let k = a[1];
    let v = a[2];
    let px_given = a.len() == 5 && crate::command::word_is(bytes_of_chars(a[3]), "px"@);
    let px_ok = px_given && crate::command::is_u64_digits(bytes_of_chars(a[4]));
    let t = (crate::resp::dec_val(bytes_of_chars(a[4])) as u64);
    if px_given && !px_ok {
        db1 == db0 && basic1(resp, bytes_of_chars(ERR_WRONG_ARGS@))
    } else {
        db1.kv_text() == db0.kv_text().insert(k, v) && (if px_ok {
            db1.expiry_view() == db0.expiry_view().insert(
                k,
                crate::store::spec_sat_add(now_ms, t),
            )
        } else {
            db1.expiry_view() == db0.expiry_view()
        }) && set_reply(db0, a, px_ok, t, resp)
    }
}

/// The reply side of a completed `SET`.
pub open spec fn set_reply(
    db0: StoreEngine,
    a: Seq<Seq<char>>,
    px_ok: bool,
    t: u64,
    resp: CommandHandlerResponse,
) -> bool {
    let wire = (if px_ok {
        setpx_wire_len(a[1], a[2], t)
    } else {
        set_wire_len(a[1], a[2])
    });
    let fan = db0.role_master() && db0.master_info.slave_list@.len() > 0;
    if fan {
        resp matches CommandHandlerResponse::Replica { message, cmd, offset } && message@.len()
            == 1 && message@[0]@ == bytes_of_chars(crate::command::RESP_OK@) && offset == wire
            && set_cmd_like(cmd, a, px_ok, t)
    } else {
        resp matches CommandHandlerResponse::Stored { message, offset } && message@.len() == 1
            && message@[0]@ == bytes_of_chars(crate::command::RESP_OK@) && offset == wire
    }
}

/// The fanned-out command carries the same key, value and expiry.
pub open spec fn set_cmd_like(cmd: RespCommandType, a: Seq<Seq<char>>, px_ok: bool, t: u64) -> bool {
    if px_ok {
        cmd matches RespCommandType::SetPx(k, v, t2) && k@ == a[1] && v@ == a[2] && t2 == t
    } else {
        cmd matches RespCommandType::SetKv(k, v) && k@ == a[1] && v@ == a[2]
    }
}

} // verus!

// ---------------------------------------------------------------------------
// Node and replication commands
// ---------------------------------------------------------------------------

verus! {

/// The replication section of `INFO` on a master: role, replication id
/// and the advertised offset.
pub open spec fn master_info_text(replid: Seq<char>) -> Seq<char> {
    "role:master\r\nmaster_replid:"@ + replid + "\r\nmaster_repl_offset:0"@
}

/// What `INFO` replied: a bulk string describing this node; only the
/// `replication` section carries content.
pub open spec fn info_post(
    db: StoreEngine,
    m: RespMessage,
    r: Result<CommandHandlerResponse, HandlerError>,
) -> bool {
    match r {
        Ok(resp) => if args_of(m).len() == 1 {
            basic1(resp, bulk_bytes("db_size: 0"@))
        } else if crate::command::word_is(bytes_of_chars(args_of(m)[1]), "replication"@) {
            if db.role_master() {
                basic1(resp, bulk_bytes(master_info_text(db.replid())))
            } else {
                basic1(resp, bulk_bytes("role:slave"@))
            }
        } else {
            basic1(resp, Seq::<u8>::empty())
        },
        Err(_) => false,
    }
}

/// `INFO [section]`: a bulk string describing this node; only the
/// `replication` section carries content.
pub fn handle_info(db: &StoreEngine, m: &RespMessage) -> (r: Result<
    CommandHandlerResponse,
    HandlerError,
>)
    requires
        db.inv(),
        m.vec_data@.len() >= 1,
    ensures
        info_post(*db, *m, r),
{
    let mut out: Vec<Vec<u8>> = Vec::new();
    if m.vec_data.len() == 1 {
        let payload = lit_bytes("db_size: 0");
        out.push(crate::resp::encode(&RespFrame::Bulk(payload)));
        return Ok(CommandHandlerResponse::Basic(out));
    }
    if arg_word_is(m, 1, "replication") {
        if db.is_master() {
            let mut text: Vec<u8> = lit_bytes("role:master\r\nmaster_replid:");
            let id = db.get_master_id();
            let idb = crate::text::string_to_bytes(id.as_str());
            crate::resp::extend_bytes(&mut text, &idb);
            let tail = lit_bytes("\r\nmaster_repl_offset:0");
            crate::resp::extend_bytes(&mut text, &tail);
            proof {
                assert(text@ =~= bytes_of_chars(master_info_text(db.replid())));
            }
            out.push(crate::resp::encode(&RespFrame::Bulk(text)));
        } else {
            let payload = lit_bytes("role:slave");
            out.push(crate::resp::encode(&RespFrame::Bulk(payload)));
        }
    } else {
        out.push(Vec::new());
    }
    Ok(CommandHandlerResponse::Basic(out))
}

/// What `REPLCONF` did, per subcommand.
pub open spec fn replconf_post(
    db0: StoreEngine,
    db1: StoreEngine,
    m: RespMessage,
    r: Result<CommandHandlerResponse, HandlerError>,
) -> bool {
    let a = args_of(m);
    let host = m.remote_addr@;
    match r {
        Ok(resp) => if a.len() <= 2 {
            resp matches CommandHandlerResponse::Basic(v) && v@.len() == 0 && db1
                == db0
        } else if crate::command::word_is(bytes_of_chars(a[1]), "listening-port"@) {
            basic1(resp, bytes_of_chars(crate::command::RESP_OK@)) && db1.replica_info
                is Master && db1.slaves().dom() == db0.slaves().dom().insert(
                host,
            ) && db1.slaves()[host].handshake_state == db0.advanced_state(
                host,
                HandshakeState::Replconf,
            ) && (if db0.slaves().dom().contains(host) {
                db1.slaves()[host].port@ == db0.slaves()[host].port@
            } else {
                db1.slaves()[host].port@ == a[2]
            })
        } else if crate::command::word_is(bytes_of_chars(a[1]), "capa"@) {
            basic1(resp, bytes_of_chars(crate::command::RESP_OK@)) && db1.slaves().dom()
                == db0.slaves().dom().insert(host) && db1.slaves()[host].handshake_state
                == db0.advanced_state(host, HandshakeState::ReplconfCapa)
        } else if crate::command::word_is(bytes_of_chars(a[1]), "getack"@) {
            resp matches CommandHandlerResponse::GetAck(v) && v@.len() == 1 && v@[0]@
                == spec_encode(
                FrameView::Array(
                    seq![
                        FrameView::Bulk(bytes_of_chars("REPLCONF"@)),
                        FrameView::Bulk(bytes_of_chars("GETACK"@)),
                        FrameView::Bulk(bytes_of_chars("*"@)),
                    ],
                ),
            ) && db1 == db0
        } else if crate::command::word_is(bytes_of_chars(a[1]), "ack"@) {
            crate::command::is_u64_digits(bytes_of_chars(a[2])) && (resp matches
                CommandHandlerResponse::Basic(v) && v@.len() == 0) && (db0.slaves().dom().contains(host) ==> db1.slaves()
                == db0.slaves().insert(
                host,
                (crate::replication::SlaveInfo {
                    slave_repl_offset: (crate::resp::dec_val(bytes_of_chars(a[2])) as u64),
                    ..db0.slaves()[host]
                }),
            )) && (!db0.slaves().dom().contains(host) ==> db1 == db0)
        } else {
            resp matches CommandHandlerResponse::Basic(v) && v@.len() == 0 && db1
                == db0
        },
        Err(e) => e is InvalidInteger && a.len() > 2 && crate::command::word_is(
            bytes_of_chars(a[1]),
            "ack"@,
        ) && !crate::command::is_u64_digits(bytes_of_chars(a[2])) && db1 == db0,
    }
}

/// `REPLCONF ...` on the master: `listening-port` and `capa` advance
/// the sender's replica record and reply `+OK`; `GETACK` asks the
/// loop to broadcast a probe; `ACK n` records the sender's offset and
/// sends nothing back.
pub fn handle_replica(db: &mut StoreEngine, m: &RespMessage) -> (r: Result<
    CommandHandlerResponse,
    HandlerError,
>)
    requires
        old(db).inv(),
        m.vec_data@.len() >= 1,
    ensures
        final(db).inv(),
        final(db).dict_view() == old(db).dict_view(),
        final(db).expiry_view() == old(db).expiry_view(),
        final(db).streams_view() == old(db).streams_view(),
        replconf_post(*old(db), *final(db), *m, r),
{
    let mut out: Vec<Vec<u8>> = Vec::new();
    if m.vec_data.len() <= 2 {
        return Ok(CommandHandlerResponse::Basic(out));
    }
    let host = m.remote_addr.clone();
    if arg_word_is(m, 1, "listening-port") {
        let stream_port = arg_text(m, 2);
        db.set_replica_as_master();
        db.set_slave_node(host, stream_port, HandshakeState::Replconf);
        out.push(lit_bytes(crate::command::RESP_OK));
        Ok(CommandHandlerResponse::Basic(out))
    } else if arg_word_is(m, 1, "capa") {
        db.set_slave_node(host, String::new(), HandshakeState::ReplconfCapa);
        out.push(lit_bytes(crate::command::RESP_OK));
        Ok(CommandHandlerResponse::Basic(out))
    } else if arg_word_is(m, 1, "getack") {
        let mut words: Vec<String> = Vec::new();
        words.push("REPLCONF".to_owned());
        words.push("GETACK".to_owned());
        words.push("*".to_owned());
        let bytes = crate::command::array_to_resp_array_bytes(&words);
        proof {
            assert(crate::command::bulk_frames_of(words@) =~= seq![
                FrameView::Bulk(bytes_of_chars("REPLCONF"@)),
                FrameView::Bulk(bytes_of_chars("GETACK"@)),
                FrameView::Bulk(bytes_of_chars("*"@)),
            ]);
        }
        out.push(bytes);
        Ok(CommandHandlerResponse::GetAck(out))
    } else if arg_word_is(m, 1, "ack") {
        let ob = crate::text::string_to_bytes(m.vec_data[2].str_data.as_str());
        if ob.len() >= 1 && crate::resp::check_all_digits(&ob, 0, ob.len()) {
            proof {
                assert(ob@.subrange(0, ob@.len() as int) =~= ob@);
            }
            match crate::resp::parse_val(&ob, 0, ob.len()) {
                Some(offset) => {
                    db.set_slave_offset(host, offset);
                    Ok(CommandHandlerResponse::Basic(out))
                },
                None => Err(HandlerError::InvalidInteger),
            }
        } else {
            Err(HandlerError::InvalidInteger)
        }
    } else {
        Ok(CommandHandlerResponse::Basic(out))
    }
}

/// The reply side of `PSYNC`: the `FULLRESYNC` line and the raw RDB
/// payload.
pub open spec fn psync_reply(
    db0: StoreEngine,
    m: RespMessage,
    r: Result<CommandHandlerResponse, HandlerError>,
) -> bool {
    let rdb = crate::text::spec_hex_decode(EMPTY_RDB@);
    match r {
        Ok(resp) => crate::text::valid_hex(EMPTY_RDB@) && (resp matches
            CommandHandlerResponse::Psync { message, host } && host@ == m.remote_addr@
            && message@.len() == 2 && message@[0]@ == bytes_of_chars(
            "+FULLRESYNC "@ + db0.replid() + " 0\r\n"@,
        ) && message@[1]@ == seq![36u8] + spec_dec_nat(rdb.len()) + crate::resp::spec_crlf()
            + rdb),
        Err(e) => !crate::text::valid_hex(EMPTY_RDB@) && e is UnknownCommand,
    }
}

/// `PSYNC ? -1`: replies `+FULLRESYNC <replid> 0` and a raw bulk
/// holding an empty RDB snapshot, and marks the sender's record as
/// fully attached.
pub fn handle_psync(db: &mut StoreEngine, m: &RespMessage) -> (r: Result<
    CommandHandlerResponse,
    HandlerError,
>)
    requires
        old(db).inv(),
    ensures
        final(db).inv(),
        final(db).dict_view() == old(db).dict_view(),
        final(db).expiry_view() == old(db).expiry_view(),
        final(db).streams_view() == old(db).streams_view(),
        final(db).slaves().dom() == old(db).slaves().dom().insert(m.remote_addr@),
        final(db).slaves()[m.remote_addr@].handshake_state is Psync,
        psync_reply(*old(db), *m, r),
{
    let myid = db.get_master_id();
    let mut line: Vec<u8> = lit_bytes("+FULLRESYNC ");
    let idb = crate::text::string_to_bytes(myid.as_str());
    crate::resp::extend_bytes(&mut line, &idb);
    let tail = lit_bytes(" 0\r\n");
    crate::resp::extend_bytes(&mut line, &tail);
    proof {
        assert(line@ =~= bytes_of_chars("+FULLRESYNC "@ + old(db).replid() + " 0\r\n"@));
    }
    let host = m.remote_addr.clone();
    db.set_slave_node(host.clone(), String::new(), HandshakeState::Psync);
    match crate::text::hex_decode(EMPTY_RDB) {
        Some(snapshot) => {
            let mut payload: Vec<u8> = Vec::new();
            payload.push(36u8);
            crate::resp::push_dec_u64(&mut payload, snapshot.len() as u64);
            crate::resp::push_crlf(&mut payload);
            crate::resp::extend_bytes(&mut payload, &snapshot);
            let mut out: Vec<Vec<u8>> = Vec::new();
            out.push(line);
            out.push(payload);
            Ok(CommandHandlerResponse::Psync { message: out, host })
        },
        None => Err(HandlerError::UnknownCommand),
    }
}

/// What `WAIT` replied: the two counts handed on, and the current
/// replica count as the immediate answer.
pub open spec fn wait_post(
    db0: StoreEngine,
    m: RespMessage,
    r: Result<CommandHandlerResponse, HandlerError>,
) -> bool {
    let a = args_of(m);
    match r {
        Ok(resp) => resp matches CommandHandlerResponse::Wait {
            message,
            wait_count,
            wait_time,
        } && message@.len() == 1 && message@[0]@ == seq![58u8] + spec_dec_nat(
            crate::master::spec_psync_count(db0.master_info.slave_list@),
        ) + crate::resp::spec_crlf() && (if a.len() > 2 {
            crate::command::is_u64_digits(bytes_of_chars(a[1]))
                && crate::command::is_u64_digits(bytes_of_chars(a[2])) && wait_count
                == crate::resp::dec_val(bytes_of_chars(a[1])) && wait_time
                == crate::resp::dec_val(bytes_of_chars(a[2]))
        } else {
            wait_count == 0 && wait_time == 0
        }),
        Err(e) => e is InvalidInteger && a.len() > 2 && !(crate::command::is_u64_digits(
            bytes_of_chars(a[1]),
        ) && crate::command::is_u64_digits(bytes_of_chars(a[2]))),
    }
}

/// `WAIT numreplicas timeout`: hands the two counts to the `WAIT`
/// protocol, with the current count of attached replicas as the
/// immediate answer.
pub fn handle_wait(db: &StoreEngine, m: &RespMessage) -> (r: Result<
    CommandHandlerResponse,
    HandlerError,
>)
    requires
        db.inv(),
        db.master_info.slave_list@.len() <= u32::MAX,
        m.vec_data@.len() >= 1,
    ensures
        wait_post(*db, *m, r),
{
    let mut count: u64 = 0;
    let mut timeout: u64 = 0;
    if m.vec_data.len() > 2 {
        let cb = crate::text::string_to_bytes(m.vec_data[1].str_data.as_str());
        let tb = crate::text::string_to_bytes(m.vec_data[2].str_data.as_str());
        proof {
            assert(cb@.subrange(0, cb@.len() as int) =~= cb@);
            assert(tb@.subrange(0, tb@.len() as int) =~= tb@);
        }
        if !(cb.len() >= 1 && crate::resp::check_all_digits(&cb, 0, cb.len())) {
            return Err(HandlerError::InvalidInteger);
        }
        if !(tb.len() >= 1 && crate::resp::check_all_digits(&tb, 0, tb.len())) {
            return Err(HandlerError::InvalidInteger);
        }
        match (crate::resp::parse_val(&cb, 0, cb.len()), crate::resp::parse_val(&tb, 0, tb.len())) {
            (Some(c), Some(t)) => {
                count = c;
                timeout = t;
            },
            _ => {
                return Err(HandlerError::InvalidInteger);
            },
        }
    }
    let n = db.get_connected_replica_count();
    let mut reply: Vec<u8> = Vec::new();
    reply.push(58u8);
    crate::resp::push_dec_u64(&mut reply, n as u64);
    crate::resp::push_crlf(&mut reply);
    let mut out: Vec<Vec<u8>> = Vec::new();
    out.push(reply);
    Ok(CommandHandlerResponse::Wait { message: out, wait_count: count, wait_time: timeout })
}

/// What `CONFIG GET` replied: the name and the configured value.
pub open spec fn config_post(
    db0: StoreEngine,
    m: RespMessage,
    r: Result<CommandHandlerResponse, HandlerError>,
) -> bool {
    let a = args_of(m);
    match r {
        Ok(resp) => a.len() > 2 && crate::command::word_is(bytes_of_chars(a[1]), "get"@)
            && ((crate::command::word_is(bytes_of_chars(a[2]), "dir"@) && basic1(
            resp,
            spec_encode(
                FrameView::Array(
                    seq![
                        FrameView::Bulk(bytes_of_chars("dir"@)),
                        FrameView::Bulk(bytes_of_chars(db0.rdb_info.dir@)),
                    ],
                ),
            ),
        )) || (crate::command::word_is(bytes_of_chars(a[2]), "dbfilename"@) && basic1(
            resp,
            spec_encode(
                FrameView::Array(
                    seq![
                        FrameView::Bulk(bytes_of_chars("dbfilename"@)),
                        FrameView::Bulk(bytes_of_chars(db0.rdb_info.filename@)),
                    ],
                ),
            ),
        ))),
        Err(e) => (a.len() <= 2 && e is CommandTooShort) || (a.len() > 2 && e
            is UnknownConfig && !(crate::command::word_is(bytes_of_chars(a[1]), "get"@) && (
        crate::command::word_is(bytes_of_chars(a[2]), "dir"@) || crate::command::word_is(
            bytes_of_chars(a[2]),
            "dbfilename"@,
        )))),
    }
}

/// `CONFIG GET dir|dbfilename`: a two-element array of the name and
/// the configured value.
pub fn handle_config(db: &StoreEngine, m: &RespMessage) -> (r: Result<
    CommandHandlerResponse,
    HandlerError,
>)
    requires
        db.inv(),
        m.vec_data@.len() >= 1,
    ensures
        config_post(*db, *m, r),
{
    if m.vec_data.len() <= 2 {
        return Err(HandlerError::CommandTooShort);
    }
    if !arg_word_is(m, 1, "get") {
        return Err(HandlerError::UnknownConfig);
    }
    let mut out: Vec<Vec<u8>> = Vec::new();
    if arg_word_is(m, 2, "dir") {
        let mut words: Vec<String> = Vec::new();
        words.push("dir".to_owned());
        words.push(db.rdb_info.dir.clone());
        let bytes = crate::command::array_to_resp_array_bytes(&words);
        proof {
            assert(crate::command::bulk_frames_of(words@) =~= seq![
                FrameView::Bulk(bytes_of_chars("dir"@)),
                FrameView::Bulk(bytes_of_chars(db.rdb_info.dir@)),
            ]);
        }
        out.push(bytes);
        Ok(CommandHandlerResponse::Basic(out))
    } else if arg_word_is(m, 2, "dbfilename") {
        let mut words: Vec<String> = Vec::new();
        words.push("dbfilename".to_owned());
        words.push(db.rdb_info.filename.clone());
        let bytes = crate::command::array_to_resp_array_bytes(&words);
        proof {
            assert(crate::command::bulk_frames_of(words@) =~= seq![
                FrameView::Bulk(bytes_of_chars("dbfilename"@)),
                FrameView::Bulk(bytes_of_chars(db.rdb_info.filename@)),
            ]);
        }
        out.push(bytes);
        Ok(CommandHandlerResponse::Basic(out))
    } else {
        Err(HandlerError::UnknownConfig)
    }
}

/// What `KEYS` replied: every stored key for the `*` pattern.
pub open spec fn keys_post(
    db0: StoreEngine,
    m: RespMessage,
    r: Result<CommandHandlerResponse, HandlerError>,
) -> bool {
    let a = args_of(m);
    match r {
        Ok(resp) => if a.len() <= 1 {
            false
        } else if a[1] == "*"@ {
            basic1(
                resp,
                spec_encode(
                    FrameView::Array(
                        db0.key_seq().map_values(
                            |k: Seq<char>| FrameView::Bulk(bytes_of_chars(k)),
                        ),
                    ),
                ),
            )
        } else {
            resp matches CommandHandlerResponse::Basic(v) && v@.len() == 0
        },
        Err(e) => a.len() <= 1 && e is CommandTooShort,
    }
}

/// `KEYS *`: every stored key as an array of bulk strings; any other
/// pattern gets an empty write.
pub fn handle_keys(db: &StoreEngine, m: &RespMessage) -> (r: Result<
    CommandHandlerResponse,
    HandlerError,
>)
    requires
        db.inv(),
        m.vec_data@.len() >= 1,
    ensures
        keys_post(*db, *m, r),
{
    if m.vec_data.len() <= 1 {
        return Err(HandlerError::CommandTooShort);
    }
    let mut out: Vec<Vec<u8>> = Vec::new();
    let star: String = "*".to_owned();
    if m.vec_data[1].str_data == star {
        let keys = db.get_keys();
        let bytes = crate::command::array_to_resp_array_bytes(&keys);
        proof {
            assert(crate::command::bulk_frames_of(keys@) =~= db.key_seq().map_values(
                |k: Seq<char>| FrameView::Bulk(bytes_of_chars(k)),
            ));
        }
        out.push(bytes);
    }
    Ok(CommandHandlerResponse::Basic(out))
}

/// What `TYPE` replied: where the key lives, as a simple string.
pub open spec fn type_post(
    db0: StoreEngine,
    m: RespMessage,
    r: Result<CommandHandlerResponse, HandlerError>,
) -> bool {
    let a = args_of(m);
    match r {
        Ok(resp) => a.len() > 1 && (if db0.kv_text().dom().contains(a[1]) {
            basic1(resp, simple_bytes("string"@))
        } else if db0.streams_view().dom().contains(a[1]) {
            basic1(resp, simple_bytes("stream"@))
        } else {
            basic1(resp, simple_bytes("none"@))
        }),
        Err(e) => a.len() <= 1 && e is CommandTooShort,
    }
}

/// `TYPE k`: `+string`, `+stream` or `+none`, by where the key lives.
pub fn handle_type(db: &StoreEngine, m: &RespMessage) -> (r: Result<
    CommandHandlerResponse,
    HandlerError,
>)
    requires
        db.inv(),
        m.vec_data@.len() >= 1,
    ensures
        type_post(*db, *m, r),
{
    if m.vec_data.len() <= 1 {
        return Err(HandlerError::CommandTooShort);
    }
    let key = arg_text(m, 1);
    let word: &str = match db.get(key.as_str()) {
        Some(_) => "string",
        None => match db.get_stream_key(key.as_str()) {
            Some(_) => "stream",
            None => "none",
        },
    };
    let mut out: Vec<Vec<u8>> = Vec::new();
    out.push(crate::resp::encode(&RespFrame::Simple(lit_bytes(word))));
    Ok(CommandHandlerResponse::Basic(out))
}

} // verus!

// ---------------------------------------------------------------------------
// Stream commands
// ---------------------------------------------------------------------------

verus! {

use crate::stream::{fields_view, ranges_view, spec_may_append, spec_parsed_sid,
    spec_range, spec_after, spec_sid_bytes, spec_validate, StreamRange};

/// The last id of the stream under `k`, if the stream exists.
pub open spec fn last_of(db: StoreEngine, k: Seq<char>) -> Option<StreamID> {
    if db.streams_view().dom().contains(k) && db.streams_view()[k]@.len() > 0 {
        Some(db.streams_view()[k]@.last().id)
    } else {
        None
    }
}

/// The id an `XADD` argument denotes against the current stream: an
/// explicit pair as itself; `<ms>-*` and `*` through the generation
/// rules; every other form (including rejections) denotes nothing.
pub open spec fn xadd_resolved(db: StoreEngine, k: Seq<char>, idtext: Seq<char>, now: u64) -> Option<
    StreamID,
> {
    match spec_validate(bytes_of_chars(idtext)) {
        StreamIDState::Valid => Some(spec_parsed_sid(bytes_of_chars(idtext))),
        StreamIDState::GenerateSequence(ts) => spec_next_sid(last_of(db, k), ts),
        StreamIDState::GenerateMillisecond => spec_next_sid(last_of(db, k), now as u128),
        _ => None,
    }
}

/// Consecutive argument pairs, as field and value.
pub open spec fn spec_pairs(xs: Seq<Seq<char>>) -> Seq<(Seq<char>, Seq<char>)>
    decreases xs.len(),
{
    if xs.len() < 2 {
        Seq::empty()
    } else {
        seq![(xs[0], xs[1])] + spec_pairs(xs.subrange(2, xs.len() as int))
    }
}

/// What a completed `XADD` did: the stream under `k` gained exactly
/// one entry at the end, carrying the resolved id and the given field
/// pairs, and the reply is the id's text as a bulk string.
pub open spec fn xadd_appended(
    db0: StoreEngine,
    db1: StoreEngine,
    k: Seq<char>,
    id: StreamID,
    fields: Seq<(Seq<char>, Seq<char>)>,
    resp: CommandHandlerResponse,
) -> bool {
    let es0 = if db0.streams_view().dom().contains(k) {
        db0.streams_view()[k]@
    } else {
        Seq::empty()
    };
    let es1 = db1.streams_view()[k]@;
    db1.streams_view().dom() == db0.streams_view().dom().insert(k) && es1.len() == es0.len() + 1
        && es1.take(es0.len() as int) == es0 && es1.last().id == id && fields_view(
        es1.last().fields@,
    ) == fields && (forall|k2: Seq<char>|
        k2 != k && db0.streams_view().dom().contains(k2) ==> db1.streams_view()[k2]
            == db0.streams_view()[k2]) && basic1(
        resp,
        bulk_bytes(chars_of_bytes(spec_sid_bytes(id))),
    )
}

/// What `XADD` did, across validation, generation and append.
pub open spec fn xadd_post(
    db0: StoreEngine,
    db1: StoreEngine,
    m: RespMessage,
    now: u64,
    r: Result<CommandHandlerResponse, HandlerError>,
) -> bool {
    let a = args_of(m);
    let k = a[1];
    match r {
        Ok(resp) => a.len() > 3 && (match xadd_resolved(db0, k, a[2], now) {
            None => db1 == db0 && basic1(
                resp,
                bytes_of_chars(XADD_ERR_SMALLER@),
            ),
            Some(id) => if id == sid_zero() {
                db1 == db0 && basic1(resp, bytes_of_chars(XADD_ERR_ZERO@))
            } else if !(!db0.streams_view().dom().contains(k) || spec_may_append(
                db0.streams_view()[k]@,
                id,
            )) {
                db1 == db0 && basic1(resp, bytes_of_chars(XADD_ERR_SMALLER@))
            } else {
                (a.len() - 3) % 2 == 0 && xadd_appended(
                    db0,
                    db1,
                    k,
                    id,
                    spec_pairs(a.subrange(3, a.len() as int)),
                    resp,
                )
            },
        }),
        Err(e) => db1 == db0 && ((a.len() <= 3 && e is CommandTooShort) || (a.len() > 3 && e
            is KeyValueMismatch && (match xadd_resolved(db0, k, a[2], now) {
            Some(id) => id != sid_zero() && (!db0.streams_view().dom().contains(k)
                || spec_may_append(db0.streams_view()[k]@, id)) && (a.len() - 3) % 2 != 0,
            None => false,
        }))),
    }
}

/// `XADD key id field value ...`: validates the id against the stream,
/// generates one where asked, and appends the field pairs.  The two
/// rejection texts are character-exact; `0-0` is rejected whatever the
/// stream holds.
pub fn handle_xadd(db: &mut StoreEngine, m: &RespMessage, now_ms: u64) -> (r: Result<
    CommandHandlerResponse,
    HandlerError,
>)
    requires
        old(db).inv(),
        m.vec_data@.len() >= 1,
    ensures
        final(db).inv(),
        final(db).dict_view() == old(db).dict_view(),
        final(db).expiry_view() == old(db).expiry_view(),
        final(db).master_info == old(db).master_info,
        final(db).replica_info == old(db).replica_info,
        xadd_post(*old(db), *final(db), *m, now_ms, r),
{
    let ghost a = args_of(*m);
    if m.vec_data.len() <= 3 {
        return Err(HandlerError::CommandTooShort);
    }
    let key = arg_text(m, 1);
    let idtext = arg_text(m, 2);
    let classified = StreamID::validate(idtext.as_str());
    let resolved: Option<StreamID> = match classified {
        StreamIDState::Valid => Some(StreamID::from_text(idtext.as_str())),
        StreamIDState::GenerateSequence(ts) => db.next_stream_sequence_id(key.as_str(), ts),
        StreamIDState::GenerateMillisecond => db.next_stream_sequence_id(
            key.as_str(),
            now_ms as u128,
        ),
        _ => None,
    };
    let id = match resolved {
        None => {
            let mut out: Vec<Vec<u8>> = Vec::new();
            out.push(lit_bytes(XADD_ERR_SMALLER));
            return Ok(CommandHandlerResponse::Basic(out));
        },
        Some(id) => id,
    };
    if id.millisecond == 0 && id.sequence == 0 {
        let mut out: Vec<Vec<u8>> = Vec::new();
        out.push(lit_bytes(XADD_ERR_ZERO));
        return Ok(CommandHandlerResponse::Basic(out));
    }
    if !db.valid_stream_id(key.as_str(), id) {
        let mut out: Vec<Vec<u8>> = Vec::new();
        out.push(lit_bytes(XADD_ERR_SMALLER));
        return Ok(CommandHandlerResponse::Basic(out));
    }
    let n = m.vec_data.len();
    if (n - 3) % 2 != 0 {
        return Err(HandlerError::KeyValueMismatch);
    }
    let mut fields: Vec<(String, String)> = Vec::new();
    let mut i: usize = 3;
    proof {
        assert(spec_pairs(a.subrange(3, 3)) =~= Seq::<(Seq<char>, Seq<char>)>::empty());
        assert(fields_view(fields@) =~= Seq::<(Seq<char>, Seq<char>)>::empty());
    }
    while i < n - 1
        invariant
            4 <= n,
            3 <= i <= n,
            (i - 3) % 2 == 0,
            (n - 3) % 2 == 0,
            n == m.vec_data@.len(),
            a == args_of(*m),
            fields_view(fields@) == spec_pairs(a.subrange(3, i as int)),
        decreases n - i,
    {
        let f = arg_text(m, i);
        let v = arg_text(m, i + 1);
        let ghost snap = fields@;
        fields.push((f, v));
        proof {
            assert(fields_view(fields@) =~= fields_view(snap).push((a[i as int], a[i + 1])));
            lemma_pairs_step(a, 3, i as int);
        }
        i = i + 2;
    }
    proof {
        assert(i == n);
        assert(a.subrange(3, n as int) =~= a.subrange(3, a.len() as int));
    }
    let ghost pre = *db;
    let idtext_out = match db.set_stream_key(key.clone(), id, fields) {
        Ok(text) => text,
        Err(_) => {
            // the id was checked against the stream just above
            proof {
                assert(false);
            }
            String::new()
        },
    };
    let mut out: Vec<Vec<u8>> = Vec::new();
    out.push(crate::resp::encode(&RespFrame::Bulk(crate::text::string_to_bytes(
        idtext_out.as_str(),
    ))));
    proof {
        assert(db.streams_view()[a[1]]@.take(pre_entries_len(pre, a[1]) as int) =~= (if pre
            .streams_view().dom().contains(a[1]) {
            pre.streams_view()[a[1]]@
        } else {
            Seq::<crate::stream::StreamEntry>::empty()
        }));
    }
    Ok(CommandHandlerResponse::Basic(out))
}

/// How many entries the stream under `k` held.
pub open spec fn pre_entries_len(db: StoreEngine, k: Seq<char>) -> nat {
    if db.streams_view().dom().contains(k) {
        db.streams_view()[k]@.len()
    } else {
        0
    }
}

/// Taking one more pair extends the pair list by the pair at `i`.
proof fn lemma_pairs_step(a: Seq<Seq<char>>, base: int, i: int)
    requires
        0 <= base <= i,
        i + 2 <= a.len(),
        (i - base) % 2 == 0,
    ensures
        spec_pairs(a.subrange(base, i + 2)) == spec_pairs(a.subrange(base, i)).push(
            (a[i], a[i + 1]),
        ),
    decreases i - base,
{
    let whole = a.subrange(base, i + 2);
    if base == i {
        assert(whole.len() == 2);
        assert(whole[0] == a[i] && whole[1] == a[i + 1]);
        assert(whole.subrange(2, 2) =~= Seq::<Seq<char>>::empty());
        assert(spec_pairs(whole.subrange(2, 2)) =~= Seq::<(Seq<char>, Seq<char>)>::empty());
        assert(spec_pairs(a.subrange(base, base)) =~= Seq::<(Seq<char>, Seq<char>)>::empty());
        assert(spec_pairs(whole) == seq![(whole[0], whole[1])] + spec_pairs(
            whole.subrange(2, 2),
        ));
        assert(spec_pairs(whole) =~= seq![(a[i], a[i + 1])]);
    } else {
        lemma_pairs_step(a, base + 2, i);
        assert(whole.subrange(2, whole.len() as int) =~= a.subrange(base + 2, i + 2));
        assert(whole[0] == a[base] && whole[1] == a[base + 1]);
        assert(a.subrange(base, i).subrange(2, i - base) =~= a.subrange(base + 2, i));
        assert(a.subrange(base, i)[0] == a[base] && a.subrange(base, i)[1] == a[base + 1]);
        assert(spec_pairs(a.subrange(base, i)) == seq![(a[base], a[base + 1])] + spec_pairs(
            a.subrange(base + 2, i),
        ));
        assert(spec_pairs(whole) == seq![(a[base], a[base + 1])] + spec_pairs(
            a.subrange(base + 2, i + 2),
        ));
        assert(spec_pairs(whole) =~= spec_pairs(a.subrange(base, i)).push((a[i], a[i + 1])));
    }
}

} // verus!

// ---------------------------------------------------------------------------
// Range replies
// ---------------------------------------------------------------------------

verus! {

/// The field/value pairs of one entry, flattened into bulk strings.
pub open spec fn fields_frames(fs: Seq<(Seq<char>, Seq<char>)>) -> Seq<FrameView> {
    Seq::new(
        2 * fs.len(),
        |i: int|
            if i % 2 == 0 {
                FrameView::Bulk(bytes_of_chars(fs[i / 2].0))
            } else {
                FrameView::Bulk(bytes_of_chars(fs[i / 2].1))
            },
    )
}

/// One `XRANGE` element: the id as a bulk string, then the flattened
/// field/value pairs.
pub open spec fn range_frame(p: (StreamID, Seq<(Seq<char>, Seq<char>)>)) -> FrameView {
    FrameView::Array(
        seq![
            FrameView::Bulk(spec_sid_bytes(p.0)),
            FrameView::Array(fields_frames(p.1)),
        ],
    )
}

/// A whole `XRANGE` reply: one element per entry, in order.
pub open spec fn ranges_frame(rs: Seq<(StreamID, Seq<(Seq<char>, Seq<char>)>)>) -> FrameView {
    FrameView::Array(rs.map_values(|p: (StreamID, Seq<(Seq<char>, Seq<char>)>)| range_frame(p)))
}

/// Builds the flattened field/value bulk strings of one entry.
fn fields_to_frames(fs: &Vec<(String, String)>) -> (r: Vec<RespFrame>)
    ensures
        crate::resp::views_of(r@) == fields_frames(fields_view(fs@)),
{
    let mut out: Vec<RespFrame> = Vec::new();
    let mut i: usize = 0;
    while i < fs.len()
        invariant
            i <= fs@.len(),
            out@.len() == 2 * i,
            forall|j: int|
                0 <= j < out@.len() ==> crate::resp::frame_view(#[trigger] out@[j])
                    == fields_frames(fields_view(fs@))[j],
        decreases fs@.len() - i,
    {
        out.push(RespFrame::Bulk(crate::text::string_to_bytes(fs[i].0.as_str())));
        out.push(RespFrame::Bulk(crate::text::string_to_bytes(fs[i].1.as_str())));
        i = i + 1;
    }
    proof {
        crate::resp::lemma_views_of(out@);
        assert forall|j: int| 0 <= j < out@.len() implies crate::resp::views_of(out@)[j]
            == fields_frames(fields_view(fs@))[j] by {
            assert(crate::resp::views_of(out@)[j] == crate::resp::frame_view(out@[j]));
        }
        assert(crate::resp::views_of(out@) =~= fields_frames(fields_view(fs@)));
    }
    out
}

/// Builds one `XRANGE` element.
fn range_to_frame(e: &StreamRange) -> (r: RespFrame)
    ensures
        crate::resp::frame_view(r) == range_frame((e.stream_id, fields_view(e.hash@))),
{
    let mut idb: Vec<u8> = Vec::new();
    crate::resp::push_dec_u128(&mut idb, e.stream_id.millisecond);
    idb.push(45u8);
    crate::resp::push_dec_u128(&mut idb, e.stream_id.sequence as u128);
    proof {
        assert(idb@ =~= spec_sid_bytes(e.stream_id));
    }
    let ghost idv = idb@;
    let inner = fields_to_frames(&e.hash);
    let ghost innerv = inner@;
    let mut elems: Vec<RespFrame> = Vec::new();
    elems.push(RespFrame::Bulk(idb));
    elems.push(RespFrame::Array(inner));
    let ghost ev = elems@;
    let r = RespFrame::Array(elems);
    proof {
        crate::resp::lemma_views_of(ev);
        assert(r->Array_0@ == ev);
        assert(crate::resp::views_of(ev)[0] == crate::resp::frame_view(ev[0]));
        assert(crate::resp::views_of(ev)[1] == crate::resp::frame_view(ev[1]));
        assert(crate::resp::frame_view(ev[1]) == FrameView::Array(crate::resp::views_of(innerv)));
        assert(crate::resp::views_of(ev) =~= seq![
            FrameView::Bulk(spec_sid_bytes(e.stream_id)),
            FrameView::Array(fields_frames(fields_view(e.hash@))),
        ]);
    }
    r
}

/// Builds a whole `XRANGE` reply frame.
fn ranges_to_frame(rs: &Vec<StreamRange>) -> (r: RespFrame)
    ensures
        crate::resp::frame_view(r) == ranges_frame(ranges_view(rs@)),
{
    let mut items: Vec<RespFrame> = Vec::new();
    let mut i: usize = 0;
    while i < rs.len()
        invariant
            i <= rs@.len(),
            items@.len() == i,
            forall|j: int|
                0 <= j < i ==> crate::resp::frame_view(#[trigger] items@[j]) == range_frame(
                    (rs@[j].stream_id, fields_view(rs@[j].hash@)),
                ),
        decreases rs@.len() - i,
    {
        items.push(range_to_frame(&rs[i]));
        i = i + 1;
    }
    let ghost iv = items@;
    let r = RespFrame::Array(items);
    proof {
        crate::resp::lemma_views_of(iv);
        assert(r->Array_0@ == iv);
        assert forall|j: int| 0 <= j < iv.len() implies crate::resp::views_of(iv)[j]
            == ranges_view(rs@).map_values(
            |p: (StreamID, Seq<(Seq<char>, Seq<char>)>)| range_frame(p),
        )[j] by {
            assert(crate::resp::views_of(iv)[j] == crate::resp::frame_view(iv[j]));
            assert(ranges_view(rs@)[j] == (rs@[j].stream_id, fields_view(rs@[j].hash@)));
        }
        assert(crate::resp::views_of(iv) =~= ranges_view(rs@).map_values(
            |p: (StreamID, Seq<(Seq<char>, Seq<char>)>)| range_frame(p),
        ));
    }
    r
}

/// What an `XRANGE` bound denotes: a full id as itself, a bare
/// timestamp at sequence zero, `-` as the least id; nothing else.
pub open spec fn xrange_start_of(t: Seq<char>) -> Option<StreamID> {
    match spec_validate(bytes_of_chars(t)) {
        StreamIDState::Valid => Some(spec_parsed_sid(bytes_of_chars(t))),
        StreamIDState::MillisecondOnly(ts) => Some(StreamID { millisecond: ts, sequence: 0 }),
        StreamIDState::FirstStreamID(s) => Some(s),
        _ => None,
    }
}

/// What an `XRANGE` upper bound denotes: additionally, `+` is the
/// stream's last id, or the least id when the stream is empty.
pub open spec fn xrange_end_of(db: StoreEngine, k: Seq<char>, t: Seq<char>) -> Option<StreamID> {
    match spec_validate(bytes_of_chars(t)) {
        StreamIDState::Valid => Some(spec_parsed_sid(bytes_of_chars(t))),
        StreamIDState::MillisecondOnly(ts) => Some(StreamID { millisecond: ts, sequence: 0 }),
        StreamIDState::LastStreamID => match last_of(db, k) {
            Some(id) => Some(id),
            None => Some(sid_zero()),
        },
        _ => None,
    }
}

/// The entries of the stream under `k`, or nothing.
pub open spec fn entries_or_empty(db: StoreEngine, k: Seq<char>) -> Seq<crate::stream::StreamEntry> {
    if db.streams_view().dom().contains(k) {
        db.streams_view()[k]@
    } else {
        Seq::empty()
    }
}

/// Resolves an `XRANGE` lower bound.
fn resolve_start(t: &String) -> (r: Option<StreamID>)
    ensures
        r == xrange_start_of(t@),
{
    match StreamID::validate(t.as_str()) {
        StreamIDState::Valid => Some(StreamID::from_text(t.as_str())),
        StreamIDState::MillisecondOnly(ts) => Some(StreamID::new(ts, 0)),
        StreamIDState::FirstStreamID(s) => Some(s),
        _ => None,
    }
}

/// What `XRANGE` replied: the inclusive range between its bounds.
pub open spec fn xrange_post(
    db0: StoreEngine,
    m: RespMessage,
    r: Result<CommandHandlerResponse, HandlerError>,
) -> bool {
    let a = args_of(m);
    match r {
        Ok(resp) => a.len() >= 4 && (match (xrange_start_of(a[2]), xrange_end_of(
            db0,
            a[1],
            a[3],
        )) {
            (Some(s), Some(e)) => basic1(
                resp,
                spec_encode(ranges_frame(spec_range(entries_or_empty(db0, a[1]), s, e))),
            ),
            _ => false,
        }),
        Err(er) => (a.len() < 4 && er is CommandTooShort) || (a.len() >= 4 && er
            is InvalidStreamId && (xrange_start_of(a[2]) is None || xrange_end_of(
            db0,
            a[1],
            a[3],
        ) is None)),
    }
}

/// `XRANGE key start end`: the entries between the two bounds,
/// inclusive at both, as a nested array.
pub fn handle_xrange(db: &StoreEngine, m: &RespMessage) -> (r: Result<
    CommandHandlerResponse,
    HandlerError,
>)
    requires
        db.inv(),
        m.vec_data@.len() >= 1,
    ensures
        xrange_post(*db, *m, r),
{
    if m.vec_data.len() < 4 {
        return Err(HandlerError::CommandTooShort);
    }
    let k = arg_text(m, 1);
    let from_text = arg_text(m, 2);
    let to_text = arg_text(m, 3);
    let start = match resolve_start(&from_text) {
        Some(s) => s,
        None => {
            return Err(HandlerError::InvalidStreamId);
        },
    };
    let end = match StreamID::validate(to_text.as_str()) {
        StreamIDState::Valid => StreamID::from_text(to_text.as_str()),
        StreamIDState::MillisecondOnly(ts) => StreamID::new(ts, 0),
        StreamIDState::LastStreamID => {
            match db.get_last_stream_id(k.as_str()) {
                Some(id) => id,
                None => StreamID::new(0, 0),
            }
        },
        _ => {
            return Err(HandlerError::InvalidStreamId);
        },
    };
    let ranges = db.get_stream_by_range(k.as_str(), &start, &end);
    let frame = ranges_to_frame(&ranges);
    proof {
        if !db.streams_view().dom().contains(args_of(*m)[1]) {
            assert(ranges_view(ranges@) =~= Seq::<
                (StreamID, Seq<(Seq<char>, Seq<char>)>),
            >::empty());
            assert(spec_range(entries_or_empty(*db, args_of(*m)[1]), start, end) =~= Seq::<
                (StreamID, Seq<(Seq<char>, Seq<char>)>),
            >::empty());
        }
    }
    let mut out: Vec<Vec<u8>> = Vec::new();
    out.push(crate::resp::encode(&frame));
    Ok(CommandHandlerResponse::Basic(out))
}

} // verus!

// ---------------------------------------------------------------------------
// XREAD
// ---------------------------------------------------------------------------

verus! {

/// Whether an `XREAD` argument reads as an id (a full pair, a bare
/// timestamp, or `-`); anything else is taken as a stream key.
pub open spec fn is_id_arg(t: Seq<char>) -> bool {
    match spec_validate(bytes_of_chars(t)) {
        StreamIDState::Valid => true,
        StreamIDState::MillisecondOnly(_) => true,
        StreamIDState::FirstStreamID(_) => true,
        _ => false,
    }
}

/// The id an `XREAD` id argument denotes.
pub open spec fn id_of_arg(t: Seq<char>) -> StreamID {
    match spec_validate(bytes_of_chars(t)) {
        StreamIDState::Valid => spec_parsed_sid(bytes_of_chars(t)),
        StreamIDState::MillisecondOnly(ts) => StreamID { millisecond: ts, sequence: 0 },
        StreamIDState::FirstStreamID(s) => s,
        _ => sid_zero(),
    }
}

/// The key arguments among `a[i..]`, in order.
pub open spec fn xread_keys(a: Seq<Seq<char>>, i: int) -> Seq<Seq<char>>
    decreases a.len() - i,
{
    if i < 0 || i >= a.len() {
        Seq::empty()
    } else if is_id_arg(a[i]) {
        xread_keys(a, i + 1)
    } else {
        seq![a[i]] + xread_keys(a, i + 1)
    }
}

/// The id arguments among `a[i..]`, in order.
pub open spec fn xread_ids(a: Seq<Seq<char>>, i: int) -> Seq<StreamID>
    decreases a.len() - i,
{
    if i < 0 || i >= a.len() {
        Seq::empty()
    } else if is_id_arg(a[i]) {
        seq![id_of_arg(a[i])] + xread_ids(a, i + 1)
    } else {
        xread_ids(a, i + 1)
    }
}

/// The reply elements of a streams `XREAD`: one `[key, entries]` pair
/// per requested stream with anything past its id, in request order;
/// empty streams are left out.
pub open spec fn xread_elems(db: StoreEngine, ks: Seq<Seq<char>>, ids: Seq<StreamID>, j: int) -> Seq<
    FrameView,
>
    decreases ks.len() - j,
{
    if j < 0 || j >= ks.len() || j >= ids.len() {
        Seq::empty()
    } else {
        let rng = spec_after(entries_or_empty(db, ks[j]), ids[j]);
        (if rng.len() == 0 {
            Seq::<FrameView>::empty()
        } else {
            seq![
                (FrameView::Array(
                    seq![FrameView::Bulk(bytes_of_chars(ks[j])), ranges_frame(rng)],
                )),
            ]
        }) + xread_elems(db, ks, ids, j + 1)
    }
}

/// Builds one `[key, entries]` reply element.
fn xread_one(db: &StoreEngine, key: &String, id: &StreamID) -> (r: Option<RespFrame>)
    requires
        db.inv(),
    ensures
        ({
            let rng = spec_after(entries_or_empty(*db, key@), *id);
            match r {
                Some(f) => rng.len() > 0 && crate::resp::frame_view(f) == FrameView::Array(
                    seq![FrameView::Bulk(bytes_of_chars(key@)), ranges_frame(rng)],
                ),
                None => rng.len() == 0,
            }
        }),
{
    let ranges = db.get_xread(key.as_str(), id);
    proof {
        if !db.streams_view().dom().contains(key@) {
            assert(ranges_view(ranges@) =~= Seq::<
                (StreamID, Seq<(Seq<char>, Seq<char>)>),
            >::empty());
            assert(spec_after(entries_or_empty(*db, key@), *id) =~= Seq::<
                (StreamID, Seq<(Seq<char>, Seq<char>)>),
            >::empty());
        }
        assert(ranges_view(ranges@).len() == ranges@.len());
    }
    if ranges.len() == 0 {
        return None;
    }
    let inner = ranges_to_frame(&ranges);
    let mut elems: Vec<RespFrame> = Vec::new();
    elems.push(RespFrame::Bulk(crate::text::string_to_bytes(key.as_str())));
    elems.push(inner);
    let ghost ev = elems@;
    let f = RespFrame::Array(elems);
    proof {
        crate::resp::lemma_views_of(ev);
        assert(f->Array_0@ == ev);
        assert(crate::resp::views_of(ev)[0] == crate::resp::frame_view(ev[0]));
        assert(crate::resp::views_of(ev)[1] == crate::resp::frame_view(ev[1]));
        assert(crate::resp::views_of(ev) =~= seq![
            FrameView::Bulk(bytes_of_chars(key@)),
            ranges_frame(spec_after(entries_or_empty(*db, key@), *id)),
        ]);
    }
    Some(f)
}

/// What `XREAD` replied or deferred.
pub open spec fn xread_post(
    db0: StoreEngine,
    m: RespMessage,
    r: Result<CommandHandlerResponse, HandlerError>,
) -> bool {
    let a = args_of(m);
    match r {
        Ok(resp) => a.len() >= 4 && xread_ok(db0, a, resp),
        Err(e) => (a.len() < 4 && e is CommandTooShort) || (a.len() >= 4 && xread_err(a, e)),
    }
}

/// Why a long-enough `XREAD` was rejected: an unreadable `BLOCK`
/// count, key and id lists of different lengths, or an unreadable
/// lower bound in the single-stream form — each error exactly on its
/// cause, so a well-formed read must be answered.
pub open spec fn xread_err(a: Seq<Seq<char>>, e: HandlerError) -> bool {
    let blocking = a[1] == "block"@;
    let streams_mode = a[1] == "streams"@;
    if blocking && !crate::command::is_u64_digits(bytes_of_chars(a[2])) {
        e is InvalidInteger
    } else if blocking || streams_mode {
        let start: int = if blocking {
            4
        } else {
            2
        };
        e is KeyIdMismatch && xread_keys(a, start).len() != xread_ids(a, start).len()
    } else {
        e is InvalidStreamId && xrange_start_of(a[3]) is None
    }
}

/// `XREAD [BLOCK ms] STREAMS k... id...`: entries strictly after each
/// id, one `[key, entries]` element per nonempty stream; `BLOCK` defers
/// to the connection loop with the keys and ids to poll.
pub fn handle_xread(db: &StoreEngine, m: &RespMessage) -> (r: Result<
    CommandHandlerResponse,
    HandlerError,
>)
    requires
        db.inv(),
        m.vec_data@.len() >= 1,
    ensures
        xread_post(*db, *m, r),
{
    let ghost a = args_of(*m);
    if m.vec_data.len() < 4 {
        return Err(HandlerError::CommandTooShort);
    }
    let blocking = arg_is_exact(m, 1, "block");
    let streams_mode = arg_is_exact(m, 1, "streams");
    if blocking || streams_mode {
        let mut waiting_time: u64 = 0;
        let start_key: usize = if blocking {
            let tb = crate::text::string_to_bytes(m.vec_data[2].str_data.as_str());
            if !(tb.len() >= 1 && crate::resp::check_all_digits(&tb, 0, tb.len())) {
                return Err(HandlerError::InvalidInteger);
            }
            proof {
                assert(tb@.subrange(0, tb@.len() as int) =~= tb@);
            }
            match crate::resp::parse_val(&tb, 0, tb.len()) {
                Some(t) => {
                    waiting_time = t;
                },
                None => {
                    return Err(HandlerError::InvalidInteger);
                },
            }
            4
        } else {
            2
        };
        let mut key_vec: Vec<String> = Vec::new();
        let mut id_vec: Vec<StreamID> = Vec::new();
        let n = m.vec_data.len();
        let mut i: usize = start_key;
        while i < n
            invariant
                start_key <= i <= n,
                n == m.vec_data@.len(),
                a == args_of(*m),
                key_vec@.map_values(|s: String| s@) + xread_keys(a, i as int) == xread_keys(
                    a,
                    start_key as int,
                ),
                id_vec@ + xread_ids(a, i as int) == xread_ids(a, start_key as int),
            decreases n - i,
        {
            let t = arg_text(m, i);
            let ghost kv0 = key_vec@;
            let ghost iv0 = id_vec@;
            match StreamID::validate(t.as_str()) {
                StreamIDState::Valid => {
                    id_vec.push(StreamID::from_text(t.as_str()));
                },
                StreamIDState::MillisecondOnly(ts) => {
                    id_vec.push(StreamID::new(ts, 0));
                },
                StreamIDState::FirstStreamID(s) => {
                    id_vec.push(s);
                },
                _ => {
                    key_vec.push(t);
                },
            }
            proof {
                if is_id_arg(a[i as int]) {
                    assert(id_vec@ =~= iv0.push(id_of_arg(a[i as int])));
                    assert(iv0.push(id_of_arg(a[i as int])) + xread_ids(a, i + 1) =~= iv0 + (seq![
                        id_of_arg(a[i as int]),
                    ] + xread_ids(a, i + 1)));
                } else {
                    assert(key_vec@.map_values(|s: String| s@) =~= kv0.map_values(
                        |s: String| s@,
                    ).push(a[i as int]));
                    assert(kv0.map_values(|s: String| s@).push(a[i as int]) + xread_keys(a, i + 1)
                        =~= kv0.map_values(|s: String| s@) + (seq![a[i as int]] + xread_keys(
                        a,
                        i + 1,
                    )));
                }
            }
            i = i + 1;
        }
        proof {
            assert(xread_keys(a, n as int) =~= Seq::<Seq<char>>::empty());
            assert(xread_ids(a, n as int) =~= Seq::<StreamID>::empty());
            assert(key_vec@.map_values(|s: String| s@) + Seq::<Seq<char>>::empty()
                =~= key_vec@.map_values(|s: String| s@));
            assert(id_vec@ + Seq::<StreamID>::empty() =~= id_vec@);
        }
        if key_vec.len() != id_vec.len() {
            return Err(HandlerError::KeyIdMismatch);
        }
        if blocking {
            return Ok(CommandHandlerResponse::StreamBlock {
                ms: waiting_time,
                key_vec,
                stream_id_vec: id_vec,
            });
        }
        let mut items: Vec<RespFrame> = Vec::new();
        let ghost ks = key_vec@.map_values(|s: String| s@);
        let ghost ids = id_vec@;
        let mut j: usize = 0;
        while j < key_vec.len()
            invariant
                db.inv(),
                j <= key_vec@.len(),
                key_vec@.len() == id_vec@.len(),
                ks == key_vec@.map_values(|s: String| s@),
                ids == id_vec@,
                crate::resp::views_of(items@) + xread_elems(*db, ks, ids, j as int) == xread_elems(
                    *db,
                    ks,
                    ids,
                    0,
                ),
            decreases key_vec@.len() - j,
        {
            let ghost snap = items@;
            match xread_one(db, &key_vec[j], &id_vec[j]) {
                Some(f) => {
                    items.push(f);
                    proof {
                        crate::resp::lemma_views_of(items@);
                        crate::resp::lemma_views_of(snap);
                        assert(items@.drop_last() =~= snap);
                        assert(crate::resp::views_of(items@) =~= crate::resp::views_of(snap).push(
                            crate::resp::frame_view(items@.last()),
                        ));
                        assert(crate::resp::views_of(snap).push(
                            crate::resp::frame_view(items@.last()),
                        ) + xread_elems(*db, ks, ids, j + 1) =~= crate::resp::views_of(snap) + (
                        seq![crate::resp::frame_view(items@.last())] + xread_elems(
                            *db,
                            ks,
                            ids,
                            j + 1,
                        )));
                    }
                },
                None => {
                    proof {
                        assert(Seq::<FrameView>::empty() + xread_elems(*db, ks, ids, j + 1)
                            =~= xread_elems(*db, ks, ids, j + 1));
                    }
                },
            }
            j = j + 1;
        }
        proof {
            assert(xread_elems(*db, ks, ids, ks.len() as int) =~= Seq::<FrameView>::empty());
            assert(crate::resp::views_of(items@) + Seq::<FrameView>::empty()
                =~= crate::resp::views_of(items@));
        }
        let ghost iv = items@;
        let outer = RespFrame::Array(items);
        proof {
            assert(outer->Array_0@ == iv);
        }
        let mut out: Vec<Vec<u8>> = Vec::new();
        out.push(crate::resp::encode(&outer));
        return Ok(CommandHandlerResponse::Basic(out));
    }
    // a single stream: `XREAD <anything> key id`
    let key = arg_text(m, 2);
    let from_text = arg_text(m, 3);
    let start = match resolve_start(&from_text) {
        Some(s) => s,
        None => {
            return Err(HandlerError::InvalidStreamId);
        },
    };
    let mut items: Vec<RespFrame> = Vec::new();
    match xread_one(db, &key, &start) {
        Some(f) => {
            items.push(f);
        },
        None => {
            // the stream wrap is sent even when nothing qualifies
            let ranges = db.get_xread(key.as_str(), &start);
            let inner = ranges_to_frame(&ranges);
            let mut elems: Vec<RespFrame> = Vec::new();
            elems.push(RespFrame::Bulk(crate::text::string_to_bytes(key.as_str())));
            elems.push(inner);
            let ghost ev = elems@;
            let f = RespFrame::Array(elems);
            proof {
                crate::resp::lemma_views_of(ev);
                assert(f->Array_0@ == ev);
                assert(crate::resp::views_of(ev)[0] == crate::resp::frame_view(ev[0]));
                assert(crate::resp::views_of(ev)[1] == crate::resp::frame_view(ev[1]));
                if !db.streams_view().dom().contains(key@) {
                    assert(ranges_view(ranges@) =~= Seq::<
                        (StreamID, Seq<(Seq<char>, Seq<char>)>),
                    >::empty());
                    assert(spec_after(entries_or_empty(*db, key@), start) =~= Seq::<
                        (StreamID, Seq<(Seq<char>, Seq<char>)>),
                    >::empty());
                }
                assert(crate::resp::views_of(ev) =~= seq![
                    FrameView::Bulk(bytes_of_chars(key@)),
                    ranges_frame(spec_after(entries_or_empty(*db, key@), start)),
                ]);
            }
            items.push(f);
        },
    }
    let ghost iv = items@;
    let outer = RespFrame::Array(items);
    proof {
        assert(outer->Array_0@ == iv);
        crate::resp::lemma_views_of(iv);
        assert(crate::resp::views_of(iv) =~= seq![
            (FrameView::Array(
                seq![
                    FrameView::Bulk(bytes_of_chars(args_of(*m)[2])),
                    ranges_frame(
                        spec_after(
                            entries_or_empty(*db, args_of(*m)[2]),
                            xrange_start_of(args_of(*m)[3])->0,
                        ),
                    ),
                ],
            )),
        ]);
    }
    let mut out: Vec<Vec<u8>> = Vec::new();
    out.push(crate::resp::encode(&outer));
    Ok(CommandHandlerResponse::Basic(out))
}

/// What a well-formed `XREAD` replied.
pub open spec fn xread_ok(db: StoreEngine, a: Seq<Seq<char>>, resp: CommandHandlerResponse) -> bool {
    let blocking = a[1] == "block"@;
    let streams_mode = a[1] == "streams"@;
    if blocking || streams_mode {
        let start: int = if blocking {
            4
        } else {
            2
        };
        let ks = xread_keys(a, start);
        let ids = xread_ids(a, start);
        ks.len() == ids.len() && (if blocking {
            resp matches CommandHandlerResponse::StreamBlock { ms, key_vec, stream_id_vec }
                && crate::command::is_u64_digits(bytes_of_chars(a[2])) && ms
                == crate::resp::dec_val(bytes_of_chars(a[2])) && key_vec@.map_values(
                |s: String| s@,
            ) == ks && stream_id_vec@ == ids
        } else {
            basic1(resp, spec_encode(FrameView::Array(xread_elems(db, ks, ids, 0))))
        })
    } else {
        match xrange_start_of(a[3]) {
            Some(s) => basic1(
                resp,
                spec_encode(
                    FrameView::Array(
                        seq![
                            (FrameView::Array(
                                seq![
                                    FrameView::Bulk(bytes_of_chars(a[2])),
                                    ranges_frame(spec_after(entries_or_empty(db, a[2]), s)),
                                ],
                            )),
                        ],
                    ),
                ),
            ),
            None => false,
        }
    }
}

/// Whether argument `i` is exactly `w`, case included.
fn arg_is_exact(m: &RespMessage, i: usize, w: &str) -> (r: bool)
    requires
        i < m.vec_data@.len(),
    ensures
        r == (args_of(*m)[i as int] == w@),
{
    let ws = w.to_owned();
    m.vec_data[i].str_data == ws
}

} // verus!

// ---------------------------------------------------------------------------
// The dispatcher
// ---------------------------------------------------------------------------

verus! {

/// An `Ok` response writing exactly these bytes.
pub open spec fn ok_basic1(r: Result<CommandHandlerResponse, HandlerError>, bytes: Seq<u8>) -> bool {
    match r {
        Ok(resp) => basic1(resp, bytes),
        Err(_) => false,
    }
}

/// The `ECHO` reply: each argument from the second on, as one bulk
/// string after another.
pub open spec fn echo_bytes(a: Seq<Seq<char>>, i: int) -> Seq<u8>
    decreases a.len() - i,
{
    if i < 1 || i >= a.len() {
        Seq::empty()
    } else {
        bulk_bytes(a[i]) + echo_bytes(a, i + 1)
    }
}

/// What the dispatcher did for one message, by the message's kind and
/// its first word.
pub open spec fn command_post(
    db0: StoreEngine,
    db1: StoreEngine,
    m: RespMessage,
    now: u64,
    r: Result<CommandHandlerResponse, HandlerError>,
) -> bool {
    match m.resp_type {
        RespType::SimpleString => db1 == db0 && ok_basic1(
            r,
            bytes_of_chars(crate::command::RESP_OK@),
        ),
        RespType::Error => db1 == db0 && ok_basic1(r, bytes_of_chars(crate::command::RESP_ERR@)),
        RespType::Integer => db1 == db0 && ok_basic1(
            r,
            seq![58u8] + crate::resp::spec_dec_int(m.int_data as int) + crate::resp::spec_crlf(),
        ),
        RespType::BulkString => db1 == db0 && (if crate::command::word_is(
            bytes_of_chars(m.str_data@),
            "ping"@,
        ) {
            ok_basic1(r, bytes_of_chars(crate::command::RESP_PONG@))
        } else {
            r == Err::<CommandHandlerResponse, HandlerError>(HandlerError::UnknownCommand)
        }),
        RespType::Array => if m.vec_data@.len() == 0 || !(m.vec_data@[0].resp_type
            is BulkString) {
            db1 == db0 && ok_basic1(r, bytes_of_chars(crate::command::RESP_EMPTY@))
        } else {
            command_post_array(db0, db1, m, now, r)
        },
        RespType::Unknown => db1 == db0 && r == Err::<CommandHandlerResponse, HandlerError>(
            HandlerError::UnknownCommand,
        ),
    }
}

/// The array dispatch table: which command's postcondition governs.
pub open spec fn command_post_array(
    db0: StoreEngine,
    db1: StoreEngine,
    m: RespMessage,
    now: u64,
    r: Result<CommandHandlerResponse, HandlerError>,
) -> bool {
    let a = args_of(m);
    let w = bytes_of_chars(a[0]);
    if crate::command::word_is(w, "get"@) {
        if a.len() >= 2 {
            db1 == db0 && get_post(db0, m, r)
        } else {
            db1 == db0 && r == Err::<CommandHandlerResponse, HandlerError>(
                HandlerError::CommandTooShort,
            )
        }
    } else if crate::command::word_is(w, "set"@) {
        set_post(db0, db1, m, now, r)
    } else if crate::command::word_is(w, "ping"@) {
        db1 == db0 && ok_basic1(r, bytes_of_chars(crate::command::RESP_PONG@))
    } else if crate::command::word_is(w, "echo"@) {
        db1 == db0 && ok_basic1(r, echo_bytes(a, 1))
    } else if crate::command::word_is(w, "wait"@) {
        db1 == db0 && wait_post(db0, m, r)
    } else if crate::command::word_is(w, "info"@) {
        db1 == db0 && info_post(db0, m, r)
    } else if crate::command::word_is(w, "replconf"@) {
        replconf_post(db0, db1, m, r) && db1.dict_view() == db0.dict_view() && db1.expiry_view()
            == db0.expiry_view() && db1.streams_view() == db0.streams_view()
    } else if crate::command::word_is(w, "psync"@) {
        psync_reply(db0, m, r) && db1.slaves().dom() == db0.slaves().dom().insert(m.remote_addr@)
            && db1.slaves()[m.remote_addr@].handshake_state is Psync && db1.dict_view()
            == db0.dict_view() && db1.expiry_view() == db0.expiry_view() && db1.streams_view()
            == db0.streams_view()
    } else if crate::command::word_is(w, "config"@) {
        db1 == db0 && config_post(db0, m, r)
    } else if crate::command::word_is(w, "keys"@) {
        db1 == db0 && keys_post(db0, m, r)
    } else if crate::command::word_is(w, "type"@) {
        db1 == db0 && type_post(db0, m, r)
    } else if crate::command::word_is(w, "xadd"@) {
        xadd_post(db0, db1, m, now, r) && db1.dict_view() == db0.dict_view() && db1.expiry_view()
            == db0.expiry_view() && db1.master_info == db0.master_info
    } else if crate::command::word_is(w, "xrange"@) {
        db1 == db0 && xrange_post(db0, m, r)
    } else if crate::command::word_is(w, "xread"@) {
        db1 == db0 && xread_post(db0, m, r)
    } else {
        db1 == db0 && ok_basic1(r, bytes_of_chars(crate::command::RESP_EMPTY@))
    }
}

/// One decoded message in, one typed response out: the table above,
/// each command pinned by its own postcondition.
pub fn command_handler(db: &mut StoreEngine, cmd: &RespMessage, now_ms: u64) -> (r: Result<
    CommandHandlerResponse,
    HandlerError,
>)
    requires
        old(db).inv(),
        old(db).master_info.slave_list@.len() <= u32::MAX,
        cmd.resp_type is Array && args_of(*cmd).len() >= 3 ==> set_wire_len(
            args_of(*cmd)[1],
            args_of(*cmd)[2],
        ) <= usize::MAX,
        cmd.resp_type is Array && args_of(*cmd).len() == 5 ==> (forall|t: u64|
            setpx_wire_len(args_of(*cmd)[1], args_of(*cmd)[2], t) <= usize::MAX),
    ensures
        final(db).inv(),
        command_post(*old(db), *final(db), *cmd, now_ms, r),
{
    match cmd.resp_type {
        RespType::SimpleString => {
            let mut out: Vec<Vec<u8>> = Vec::new();
            out.push(lit_bytes(crate::command::RESP_OK));
            Ok(CommandHandlerResponse::Basic(out))
        },
        RespType::Error => {
            let mut out: Vec<Vec<u8>> = Vec::new();
            out.push(lit_bytes(crate::command::RESP_ERR));
            Ok(CommandHandlerResponse::Basic(out))
        },
        RespType::Integer => {
            let mut reply: Vec<u8> = Vec::new();
            reply.push(58u8);
            crate::resp::push_dec_i64(&mut reply, cmd.int_data);
            crate::resp::push_crlf(&mut reply);
            let mut out: Vec<Vec<u8>> = Vec::new();
            out.push(reply);
            Ok(CommandHandlerResponse::Basic(out))
        },
        RespType::BulkString => {
            let b = crate::text::string_to_bytes(cmd.str_data.as_str());
            if crate::text::eq_ignore_case(&b, "ping") {
                let mut out: Vec<Vec<u8>> = Vec::new();
                out.push(lit_bytes(crate::command::RESP_PONG));
                Ok(CommandHandlerResponse::Basic(out))
            } else {
                Err(HandlerError::UnknownCommand)
            }
        },
        RespType::Array => {
            let empty_or_odd = if cmd.vec_data.len() == 0 {
                true
            } else {
                !matches!(cmd.vec_data[0].resp_type, RespType::BulkString)
            };
            if empty_or_odd {
                let mut out: Vec<Vec<u8>> = Vec::new();
                out.push(lit_bytes(crate::command::RESP_EMPTY));
                return Ok(CommandHandlerResponse::Basic(out));
            }
            if arg_word_is(cmd, 0, "get") {
                if cmd.vec_data.len() >= 2 {
                    handle_get(db, cmd)
                } else {
                    Err(HandlerError::CommandTooShort)
                }
            } else if arg_word_is(cmd, 0, "set") {
                handle_set(db, cmd, now_ms)
            } else if arg_word_is(cmd, 0, "ping") {
                let mut out: Vec<Vec<u8>> = Vec::new();
                out.push(lit_bytes(crate::command::RESP_PONG));
                Ok(CommandHandlerResponse::Basic(out))
            } else if arg_word_is(cmd, 0, "echo") {
                let ghost a = args_of(*cmd);
                let n = cmd.vec_data.len();
                let mut reply: Vec<u8> = Vec::new();
                let mut i: usize = 1;
                while i < n
                    invariant
                        1 <= i <= n,
                        n == cmd.vec_data@.len(),
                        a == args_of(*cmd),
                        reply@ + echo_bytes(a, i as int) == echo_bytes(a, 1),
                    decreases n - i,
                {
                    let piece = bulk_reply(&cmd.vec_data[i].str_data);
                    let ghost snap = reply@;
                    crate::resp::extend_bytes(&mut reply, &piece);
                    proof {
                        assert(snap + bulk_bytes(a[i as int]) + echo_bytes(a, i + 1) =~= snap + (
                        bulk_bytes(a[i as int]) + echo_bytes(a, i + 1)));
                    }
                    i = i + 1;
                }
                proof {
                    assert(echo_bytes(a, n as int) =~= Seq::<u8>::empty());
                    assert(reply@ + Seq::<u8>::empty() =~= reply@);
                }
                let mut out: Vec<Vec<u8>> = Vec::new();
                out.push(reply);
                Ok(CommandHandlerResponse::Basic(out))
            } else if arg_word_is(cmd, 0, "wait") {
                handle_wait(db, cmd)
            } else if arg_word_is(cmd, 0, "info") {
                handle_info(db, cmd)
            } else if arg_word_is(cmd, 0, "replconf") {
                handle_replica(db, cmd)
            } else if arg_word_is(cmd, 0, "psync") {
                handle_psync(db, cmd)
            } else if arg_word_is(cmd, 0, "config") {
                handle_config(db, cmd)
            } else if arg_word_is(cmd, 0, "keys") {
                handle_keys(db, cmd)
            } else if arg_word_is(cmd, 0, "type") {
                handle_type(db, cmd)
            } else if arg_word_is(cmd, 0, "xadd") {
                handle_xadd(db, cmd, now_ms)
            } else if arg_word_is(cmd, 0, "xrange") {
                handle_xrange(db, cmd)
            } else if arg_word_is(cmd, 0, "xread") {
                handle_xread(db, cmd)
            } else {
                let mut out: Vec<Vec<u8>> = Vec::new();
                out.push(lit_bytes(crate::command::RESP_EMPTY));
                Ok(CommandHandlerResponse::Basic(out))
            }
        },
        RespType::Unknown => Err(HandlerError::UnknownCommand),
    }
}

} // verus!
