//! The replica side: the four-step attachment to a master, and the
//! application of the replication stream.
//!
//! The connection work lives outside; this module decides everything:
//! the exact bytes each handshake step sends, how its reply is judged,
//! what each replicated command does to the local store, and how the
//! consumed-byte counter moves.

use vstd::prelude::*;
use crate::command::{spec_cmd_offset, RespCommandType};
use crate::replication::HandshakeState;
use crate::resp::{spec_encode, FrameView};
use crate::store::StoreEngine;
use crate::text::bytes_of_chars;

verus! {

/// Whether `needle` occurs in `haystack` as a contiguous run.
pub open spec fn spec_contains(haystack: Seq<u8>, needle: Seq<u8>) -> bool {
    exists|i: int|
        0 <= i && i + needle.len() <= haystack.len() && #[trigger] haystack.subrange(
            i,
            i + needle.len(),
        ) == needle
}

/// Searches for `needle` in `haystack`.
pub fn contains_bytes(haystack: &Vec<u8>, needle: &Vec<u8>) -> (r: bool)
    ensures
        r == spec_contains(haystack@, needle@),
{
    let n = needle.len();
    let h = haystack.len();
    if n > h {
        proof {
            assert(!spec_contains(haystack@, needle@));
        }
        return false;
    }
    let mut i: usize = 0;
    while i <= h - n
        invariant
            n <= h,
            h == haystack@.len(),
            n == needle@.len(),
            i <= h - n + 1,
            forall|j: int|
                0 <= j < i ==> #[trigger] haystack@.subrange(j, j + needle@.len()) != needle@,
        decreases h - n + 1 - i,
    {
        let mut k: usize = 0;
        let mut matches_here = true;
        while k < n
            invariant
                i + n <= h,
                h == haystack@.len(),
                n == needle@.len(),
                k <= n,
                matches_here ==> (forall|j: int|
                    0 <= j < k ==> haystack@[i + j] == #[trigger] needle@[j]),
                !matches_here ==> haystack@.subrange(i as int, i + needle@.len()) != needle@,
            decreases n - k,
        {
            if haystack[i + k] != needle[k] {
                proof {
                    assert(haystack@.subrange(i as int, i + needle@.len())[k as int]
                        == haystack@[i + k]);
                }
                matches_here = false;
            }
            k = k + 1;
        }
        if matches_here {
            proof {
                assert(haystack@.subrange(i as int, i + needle@.len()) =~= needle@);
            }
            return true;
        }
        proof {
            if needle@.len() == 0 {
                assert(haystack@.subrange(i as int, i as int) =~= needle@);
                assert(false);
            }
        }
        i = i + 1;
    }
    proof {
        assert forall|j: int| 0 <= j && j + needle@.len() <= haystack@.len() implies #[trigger]
            haystack@.subrange(j, j + needle@.len()) != needle@ by {
            assert(j < i);
        }
    }
    false
}

/// The array-of-bulks frame of a word list.
pub open spec fn words_frame(ws: Seq<Seq<char>>) -> FrameView {
    FrameView::Array(ws.map_values(|w: Seq<char>| FrameView::Bulk(bytes_of_chars(w))))
}

/// The bytes one handshake step sends to the master: `PING`, then the
/// two `REPLCONF`s announcing the listening port and the capability,
/// then `PSYNC` with the followed replication id.
pub open spec fn handshake_message_spec(db: StoreEngine, step: HandshakeState) -> Seq<u8> {
    match step {
        HandshakeState::Ping => spec_encode(words_frame(seq!["PING"@])),
        HandshakeState::Replconf => spec_encode(
            words_frame(seq!["REPLCONF"@, "listening-port"@, db.port_view()]),
        ),
        HandshakeState::ReplconfCapa => spec_encode(
            words_frame(seq!["REPLCONF"@, "capa"@, "psync2"@]),
        ),
        HandshakeState::Psync => spec_encode(
            words_frame(seq!["PSYNC"@, db.slave_info.master_replid@, "-1"@]),
        ),
    }
}

/// The bytes to send for one handshake step.
pub fn handshake_message(db: &StoreEngine, step: HandshakeState) -> (r: Vec<u8>)
    ensures
        r@ == handshake_message_spec(*db, step),
{
    let mut words: Vec<String> = Vec::new();
    match step {
        HandshakeState::Ping => {
            words.push("PING".to_owned());
            let r = crate::command::array_to_resp_array_bytes(&words);
            proof {
                assert(crate::command::bulk_frames_of(words@) =~= seq!["PING"@].map_values(
                    |w: Seq<char>| FrameView::Bulk(bytes_of_chars(w)),
                ));
            }
            r
        },
        HandshakeState::Replconf => {
            words.push("REPLCONF".to_owned());
            words.push("listening-port".to_owned());
            words.push(db.node_info.port.clone());
            let r = crate::command::array_to_resp_array_bytes(&words);
            proof {
                assert(crate::command::bulk_frames_of(words@) =~= seq![
                    "REPLCONF"@,
                    "listening-port"@,
                    db.port_view(),
                ].map_values(|w: Seq<char>| FrameView::Bulk(bytes_of_chars(w))));
            }
            r
        },
        HandshakeState::ReplconfCapa => {
            words.push("REPLCONF".to_owned());
            words.push("capa".to_owned());
            words.push("psync2".to_owned());
            let r = crate::command::array_to_resp_array_bytes(&words);
            proof {
                assert(crate::command::bulk_frames_of(words@) =~= seq![
                    "REPLCONF"@,
                    "capa"@,
                    "psync2"@,
                ].map_values(|w: Seq<char>| FrameView::Bulk(bytes_of_chars(w))));
            }
            r
        },
        HandshakeState::Psync => {
            words.push("PSYNC".to_owned());
            words.push(db.slave_info.master_replid.clone());
            words.push("-1".to_owned());
            let r = crate::command::array_to_resp_array_bytes(&words);
            proof {
                assert(crate::command::bulk_frames_of(words@) =~= seq![
                    "PSYNC"@,
                    db.slave_info.master_replid@,
                    "-1"@,
                ].map_values(|w: Seq<char>| FrameView::Bulk(bytes_of_chars(w))));
            }
            r
        },
    }
}

/// The text a handshake step's reply must carry to count as accepted.
pub open spec fn handshake_expect(step: HandshakeState) -> Seq<char> {
    match step {
        HandshakeState::Ping => "+PONG"@,
        HandshakeState::Replconf => "+OK"@,
        HandshakeState::ReplconfCapa => "+OK"@,
        HandshakeState::Psync => "+FULLRESYNC"@,
    }
}

/// Judges one handshake reply: the expected text must occur in it.
pub fn handshake_reply_ok(step: HandshakeState, reply: &Vec<u8>) -> (r: bool)
    ensures
        r == spec_contains(reply@, bytes_of_chars(handshake_expect(step))),
{
    let expected: &str = match step {
        HandshakeState::Ping => "+PONG",
        HandshakeState::Replconf => "+OK",
        HandshakeState::ReplconfCapa => "+OK",
        HandshakeState::Psync => "+FULLRESYNC",
    };
    let needle = crate::text::string_to_bytes(expected);
    contains_bytes(reply, &needle)
}

/// The handshake step after this one, if any remains.
pub fn handshake_advance(step: HandshakeState) -> (r: Option<HandshakeState>)
    ensures
        match r {
            Some(next) => crate::replication::hs_rank(next) == crate::replication::hs_rank(step)
                + 1,
            None => step is Psync,
        },
{
    match step {
        HandshakeState::Ping => Some(HandshakeState::Replconf),
        HandshakeState::Replconf => Some(HandshakeState::ReplconfCapa),
        HandshakeState::ReplconfCapa => Some(HandshakeState::Psync),
        HandshakeState::Psync => None,
    }
}

/// Applies one replicated command to the local store and moves the
/// consumed-byte counter by the command's wire length, stopping at the
/// top of the counter.  A `REPLCONF GETACK` yields the ACK to write
/// back, carrying the counter as it stood before the probe.
pub fn apply_replicated(db: &mut StoreEngine, cmd: RespCommandType, now_ms: u64) -> (reply: Option<
    Vec<u8>,
>)
    requires
        old(db).inv(),
        spec_cmd_offset(cmd) <= usize::MAX,
    ensures
        final(db).inv(),
        final(db).streams_view() == old(db).streams_view(),
        final(db).master_info == old(db).master_info,
        final(db).replica_info == old(db).replica_info,
        final(db).slave_info.slave_repl_offset == crate::store::spec_sat_add(
            old(db).slave_info.slave_repl_offset,
            spec_cmd_offset(cmd) as u64,
        ),
        (match cmd {
            RespCommandType::SetKv(k, v) => final(db).kv_text() == old(db).kv_text().insert(
                k@,
                v@,
            ) && final(db).expiry_view() == old(db).expiry_view() && reply is None,
            RespCommandType::SetPx(k, v, t) => final(db).kv_text() == old(db).kv_text().insert(
                k@,
                v@,
            ) && final(db).expiry_view() == old(db).expiry_view().insert(
                k@,
                crate::store::spec_sat_add(now_ms, t),
            ) && reply is None,
            RespCommandType::Replconf(w) => final(db).kv_text() == old(db).kv_text() && final(db).expiry_view() == old(db).expiry_view() && (if w@ == "getack"@ {
                reply matches Some(bytes) && bytes@ == spec_encode(
                    words_frame(
                        seq![
                            "REPLCONF"@,
                            "ACK"@,
                            crate::text::chars_of_bytes(
                                crate::resp::spec_dec_nat(
                                    old(db).slave_info.slave_repl_offset as nat,
                                ),
                            ),
                        ],
                    ),
                )
            } else {
                reply is None
            }),
            _ => final(db).kv_text() == old(db).kv_text() && final(db).expiry_view() == old(db).expiry_view() && reply is None,
        }),
{
    let ghost before = old(db).slave_info.slave_repl_offset;
    let mut reply: Option<Vec<u8>> = None;
    let offset: usize;
    match cmd {
        RespCommandType::SetKv(k, v) => {
            let kc = k.clone();
            let vc = v.clone();
            db.set(k, v);
            proof {
                assert(db.kv_text() =~= old(db).kv_text().insert(kc@, vc@));
            }
            offset = crate::command::count_resp_command_type_offset(
                RespCommandType::SetKv(kc, vc),
            );
        },
        RespCommandType::SetPx(k, v, t) => {
            let kc = k.clone();
            let vc = v.clone();
            db.set_with_expire(k, v, t, now_ms);
            proof {
                assert(db.kv_text() =~= old(db).kv_text().insert(kc@, vc@));
            }
            offset = crate::command::count_resp_command_type_offset(
                RespCommandType::SetPx(kc, vc, t),
            );
        },
        RespCommandType::Replconf(w) => {
            let getack: String = "getack".to_owned();
            if w == getack {
                let current = db.slave_info.slave_repl_offset;
                let mut words: Vec<String> = Vec::new();
                words.push("REPLCONF".to_owned());
                words.push("ACK".to_owned());
                let mut digits: Vec<u8> = Vec::new();
                crate::resp::push_dec_u64(&mut digits, current);
                words.push(crate::text::bytes_to_string(&digits));
                let bytes = crate::command::array_to_resp_array_bytes(&words);
                proof {
                    assert(crate::command::bulk_frames_of(words@) =~= seq![
                        "REPLCONF"@,
                        "ACK"@,
                        crate::text::chars_of_bytes(crate::resp::spec_dec_nat(before as nat)),
                    ].map_values(|x: Seq<char>| FrameView::Bulk(bytes_of_chars(x))));
                    crate::text::lemma_bytes_chars_bytes(
                        crate::resp::spec_dec_nat(before as nat),
                    );
                }
                reply = Some(bytes);
                offset = crate::command::count_resp_command_type_offset(
                    RespCommandType::Replconf(w),
                );
            } else {
                offset = crate::command::count_resp_command_type_offset(
                    RespCommandType::Replconf(w),
                );
            }
        },
        RespCommandType::Get(k) => {
            offset = crate::command::count_resp_command_type_offset(RespCommandType::Get(k));
        },
        RespCommandType::Ping => {
            offset = crate::command::count_resp_command_type_offset(RespCommandType::Ping);
        },
        RespCommandType::Error => {
            offset = 0;
        },
    }
    let stepped = db.slave_info.slave_repl_offset.saturating_add(offset as u64);
    db.slave_info.slave_repl_offset = stepped;
    reply
}

} // verus!
