//! The binary wire protocol: frame layouts, encoders, and a decoder for the
//! setup frame.
//!
//! All integers are big-endian. Outbound frames are binary; the only
//! inbound frames are text (chat content) and close.

use vstd::prelude::*;
use vstd::string::StrSliceExecFns;
use vstd::utf8::encode_utf8;

use crate::message::Message;
use crate::userid::{format_chars, UserId};
use crate::userinfo::UserInfo;

verus! {

/// The sender id reserved for control frames.
pub const USERID_SPECIAL: u16 = 0;

/// Frame tag for the setup frame.
pub const SUBID_SETUP: u8 = 0;

/// Frame tag for the user-join frame.
pub const SUBID_USERJOIN: u8 = 1;

/// How receiving packets can fail.
#[derive(Debug, Clone, Copy, PartialEq, Eq, Structural)]
pub enum PacketsError {
    Invalid,
    Disconected,
}

/// Close codes the server uses; the transport maps them onto its own.
#[derive(Debug, Clone, Copy, PartialEq, Eq, Structural)]
pub enum CloseCode {
    Error,
    Again,
    Unsupported,
}

/// A close frame: a code and a human-readable reason.
#[derive(Debug, Clone, Copy)]
pub struct CloseFrame {
    pub code: CloseCode,
    pub reason: &'static str,
}

/// Why the server kicks a session.
#[derive(Debug, Clone, Copy, PartialEq, Eq, Structural)]
pub enum KickReason {
    RateLimit,
    ChatFull,
    Spam,
}

impl KickReason {
    /// The close frame for this kick.
    pub fn into_close_frame(self) -> (r: CloseFrame)
        ensures
            self == KickReason::RateLimit ==> r.code == CloseCode::Error && r.reason@
                == "Too many messages."@,
            self == KickReason::Spam ==> r.code == CloseCode::Error && r.reason@
                == "Please do not spam."@,
            self == KickReason::ChatFull ==> r.code == CloseCode::Again && r.reason@
                == "Chat full."@,
    {
        match self {
            KickReason::RateLimit => CloseFrame {
                code: CloseCode::Error,
                reason: "Too many messages.",
            },
            KickReason::Spam => CloseFrame { code: CloseCode::Error, reason: "Please do not spam." },
            KickReason::ChatFull => CloseFrame { code: CloseCode::Again, reason: "Chat full." },
        }
    }
}

/// A `u16` as two big-endian bytes.
pub open spec fn u16_be(x: u16) -> Seq<u8> {
    seq![(x / 256) as u8, (x % 256) as u8]
}

/// A `u32` as four big-endian bytes.
pub open spec fn u32_be(x: u32) -> Seq<u8> {
    seq![
        (x / 0x1000000) as u8,
        ((x / 0x10000) % 256) as u8,
        ((x / 256) % 256) as u8,
        (x % 256) as u8,
    ]
}

/// One roster entry inside the setup frame.
pub open spec fn client_entry(c: UserInfo) -> Seq<u8> {
    u16_be(c.id) + seq![encode_utf8(c.username@).len() as u8] + encode_utf8(c.username@)
}

/// The roster entries inside the setup frame, in order.
pub open spec fn clients_bytes(clients: Seq<UserInfo>) -> Seq<u8>
    decreases clients.len(),
{
    if clients.len() == 0 {
        Seq::empty()
    } else {
        clients_bytes(clients.drop_last()) + client_entry(clients.last())
    }
}

/// One history entry inside the setup frame.
pub open spec fn message_entry(m: Message) -> Seq<u8> {
    u32_be(m.timestamp) + seq![encode_utf8(m.sender@).len() as u8] + encode_utf8(m.sender@)
        + seq![encode_utf8(m.content@).len() as u8] + encode_utf8(m.content@)
}

/// The history entries inside the setup frame, oldest first.
pub open spec fn history_bytes(history: Seq<Message>) -> Seq<u8>
    decreases history.len(),
{
    if history.len() == 0 {
        Seq::empty()
    } else {
        history_bytes(history.drop_last()) + message_entry(history.last())
    }
}

/// The setup frame: control header, assigned session id, identity token,
/// roster, then history until the end of the frame.
pub open spec fn setup_frame(
    key: UserId,
    id: u16,
    clients: Seq<UserInfo>,
    history: Seq<Message>,
) -> Seq<u8> {
    u16_be(USERID_SPECIAL) + seq![SUBID_SETUP] + u16_be(id) + encode_utf8(format_chars(key))
        + u16_be(clients.len() as u16) + clients_bytes(clients) + history_bytes(history)
}

/// The user-join frame.
pub open spec fn join_frame(c: UserInfo) -> Seq<u8> {
    u16_be(USERID_SPECIAL) + seq![SUBID_USERJOIN] + u16_be(c.id) + encode_utf8(c.username@)
}

/// The chat-message frame.
pub open spec fn message_frame(m: Message) -> Seq<u8> {
    u16_be(m.sender_id) + u32_be(m.timestamp) + encode_utf8(m.content@)
}

/// Appends a `u16` in big-endian order.
fn push_u16_be(out: &mut Vec<u8>, x: u16)
    ensures
        final(out)@ =~= old(out)@ + u16_be(x),
{
    out.push((x / 256) as u8);
    out.push((x % 256) as u8);
}

/// Appends a `u32` in big-endian order.
fn push_u32_be(out: &mut Vec<u8>, x: u32)
    ensures
        final(out)@ =~= old(out)@ + u32_be(x),
{
    out.push((x / 0x1000000) as u8);
    out.push(((x / 0x10000) % 256) as u8);
    out.push(((x / 256) % 256) as u8);
    out.push((x % 256) as u8);
}

/// Appends a string's UTF-8 bytes.
fn push_str_bytes(out: &mut Vec<u8>, s: &str)
    ensures
        final(out)@ =~= old(out)@ + encode_utf8(s@),
{
    let mut b = s.as_bytes_vec();
    out.append(&mut b);
}

/// Builds the setup frame sent once after accepting a session. Every name
/// and text must fit its one-byte length field, and the roster its two-byte
/// count.
pub fn new_setup(key: UserId, id: u16, clients: Vec<UserInfo>, history: Vec<Message>) -> (r: Vec<
    u8,
>)
    requires
        clients@.len() <= u16::MAX,
        forall|i: int|
            0 <= i < clients@.len() ==> encode_utf8((#[trigger] clients@[i]).username@).len() < 256,
        forall|i: int|
            0 <= i < history@.len() ==> encode_utf8((#[trigger] history@[i]).sender@).len() < 256
                && encode_utf8(history@[i].content@).len() < 256,
    ensures
        r@ =~= setup_frame(key, id, clients@, history@),
{
    let mut data: Vec<u8> = Vec::new();
    push_u16_be(&mut data, USERID_SPECIAL);
    data.push(SUBID_SETUP);
    push_u16_be(&mut data, id);
    let key_str = key.format();
    push_str_bytes(&mut data, key_str.as_str());
    push_u16_be(&mut data, clients.len() as u16);

    let ghost prefix = data@;
    let cn = clients.len();
    let mut i: usize = 0;
    proof {
        assert(clients_bytes(clients@.take(0)) =~= Seq::<u8>::empty());
        assert(data@ =~= prefix + clients_bytes(clients@.take(0)));
    }
    while i < cn
        invariant
            cn == clients@.len(),
            i <= cn,
            data@ =~= prefix + clients_bytes(clients@.take(i as int)),
            forall|j: int|
                0 <= j < clients@.len() ==> encode_utf8(
                    (#[trigger] clients@[j]).username@,
                ).len() < 256,
        decreases cn - i,
    {
        let c = &clients[i];
        push_u16_be(&mut data, c.id);
        let name_bytes_len = c.username.as_str().as_bytes().len();
        data.push(name_bytes_len as u8);
        push_str_bytes(&mut data, c.username.as_str());
        proof {
            assert(clients@.take(i + 1).drop_last() =~= clients@.take(i as int));
            assert(clients@.take(i + 1).last() == clients@[i as int]);
            assert(data@ =~= prefix + clients_bytes(clients@.take(i + 1)));
        }
        i = i + 1;
    }
    proof {
        assert(clients@.take(cn as int) =~= clients@);
    }

    let ghost prefix2 = data@;
    let hn = history.len();
    let mut k: usize = 0;
    proof {
        assert(history_bytes(history@.take(0)) =~= Seq::<u8>::empty());
        assert(data@ =~= prefix2 + history_bytes(history@.take(0)));
    }
    while k < hn
        invariant
            hn == history@.len(),
            k <= hn,
            data@ =~= prefix2 + history_bytes(history@.take(k as int)),
            forall|j: int|
                0 <= j < history@.len() ==> encode_utf8((#[trigger] history@[j]).sender@).len()
                    < 256 && encode_utf8(history@[j].content@).len() < 256,
        decreases hn - k,
    {
        let m = &history[k];
        push_u32_be(&mut data, m.timestamp);
        let sender_len = m.sender.as_str().as_bytes().len();
        data.push(sender_len as u8);
        push_str_bytes(&mut data, m.sender.as_str());
        let content_len = m.content.as_str().as_bytes().len();
        data.push(content_len as u8);
        push_str_bytes(&mut data, m.content.as_str());
        proof {
            assert(history@.take(k + 1).drop_last() =~= history@.take(k as int));
            assert(history@.take(k + 1).last() == history@[k as int]);
            assert(data@ =~= prefix2 + history_bytes(history@.take(k + 1)));
        }
        k = k + 1;
    }
    proof {
        assert(history@.take(hn as int) =~= history@);
        assert(data@ =~= setup_frame(key, id, clients@, history@));
    }
    data
}

/// Builds the frame announcing a newly joined client.
pub fn new_client_joined(client: &UserInfo) -> (r: Vec<u8>)
    ensures
        r@ =~= join_frame(*client),
{
    let mut data: Vec<u8> = Vec::new();
    push_u16_be(&mut data, USERID_SPECIAL);
    data.push(SUBID_USERJOIN);
    push_u16_be(&mut data, client.id);
    push_str_bytes(&mut data, client.username.as_str());
    data
}

/// Builds the frame carrying one chat message.
pub fn new_message(mesg: &Message) -> (r: Vec<u8>)
    ensures
        r@ =~= message_frame(*mesg),
{
    let mut data: Vec<u8> = Vec::new();
    push_u16_be(&mut data, mesg.sender_id);
    push_u32_be(&mut data, mesg.timestamp);
    push_str_bytes(&mut data, mesg.content.as_str());
    data
}

/// A byte that is an ASCII hex digit.
pub open spec fn is_hex_byte(b: u8) -> bool {
    (0x30 <= b && b <= 0x39) || (0x61 <= b && b <= 0x66) || (0x41 <= b && b <= 0x46)
}

/// Numeric value of an ASCII hex digit byte.
pub open spec fn hex_byte_val(b: u8) -> int {
    if 0x30 <= b && b <= 0x39 {
        b - 0x30
    } else if 0x61 <= b && b <= 0x66 {
        10 + b - 0x61
    } else {
        10 + b - 0x41
    }
}

pub open spec fn all_hex_bytes(s: Seq<u8>) -> bool {
    forall|i: int| 0 <= i < s.len() ==> is_hex_byte(#[trigger] s[i])
}

/// The value of a sequence of hex digit bytes, most significant first.
pub open spec fn bytes_hex_value(s: Seq<u8>) -> int
    decreases s.len(),
{
    if s.len() == 0 {
        0
    } else {
        bytes_hex_value(s.drop_last()) * 16 + hex_byte_val(s.last())
    }
}

/// What the 33 identity-token bytes of a setup frame decode to.
pub open spec fn parse_key_bytes(kb: Seq<u8>) -> Option<UserId> {
    if kb.len() == 33 && (kb[0] == 0x61 || kb[0] == 0x6C) && all_hex_bytes(kb.skip(1)) {
        Some(UserId::spec_of(bytes_hex_value(kb.skip(1)) as u128, kb[0] == 0x61))
    } else {
        None
    }
}

/// Parses `count` roster entries off the front of `b`, returning them and
/// the remaining bytes.
pub open spec fn parse_clients(b: Seq<u8>, count: int) -> Option<(Seq<(u16, Seq<u8>)>, Seq<u8>)>
    decreases count,
{
    if count <= 0 {
        Some((Seq::empty(), b))
    } else if b.len() < 3 {
        None
    } else {
        let id = (b[0] as int * 256 + b[1] as int) as u16;
        let nl = b[2] as int;
        if b.len() < 3 + nl {
            None
        } else {
            let name = b.subrange(3, 3 + nl);
            match parse_clients(b.skip(3 + nl), count - 1) {
                Some(p) => Some((seq![(id, name)] + p.0, p.1)),
                None => None,
            }
        }
    }
}

/// Parses history entries until the end of the frame.
pub open spec fn parse_history(b: Seq<u8>) -> Option<Seq<(u32, Seq<u8>, Seq<u8>)>>
    decreases b.len(),
{
    if b.len() == 0 {
        Some(Seq::empty())
    } else if b.len() < 6 {
        None
    } else {
        let ts = (b[0] as int * 0x1000000 + b[1] as int * 0x10000 + b[2] as int * 256
            + b[3] as int) as u32;
        let sl = b[4] as int;
        if b.len() < 6 + sl {
            None
        } else {
            let sender = b.subrange(5, 5 + sl);
            let cl = b[5 + sl] as int;
            if b.len() < 6 + sl + cl {
                None
            } else {
                let content = b.subrange(6 + sl, 6 + sl + cl);
                match parse_history(b.skip(6 + sl + cl)) {
                    Some(rest) => Some(seq![(ts, sender, content)] + rest),
                    None => None,
                }
            }
        }
    }
}

/// What a whole setup frame decodes to.
pub open spec fn decode_setup_spec(b: Seq<u8>) -> Option<
    (UserId, u16, Seq<(u16, Seq<u8>)>, Seq<(u32, Seq<u8>, Seq<u8>)>),
> {
    if b.len() < 40 {
        None
    } else if !(b[0] == 0 && b[1] == 0 && b[2] == SUBID_SETUP) {
        None
    } else {
        let sid = (b[3] as int * 256 + b[4] as int) as u16;
        match parse_key_bytes(b.subrange(5, 38)) {
            None => None,
            Some(uid) => {
                let count = b[38] as int * 256 + b[39] as int;
                match parse_clients(b.skip(40), count) {
                    None => None,
                    Some(p) => match parse_history(p.1) {
                        None => None,
                        Some(h) => Some((uid, sid, p.0, h)),
                    },
                }
            },
        }
    }
}

/// The views of decoded roster entries.
pub open spec fn client_views(s: Seq<(u16, Vec<u8>)>) -> Seq<(u16, Seq<u8>)> {
    s.map_values(|e: (u16, Vec<u8>)| (e.0, e.1@))
}

/// The views of decoded history entries.
pub open spec fn history_views(s: Seq<(u32, Vec<u8>, Vec<u8>)>) -> Seq<(u32, Seq<u8>, Seq<u8>)> {
    s.map_values(|e: (u32, Vec<u8>, Vec<u8>)| (e.0, e.1@, e.2@))
}

/// Copies a range of a byte vector.
fn copy_range(b: &Vec<u8>, from: usize, to: usize) -> (r: Vec<u8>)
    requires
        from <= to <= b@.len(),
    ensures
        r@ =~= b@.subrange(from as int, to as int),
    {
    let mut r: Vec<u8> = Vec::new();
    let mut i: usize = from;
    while i < to
        invariant
            from <= i <= to <= b@.len(),
            r@ =~= b@.subrange(from as int, i as int),
        decreases to - i,
    {
        r.push(b[i]);
        i = i + 1;
    }
    r
}

/// Decodes a setup frame back into the identity token, session id, roster
/// entries, and history entries it was built from.
#[verifier::loop_isolation(false)]
#[verifier::rlimit(60)]
pub fn decode_setup(bytes: &Vec<u8>) -> (r: Option<
    (UserId, u16, Vec<(u16, Vec<u8>)>, Vec<(u32, Vec<u8>, Vec<u8>)>),
>)
    ensures
        r is None ==> decode_setup_spec(bytes@) is None,
        r matches Some(t) ==> (decode_setup_spec(bytes@) matches Some(st) && st.0 == t.0 && st.1
            == t.1 && st.2 == client_views(t.2@) && st.3 == history_views(t.3@)),
{
    let b = bytes;
    let n = b.len();
    if n < 40 {
        return None;
    }
    if !(b[0] == 0 && b[1] == 0 && b[2] == SUBID_SETUP) {
        return None;
    }
    let sid: u16 = (b[3] as u16) * 256 + (b[4] as u16);

    // Identity token: tag byte then 32 hex digits.
    let ghost kb = b@.subrange(5, 38);
    let tag = b[5];
    let anon = if tag == 0x61 {
        true
    } else if tag == 0x6C {
        false
    } else {
        proof {
            assert(parse_key_bytes(kb) is None);
        }
        return None;
    };
    let mut acc: u128 = 0;
    let mut i: usize = 6;
    proof {
        crate::userid::lemma_pow16_properties();
        assert(kb.skip(1).take(0) =~= Seq::<u8>::empty());
    }
    while i < 38
        invariant
            b@.len() >= 40,
            kb =~= b@.subrange(5, 38),
            6 <= i <= 38,
            all_hex_bytes(kb.skip(1).take(i - 6)),
            acc == bytes_hex_value(kb.skip(1).take(i - 6)),
            acc < crate::userid::pow16((i - 6) as nat),
            crate::userid::pow16(32) == 0x100000000000000000000000000000000,
            forall|a: nat, c: nat|
                a <= c ==> #[trigger] crate::userid::pow16(a) <= #[trigger] crate::userid::pow16(
                    c,
                ),
            forall|m: nat| crate::userid::pow16(m) >= 1,
        decreases 38 - i,
    {
        let d = b[i];
        let v: u128 = if d >= 0x30 && d <= 0x39 {
            (d - 0x30) as u128
        } else if d >= 0x61 && d <= 0x66 {
            (10 + d - 0x61) as u128
        } else if d >= 0x41 && d <= 0x46 {
            (10 + d - 0x41) as u128
        } else {
            proof {
                assert(kb.skip(1)[i - 6] == b@[i as int]);
                assert(!is_hex_byte(kb.skip(1)[i - 6]));
                assert(parse_key_bytes(kb) is None);
            }
            return None;
        };
        proof {
            assert(kb.skip(1)[i - 6] == b@[i as int]);
            assert(is_hex_byte(kb.skip(1)[i - 6]) && v == hex_byte_val(kb.skip(1)[i - 6]));
            assert(acc <= crate::userid::pow16((i - 6) as nat) - 1);
            assert(16 * acc <= 16 * (crate::userid::pow16((i - 6) as nat) - 1))
                by (nonlinear_arith)
                requires
                    acc <= crate::userid::pow16((i - 6) as nat) - 1,
                    acc >= 0,
            ;
            assert(16 * crate::userid::pow16((i - 6) as nat) == crate::userid::pow16(
                (i - 5) as nat,
            ));
            assert(crate::userid::pow16((i - 5) as nat) <= crate::userid::pow16(32));
        }
        acc = acc * 16 + v;
        proof {
            assert(kb.skip(1).take(i - 5).drop_last() =~= kb.skip(1).take(i - 6));
            assert(kb.skip(1).take(i - 5).last() == kb.skip(1)[i - 6]);
        }
        i = i + 1;
    }
    proof {
        assert(kb.skip(1).take(32) =~= kb.skip(1));
        assert(kb.len() == 33 && kb[0] == b@[5]);
        assert(parse_key_bytes(kb) == Some(UserId::spec_of(acc, anon)));
    }
    let uid = crate::userid::UserId::from_parts(acc, anon);

    // Roster entries.
    let count: usize = (b[38] as usize) * 256 + (b[39] as usize);
    proof {
        assert(b@[38] as int * 256 + b@[39] as int == count);
        assert(b@[3] as int * 256 + b@[4] as int == sid);
    }
    let mut clients: Vec<(u16, Vec<u8>)> = Vec::new();
    let mut pos: usize = 40;
    let mut done: usize = 0;
    proof {
        assert(client_views(clients@) =~= Seq::<(u16, Seq<u8>)>::empty());
        assert(parse_clients(b@.skip(40), count as int) == (match parse_clients(
            b@.skip(pos as int),
            count - done,
        ) {
            Some(p) => Some((client_views(clients@) + p.0, p.1)),
            None => None::<(Seq<(u16, Seq<u8>)>, Seq<u8>)>,
        }));
    }
    while done < count
        invariant
            b@.len() == n,
            n >= 40,
            done <= count,
            40 <= pos <= n,
            parse_clients(b@.skip(40), count as int) == (match parse_clients(
                b@.skip(pos as int),
                count - done,
            ) {
                Some(p) => Some((client_views(clients@) + p.0, p.1)),
                None => None::<(Seq<(u16, Seq<u8>)>, Seq<u8>)>,
            }),
        decreases count - done,
    {
        let ghost cur = b@.skip(pos as int);
        if n - pos < 3 {
            proof {
                assert(cur.len() < 3);
                assert(parse_clients(cur, count - done) is None);
                assert(parse_clients(b@.skip(40), count as int) is None);
            }
            return None;
        }
        let id: u16 = (b[pos] as u16) * 256 + (b[pos + 1] as u16);
        let nl: usize = b[pos + 2] as usize;
        if n - pos - 3 < nl {
            proof {
                assert(cur.len() < 3 + nl);
                assert(parse_clients(cur, count - done) is None);
            }
            return None;
        }
        let name = copy_range(b, pos + 3, pos + 3 + nl);
        proof {
            assert(cur[0] == b@[pos as int]);
            assert(cur[1] == b@[pos as int + 1]);
            assert(cur[2] == b@[pos as int + 2]);
            assert(name@ =~= cur.subrange(3, 3 + nl as int));
            assert(cur.skip(3 + nl as int) =~= b@.skip(pos as int + 3 + nl as int));
        }
        clients.push((id, name));
        proof {
            assert(client_views(clients@).drop_last() =~= client_views(clients@.drop_last()));
        }
        let ghost prev_clients = clients@.drop_last();
        pos = pos + 3 + nl;
        done = done + 1;
        proof {
            let cur2 = b@.skip(pos as int);
            assert(parse_clients(cur, count - (done - 1)) == (match parse_clients(
                cur2,
                count - done,
            ) {
                Some(p) => Some(
                    (seq![(id, name@)] + p.0, p.1),
                ),
                None => None::<(Seq<(u16, Seq<u8>)>, Seq<u8>)>,
            }));
            assert(client_views(clients@) =~= client_views(prev_clients) + seq![(id, name@)]);
            match parse_clients(cur2, count - done) {
                Some(p) => {
                    assert(client_views(prev_clients) + (seq![(id, name@)] + p.0) =~= (
                    client_views(prev_clients) + seq![(id, name@)]) + p.0);
                },
                None => {},
            }
        }
    }
    proof {
        assert(parse_clients(b@.skip(pos as int), 0) == Some(
            (Seq::<(u16, Seq<u8>)>::empty(), b@.skip(pos as int)),
        ));
        assert(client_views(clients@) + Seq::<(u16, Seq<u8>)>::empty() =~= client_views(
            clients@,
        ));
    }
    let ghost rest0 = b@.skip(pos as int);

    // History entries until the end of the frame.
    let mut history: Vec<(u32, Vec<u8>, Vec<u8>)> = Vec::new();
    proof {
        assert(history_views(history@) =~= Seq::<(u32, Seq<u8>, Seq<u8>)>::empty());
        assert(parse_history(rest0) == (match parse_history(b@.skip(pos as int)) {
            Some(h) => Some(history_views(history@) + h),
            None => None::<Seq<(u32, Seq<u8>, Seq<u8>)>>,
        }));
    }
    while pos < n
        invariant
            b@.len() == n,
            pos <= n,
            parse_history(rest0) == (match parse_history(b@.skip(pos as int)) {
                Some(h) => Some(history_views(history@) + h),
                None => None::<Seq<(u32, Seq<u8>, Seq<u8>)>>,
            }),
        decreases n - pos,
    {
        let ghost cur = b@.skip(pos as int);
        if n - pos < 6 {
            proof {
                assert(cur.len() < 6 && cur.len() > 0);
                assert(parse_history(cur) is None);
            }
            return None;
        }
        let ts: u32 = (b[pos] as u32) * 0x1000000 + (b[pos + 1] as u32) * 0x10000 + (b[pos
            + 2] as u32) * 256 + (b[pos + 3] as u32);
        let sl: usize = b[pos + 4] as usize;
        if n - pos - 6 < sl {
            proof {
                assert(cur.len() < 6 + sl);
                assert(parse_history(cur) is None);
            }
            return None;
        }
        let sender = copy_range(b, pos + 5, pos + 5 + sl);
        let cl: usize = b[pos + 5 + sl] as usize;
        if n - pos - 6 - sl < cl {
            proof {
                assert(cur[4] == b@[pos as int + 4]);
                assert(cur[5 + sl as int] == b@[pos as int + 5 + sl as int]);
                assert(cur.len() < 6 + sl + cl);
                assert(parse_history(cur) is None);
            }
            return None;
        }
        let content = copy_range(b, pos + 6 + sl, pos + 6 + sl + cl);
        proof {
            assert(cur[0] == b@[pos as int]);
            assert(cur[1] == b@[pos as int + 1]);
            assert(cur[2] == b@[pos as int + 2]);
            assert(cur[3] == b@[pos as int + 3]);
            assert(cur[4] == b@[pos as int + 4]);
            assert(cur[5 + sl as int] == b@[pos as int + 5 + sl as int]);
            assert(sender@ =~= cur.subrange(5, 5 + sl as int));
            assert(content@ =~= cur.subrange(6 + sl as int, 6 + sl as int + cl as int));
            assert(cur.skip(6 + sl as int + cl as int) =~= b@.skip(
                pos as int + 6 + sl as int + cl as int,
            ));
        }
        history.push((ts, sender, content));
        proof {
            assert(history_views(history@).drop_last() =~= history_views(history@.drop_last()));
        }
        let ghost prev_history = history@.drop_last();
        pos = pos + 6 + sl + cl;
        proof {
            let cur2 = b@.skip(pos as int);
            assert(parse_history(cur) == (match parse_history(cur2) {
                Some(h) => Some(seq![(ts, sender@, content@)] + h),
                None => None::<Seq<(u32, Seq<u8>, Seq<u8>)>>,
            }));
            assert(history_views(history@) =~= history_views(prev_history) + seq![
                (ts, sender@, content@),
            ]);
            match parse_history(cur2) {
                Some(h) => {
                    assert(history_views(prev_history) + (seq![(ts, sender@, content@)] + h) =~= (
                    history_views(prev_history) + seq![(ts, sender@, content@)]) + h);
                },
                None => {},
            }
        }
    }
    proof {
        assert(b@.skip(n as int) =~= Seq::<u8>::empty());
        assert(parse_history(b@.skip(pos as int)) == Some(Seq::<(u32, Seq<u8>, Seq<u8>)>::empty()));
        assert(history_views(history@) + Seq::<(u32, Seq<u8>, Seq<u8>)>::empty() =~= history_views(
            history@,
        ));
        assert(b@[38] as int * 256 + b@[39] as int == count);
        assert(b@[3] as int * 256 + b@[4] as int == sid);
    }
    Some((uid, sid, clients, history))
}

/// Every character of an identity's wire form is ASCII.
proof fn lemma_format_ascii(key: UserId)
    ensures
        vstd::utf8::is_ascii_chars(format_chars(key)),
        format_chars(key).len() == 33,
{
    crate::userid::lemma_hex_rev_value(key.spec_uuid() as int, 32);
    let s = format_chars(key);
    assert forall|i: int| 0 <= i < s.len() implies '\0' <= #[trigger] s[i] <= '\u{7f}' by {
        if i == 0 {
        } else {
            assert(crate::userid::is_hex_digit(s[i])) by {
                assert(s[i] == crate::userid::hex32(key.spec_uuid() as int)[i - 1]);
            }
        }
    }
}

/// Hex digit characters and their single-byte encodings carry the same
/// value.
proof fn lemma_hex_chars_bytes(t: Seq<char>, s: Seq<u8>)
    requires
        crate::userid::all_hex(t),
        s.len() == t.len(),
        forall|i: int| 0 <= i < t.len() ==> #[trigger] s[i] == (#[trigger] t[i]) as u8,
    ensures
        all_hex_bytes(s),
        bytes_hex_value(s) == crate::userid::hex_value(t),
    decreases t.len(),
{
    if t.len() > 0 {
        assert forall|i: int| 0 <= i < t.drop_last().len() implies #[trigger] s.drop_last()[i] == (
        #[trigger] t.drop_last()[i]) as u8 by {
            assert(s.drop_last()[i] == s[i] && t.drop_last()[i] == t[i]);
        }
        lemma_hex_chars_bytes(t.drop_last(), s.drop_last());
        assert(crate::userid::is_hex_digit(t.last()));
        assert(s.last() == t.last() as u8);
        assert(is_hex_byte(s.last()) && hex_byte_val(s.last()) == crate::userid::hex_val(
            t.last(),
        ));
        assert(all_hex_bytes(s)) by {
            assert forall|i: int| 0 <= i < s.len() implies is_hex_byte(#[trigger] s[i]) by {
                if i < s.len() - 1 {
                    assert(s.drop_last()[i] == s[i]);
                }
            }
        }
    }
}

/// Decoding a setup frame built from an empty roster and empty history
/// yields back the identity, the session id, and the emptiness.
pub proof fn lemma_setup_roundtrip_empty(key: UserId, id: u16)
    ensures
        decode_setup_spec(setup_frame(key, id, Seq::<UserInfo>::empty(), Seq::<Message>::empty()))
            matches Some(t) && t.0 == key && t.1 == id && t.2.len() == 0 && t.3.len() == 0,
{
    let chars = format_chars(key);
    let kb0 = encode_utf8(chars);
    lemma_format_ascii(key);
    vstd::utf8::is_ascii_chars_encode_utf8(chars);
    assert(kb0.len() == 33);
    let b = setup_frame(key, id, Seq::<UserInfo>::empty(), Seq::<Message>::empty());
    assert(clients_bytes(Seq::<UserInfo>::empty()) =~= Seq::<u8>::empty());
    assert(history_bytes(Seq::<Message>::empty()) =~= Seq::<u8>::empty());
    assert(b =~= u16_be(0) + seq![0u8] + u16_be(id) + kb0 + u16_be(0));
    assert(b.len() == 40);
    assert(b[0] == 0 && b[1] == 0 && b[2] == 0);
    assert(b[3] == (id / 256) as u8 && b[4] == (id % 256) as u8);
    assert(b[3] as int * 256 + b[4] as int == id);
    let kb = b.subrange(5, 38);
    assert(kb =~= kb0);

    // The identity token parses back to `key`.
    crate::userid::lemma_hex_rev_value(key.spec_uuid() as int, 32);
    assert(kb[0] == chars[0] as u8);
    assert(chars[0] == (if key.spec_anon() { 'a' } else { 'l' }));
    assert((kb[0] == 0x61 || kb[0] == 0x6C) && (kb[0] == 0x61) == key.spec_anon());
    let digits = chars.skip(1);
    assert(digits =~= crate::userid::hex32(key.spec_uuid() as int));
    assert forall|i: int| 0 <= i < digits.len() implies #[trigger] kb.skip(1)[i] == (
    #[trigger] digits[i]) as u8 by {
        assert(kb.skip(1)[i] == kb0[i + 1]);
        assert(kb0[i + 1] == chars[i + 1] as u8);
    }
    lemma_hex_chars_bytes(digits, kb.skip(1));
    assert(crate::userid::hex_value(digits) == key.spec_uuid() as int) by {
        crate::userid::lemma_pow16_properties();
        vstd::arithmetic::div_mod::lemma_small_mod(
            key.spec_uuid() as nat,
            crate::userid::pow16(32) as nat,
        );
    }
    assert(parse_key_bytes(kb) == Some(UserId::spec_of(key.spec_uuid(), key.spec_anon())));
    crate::userid::lemma_spec_of_self(key);
    assert(UserId::spec_of(key.spec_uuid(), key.spec_anon()) == key);

    // Zero roster entries, and nothing after them.
    assert(b[38] == 0 && b[39] == 0);
    assert(b.skip(40) =~= Seq::<u8>::empty());
    assert(parse_clients(b.skip(40), 0) == Some((Seq::<(u16, Seq<u8>)>::empty(), b.skip(40))));
    assert(parse_history(b.skip(40)) == Some(Seq::<(u32, Seq<u8>, Seq<u8>)>::empty()));
}

} // verus!
