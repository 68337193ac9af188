//! Per-connection session decisions.
//!
//! The session lifecycle is: handshake (identity and name claim), admission
//! at the hub, the setup frame, then the running state. The decisions here
//! are pure state transitions; the transport loop reads and writes sockets,
//! calls these, and performs the returned actions.

use vstd::prelude::*;

use crate::mesg_filter::{blockme_chars, filter, is_kys, killme_chars, rewrite_chars, Cmd,
    FilterResult};
use crate::message::{valid_message, Message};
use crate::names::{normalize, ClaimedName, NameClaimError, UsernameManager};
use crate::ratelimit::{rl_accepts, rl_next_burst, spam_accepts, spec_delta, RateLimiter,
    SpamLimiter};
use crate::userid::{parse_spec, UserId};
use crate::util::trim;
use crate::wsprotocol::{CloseCode, CloseFrame, KickReason};

verus! {

/// The identity a connection asserts: the parsed key when one is given,
/// else the freshly generated one; `None` when the given key is malformed.
pub open spec fn handshake_identity(
    key: Option<Seq<char>>,
    fresh: UserId,
) -> Option<UserId> {
    match key {
        Some(s) => parse_spec(s),
        None => Some(fresh),
    }
}

/// Runs the handshake: resolves the identity from the optional `key` query
/// parameter (falling back to `fresh_id`, which the caller generates), then
/// claims `username` for it. An error carries the close frame to send.
pub fn handshake(
    username: &str,
    key: Option<&str>,
    fresh_id: UserId,
    mgr: &mut UsernameManager,
) -> (r: Result<(UserId, ClaimedName), CloseFrame>)
    requires
        old(mgr).wf(),
    ensures
        final(mgr).wf(),
        final(mgr).spec_max_reserved() == old(mgr).spec_max_reserved(),
        ({
            let ident = handshake_identity(
                match key {
                    Some(k) => Some(k@),
                    None => None,
                },
                fresh_id,
            );
            match ident {
                None => {
                    &&& r matches Err(f) && f.code == CloseCode::Error && f.reason@
                        == "Invalid static user id."@
                    &&& *final(mgr) == *old(mgr)
                },
                Some(uid) => {
                    match normalize(username@) {
                        None => {
                            &&& r matches Err(f) && f.code == CloseCode::Error && f.reason@
                                == "Username invalid"@
                            &&& *final(mgr) == *old(mgr)
                        },
                        Some(n) => {
                            if final(mgr).claim_outcome_taken(n, uid, *old(mgr)) {
                                &&& r matches Err(f) && f.code == CloseCode::Error && f.reason@
                                    == "Username taken"@
                                &&& *final(mgr) == *old(mgr)
                            } else {
                                (r matches Ok(p) && p.0 == uid && p.1@ == username@
                                    && final(mgr).claim_outcome_ok(n, username@, uid, *old(mgr), Ok(p.1)))
                            }
                        },
                    }
                },
            }
        }),
{
    let user_id = match key {
        Some(k) => match UserId::parse_str(k) {
            Some(uid) => uid,
            None => {
                return Err(
                    CloseFrame { code: CloseCode::Error, reason: "Invalid static user id." },
                );
            },
        },
        None => fresh_id,
    };
    match mgr.claim_name(username, user_id) {
        Ok(lease) => Ok((user_id, lease)),
        Err(NameClaimError::Invalid) => Err(
            CloseFrame { code: CloseCode::Error, reason: "Username invalid" },
        ),
        Err(NameClaimError::Taken) => Err(
            CloseFrame { code: CloseCode::Error, reason: "Username taken" },
        ),
    }
}

/// What the session does with one inbound message.
#[derive(Debug)]
pub enum MessageAction {
    /// Close the connection with this kick.
    Kick(KickReason),
    /// Drop the message silently.
    Ignore,
    /// Stop publishing from this session, but keep it connected.
    Block,
    /// End the session normally.
    EndSession,
    /// Echo the message to this client and publish it to the hub.
    Publish(Message),
}

/// Decides what to do with one inbound message at time `now_ms`: the rate
/// limiter may kick, then the spam limiter may kick, then the filter drops
/// it, runs its command, or passes it on.
pub fn on_message(
    mesg: Message,
    rate_limiter: &mut RateLimiter,
    spam_limiter: &mut SpamLimiter,
    max_message_len: usize,
    now_ms: i64,
) -> (r: MessageAction)
    ensures
        ({
            let delta = spec_delta(old(rate_limiter).spec_last_ms(), now_ms as int);
            let rl_ok = rl_accepts(
                old(rate_limiter).spec_conf(),
                old(rate_limiter).spec_burst(),
                delta,
            );
            let spam_ok = spam_accepts(
                old(spam_limiter).spec_last(),
                old(spam_limiter).spec_last_ms(),
                mesg.content@,
                now_ms as int,
            );
            &&& final(rate_limiter).spec_conf() == old(rate_limiter).spec_conf()
            &&& final(rate_limiter).spec_last_ms() == now_ms as int
            &&& final(rate_limiter).spec_burst() == rl_next_burst(
                old(rate_limiter).spec_conf(),
                old(rate_limiter).spec_burst(),
                delta,
            )
            &&& (!rl_ok ==> (r matches MessageAction::Kick(k) && k == KickReason::RateLimit
                && *final(spam_limiter) == *old(spam_limiter)))
            &&& (rl_ok ==> final(spam_limiter).spec_last() == Some(mesg.content@)
                && final(spam_limiter).spec_last_ms() == now_ms as int)
            &&& (rl_ok && !spam_ok ==> (r matches MessageAction::Kick(k) && k
                == KickReason::Spam))
            &&& (rl_ok && spam_ok ==> {
                let t = trim(mesg.content@);
                if !valid_message(mesg.content@, max_message_len as int) {
                    r is Ignore
                } else if t == killme_chars() {
                    r is EndSession
                } else if t == blockme_chars() {
                    r is Block
                } else if is_kys(t) {
                    r matches MessageAction::Publish(m) && m.sender@ == mesg.sender@
                        && m.sender_id == mesg.sender_id && m.timestamp == mesg.timestamp
                        && m.content@ == rewrite_chars()
                } else {
                    r matches MessageAction::Publish(m) && m.sender@ == mesg.sender@
                        && m.sender_id == mesg.sender_id && m.timestamp == mesg.timestamp
                        && m.content@ == mesg.content@
                }
            })
        }),
{
    if !rate_limiter.update(now_ms) {
        return MessageAction::Kick(KickReason::RateLimit);
    }
    if !spam_limiter.update(mesg.content.clone(), now_ms) {
        return MessageAction::Kick(KickReason::Spam);
    }
    match filter(mesg, max_message_len) {
        FilterResult::Invalid => MessageAction::Ignore,
        FilterResult::Cmd(Cmd::KillMe) => MessageAction::EndSession,
        FilterResult::Cmd(Cmd::BlockMe) => MessageAction::Block,
        FilterResult::Message(m) => MessageAction::Publish(m),
    }
}

/// What `String::from_utf8_lossy` turns a byte payload into; a function of
/// the bytes alone.
pub uninterp spec fn lossy_of(b: Seq<u8>) -> Seq<char>;

/// Relies on `String::from_utf8_lossy`: the decoding depends on the bytes
/// alone, and valid UTF-8 decodes exactly.
#[verifier::external_body]
fn utf8_lossy(bytes: &Vec<u8>) -> (r: String)
    ensures
        r@ == lossy_of(bytes@),
        vstd::utf8::valid_utf8(bytes@) ==> r@ == vstd::utf8::decode_utf8(bytes@),
{
    String::from_utf8_lossy(bytes).into_owned()
}

/// Assembles the message for one inbound text payload: this session's name
/// and id, the wall-clock minute, and the (lossily decoded) text.
pub fn inbound_message(payload: &Vec<u8>, username: &str, sender_id: u16, now_unix_s: u64) -> (m:
    Message)
    ensures
        m.sender@ == username@,
        m.sender_id == sender_id,
        m.timestamp == (now_unix_s / 60) as u32,
        m.content@ == lossy_of(payload@),
        vstd::utf8::valid_utf8(payload@) ==> m.content@ == vstd::utf8::decode_utf8(payload@),
{
    Message {
        sender: username.to_owned(),
        sender_id,
        timestamp: (now_unix_s / 60) as u32,
        content: utf8_lossy(payload),
    }
}

/// The close frame for a client that sent a non-text frame.
pub fn unsupported_frame_close() -> (r: CloseFrame)
    ensures
        r.code == CloseCode::Unsupported,
        r.reason@ == "No non-text messages."@,
{
    CloseFrame { code: CloseCode::Unsupported, reason: "No non-text messages." }
}

} // verus!
