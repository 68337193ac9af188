//! Inbound message filtering: validity, chat commands, and the one fixed
//! text rewrite.

use vstd::prelude::*;

use crate::message::{valid_message, Message};
use crate::util::{chars_vec, is_space, trim, trim_chars};

verus! {

/// A chat command a client can send instead of a message.
#[derive(Debug, Clone, Copy, PartialEq, Eq, Structural)]
pub enum Cmd {
    KillMe,
    BlockMe,
}

/// What the filter decided for one inbound message.
#[derive(Debug)]
pub enum FilterResult {
    Message(Message),
    Cmd(Cmd),
    Invalid,
}

pub open spec fn killme_chars() -> Seq<char> {
    seq!['/', 'k', 'i', 'l', 'l', 'm', 'e']
}

pub open spec fn blockme_chars() -> Seq<char> {
    seq!['/', 'b', 'l', 'o', 'c', 'k', 'm', 'e']
}

/// The fixed replacement text for the discouraged message.
pub open spec fn rewrite_chars() -> Seq<char> {
    seq!['K', 'i', 's', 's', ' ', 'm', 'e', ' ', 'p', 'w', 'e', 'e', 's']
}

/// The non-whitespace characters of `s`, in order.
pub open spec fn nonspace(s: Seq<char>) -> Seq<char>
    decreases s.len(),
{
    if s.len() == 0 {
        Seq::empty()
    } else if is_space(s.last()) {
        nonspace(s.drop_last())
    } else {
        nonspace(s.drop_last()).push(s.last())
    }
}

/// Whether the non-whitespace characters of `s` spell "kys", case
/// insensitively, with nothing else.
pub open spec fn is_kys(s: Seq<char>) -> bool {
    let n = nonspace(s);
    &&& n.len() == 3
    &&& (n[0] == 'k' || n[0] == 'K')
    &&& (n[1] == 'y' || n[1] == 'Y')
    &&& (n[2] == 's' || n[2] == 'S')
}

/// Recognizes a chat command in already-trimmed text: exactly `/killme` or
/// `/blockme`, no arguments.
pub fn parse_cmd(s: &str) -> (r: Option<Cmd>)
    ensures
        r == if s@ == killme_chars() {
            Some(Cmd::KillMe)
        } else if s@ == blockme_chars() {
            Some(Cmd::BlockMe)
        } else {
            None::<Cmd>
        },
{
    let chars = chars_vec(s);
    if chars.len() == 7 && chars[0] == '/' && chars[1] == 'k' && chars[2]
        == 'i' && chars[3] == 'l' && chars[4] == 'l' && chars[5] == 'm'
        && chars[6] == 'e' {
        proof {
            assert(s@ =~= killme_chars());
        }
        return Some(Cmd::KillMe);
    }
    if chars.len() == 8 && chars[0] == '/' && chars[1] == 'b' && chars[2]
        == 'l' && chars[3] == 'o' && chars[4] == 'c' && chars[5] == 'k'
        && chars[6] == 'm' && chars[7] == 'e' {
        proof {
            assert(s@ =~= blockme_chars());
        }
        return Some(Cmd::BlockMe);
    }
    proof {
        if s@ == killme_chars() {
            assert(chars@.len() == 7 && chars@[0] == '/');
        }
        if s@ == blockme_chars() {
            assert(chars@.len() == 8 && chars@[1] == 'b');
        }
    }
    None
}

/// Validates one inbound message and decides what to do with it: drop it,
/// run a command, or pass it on (rewriting the one discouraged text).
pub fn filter(mesg: Message, max_msg_len: usize) -> (r: FilterResult)
    ensures
        !valid_message(mesg.content@, max_msg_len as int) ==> r is Invalid,
        valid_message(mesg.content@, max_msg_len as int) ==> {
            let t = trim(mesg.content@);
            if t == killme_chars() {
                r == FilterResult::Cmd(Cmd::KillMe)
            } else if t == blockme_chars() {
                r == FilterResult::Cmd(Cmd::BlockMe)
            } else if is_kys(t) {
                r matches FilterResult::Message(m) && m.sender@ == mesg.sender@ && m.sender_id
                    == mesg.sender_id && m.timestamp == mesg.timestamp && m.content@
                    == rewrite_chars()
            } else {
                r matches FilterResult::Message(m) && m.sender@ == mesg.sender@ && m.sender_id
                    == mesg.sender_id && m.timestamp == mesg.timestamp && m.content@
                    == mesg.content@
            }
        },
{
    if !mesg.is_valid(max_msg_len) {
        return FilterResult::Invalid;
    }
    let content_chars = chars_vec(mesg.content.as_str());
    let trimmed = trim_chars(&content_chars);

    if trimmed.len() == 7 && trimmed[0] == '/' && trimmed[1] == 'k' && trimmed[2] == 'i' && trimmed[3] == 'l' && trimmed[4] == 'l' && trimmed[5] == 'm'
        && trimmed[6] == 'e' {
        proof {
            assert(trimmed@ =~= killme_chars());
        }
        return FilterResult::Cmd(Cmd::KillMe);
    }
    if trimmed.len() == 8 && trimmed[0] == '/' && trimmed[1] == 'b' && trimmed[2] == 'l' && trimmed[3] == 'o' && trimmed[4] == 'c' && trimmed[5] == 'k'
        && trimmed[6] == 'm' && trimmed[7] == 'e' {
        proof {
            assert(trimmed@ =~= blockme_chars());
        }
        return FilterResult::Cmd(Cmd::BlockMe);
    }
    proof {
        if trim(mesg.content@) == killme_chars() {
            assert(trimmed@.len() == 7 && trimmed@[0] == '/' && trimmed@[1] == 'k');
        }
        if trim(mesg.content@) == blockme_chars() {
            assert(trimmed@.len() == 8 && trimmed@[1] == 'b');
        }
    }

    // Collect the non-whitespace characters of the trimmed content.
    let mut ns: Vec<char> = Vec::new();
    let tn = trimmed.len();
    let mut i: usize = 0;
    proof {
        assert(trimmed@.take(0) =~= Seq::<char>::empty());
        assert(nonspace(trimmed@.take(0)) =~= Seq::<char>::empty());
    }
    while i < tn
        invariant
            tn == trimmed@.len(),
            i <= tn,
            ns@ =~= nonspace(trimmed@.take(i as int)),
        decreases tn - i,
    {
        let c = trimmed[i];
        proof {
            assert(trimmed@.take(i + 1).drop_last() =~= trimmed@.take(i as int));
            assert(trimmed@.take(i + 1).last() == trimmed@[i as int]);
        }
        if !crate::util::is_space_char(c) {
            ns.push(c);
        }
        i = i + 1;
    }
    proof {
        assert(trimmed@.take(tn as int) =~= trimmed@);
    }
    let kys = ns.len() == 3 && (ns[0] == 'k' || ns[0] == 'K') && (ns[1] == 'y'
        || ns[1] == 'Y') && (ns[2] == 's' || ns[2] == 'S');

    if kys {
        let replacement = "Kiss me pwees";
        proof {
            reveal_strlit("Kiss me pwees");
            assert(replacement@ =~= rewrite_chars());
        }
        return FilterResult::Message(
            Message {
                sender: mesg.sender,
                content: replacement.to_owned(),
                timestamp: mesg.timestamp,
                sender_id: mesg.sender_id,
            },
        );
    }
    FilterResult::Message(mesg)
}

} // verus!
