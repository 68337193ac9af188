//! Persistent client identity tokens.
//!
//! A `UserId` is a 128-bit UUID plus an `anon` flag. Its wire form is a
//! 33-character ASCII string: `'a'` (anonymous) or `'l'` (linked) followed by
//! the 32 lowercase hex digits of the UUID.

use vstd::arithmetic::div_mod::lemma_mod_breakdown;
use vstd::prelude::*;
use vstd::string::StringExecFns;

use crate::util::chars_vec;

verus! {

/// 16 to the power `n`.
pub open spec fn pow16(n: nat) -> int
    decreases n,
{
    if n == 0 {
        1
    } else {
        16 * pow16((n - 1) as nat)
    }
}

pub open spec fn is_hex_digit(c: char) -> bool {
    ('0' <= c && c <= '9') || ('a' <= c && c <= 'f') || ('A' <= c && c <= 'F')
}

/// Numeric value of a hex digit character.
pub open spec fn hex_val(c: char) -> int {
    if '0' <= c && c <= '9' {
        c as int - '0' as int
    } else if 'a' <= c && c <= 'f' {
        10 + c as int - 'a' as int
    } else {
        10 + c as int - 'A' as int
    }
}

/// The lowercase hex digit character for a value in `0..16`.
pub open spec fn hex_char_of(v: int) -> char {
    if v == 0 {
        '0'
    } else if v == 1 {
        '1'
    } else if v == 2 {
        '2'
    } else if v == 3 {
        '3'
    } else if v == 4 {
        '4'
    } else if v == 5 {
        '5'
    } else if v == 6 {
        '6'
    } else if v == 7 {
        '7'
    } else if v == 8 {
        '8'
    } else if v == 9 {
        '9'
    } else if v == 10 {
        'a'
    } else if v == 11 {
        'b'
    } else if v == 12 {
        'c'
    } else if v == 13 {
        'd'
    } else if v == 14 {
        'e'
    } else {
        'f'
    }
}

/// The `n` lowest hex digits of `u`, least significant first.
pub open spec fn hex_rev(u: int, n: nat) -> Seq<char>
    decreases n,
{
    if n == 0 {
        Seq::empty()
    } else {
        seq![hex_char_of(u % 16)] + hex_rev(u / 16, (n - 1) as nat)
    }
}

/// The 32 hex digits of `u`, most significant first.
pub open spec fn hex32(u: int) -> Seq<char> {
    hex_rev(u, 32).reverse()
}

/// The value of a sequence of hex digits, most significant first.
pub open spec fn hex_value(s: Seq<char>) -> int
    decreases s.len(),
{
    if s.len() == 0 {
        0
    } else {
        hex_value(s.drop_last()) * 16 + hex_val(s.last())
    }
}

pub open spec fn all_hex(s: Seq<char>) -> bool {
    forall|i: int| 0 <= i < s.len() ==> is_hex_digit(#[trigger] s[i])
}

/// A client-asserted identity that persists across sessions: a UUID and a
/// flag saying whether the identity is anonymous (freshly generated) or
/// linked (presented by the client).
#[derive(Clone, Copy, PartialEq, Eq, Structural, Hash, Debug)]
pub struct UserId {
    uuid: u128,
    anon: bool,
}

/// The 33-character wire form of a `UserId`.
pub open spec fn format_chars(uid: UserId) -> Seq<char> {
    seq![if uid.spec_anon() { 'a' } else { 'l' }] + hex32(uid.spec_uuid() as int)
}

/// What `UserId::parse_str` accepts: exactly 33 characters, a leading `'a'`
/// or `'l'`, and 32 hex digits.
pub open spec fn parse_spec(s: Seq<char>) -> Option<UserId> {
    if s.len() == 33 && (s[0] == 'a' || s[0] == 'l') && all_hex(s.skip(1)) {
        Some(UserId::spec_of(hex_value(s.skip(1)) as u128, s[0] == 'a'))
    } else {
        None
    }
}

impl UserId {
    pub closed spec fn spec_uuid(&self) -> u128 {
        self.uuid
    }

    pub closed spec fn spec_anon(&self) -> bool {
        self.anon
    }

    /// The `UserId` with the given parts; used by `parse_spec`.
    pub closed spec fn spec_of(uuid: u128, anon: bool) -> UserId {
        UserId { uuid, anon }
    }

    /// Assembles an identity from its parts; used by the wire decoder.
    pub(crate) fn from_parts(uuid: u128, anon: bool) -> (r: UserId)
        ensures
            r == UserId::spec_of(uuid, anon),
    {
        UserId { uuid, anon }
    }

    /// Generates a fresh anonymous identity from a random version-4 UUID.
    pub fn new() -> (r: UserId)
        ensures
            r.spec_anon(),
    {
        UserId { uuid: new_v4_u128(), anon: true }
    }

    pub fn uuid(&self) -> (r: u128)
        ensures
            r == self.spec_uuid(),
    {
        self.uuid
    }

    /// Parses the 33-character wire form; `'l'` marks a linked identity,
    /// `'a'` an anonymous one. Any other shape is rejected.
    pub fn parse_str(s: &str) -> (r: Option<UserId>)
        ensures
            r == parse_spec(s@),
    {
        let chars = chars_vec(s);
        if chars.len() != 33 {
            return None;
        }
        let c0 = chars[0];
        let anon = if c0 == 'l' {
            false
        } else if c0 == 'a' {
            true
        } else {
            return None;
        };
        let ghost digits = s@.skip(1);
        let mut acc: u128 = 0;
        let mut i: usize = 1;
        proof {
            lemma_pow16_properties();
            assert(digits.take(0) =~= Seq::<char>::empty());
        }
        while i < 33
            invariant
                chars@ =~= s@,
                s@.len() == 33,
                digits =~= s@.skip(1),
                1 <= i <= 33,
                all_hex(digits.take(i - 1)),
                acc == hex_value(digits.take(i - 1)),
                acc < pow16((i - 1) as nat),
                pow16(32) == 0x100000000000000000000000000000000,
                forall|a: nat, b: nat| a <= b ==> #[trigger] pow16(a) <= #[trigger] pow16(b),
                forall|n: nat| pow16(n) >= 1,
            decreases 33 - i,
        {
            let c = chars[i];
            let v: u128 = if '0' <= c && c <= '9' {
                (c as u32 - '0' as u32) as u128
            } else if 'a' <= c && c <= 'f' {
                (10 + c as u32 - 'a' as u32) as u128
            } else if 'A' <= c && c <= 'F' {
                (10 + c as u32 - 'A' as u32) as u128
            } else {
                proof {
                    assert(!is_hex_digit(digits[i - 1]));
                }
                return None;
            };
            proof {
                assert(is_hex_digit(digits[i - 1]) && v == hex_val(digits[i - 1]));
                assert(acc <= pow16((i - 1) as nat) - 1);
                assert(16 * acc <= 16 * (pow16((i - 1) as nat) - 1)) by (nonlinear_arith)
                    requires
                        acc <= pow16((i - 1) as nat) - 1,
                        acc >= 0,
                ;
                assert(16 * pow16((i - 1) as nat) == pow16(i as nat));
                assert(pow16(i as nat) <= pow16(32));
            }
            acc = acc * 16 + v;
            proof {
                assert(digits.take(i as int).drop_last() =~= digits.take(i - 1));
                assert(digits.take(i as int).last() == digits[i - 1]);
            }
            i = i + 1;
        }
        proof {
            assert(digits.take(32) =~= digits);
        }
        Some(UserId { uuid: acc, anon })
    }

    /// The wire form: one prefix character and 32 lowercase hex digits.
    pub fn format(&self) -> (r: String)
        ensures
            r@ =~= format_chars(*self),
            r@.len() == 33,
    {
        let mut s = String::new();
        if self.anon {
            s.append("a");
            proof {
                reveal_strlit("a");
                assert(s@ =~= seq!['a']);
            }
        } else {
            s.append("l");
            proof {
                reveal_strlit("l");
                assert(s@ =~= seq!['l']);
            }
        }
        let ghost prefix = s@;
        let ghost u = self.uuid as int;

        // Collect the 32 hex digits, least significant first.
        let mut digits: Vec<u8> = Vec::new();
        let mut acc: u128 = self.uuid;
        let mut k: usize = 0;
        proof {
            lemma_pow16_properties();
            vstd::arithmetic::div_mod::lemma_div_basics(u);
        }
        while k < 32
            invariant
                k <= 32,
                digits@.len() == k,
                acc == u / pow16(k as nat),
                u == self.spec_uuid() as int,
                Seq::new(digits@.len(), |j: int| hex_char_of(digits@[j] as int)) =~= hex_rev(
                    u,
                    k as nat,
                ),
                forall|j: int| 0 <= j < k ==> #[trigger] digits@[j] < 16,
                forall|a: nat, b: nat| a <= b ==> #[trigger] pow16(a) <= #[trigger] pow16(b),
                forall|n: nat| pow16(n) >= 1,
            decreases 32 - k,
        {
            let d: u8 = (acc % 16) as u8;
            proof {
                lemma_hex_rev_step(u, k as nat);
                assert(acc % 16 == (u / pow16(k as nat)) % 16);
                assert(16 * pow16(k as nat) == pow16((k + 1) as nat));
                assert(u / pow16(k as nat) / 16 == u / pow16((k + 1) as nat)) by {
                    vstd::arithmetic::div_mod::lemma_div_denominator(
                        u,
                        pow16(k as nat),
                        16,
                    );
                }
            }
            digits.push(d);
            acc = acc / 16;
            k = k + 1;
            proof {
                assert(Seq::new(digits@.len(), |j: int| hex_char_of(digits@[j] as int)) =~= hex_rev(
                    u,
                    k as nat,
                ));
            }
        }
        let ghost rev = hex_rev(u, 32);

        // Append them most significant first.
        let mut j: usize = 0;
        while j < 32
            invariant
                j <= 32,
                digits@.len() == 32,
                forall|t: int| 0 <= t < 32 ==> #[trigger] digits@[t] < 16,
                Seq::new(32, |t: int| hex_char_of(digits@[t] as int)) =~= rev,
                rev.len() == 32,
                s@ =~= prefix + rev.reverse().take(j as int),
                prefix =~= seq![if self.spec_anon() { 'a' } else { 'l' }],
            decreases 32 - j,
        {
            let d = digits[31 - j];
            append_hex_digit(&mut s, d);
            proof {
                assert(rev.reverse()[j as int] == rev[31 - j as int]);
                assert(hex_char_of(digits@[31 - j as int] as int) == rev[31 - j as int]);
                assert(s@ =~= prefix + rev.reverse().take(j + 1));
            }
            j = j + 1;
        }
        proof {
            assert(rev.reverse().take(32) =~= rev.reverse());
            assert(s@ =~= format_chars(*self));
        }
        s
    }

    /// The identity as 17 bytes: the UUID in the mixed-endian layout used on
    /// the wire for binary tokens, then one tag byte, 0x61 (`'a'`) for an
    /// anonymous identity or 0x6C (`'l'`) for a linked one.
    pub fn to_bytes_le(&self) -> (r: Vec<u8>)
        ensures
            r@ =~= to_bytes_le_spec(*self),
    {
        // Split the UUID into 16 bytes, least significant first.
        let mut bytes: Vec<u8> = Vec::new();
        let mut acc: u128 = self.uuid;
        let ghost u = self.uuid as int;
        let mut k: usize = 0;
        proof {
            lemma_pow256_properties();
            vstd::arithmetic::div_mod::lemma_div_basics(u);
        }
        while k < 16
            invariant
                k <= 16,
                bytes@.len() == k,
                acc == u / pow256(k as nat),
                u == self.spec_uuid() as int,
                u >= 0,
                forall|n: nat| #[trigger] pow256(n) >= 1,
                forall|j: int| 0 <= j < k ==> #[trigger] bytes@[j] as int == (u / pow256(j as nat))
                    % 256,
            decreases 16 - k,
        {
            let b: u8 = (acc % 256) as u8;
            proof {
                assert(16 as int * pow256(k as nat) >= 1) by (nonlinear_arith)
                    requires
                        pow256(k as nat) >= 1,
                ;
                assert(256 * pow256(k as nat) == pow256((k + 1) as nat));
                assert(u / pow256(k as nat) / 256 == u / pow256((k + 1) as nat)) by {
                    vstd::arithmetic::div_mod::lemma_div_denominator(
                        u,
                        pow256(k as nat),
                        256,
                    );
                }
            }
            bytes.push(b);
            acc = acc / 256;
            k = k + 1;
        }
        let mut out: Vec<u8> = Vec::new();
        out.push(bytes[12]);
        out.push(bytes[13]);
        out.push(bytes[14]);
        out.push(bytes[15]);
        out.push(bytes[10]);
        out.push(bytes[11]);
        out.push(bytes[8]);
        out.push(bytes[9]);
        out.push(bytes[7]);
        out.push(bytes[6]);
        out.push(bytes[5]);
        out.push(bytes[4]);
        out.push(bytes[3]);
        out.push(bytes[2]);
        out.push(bytes[1]);
        out.push(bytes[0]);
        if self.anon {
            out.push(0x61);
        } else {
            out.push(0x6C);
        }
        proof {
            assert(out@ =~= to_bytes_le_spec(*self));
        }
        out
    }
}

/// 256 to the power `n`.
pub open spec fn pow256(n: nat) -> int
    decreases n,
{
    if n == 0 {
        1
    } else {
        256 * pow256((n - 1) as nat)
    }
}

/// Byte `j` (by significance) of the UUID.
pub open spec fn uuid_le_byte(uid: UserId, j: int) -> u8 {
    (((uid.spec_uuid() as int) / pow256(j as nat)) % 256) as u8
}

/// The 17-byte binary form of an identity.
pub open spec fn to_bytes_le_spec(uid: UserId) -> Seq<u8> {
    seq![
        uuid_le_byte(uid, 12),
        uuid_le_byte(uid, 13),
        uuid_le_byte(uid, 14),
        uuid_le_byte(uid, 15),
        uuid_le_byte(uid, 10),
        uuid_le_byte(uid, 11),
        uuid_le_byte(uid, 8),
        uuid_le_byte(uid, 9),
        uuid_le_byte(uid, 7),
        uuid_le_byte(uid, 6),
        uuid_le_byte(uid, 5),
        uuid_le_byte(uid, 4),
        uuid_le_byte(uid, 3),
        uuid_le_byte(uid, 2),
        uuid_le_byte(uid, 1),
        uuid_le_byte(uid, 0),
        if uid.spec_anon() {
            0x61u8
        } else {
            0x6Cu8
        },
    ]
}

/// Appends the lowercase hex digit for `d` to `s`.
fn append_hex_digit(s: &mut String, d: u8)
    requires
        d < 16,
    ensures
        final(s)@ =~= old(s)@.push(hex_char_of(d as int)),
{
    if d == 0 {
        s.append("0");
        proof {
            reveal_strlit("0");
        }
    } else if d == 1 {
        s.append("1");
        proof {
            reveal_strlit("1");
        }
    } else if d == 2 {
        s.append("2");
        proof {
            reveal_strlit("2");
        }
    } else if d == 3 {
        s.append("3");
        proof {
            reveal_strlit("3");
        }
    } else if d == 4 {
        s.append("4");
        proof {
            reveal_strlit("4");
        }
    } else if d == 5 {
        s.append("5");
        proof {
            reveal_strlit("5");
        }
    } else if d == 6 {
        s.append("6");
        proof {
            reveal_strlit("6");
        }
    } else if d == 7 {
        s.append("7");
        proof {
            reveal_strlit("7");
        }
    } else if d == 8 {
        s.append("8");
        proof {
            reveal_strlit("8");
        }
    } else if d == 9 {
        s.append("9");
        proof {
            reveal_strlit("9");
        }
    } else if d == 10 {
        s.append("a");
        proof {
            reveal_strlit("a");
        }
    } else if d == 11 {
        s.append("b");
        proof {
            reveal_strlit("b");
        }
    } else if d == 12 {
        s.append("c");
        proof {
            reveal_strlit("c");
        }
    } else if d == 13 {
        s.append("d");
        proof {
            reveal_strlit("d");
        }
    } else if d == 14 {
        s.append("e");
        proof {
            reveal_strlit("e");
        }
    } else {
        s.append("f");
        proof {
            reveal_strlit("f");
        }
    }
}

/// Facts about `pow16` used throughout: monotonicity, positivity, and the
/// value of `pow16(32)` (one past `u128::MAX`).
pub proof fn lemma_pow16_properties()
    ensures
        pow16(32) == 0x100000000000000000000000000000000,
        forall|a: nat, b: nat| a <= b ==> #[trigger] pow16(a) <= #[trigger] pow16(b),
        forall|n: nat| pow16(n) >= 1,
{
    assert(pow16(32) == 0x100000000000000000000000000000000) by {
        reveal_with_fuel(pow16, 33);
    }
    assert forall|n: nat| pow16(n) >= 1 by {
        lemma_pow16_pos(n);
    }
    assert forall|a: nat, b: nat| a <= b implies #[trigger] pow16(a) <= #[trigger] pow16(b) by {
        lemma_pow16_mono(a, b);
    }
}

proof fn lemma_pow16_pos(n: nat)
    ensures
        pow16(n) >= 1,
    decreases n,
{
    if n > 0 {
        lemma_pow16_pos((n - 1) as nat);
    }
}

proof fn lemma_pow16_mono(a: nat, b: nat)
    requires
        a <= b,
    ensures
        pow16(a) <= pow16(b),
    decreases b,
{
    if a < b {
        lemma_pow16_mono(a, (b - 1) as nat);
        lemma_pow16_pos((b - 1) as nat);
    }
}

proof fn lemma_pow256_properties()
    ensures
        forall|n: nat| pow256(n) >= 1,
{
    assert forall|n: nat| pow256(n) >= 1 by {
        lemma_pow256_pos(n);
    }
}

proof fn lemma_pow256_pos(n: nat)
    ensures
        pow256(n) >= 1,
    decreases n,
{
    if n > 0 {
        lemma_pow256_pos((n - 1) as nat);
    }
}

/// Extending a least-significant-first digit string by one digit appends the
/// next digit of the value.
proof fn lemma_hex_rev_step(u: int, k: nat)
    requires
        u >= 0,
    ensures
        hex_rev(u, (k + 1) as nat) =~= hex_rev(u, k).push(hex_char_of((u / pow16(k)) % 16)),
    decreases k,
{
    if k == 0 {
        vstd::arithmetic::div_mod::lemma_div_basics(u);
        assert(u / pow16(0) == u);
        assert(hex_rev(u / 16, 0) =~= Seq::<char>::empty());
        assert(hex_rev(u, 1) =~= seq![hex_char_of(u % 16)] + hex_rev(u / 16, 0));
        assert(hex_rev(u, 1) =~= hex_rev(u, 0).push(hex_char_of(u % 16)));
    } else {
        vstd::arithmetic::div_mod::lemma_div_pos_is_pos(u, 16);
        lemma_hex_rev_step(u / 16, (k - 1) as nat);
        assert(u / 16 / pow16((k - 1) as nat) == u / pow16(k)) by {
            lemma_pow16_pos((k - 1) as nat);
            vstd::arithmetic::div_mod::lemma_div_denominator(
                u,
                16,
                pow16((k - 1) as nat),
            );
        }
        let c = hex_char_of((u / pow16(k)) % 16);
        assert(hex_rev(u / 16, k) =~= hex_rev(u / 16, (k - 1) as nat).push(c));
        assert(hex_rev(u, (k + 1) as nat) =~= seq![hex_char_of(u % 16)] + hex_rev(u / 16, k));
        assert(hex_rev(u, k) =~= seq![hex_char_of(u % 16)] + hex_rev(u / 16, (k - 1) as nat));
        assert(hex_rev(u, (k + 1) as nat) =~= hex_rev(u, k).push(c));
    }
}

/// The digits produced by `hex_rev` read back (most significant first) as
/// the value modulo `16^n`, and they are all hex digits.
pub proof fn lemma_hex_rev_value(u: int, n: nat)
    requires
        u >= 0,
    ensures
        hex_rev(u, n).len() == n,
        all_hex(hex_rev(u, n).reverse()),
        hex_value(hex_rev(u, n).reverse()) == u % pow16(n),
    decreases n,
{
    lemma_pow16_pos(n);
    if n == 0 {
        assert(hex_rev(u, 0).reverse() =~= Seq::<char>::empty());
        assert(u % 1 == 0);
    } else {
        vstd::arithmetic::div_mod::lemma_div_pos_is_pos(u, 16);
        lemma_hex_rev_value(u / 16, (n - 1) as nat);
        let c = hex_char_of(u % 16);
        let rest = hex_rev(u / 16, (n - 1) as nat);
        assert(hex_rev(u, n) =~= seq![c] + rest);
        assert(hex_rev(u, n).reverse() =~= rest.reverse().push(c));
        let whole = rest.reverse().push(c);
        assert(whole.drop_last() =~= rest.reverse());
        assert(whole.last() == c);
        assert(0 <= u % 16 < 16);
        assert(is_hex_digit(c) && hex_val(c) == u % 16) by {
            lemma_hex_char_val(u % 16);
        }
        assert(all_hex(whole));
        lemma_pow16_pos((n - 1) as nat);
        assert(u % (16 * pow16((n - 1) as nat)) == 16 * ((u / 16) % pow16((n - 1) as nat)) + u
            % 16) by {
            lemma_mod_breakdown(u, 16, pow16((n - 1) as nat));
        }
        assert(hex_value(whole) == hex_value(rest.reverse()) * 16 + hex_val(c));
    }
}

/// `hex_char_of` and `hex_val` are inverse on digit values.
proof fn lemma_hex_char_val(v: int)
    requires
        0 <= v < 16,
    ensures
        is_hex_digit(hex_char_of(v)),
        hex_val(hex_char_of(v)) == v,
{
}

/// An identity equals the one assembled from its own parts.
pub proof fn lemma_spec_of_self(uid: UserId)
    ensures
        UserId::spec_of(uid.spec_uuid(), uid.spec_anon()) == uid,
{
}

/// The wire round trip: parsing a formatted identity yields it back.
pub proof fn lemma_userid_roundtrip(uid: UserId)
    ensures
        parse_spec(format_chars(uid)) == Some(uid),
{
    let s = format_chars(uid);
    lemma_pow16_properties();
    lemma_hex_rev_value(uid.spec_uuid() as int, 32);
    assert(s.len() == 33);
    assert(s.skip(1) =~= hex32(uid.spec_uuid() as int));
    assert(uid.spec_uuid() as int % pow16(32) == uid.spec_uuid() as int) by {
        vstd::arithmetic::div_mod::lemma_small_mod(
            uid.spec_uuid() as nat,
            pow16(32) as nat,
        );
    }
    assert(hex_value(s.skip(1)) == uid.spec_uuid() as int);
    assert(parse_spec(s) == Some(UserId::spec_of(uid.spec_uuid(), uid.spec_anon())));
    assert(UserId::spec_of(uid.spec_uuid(), uid.spec_anon()) == uid);
}

/// Relies on `uuid::Uuid::new_v4` for a random version-4 UUID, taken as its
/// 128-bit value; nothing is assumed about the value.
#[verifier::external_body]
fn new_v4_u128() -> u128 {
    uuid::Uuid::new_v4().as_u128()
}

} // verus!
