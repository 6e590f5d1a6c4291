//! What the C interface for mobile wallets checks and renders: hexadecimal seeds and
//! message ids, priorities, and conflicts as JSON. Malformed input is an ordinary
//! failure everywhere: `None`.
use crate::clock::Clock;
use crate::conflict::detector::Conflict;
use crate::engine::SyncEngine;
use crate::envelope::secure_signing::InMemorySigner;
use crate::queue::priority::TxPriority;
use crate::queue::sequence::value_of;
use crate::text::{append_signed, hex_of, hex_string, signed_decimal};
use vstd::prelude::*;
use vstd::string::*;
use vstd::utf8::{encode_utf8, is_ascii_chars, is_ascii_chars_encode_utf8};

verus! {

/// The value of a hexadecimal digit in either case, in ASCII.
pub open spec fn hex_value(byte: u8) -> Option<u8> {
    if 48 <= byte <= 57 {
        Some((byte - 48) as u8)
    } else if 65 <= byte <= 70 {
        Some((byte - 55) as u8)
    } else if 97 <= byte <= 102 {
        Some((byte - 87) as u8)
    } else {
        None
    }
}

/// An even number of hexadecimal digits.
pub open spec fn is_hex(text: Seq<u8>) -> bool {
    text.len() % 2 == 0 && forall|i: int| 0 <= i < text.len() ==> hex_value(#[trigger] text[i]) is Some
}

/// The bytes that hexadecimal digits stand for, two digits each.
pub open spec fn unhex(text: Seq<u8>) -> Seq<u8> {
    Seq::new(
        text.len() / 2,
        |i: int| (16 * hex_value(text[2 * i])->0 + hex_value(text[2 * i + 1])->0) as u8,
    )
}

/// Calls `hex::decode`. The claims: it accepts an even number of hexadecimal digits in
/// either case, and nothing else; and the result is the bytes they stand for, two
/// digits each, the high one first.
#[verifier::external_body]
fn hex_decode(text: &str) -> (r: Option<Vec<u8>>)
    ensures
        r is Some <==> is_hex(encode_utf8(text@)),
        r matches Some(bytes) ==> bytes@ == unhex(encode_utf8(text@)),
{
    match hex::decode(text) {
        Ok(bytes) => Some(bytes),
        Err(_) => None,
    }
}

/// The 32 bytes that a text of 64 hexadecimal digits stands for.
pub open spec fn unhex32(text: Seq<char>) -> Option<Seq<u8>> {
    let bytes = encode_utf8(text);
    if is_hex(bytes) && bytes.len() == 64 {
        Some(unhex(bytes))
    } else {
        None
    }
}

/// Decode a hex string into 32 bytes. `None` on any malformed input (bad hex, or not
/// exactly 32 bytes once decoded).
fn decode32(hex_str: &str) -> (r: Option<[u8; 32]>)
    ensures
        r is Some <==> unhex32(hex_str@) is Some,
        r matches Some(bytes) ==> unhex32(hex_str@) == Some(bytes@),
{
    let bytes = match hex_decode(hex_str) {
        Some(bytes) => bytes,
        None => {
            return None;
        },
    };
    if bytes.len() != 32 {
        return None;
    }
    let mut out: [u8; 32] = [0; 32];
    let mut i: usize = 0;
    while i < 32
        invariant
            i <= 32,
            bytes@.len() == 32,
            forall|j: int| 0 <= j < i ==> out@[j] == bytes@[j],
        decreases 32 - i,
    {
        out[i] = bytes[i];
        i += 1;
    }
    assert(out@ =~= bytes@);
    Some(out)
}

/// Decode a 64-character hex string into a 32-byte ed25519 signing seed and build the
/// corresponding signer. `None` on any malformed input.
pub fn decode_signing_key(seed_hex: &str) -> (r: Option<InMemorySigner>)
    ensures
        r is Some <==> unhex32(seed_hex@) is Some,
        r matches Some(signer) ==> unhex32(seed_hex@) == Some(signer.seed()),
{
    match decode32(seed_hex) {
        Some(seed) => Some(InMemorySigner::new(seed)),
        None => None,
    }
}

/// Decode a hex string into a 32-byte `message_id`. `None` on any malformed input (bad
/// hex, or not exactly 32 bytes once decoded).
pub fn decode_message_id(hex_str: &str) -> (r: Option<[u8; 32]>)
    ensures
        r is Some <==> unhex32(hex_str@) is Some,
        r matches Some(id) ==> unhex32(hex_str@) == Some(id@),
{
    decode32(hex_str)
}

/// Validate the arguments of a payment that are not checked further down: the signing
/// seed in hexadecimal, and the priority (`0` = Low, `1` = Normal, `2` = Emergency).
pub fn check_payment_request(seed_hex: &str, priority: u8) -> (r: Option<
    (InMemorySigner, TxPriority),
>)
    ensures
        r is Some <==> unhex32(seed_hex@) is Some && priority <= 2,
        r matches Some((signer, p)) ==> unhex32(seed_hex@) == Some(signer.seed()) && p.rank()
            == priority,
{
    let signer = match decode_signing_key(seed_hex) {
        Some(signer) => signer,
        None => {
            return None;
        },
    };
    match TxPriority::from_i64(priority as i64) {
        Ok(p) => Some((signer, p)),
        Err(_) => None,
    }
}

/// The name of the current settlement status of an envelope, by its id in hexadecimal.
/// `None` if the id is malformed or the envelope is not tracked.
pub fn settlement_status_name<C: Clock>(engine: &SyncEngine<C>, message_id_hex: &str) -> (r: Option<
    &'static str,
>)
    requires
        engine.wf(),
    ensures
        match unhex32(message_id_hex@) {
            None => r is None,
            Some(bytes) => exists|id: [u8; 32]| #[trigger]
                id@ == bytes && match value_of(engine@.settlement, id) {
                    Some(status) => r matches Some(name) && name@ == status.name(),
                    None => r is None,
                },
        },
{
    let message_id = match decode_message_id(message_id_hex) {
        Some(id) => id,
        None => {
            return None;
        },
    };
    match engine.settlement_status(message_id) {
        Some(status) => Some(status.as_str()),
        None => None,
    }
}

// ---------------------------------------------------------------------------
// JSON
// ---------------------------------------------------------------------------

/// A character in a JSON string literal.
pub open spec fn json_char(c: char) -> Seq<char> {
    if c == '"' {
        "\\\""@
    } else if c == '\\' {
        "\\\\"@
    } else if c == '\n' {
        "\\n"@
    } else if c == '\r' {
        "\\r"@
    } else if c == '\t' {
        "\\t"@
    } else if (c as u32) < 0x20 {
        "\\u00"@ + hex_of(seq![c as u8])
    } else {
        seq![c]
    }
}

/// Characters in a JSON string literal.
pub open spec fn json_chars(s: Seq<char>) -> Seq<char>
    decreases s.len(),
{
    if s.len() == 0 {
        Seq::empty()
    } else {
        json_chars(s.drop_last()) + json_char(s.last())
    }
}

/// A JSON string literal.
pub open spec fn json_string(s: Seq<char>) -> Seq<char> {
    "\""@ + json_chars(s) + "\""@
}

/// Escape and quote `s` as a JSON string literal.
pub fn json_escape_string(s: &str) -> (out: String)
    ensures
        out@ == json_string(s@),
{
    let mut out = "\"".to_owned();
    let n: usize = s.unicode_len();
    let mut i: usize = 0;
    assert("\""@ + Seq::<char>::empty() =~= "\""@);
    assert(s@.subrange(0, 0) =~= Seq::<char>::empty());
    while i < n
        invariant
            i <= n,
            n == s@.len(),
            out@ == "\""@ + json_chars(s@.subrange(0, i as int)),
        decreases n - i,
    {
        let c: char = s.get_char(i);
        proof {
            assert(s@.subrange(0, i + 1).drop_last() =~= s@.subrange(0, i as int));
            assert(s@.subrange(i as int, i + 1) =~= seq![c]);
        }
        let ghost before = out@;
        if c == '"' {
            out.append("\\\"");
        } else if c == '\\' {
            out.append("\\\\");
        } else if c == '\n' {
            out.append("\\n");
        } else if c == '\r' {
            out.append("\\r");
        } else if c == '\t' {
            out.append("\\t");
        } else if (c as u32) < 0x20 {
            out.append("\\u00");
            let byte: [u8; 1] = [c as u8];
            assert(byte@ =~= seq![c as u8]);
            out.append(hex_string(byte.as_slice()).as_str());
            assert(out@ =~= before + ("\\u00"@ + hex_of(seq![c as u8])));
        } else {
            out.append(s.substring_char(i, i + 1));
        }
        assert(out@ == before + json_char(c));
        i += 1;
        assert(out@ =~= "\""@ + json_chars(s@.subrange(0, i as int)));
    }
    assert(s@.subrange(0, n as int) =~= s@);
    out.append("\"");
    out
}

/// A conflict as a JSON object.
pub open spec fn json_conflict(c: Conflict) -> Seq<char> {
    "{\"source_account\":"@ + json_string(c.source_account@) + ",\"sequence\":"@ + signed_decimal(
        c.sequence as int,
    ) + ",\"envelope_a\":\""@ + hex_of(c.envelope_a@) + "\",\"envelope_b\":\""@ + hex_of(
        c.envelope_b@,
    ) + "\"}"@
}

/// Conflicts as JSON objects with commas between them.
pub open spec fn json_conflicts(conflicts: Seq<Conflict>) -> Seq<char>
    decreases conflicts.len(),
{
    if conflicts.len() == 0 {
        Seq::empty()
    } else if conflicts.len() == 1 {
        json_conflict(conflicts[0])
    } else {
        json_conflicts(conflicts.drop_last()) + ","@ + json_conflict(conflicts.last())
    }
}

/// Conflicts as a JSON array: `[]` if there are none.
pub fn conflicts_to_json(conflicts: &[Conflict]) -> (out: String)
    ensures
        out@ == "["@ + json_conflicts(conflicts@) + "]"@,
{
    let mut out = "[".to_owned();
    let mut i: usize = 0;
    assert("["@ + Seq::<char>::empty() =~= "["@);
    assert(conflicts@.subrange(0, 0) =~= Seq::<Conflict>::empty());
    while i < conflicts.len()
        invariant
            i <= conflicts.len(),
            out@ == "["@ + json_conflicts(conflicts@.subrange(0, i as int)),
        decreases conflicts.len() - i,
    {
        let c = &conflicts[i];
        let ghost before = out@;
        proof {
            assert(conflicts@.subrange(0, i + 1).drop_last() =~= conflicts@.subrange(0, i as int));
        }
        if i > 0 {
            out.append(",");
        }
        let ghost start = out@;
        out.append("{\"source_account\":");
        out.append(json_escape_string(c.source_account.as_str()).as_str());
        out.append(",\"sequence\":");
        append_signed(&mut out, c.sequence);
        out.append(",\"envelope_a\":\"");
        out.append(hex_string(c.envelope_a.as_slice()).as_str());
        out.append("\",\"envelope_b\":\"");
        out.append(hex_string(c.envelope_b.as_slice()).as_str());
        out.append("\"}");
        assert(out@ =~= start + json_conflict(*c));
        i += 1;
        assert(out@ =~= "["@ + json_conflicts(conflicts@.subrange(0, i as int)));
    }
    assert(conflicts@.subrange(0, i as int) =~= conflicts@);
    out.append("]");
    out
}

// ---------------------------------------------------------------------------
// Laws
// ---------------------------------------------------------------------------

/// The hexadecimal text of 32 bytes is read back as these bytes: a message id that was
/// handed out is accepted as an argument.
pub proof fn ids_survive_hexadecimal(id: [u8; 32])
    ensures
        unhex32(hex_of(id@)) == Some(id@),
{
    let text = hex_of(id@);
    assert forall|i: int| 0 <= i < text.len() implies (#[trigger] text[i] as u32) < 128 by {}
    assert(is_ascii_chars(text)) by {
        assert(text.all(|c: char| '\0' <= c <= '\u{7f}'));
    }
    is_ascii_chars_encode_utf8(text);
    let bytes = encode_utf8(text);
    assert(bytes.len() == 64);
    assert forall|i: int| 0 <= i < bytes.len() implies hex_value(#[trigger] bytes[i]) is Some by {
        assert(bytes[i] == text[i] as u8);
    }
    assert forall|i: int| 0 <= i < 32 implies unhex(bytes)[i] == id@[i] by {
        assert(bytes[2 * i] == text[2 * i] as u8);
        assert(bytes[2 * i + 1] == text[2 * i + 1] as u8);
    }
    assert(unhex(bytes) =~= id@);
}

/// An escaped string holds no control character, whatever the string holds.
pub proof fn escaped_strings_are_printable(s: Seq<char>, i: int)
    requires
        0 <= i < json_chars(s).len(),
    ensures
        json_chars(s)[i] as u32 >= 0x20,
    decreases s.len(),
{
    let front = json_chars(s.drop_last());
    if i < front.len() {
        escaped_strings_are_printable(s.drop_last(), i);
    } else {
        reveal_strlit("\\\"");
        reveal_strlit("\\\\");
        reveal_strlit("\\n");
        reveal_strlit("\\r");
        reveal_strlit("\\t");
        reveal_strlit("\\u00");
        assert(json_chars(s)[i] == json_char(s.last())[i - front.len()]);
    }
}

/// Only 64 hexadecimal digits, in either case, are read as 32 bytes; each byte is given by two
/// digits, the high one first.
pub proof fn only_hexadecimal_is_read(text: Seq<char>, i: int)
    ensures
        encode_utf8(text).len() != 64 ==> unhex32(text) is None,
        0 <= i < encode_utf8(text).len() && hex_value(encode_utf8(text)[i]) is None ==> unhex32(
            text,
        ) is None,
        unhex32(text) matches Some(bytes) ==> bytes.len() == 32 && (0 <= i < 32 ==> bytes[i] == 16
            * hex_value(encode_utf8(text)[2 * i])->0 + hex_value(encode_utf8(text)[2 * i + 1])->0),
{
    if unhex32(text) is Some && 0 <= i < 32 {
        let bytes = encode_utf8(text);
        assert(hex_value(bytes[2 * i]) is Some);
        assert(hex_value(bytes[2 * i + 1]) is Some);
    }
}

/// A string literal is written character by character: quotes and backslashes behind a
/// backslash, control characters as escapes, and every other character as it is.
pub proof fn literals_are_escaped_character_by_character(s: Seq<char>, c: char)
    ensures
        json_chars(Seq::<char>::empty()).len() == 0,
        json_chars(s.push(c)) == json_chars(s) + json_char(c),
        c as u32 >= 0x20 && c != '"' && c != '\\' ==> json_char(c) == seq![c],
        c == '"' || c == '\\' ==> json_char(c) == seq!['\\', c],
        (c as u32) < 0x20 ==> json_char(c).len() >= 2 && json_char(c)[0] == '\\',
        json_string(s) == "\""@ + json_chars(s) + "\""@,
{
    reveal_strlit("\\\"");
    reveal_strlit("\\\\");
    reveal_strlit("\\n");
    reveal_strlit("\\r");
    reveal_strlit("\\t");
    reveal_strlit("\\u00");
    assert(s.push(c).drop_last() =~= s);
    if c == '"' || c == '\\' {
        assert(json_char(c) =~= seq!['\\', c]);
    }
}

/// An array lists the conflicts in their order, with commas between them.
pub proof fn arrays_list_the_conflicts_in_order(conflicts: Seq<Conflict>, c: Conflict)
    ensures
        json_conflicts(Seq::<Conflict>::empty()).len() == 0,
        json_conflicts(seq![c]) == json_conflict(c),
        conflicts.len() > 0 ==> json_conflicts(conflicts.push(c)) == json_conflicts(conflicts)
            + ","@ + json_conflict(c),
{
    assert(conflicts.push(c).drop_last() =~= conflicts);
}

} // verus!
