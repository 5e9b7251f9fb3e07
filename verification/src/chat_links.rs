//! Deep links that an assistant reply can carry, so that a click jumps to the
//! mail or the calendar event it talks about.
//!
//! A link has the form `lookout-action:<action>?data=<payload>`, with the
//! payload percent-encoded. The payload of `open-event` is the event as JSON;
//! that of `open-message` is the short `<uid>:<mailbox>`.

use crate::text::{decimal, decimal_text, number_digits, u32_of, is_digit};
use crate::text::{cut_once, lemma_cut_once_of_joined, lemma_decimal_reads_back, without_prefix};
use crate::text::{parse_u32, split_once, strip_prefix};
use vstd::prelude::*;
use vstd::utf8::{decode_utf8, encode_utf8, valid_utf8};

verus! {

/// The scheme of every link.
pub const SCHEME: &'static str = "lookout-action";

/// The bytes that stand for themselves: the unreserved ones of RFC 3986.
pub open spec fn unreserved(b: u8) -> bool {
    ||| 0x41 <= b <= 0x5a
    ||| 0x61 <= b <= 0x7a
    ||| 0x30 <= b <= 0x39
    ||| b == 0x2d
    ||| b == 0x5f
    ||| b == 0x2e
    ||| b == 0x7e
}

/// An upper-case hexadecimal digit.
pub open spec fn hex_digit(n: int) -> char {
    if n < 10 {
        ((0x30 + n) as u32) as char
    } else {
        ((0x41 + n - 10) as u32) as char
    }
}

/// One byte, percent-encoded unless it is unreserved.
pub open spec fn encoded_byte(b: u8) -> Seq<char> {
    if unreserved(b) {
        seq![b as char]
    } else {
        seq!['%', hex_digit(b as int / 16), hex_digit(b as int % 16)]
    }
}

/// Bytes, percent-encoded one after the other.
pub open spec fn encoded_bytes(b: Seq<u8>) -> Seq<char>
    decreases b.len(),
{
    if b.len() == 0 {
        Seq::empty()
    } else {
        encoded_byte(b[0]) + encoded_bytes(b.skip(1))
    }
}

/// A text, percent-encoded by the bytes of its UTF-8 form.
pub open spec fn encoded(s: Seq<char>) -> Seq<char> {
    encoded_bytes(encode_utf8(s))
}

fn hex_digit_of(n: u8) -> (r: char)
    requires
        n < 16,
    ensures
        r == hex_digit(n as int),
{
    if n < 10 {
        (0x30 + n) as char
    } else {
        (0x41 + (n - 10)) as char
    }
}

/// Percent-encodes a text: unreserved characters stay, every other byte becomes `%XX`.
pub fn percent_encode(s: &str) -> (r: String)
    ensures
        r@ == encoded(s@),
{
    let bytes = s.as_bytes();
    let mut out = String::new();
    let mut i: usize = 0;
    assert(bytes@.skip(0) =~= bytes@);
    while i < bytes.len()
        invariant
            i <= bytes.len(),
            out@ + encoded_bytes(bytes@.skip(i as int)) == encoded_bytes(bytes@),
        decreases bytes.len() - i,
    {
        let b = bytes[i];
        let ghost before = out@;
        assert(bytes@.skip(i as int).skip(1) =~= bytes@.skip(i + 1));
        if (0x41 <= b && b <= 0x5a) || (0x61 <= b && b <= 0x7a) || (0x30 <= b && b <= 0x39) || b == 0x2d
            || b == 0x5f || b == 0x2e || b == 0x7e {
            out.push(b as char);
            assert(out@ =~= before + encoded_byte(b));
        } else {
            out.push('%');
            out.push(hex_digit_of(b / 16));
            out.push(hex_digit_of(b % 16));
            assert(out@ =~= before + encoded_byte(b));
        }
        assert(before + (encoded_byte(b) + encoded_bytes(bytes@.skip(i + 1))) =~= out@ + encoded_bytes(
            bytes@.skip(i + 1),
        ));
        i += 1;
    }
    assert(out@ + encoded_bytes(bytes@.skip(i as int)) =~= out@);
    out
}

/// The value of a hexadecimal digit of either case.
pub open spec fn hex_value(b: u8) -> Option<u8> {
    if 0x30 <= b <= 0x39 {
        Some((b - 0x30) as u8)
    } else if 0x41 <= b <= 0x46 {
        Some((b - 0x41 + 10) as u8)
    } else if 0x61 <= b <= 0x66 {
        Some((b - 0x61 + 10) as u8)
    } else {
        None
    }
}

/// The byte that the two bytes after a `%` stand for, if they are hexadecimal digits.
pub open spec fn escape_value(a: u8, b: u8) -> Option<u8> {
    match (hex_value(a), hex_value(b)) {
        (Some(x), Some(y)) => Some((x * 16 + y) as u8),
        _ => None,
    }
}

/// The byte that the two bytes after a `%` are read as, if they are read as a number: hexadecimal
/// digits, or a plus sign and one digit.
pub open spec fn read_value(a: u8, b: u8) -> Option<u8> {
    if a == 0x2b {
        hex_value(b)
    } else {
        escape_value(a, b)
    }
}

/// The bytes that percent-encoded bytes are read as. A `%` before what is no number stands for
/// itself.
pub open spec fn decoded_bytes(b: Seq<u8>) -> Seq<u8>
    decreases b.len(),
{
    if b.len() == 0 {
        Seq::empty()
    } else if b[0] == 0x25 && b.len() > 2 && read_value(b[1], b[2]) is Some {
        seq![read_value(b[1], b[2])->0] + decoded_bytes(b.skip(3))
    } else {
        seq![b[0]] + decoded_bytes(b.skip(1))
    }
}

/// Every `%` starts an escape: two hexadecimal digits follow it.
pub open spec fn well_escaped(b: Seq<u8>) -> bool {
    forall|i: int|
        0 <= i < b.len() && #[trigger] b[i] == 0x25 ==> i + 2 < b.len() && escape_value(b[i + 1], b[i + 2]) is Some
}

/// What bytes read as text look like, with replacement characters for what is not UTF-8.
pub uninterp spec fn lossy_text(bytes: Seq<u8>) -> Seq<char>;

/// `String::from_utf8_lossy`: UTF-8 is decoded as it is; nothing more is said of other bytes than
/// that the text depends on them alone.
#[verifier::external_body]
fn text_from_utf8_lossy(bytes: &Vec<u8>) -> (r: String)
    ensures
        r@ == lossy_text(bytes@),
        valid_utf8(bytes@) ==> r@ == decode_utf8(bytes@),
{
    String::from_utf8_lossy(bytes).into_owned()
}

/// The text that a percent-encoded text stands for.
pub open spec fn decoded(s: Seq<char>) -> Seq<char> {
    lossy_text(decoded_bytes(encode_utf8(s)))
}

fn hex_value_of(b: u8) -> (r: Option<u8>)
    ensures
        r == hex_value(b),
{
    if 0x30 <= b && b <= 0x39 {
        Some(b - 0x30)
    } else if 0x41 <= b && b <= 0x46 {
        Some(b - 0x41 + 10)
    } else if 0x61 <= b && b <= 0x66 {
        Some(b - 0x61 + 10)
    } else {
        None
    }
}

fn escape_value_of(a: u8, b: u8) -> (r: Option<u8>)
    ensures
        r == escape_value(a, b),
{
    match (hex_value_of(a), hex_value_of(b)) {
        (Some(x), Some(y)) => Some(x * 16 + y),
        _ => None,
    }
}

fn read_value_of(a: u8, b: u8) -> (r: Option<u8>)
    ensures
        r == read_value(a, b),
{
    if a == 0x2b {
        hex_value_of(b)
    } else {
        escape_value_of(a, b)
    }
}

fn is_well_escaped(s: &str) -> (r: bool)
    ensures
        r == well_escaped(encode_utf8(s@)),
{
    let bytes = s.as_bytes();
    let mut i: usize = 0;
    while i < bytes.len()
        invariant
            i <= bytes.len(),
            bytes@ == encode_utf8(s@),
            forall|k: int|
                0 <= k < i && #[trigger] bytes@[k] == 0x25 ==> k + 2 < bytes@.len() && escape_value(
                    bytes@[k + 1],
                    bytes@[k + 2],
                ) is Some,
        decreases bytes.len() - i,
    {
        if bytes[i] == 0x25 && (bytes.len() - i <= 2 || escape_value_of(bytes[i + 1], bytes[i + 2]).is_none()) {
            assert(bytes@[i as int] == 0x25);
            return false;
        }
        i += 1;
    }
    true
}

/// Undoes percent-encoding. A `%` before what is no number stays.
pub fn percent_decode(s: &str) -> (r: String)
    ensures
        r@ == decoded(s@),
        valid_utf8(decoded_bytes(encode_utf8(s@))) ==> r@ == decode_utf8(
            decoded_bytes(encode_utf8(s@)),
        ),
{
    let bytes = s.as_bytes();
    let mut out: Vec<u8> = Vec::new();
    let mut i: usize = 0;
    assert(bytes@.skip(0) =~= bytes@);
    while i < bytes.len()
        invariant
            i <= bytes.len(),
            out@ + decoded_bytes(bytes@.skip(i as int)) == decoded_bytes(bytes@),
        decreases bytes.len() - i,
    {
        let ghost rest = bytes@.skip(i as int);
        let ghost before = out@;
        if bytes[i] == 0x25 && bytes.len() - i > 2 {
            if let Some(b) = read_value_of(bytes[i + 1], bytes[i + 2]) {
                out.push(b);
                assert(rest.skip(3) =~= bytes@.skip(i + 3));
                assert(before + (seq![b] + decoded_bytes(bytes@.skip(i + 3))) =~= out@ + decoded_bytes(
                    bytes@.skip(i + 3),
                ));
                i += 3;
                continue;
            }
        }
        out.push(bytes[i]);
        assert(rest.skip(1) =~= bytes@.skip(i + 1));
        assert(before + (seq![rest[0]] + decoded_bytes(bytes@.skip(i + 1))) =~= out@ + decoded_bytes(
            bytes@.skip(i + 1),
        ));
        i += 1;
    }
    assert(out@ + decoded_bytes(bytes@.skip(i as int)) =~= out@);
    text_from_utf8_lossy(&out)
}

/// The link that carries `payload` to the action `action`.
pub open spec fn link(action: Seq<char>, payload: Seq<char>) -> Seq<char> {
    SCHEME@ + ":"@ + action + "?data="@ + encoded(payload)
}

/// The action and the encoded payload of a link; nothing for any other text.
pub open spec fn link_parts(uri: Seq<char>) -> Option<(Seq<char>, Seq<char>)> {
    match without_prefix(uri, SCHEME@) {
        None => None,
        Some(after_scheme) => match without_prefix(after_scheme, ":"@) {
            None => None,
            Some(rest) => match cut_once(rest, '?') {
                None => None,
                Some((action, query)) => match without_prefix(query, "data="@) {
                    None => None,
                    Some(data) => if action.len() == 0 {
                        None
                    } else {
                        Some((action, data))
                    },
                },
            },
        },
    }
}

/// Builds the link that carries `json` to the action `action`.
pub fn build_link(action: &str, json: &str) -> (r: String)
    ensures
        r@ == link(action@, json@),
{
    let mut out = String::new();
    out.push_str(SCHEME);
    out.push_str(":");
    out.push_str(action);
    out.push_str("?data=");
    out.push_str(&percent_encode(json));
    assert(out@ =~= link(action@, json@));
    out
}

/// The link that opens the event with the given JSON form.
pub fn open_event_link(json: &str) -> (r: String)
    ensures
        r@ == link("open-event"@, json@),
{
    build_link("open-event", json)
}

/// The payload that names one message: its number in the mailbox, a colon, the mailbox.
pub open spec fn message_target(mailbox: Seq<char>, uid: u32) -> Seq<char> {
    decimal(uid as nat).push(':') + mailbox
}

/// The link that opens one message.
pub fn open_message_link(mailbox: &str, uid: u32) -> (r: String)
    ensures
        r@ == link("open-message"@, message_target(mailbox@, uid)),
{
    let mut target = decimal_text(uid as u64);
    target.push(':');
    target.push_str(mailbox);
    build_link("open-message", &target)
}

/// The action and the payload of a link; nothing for a text that is no such link or whose payload
/// is malformed.
pub fn parse(uri: &str) -> (r: Option<(String, String)>)
    ensures
        match r {
            Some((action, payload)) => {
                &&& link_parts(uri@) matches Some((a, data))
                &&& well_escaped(encode_utf8(data))
                &&& action@ == a
                &&& payload@ == decoded(data)
                &&& valid_utf8(decoded_bytes(encode_utf8(data))) ==> payload@ == decode_utf8(
                    decoded_bytes(encode_utf8(data)),
                )
            },
            None => link_parts(uri@) matches Some((_, data)) ==> !well_escaped(encode_utf8(data)),
        },
{
    let after_scheme = match strip_prefix(uri, SCHEME) {
        Some(t) => t,
        None => return None,
    };
    let rest = match strip_prefix(after_scheme, ":") {
        Some(t) => t,
        None => return None,
    };
    let (action, query) = match split_once(rest, '?') {
        Some(parts) => parts,
        None => return None,
    };
    let data = match strip_prefix(query, "data=") {
        Some(t) => t,
        None => return None,
    };
    if action.is_empty() || !is_well_escaped(data) {
        return None;
    }
    Some((action.to_owned(), percent_decode(data)))
}

/// The message that the target of an `open-message` action names.
pub open spec fn target_message(target: Seq<char>) -> Option<(u32, Seq<char>)> {
    match cut_once(target, ':') {
        None => None,
        Some((uid, mailbox)) => match u32_of(uid) {
            None => None,
            Some(n) => Some((n, mailbox)),
        },
    }
}

/// Reads the target of an `open-message` action: the number before the first colon and the mailbox
/// after it. A malformed target gives nothing.
pub fn parse_message_target(target: &str) -> (r: Option<(u32, String)>)
    ensures
        match r {
            Some((uid, mailbox)) => target_message(target@) == Some((uid, mailbox@)),
            None => target_message(target@) is None,
        },
{
    match split_once(target, ':') {
        None => None,
        Some((uid, mailbox)) => match parse_u32(uid) {
            None => None,
            Some(n) => Some((n, mailbox.to_owned())),
        },
    }
}

proof fn lemma_encoded_bytes_ascii(b: Seq<u8>)
    ensures
        vstd::utf8::is_ascii_chars(encoded_bytes(b)),
    decreases b.len(),
{
    if b.len() > 0 {
        lemma_encoded_bytes_ascii(b.skip(1));
        let s = encoded_bytes(b);
        let head = encoded_byte(b[0]);
        let tail = encoded_bytes(b.skip(1));
        assert forall|i: int| 0 <= i < s.len() implies 0 <= (#[trigger] s[i] as nat) < 128 by {
            if i < head.len() {
                assert(s[i] == head[i]);
            } else {
                assert(s[i] == tail[i - head.len()]);
            }
        }
    }
}

/// Encoded bytes as bytes.
spec fn as_bytes(s: Seq<char>) -> Seq<u8> {
    Seq::new(s.len(), |i: int| s[i] as u8)
}

proof fn lemma_decode_of_encoded_bytes(b: Seq<u8>)
    ensures
        decoded_bytes(as_bytes(encoded_bytes(b))) == b,
    decreases b.len(),
{
    let s = encoded_bytes(b);
    let e = as_bytes(s);
    if b.len() == 0 {
        assert(decoded_bytes(e) =~= b);
    } else {
        let t = b.skip(1);
        lemma_decode_of_encoded_bytes(t);
        let tail = as_bytes(encoded_bytes(t));
        let x = b[0];
        if unreserved(x) {
            assert(s[0] == x as char);
            assert(e[0] == x);
            assert(e.skip(1) =~= tail);
            assert(x != 0x25);
            assert(decoded_bytes(e) =~= seq![x] + t);
        } else {
            assert(s[0] == '%' && s[1] == hex_digit(x as int / 16) && s[2] == hex_digit(x as int % 16));
            assert(e[0] == 0x25);
            assert(hex_value(e[1]) == Some((x / 16) as u8));
            assert(hex_value(e[2]) == Some((x % 16) as u8));
            assert(read_value(e[1], e[2]) == Some(x));
            assert(e.skip(3) =~= tail);
            assert(decoded_bytes(e) =~= seq![x] + t);
        }
        assert(seq![x] + t =~= b);
    }
}

proof fn lemma_encoded_bytes_escaped(b: Seq<u8>)
    ensures
        well_escaped(as_bytes(encoded_bytes(b))),
    decreases b.len(),
{
    if b.len() > 0 {
        let t = b.skip(1);
        lemma_encoded_bytes_escaped(t);
        let e = as_bytes(encoded_bytes(b));
        let tail = as_bytes(encoded_bytes(t));
        let x = b[0];
        let n = encoded_byte(x).len() as int;
        assert(e.skip(n) =~= tail);
        assert forall|i: int| 0 <= i < e.len() && #[trigger] e[i] == 0x25 implies i + 2 < e.len() && escape_value(
            e[i + 1],
            e[i + 2],
        ) is Some by {
            if i >= n {
                assert(tail[i - n] == e[i]);
                assert(tail[i - n + 1] == e[i + 1]);
                assert(tail[i - n + 2] == e[i + 2]);
            } else if unreserved(x) {
                assert(encoded_bytes(b)[0] == x as char);
                assert(e[0] == x);
            } else {
                let s = encoded_bytes(b);
                assert(s[0] == '%' && s[1] == hex_digit(x as int / 16) && s[2] == hex_digit(x as int % 16));
                assert(hex_value(e[1]) == Some((x / 16) as u8));
                assert(hex_value(e[2]) == Some((x % 16) as u8));
                assert(e[1] != 0x25 && e[2] != 0x25);
            }
        }
    }
}

/// What is encoded is well-formed, and reading it back gives the same bytes.
pub proof fn lemma_encoded_reads_back(s: Seq<char>)
    ensures
        well_escaped(encode_utf8(encoded(s))),
        decoded_bytes(encode_utf8(encoded(s))) == encode_utf8(s),
        valid_utf8(decoded_bytes(encode_utf8(encoded(s)))),
        decode_utf8(decoded_bytes(encode_utf8(encoded(s)))) == s,
{
    let b = encode_utf8(s);
    lemma_encoded_bytes_ascii(b);
    vstd::utf8::is_ascii_chars_encode_utf8(encoded(s));
    assert(encode_utf8(encoded(s)) =~= as_bytes(encoded(s)));
    lemma_decode_of_encoded_bytes(b);
    vstd::utf8::encode_utf8_valid_utf8(s);
    vstd::utf8::encode_utf8_decode_utf8(s);
    lemma_encoded_bytes_escaped(b);
}

/// The parts of a link that was built for an action without `?` are that action and the encoded
/// payload.
pub proof fn lemma_link_parts_of_link(action: Seq<char>, payload: Seq<char>)
    requires
        action.len() > 0,
        !action.contains('?'),
    ensures
        link_parts(link(action, payload)) == Some((action, encoded(payload))),
{
    reveal_strlit(":");
    reveal_strlit("?data=");
    reveal_strlit("data=");
    let uri = link(action, payload);
    let data = encoded(payload);
    let after_scheme = ":"@ + action + "?data="@ + data;
    assert(uri.take(SCHEME@.len() as int) =~= SCHEME@);
    assert(uri.skip(SCHEME@.len() as int) =~= after_scheme);
    let rest = action + "?data="@ + data;
    assert(after_scheme.take(1) =~= ":"@);
    assert(after_scheme.skip(1) =~= rest);
    let query = "data="@ + data;
    assert(rest =~= action.push('?') + query);
    lemma_cut_once_of_joined(action, '?', query);
    assert(query.take(5) =~= "data="@);
    assert(query.skip(5) =~= data);
}

/// Reading a link gives back what it was built from: for an action without `?`, parsing the link
/// yields that action and that payload.
pub proof fn lemma_parse_reads_back(action: Seq<char>, payload: Seq<char>)
    requires
        action.len() > 0,
        !action.contains('?'),
    ensures
        link_parts(link(action, payload)) matches Some((a, data)) && a == action && well_escaped(
            encode_utf8(data),
        ) && valid_utf8(decoded_bytes(encode_utf8(data))) && decode_utf8(
            decoded_bytes(encode_utf8(data)),
        ) == payload,
{
    lemma_link_parts_of_link(action, payload);
    lemma_encoded_reads_back(payload);
}

/// Cutting a message target at its first colon recovers the number and the mailbox, whatever
/// colons the mailbox itself holds.
pub proof fn lemma_message_target_reads_back(mailbox: Seq<char>, uid: u32)
    ensures
        target_message(message_target(mailbox, uid)) == Some((uid, mailbox)),
{
    let d = decimal(uid as nat);
    lemma_decimal_reads_back(uid as nat);
    assert(!d.contains(':')) by {
        if d.contains(':') {
            let i = choose|i: int| 0 <= i < d.len() && d[i] == ':';
            assert(is_digit(d[i]));
        }
    }
    lemma_cut_once_of_joined(d, ':', mailbox);
    assert(is_digit(d[0]));
    assert(number_digits(d) == d);
}

} // verus!
