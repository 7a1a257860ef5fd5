//! Wire codec for the tagged-array message schema.  Every message is one
//! text frame holding an array: a tag string first, then the payload if
//! the tag carries one.  Encoding is canonical (no whitespace, fields in
//! declaration order); decoding accepts whitespace between tokens and the
//! standard string escapes, and fails all-or-nothing.

use vstd::prelude::*;
use vstd::string::StrSliceExecFns;

use crate::api::{
    spec_egress_field, spec_ingress_field, spec_playback_field, Clock, EgressMessage,
    EgressMessageField, EgressView, EnqueueItem, IngressMessage, IngressMessageField, IngressView,
    Join, Part, PlayItem, PlaybackMessage, PlaybackMessageField, PlaybackView, RegisterMessage,
    Skip, StatusMessage, UserMessage,
};
use crate::users::UserId;

verus! {

/// Decoding failed: the frame is not a well-formed message of the schema.
/// The connection that sent it is terminated by the caller.
#[derive(Debug, Clone, Copy, PartialEq, Eq, Structural)]
pub struct ProtocolError;

/// The decimal digit character for one digit value.
pub open spec fn dec_digit(n: u64) -> char {
    if n == 0 {
        '0'
    } else if n == 1 {
        '1'
    } else if n == 2 {
        '2'
    } else if n == 3 {
        '3'
    } else if n == 4 {
        '4'
    } else if n == 5 {
        '5'
    } else if n == 6 {
        '6'
    } else if n == 7 {
        '7'
    } else if n == 8 {
        '8'
    } else {
        '9'
    }
}

/// The decimal digits of a number, most significant first, no sign and no
/// leading zero.
pub open spec fn dec_digits(n: u64) -> Seq<char>
    decreases n,
{
    if n < 10 {
        seq![dec_digit(n)]
    } else {
        dec_digits((n / 10) as u64).push(dec_digit((n % 10) as u64))
    }
}

/// The lowercase hex digit character for one digit value.
pub open spec fn hex_digit(n: u32) -> char {
    if n == 0 {
        '0'
    } else if n == 1 {
        '1'
    } else if n == 2 {
        '2'
    } else if n == 3 {
        '3'
    } else if n == 4 {
        '4'
    } else if n == 5 {
        '5'
    } else if n == 6 {
        '6'
    } else if n == 7 {
        '7'
    } else if n == 8 {
        '8'
    } else if n == 9 {
        '9'
    } else if n == 10 {
        'a'
    } else if n == 11 {
        'b'
    } else if n == 12 {
        'c'
    } else if n == 13 {
        'd'
    } else if n == 14 {
        'e'
    } else {
        'f'
    }
}

/// How one character is written inside a string literal: quote, backslash
/// and the named control characters get a two-character escape, the other
/// control characters a four-digit escape, everything else stands as is.
pub open spec fn esc_char(c: char) -> Seq<char> {
    if c == '"' {
        seq!['\\', '"']
    } else if c == '\\' {
        seq!['\\', '\\']
    } else if c == '\u{8}' {
        seq!['\\', 'b']
    } else if c == '\u{c}' {
        seq!['\\', 'f']
    } else if c == '\n' {
        seq!['\\', 'n']
    } else if c == '\r' {
        seq!['\\', 'r']
    } else if c == '\t' {
        seq!['\\', 't']
    } else if (c as u32) < 32 {
        seq!['\\', 'u', '0', '0', hex_digit((c as u32) / 16), hex_digit((c as u32) % 16)]
    } else {
        seq![c]
    }
}

/// A whole string body, escaped.
pub open spec fn esc_seq(s: Seq<char>) -> Seq<char>
    decreases s.len(),
{
    if s.len() == 0 {
        Seq::empty()
    } else {
        esc_char(s[0]) + esc_seq(s.drop_first())
    }
}

/// A string literal of the wire format: quoted and escaped.
pub open spec fn quoted(s: Seq<char>) -> Seq<char> {
    seq!['"'] + esc_seq(s) + seq!['"']
}

/// The canonical text of a playback event.
pub open spec fn playback_text(m: PlaybackView) -> Seq<char> {
    match m {
        PlaybackView::EnqueueItem { when, uid, yid } => "[\"enqueue_item\",{\"when\":"@
            + dec_digits(when) + ",\"uid\":"@ + dec_digits(uid.0) + ",\"yid\":"@ + quoted(yid)
            + "}]"@,
        PlaybackView::PlayItem { when, uid, yid } => "[\"play_item\",{\"when\":"@ + dec_digits(
            when,
        ) + ",\"uid\":"@ + dec_digits(uid.0) + ",\"yid\":"@ + quoted(yid) + "}]"@,
        PlaybackView::Skip { uid } => "[\"skip\",{\"uid\":"@ + dec_digits(uid.0) + "}]"@,
    }
}

/// The canonical text of an egress event.
pub open spec fn egress_text(m: EgressView) -> Seq<char> {
    match m {
        EgressView::Clock { when } => "[\"clock\",{\"when\":"@ + dec_digits(when) + "}]"@,
        EgressView::Join { when, uid, nick } => "[\"join\",{\"when\":"@ + dec_digits(when)
            + ",\"uid\":"@ + dec_digits(uid.0) + ",\"nick\":"@ + quoted(nick) + "}]"@,
        EgressView::Part { when, uid } => "[\"part\",{\"when\":"@ + dec_digits(when) + ",\"uid\":"@
            + dec_digits(uid.0) + "}]"@,
        EgressView::StatusMessage { when, body } => "[\"status_message\",{\"when\":"@ + dec_digits(
            when,
        ) + ",\"body\":"@ + quoted(body) + "}]"@,
        EgressView::UserMessage { when, uid, body } => "[\"user_message\",{\"when\":"@
            + dec_digits(when) + ",\"uid\":"@ + dec_digits(uid.0) + ",\"body\":"@ + quoted(body)
            + "}]"@,
        EgressView::PlaybackMessage(p) => "[\"playback_message\","@ + playback_text(p) + "]"@,
    }
}

/// The canonical text of an ingress event.
pub open spec fn ingress_text(m: IngressView) -> Seq<char> {
    match m {
        IngressView::Register { nick } => "[\"register\",{\"nick\":"@ + quoted(nick) + "}]"@,
        IngressView::Disconnect => "[\"disconnect\"]"@,
        IngressView::Skip => "[\"skip\"]"@,
        IngressView::Part => "[\"part\"]"@,
        IngressView::DjQueue => "[\"dj_queue\"]"@,
        IngressView::DjUnqueue => "[\"dj_unqueue\"]"@,
        IngressView::Message(body) => "[\"message\","@ + quoted(body) + "]"@,
    }
}

/// Whitespace between tokens.
pub open spec fn is_ws(c: char) -> bool {
    c == ' ' || c == '\t' || c == '\n' || c == '\r'
}

/// The input with its leading whitespace removed.
pub open spec fn skip_ws(s: Seq<char>) -> Seq<char>
    decreases s.len(),
{
    if s.len() > 0 && is_ws(s[0]) {
        skip_ws(s.drop_first())
    } else {
        s
    }
}

/// The value of one hex digit, either case.
pub open spec fn hex_val(c: char) -> Option<u32> {
    let u = c as u32;
    if 48 <= u && u <= 57 {
        Option::Some((u - 48) as u32)
    } else if 97 <= u && u <= 102 {
        Option::Some((u - 87) as u32)
    } else if 65 <= u && u <= 70 {
        Option::Some((u - 55) as u32)
    } else {
        Option::None
    }
}

/// The value of a four-digit hex escape.
pub open spec fn hex4(a: char, b: char, c: char, d: char) -> Option<u32> {
    match (hex_val(a), hex_val(b), hex_val(c), hex_val(d)) {
        (Option::Some(x), Option::Some(y), Option::Some(z), Option::Some(w)) => Option::Some(
            (x * 4096 + y * 256 + z * 16 + w) as u32,
        ),
        _ => Option::None,
    }
}

/// The character a two-character escape denotes, if the second character
/// is a recognized escape name.
pub open spec fn esc_code(e: char) -> Option<char> {
    if e == '"' {
        Option::Some('"')
    } else if e == '\\' {
        Option::Some('\\')
    } else if e == '/' {
        Option::Some('/')
    } else if e == 'b' {
        Option::Some('\u{8}')
    } else if e == 'f' {
        Option::Some('\u{c}')
    } else if e == 'n' {
        Option::Some('\n')
    } else if e == 'r' {
        Option::Some('\r')
    } else if e == 't' {
        Option::Some('\t')
    } else {
        Option::None
    }
}

/// The supplementary-plane character a surrogate pair denotes.
pub open spec fn pair_char(hi: u32, lo: u32) -> char {
    (((0x10000 + (hi - 0xD800) * 0x400 + (lo - 0xDC00)) as u32) as char)
}

/// Parses a string body after its opening quote: the decoded content and
/// the input after the closing quote.  Unescaped control characters, bad
/// escapes, lone surrogates and a missing closing quote fail.
pub open spec fn parse_string_tail(s: Seq<char>) -> Result<(Seq<char>, Seq<char>), ProtocolError>
    decreases s.len(),
{
    if s.len() == 0 {
        Err(ProtocolError)
    } else if s[0] == '"' {
        Ok((Seq::empty(), s.drop_first()))
    } else if s[0] == '\\' {
        if s.len() < 2 {
            Err(ProtocolError)
        } else if s[1] == 'u' {
            if s.len() < 6 {
                Err(ProtocolError)
            } else {
                match hex4(s[2], s[3], s[4], s[5]) {
                    Option::None => Err(ProtocolError),
                    Option::Some(code) => if code < 0xD800 || code > 0xDFFF {
                        match parse_string_tail(s.skip(6)) {
                            Ok((t, r)) => Ok((seq![(code as char)] + t, r)),
                            Err(e) => Err(e),
                        }
                    } else if code < 0xDC00 {
                        if s.len() < 12 || s[6] != '\\' || s[7] != 'u' {
                            Err(ProtocolError)
                        } else {
                            match hex4(s[8], s[9], s[10], s[11]) {
                                Option::None => Err(ProtocolError),
                                Option::Some(lo) => if 0xDC00 <= lo && lo <= 0xDFFF {
                                    match parse_string_tail(s.skip(12)) {
                                        Ok((t, r)) => Ok((seq![pair_char(code, lo)] + t, r)),
                                        Err(e) => Err(e),
                                    }
                                } else {
                                    Err(ProtocolError)
                                },
                            }
                        }
                    } else {
                        Err(ProtocolError)
                    },
                }
            }
        } else {
            match esc_code(s[1]) {
                Option::None => Err(ProtocolError),
                Option::Some(c) => match parse_string_tail(s.skip(2)) {
                    Ok((t, r)) => Ok((seq![c] + t, r)),
                    Err(e) => Err(e),
                },
            }
        }
    } else if (s[0] as u32) < 32 {
        Err(ProtocolError)
    } else {
        match parse_string_tail(s.drop_first()) {
            Ok((t, r)) => Ok((seq![s[0]] + t, r)),
            Err(e) => Err(e),
        }
    }
}

/// A decimal digit.
pub open spec fn is_digit(c: char) -> bool {
    48 <= (c as u32) && (c as u32) <= 57
}

/// The value of a decimal digit character.
pub open spec fn digit_val(c: char) -> int {
    (c as u32) - 48
}

/// The length of the leading run of digits.
pub open spec fn digits_len(s: Seq<char>) -> int
    decreases s.len(),
{
    if s.len() > 0 && is_digit(s[0]) {
        1 + digits_len(s.drop_first())
    } else {
        0
    }
}

/// The value of a digit run, folded onto an accumulator from the left.
pub open spec fn digits_acc(s: Seq<char>, acc: int) -> int
    decreases s.len(),
{
    if s.len() == 0 {
        acc
    } else {
        digits_acc(s.drop_first(), acc * 10 + digit_val(s[0]))
    }
}

/// Parses an unsigned decimal number: no sign, no leading zero, no
/// fraction or exponent, and it must fit the field's width.
pub open spec fn parse_u64(s: Seq<char>) -> Result<(u64, Seq<char>), ProtocolError> {
    let n = digits_len(s);
    if n == 0 {
        Err(ProtocolError)
    } else if n > 1 && s[0] == '0' {
        Err(ProtocolError)
    } else {
        let v = digits_acc(s.take(n), 0);
        if v > u64::MAX {
            Err(ProtocolError)
        } else {
            Ok(((v as u64), s.skip(n)))
        }
    }
}

/// Skips whitespace, then consumes one expected punctuation character.
pub open spec fn expect_tok(s: Seq<char>, c: char) -> Result<Seq<char>, ProtocolError> {
    let t = skip_ws(s);
    if t.len() > 0 && t[0] == c {
        Ok(t.drop_first())
    } else {
        Err(ProtocolError)
    }
}

/// Nothing but whitespace remains.
pub open spec fn at_end(s: Seq<char>) -> bool {
    skip_ws(s).len() == 0
}

/// The closing bracket of the outer array, then the end of the frame:
/// anything further is a trailing element and fails the decode.
pub open spec fn close_end(s: Seq<char>) -> bool {
    match expect_tok(s, ']') {
        Ok(r) => at_end(r),
        Err(_) => false,
    }
}

/// Skips whitespace, then parses a string literal.
pub open spec fn parse_string_val(s: Seq<char>) -> Result<(Seq<char>, Seq<char>), ProtocolError> {
    match expect_tok(s, '"') {
        Ok(r) => parse_string_tail(r),
        Err(e) => Err(e),
    }
}

/// Parses one expected object key and its colon.
pub open spec fn parse_key(s: Seq<char>, key: Seq<char>) -> Result<Seq<char>, ProtocolError> {
    match parse_string_val(s) {
        Ok((k, r)) => if k == key {
            expect_tok(r, ':')
        } else {
            Err(ProtocolError)
        },
        Err(e) => Err(e),
    }
}

/// Parses one `"key": number` member.
pub open spec fn parse_u64_field(s: Seq<char>, key: Seq<char>) -> Result<(u64, Seq<char>),
    ProtocolError,
> {
    match parse_key(s, key) {
        Ok(r) => parse_u64(skip_ws(r)),
        Err(e) => Err(e),
    }
}

/// Parses one `"key": string` member.
pub open spec fn parse_string_field(s: Seq<char>, key: Seq<char>) -> Result<(Seq<char>, Seq<char>),
    ProtocolError,
> {
    match parse_key(s, key) {
        Ok(r) => parse_string_val(r),
        Err(e) => Err(e),
    }
}

/// Parses a whole ingress frame: the outer array, a recognized tag, the
/// payload shape that tag requires, and nothing after it.
pub open spec fn parse_ingress(s: Seq<char>) -> Result<IngressView, ProtocolError> {
    match expect_tok(s, '[') {
        Err(e) => Err(e),
        Ok(r0) => match parse_string_val(r0) {
            Err(e) => Err(e),
            Ok((tag, r1)) => match spec_ingress_field(tag) {
                Err(_) => Err(ProtocolError),
                Ok(IngressMessageField::Register) => match expect_tok(r1, ',') {
                    Err(e) => Err(e),
                    Ok(r2) => match expect_tok(r2, '{') {
                        Err(e) => Err(e),
                        Ok(r3) => match parse_string_field(r3, "nick"@) {
                            Err(e) => Err(e),
                            Ok((nick, r4)) => match expect_tok(r4, '}') {
                                Err(e) => Err(e),
                                Ok(r5) => if close_end(r5) {
                                    Ok(IngressView::Register { nick })
                                } else {
                                    Err(ProtocolError)
                                },
                            },
                        },
                    },
                },
                Ok(IngressMessageField::Message) => match expect_tok(r1, ',') {
                    Err(e) => Err(e),
                    Ok(r2) => match parse_string_val(r2) {
                        Err(e) => Err(e),
                        Ok((body, r3)) => if close_end(r3) {
                            Ok(IngressView::Message(body))
                        } else {
                            Err(ProtocolError)
                        },
                    },
                },
                Ok(IngressMessageField::Disconnect) => if close_end(r1) {
                    Ok(IngressView::Disconnect)
                } else {
                    Err(ProtocolError)
                },
                Ok(IngressMessageField::Skip) => if close_end(r1) {
                    Ok(IngressView::Skip)
                } else {
                    Err(ProtocolError)
                },
                Ok(IngressMessageField::Part) => if close_end(r1) {
                    Ok(IngressView::Part)
                } else {
                    Err(ProtocolError)
                },
                Ok(IngressMessageField::DjQueue) => if close_end(r1) {
                    Ok(IngressView::DjQueue)
                } else {
                    Err(ProtocolError)
                },
                Ok(IngressMessageField::DjUnqueue) => if close_end(r1) {
                    Ok(IngressView::DjUnqueue)
                } else {
                    Err(ProtocolError)
                },
            },
        },
    }
}

/// Parses the opening of a payload object up to its `uid` member:
/// `, { "when": n, "uid": n`.
pub open spec fn parse_when_uid(s: Seq<char>) -> Result<((u64, u64), Seq<char>), ProtocolError> {
    match expect_tok(s, ',') {
        Err(e) => Err(e),
        Ok(r0) => match expect_tok(r0, '{') {
            Err(e) => Err(e),
            Ok(r1) => match parse_u64_field(r1, "when"@) {
                Err(e) => Err(e),
                Ok((w, r2)) => match expect_tok(r2, ',') {
                    Err(e) => Err(e),
                    Ok(r3) => match parse_u64_field(r3, "uid"@) {
                        Err(e) => Err(e),
                        Ok((u, r4)) => Ok(((w, u), r4)),
                    },
                },
            },
        },
    }
}

/// Parses a track payload and the closing of the nested array:
/// `, { "when": n, "uid": n, "yid": s } ]`.
pub open spec fn parse_track_payload(s: Seq<char>) -> Result<((u64, u64, Seq<char>), Seq<char>),
    ProtocolError,
> {
    match parse_when_uid(s) {
        Err(e) => Err(e),
        Ok(((w, u), r0)) => match expect_tok(r0, ',') {
            Err(e) => Err(e),
            Ok(r1) => match parse_string_field(r1, "yid"@) {
                Err(e) => Err(e),
                Ok((y, r2)) => match expect_tok(r2, '}') {
                    Err(e) => Err(e),
                    Ok(r3) => match expect_tok(r3, ']') {
                        Err(e) => Err(e),
                        Ok(r4) => Ok(((w, u, y), r4)),
                    },
                },
            },
        },
    }
}

/// Parses the nested playback array: its tag and the payload that tag
/// requires.
pub open spec fn parse_playback(s: Seq<char>) -> Result<(PlaybackView, Seq<char>), ProtocolError> {
    match expect_tok(s, '[') {
        Err(e) => Err(e),
        Ok(r0) => match parse_string_val(r0) {
            Err(e) => Err(e),
            Ok((tag, r1)) => match spec_playback_field(tag) {
                Err(_) => Err(ProtocolError),
                Ok(PlaybackMessageField::EnqueueItem) => match parse_track_payload(r1) {
                    Err(e) => Err(e),
                    Ok(((w, u, y), r)) => Ok(
                        (PlaybackView::EnqueueItem { when: w, uid: UserId(u), yid: y }, r),
                    ),
                },
                Ok(PlaybackMessageField::PlayItem) => match parse_track_payload(r1) {
                    Err(e) => Err(e),
                    Ok(((w, u, y), r)) => Ok(
                        (PlaybackView::PlayItem { when: w, uid: UserId(u), yid: y }, r),
                    ),
                },
                Ok(PlaybackMessageField::Skip) => match expect_tok(r1, ',') {
                    Err(e) => Err(e),
                    Ok(r2) => match expect_tok(r2, '{') {
                        Err(e) => Err(e),
                        Ok(r3) => match parse_u64_field(r3, "uid"@) {
                            Err(e) => Err(e),
                            Ok((u, r4)) => match expect_tok(r4, '}') {
                                Err(e) => Err(e),
                                Ok(r5) => match expect_tok(r5, ']') {
                                    Err(e) => Err(e),
                                    Ok(r6) => Ok((PlaybackView::Skip { uid: UserId(u) }, r6)),
                                },
                            },
                        },
                    },
                },
            },
        },
    }
}

/// Parses a whole egress frame: the outer array, a recognized tag, the
/// payload shape that tag requires, and nothing after it.
pub open spec fn parse_egress(s: Seq<char>) -> Result<EgressView, ProtocolError> {
    match expect_tok(s, '[') {
        Err(e) => Err(e),
        Ok(r0) => match parse_string_val(r0) {
            Err(e) => Err(e),
            Ok((tag, r1)) => match spec_egress_field(tag) {
                Err(_) => Err(ProtocolError),
                Ok(EgressMessageField::Clock) => match expect_tok(r1, ',') {
                    Err(e) => Err(e),
                    Ok(r2) => match expect_tok(r2, '{') {
                        Err(e) => Err(e),
                        Ok(r3) => match parse_u64_field(r3, "when"@) {
                            Err(e) => Err(e),
                            Ok((w, r4)) => match expect_tok(r4, '}') {
                                Err(e) => Err(e),
                                Ok(r5) => if close_end(r5) {
                                    Ok(EgressView::Clock { when: w })
                                } else {
                                    Err(ProtocolError)
                                },
                            },
                        },
                    },
                },
                Ok(EgressMessageField::Join) => match parse_when_uid(r1) {
                    Err(e) => Err(e),
                    Ok(((w, u), r2)) => match expect_tok(r2, ',') {
                        Err(e) => Err(e),
                        Ok(r3) => match parse_string_field(r3, "nick"@) {
                            Err(e) => Err(e),
                            Ok((nick, r4)) => match expect_tok(r4, '}') {
                                Err(e) => Err(e),
                                Ok(r5) => if close_end(r5) {
                                    Ok(EgressView::Join { when: w, uid: UserId(u), nick })
                                } else {
                                    Err(ProtocolError)
                                },
                            },
                        },
                    },
                },
                Ok(EgressMessageField::Part) => match parse_when_uid(r1) {
                    Err(e) => Err(e),
                    Ok(((w, u), r2)) => match expect_tok(r2, '}') {
                        Err(e) => Err(e),
                        Ok(r3) => if close_end(r3) {
                            Ok(EgressView::Part { when: w, uid: UserId(u) })
                        } else {
                            Err(ProtocolError)
                        },
                    },
                },
                Ok(EgressMessageField::StatusMessage) => match expect_tok(r1, ',') {
                    Err(e) => Err(e),
                    Ok(r2) => match expect_tok(r2, '{') {
                        Err(e) => Err(e),
                        Ok(r3) => match parse_u64_field(r3, "when"@) {
                            Err(e) => Err(e),
                            Ok((w, r4)) => match expect_tok(r4, ',') {
                                Err(e) => Err(e),
                                Ok(r5) => match parse_string_field(r5, "body"@) {
                                    Err(e) => Err(e),
                                    Ok((body, r6)) => match expect_tok(r6, '}') {
                                        Err(e) => Err(e),
                                        Ok(r7) => if close_end(r7) {
                                            Ok(EgressView::StatusMessage { when: w, body })
                                        } else {
                                            Err(ProtocolError)
                                        },
                                    },
                                },
                            },
                        },
                    },
                },
                Ok(EgressMessageField::UserMessage) => match parse_when_uid(r1) {
                    Err(e) => Err(e),
                    Ok(((w, u), r2)) => match expect_tok(r2, ',') {
                        Err(e) => Err(e),
                        Ok(r3) => match parse_string_field(r3, "body"@) {
                            Err(e) => Err(e),
                            Ok((body, r4)) => match expect_tok(r4, '}') {
                                Err(e) => Err(e),
                                Ok(r5) => if close_end(r5) {
                                    Ok(EgressView::UserMessage { when: w, uid: UserId(u), body })
                                } else {
                                    Err(ProtocolError)
                                },
                            },
                        },
                    },
                },
                Ok(EgressMessageField::PlaybackMessage) => match expect_tok(r1, ',') {
                    Err(e) => Err(e),
                    Ok(r2) => match parse_playback(r2) {
                        Err(e) => Err(e),
                        Ok((p, r3)) => if close_end(r3) {
                            Ok(EgressView::PlaybackMessage(p))
                        } else {
                            Err(ProtocolError)
                        },
                    },
                },
            },
        },
    }
}

/// Relies on `Iterator::collect` for `String`: the collected string holds
/// exactly the iterated characters, in order.
#[verifier::external_body]
fn chars_to_string(v: &Vec<char>) -> (r: String)
    ensures
        r@ == v@,
{
    v.iter().collect()
}

/// Relies on `char::from_u32`: `Some` exactly for Unicode scalar values
/// (not a surrogate, at most 0x10FFFF), and the returned character has the
/// given code point.
#[verifier::external_body]
fn char_from_u32(u: u32) -> (r: Option<char>)
    ensures
        r matches Some(c) ==> c as u32 == u,
        r is Some <==> (u < 0xD800 || (0xE000 <= u && u <= 0x10FFFF)),
{
    char::from_u32(u)
}

/// The characters of a string slice, in order.
fn str_to_chars(s: &str) -> (v: Vec<char>)
    ensures
        v@ == s@,
{
    let n = s.unicode_len();
    let mut v: Vec<char> = Vec::new();
    let mut i: usize = 0;
    while i < n
        invariant
            i <= n,
            n == s@.len(),
            v@ == s@.take(i as int),
        decreases n - i,
    {
        v.push(s.get_char(i));
        proof {
            assert(s@.take(i + 1) =~= s@.take(i as int).push(s@[i as int]));
        }
        i = i + 1;
    }
    proof {
        assert(s@.take(n as int) =~= s@);
    }
    v
}

/// Whether the buffered characters spell exactly the given string.
fn vec_eq_str(v: &Vec<char>, s: &str) -> (r: bool)
    ensures
        r == (v@ == s@),
{
    let n = s.unicode_len();
    if v.len() != n {
        return false;
    }
    let mut i: usize = 0;
    while i < n
        invariant
            i <= n,
            n == s@.len(),
            n == v@.len(),
            forall|k: int| 0 <= k < i ==> v@[k] == s@[k],
        decreases n - i,
    {
        if v[i] != s.get_char(i) {
            return false;
        }
        i = i + 1;
    }
    proof {
        assert(v@ =~= s@);
    }
    true
}

/// A suffix of a suffix, as one suffix.
proof fn lemma_skip_skip(s: Seq<char>, i: int, j: int)
    requires
        0 <= i,
        0 <= j,
        i + j <= s.len(),
    ensures
        s.skip(i).skip(j) =~= s.skip(i + j),
{
}

/// Scans past whitespace.
fn scan_ws(v: &Vec<char>, i: usize) -> (j: usize)
    requires
        i <= v@.len(),
    ensures
        i <= j <= v@.len(),
        v@.skip(j as int) == skip_ws(v@.skip(i as int)),
{
    let mut j = i;
    while j < v.len() && (v[j] == ' ' || v[j] == '\t' || v[j] == '\n' || v[j] == '\r')
        invariant
            i <= j <= v@.len(),
            skip_ws(v@.skip(i as int)) == skip_ws(v@.skip(j as int)),
        decreases v@.len() - j,
    {
        proof {
            assert(v@.skip(j as int)[0] == v@[j as int]);
            assert(v@.skip(j as int).drop_first() =~= v@.skip(j + 1));
        }
        j = j + 1;
    }
    proof {
        if j < v.len() {
            assert(v@.skip(j as int)[0] == v@[j as int]);
            assert(!is_ws(v@.skip(j as int)[0]));
        }
    }
    j
}

/// Scans one expected punctuation character after whitespace.
fn scan_expect(v: &Vec<char>, i: usize, c: char) -> (r: Result<usize, ProtocolError>)
    requires
        i <= v@.len(),
    ensures
        match r {
            Ok(j) => j <= v@.len() && (expect_tok(v@.skip(i as int), c) matches Ok(rest)
                && v@.skip(j as int) == rest),
            Err(_) => expect_tok(v@.skip(i as int), c) is Err,
        },
{
    let j = scan_ws(v, i);
    if j < v.len() && v[j] == c {
        proof {
            assert(v@.skip(j as int)[0] == v@[j as int]);
            assert(v@.skip(j as int).drop_first() =~= v@.skip(j + 1));
        }
        Ok(j + 1)
    } else {
        proof {
            if j < v.len() {
                assert(v@.skip(j as int)[0] == v@[j as int]);
            }
        }
        Err(ProtocolError)
    }
}

/// Whether only whitespace remains.
fn scan_at_end(v: &Vec<char>, i: usize) -> (r: bool)
    requires
        i <= v@.len(),
    ensures
        r == at_end(v@.skip(i as int)),
{
    let j = scan_ws(v, i);
    j == v.len()
}

/// Scans the closing bracket of the outer array and the end of the frame.
fn scan_close_end(v: &Vec<char>, i: usize) -> (r: bool)
    requires
        i <= v@.len(),
    ensures
        r == close_end(v@.skip(i as int)),
{
    match scan_expect(v, i, ']') {
        Ok(j) => scan_at_end(v, j),
        Err(_) => false,
    }
}

/// The value of one hex digit character, executable form.
fn hex_val_exec(c: char) -> (r: Option<u32>)
    ensures
        r == hex_val(c),
{
    let u = c as u32;
    if 48 <= u && u <= 57 {
        Some(u - 48)
    } else if 97 <= u && u <= 102 {
        Some(u - 87)
    } else if 65 <= u && u <= 70 {
        Some(u - 55)
    } else {
        None
    }
}

/// Scans four hex digits.
fn scan_hex4(v: &Vec<char>, i: usize) -> (r: Option<u32>)
    requires
        i + 4 <= v@.len(),
    ensures
        r == hex4(v@[i as int], v@[i as int + 1], v@[i as int + 2], v@[i as int + 3]),
        r matches Some(u) ==> u < 0x10000,
{
    let _bound = v.len();
    let a = hex_val_exec(v[i]);
    let b = hex_val_exec(v[i + 1]);
    let c = hex_val_exec(v[i + 2]);
    let d = hex_val_exec(v[i + 3]);
    match (a, b, c, d) {
        (Some(x), Some(y), Some(z), Some(w)) => Some(x * 4096 + y * 256 + z * 16 + w),
        _ => None,
    }
}

/// Scans a string body after its opening quote, decoding escapes.
#[verifier::rlimit(100)]
fn scan_string_tail(v: &Vec<char>, i: usize) -> (r: Result<(Vec<char>, usize), ProtocolError>)
    requires
        i <= v@.len(),
    ensures
        match r {
            Ok((content, j)) => j <= v@.len() && (parse_string_tail(v@.skip(i as int)) matches Ok(
                (t, rest),
            ) && content@ == t && v@.skip(j as int) == rest),
            Err(_) => parse_string_tail(v@.skip(i as int)) is Err,
        },
{
    let mut acc: Vec<char> = Vec::new();
    let mut cur = i;
    loop
        invariant
            i <= cur <= v@.len(),
            parse_string_tail(v@.skip(i as int)) == (match parse_string_tail(v@.skip(cur as int)) {
                Ok((t, rest)) => Ok::<(Seq<char>, Seq<char>), ProtocolError>((acc@ + t, rest)),
                Err(e) => Err::<(Seq<char>, Seq<char>), ProtocolError>(e),
            }),
        decreases v@.len() - cur,
    {
        let ghost s = v@.skip(cur as int);
        proof {
            if cur < v@.len() {
                assert(s[0] == v@[cur as int]);
                assert(s.drop_first() =~= v@.skip(cur + 1));
            }
        }
        if cur >= v.len() {
            return Err(ProtocolError);
        }
        let c = v[cur];
        if c == '"' {
            proof {
                assert(acc@ + Seq::<char>::empty() =~= acc@);
            }
            return Ok((acc, cur + 1));
        }
        if c == '\\' {
            if v.len() - cur < 2 {
                return Err(ProtocolError);
            }
            let e = v[cur + 1];
            if e == 'u' {
                if v.len() - cur < 6 {
                    return Err(ProtocolError);
                }
                proof {
                    assert(s[1] == v@[cur as int + 1]);
                    assert(s[2] == v@[cur as int + 2]);
                    assert(s[3] == v@[cur as int + 3]);
                    assert(s[4] == v@[cur as int + 4]);
                    assert(s[5] == v@[cur as int + 5]);
                }
                let code = match scan_hex4(v, cur + 2) {
                    Some(u) => u,
                    None => {
                        return Err(ProtocolError);
                    },
                };
                if code < 0xD800 || code > 0xDFFF {
                    let ch = match char_from_u32(code) {
                        Some(ch) => ch,
                        None => {
                            proof {
                                assert(false);
                            }
                            return Err(ProtocolError);
                        },
                    };
                    proof {
                        vstd::utf8::char_u32_cast(ch, code);
                        lemma_skip_skip(v@, cur as int, 6);
                        let sp = parse_string_tail(v@.skip(cur as int + 6));
                        match sp {
                            Ok((t, rest)) => {
                                assert(acc@ + (seq![(code as char)] + t) =~= acc@.push(ch) + t);
                            },
                            Err(_) => {},
                        }
                    }
                    acc.push(ch);
                    cur = cur + 6;
                } else if code < 0xDC00 {
                    if v.len() - cur < 12 {
                        return Err(ProtocolError);
                    }
                    proof {
                        assert(s[6] == v@[cur as int + 6]);
                        assert(s[7] == v@[cur as int + 7]);
                        assert(s[8] == v@[cur as int + 8]);
                        assert(s[9] == v@[cur as int + 9]);
                        assert(s[10] == v@[cur as int + 10]);
                        assert(s[11] == v@[cur as int + 11]);
                    }
                    if !(v[cur + 6] == '\\' && v[cur + 7] == 'u') {
                        return Err(ProtocolError);
                    }
                    let lo = match scan_hex4(v, cur + 8) {
                        Some(u) => u,
                        None => {
                            return Err(ProtocolError);
                        },
                    };
                    if !(0xDC00 <= lo && lo <= 0xDFFF) {
                        return Err(ProtocolError);
                    }
                    let scalar: u32 = 0x10000 + (code - 0xD800) * 0x400 + (lo - 0xDC00);
                    let ch = match char_from_u32(scalar) {
                        Some(ch) => ch,
                        None => {
                            proof {
                                assert(false);
                            }
                            return Err(ProtocolError);
                        },
                    };
                    proof {
                        vstd::utf8::char_u32_cast(ch, scalar);
                        assert(pair_char(code, lo) == ch);
                        lemma_skip_skip(v@, cur as int, 12);
                        let sp = parse_string_tail(v@.skip(cur as int + 12));
                        match sp {
                            Ok((t, rest)) => {
                                assert(acc@ + (seq![pair_char(code, lo)] + t) =~= acc@.push(ch)
                                    + t);
                            },
                            Err(_) => {},
                        }
                    }
                    acc.push(ch);
                    cur = cur + 12;
                } else {
                    return Err(ProtocolError);
                }
            } else {
                proof {
                    assert(s[1] == v@[cur as int + 1]);
                }
                let dec = if e == '"' {
                    Some('"')
                } else if e == '\\' {
                    Some('\\')
                } else if e == '/' {
                    Some('/')
                } else if e == 'b' {
                    Some('\u{8}')
                } else if e == 'f' {
                    Some('\u{c}')
                } else if e == 'n' {
                    Some('\n')
                } else if e == 'r' {
                    Some('\r')
                } else if e == 't' {
                    Some('\t')
                } else {
                    None
                };
                proof {
                    assert(dec == esc_code(e));
                }
                let ch = match dec {
                    Some(ch) => ch,
                    None => {
                        return Err(ProtocolError);
                    },
                };
                proof {
                    lemma_skip_skip(v@, cur as int, 2);
                    let sp = parse_string_tail(v@.skip(cur as int + 2));
                    match sp {
                        Ok((t, rest)) => {
                            assert(acc@ + (seq![ch] + t) =~= acc@.push(ch) + t);
                        },
                        Err(_) => {},
                    }
                }
                acc.push(ch);
                cur = cur + 2;
            }
        } else if (c as u32) < 32 {
            return Err(ProtocolError);
        } else {
            proof {
                let sp = parse_string_tail(v@.skip(cur + 1));
                match sp {
                    Ok((t, rest)) => {
                        assert(acc@ + (seq![c] + t) =~= acc@.push(c) + t);
                    },
                    Err(_) => {},
                }
            }
            acc.push(c);
            cur = cur + 1;
        }
    }
}

/// A run that is all digits and stops at a non-digit has exactly the
/// length of the run.
proof fn lemma_digits_len_range(s: Seq<char>, n: int)
    requires
        0 <= n <= s.len(),
        forall|k: int| 0 <= k < n ==> is_digit(#[trigger] s[k]),
        n < s.len() ==> !is_digit(s[n]),
    ensures
        digits_len(s) == n,
    decreases n,
{
    if n == 0 {
    } else {
        let t = s.drop_first();
        assert(forall|k: int| 0 <= k < n - 1 ==> is_digit(#[trigger] t[k]));
        lemma_digits_len_range(t, n - 1);
    }
}

/// Folding digits never shrinks the accumulator.
proof fn lemma_digits_acc_ge(s: Seq<char>, acc: int)
    requires
        acc >= 0,
        forall|k: int| 0 <= k < s.len() ==> is_digit(#[trigger] s[k]),
    ensures
        digits_acc(s, acc) >= acc,
    decreases s.len(),
{
    if s.len() > 0 {
        let t = s.drop_first();
        assert(forall|k: int| 0 <= k < t.len() ==> is_digit(#[trigger] t[k]));
        assert(digit_val(s[0]) >= 0);
        lemma_digits_acc_ge(t, acc * 10 + digit_val(s[0]));
    }
}

/// Scans an unsigned decimal number.
fn scan_u64(v: &Vec<char>, i: usize) -> (r: Result<(u64, usize), ProtocolError>)
    requires
        i <= v@.len(),
    ensures
        match r {
            Ok((x, j)) => j <= v@.len() && (parse_u64(v@.skip(i as int)) matches Ok((xv, rest))
                && x == xv && v@.skip(j as int) == rest),
            Err(_) => parse_u64(v@.skip(i as int)) is Err,
        },
{
    let ghost t = v@.skip(i as int);
    let len = v.len();
    let mut e = i;
    while e < len && 48 <= (v[e] as u32) && (v[e] as u32) <= 57
        invariant
            i <= e <= len,
            len == v@.len(),
            forall|k: int| i <= k < e ==> is_digit(#[trigger] v@[k]),
        decreases len - e,
    {
        e = e + 1;
    }
    proof {
        assert(forall|k: int| 0 <= k < e - i ==> t[k] == v@[i + k]);
        assert(forall|k: int| 0 <= k < e - i ==> is_digit(#[trigger] t[k]));
        if e < len {
            assert(t[e - i] == v@[e as int]);
        }
        lemma_digits_len_range(t, e - i);
    }
    if e == i {
        return Err(ProtocolError);
    }
    if e - i > 1 && v[i] == '0' {
        proof {
            assert(t[0] == v@[i as int]);
        }
        return Err(ProtocolError);
    }
    let ghost n = (e - i) as int;
    let mut acc: u64 = 0;
    let mut cur = i;
    proof {
        assert(t.subrange(0, n) =~= t.take(n));
        assert(t[0] == v@[i as int]);
    }
    while cur < e
        invariant
            i <= cur <= e <= len,
            len == v@.len(),
            n == e - i,
            n >= 1,
            t == v@.skip(i as int),
            n <= t.len(),
            digits_len(t) == n,
            !(n > 1 && t[0] == '0'),
            forall|k: int| 0 <= k < n ==> is_digit(#[trigger] t[k]),
            digits_acc(t.take(n), 0) == digits_acc(t.subrange(cur - i, n), acc as int),
        decreases e - cur,
    {
        let ghost j = cur - i;
        proof {
            assert(t[j] == v@[cur as int]);
            assert(is_digit(t[j]));
            assert(t.subrange(j, n)[0] == t[j]);
            assert(t.subrange(j, n).drop_first() =~= t.subrange(j + 1, n));
            assert(digits_acc(t.subrange(j, n), acc as int) == digits_acc(
                t.subrange(j + 1, n),
                acc as int * 10 + digit_val(t[j]),
            ));
            assert(forall|k: int|
                0 <= k < t.subrange(j + 1, n).len() ==> is_digit(
                    #[trigger] t.subrange(j + 1, n)[k],
                ));
        }
        let d: u32 = (v[cur] as u32) - 48;
        proof {
            assert(d as int == digit_val(t[j]));
        }
        let m = match acc.checked_mul(10) {
            Some(m) => m,
            None => {
                proof {
                    lemma_digits_acc_ge(t.subrange(j + 1, n), acc as int * 10 + digit_val(t[j]));
                    assert(digits_acc(t.take(n), 0) > u64::MAX);
                }
                return Err(ProtocolError);
            },
        };
        let acc2 = match m.checked_add(d as u64) {
            Some(a) => a,
            None => {
                proof {
                    lemma_digits_acc_ge(t.subrange(j + 1, n), acc as int * 10 + digit_val(t[j]));
                    assert(digits_acc(t.take(n), 0) > u64::MAX);
                }
                return Err(ProtocolError);
            },
        };
        acc = acc2;
        cur = cur + 1;
    }
    proof {
        assert(t.subrange(n, n) =~= Seq::<char>::empty());
        assert(digits_acc(t.take(n), 0) == acc as int);
        lemma_skip_skip(v@, i as int, n);
        assert(v@.skip(e as int) =~= t.skip(n));
    }
    Ok((acc, e))
}

/// Scans a string literal after whitespace.
fn scan_string_val(v: &Vec<char>, i: usize) -> (r: Result<(Vec<char>, usize), ProtocolError>)
    requires
        i <= v@.len(),
    ensures
        match r {
            Ok((content, j)) => j <= v@.len() && (parse_string_val(v@.skip(i as int)) matches Ok(
                (t, rest),
            ) && content@ == t && v@.skip(j as int) == rest),
            Err(_) => parse_string_val(v@.skip(i as int)) is Err,
        },
{
    match scan_expect(v, i, '"') {
        Ok(j) => scan_string_tail(v, j),
        Err(e) => Err(e),
    }
}

/// Scans one expected object key and its colon.
fn scan_key(v: &Vec<char>, i: usize, key: &str) -> (r: Result<usize, ProtocolError>)
    requires
        i <= v@.len(),
    ensures
        match r {
            Ok(j) => j <= v@.len() && (parse_key(v@.skip(i as int), key@) matches Ok(rest)
                && v@.skip(j as int) == rest),
            Err(_) => parse_key(v@.skip(i as int), key@) is Err,
        },
{
    let (k, j) = match scan_string_val(v, i) {
        Ok(kj) => kj,
        Err(e) => {
            return Err(e);
        },
    };
    if !vec_eq_str(&k, key) {
        return Err(ProtocolError);
    }
    scan_expect(v, j, ':')
}

/// Scans one `"key": number` member.
fn scan_u64_field(v: &Vec<char>, i: usize, key: &str) -> (r: Result<(u64, usize), ProtocolError>)
    requires
        i <= v@.len(),
    ensures
        match r {
            Ok((x, j)) => j <= v@.len() && (parse_u64_field(v@.skip(i as int), key@) matches Ok(
                (xv, rest),
            ) && x == xv && v@.skip(j as int) == rest),
            Err(_) => parse_u64_field(v@.skip(i as int), key@) is Err,
        },
{
    match scan_key(v, i, key) {
        Ok(j) => {
            let j2 = scan_ws(v, j);
            scan_u64(v, j2)
        },
        Err(e) => Err(e),
    }
}

/// Scans one `"key": string` member.
fn scan_string_field(v: &Vec<char>, i: usize, key: &str) -> (r: Result<(Vec<char>, usize),
    ProtocolError,
>)
    requires
        i <= v@.len(),
    ensures
        match r {
            Ok((content, j)) => j <= v@.len() && (parse_string_field(v@.skip(i as int), key@)
                matches Ok((t, rest)) && content@ == t && v@.skip(j as int) == rest),
            Err(_) => parse_string_field(v@.skip(i as int), key@) is Err,
        },
{
    match scan_key(v, i, key) {
        Ok(j) => scan_string_val(v, j),
        Err(e) => Err(e),
    }
}

/// Appends the characters of a string slice.
fn push_str_chars(v: &mut Vec<char>, s: &str)
    ensures
        final(v)@ == old(v)@ + s@,
{
    let n = s.unicode_len();
    let mut i: usize = 0;
    while i < n
        invariant
            i <= n,
            n == s@.len(),
            v@ == old(v)@ + s@.take(i as int),
        decreases n - i,
    {
        v.push(s.get_char(i));
        proof {
            assert(s@.take(i + 1) =~= s@.take(i as int).push(s@[i as int]));
            assert(v@ =~= old(v)@ + s@.take(i + 1));
        }
        i = i + 1;
    }
    proof {
        assert(s@.take(n as int) =~= s@);
    }
}

/// The decimal digit character, executable form.
fn dec_digit_exec(n: u64) -> (c: char)
    requires
        n < 10,
    ensures
        c == dec_digit(n),
{
    if n == 0 {
        '0'
    } else if n == 1 {
        '1'
    } else if n == 2 {
        '2'
    } else if n == 3 {
        '3'
    } else if n == 4 {
        '4'
    } else if n == 5 {
        '5'
    } else if n == 6 {
        '6'
    } else if n == 7 {
        '7'
    } else if n == 8 {
        '8'
    } else {
        '9'
    }
}

/// The lowercase hex digit character, executable form.
fn hex_digit_exec(n: u32) -> (c: char)
    requires
        n < 16,
    ensures
        c == hex_digit(n),
{
    if n < 10 {
        dec_digit_exec(n as u64)
    } else if n == 10 {
        'a'
    } else if n == 11 {
        'b'
    } else if n == 12 {
        'c'
    } else if n == 13 {
        'd'
    } else if n == 14 {
        'e'
    } else {
        'f'
    }
}

/// Appends the decimal digits of a number.
fn push_u64(v: &mut Vec<char>, n: u64)
    ensures
        final(v)@ == old(v)@ + dec_digits(n),
    decreases n,
{
    if n < 10 {
        v.push(dec_digit_exec(n));
        proof {
            assert(v@ =~= old(v)@ + dec_digits(n));
        }
    } else {
        push_u64(v, n / 10);
        v.push(dec_digit_exec(n % 10));
        proof {
            assert(v@ =~= old(v)@ + dec_digits(n));
        }
    }
}

/// `esc_seq` over a sequence extended by one character.
proof fn lemma_esc_seq_push(s: Seq<char>, c: char)
    ensures
        esc_seq(s.push(c)) == esc_seq(s) + esc_char(c),
    decreases s.len(),
{
    if s.len() == 0 {
        assert(s.push(c).drop_first() =~= Seq::<char>::empty());
        assert(esc_seq(s.push(c)) == esc_char(c) + esc_seq(Seq::<char>::empty()));
        assert(esc_seq(Seq::<char>::empty()) == Seq::<char>::empty());
        assert(esc_seq(s.push(c)) =~= esc_seq(s) + esc_char(c));
    } else {
        lemma_esc_seq_push(s.drop_first(), c);
        assert(s.push(c).drop_first() =~= s.drop_first().push(c));
        assert(esc_seq(s.push(c)) =~= esc_seq(s) + esc_char(c));
    }
}

/// Appends a quoted, escaped string literal.
fn push_quoted(v: &mut Vec<char>, s: &str)
    ensures
        final(v)@ == old(v)@ + quoted(s@),
{
    v.push('"');
    let n = s.unicode_len();
    let mut i: usize = 0;
    proof {
        assert(v@ =~= old(v)@ + seq!['"'] + esc_seq(s@.take(0)));
    }
    while i < n
        invariant
            i <= n,
            n == s@.len(),
            v@ == old(v)@ + seq!['"'] + esc_seq(s@.take(i as int)),
        decreases n - i,
    {
        let c = s.get_char(i);
        if c == '"' {
            v.push('\\');
            v.push('"');
        } else if c == '\\' {
            v.push('\\');
            v.push('\\');
        } else if c == '\u{8}' {
            v.push('\\');
            v.push('b');
        } else if c == '\u{c}' {
            v.push('\\');
            v.push('f');
        } else if c == '\n' {
            v.push('\\');
            v.push('n');
        } else if c == '\r' {
            v.push('\\');
            v.push('r');
        } else if c == '\t' {
            v.push('\\');
            v.push('t');
        } else if (c as u32) < 32 {
            v.push('\\');
            v.push('u');
            v.push('0');
            v.push('0');
            v.push(hex_digit_exec((c as u32) / 16));
            v.push(hex_digit_exec((c as u32) % 16));
        } else {
            v.push(c);
        }
        proof {
            lemma_esc_seq_push(s@.take(i as int), c);
            assert(s@.take(i + 1) =~= s@.take(i as int).push(c));
            assert(v@ =~= old(v)@ + seq!['"'] + esc_seq(s@.take(i + 1)));
        }
        i = i + 1;
    }
    v.push('"');
    proof {
        assert(s@.take(n as int) =~= s@);
        assert(v@ =~= old(v)@ + quoted(s@));
    }
}

/// Appends the text of a playback event.
fn push_playback(v: &mut Vec<char>, m: &PlaybackMessage)
    ensures
        final(v)@ == old(v)@ + playback_text(m@),
{
    match m {
        PlaybackMessage::EnqueueItem(e) => {
            push_str_chars(v, "[\"enqueue_item\",{\"when\":");
            push_u64(v, e.when);
            push_str_chars(v, ",\"uid\":");
            push_u64(v, e.uid.0);
            push_str_chars(v, ",\"yid\":");
            push_quoted(v, e.yid.as_str());
            push_str_chars(v, "}]");
        },
        PlaybackMessage::PlayItem(p) => {
            push_str_chars(v, "[\"play_item\",{\"when\":");
            push_u64(v, p.when);
            push_str_chars(v, ",\"uid\":");
            push_u64(v, p.uid.0);
            push_str_chars(v, ",\"yid\":");
            push_quoted(v, p.yid.as_str());
            push_str_chars(v, "}]");
        },
        PlaybackMessage::Skip(s) => {
            push_str_chars(v, "[\"skip\",{\"uid\":");
            push_u64(v, s.uid.0);
            push_str_chars(v, "}]");
        },
    }
    proof {
        assert(v@ =~= old(v)@ + playback_text(m@));
    }
}

/// A character that stands for itself inside a string literal.
pub open spec fn plain_char(c: char) -> bool {
    c != '"' && c != '\\' && (c as u32) >= 32
}

/// Escaping a sequence of self-standing characters changes nothing.
proof fn lemma_esc_seq_plain(x: Seq<char>)
    requires
        forall|i: int| 0 <= i < x.len() ==> plain_char(#[trigger] x[i]),
    ensures
        esc_seq(x) == x,
    decreases x.len(),
{
    if x.len() > 0 {
        assert(plain_char(x[0]));
        lemma_esc_seq_plain(x.drop_first());
        assert(esc_seq(x) =~= x);
    }
}

/// Reading back the hex digit of a value gives the value.
proof fn lemma_hex_digit_val(n: u32)
    requires
        n < 16,
    ensures
        hex_val(hex_digit(n)) == Some(n),
{
}

/// One expected punctuation character at the head of the input.
proof fn lemma_expect_head(c: char, rest: Seq<char>)
    requires
        !is_ws(c),
    ensures
        expect_tok(seq![c] + rest, c) == Ok::<Seq<char>, ProtocolError>(rest),
{
    let s = seq![c] + rest;
    assert(s[0] == c);
    assert(skip_ws(s) == s);
    assert(s.drop_first() =~= rest);
}

/// Reading back an escaped string body gives the original content and
/// leaves exactly what follows the closing quote.
#[verifier::rlimit(100)]
proof fn lemma_parse_tail_round(x: Seq<char>, rest: Seq<char>)
    ensures
        parse_string_tail(esc_seq(x) + seq!['"'] + rest) == Ok::<(Seq<char>, Seq<char>),
            ProtocolError,
        >((x, rest)),
    decreases x.len(),
{
    let s = esc_seq(x) + seq!['"'] + rest;
    if x.len() == 0 {
        assert(x =~= Seq::<char>::empty());
        assert(s[0] == '"');
        assert(s.drop_first() =~= rest);
    } else {
        let c = x[0];
        let x1 = x.drop_first();
        lemma_parse_tail_round(x1, rest);
        let tail = esc_seq(x1) + seq!['"'] + rest;
        assert(s =~= esc_char(c) + tail);
        assert(seq![c] + x1 =~= x);
        if c == '"' || c == '\\' {
            assert(s[0] == '\\');
            assert(s[1] == c);
            assert(s.skip(2) =~= tail);
            assert(esc_code(c) == Some(c));
        } else if c == '\u{8}' || c == '\u{c}' || c == '\n' || c == '\r' || c == '\t' {
            assert(s[0] == '\\');
            assert(s.skip(2) =~= tail);
            if c == '\u{8}' {
                assert(s[1] == 'b');
                assert(esc_code(s[1]) == Some(c));
            } else if c == '\u{c}' {
                assert(s[1] == 'f');
                assert(esc_code(s[1]) == Some(c));
            } else if c == '\n' {
                assert(s[1] == 'n');
                assert(esc_code(s[1]) == Some(c));
            } else if c == '\r' {
                assert(s[1] == 'r');
                assert(esc_code(s[1]) == Some(c));
            } else {
                assert(s[1] == 't');
                assert(esc_code(s[1]) == Some(c));
            }
        } else if (c as u32) < 32 {
            let u = c as u32;
            assert(s[0] == '\\');
            assert(s[1] == 'u');
            assert(s[2] == '0');
            assert(s[3] == '0');
            assert(s[4] == hex_digit(u / 16));
            assert(s[5] == hex_digit(u % 16));
            lemma_hex_digit_val(u / 16);
            lemma_hex_digit_val(u % 16);
            assert(hex_val('0') == Some(0u32));
            assert(hex4(s[2], s[3], s[4], s[5]) == Some(u)) by {
                assert((u / 16) * 16 + u % 16 == u) by (nonlinear_arith);
            }
            assert(s.skip(6) =~= tail);
            vstd::utf8::char_u32_cast(c, u);
            assert((u as char) == c);
        } else {
            assert(plain_char(c));
            assert(s[0] == c);
            assert(s.drop_first() =~= tail);
        }
        assert(parse_string_tail(s) == Ok::<(Seq<char>, Seq<char>), ProtocolError>((x, rest)));
    }
}

/// Reading back a quoted string literal.
proof fn lemma_parse_string_val_round(x: Seq<char>, rest: Seq<char>)
    ensures
        parse_string_val(quoted(x) + rest) == Ok::<(Seq<char>, Seq<char>), ProtocolError>(
            (x, rest),
        ),
{
    let s = quoted(x) + rest;
    assert(s =~= seq!['"'] + (esc_seq(x) + seq!['"'] + rest));
    lemma_expect_head('"', esc_seq(x) + seq!['"'] + rest);
    lemma_parse_tail_round(x, rest);
}

/// Every decimal digit of a number is a digit character of the expected
/// value.
proof fn lemma_dec_digits_digits(n: u64)
    ensures
        forall|i: int| 0 <= i < dec_digits(n).len() ==> is_digit(#[trigger] dec_digits(n)[i]),
        dec_digits(n).len() >= 1,
    decreases n,
{
    if n < 10 {
        assert(is_digit(dec_digit(n)));
    } else {
        lemma_dec_digits_digits(n / 10);
        assert(is_digit(dec_digit(n % 10)));
        assert(forall|i: int|
            0 <= i < dec_digits(n).len() - 1 ==> dec_digits(n)[i] == #[trigger] dec_digits(
                n / 10,
            )[i]);
    }
}

/// Folding one more digit onto an accumulated value.
proof fn lemma_digits_acc_snoc(s: Seq<char>, d: char, acc: int)
    ensures
        digits_acc(s.push(d), acc) == digits_acc(s, acc) * 10 + digit_val(d),
    decreases s.len(),
{
    if s.len() == 0 {
        assert(s.push(d).drop_first() =~= Seq::<char>::empty());
        assert(digits_acc(s.push(d), acc) == digits_acc(Seq::<char>::empty(), acc * 10
            + digit_val(d)));
    } else {
        assert(s.push(d).drop_first() =~= s.drop_first().push(d));
        lemma_digits_acc_snoc(s.drop_first(), d, acc * 10 + digit_val(s[0]));
    }
}

/// Reading back the decimal digits of a number gives the number.
proof fn lemma_dec_digits_value(n: u64)
    ensures
        digits_acc(dec_digits(n), 0) == n,
    decreases n,
{
    reveal_with_fuel(digits_acc, 3);
    if n < 10 {
        assert(digit_val(dec_digit(n)) == n);
        assert(dec_digits(n) == seq![dec_digit(n)]);
        assert(seq![dec_digit(n)].drop_first() =~= Seq::<char>::empty());
        assert(digits_acc(seq![dec_digit(n)], 0) == digit_val(dec_digit(n)));
    } else {
        lemma_dec_digits_value(n / 10);
        lemma_digits_acc_snoc(dec_digits(n / 10), dec_digit((n % 10) as u64), 0);
        assert(digit_val(dec_digit((n % 10) as u64)) == n % 10);
    }
}

/// A positive number is never written with a leading zero.
proof fn lemma_dec_digits_head(n: u64)
    ensures
        dec_digits(n).len() > 1 ==> dec_digits(n)[0] != '0',
    decreases n,
{
    if n >= 10 {
        lemma_dec_digits_head(n / 10);
        lemma_dec_digits_digits(n / 10);
        assert(dec_digits(n)[0] == dec_digits(n / 10)[0]);
        if n / 10 < 10 {
            assert(dec_digits(n / 10) == seq![dec_digit((n / 10) as u64)]);
            assert(n / 10 >= 1);
            assert(dec_digit((n / 10) as u64) != '0');
        } else {
            lemma_dec_digits_digits((n / 10) / 10);
            assert(dec_digits(n / 10).len() > 1);
        }
    }
}

/// Reading back an encoded number, up to the next non-digit.
proof fn lemma_parse_u64_round(n: u64, rest: Seq<char>)
    requires
        rest.len() > 0,
        !is_digit(rest[0]),
    ensures
        parse_u64(dec_digits(n) + rest) == Ok::<(u64, Seq<char>), ProtocolError>((n, rest)),
{
    let ds = dec_digits(n);
    let s = ds + rest;
    lemma_dec_digits_digits(n);
    assert(forall|k: int| 0 <= k < ds.len() ==> is_digit(#[trigger] s[k]));
    assert(s[ds.len() as int] == rest[0]);
    lemma_digits_len_range(s, ds.len() as int);
    lemma_dec_digits_head(n);
    assert(s[0] == ds[0]);
    assert(s.take(ds.len() as int) =~= ds);
    lemma_dec_digits_value(n);
    assert(s.skip(ds.len() as int) =~= rest);
}

/// Reading back one expected key and its colon.
proof fn lemma_parse_key_round(key: Seq<char>, rest: Seq<char>)
    ensures
        parse_key(quoted(key) + seq![':'] + rest, key) == Ok::<Seq<char>, ProtocolError>(rest),
{
    assert(quoted(key) + seq![':'] + rest =~= quoted(key) + (seq![':'] + rest));
    lemma_parse_string_val_round(key, seq![':'] + rest);
    lemma_expect_head(':', rest);
}

/// Reading back one `"key": number` member.
proof fn lemma_parse_u64_field_round(key: Seq<char>, n: u64, rest: Seq<char>)
    requires
        rest.len() > 0,
        !is_digit(rest[0]),
    ensures
        parse_u64_field(quoted(key) + seq![':'] + dec_digits(n) + rest, key) == Ok::<(
            u64,
            Seq<char>,
        ), ProtocolError>((n, rest)),
{
    assert(quoted(key) + seq![':'] + dec_digits(n) + rest =~= quoted(key) + seq![':'] + (
    dec_digits(n) + rest));
    lemma_parse_key_round(key, dec_digits(n) + rest);
    lemma_dec_digits_digits(n);
    let ds = dec_digits(n) + rest;
    assert(ds[0] == dec_digits(n)[0]);
    assert(is_digit(ds[0]));
    assert(!is_ws(ds[0]));
    assert(skip_ws(ds) == ds);
    lemma_parse_u64_round(n, rest);
}

/// Reading back one `"key": string` member.
proof fn lemma_parse_string_field_round(key: Seq<char>, x: Seq<char>, rest: Seq<char>)
    ensures
        parse_string_field(quoted(key) + seq![':'] + quoted(x) + rest, key) == Ok::<(
            Seq<char>,
            Seq<char>,
        ), ProtocolError>((x, rest)),
{
    assert(quoted(key) + seq![':'] + quoted(x) + rest =~= quoted(key) + seq![':'] + (quoted(x)
        + rest));
    lemma_parse_key_round(key, quoted(x) + rest);
    lemma_parse_string_val_round(x, rest);
}

/// A lone closing bracket ends the frame.
proof fn lemma_close_end_bracket()
    ensures
        close_end(seq![']']),
{
    assert(seq![']'] =~= seq![']'] + Seq::<char>::empty());
    lemma_expect_head(']', Seq::<char>::empty());
}

/// Reveals every ingress tag, so that matching one tag can rule the
/// others out.
proof fn lemma_ingress_tags()
    ensures
        spec_ingress_field("register"@) == Ok::<IngressMessageField, ()>(
            IngressMessageField::Register,
        ),
        spec_ingress_field("disconnect"@) == Ok::<IngressMessageField, ()>(
            IngressMessageField::Disconnect,
        ),
        spec_ingress_field("skip"@) == Ok::<IngressMessageField, ()>(IngressMessageField::Skip),
        spec_ingress_field("part"@) == Ok::<IngressMessageField, ()>(IngressMessageField::Part),
        spec_ingress_field("dj_queue"@) == Ok::<IngressMessageField, ()>(
            IngressMessageField::DjQueue,
        ),
        spec_ingress_field("dj_unqueue"@) == Ok::<IngressMessageField, ()>(
            IngressMessageField::DjUnqueue,
        ),
        spec_ingress_field("message"@) == Ok::<IngressMessageField, ()>(
            IngressMessageField::Message,
        ),
{
    reveal_strlit("register");
    reveal_strlit("disconnect");
    reveal_strlit("skip");
    reveal_strlit("part");
    reveal_strlit("dj_queue");
    reveal_strlit("dj_unqueue");
    reveal_strlit("message");
    assert("register"@.len() == 8);
    assert("disconnect"@.len() == 10);
    assert("skip"@.len() == 4);
    assert("part"@.len() == 4);
    assert("dj_queue"@.len() == 8);
    assert("dj_unqueue"@.len() == 10);
    assert("message"@.len() == 7);
    assert("skip"@[0] == 's');
    assert("part"@[0] == 'p');
    assert("register"@[0] == 'r');
    assert("dj_queue"@[0] == 'd');
    assert("disconnect"@[1] == 'i');
    assert("dj_unqueue"@[1] == 'j');
}

/// The register case of the ingress round trip.
#[verifier::rlimit(100)]
proof fn lemma_ingress_register_round(nick: Seq<char>)
    ensures
        parse_ingress(ingress_text(IngressView::Register { nick })) == Ok::<
            IngressView,
            ProtocolError,
        >(IngressView::Register { nick }),
{
    lemma_ingress_tags();
    let m = IngressView::Register { nick };
    let t9 = seq![']'];
    let t8 = seq!['}'] + t9;
    let t7 = quoted(nick) + t8;
    let t6 = seq![':'] + t7;
    let t5 = quoted("nick"@) + t6;
    let t4 = seq!['{'] + t5;
    let t3 = seq![','] + t4;
    let t2 = quoted("register"@) + t3;
    let text = seq!['['] + t2;
    assert(ingress_text(m) =~= text) by {
        reveal_strlit("[\"register\",{\"nick\":");
        reveal_strlit("}]");
        reveal_strlit("register");
        reveal_strlit("nick");
        lemma_esc_seq_plain("register"@);
        lemma_esc_seq_plain("nick"@);
    }
    lemma_expect_head('[', t2);
    lemma_parse_string_val_round("register"@, t3);
    lemma_expect_head(',', t4);
    lemma_expect_head('{', t5);
    assert(t5 =~= quoted("nick"@) + seq![':'] + quoted(nick) + t8);
    lemma_parse_string_field_round("nick"@, nick, t8);
    lemma_expect_head('}', t9);
    lemma_close_end_bracket();
}

/// The chat-line case of the ingress round trip.
#[verifier::rlimit(100)]
proof fn lemma_ingress_message_round(body: Seq<char>)
    ensures
        parse_ingress(ingress_text(IngressView::Message(body))) == Ok::<
            IngressView,
            ProtocolError,
        >(IngressView::Message(body)),
{
    lemma_ingress_tags();
    let m = IngressView::Message(body);
    let t4 = seq![']'];
    let t3 = quoted(body) + t4;
    let t2 = quoted("message"@) + seq![','] + t3;
    let text = seq!['['] + t2;
    assert(ingress_text(m) =~= text) by {
        reveal_strlit("[\"message\",");
        reveal_strlit("]");
        reveal_strlit("message");
        lemma_esc_seq_plain("message"@);
    }
    lemma_expect_head('[', t2);
    assert(t2 =~= quoted("message"@) + (seq![','] + t3));
    lemma_parse_string_val_round("message"@, seq![','] + t3);
    lemma_expect_head(',', t3);
    lemma_parse_string_val_round(body, t4);
    lemma_close_end_bracket();
}

/// The payload-less cases of the ingress round trip.
#[verifier::rlimit(100)]
proof fn lemma_ingress_bare_round(m: IngressView)
    requires
        m is Disconnect || m is Skip || m is Part || m is DjQueue || m is DjUnqueue,
    ensures
        parse_ingress(ingress_text(m)) == Ok::<IngressView, ProtocolError>(m),
{
    lemma_ingress_tags();
    let tag: Seq<char> = match m {
        IngressView::Disconnect => "disconnect"@,
        IngressView::Skip => "skip"@,
        IngressView::Part => "part"@,
        IngressView::DjQueue => "dj_queue"@,
        IngressView::DjUnqueue => "dj_unqueue"@,
        _ => Seq::empty(),
    };
    let t2 = quoted(tag) + seq![']'];
    let text = seq!['['] + t2;
    assert(ingress_text(m) =~= text) by {
        reveal_strlit("[\"disconnect\"]");
        reveal_strlit("[\"skip\"]");
        reveal_strlit("[\"part\"]");
        reveal_strlit("[\"dj_queue\"]");
        reveal_strlit("[\"dj_unqueue\"]");
        reveal_strlit("disconnect");
        reveal_strlit("skip");
        reveal_strlit("part");
        reveal_strlit("dj_queue");
        reveal_strlit("dj_unqueue");
        lemma_esc_seq_plain(tag);
    }
    lemma_expect_head('[', t2);
    lemma_parse_string_val_round(tag, seq![']']);
    lemma_close_end_bracket();
}

/// Decoding a canonically encoded ingress frame yields the original
/// event: the ingress codec round-trips on every message.
pub proof fn lemma_ingress_round_trip(m: IngressView)
    ensures
        parse_ingress(ingress_text(m)) == Ok::<IngressView, ProtocolError>(m),
{
    match m {
        IngressView::Register { nick } => lemma_ingress_register_round(nick),
        IngressView::Message(body) => lemma_ingress_message_round(body),
        _ => lemma_ingress_bare_round(m),
    }
}

/// Reading back an encoded track payload (enqueue or play) leaves
/// exactly what follows the nested array.
#[verifier::rlimit(100)]
proof fn lemma_track_round(when: u64, uid: UserId, yid: Seq<char>, rest: Seq<char>)
    ensures
        ({
            let e1 = seq![']'] + rest;
            let e2 = seq!['}'] + e1;
            let e3 = quoted("yid"@) + seq![':'] + quoted(yid) + e2;
            let e4 = seq![','] + e3;
            let e5 = quoted("uid"@) + seq![':'] + dec_digits(uid.0) + e4;
            let e6 = seq![','] + e5;
            let e7 = quoted("when"@) + seq![':'] + dec_digits(when) + e6;
            let e8 = seq!['{'] + e7;
            let e9 = seq![','] + e8;
            parse_track_payload(e9) == Ok::<((u64, u64, Seq<char>), Seq<char>), ProtocolError>(
                ((when, uid.0, yid), rest),
            )
        }),
{
    reveal_strlit("when");
    reveal_strlit("uid");
    reveal_strlit("yid");
    let e1 = seq![']'] + rest;
    let e2 = seq!['}'] + e1;
    let e3 = quoted("yid"@) + seq![':'] + quoted(yid) + e2;
    let e4 = seq![','] + e3;
    let e5 = quoted("uid"@) + seq![':'] + dec_digits(uid.0) + e4;
    let e6 = seq![','] + e5;
    let e7 = quoted("when"@) + seq![':'] + dec_digits(when) + e6;
    let e8 = seq!['{'] + e7;
    let e9 = seq![','] + e8;
    lemma_expect_head(',', e8);
    lemma_expect_head('{', e7);
    assert(e6[0] == ',');
    lemma_parse_u64_field_round("when"@, when, e6);
    lemma_expect_head(',', e5);
    assert(e4[0] == ',');
    lemma_parse_u64_field_round("uid"@, uid.0, e4);
    lemma_expect_head(',', e3);
    lemma_parse_string_field_round("yid"@, yid, e2);
    lemma_expect_head('}', e1);
    lemma_expect_head(']', rest);
}

/// Reading back the opening of a payload object up to its `uid` member.
#[verifier::rlimit(100)]
proof fn lemma_when_uid_round(when: u64, uid: UserId, rest: Seq<char>)
    requires
        rest.len() > 0,
        !is_digit(rest[0]),
    ensures
        ({
            let w1 = quoted("uid"@) + seq![':'] + dec_digits(uid.0) + rest;
            let w2 = seq![','] + w1;
            let w3 = quoted("when"@) + seq![':'] + dec_digits(when) + w2;
            let w4 = seq!['{'] + w3;
            let w5 = seq![','] + w4;
            parse_when_uid(w5) == Ok::<((u64, u64), Seq<char>), ProtocolError>(
                ((when, uid.0), rest),
            )
        }),
{
    reveal_strlit("when");
    reveal_strlit("uid");
    let w1 = quoted("uid"@) + seq![':'] + dec_digits(uid.0) + rest;
    let w2 = seq![','] + w1;
    let w3 = quoted("when"@) + seq![':'] + dec_digits(when) + w2;
    let w4 = seq!['{'] + w3;
    let w5 = seq![','] + w4;
    lemma_expect_head(',', w4);
    lemma_expect_head('{', w3);
    assert(w2[0] == ',');
    lemma_parse_u64_field_round("when"@, when, w2);
    lemma_expect_head(',', w1);
    lemma_parse_u64_field_round("uid"@, uid.0, rest);
}

/// Reveals every playback tag, so that matching one tag can rule the
/// others out.
proof fn lemma_playback_tags()
    ensures
        spec_playback_field("enqueue_item"@) == Ok::<PlaybackMessageField, ()>(
            PlaybackMessageField::EnqueueItem,
        ),
        spec_playback_field("play_item"@) == Ok::<PlaybackMessageField, ()>(
            PlaybackMessageField::PlayItem,
        ),
        spec_playback_field("skip"@) == Ok::<PlaybackMessageField, ()>(PlaybackMessageField::Skip),
{
    reveal_strlit("enqueue_item");
    reveal_strlit("play_item");
    reveal_strlit("skip");
    assert("enqueue_item"@.len() == 12);
    assert("play_item"@.len() == 9);
    assert("skip"@.len() == 4);
}

/// The enqueue case of the playback round trip.
#[verifier::rlimit(100)]
proof fn lemma_playback_enqueue_round(when: u64, uid: UserId, yid: Seq<char>, rest: Seq<char>)
    ensures
        parse_playback(playback_text(PlaybackView::EnqueueItem { when, uid, yid }) + rest) == Ok::<
            (PlaybackView, Seq<char>),
            ProtocolError,
        >((PlaybackView::EnqueueItem { when, uid, yid }, rest)),
{
    lemma_playback_tags();
    let p = PlaybackView::EnqueueItem { when, uid, yid };
    let e1 = seq![']'] + rest;
    let e2 = seq!['}'] + e1;
    let e3 = quoted("yid"@) + seq![':'] + quoted(yid) + e2;
    let e4 = seq![','] + e3;
    let e5 = quoted("uid"@) + seq![':'] + dec_digits(uid.0) + e4;
    let e6 = seq![','] + e5;
    let e7 = quoted("when"@) + seq![':'] + dec_digits(when) + e6;
    let e8 = seq!['{'] + e7;
    let e9 = seq![','] + e8;
    let e10 = quoted("enqueue_item"@) + e9;
    let text = seq!['['] + e10;
    assert(playback_text(p) + rest =~= text) by {
        reveal_strlit("[\"enqueue_item\",{\"when\":");
        reveal_strlit(",\"uid\":");
        reveal_strlit(",\"yid\":");
        reveal_strlit("}]");
        reveal_strlit("enqueue_item");
        reveal_strlit("when");
        reveal_strlit("uid");
        reveal_strlit("yid");
        lemma_esc_seq_plain("enqueue_item"@);
        lemma_esc_seq_plain("when"@);
        lemma_esc_seq_plain("uid"@);
        lemma_esc_seq_plain("yid"@);
    }
    lemma_expect_head('[', e10);
    lemma_parse_string_val_round("enqueue_item"@, e9);
    lemma_track_round(when, uid, yid, rest);
}

/// The play case of the playback round trip.
#[verifier::rlimit(100)]
proof fn lemma_playback_play_round(when: u64, uid: UserId, yid: Seq<char>, rest: Seq<char>)
    ensures
        parse_playback(playback_text(PlaybackView::PlayItem { when, uid, yid }) + rest) == Ok::<
            (PlaybackView, Seq<char>),
            ProtocolError,
        >((PlaybackView::PlayItem { when, uid, yid }, rest)),
{
    lemma_playback_tags();
    let p = PlaybackView::PlayItem { when, uid, yid };
    let e1 = seq![']'] + rest;
    let e2 = seq!['}'] + e1;
    let e3 = quoted("yid"@) + seq![':'] + quoted(yid) + e2;
    let e4 = seq![','] + e3;
    let e5 = quoted("uid"@) + seq![':'] + dec_digits(uid.0) + e4;
    let e6 = seq![','] + e5;
    let e7 = quoted("when"@) + seq![':'] + dec_digits(when) + e6;
    let e8 = seq!['{'] + e7;
    let e9 = seq![','] + e8;
    let e10 = quoted("play_item"@) + e9;
    let text = seq!['['] + e10;
    assert(playback_text(p) + rest =~= text) by {
        reveal_strlit("[\"play_item\",{\"when\":");
        reveal_strlit(",\"uid\":");
        reveal_strlit(",\"yid\":");
        reveal_strlit("}]");
        reveal_strlit("play_item");
        reveal_strlit("when");
        reveal_strlit("uid");
        reveal_strlit("yid");
        lemma_esc_seq_plain("play_item"@);
        lemma_esc_seq_plain("when"@);
        lemma_esc_seq_plain("uid"@);
        lemma_esc_seq_plain("yid"@);
    }
    lemma_expect_head('[', e10);
    lemma_parse_string_val_round("play_item"@, e9);
    lemma_track_round(when, uid, yid, rest);
}

/// The skip case of the playback round trip.
#[verifier::rlimit(100)]
proof fn lemma_playback_skip_round(uid: UserId, rest: Seq<char>)
    ensures
        parse_playback(playback_text(PlaybackView::Skip { uid }) + rest) == Ok::<
            (PlaybackView, Seq<char>),
            ProtocolError,
        >((PlaybackView::Skip { uid }, rest)),
{
    reveal_strlit("[\"skip\",{\"uid\":");
    reveal_strlit("}]");
    reveal_strlit("skip");
    reveal_strlit("uid");
    lemma_playback_tags();
    lemma_esc_seq_plain("skip"@);
    lemma_esc_seq_plain("uid"@);
    let p = PlaybackView::Skip { uid };
    let s1 = seq![']'] + rest;
    let s2 = seq!['}'] + s1;
    let s3 = quoted("uid"@) + seq![':'] + dec_digits(uid.0) + s2;
    let s4 = seq!['{'] + s3;
    let s5 = seq![','] + s4;
    let s6 = quoted("skip"@) + s5;
    let text = seq!['['] + s6;
    assert(playback_text(p) + rest =~= text);
    lemma_expect_head('[', s6);
    lemma_parse_string_val_round("skip"@, s5);
    lemma_expect_head(',', s4);
    lemma_expect_head('{', s3);
    assert(s2[0] == '}');
    lemma_parse_u64_field_round("uid"@, uid.0, s2);
    lemma_expect_head('}', s1);
    lemma_expect_head(']', rest);
}

/// Reading back an encoded playback event leaves exactly what follows it.
proof fn lemma_playback_round_trip(p: PlaybackView, rest: Seq<char>)
    ensures
        parse_playback(playback_text(p) + rest) == Ok::<(PlaybackView, Seq<char>), ProtocolError>(
            (p, rest),
        ),
{
    match p {
        PlaybackView::EnqueueItem { when, uid, yid } => lemma_playback_enqueue_round(
            when,
            uid,
            yid,
            rest,
        ),
        PlaybackView::PlayItem { when, uid, yid } => lemma_playback_play_round(
            when,
            uid,
            yid,
            rest,
        ),
        PlaybackView::Skip { uid } => lemma_playback_skip_round(uid, rest),
    }
}

/// Reveals every egress tag, so that matching one tag can rule the others
/// out.
proof fn lemma_egress_tags()
    ensures
        spec_egress_field("clock"@) == Ok::<EgressMessageField, ()>(EgressMessageField::Clock),
        spec_egress_field("join"@) == Ok::<EgressMessageField, ()>(EgressMessageField::Join),
        spec_egress_field("part"@) == Ok::<EgressMessageField, ()>(EgressMessageField::Part),
        spec_egress_field("status_message"@) == Ok::<EgressMessageField, ()>(
            EgressMessageField::StatusMessage,
        ),
        spec_egress_field("user_message"@) == Ok::<EgressMessageField, ()>(
            EgressMessageField::UserMessage,
        ),
        spec_egress_field("playback_message"@) == Ok::<EgressMessageField, ()>(
            EgressMessageField::PlaybackMessage,
        ),
{
    reveal_strlit("clock");
    reveal_strlit("join");
    reveal_strlit("part");
    reveal_strlit("status_message");
    reveal_strlit("user_message");
    reveal_strlit("playback_message");
    assert("clock"@.len() == 5);
    assert("join"@.len() == 4);
    assert("part"@.len() == 4);
    assert("status_message"@.len() == 14);
    assert("user_message"@.len() == 12);
    assert("playback_message"@.len() == 16);
    assert("join"@[0] == 'j');
    assert("part"@[0] == 'p');
}

/// The clock case of the egress round trip.
#[verifier::rlimit(100)]
proof fn lemma_egress_clock_round(when: u64)
    ensures
        parse_egress(egress_text(EgressView::Clock { when })) == Ok::<EgressView, ProtocolError>(
            EgressView::Clock { when },
        ),
{
    lemma_egress_tags();
    let m = EgressView::Clock { when };
    let c1 = seq![']'];
    let c2 = seq!['}'] + c1;
    let c3 = quoted("when"@) + seq![':'] + dec_digits(when) + c2;
    let c4 = seq!['{'] + c3;
    let c5 = seq![','] + c4;
    let c6 = quoted("clock"@) + c5;
    let text = seq!['['] + c6;
    assert(egress_text(m) =~= text) by {
        reveal_strlit("[\"clock\",{\"when\":");
        reveal_strlit("}]");
        reveal_strlit("clock");
        reveal_strlit("when");
        lemma_esc_seq_plain("clock"@);
        lemma_esc_seq_plain("when"@);
    }
    lemma_expect_head('[', c6);
    lemma_parse_string_val_round("clock"@, c5);
    lemma_expect_head(',', c4);
    lemma_expect_head('{', c3);
    assert(c2[0] == '}');
    lemma_parse_u64_field_round("when"@, when, c2);
    lemma_expect_head('}', c1);
    lemma_close_end_bracket();
}

/// The join case of the egress round trip.
#[verifier::rlimit(100)]
proof fn lemma_egress_join_round(when: u64, uid: UserId, nick: Seq<char>)
    ensures
        parse_egress(egress_text(EgressView::Join { when, uid, nick })) == Ok::<
            EgressView,
            ProtocolError,
        >(EgressView::Join { when, uid, nick }),
{
    lemma_egress_tags();
    let m = EgressView::Join { when, uid, nick };
    let j1 = seq![']'];
    let j2 = seq!['}'] + j1;
    let j3 = quoted("nick"@) + seq![':'] + quoted(nick) + j2;
    let j4 = seq![','] + j3;
    let j5 = quoted("uid"@) + seq![':'] + dec_digits(uid.0) + j4;
    let j6 = seq![','] + j5;
    let j7 = quoted("when"@) + seq![':'] + dec_digits(when) + j6;
    let j8 = seq!['{'] + j7;
    let j9 = seq![','] + j8;
    let j10 = quoted("join"@) + j9;
    let text = seq!['['] + j10;
    assert(egress_text(m) =~= text) by {
        reveal_strlit("[\"join\",{\"when\":");
        reveal_strlit(",\"uid\":");
        reveal_strlit(",\"nick\":");
        reveal_strlit("}]");
        reveal_strlit("join");
        reveal_strlit("when");
        reveal_strlit("uid");
        reveal_strlit("nick");
        lemma_esc_seq_plain("join"@);
        lemma_esc_seq_plain("when"@);
        lemma_esc_seq_plain("uid"@);
        lemma_esc_seq_plain("nick"@);
    }
    lemma_expect_head('[', j10);
    lemma_parse_string_val_round("join"@, j9);
    assert(j4[0] == ',');
    lemma_when_uid_round(when, uid, j4);
    lemma_expect_head(',', j3);
    lemma_parse_string_field_round("nick"@, nick, j2);
    lemma_expect_head('}', j1);
    lemma_close_end_bracket();
}

/// The part case of the egress round trip.
#[verifier::rlimit(100)]
proof fn lemma_egress_part_round(when: u64, uid: UserId)
    ensures
        parse_egress(egress_text(EgressView::Part { when, uid })) == Ok::<
            EgressView,
            ProtocolError,
        >(EgressView::Part { when, uid }),
{
    lemma_egress_tags();
    let m = EgressView::Part { when, uid };
    let p1 = seq![']'];
    let p2 = seq!['}'] + p1;
    let p3 = quoted("uid"@) + seq![':'] + dec_digits(uid.0) + p2;
    let p4 = seq![','] + p3;
    let p5 = quoted("when"@) + seq![':'] + dec_digits(when) + p4;
    let p6 = seq!['{'] + p5;
    let p7 = seq![','] + p6;
    let p8 = quoted("part"@) + p7;
    let text = seq!['['] + p8;
    assert(egress_text(m) =~= text) by {
        reveal_strlit("[\"part\",{\"when\":");
        reveal_strlit(",\"uid\":");
        reveal_strlit("}]");
        reveal_strlit("part");
        reveal_strlit("when");
        reveal_strlit("uid");
        lemma_esc_seq_plain("part"@);
        lemma_esc_seq_plain("when"@);
        lemma_esc_seq_plain("uid"@);
    }
    lemma_expect_head('[', p8);
    lemma_parse_string_val_round("part"@, p7);
    assert(p2[0] == '}');
    lemma_when_uid_round(when, uid, p2);
    lemma_expect_head('}', p1);
    lemma_close_end_bracket();
}

/// The status case of the egress round trip.
#[verifier::rlimit(100)]
proof fn lemma_egress_status_round(when: u64, body: Seq<char>)
    ensures
        parse_egress(egress_text(EgressView::StatusMessage { when, body })) == Ok::<
            EgressView,
            ProtocolError,
        >(EgressView::StatusMessage { when, body }),
{
    lemma_egress_tags();
    let m = EgressView::StatusMessage { when, body };
    let s1 = seq![']'];
    let s2 = seq!['}'] + s1;
    let s3 = quoted("body"@) + seq![':'] + quoted(body) + s2;
    let s4 = seq![','] + s3;
    let s5 = quoted("when"@) + seq![':'] + dec_digits(when) + s4;
    let s6 = seq!['{'] + s5;
    let s7 = seq![','] + s6;
    let s8 = quoted("status_message"@) + s7;
    let text = seq!['['] + s8;
    assert(egress_text(m) =~= text) by {
        reveal_strlit("[\"status_message\",{\"when\":");
        reveal_strlit(",\"body\":");
        reveal_strlit("}]");
        reveal_strlit("status_message");
        reveal_strlit("when");
        reveal_strlit("body");
        lemma_esc_seq_plain("status_message"@);
        lemma_esc_seq_plain("when"@);
        lemma_esc_seq_plain("body"@);
    }
    lemma_expect_head('[', s8);
    lemma_parse_string_val_round("status_message"@, s7);
    lemma_expect_head(',', s6);
    lemma_expect_head('{', s5);
    assert(s4[0] == ',');
    lemma_parse_u64_field_round("when"@, when, s4);
    lemma_expect_head(',', s3);
    lemma_parse_string_field_round("body"@, body, s2);
    lemma_expect_head('}', s1);
    lemma_close_end_bracket();
}

/// The user-message case of the egress round trip.
#[verifier::rlimit(100)]
proof fn lemma_egress_user_round(when: u64, uid: UserId, body: Seq<char>)
    ensures
        parse_egress(egress_text(EgressView::UserMessage { when, uid, body })) == Ok::<
            EgressView,
            ProtocolError,
        >(EgressView::UserMessage { when, uid, body }),
{
    lemma_egress_tags();
    let m = EgressView::UserMessage { when, uid, body };
    let u1 = seq![']'];
    let u2 = seq!['}'] + u1;
    let u3 = quoted("body"@) + seq![':'] + quoted(body) + u2;
    let u4 = seq![','] + u3;
    let u5 = quoted("uid"@) + seq![':'] + dec_digits(uid.0) + u4;
    let u6 = seq![','] + u5;
    let u7 = quoted("when"@) + seq![':'] + dec_digits(when) + u6;
    let u8 = seq!['{'] + u7;
    let u9 = seq![','] + u8;
    let u10 = quoted("user_message"@) + u9;
    let text = seq!['['] + u10;
    assert(egress_text(m) =~= text) by {
        reveal_strlit("[\"user_message\",{\"when\":");
        reveal_strlit(",\"uid\":");
        reveal_strlit(",\"body\":");
        reveal_strlit("}]");
        reveal_strlit("user_message");
        reveal_strlit("when");
        reveal_strlit("uid");
        reveal_strlit("body");
        lemma_esc_seq_plain("user_message"@);
        lemma_esc_seq_plain("when"@);
        lemma_esc_seq_plain("uid"@);
        lemma_esc_seq_plain("body"@);
    }
    lemma_expect_head('[', u10);
    lemma_parse_string_val_round("user_message"@, u9);
    assert(u4[0] == ',');
    lemma_when_uid_round(when, uid, u4);
    lemma_expect_head(',', u3);
    lemma_parse_string_field_round("body"@, body, u2);
    lemma_expect_head('}', u1);
    lemma_close_end_bracket();
}

/// The playback case of the egress round trip.
#[verifier::rlimit(100)]
proof fn lemma_egress_playback_round(p: PlaybackView)
    ensures
        parse_egress(egress_text(EgressView::PlaybackMessage(p))) == Ok::<
            EgressView,
            ProtocolError,
        >(EgressView::PlaybackMessage(p)),
{
    lemma_egress_tags();
    let m = EgressView::PlaybackMessage(p);
    let pm1 = seq![']'];
    let pm2 = playback_text(p) + pm1;
    let pm3 = seq![','] + pm2;
    let pm4 = quoted("playback_message"@) + pm3;
    let text = seq!['['] + pm4;
    assert(egress_text(m) =~= text) by {
        reveal_strlit("[\"playback_message\",");
        reveal_strlit("]");
        reveal_strlit("playback_message");
        lemma_esc_seq_plain("playback_message"@);
    }
    lemma_expect_head('[', pm4);
    lemma_parse_string_val_round("playback_message"@, pm3);
    lemma_expect_head(',', pm2);
    lemma_playback_round_trip(p, pm1);
    lemma_close_end_bracket();
}

/// Decoding a canonically encoded egress frame yields the original event:
/// the egress codec round-trips on every message.
pub proof fn lemma_egress_round_trip(m: EgressView)
    ensures
        parse_egress(egress_text(m)) == Ok::<EgressView, ProtocolError>(m),
{
    match m {
        EgressView::Clock { when } => lemma_egress_clock_round(when),
        EgressView::Join { when, uid, nick } => lemma_egress_join_round(when, uid, nick),
        EgressView::Part { when, uid } => lemma_egress_part_round(when, uid),
        EgressView::StatusMessage { when, body } => lemma_egress_status_round(when, body),
        EgressView::UserMessage { when, uid, body } => lemma_egress_user_round(when, uid, body),
        EgressView::PlaybackMessage(p) => lemma_egress_playback_round(p),
    }
}

/// Scans `, { "when": n, "uid": n`.
fn scan_when_uid(v: &Vec<char>, i: usize) -> (r: Result<(u64, u64, usize), ProtocolError>)
    requires
        i <= v@.len(),
    ensures
        match r {
            Ok((w, u, j)) => j <= v@.len() && (parse_when_uid(v@.skip(i as int)) matches Ok(
                (wu, rest),
            ) && wu == (w, u) && v@.skip(j as int) == rest),
            Err(_) => parse_when_uid(v@.skip(i as int)) is Err,
        },
{
    let r0 = match scan_expect(v, i, ',') {
        Ok(j) => j,
        Err(e) => {
            return Err(e);
        },
    };
    let r1 = match scan_expect(v, r0, '{') {
        Ok(j) => j,
        Err(e) => {
            return Err(e);
        },
    };
    let (w, r2) = match scan_u64_field(v, r1, "when") {
        Ok(wj) => wj,
        Err(e) => {
            return Err(e);
        },
    };
    let r3 = match scan_expect(v, r2, ',') {
        Ok(j) => j,
        Err(e) => {
            return Err(e);
        },
    };
    let (u, r4) = match scan_u64_field(v, r3, "uid") {
        Ok(uj) => uj,
        Err(e) => {
            return Err(e);
        },
    };
    Ok((w, u, r4))
}

/// Scans a track payload and the closing of the nested array.
fn scan_track_payload(v: &Vec<char>, i: usize) -> (r: Result<(u64, u64, Vec<char>, usize),
    ProtocolError,
>)
    requires
        i <= v@.len(),
    ensures
        match r {
            Ok((w, u, y, j)) => j <= v@.len() && (parse_track_payload(v@.skip(i as int)) matches Ok(
                (wuy, rest),
            ) && wuy == (w, u, y@) && v@.skip(j as int) == rest),
            Err(_) => parse_track_payload(v@.skip(i as int)) is Err,
        },
{
    let (w, u, r0) = match scan_when_uid(v, i) {
        Ok(x) => x,
        Err(e) => {
            return Err(e);
        },
    };
    let r1 = match scan_expect(v, r0, ',') {
        Ok(j) => j,
        Err(e) => {
            return Err(e);
        },
    };
    let (y, r2) = match scan_string_field(v, r1, "yid") {
        Ok(x) => x,
        Err(e) => {
            return Err(e);
        },
    };
    let r3 = match scan_expect(v, r2, '}') {
        Ok(j) => j,
        Err(e) => {
            return Err(e);
        },
    };
    let r4 = match scan_expect(v, r3, ']') {
        Ok(j) => j,
        Err(e) => {
            return Err(e);
        },
    };
    Ok((w, u, y, r4))
}

/// Scans the nested playback array.
fn scan_playback(v: &Vec<char>, i: usize) -> (r: Result<(PlaybackMessage, usize), ProtocolError>)
    requires
        i <= v@.len(),
    ensures
        match r {
            Ok((m, j)) => j <= v@.len() && (parse_playback(v@.skip(i as int)) matches Ok((mv, rest))
                && m@ == mv && v@.skip(j as int) == rest),
            Err(_) => parse_playback(v@.skip(i as int)) is Err,
        },
{
    let r0 = match scan_expect(v, i, '[') {
        Ok(j) => j,
        Err(e) => {
            return Err(e);
        },
    };
    let (tag, r1) = match scan_string_val(v, r0) {
        Ok(x) => x,
        Err(e) => {
            return Err(e);
        },
    };
    let tag_s = chars_to_string(&tag);
    let f = match PlaybackMessageField::from_name(tag_s.as_str()) {
        Ok(f) => f,
        Err(_) => {
            return Err(ProtocolError);
        },
    };
    match f {
        PlaybackMessageField::EnqueueItem => {
            let (w, u, y, j) = match scan_track_payload(v, r1) {
                Ok(x) => x,
                Err(e) => {
                    return Err(e);
                },
            };
            Ok(
                (
                    PlaybackMessage::EnqueueItem(
                        EnqueueItem { when: w, uid: UserId(u), yid: chars_to_string(&y) },
                    ),
                    j,
                ),
            )
        },
        PlaybackMessageField::PlayItem => {
            let (w, u, y, j) = match scan_track_payload(v, r1) {
                Ok(x) => x,
                Err(e) => {
                    return Err(e);
                },
            };
            Ok(
                (
                    PlaybackMessage::PlayItem(
                        PlayItem { when: w, uid: UserId(u), yid: chars_to_string(&y) },
                    ),
                    j,
                ),
            )
        },
        PlaybackMessageField::Skip => {
            let r2 = match scan_expect(v, r1, ',') {
                Ok(j) => j,
                Err(e) => {
                    return Err(e);
                },
            };
            let r3 = match scan_expect(v, r2, '{') {
                Ok(j) => j,
                Err(e) => {
                    return Err(e);
                },
            };
            let (u, r4) = match scan_u64_field(v, r3, "uid") {
                Ok(x) => x,
                Err(e) => {
                    return Err(e);
                },
            };
            let r5 = match scan_expect(v, r4, '}') {
                Ok(j) => j,
                Err(e) => {
                    return Err(e);
                },
            };
            let r6 = match scan_expect(v, r5, ']') {
                Ok(j) => j,
                Err(e) => {
                    return Err(e);
                },
            };
            Ok((PlaybackMessage::Skip(Skip { uid: UserId(u) }), r6))
        },
    }
}

/// Decodes one ingress frame, all-or-nothing: a malformed frame, an
/// unknown tag, a payload of the wrong shape or a trailing element fail
/// and the frame is rejected whole.
pub fn decode_ingress(s: &str) -> (r: Result<IngressMessage, ProtocolError>)
    ensures
        match r {
            Ok(m) => parse_ingress(s@) matches Ok(mv) && m@ == mv,
            Err(_) => parse_ingress(s@) is Err,
        },
{
    let v = str_to_chars(s);
    proof {
        assert(v@.skip(0) =~= v@);
    }
    let r0 = match scan_expect(&v, 0, '[') {
        Ok(j) => j,
        Err(e) => {
            return Err(e);
        },
    };
    let (tag, r1) = match scan_string_val(&v, r0) {
        Ok(x) => x,
        Err(e) => {
            return Err(e);
        },
    };
    let tag_s = chars_to_string(&tag);
    let f = match IngressMessageField::from_name(tag_s.as_str()) {
        Ok(f) => f,
        Err(_) => {
            return Err(ProtocolError);
        },
    };
    match f {
        IngressMessageField::Register => {
            let r2 = match scan_expect(&v, r1, ',') {
                Ok(j) => j,
                Err(e) => {
                    return Err(e);
                },
            };
            let r3 = match scan_expect(&v, r2, '{') {
                Ok(j) => j,
                Err(e) => {
                    return Err(e);
                },
            };
            let (nick, r4) = match scan_string_field(&v, r3, "nick") {
                Ok(x) => x,
                Err(e) => {
                    return Err(e);
                },
            };
            let r5 = match scan_expect(&v, r4, '}') {
                Ok(j) => j,
                Err(e) => {
                    return Err(e);
                },
            };
            if scan_close_end(&v, r5) {
                Ok(IngressMessage::Register(RegisterMessage { nick: chars_to_string(&nick) }))
            } else {
                Err(ProtocolError)
            }
        },
        IngressMessageField::Message => {
            let r2 = match scan_expect(&v, r1, ',') {
                Ok(j) => j,
                Err(e) => {
                    return Err(e);
                },
            };
            let (body, r3) = match scan_string_val(&v, r2) {
                Ok(x) => x,
                Err(e) => {
                    return Err(e);
                },
            };
            if scan_close_end(&v, r3) {
                Ok(IngressMessage::Message(chars_to_string(&body)))
            } else {
                Err(ProtocolError)
            }
        },
        IngressMessageField::Disconnect => {
            if scan_close_end(&v, r1) {
                Ok(IngressMessage::Disconnect)
            } else {
                Err(ProtocolError)
            }
        },
        IngressMessageField::Skip => {
            if scan_close_end(&v, r1) {
                Ok(IngressMessage::Skip)
            } else {
                Err(ProtocolError)
            }
        },
        IngressMessageField::Part => {
            if scan_close_end(&v, r1) {
                Ok(IngressMessage::Part)
            } else {
                Err(ProtocolError)
            }
        },
        IngressMessageField::DjQueue => {
            if scan_close_end(&v, r1) {
                Ok(IngressMessage::DjQueue)
            } else {
                Err(ProtocolError)
            }
        },
        IngressMessageField::DjUnqueue => {
            if scan_close_end(&v, r1) {
                Ok(IngressMessage::DjUnqueue)
            } else {
                Err(ProtocolError)
            }
        },
    }
}

/// Decodes one egress frame, all-or-nothing, as a client of the room
/// would.
pub fn decode_egress(s: &str) -> (r: Result<EgressMessage, ProtocolError>)
    ensures
        match r {
            Ok(m) => parse_egress(s@) matches Ok(mv) && m@ == mv,
            Err(_) => parse_egress(s@) is Err,
        },
{
    let v = str_to_chars(s);
    proof {
        assert(v@.skip(0) =~= v@);
    }
    let r0 = match scan_expect(&v, 0, '[') {
        Ok(j) => j,
        Err(e) => {
            return Err(e);
        },
    };
    let (tag, r1) = match scan_string_val(&v, r0) {
        Ok(x) => x,
        Err(e) => {
            return Err(e);
        },
    };
    let tag_s = chars_to_string(&tag);
    let f = match EgressMessageField::from_name(tag_s.as_str()) {
        Ok(f) => f,
        Err(_) => {
            return Err(ProtocolError);
        },
    };
    match f {
        EgressMessageField::Clock => {
            let r2 = match scan_expect(&v, r1, ',') {
                Ok(j) => j,
                Err(e) => {
                    return Err(e);
                },
            };
            let r3 = match scan_expect(&v, r2, '{') {
                Ok(j) => j,
                Err(e) => {
                    return Err(e);
                },
            };
            let (w, r4) = match scan_u64_field(&v, r3, "when") {
                Ok(x) => x,
                Err(e) => {
                    return Err(e);
                },
            };
            let r5 = match scan_expect(&v, r4, '}') {
                Ok(j) => j,
                Err(e) => {
                    return Err(e);
                },
            };
            if scan_close_end(&v, r5) {
                Ok(EgressMessage::Clock(Clock { when: w }))
            } else {
                Err(ProtocolError)
            }
        },
        EgressMessageField::Join => {
            let (w, u, r2) = match scan_when_uid(&v, r1) {
                Ok(x) => x,
                Err(e) => {
                    return Err(e);
                },
            };
            let r3 = match scan_expect(&v, r2, ',') {
                Ok(j) => j,
                Err(e) => {
                    return Err(e);
                },
            };
            let (nick, r4) = match scan_string_field(&v, r3, "nick") {
                Ok(x) => x,
                Err(e) => {
                    return Err(e);
                },
            };
            let r5 = match scan_expect(&v, r4, '}') {
                Ok(j) => j,
                Err(e) => {
                    return Err(e);
                },
            };
            if scan_close_end(&v, r5) {
                Ok(
                    EgressMessage::Join(
                        Join { when: w, uid: UserId(u), nick: chars_to_string(&nick) },
                    ),
                )
            } else {
                Err(ProtocolError)
            }
        },
        EgressMessageField::Part => {
            let (w, u, r2) = match scan_when_uid(&v, r1) {
                Ok(x) => x,
                Err(e) => {
                    return Err(e);
                },
            };
            let r3 = match scan_expect(&v, r2, '}') {
                Ok(j) => j,
                Err(e) => {
                    return Err(e);
                },
            };
            if scan_close_end(&v, r3) {
                Ok(EgressMessage::Part(Part { when: w, uid: UserId(u) }))
            } else {
                Err(ProtocolError)
            }
        },
        EgressMessageField::StatusMessage => {
            let r2 = match scan_expect(&v, r1, ',') {
                Ok(j) => j,
                Err(e) => {
                    return Err(e);
                },
            };
            let r3 = match scan_expect(&v, r2, '{') {
                Ok(j) => j,
                Err(e) => {
                    return Err(e);
                },
            };
            let (w, r4) = match scan_u64_field(&v, r3, "when") {
                Ok(x) => x,
                Err(e) => {
                    return Err(e);
                },
            };
            let r5 = match scan_expect(&v, r4, ',') {
                Ok(j) => j,
                Err(e) => {
                    return Err(e);
                },
            };
            let (body, r6) = match scan_string_field(&v, r5, "body") {
                Ok(x) => x,
                Err(e) => {
                    return Err(e);
                },
            };
            let r7 = match scan_expect(&v, r6, '}') {
                Ok(j) => j,
                Err(e) => {
                    return Err(e);
                },
            };
            if scan_close_end(&v, r7) {
                Ok(
                    EgressMessage::StatusMessage(
                        StatusMessage { when: w, body: chars_to_string(&body) },
                    ),
                )
            } else {
                Err(ProtocolError)
            }
        },
        EgressMessageField::UserMessage => {
            let (w, u, r2) = match scan_when_uid(&v, r1) {
                Ok(x) => x,
                Err(e) => {
                    return Err(e);
                },
            };
            let r3 = match scan_expect(&v, r2, ',') {
                Ok(j) => j,
                Err(e) => {
                    return Err(e);
                },
            };
            let (body, r4) = match scan_string_field(&v, r3, "body") {
                Ok(x) => x,
                Err(e) => {
                    return Err(e);
                },
            };
            let r5 = match scan_expect(&v, r4, '}') {
                Ok(j) => j,
                Err(e) => {
                    return Err(e);
                },
            };
            if scan_close_end(&v, r5) {
                Ok(
                    EgressMessage::UserMessage(
                        UserMessage { when: w, uid: UserId(u), body: chars_to_string(&body) },
                    ),
                )
            } else {
                Err(ProtocolError)
            }
        },
        EgressMessageField::PlaybackMessage => {
            let r2 = match scan_expect(&v, r1, ',') {
                Ok(j) => j,
                Err(e) => {
                    return Err(e);
                },
            };
            let (p, r3) = match scan_playback(&v, r2) {
                Ok(x) => x,
                Err(e) => {
                    return Err(e);
                },
            };
            if scan_close_end(&v, r3) {
                Ok(EgressMessage::PlaybackMessage(p))
            } else {
                Err(ProtocolError)
            }
        },
    }
}

/// Encodes one egress event as a text frame.
pub fn encode_egress(m: &EgressMessage) -> (r: String)
    ensures
        r@ == egress_text(m@),
{
    let mut v: Vec<char> = Vec::new();
    match m {
        EgressMessage::Clock(c) => {
            push_str_chars(&mut v, "[\"clock\",{\"when\":");
            push_u64(&mut v, c.when);
            push_str_chars(&mut v, "}]");
        },
        EgressMessage::Join(j) => {
            push_str_chars(&mut v, "[\"join\",{\"when\":");
            push_u64(&mut v, j.when);
            push_str_chars(&mut v, ",\"uid\":");
            push_u64(&mut v, j.uid.0);
            push_str_chars(&mut v, ",\"nick\":");
            push_quoted(&mut v, j.nick.as_str());
            push_str_chars(&mut v, "}]");
        },
        EgressMessage::Part(p) => {
            push_str_chars(&mut v, "[\"part\",{\"when\":");
            push_u64(&mut v, p.when);
            push_str_chars(&mut v, ",\"uid\":");
            push_u64(&mut v, p.uid.0);
            push_str_chars(&mut v, "}]");
        },
        EgressMessage::StatusMessage(s) => {
            push_str_chars(&mut v, "[\"status_message\",{\"when\":");
            push_u64(&mut v, s.when);
            push_str_chars(&mut v, ",\"body\":");
            push_quoted(&mut v, s.body.as_str());
            push_str_chars(&mut v, "}]");
        },
        EgressMessage::UserMessage(u) => {
            push_str_chars(&mut v, "[\"user_message\",{\"when\":");
            push_u64(&mut v, u.when);
            push_str_chars(&mut v, ",\"uid\":");
            push_u64(&mut v, u.uid.0);
            push_str_chars(&mut v, ",\"body\":");
            push_quoted(&mut v, u.body.as_str());
            push_str_chars(&mut v, "}]");
        },
        EgressMessage::PlaybackMessage(p) => {
            push_str_chars(&mut v, "[\"playback_message\",");
            push_playback(&mut v, p);
            push_str_chars(&mut v, "]");
        },
    }
    proof {
        assert(v@ =~= egress_text(m@));
    }
    chars_to_string(&v)
}

/// Encodes one ingress event as a text frame.
pub fn encode_ingress(m: &IngressMessage) -> (r: String)
    ensures
        r@ == ingress_text(m@),
{
    let mut v: Vec<char> = Vec::new();
    match m {
        IngressMessage::Register(reg) => {
            push_str_chars(&mut v, "[\"register\",{\"nick\":");
            push_quoted(&mut v, reg.nick.as_str());
            push_str_chars(&mut v, "}]");
        },
        IngressMessage::Disconnect => {
            push_str_chars(&mut v, "[\"disconnect\"]");
        },
        IngressMessage::Skip => {
            push_str_chars(&mut v, "[\"skip\"]");
        },
        IngressMessage::Part => {
            push_str_chars(&mut v, "[\"part\"]");
        },
        IngressMessage::DjQueue => {
            push_str_chars(&mut v, "[\"dj_queue\"]");
        },
        IngressMessage::DjUnqueue => {
            push_str_chars(&mut v, "[\"dj_unqueue\"]");
        },
        IngressMessage::Message(body) => {
            push_str_chars(&mut v, "[\"message\",");
            push_quoted(&mut v, body.as_str());
            push_str_chars(&mut v, "]");
        },
    }
    proof {
        assert(v@ =~= ingress_text(m@));
    }
    chars_to_string(&v)
}

} // verus!
