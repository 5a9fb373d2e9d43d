//! Wire codec: length-prefixed JSON-shaped frames.
//!
//! One frame carries one message: a 4-byte length prefix followed by that
//! many body bytes.  The daemon speaks the host's native byte order, which
//! is little-endian on every target this greeter runs on, so the codec
//! states and implements the prefix as little-endian.  A body is the UTF-8
//! JSON text of the message, with the field names and order fixed by the
//! protocol.  The grammar is small enough that the codec is the crate's
//! own logic: the body serializer and parser below are written against an
//! exact mathematical description of the byte strings, and the request
//! codec is proved to round-trip.

use vstd::prelude::*;
use vstd::string::StringSliceAdditionalSpecFns;
use crate::msg::{Request, RequestView, Response, ResponseView, AuthMessageKind, ErrorKind,
    FatalError};

verus! {

pub const QUOTE: u8 = 0x22;
pub const BACKSLASH: u8 = 0x5c;
pub const SLASH: u8 = 0x2f;
pub const RBRACE: u8 = 0x7d;
pub const RBRACKET: u8 = 0x5d;
pub const COMMA: u8 = 0x2c;

/// Lower-case hexadecimal digit of a nibble.
pub open spec fn hex_digit(n: u8) -> u8
    recommends
        n < 16,
{
    if n < 10 {
        (0x30 + n) as u8
    } else {
        (0x61 + (n - 10)) as u8
    }
}

/// Value of a hexadecimal digit byte (either case), 16 when not a digit.
pub open spec fn hex_value(b: u8) -> u8 {
    if 0x30 <= b && b <= 0x39 {
        (b - 0x30) as u8
    } else if 0x61 <= b && b <= 0x66 {
        (b - 0x61 + 10) as u8
    } else if 0x41 <= b && b <= 0x46 {
        (b - 0x41 + 10) as u8
    } else {
        16
    }
}

pub open spec fn is_hex_digit(b: u8) -> bool {
    hex_value(b) < 16
}

/// JSON escape of one byte of string content: quote and backslash take a
/// two-byte escape, control bytes take their short escape where JSON has
/// one and a `\u00xx` escape otherwise, every other byte stands as itself.
pub open spec fn escape_byte(b: u8) -> Seq<u8> {
    if b == QUOTE {
        seq![BACKSLASH, QUOTE]
    } else if b == BACKSLASH {
        seq![BACKSLASH, BACKSLASH]
    } else if b == 0x08 {
        seq![BACKSLASH, 0x62]
    } else if b == 0x09 {
        seq![BACKSLASH, 0x74]
    } else if b == 0x0a {
        seq![BACKSLASH, 0x6e]
    } else if b == 0x0c {
        seq![BACKSLASH, 0x66]
    } else if b == 0x0d {
        seq![BACKSLASH, 0x72]
    } else if b < 0x20 {
        seq![BACKSLASH, 0x75, 0x30, 0x30, hex_digit(b / 16), hex_digit(b % 16)]
    } else {
        seq![b]
    }
}

/// JSON escape of a whole byte string (the text between the quotes of a
/// JSON string literal).
pub open spec fn escape(s: Seq<u8>) -> Seq<u8>
    decreases s.len(),
{
    if s.len() == 0 {
        Seq::empty()
    } else {
        escape_byte(s[0]) + escape(s.drop_first())
    }
}

/// A byte string that the escape leaves unchanged.
pub open spec fn plain(s: Seq<u8>) -> bool {
    forall|i: int|
        0 <= i < s.len() ==> s[i] != QUOTE && s[i] != BACKSLASH && s[i] >= 0x20
}

proof fn lemma_escape_plain(s: Seq<u8>)
    requires
        plain(s),
    ensures
        escape(s) == s,
    decreases s.len(),
{
    if s.len() == 0 {
        assert(escape(s) =~= s);
    } else {
        lemma_escape_plain(s.drop_first());
        assert(escape(s) =~= s);
    }
}

proof fn lemma_escape_append(s: Seq<u8>, b: u8)
    ensures
        escape(s.push(b)) == escape(s) + escape_byte(b),
    decreases s.len(),
{
    reveal_with_fuel(escape, 3);
    if s.len() == 0 {
        assert(s.push(b).drop_first() =~= Seq::<u8>::empty());
        assert(escape(s.push(b)) =~= escape(s) + escape_byte(b));
    } else {
        assert(s.push(b).drop_first() =~= s.drop_first().push(b));
        lemma_escape_append(s.drop_first(), b);
        assert(escape(s.push(b)) =~= escape(s) + escape_byte(b));
    }
}

/// Parse JSON string content beginning at `i` (just past the opening
/// quote) up to and including the closing quote.  Yields the unescaped
/// content and the position just past the closing quote.
pub open spec fn parse_str(s: Seq<u8>, i: int) -> Option<(Seq<u8>, int)>
    decreases s.len() - i,
{
    if i < 0 || i >= s.len() {
        None
    } else if s[i] == QUOTE {
        Some((Seq::empty(), i + 1))
    } else if s[i] == BACKSLASH {
        if i + 1 < s.len() {
            let e = s[i + 1];
            if e == QUOTE || e == BACKSLASH || e == SLASH {
                parse_str_cons(e, parse_str(s, i + 2))
            } else if e == 0x62 {
                parse_str_cons(0x08, parse_str(s, i + 2))
            } else if e == 0x74 {
                parse_str_cons(0x09, parse_str(s, i + 2))
            } else if e == 0x6e {
                parse_str_cons(0x0a, parse_str(s, i + 2))
            } else if e == 0x66 {
                parse_str_cons(0x0c, parse_str(s, i + 2))
            } else if e == 0x72 {
                parse_str_cons(0x0d, parse_str(s, i + 2))
            } else if e == 0x75 && i + 5 < s.len() && s[i + 2] == 0x30 && s[i + 3] == 0x30
                && is_hex_digit(s[i + 4]) && is_hex_digit(s[i + 5]) {
                parse_str_cons((hex_value(s[i + 4]) * 16 + hex_value(s[i + 5])) as u8,
                    parse_str(s, i + 6))
            } else {
                None
            }
        } else {
            None
        }
    } else if s[i] < 0x20 {
        None
    } else {
        parse_str_cons(s[i], parse_str(s, i + 1))
    }
}

pub open spec fn parse_str_cons(b: u8, rest: Option<(Seq<u8>, int)>) -> Option<(Seq<u8>, int)> {
    match rest {
        Some((v, j)) => Some((seq![b] + v, j)),
        None => None,
    }
}

/// A successful string parse always advances, and never past the end.
proof fn lemma_parse_str_advances(s: Seq<u8>, i: int)
    ensures
        parse_str(s, i) matches Some((v, j)) ==> i < j <= s.len(),
    decreases s.len() - i,
{
    if 0 <= i < s.len() {
        lemma_parse_str_advances(s, i + 1);
        if i + 1 < s.len() {
            lemma_parse_str_advances(s, i + 2);
        }
        if i + 5 < s.len() {
            lemma_parse_str_advances(s, i + 6);
        }
    }
}

proof fn lemma_hex_round(n: u8)
    requires
        n < 16,
    ensures
        hex_value(hex_digit(n)) == n,
{
}

/// Carve the head `a` off a known suffix of `ctx`: the bytes of `a` stand
/// at `i`, and the rest stands just after them.
proof fn lemma_split_suffix(ctx: Seq<u8>, i: int, a: Seq<u8>, rest: Seq<u8>)
    requires
        0 <= i <= ctx.len(),
        ctx.subrange(i, ctx.len() as int) == a + rest,
    ensures
        ctx.len() == i + a.len() + rest.len(),
        ctx.subrange(i + a.len(), ctx.len() as int) == rest,
        forall|k: int|
            #![trigger a[k]]
            #![trigger ctx[i + k]]
            0 <= k < a.len() ==> ctx[i + k] == a[k],
        forall|k: int|
            #![trigger rest[k]]
            #![trigger ctx[i + a.len() + k]]
            0 <= k < rest.len() ==> ctx[i + a.len() + k] == rest[k],
        begins(ctx, i, a),
{
    let n = a.len() as int;
    let m = rest.len() as int;
    assert(ctx.subrange(i, ctx.len() as int).len() == ctx.len() - i);
    assert(ctx.subrange(i, ctx.len() as int).len() == (a + rest).len());
    assert((a + rest).len() == n + m);
    assert(ctx.len() == i + n + m);
    assert forall|k: int| 0 <= k < m implies ctx[i + n + k] == rest[k] by {
        assert(0 <= n + k < ctx.len() - i);
        assert(ctx.subrange(i, ctx.len() as int)[n + k] == ctx[i + (n + k)]);
        assert((a + rest)[n + k] == rest[k]);
    }
    assert(ctx.subrange(i + n, ctx.len() as int) =~= rest);
    assert forall|k: int| 0 <= k < n implies ctx[i + k] == a[k] by {
        assert(ctx.subrange(i, ctx.len() as int)[k] == ctx[i + k]);
        assert((a + rest)[k] == a[k]);
    }
    assert(ctx.subrange(i, i + n) =~= a);
}

/// Inversion of the escaper: at a position whose suffix is the escape of
/// `s`, a closing quote, and anything after, the string parser yields
/// exactly `s` and stops just past that quote.
proof fn lemma_parse_escaped(ctx: Seq<u8>, i: int, s: Seq<u8>, tail: Seq<u8>)
    requires
        0 <= i <= ctx.len(),
        ctx.subrange(i, ctx.len() as int) == escape(s) + (seq![QUOTE] + tail),
    ensures
        parse_str(ctx, i) == Some((s, i + escape(s).len() + 1)),
    decreases s.len(),
{
    lemma_split_suffix(ctx, i, escape(s), seq![QUOTE] + tail);
    if s.len() == 0 {
        assert(escape(s) =~= Seq::<u8>::empty());
        assert(ctx[i] == (escape(s) + (seq![QUOTE] + tail))[0]);
        assert(ctx[i] == QUOTE);
        assert(s =~= Seq::<u8>::empty());
        assert(parse_str(ctx, i) == Some((s, i + escape(s).len() + 1)));
    } else {
        let b = s[0];
        let s1 = s.drop_first();
        let e = escape_byte(b);
        assert(escape(s) == e + escape(s1));
        let suffix1 = escape(s1) + (seq![QUOTE] + tail);
        assert(escape(s) + (seq![QUOTE] + tail) =~= e + suffix1);
        lemma_split_suffix(ctx, i, e, suffix1);
        lemma_parse_escaped(ctx, i + e.len(), s1, tail);
        assert(seq![b] + s1 =~= s);
        if b == QUOTE || b == BACKSLASH {
            assert(ctx[i] == BACKSLASH);
            assert(ctx[i + 1] == b);
            assert(parse_str(ctx, i) == Some((s, i + escape(s).len() + 1)));
        } else if b == 0x08 || b == 0x09 || b == 0x0a || b == 0x0c || b == 0x0d {
            assert(ctx[i] == BACKSLASH);
            assert(ctx[i + 1] == e[1]);
            assert(parse_str(ctx, i) == Some((s, i + escape(s).len() + 1)));
        } else if b < 0x20 {
            assert(ctx[i] == BACKSLASH);
            assert(ctx[i + 1] == 0x75);
            assert(ctx[i + 2] == 0x30);
            assert(ctx[i + 3] == 0x30);
            assert(ctx[i + 4] == hex_digit(b / 16));
            assert(ctx[i + 5] == hex_digit(b % 16));
            lemma_hex_round(b / 16);
            lemma_hex_round(b % 16);
            assert((hex_value(ctx[i + 4]) * 16 + hex_value(ctx[i + 5])) as u8 == b);
            assert(parse_str(ctx, i) == Some((s, i + escape(s).len() + 1)));
        } else {
            assert(ctx[i] == b);
            assert(parse_str(ctx, i) == Some((s, i + escape(s).len() + 1)));
        }
    }
}

/// Bytes of an ASCII character sequence, one byte per character.
pub open spec fn ascii_bytes(cs: Seq<char>) -> Seq<u8> {
    Seq::new(cs.len(), |i: int| cs[i] as u8)
}

pub open spec fn lit_obj_type() -> Seq<u8> {
    ascii_bytes("{\"type\":\""@)
}

pub open spec fn lit_key_username() -> Seq<u8> {
    ascii_bytes(",\"username\":\""@)
}

pub open spec fn lit_key_response() -> Seq<u8> {
    ascii_bytes(",\"response\":\""@)
}

pub open spec fn lit_key_cmd() -> Seq<u8> {
    ascii_bytes(",\"cmd\":["@)
}

pub open spec fn lit_key_auth_kind() -> Seq<u8> {
    ascii_bytes(",\"auth_message_type\":\""@)
}

pub open spec fn lit_key_auth_text() -> Seq<u8> {
    ascii_bytes(",\"auth_message\":\""@)
}

pub open spec fn lit_key_error_kind() -> Seq<u8> {
    ascii_bytes(",\"error_type\":\""@)
}

pub open spec fn lit_key_description() -> Seq<u8> {
    ascii_bytes(",\"description\":\""@)
}

pub open spec fn tok_create() -> Seq<u8> {
    ascii_bytes("create_session"@)
}

pub open spec fn tok_post() -> Seq<u8> {
    ascii_bytes("post_auth_message_response"@)
}

pub open spec fn tok_start() -> Seq<u8> {
    ascii_bytes("start_session"@)
}

pub open spec fn tok_cancel() -> Seq<u8> {
    ascii_bytes("cancel_session"@)
}

pub open spec fn tok_success() -> Seq<u8> {
    ascii_bytes("success"@)
}

pub open spec fn tok_auth_message() -> Seq<u8> {
    ascii_bytes("auth_message"@)
}

pub open spec fn tok_error() -> Seq<u8> {
    ascii_bytes("error"@)
}

pub open spec fn tok_auth_error() -> Seq<u8> {
    ascii_bytes("auth_error"@)
}

pub open spec fn tok_visible() -> Seq<u8> {
    ascii_bytes("visible"@)
}

pub open spec fn tok_secret() -> Seq<u8> {
    ascii_bytes("secret"@)
}

pub open spec fn tok_info() -> Seq<u8> {
    ascii_bytes("info"@)
}

/// The `cmd` array of a `start_session` body, from the first item on,
/// together with the closing `]` and `}` of the body.
pub open spec fn cmd_tail(cmd: Seq<Seq<u8>>) -> Seq<u8>
    decreases cmd.len(),
{
    if cmd.len() == 0 {
        seq![RBRACKET, RBRACE]
    } else {
        seq![QUOTE] + escape(cmd[0]) + seq![QUOTE] + (if cmd.len() == 1 {
            seq![RBRACKET, RBRACE]
        } else {
            seq![COMMA] + cmd_tail(cmd.drop_first())
        })
    }
}

/// The exact body bytes of a request: UTF-8 JSON text with the field
/// names, their order, and the escaping fixed.
pub open spec fn request_body(r: RequestView) -> Seq<u8> {
    match r {
        RequestView::CreateSession { username } => lit_obj_type() + tok_create() + seq![QUOTE]
            + lit_key_username() + escape(username) + seq![QUOTE, RBRACE],
        RequestView::PostAuthMessageResponse { response: Option::None } => lit_obj_type()
            + tok_post() + seq![QUOTE, RBRACE],
        RequestView::PostAuthMessageResponse { response: Option::Some(t) } => lit_obj_type()
            + tok_post() + seq![QUOTE] + lit_key_response() + escape(t) + seq![QUOTE, RBRACE],
        RequestView::StartSession { cmd } => lit_obj_type() + tok_start() + seq![QUOTE]
            + lit_key_cmd() + cmd_tail(cmd),
        RequestView::CancelSession => lit_obj_type() + tok_cancel() + seq![QUOTE, RBRACE],
    }
}

/// `p` stands letter for letter at position `i` of `s`.
pub open spec fn begins(s: Seq<u8>, i: int, p: Seq<u8>) -> bool {
    0 <= i && i + p.len() <= s.len() && s.subrange(i, i + p.len()) == p
}

/// Parse the items of a non-empty `cmd` array, `i` standing at the
/// opening quote of the first item; consumes the closing `]`.
pub open spec fn parse_cmd_items(s: Seq<u8>, i: int) -> Option<(Seq<Seq<u8>>, int)>
    decreases s.len() - i,
    via parse_cmd_items_dec
{
    if 0 <= i && i < s.len() && s[i] == QUOTE {
        match parse_str(s, i + 1) {
            Some((v, j)) => if j < s.len() && s[j] == COMMA {
                match parse_cmd_items(s, j + 1) {
                    Some((vs, k)) => Some((seq![v] + vs, k)),
                    None => None,
                }
            } else if j < s.len() && s[j] == RBRACKET {
                Some((seq![v], j + 1))
            } else {
                None
            },
            None => None,
        }
    } else {
        None
    }
}

#[via_fn]
proof fn parse_cmd_items_dec(s: Seq<u8>, i: int) {
    lemma_parse_str_advances(s, i + 1);
}

/// Parse a `cmd` array, `i` standing just past the opening `[`;
/// consumes the closing `]`.
pub open spec fn parse_cmd_list(s: Seq<u8>, i: int) -> Option<(Seq<Seq<u8>>, int)> {
    if 0 <= i && i < s.len() && s[i] == RBRACKET {
        Some((Seq::empty(), i + 1))
    } else {
        parse_cmd_items(s, i)
    }
}

/// Parse a request body.  `None` means the bytes are not a well-formed
/// request.
pub open spec fn parse_request_body(s: Seq<u8>) -> Option<RequestView> {
    if begins(s, 0, lit_obj_type()) {
        match parse_str(s, lit_obj_type().len() as int) {
            Some((ty, j)) => if ty == tok_create() {
                parse_create_rest(s, j)
            } else if ty == tok_post() {
                parse_post_rest(s, j)
            } else if ty == tok_start() {
                parse_start_rest(s, j)
            } else if ty == tok_cancel() {
                if j + 1 == s.len() && s[j] == RBRACE {
                    Some(RequestView::CancelSession)
                } else {
                    None
                }
            } else {
                None
            },
            None => None,
        }
    } else {
        None
    }
}

pub open spec fn parse_create_rest(s: Seq<u8>, j: int) -> Option<RequestView> {
    if begins(s, j, lit_key_username()) {
        match parse_str(s, j + lit_key_username().len()) {
            Some((u, k)) => if k + 1 == s.len() && s[k] == RBRACE {
                Some(RequestView::CreateSession { username: u })
            } else {
                None
            },
            None => None,
        }
    } else {
        None
    }
}

pub open spec fn parse_post_rest(s: Seq<u8>, j: int) -> Option<RequestView> {
    if 0 <= j && j + 1 == s.len() && s[j] == RBRACE {
        Some(RequestView::PostAuthMessageResponse { response: None })
    } else if begins(s, j, lit_key_response()) {
        match parse_str(s, j + lit_key_response().len()) {
            Some((t, k)) => if k + 1 == s.len() && s[k] == RBRACE {
                Some(RequestView::PostAuthMessageResponse { response: Some(t) })
            } else {
                None
            },
            None => None,
        }
    } else {
        None
    }
}

pub open spec fn parse_start_rest(s: Seq<u8>, j: int) -> Option<RequestView> {
    if begins(s, j, lit_key_cmd()) {
        match parse_cmd_list(s, j + lit_key_cmd().len()) {
            Some((vs, k)) => if k + 1 == s.len() && s[k] == RBRACE {
                Some(RequestView::StartSession { cmd: vs })
            } else {
                None
            },
            None => None,
        }
    } else {
        None
    }
}

/// Parse a response body.  `None` means the bytes are not a well-formed
/// response.
pub open spec fn parse_response_body(s: Seq<u8>) -> Option<ResponseView> {
    if begins(s, 0, lit_obj_type()) {
        match parse_str(s, lit_obj_type().len() as int) {
            Some((ty, j)) => if ty == tok_success() {
                if j + 1 == s.len() && s[j] == RBRACE {
                    Some(ResponseView::Success)
                } else {
                    None
                }
            } else if ty == tok_auth_message() {
                parse_auth_message_rest(s, j)
            } else if ty == tok_error() {
                parse_error_rest(s, j)
            } else {
                None
            },
            None => None,
        }
    } else {
        None
    }
}

pub open spec fn auth_kind_of(t: Seq<u8>) -> Option<AuthMessageKind> {
    if t == tok_visible() {
        Some(AuthMessageKind::Visible)
    } else if t == tok_secret() {
        Some(AuthMessageKind::Secret)
    } else if t == tok_info() {
        Some(AuthMessageKind::Info)
    } else if t == tok_error() {
        Some(AuthMessageKind::Error)
    } else {
        None
    }
}

pub open spec fn error_kind_of(t: Seq<u8>) -> Option<ErrorKind> {
    if t == tok_error() {
        Some(ErrorKind::Generic)
    } else if t == tok_auth_error() {
        Some(ErrorKind::Auth)
    } else {
        None
    }
}

pub open spec fn parse_auth_message_rest(s: Seq<u8>, j: int) -> Option<ResponseView> {
    if begins(s, j, lit_key_auth_kind()) {
        match parse_str(s, j + lit_key_auth_kind().len()) {
            Some((kt, k)) => match auth_kind_of(kt) {
                Some(kind) => if begins(s, k, lit_key_auth_text()) {
                    match parse_str(s, k + lit_key_auth_text().len()) {
                        Some((txt, m)) => if m + 1 == s.len() && s[m] == RBRACE {
                            Some(ResponseView::AuthMessage { kind, text: txt })
                        } else {
                            None
                        },
                        None => None,
                    }
                } else {
                    None
                },
                None => None,
            },
            None => None,
        }
    } else {
        None
    }
}

pub open spec fn parse_error_rest(s: Seq<u8>, j: int) -> Option<ResponseView> {
    if begins(s, j, lit_key_error_kind()) {
        match parse_str(s, j + lit_key_error_kind().len()) {
            Some((kt, k)) => match error_kind_of(kt) {
                Some(kind) => if begins(s, k, lit_key_description()) {
                    match parse_str(s, k + lit_key_description().len()) {
                        Some((d, m)) => if m + 1 == s.len() && s[m] == RBRACE {
                            Some(ResponseView::Error { kind, description: d })
                        } else {
                            None
                        },
                        None => None,
                    }
                } else {
                    None
                },
                None => None,
            },
            None => None,
        }
    } else {
        None
    }
}

/// Concrete facts about the request type tokens: none needs escaping,
/// and they are pairwise distinct.
proof fn lemma_request_tok_facts()
    ensures
        plain(tok_create()),
        plain(tok_post()),
        plain(tok_start()),
        plain(tok_cancel()),
        tok_post() != tok_create(),
        tok_start() != tok_create(),
        tok_start() != tok_post(),
        tok_cancel() != tok_create(),
        tok_cancel() != tok_post(),
        tok_cancel() != tok_start(),
{
    reveal_strlit("create_session");
    reveal_strlit("post_auth_message_response");
    reveal_strlit("start_session");
    reveal_strlit("cancel_session");
    assert(tok_create().len() == 14);
    assert(tok_post().len() == 26);
    assert(tok_start().len() == 13);
    assert(tok_cancel().len() == 14);
    assert(tok_create()[1] == 0x72);
    assert(tok_cancel()[1] == 0x61);
}

/// At a position whose suffix is the serialized tail of a `cmd` array,
/// the array parser yields exactly the array's items and stops just past
/// the closing `]`, at the closing `}` of the body.
proof fn lemma_parse_cmd_tail(ctx: Seq<u8>, i: int, cmd: Seq<Seq<u8>>)
    requires
        0 <= i <= ctx.len(),
        ctx.subrange(i, ctx.len() as int) == cmd_tail(cmd),
    ensures
        parse_cmd_list(ctx, i) == Some((cmd, i + cmd_tail(cmd).len() - 1)),
        ctx[i + cmd_tail(cmd).len() - 1] == RBRACE,
        i + cmd_tail(cmd).len() == ctx.len(),
    decreases cmd.len(),
{
    if cmd.len() == 0 {
        lemma_split_suffix(ctx, i, seq![RBRACKET, RBRACE], Seq::empty());
        assert(cmd =~= Seq::<Seq<u8>>::empty());
    } else {
        let v = cmd[0];
        let cmd1 = cmd.drop_first();
        let e = escape(v);
        let rest: Seq<u8> = if cmd.len() == 1 {
            seq![RBRACKET, RBRACE]
        } else {
            seq![COMMA] + cmd_tail(cmd1)
        };
        assert(cmd_tail(cmd) =~= seq![QUOTE] + (e + (seq![QUOTE] + rest)));
        lemma_split_suffix(ctx, i, seq![QUOTE], e + (seq![QUOTE] + rest));
        assert(seq![QUOTE][0] == QUOTE);
        assert(ctx[i + 0] == QUOTE);
        lemma_parse_escaped(ctx, i + 1, v, rest);
        let j = i + 1 + e.len() + 1;
        assert(parse_str(ctx, i + 1) == Some((v, j)));
        assert(e + (seq![QUOTE] + rest) =~= (e + seq![QUOTE]) + rest);
        lemma_split_suffix(ctx, i + 1, e + seq![QUOTE], rest);
        if cmd.len() == 1 {
            assert(rest[0] == RBRACKET && rest[1] == RBRACE);
            assert(ctx[j] == RBRACKET);
            assert(ctx[j + 1] == RBRACE);
            assert(seq![v] =~= cmd);
            assert(parse_cmd_items(ctx, i) == Some((cmd, j + 1)));
        } else {
            assert(rest[0] == COMMA);
            assert(ctx[j] == COMMA);
            assert(rest =~= seq![COMMA] + cmd_tail(cmd1));
            lemma_split_suffix(ctx, j, seq![COMMA], cmd_tail(cmd1));
            lemma_parse_cmd_tail(ctx, j + 1, cmd1);
            assert(cmd_tail(cmd1)[0] == QUOTE);
            assert(ctx[j + 1] == QUOTE);
            assert(parse_cmd_items(ctx, j + 1) == parse_cmd_list(ctx, j + 1));
            assert(seq![v] + cmd1 =~= cmd);
            assert(parse_cmd_items(ctx, i) == Some((cmd, i + cmd_tail(cmd).len() - 1)));
        }
        assert(ctx[i] == QUOTE);
        assert(parse_cmd_list(ctx, i) == parse_cmd_items(ctx, i));
    }
}

/// After the closing quote of a string value, the body ends with one `}`:
/// the suffix at `j2` is the escape of `t`, its closing quote, and `}`.
proof fn lemma_trailing_value(s: Seq<u8>, j2: int, t: Seq<u8>)
    requires
        0 <= j2 <= s.len(),
        s.subrange(j2, s.len() as int) == escape(t) + seq![QUOTE, RBRACE],
    ensures
        parse_str(s, j2) == Some((t, j2 + escape(t).len() + 1int)),
        j2 + escape(t).len() + 2 == s.len(),
        s[j2 + escape(t).len() + 1int] == RBRACE,
{
    assert(escape(t) + seq![QUOTE, RBRACE] =~= escape(t) + (seq![QUOTE] + seq![RBRACE]));
    lemma_parse_escaped(s, j2, t, seq![RBRACE]);
    assert(escape(t) + seq![QUOTE, RBRACE] =~= (escape(t) + seq![QUOTE]) + seq![RBRACE]);
    lemma_split_suffix(s, j2, escape(t) + seq![QUOTE], seq![RBRACE]);
    assert(seq![RBRACE][0] == RBRACE);
}

proof fn lemma_round_trip_create(u: Seq<u8>)
    ensures
        parse_request_body(request_body(RequestView::CreateSession { username: u })) == Some(
            RequestView::CreateSession { username: u },
        ),
{
    lemma_request_tok_facts();
    let r = RequestView::CreateSession { username: u };
    let s = request_body(r);
    let rest2 = lit_key_username() + (escape(u) + seq![QUOTE, RBRACE]);
    assert(s =~= lit_obj_type() + tok_create() + seq![QUOTE] + rest2);
    lemma_route_to_token(s, tok_create(), rest2);
    let j = lit_obj_type().len() + tok_create().len() + 1int;
    lemma_split_suffix(s, j, lit_key_username(), escape(u) + seq![QUOTE, RBRACE]);
    let j2 = j + lit_key_username().len();
    lemma_trailing_value(s, j2, u);
    assert(parse_create_rest(s, j) == Some(r));
}

proof fn lemma_round_trip_post_none()
    ensures
        parse_request_body(request_body(RequestView::PostAuthMessageResponse { response: None }))
            == Some(RequestView::PostAuthMessageResponse { response: None }),
{
    lemma_request_tok_facts();
    let r = RequestView::PostAuthMessageResponse { response: None };
    let s = request_body(r);
    assert(s =~= lit_obj_type() + tok_post() + seq![QUOTE] + seq![RBRACE]);
    lemma_route_to_token(s, tok_post(), seq![RBRACE]);
    let j = lit_obj_type().len() + tok_post().len() + 1int;
    assert(s[j] == s.subrange(j, s.len() as int)[0]);
    assert(s[j] == RBRACE && j + 1 == s.len());
    assert(parse_post_rest(s, j) == Some(r));
}

proof fn lemma_round_trip_post_some(t: Seq<u8>)
    ensures
        parse_request_body(request_body(RequestView::PostAuthMessageResponse {
            response: Some(t),
        })) == Some(RequestView::PostAuthMessageResponse { response: Some(t) }),
{
    lemma_request_tok_facts();
    let r = RequestView::PostAuthMessageResponse { response: Some(t) };
    let s = request_body(r);
    let rest2 = lit_key_response() + (escape(t) + seq![QUOTE, RBRACE]);
    assert(s =~= lit_obj_type() + tok_post() + seq![QUOTE] + rest2);
    lemma_route_to_token(s, tok_post(), rest2);
    let j = lit_obj_type().len() + tok_post().len() + 1int;
    lemma_split_suffix(s, j, lit_key_response(), escape(t) + seq![QUOTE, RBRACE]);
    let j2 = j + lit_key_response().len();
    lemma_trailing_value(s, j2, t);
    assert(j + 1 < s.len());
    assert(parse_post_rest(s, j) == Some(r));
}

proof fn lemma_round_trip_start(cmd: Seq<Seq<u8>>)
    ensures
        parse_request_body(request_body(RequestView::StartSession { cmd })) == Some(
            RequestView::StartSession { cmd },
        ),
{
    lemma_request_tok_facts();
    let r = RequestView::StartSession { cmd };
    let s = request_body(r);
    let rest2 = lit_key_cmd() + cmd_tail(cmd);
    assert(s =~= lit_obj_type() + tok_start() + seq![QUOTE] + rest2);
    lemma_route_to_token(s, tok_start(), rest2);
    let j = lit_obj_type().len() + tok_start().len() + 1int;
    lemma_split_suffix(s, j, lit_key_cmd(), cmd_tail(cmd));
    let j2 = j + lit_key_cmd().len();
    lemma_parse_cmd_tail(s, j2, cmd);
    let k = j2 + cmd_tail(cmd).len() - 1;
    assert(s[k] == RBRACE && k + 1 == s.len());
    assert(parse_start_rest(s, j) == Some(r));
}

proof fn lemma_round_trip_cancel()
    ensures
        parse_request_body(request_body(RequestView::CancelSession)) == Some(
            RequestView::CancelSession,
        ),
{
    lemma_request_tok_facts();
    let s = request_body(RequestView::CancelSession);
    assert(s =~= lit_obj_type() + tok_cancel() + seq![QUOTE] + seq![RBRACE]);
    lemma_route_to_token(s, tok_cancel(), seq![RBRACE]);
    let j = lit_obj_type().len() + tok_cancel().len() + 1int;
    assert(s[j] == s.subrange(j, s.len() as int)[0]);
    assert(s[j] == RBRACE && j + 1 == s.len());
}

/// Round trip of the request codec: the exact body bytes of any request
/// parse back to that request.
pub proof fn lemma_request_round_trip(r: RequestView)
    ensures
        parse_request_body(request_body(r)) == Some(r),
{
    match r {
        RequestView::CreateSession { username: u } => lemma_round_trip_create(u),
        RequestView::PostAuthMessageResponse { response: Option::None } =>
            lemma_round_trip_post_none(),
        RequestView::PostAuthMessageResponse { response: Option::Some(t) } =>
            lemma_round_trip_post_some(t),
        RequestView::StartSession { cmd } => lemma_round_trip_start(cmd),
        RequestView::CancelSession => lemma_round_trip_cancel(),
    }
}

/// For a body of the shape `{"type":"` + token + `"` + rest, the body
/// parser finds the leading literal and parses the type string to exactly
/// the token.
proof fn lemma_route_to_token(s: Seq<u8>, tok: Seq<u8>, rest: Seq<u8>)
    requires
        plain(tok),
        s == lit_obj_type() + tok + seq![QUOTE] + rest,
    ensures
        begins(s, 0, lit_obj_type()),
        parse_str(s, lit_obj_type().len() as int) == Some(
            (tok, lit_obj_type().len() + tok.len() + 1int),
        ),
        s.subrange(lit_obj_type().len() + tok.len() + 1int, s.len() as int) == rest,
{
    let i1 = lit_obj_type().len() as int;
    assert(s.subrange(0, s.len() as int) =~= s);
    assert(s =~= lit_obj_type() + (tok + (seq![QUOTE] + rest)));
    lemma_split_suffix(s, 0, lit_obj_type(), tok + (seq![QUOTE] + rest));
    lemma_escape_plain(tok);
    lemma_parse_escaped(s, i1, tok, rest);
    assert(tok + (seq![QUOTE] + rest) =~= (tok + seq![QUOTE]) + rest);
    lemma_split_suffix(s, i1, tok + seq![QUOTE], rest);
}

/// Append the bytes of `s` to `out`.
fn append_bytes(out: &mut Vec<u8>, s: &[u8])
    ensures
        final(out)@ == old(out)@ + s@,
{
    let mut i: usize = 0;
    while i < s.len()
        invariant
            i <= s@.len(),
            out@ == old(out)@ + s@.subrange(0, i as int),
        decreases s@.len() - i,
    {
        out.push(s[i]);
        assert(s@.subrange(0, i as int).push(s@[i as int]) =~= s@.subrange(0, i + 1));
        i = i + 1;
    }
    assert(s@.subrange(0, i as int) =~= s@);
}

/// The leading literal of every body.
fn obj_type_bytes() -> (r: &'static [u8])
    ensures
        r@ == lit_obj_type(),
{
    let s = "{\"type\":\"";
    proof {
        reveal_strlit("{\"type\":\"");
        assert(vstd::string::is_ascii(s));
        vstd::string::is_ascii_spec_bytes(s);
        assert(s.spec_bytes() =~= lit_obj_type());
    }
    s.as_bytes()
}

fn key_username_bytes() -> (r: &'static [u8])
    ensures
        r@ == lit_key_username(),
{
    let s = ",\"username\":\"";
    proof {
        reveal_strlit(",\"username\":\"");
        assert(vstd::string::is_ascii(s));
        vstd::string::is_ascii_spec_bytes(s);
        assert(s.spec_bytes() =~= lit_key_username());
    }
    s.as_bytes()
}

fn key_response_bytes() -> (r: &'static [u8])
    ensures
        r@ == lit_key_response(),
{
    let s = ",\"response\":\"";
    proof {
        reveal_strlit(",\"response\":\"");
        assert(vstd::string::is_ascii(s));
        vstd::string::is_ascii_spec_bytes(s);
        assert(s.spec_bytes() =~= lit_key_response());
    }
    s.as_bytes()
}

fn key_cmd_bytes() -> (r: &'static [u8])
    ensures
        r@ == lit_key_cmd(),
{
    let s = ",\"cmd\":[";
    proof {
        reveal_strlit(",\"cmd\":[");
        assert(vstd::string::is_ascii(s));
        vstd::string::is_ascii_spec_bytes(s);
        assert(s.spec_bytes() =~= lit_key_cmd());
    }
    s.as_bytes()
}

fn key_auth_kind_bytes() -> (r: &'static [u8])
    ensures
        r@ == lit_key_auth_kind(),
{
    let s = ",\"auth_message_type\":\"";
    proof {
        reveal_strlit(",\"auth_message_type\":\"");
        assert(vstd::string::is_ascii(s));
        vstd::string::is_ascii_spec_bytes(s);
        assert(s.spec_bytes() =~= lit_key_auth_kind());
    }
    s.as_bytes()
}

fn key_auth_text_bytes() -> (r: &'static [u8])
    ensures
        r@ == lit_key_auth_text(),
{
    let s = ",\"auth_message\":\"";
    proof {
        reveal_strlit(",\"auth_message\":\"");
        assert(vstd::string::is_ascii(s));
        vstd::string::is_ascii_spec_bytes(s);
        assert(s.spec_bytes() =~= lit_key_auth_text());
    }
    s.as_bytes()
}

fn key_error_kind_bytes() -> (r: &'static [u8])
    ensures
        r@ == lit_key_error_kind(),
{
    let s = ",\"error_type\":\"";
    proof {
        reveal_strlit(",\"error_type\":\"");
        assert(vstd::string::is_ascii(s));
        vstd::string::is_ascii_spec_bytes(s);
        assert(s.spec_bytes() =~= lit_key_error_kind());
    }
    s.as_bytes()
}

fn key_description_bytes() -> (r: &'static [u8])
    ensures
        r@ == lit_key_description(),
{
    let s = ",\"description\":\"";
    proof {
        reveal_strlit(",\"description\":\"");
        assert(vstd::string::is_ascii(s));
        vstd::string::is_ascii_spec_bytes(s);
        assert(s.spec_bytes() =~= lit_key_description());
    }
    s.as_bytes()
}

fn tok_create_bytes() -> (r: &'static [u8])
    ensures
        r@ == tok_create(),
{
    let s = "create_session";
    proof {
        reveal_strlit("create_session");
        assert(vstd::string::is_ascii(s));
        vstd::string::is_ascii_spec_bytes(s);
        assert(s.spec_bytes() =~= tok_create());
    }
    s.as_bytes()
}

fn tok_post_bytes() -> (r: &'static [u8])
    ensures
        r@ == tok_post(),
{
    let s = "post_auth_message_response";
    proof {
        reveal_strlit("post_auth_message_response");
        assert(vstd::string::is_ascii(s));
        vstd::string::is_ascii_spec_bytes(s);
        assert(s.spec_bytes() =~= tok_post());
    }
    s.as_bytes()
}

fn tok_start_bytes() -> (r: &'static [u8])
    ensures
        r@ == tok_start(),
{
    let s = "start_session";
    proof {
        reveal_strlit("start_session");
        assert(vstd::string::is_ascii(s));
        vstd::string::is_ascii_spec_bytes(s);
        assert(s.spec_bytes() =~= tok_start());
    }
    s.as_bytes()
}

fn tok_cancel_bytes() -> (r: &'static [u8])
    ensures
        r@ == tok_cancel(),
{
    let s = "cancel_session";
    proof {
        reveal_strlit("cancel_session");
        assert(vstd::string::is_ascii(s));
        vstd::string::is_ascii_spec_bytes(s);
        assert(s.spec_bytes() =~= tok_cancel());
    }
    s.as_bytes()
}

fn tok_success_bytes() -> (r: &'static [u8])
    ensures
        r@ == tok_success(),
{
    let s = "success";
    proof {
        reveal_strlit("success");
        assert(vstd::string::is_ascii(s));
        vstd::string::is_ascii_spec_bytes(s);
        assert(s.spec_bytes() =~= tok_success());
    }
    s.as_bytes()
}

fn tok_auth_message_bytes() -> (r: &'static [u8])
    ensures
        r@ == tok_auth_message(),
{
    let s = "auth_message";
    proof {
        reveal_strlit("auth_message");
        assert(vstd::string::is_ascii(s));
        vstd::string::is_ascii_spec_bytes(s);
        assert(s.spec_bytes() =~= tok_auth_message());
    }
    s.as_bytes()
}

fn tok_error_bytes() -> (r: &'static [u8])
    ensures
        r@ == tok_error(),
{
    let s = "error";
    proof {
        reveal_strlit("error");
        assert(vstd::string::is_ascii(s));
        vstd::string::is_ascii_spec_bytes(s);
        assert(s.spec_bytes() =~= tok_error());
    }
    s.as_bytes()
}

fn tok_auth_error_bytes() -> (r: &'static [u8])
    ensures
        r@ == tok_auth_error(),
{
    let s = "auth_error";
    proof {
        reveal_strlit("auth_error");
        assert(vstd::string::is_ascii(s));
        vstd::string::is_ascii_spec_bytes(s);
        assert(s.spec_bytes() =~= tok_auth_error());
    }
    s.as_bytes()
}

fn tok_visible_bytes() -> (r: &'static [u8])
    ensures
        r@ == tok_visible(),
{
    let s = "visible";
    proof {
        reveal_strlit("visible");
        assert(vstd::string::is_ascii(s));
        vstd::string::is_ascii_spec_bytes(s);
        assert(s.spec_bytes() =~= tok_visible());
    }
    s.as_bytes()
}

fn tok_secret_bytes() -> (r: &'static [u8])
    ensures
        r@ == tok_secret(),
{
    let s = "secret";
    proof {
        reveal_strlit("secret");
        assert(vstd::string::is_ascii(s));
        vstd::string::is_ascii_spec_bytes(s);
        assert(s.spec_bytes() =~= tok_secret());
    }
    s.as_bytes()
}

fn tok_info_bytes() -> (r: &'static [u8])
    ensures
        r@ == tok_info(),
{
    let s = "info";
    proof {
        reveal_strlit("info");
        assert(vstd::string::is_ascii(s));
        vstd::string::is_ascii_spec_bytes(s);
        assert(s.spec_bytes() =~= tok_info());
    }
    s.as_bytes()
}

fn hex_digit_of(n: u8) -> (r: u8)
    requires
        n < 16,
    ensures
        r == hex_digit(n),
{
    if n < 10 {
        0x30 + n
    } else {
        0x61 + (n - 10)
    }
}

/// Append the JSON escape of `s` to `out`.
fn append_escaped(out: &mut Vec<u8>, s: &[u8])
    ensures
        final(out)@ == old(out)@ + escape(s@),
{
    let mut i: usize = 0;
    while i < s.len()
        invariant
            i <= s@.len(),
            out@ == old(out)@ + escape(s@.subrange(0, i as int)),
        decreases s@.len() - i,
    {
        let b = s[i];
        if b == QUOTE || b == BACKSLASH {
            out.push(BACKSLASH);
            out.push(b);
        } else if b == 0x08 {
            out.push(BACKSLASH);
            out.push(0x62);
        } else if b == 0x09 {
            out.push(BACKSLASH);
            out.push(0x74);
        } else if b == 0x0a {
            out.push(BACKSLASH);
            out.push(0x6e);
        } else if b == 0x0c {
            out.push(BACKSLASH);
            out.push(0x66);
        } else if b == 0x0d {
            out.push(BACKSLASH);
            out.push(0x72);
        } else if b < 0x20 {
            out.push(BACKSLASH);
            out.push(0x75);
            out.push(0x30);
            out.push(0x30);
            out.push(hex_digit_of(b / 16));
            out.push(hex_digit_of(b % 16));
        } else {
            out.push(b);
        }
        proof {
            lemma_escape_append(s@.subrange(0, i as int), b);
            assert(s@.subrange(0, i as int).push(b) =~= s@.subrange(0, i + 1));
            assert(out@ =~= old(out)@ + escape(s@.subrange(0, i + 1)));
        }
        i = i + 1;
    }
    assert(s@.subrange(0, i as int) =~= s@);
}

/// Append the serialized tail of the `cmd` array, from item `i` on,
/// closing `]` and `}` included.
fn append_cmd_tail(out: &mut Vec<u8>, cmd: &Vec<Vec<u8>>, i: usize)
    requires
        i <= cmd@.len(),
    ensures
        final(out)@ == old(out)@ + cmd_tail(cmd.deep_view().subrange(i as int,
            cmd.deep_view().len() as int)),
    decreases cmd@.len() - i,
{
    let ghost rem = cmd.deep_view().subrange(i as int, cmd.deep_view().len() as int);
    if i == cmd.len() {
        out.push(RBRACKET);
        out.push(RBRACE);
        assert(rem.len() == 0);
        assert(out@ =~= old(out)@ + cmd_tail(rem));
    } else {
        out.push(QUOTE);
        append_escaped(out, cmd[i].as_slice());
        out.push(QUOTE);
        proof {
            assert(cmd.deep_view()[i as int] == cmd@[i as int]@);
            assert(rem[0] == cmd@[i as int]@);
        }
        if i + 1 == cmd.len() {
            out.push(RBRACKET);
            out.push(RBRACE);
            assert(rem.len() == 1);
            assert(out@ =~= old(out)@ + (seq![QUOTE] + escape(rem[0]) + seq![QUOTE]
                + seq![RBRACKET, RBRACE]));
            assert(cmd_tail(rem) =~= seq![QUOTE] + escape(rem[0]) + seq![QUOTE]
                + seq![RBRACKET, RBRACE]);
        } else {
            out.push(COMMA);
            append_cmd_tail(out, cmd, i + 1);
            proof {
                let rem1 = cmd.deep_view().subrange(i + 1, cmd.deep_view().len() as int);
                assert(rem.drop_first() =~= rem1);
                assert(out@ =~= old(out)@ + (seq![QUOTE] + escape(rem[0]) + seq![QUOTE]
                    + (seq![COMMA] + cmd_tail(rem1))));
                assert(cmd_tail(rem) =~= seq![QUOTE] + escape(rem[0]) + seq![QUOTE]
                    + (seq![COMMA] + cmd_tail(rem.drop_first())));
            }
        }
    }
}

/// Serialize a request into its exact body bytes.
pub fn encode_request_body(r: &Request) -> (out: Vec<u8>)
    ensures
        out@ == request_body(r@),
{
    let mut out: Vec<u8> = Vec::new();
    append_bytes(&mut out, obj_type_bytes());
    match r {
        Request::CreateSession { username } => {
            append_bytes(&mut out, tok_create_bytes());
            out.push(QUOTE);
            append_bytes(&mut out, key_username_bytes());
            append_escaped(&mut out, username.as_slice());
            out.push(QUOTE);
            out.push(RBRACE);
            assert(out@ =~= request_body(r@));
        }
        Request::PostAuthMessageResponse { response } => {
            append_bytes(&mut out, tok_post_bytes());
            out.push(QUOTE);
            match response {
                Some(t) => {
                    append_bytes(&mut out, key_response_bytes());
                    append_escaped(&mut out, t.as_slice());
                    out.push(QUOTE);
                    out.push(RBRACE);
                    assert(out@ =~= request_body(r@));
                }
                None => {
                    out.push(RBRACE);
                    assert(out@ =~= request_body(r@));
                }
            }
        }
        Request::StartSession { cmd } => {
            append_bytes(&mut out, tok_start_bytes());
            out.push(QUOTE);
            append_bytes(&mut out, key_cmd_bytes());
            append_cmd_tail(&mut out, cmd, 0);
            proof {
                assert(cmd.deep_view().subrange(0, cmd.deep_view().len() as int)
                    =~= cmd.deep_view());
                assert(out@ =~= request_body(r@));
            }
        }
        Request::CancelSession => {
            append_bytes(&mut out, tok_cancel_bytes());
            out.push(QUOTE);
            out.push(RBRACE);
            assert(out@ =~= request_body(r@));
        }
    }
    out
}

fn bytes_eq(a: &[u8], b: &[u8]) -> (r: bool)
    ensures
        r == (a@ == b@),
{
    if a.len() != b.len() {
        return false;
    }
    let mut i: usize = 0;
    while i < a.len()
        invariant
            a@.len() == b@.len(),
            i <= a@.len(),
            forall|k: int| 0 <= k < i ==> a@[k] == b@[k],
        decreases a@.len() - i,
    {
        if a[i] != b[i] {
            return false;
        }
        i = i + 1;
    }
    proof {
        assert(a@ =~= b@);
    }
    true
}

fn begins_at(s: &[u8], i: usize, p: &[u8]) -> (r: bool)
    ensures
        r == begins(s@, i as int, p@),
{
    if i > s.len() || p.len() > s.len() - i {
        return false;
    }
    let mut k: usize = 0;
    while k < p.len()
        invariant
            s@.len() <= usize::MAX,
            i + p@.len() <= s@.len(),
            k <= p@.len(),
            forall|m: int| 0 <= m < k ==> s@[i + m] == p@[m],
        decreases p@.len() - k,
    {
        if s[i + k] != p[k] {
            assert(!begins(s@, i as int, p@)) by {
                if begins(s@, i as int, p@) {
                    assert(s@.subrange(i as int, i + p@.len())[k as int] == s@[i + k]);
                }
            }
            return false;
        }
        k = k + 1;
    }
    proof {
        assert(s@.subrange(i as int, i + p@.len()) =~= p@);
    }
    true
}

fn hex_value_of(b: u8) -> (r: u8)
    ensures
        r == hex_value(b),
{
    if 0x30 <= b && b <= 0x39 {
        b - 0x30
    } else if 0x61 <= b && b <= 0x66 {
        b - 0x61 + 10
    } else if 0x41 <= b && b <= 0x46 {
        b - 0x41 + 10
    } else {
        16
    }
}

/// Scan JSON string content beginning at `start` (just past the opening
/// quote), mirroring [`parse_str`].
fn scan_string(s: &[u8], start: usize) -> (r: Option<(Vec<u8>, usize)>)
    ensures
        match r {
            Some((v, j)) => parse_str(s@, start as int) == Some((v@, j as int)) && start < j
                <= s@.len(),
            None => parse_str(s@, start as int) is None,
        },
{
    proof {
        lemma_parse_str_advances(s@, start as int);
    }
    let mut i: usize = start;
    let mut acc: Vec<u8> = Vec::new();
    loop
        invariant
            start <= i,
            forall|v2: Seq<u8>, j2: int|
                parse_str(s@, i as int) == Some((v2, j2)) ==> parse_str(s@, start as int)
                    == Some((acc@ + v2, j2)),
            parse_str(s@, i as int) is None ==> parse_str(s@, start as int) is None,
        decreases s@.len() - i,
    {
        if i >= s.len() {
            return None;
        }
        let b = s[i];
        if b == QUOTE {
            proof {
                assert(parse_str(s@, i as int) == Some((Seq::<u8>::empty(), i + 1int)));
                assert(acc@ + Seq::<u8>::empty() =~= acc@);
            }
            return Some((acc, i + 1));
        }
        let d: u8;
        let step: usize;
        if b == BACKSLASH {
            if i + 1 >= s.len() {
                return None;
            }
            let e = s[i + 1];
            if e == QUOTE || e == BACKSLASH || e == SLASH {
                d = e;
                step = 2;
            } else if e == 0x62 {
                d = 0x08;
                step = 2;
            } else if e == 0x74 {
                d = 0x09;
                step = 2;
            } else if e == 0x6e {
                d = 0x0a;
                step = 2;
            } else if e == 0x66 {
                d = 0x0c;
                step = 2;
            } else if e == 0x72 {
                d = 0x0d;
                step = 2;
            } else if e == 0x75 && s.len() - i > 5 {
                if s[i + 2] == 0x30 && s[i + 3] == 0x30 && hex_value_of(s[i + 4]) < 16
                    && hex_value_of(s[i + 5]) < 16 {
                    d = hex_value_of(s[i + 4]) * 16 + hex_value_of(s[i + 5]);
                    step = 6;
                } else {
                    return None;
                }
            } else {
                return None;
            }
        } else if b < 0x20 {
            return None;
        } else {
            d = b;
            step = 1;
        }
        proof {
            assert(parse_str(s@, i as int) == parse_str_cons(d, parse_str(s@, i + step)));
        }
        let ghost old_acc = acc@;
        let ghost old_i = i as int;
        acc.push(d);
        i = i + step;
        proof {
            assert forall|v2: Seq<u8>, j2: int|
                parse_str(s@, i as int) == Some((v2, j2)) implies parse_str(s@, start as int)
                    == Some((acc@ + v2, j2)) by {
                assert(parse_str(s@, old_i) == Some((seq![d] + v2, j2)));
                assert(old_acc + (seq![d] + v2) =~= acc@ + v2);
            }
        }
    }
}

/// Scan the items of a non-empty `cmd` array, mirroring
/// [`parse_cmd_items`].
fn scan_cmd_items(s: &[u8], start: usize) -> (r: Option<(Vec<Vec<u8>>, usize)>)
    ensures
        match r {
            Some((vs, j)) => parse_cmd_items(s@, start as int) == Some((vs.deep_view(),
                j as int)) && j <= s@.len(),
            None => parse_cmd_items(s@, start as int) is None,
        },
{
    let mut i: usize = start;
    let mut items: Vec<Vec<u8>> = Vec::new();
    loop
        invariant
            start <= i,
            forall|vs2: Seq<Seq<u8>>, j2: int|
                parse_cmd_items(s@, i as int) == Some((vs2, j2)) ==> parse_cmd_items(s@,
                    start as int) == Some((items.deep_view() + vs2, j2)),
            parse_cmd_items(s@, i as int) is None ==> parse_cmd_items(s@, start as int)
                is None,
        decreases s@.len() - i,
    {
        if i >= s.len() {
            return None;
        }
        if s[i] != QUOTE {
            return None;
        }
        match scan_string(s, i + 1) {
            None => {
                return None;
            }
            Some((v, j)) => {
                if j >= s.len() {
                    return None;
                }
                let ghost old_items = items.deep_view();
                let ghost old_i = i as int;
                if s[j] == COMMA {
                    items.push(v);
                    i = j + 1;
                    proof {
                        assert(items.deep_view() =~~= old_items.push(v@));
                        assert forall|vs2: Seq<Seq<u8>>, j2: int|
                            parse_cmd_items(s@, i as int) == Some((vs2, j2)) implies
                            parse_cmd_items(s@, start as int) == Some((items.deep_view()
                                + vs2, j2)) by {
                            assert(parse_cmd_items(s@, old_i) == Some((seq![v@] + vs2, j2)));
                            assert(old_items + (seq![v@] + vs2) =~= items.deep_view() + vs2);
                        }
                        assert(parse_cmd_items(s@, i as int) is None ==> parse_cmd_items(
                            s@, old_i) is None);
                    }
                } else if s[j] == RBRACKET {
                    proof {
                        assert(parse_cmd_items(s@, i as int) == Some((seq![v@], j + 1int)));
                    }
                    items.push(v);
                    proof {
                        assert(items.deep_view() =~~= old_items.push(v@));
                        assert(old_items + seq![v@] =~= items.deep_view());
                    }
                    return Some((items, j + 1));
                } else {
                    return None;
                }
            }
        }
    }
}

/// Parse a request body, mirroring [`parse_request_body`].  `Framing`
/// never comes out of this function: a body that does not parse is a
/// `Protocol` error.
pub fn decode_request_body(s: &[u8]) -> (r: Result<Request, FatalError>)
    ensures
        match r {
            Ok(q) => parse_request_body(s@) == Some(q@),
            Err(e) => e == FatalError::Protocol && parse_request_body(s@) is None,
        },
{
    let slen: usize = s.len();
    let p0 = obj_type_bytes();
    if !begins_at(s, 0, p0) {
        return Err(FatalError::Protocol);
    }
    assert(s@.len() == slen);
    let (ty, j) = match scan_string(s, p0.len()) {
        None => {
            return Err(FatalError::Protocol);
        }
        Some(x) => x,
    };
    if bytes_eq(ty.as_slice(), tok_create_bytes()) {
        let p1 = key_username_bytes();
        if !begins_at(s, j, p1) {
            return Err(FatalError::Protocol);
        }
        match scan_string(s, j + p1.len()) {
            Some((u, k)) => {
                if s.len() - k == 1 && s[k] == RBRACE {
                    let q = Request::CreateSession { username: u };
                    assert(parse_request_body(s@) == Some(q@));
                    Ok(q)
                } else {
                    Err(FatalError::Protocol)
                }
            }
            None => Err(FatalError::Protocol),
        }
    } else if bytes_eq(ty.as_slice(), tok_post_bytes()) {
        if s.len() - j == 1 && s[j] == RBRACE {
            let q = Request::PostAuthMessageResponse { response: None };
            assert(parse_request_body(s@) == Some(q@));
            return Ok(q);
        }
        let p1 = key_response_bytes();
        if !begins_at(s, j, p1) {
            return Err(FatalError::Protocol);
        }
        match scan_string(s, j + p1.len()) {
            Some((t, k)) => {
                if s.len() - k == 1 && s[k] == RBRACE {
                    let q = Request::PostAuthMessageResponse { response: Some(t) };
                    assert(parse_request_body(s@) == Some(q@));
                    Ok(q)
                } else {
                    Err(FatalError::Protocol)
                }
            }
            None => Err(FatalError::Protocol),
        }
    } else if bytes_eq(ty.as_slice(), tok_start_bytes()) {
        let p1 = key_cmd_bytes();
        if !begins_at(s, j, p1) {
            return Err(FatalError::Protocol);
        }
        let j2 = j + p1.len();
        let scanned = if j2 < s.len() && s[j2] == RBRACKET {
            let empty_items: Vec<Vec<u8>> = Vec::new();
            assert(empty_items.deep_view() =~= Seq::<Seq<u8>>::empty());
            Some((empty_items, j2 + 1))
        } else {
            scan_cmd_items(s, j2)
        };
        match scanned {
            Some((vs, k)) => {
                if s.len() - k == 1 && s[k] == RBRACE {
                    let q = Request::StartSession { cmd: vs };
                    assert(parse_cmd_list(s@, j2 as int) == Some((vs.deep_view(), k as int)));
                    assert(parse_request_body(s@) == Some(q@));
                    Ok(q)
                } else {
                    Err(FatalError::Protocol)
                }
            }
            None => Err(FatalError::Protocol),
        }
    } else if bytes_eq(ty.as_slice(), tok_cancel_bytes()) {
        if s.len() - j == 1 && s[j] == RBRACE {
            let q = Request::CancelSession;
            assert(parse_request_body(s@) == Some(q@));
            Ok(q)
        } else {
            Err(FatalError::Protocol)
        }
    } else {
        Err(FatalError::Protocol)
    }
}

/// Parse a response body, mirroring [`parse_response_body`].
pub fn decode_response_body(s: &[u8]) -> (r: Result<Response, FatalError>)
    ensures
        match r {
            Ok(resp) => parse_response_body(s@) == Some(resp@),
            Err(e) => e == FatalError::Protocol && parse_response_body(s@) is None,
        },
{
    let slen: usize = s.len();
    let p0 = obj_type_bytes();
    if !begins_at(s, 0, p0) {
        return Err(FatalError::Protocol);
    }
    assert(s@.len() == slen);
    let (ty, j) = match scan_string(s, p0.len()) {
        None => {
            return Err(FatalError::Protocol);
        }
        Some(x) => x,
    };
    if bytes_eq(ty.as_slice(), tok_success_bytes()) {
        if s.len() - j == 1 && s[j] == RBRACE {
            let resp = Response::Success;
            assert(parse_response_body(s@) == Some(resp@));
            Ok(resp)
        } else {
            Err(FatalError::Protocol)
        }
    } else if bytes_eq(ty.as_slice(), tok_auth_message_bytes()) {
        let p1 = key_auth_kind_bytes();
        if !begins_at(s, j, p1) {
            return Err(FatalError::Protocol);
        }
        let (kt, k) = match scan_string(s, j + p1.len()) {
            None => {
                return Err(FatalError::Protocol);
            }
            Some(x) => x,
        };
        let kind: AuthMessageKind;
        if bytes_eq(kt.as_slice(), tok_visible_bytes()) {
            kind = AuthMessageKind::Visible;
        } else if bytes_eq(kt.as_slice(), tok_secret_bytes()) {
            kind = AuthMessageKind::Secret;
        } else if bytes_eq(kt.as_slice(), tok_info_bytes()) {
            kind = AuthMessageKind::Info;
        } else if bytes_eq(kt.as_slice(), tok_error_bytes()) {
            kind = AuthMessageKind::Error;
        } else {
            return Err(FatalError::Protocol);
        }
        assert(auth_kind_of(kt@) == Some(kind));
        let p2 = key_auth_text_bytes();
        if !begins_at(s, k, p2) {
            return Err(FatalError::Protocol);
        }
        match scan_string(s, k + p2.len()) {
            Some((txt, m)) => {
                if s.len() - m == 1 && s[m] == RBRACE {
                    let resp = Response::AuthMessage { kind, text: txt };
                    assert(parse_response_body(s@) == Some(resp@));
                    Ok(resp)
                } else {
                    Err(FatalError::Protocol)
                }
            }
            None => Err(FatalError::Protocol),
        }
    } else if bytes_eq(ty.as_slice(), tok_error_bytes()) {
        let p1 = key_error_kind_bytes();
        if !begins_at(s, j, p1) {
            return Err(FatalError::Protocol);
        }
        let (kt, k) = match scan_string(s, j + p1.len()) {
            None => {
                return Err(FatalError::Protocol);
            }
            Some(x) => x,
        };
        let kind: ErrorKind;
        if bytes_eq(kt.as_slice(), tok_error_bytes()) {
            kind = ErrorKind::Generic;
        } else if bytes_eq(kt.as_slice(), tok_auth_error_bytes()) {
            kind = ErrorKind::Auth;
        } else {
            return Err(FatalError::Protocol);
        }
        assert(error_kind_of(kt@) == Some(kind));
        let p2 = key_description_bytes();
        if !begins_at(s, k, p2) {
            return Err(FatalError::Protocol);
        }
        match scan_string(s, k + p2.len()) {
            Some((d, m)) => {
                if s.len() - m == 1 && s[m] == RBRACE {
                    let resp = Response::Error { kind, description: d };
                    assert(parse_response_body(s@) == Some(resp@));
                    Ok(resp)
                } else {
                    Err(FatalError::Protocol)
                }
            }
            None => Err(FatalError::Protocol),
        }
    } else {
        Err(FatalError::Protocol)
    }
}

/// The 4-byte little-endian length prefix of a frame whose body has `n`
/// bytes.
pub open spec fn len_prefix(n: int) -> Seq<u8> {
    seq![
        (n % 256) as u8,
        ((n / 256) % 256) as u8,
        ((n / 65536) % 256) as u8,
        ((n / 16777216) % 256) as u8,
    ]
}

/// The number encoded by a 4-byte little-endian length prefix.
pub open spec fn prefix_value(s: Seq<u8>) -> int
    recommends
        s.len() == 4,
{
    s[0] + 256 * s[1] + 65536 * s[2] + 16777216 * s[3]
}

/// The two sides of the length prefix invert each other.
pub proof fn lemma_prefix_round_trip(n: int)
    requires
        0 <= n <= u32::MAX,
    ensures
        len_prefix(n).len() == 4,
        prefix_value(len_prefix(n)) == n,
{
}

/// A whole frame: length prefix, then exactly that many body bytes.
pub open spec fn frame_bytes(body: Seq<u8>) -> Seq<u8>
    recommends
        body.len() <= u32::MAX,
{
    len_prefix(body.len() as int) + body
}

/// Serialize a request into a whole frame.  A body too long for the
/// 4-byte prefix — possible only for gigantic inputs — is refused as a
/// `Framing` error rather than truncated.
pub fn encode_request(r: &Request) -> (out: Result<Vec<u8>, FatalError>)
    ensures
        match out {
            Ok(f) => request_body(r@).len() <= u32::MAX && f@ == frame_bytes(request_body(
                r@)),
            Err(e) => e == FatalError::Framing && request_body(r@).len() > u32::MAX,
        },
{
    let body = encode_request_body(r);
    if body.len() > u32::MAX as usize {
        return Err(FatalError::Framing);
    }
    let n = body.len() as u32;
    let mut out: Vec<u8> = Vec::new();
    out.push((n % 256) as u8);
    out.push((n / 256 % 256) as u8);
    out.push((n / 65536 % 256) as u8);
    out.push((n / 16777216 % 256) as u8);
    append_bytes(&mut out, body.as_slice());
    proof {
        assert(out@ =~= frame_bytes(request_body(r@)));
    }
    Ok(out)
}

/// Round trip of the whole frame: the prefix of an encoded request names
/// exactly the body's byte length, and the body bytes after it parse
/// back to the original request.
pub proof fn lemma_frame_round_trip(r: RequestView)
    requires
        request_body(r).len() <= u32::MAX,
    ensures
        frame_bytes(request_body(r)).len() == 4 + request_body(r).len(),
        prefix_value(frame_bytes(request_body(r)).subrange(0, 4)) == request_body(r).len(),
        parse_request_body(frame_bytes(request_body(r)).subrange(4, frame_bytes(request_body(
            r)).len() as int)) == Some(r),
{
    let body = request_body(r);
    let f = frame_bytes(body);
    lemma_prefix_round_trip(body.len() as int);
    assert(f.subrange(0, 4) =~= len_prefix(body.len() as int));
    assert(f.subrange(4, f.len() as int) =~= body);
    lemma_request_round_trip(r);
}

/// Read the body length out of the 4 prefix bytes of a frame.
pub fn decode_len(prefix: &[u8]) -> (n: u64)
    requires
        prefix@.len() == 4,
    ensures
        n == prefix_value(prefix@),
        n <= u32::MAX,
{
    prefix[0] as u64 + 256 * (prefix[1] as u64) + 65536 * (prefix[2] as u64) + 16777216
        * (prefix[3] as u64)
}

} // verus!
