//! The control-channel message codec.
//!
//! A frame is a two-byte little-endian length prefix followed by that many
//! bytes of message text. The text is the tagged object form
//! `{"message":"set_env","variables":{...}}` or
//! `{"message":"new_privileged_client","count":N}`: string contents are
//! escaped byte strings, the count is an unsigned decimal without leading
//! zeros. The accepted grammar is fixed here once, as the canonical form the
//! peer's serializer emits: no surrounding whitespace, fields in tag order,
//! string contents as byte strings in which every byte from 0x20 up stands
//! for itself and control bytes, quote and backslash arrive escaped. A
//! payload outside this grammar is a protocol error, which the channel
//! survives. `json_of` is the printer and `parse_msg` the parser, both at
//! the specification level; `encode` and `decode` are the executable codec,
//! each proved against them, and `lemma_parse_msg_of_json` shows that the
//! parser inverts the printer.

use vstd::prelude::*;

use crate::messages::Message;
use crate::messages::MsgModel;
use crate::messages::DecodeError;
use crate::messages::vars_view;

verus! {

// --- The printed form -------------------------------------------------------

/// The bytes of `{"message":"set_env","variables":{`.
pub open spec fn setenv_prefix() -> Seq<u8> {
    seq![
        0x7b, 0x22, 0x6d, 0x65, 0x73, 0x73, 0x61, 0x67, 0x65, 0x22, 0x3a, 0x22, 0x73, 0x65,
        0x74, 0x5f, 0x65, 0x6e, 0x76, 0x22, 0x2c, 0x22, 0x76, 0x61, 0x72, 0x69, 0x61, 0x62,
        0x6c, 0x65, 0x73, 0x22, 0x3a, 0x7b,
    ]
}

/// The bytes of `{"message":"new_privileged_client","count":`.
pub open spec fn newclient_prefix() -> Seq<u8> {
    seq![
        0x7b, 0x22, 0x6d, 0x65, 0x73, 0x73, 0x61, 0x67, 0x65, 0x22, 0x3a, 0x22, 0x6e, 0x65,
        0x77, 0x5f, 0x70, 0x72, 0x69, 0x76, 0x69, 0x6c, 0x65, 0x67, 0x65, 0x64, 0x5f, 0x63,
        0x6c, 0x69, 0x65, 0x6e, 0x74, 0x22, 0x2c, 0x22, 0x63, 0x6f, 0x75, 0x6e, 0x74, 0x22,
        0x3a,
    ]
}

/// Lower-case hexadecimal digit for a value below 16.
pub open spec fn hex_digit(d: nat) -> u8 {
    if d < 10 {
        (0x30 + d) as u8
    } else {
        (0x57 + d) as u8
    }
}

/// How one byte of string content is printed: quote, backslash and the named
/// control characters get a two-byte escape, other control bytes a
/// `\u00xx` escape, and everything else stands for itself.
pub open spec fn esc_byte(b: u8) -> Seq<u8> {
    if b == 0x22 {
        seq![0x5c, 0x22]
    } else if b == 0x5c {
        seq![0x5c, 0x5c]
    } else if b == 0x0a {
        seq![0x5c, 0x6e]
    } else if b == 0x0d {
        seq![0x5c, 0x72]
    } else if b == 0x09 {
        seq![0x5c, 0x74]
    } else if b < 0x20 {
        seq![0x5c, 0x75, 0x30, 0x30, hex_digit((b / 16) as nat), hex_digit((b % 16) as nat)]
    } else {
        seq![b]
    }
}

/// The escaped form of a byte string.
pub open spec fn esc_bytes(s: Seq<u8>) -> Seq<u8>
    decreases s.len(),
{
    if s.len() == 0 {
        Seq::empty()
    } else {
        esc_byte(s[0]) + esc_bytes(s.skip(1))
    }
}

/// A quoted, escaped string token.
pub open spec fn string_token(s: Seq<u8>) -> Seq<u8> {
    seq![0x22u8] + esc_bytes(s) + seq![0x22u8]
}

/// One `"key":"value"` member.
pub open spec fn pair_token(k: Seq<u8>, v: Seq<u8>) -> Seq<u8> {
    string_token(k) + seq![0x3au8] + string_token(v)
}

/// The members of the variables object, separated by commas.
pub open spec fn vars_tokens(vars: Seq<(Seq<u8>, Seq<u8>)>) -> Seq<u8>
    decreases vars.len(),
{
    if vars.len() == 0 {
        Seq::empty()
    } else if vars.len() == 1 {
        pair_token(vars[0].0, vars[0].1)
    } else {
        pair_token(vars[0].0, vars[0].1) + seq![0x2cu8] + vars_tokens(vars.skip(1))
    }
}

/// The decimal digits of `n`, most significant first, no leading zeros.
pub open spec fn dec_digits(n: nat) -> Seq<u8>
    decreases n,
{
    if n < 10 {
        seq![(0x30 + n) as u8]
    } else {
        dec_digits(n / 10) + seq![(0x30 + n % 10) as u8]
    }
}

/// The message text of a control message.
pub open spec fn json_of(m: MsgModel) -> Seq<u8> {
    match m {
        MsgModel::SetEnv { vars } => setenv_prefix() + vars_tokens(vars) + seq![0x7du8, 0x7du8],
        MsgModel::NewPrivilegedClient { count } => newclient_prefix() + dec_digits(count) + seq![
            0x7du8,
        ],
    }
}

/// The two-byte little-endian length prefix of a frame whose payload has
/// length `n`.
pub open spec fn len_header(n: nat) -> Seq<u8> {
    seq![(n % 256) as u8, ((n / 256) % 256) as u8]
}

/// A whole frame: length prefix, then message text.
pub open spec fn frame_of(m: MsgModel) -> Seq<u8> {
    len_header(json_of(m).len()) + json_of(m)
}

// --- The parser --------------------------------------------------------------

/// Whether `b` is an ASCII decimal digit.
pub open spec fn is_digit(b: u8) -> bool {
    0x30 <= b <= 0x39
}

/// Whether `b` is an ASCII hexadecimal digit (either case).
pub open spec fn is_hex(b: u8) -> bool {
    (0x30 <= b <= 0x39) || (0x41 <= b <= 0x46) || (0x61 <= b <= 0x66)
}

/// Value of a hexadecimal digit.
pub open spec fn hex_val(b: u8) -> nat {
    if b <= 0x39 {
        (b - 0x30) as nat
    } else if b >= 0x61 {
        (b - 0x57) as nat
    } else {
        (b - 0x41 + 10) as nat
    }
}

/// Whether `b` is one of the two-byte escapes, after the backslash.
pub open spec fn is_simple_escape(b: u8) -> bool {
    b == 0x22 || b == 0x5c || b == 0x6e || b == 0x72 || b == 0x74
}

/// The byte a two-byte escape stands for.
pub open spec fn simple_unescape(b: u8) -> u8 {
    if b == 0x6e {
        0x0a
    } else if b == 0x72 {
        0x0d
    } else if b == 0x74 {
        0x09
    } else {
        b
    }
}

/// Parses the remainder of a string token, after the opening quote: returns
/// the unescaped content and what follows the closing quote.
pub open spec fn parse_str_body(b: Seq<u8>) -> Option<(Seq<u8>, Seq<u8>)>
    decreases b.len(),
{
    if b.len() == 0 {
        None
    } else if b[0] == 0x22 {
        Some((Seq::empty(), b.skip(1)))
    } else if b[0] == 0x5c {
        if b.len() >= 2 && is_simple_escape(b[1]) {
            match parse_str_body(b.skip(2)) {
                Some((s, r)) => Some((seq![simple_unescape(b[1])] + s, r)),
                None => None,
            }
        } else if b.len() >= 6 && b[1] == 0x75 && b[2] == 0x30 && b[3] == 0x30 && is_hex(b[4])
            && is_hex(b[5]) {
            match parse_str_body(b.skip(6)) {
                Some((s, r)) => Some((seq![(hex_val(b[4]) * 16 + hex_val(b[5])) as u8] + s, r)),
                None => None,
            }
        } else {
            None
        }
    } else if b[0] >= 0x20 {
        match parse_str_body(b.skip(1)) {
            Some((s, r)) => Some((seq![b[0]] + s, r)),
            None => None,
        }
    } else {
        None
    }
}

/// Parses a quoted string token.
pub open spec fn parse_string(b: Seq<u8>) -> Option<(Seq<u8>, Seq<u8>)> {
    if b.len() > 0 && b[0] == 0x22 {
        parse_str_body(b.skip(1))
    } else {
        None
    }
}

/// Consumes a maximal run of decimal digits, accumulating onto `acc`.
pub open spec fn parse_digits(b: Seq<u8>, acc: nat) -> (nat, Seq<u8>)
    decreases b.len(),
{
    if b.len() > 0 && is_digit(b[0]) {
        parse_digits(b.skip(1), acc * 10 + (b[0] - 0x30) as nat)
    } else {
        (acc, b)
    }
}

/// Parses an unsigned decimal: at least one digit, no leading zeros, and the
/// value must fit the platform's word.
pub open spec fn parse_count(b: Seq<u8>) -> Option<(nat, Seq<u8>)> {
    if b.len() == 0 || !is_digit(b[0]) {
        None
    } else if b[0] == 0x30 {
        if b.len() >= 2 && is_digit(b[1]) {
            None
        } else {
            Some((0, b.skip(1)))
        }
    } else {
        let (n, r) = parse_digits(b, 0);
        if n <= usize::MAX as nat {
            Some((n, r))
        } else {
            None
        }
    }
}

/// The parsed string consumes at least the closing quote, so the rest is
/// strictly shorter than the input.
pub proof fn lemma_parse_str_body_len(b: Seq<u8>)
    ensures
        parse_str_body(b) matches Some((s, r)) ==> r.len() < b.len(),
    decreases b.len(),
{
    if b.len() == 0 {
    } else if b[0] == 0x22 {
    } else if b[0] == 0x5c {
        if b.len() >= 2 && is_simple_escape(b[1]) {
            lemma_parse_str_body_len(b.skip(2));
        } else if b.len() >= 6 && b[1] == 0x75 && b[2] == 0x30 && b[3] == 0x30 && is_hex(b[4])
            && is_hex(b[5]) {
            lemma_parse_str_body_len(b.skip(6));
        }
    } else if b[0] >= 0x20 {
        lemma_parse_str_body_len(b.skip(1));
    }
}

/// Parses one or more `"key":"value"` members followed by the closing brace
/// of the variables object: returns the members and what follows the brace.
pub open spec fn parse_pairs(b: Seq<u8>) -> Option<(Seq<(Seq<u8>, Seq<u8>)>, Seq<u8>)>
    decreases b.len(),
    via parse_pairs_decreases
{
    match parse_string(b) {
        None => None,
        Some((k, r1)) => if r1.len() > 0 && r1[0] == 0x3a {
            match parse_string(r1.skip(1)) {
                None => None,
                Some((v, r2)) => if r2.len() > 0 && r2[0] == 0x2c {
                    match parse_pairs(r2.skip(1)) {
                        None => None,
                        Some((ps, r3)) => Some((seq![(k, v)] + ps, r3)),
                    }
                } else if r2.len() > 0 && r2[0] == 0x7d {
                    Some((seq![(k, v)], r2.skip(1)))
                } else {
                    None
                },
            }
        } else {
            None
        },
    }
}

#[via_fn]
proof fn parse_pairs_decreases(b: Seq<u8>) {
    if b.len() > 0 && b[0] == 0x22 {
        lemma_parse_str_body_len(b.skip(1));
        if parse_str_body(b.skip(1)) is Some {
            let r1 = parse_str_body(b.skip(1)).unwrap().1;
            lemma_parse_str_body_len(r1.skip(1).skip(1));
        }
    }
}

// --- The executable encoder --------------------------------------------------

/// Escaped form of a byte string grows member by member.
pub proof fn lemma_esc_bytes_snoc(s: Seq<u8>, b: u8)
    ensures
        esc_bytes(s.push(b)) == esc_bytes(s) + esc_byte(b),
    decreases s.len(),
{
    if s.len() == 0 {
        assert(s.push(b) =~= seq![b]);
        assert(seq![b].skip(1) =~= Seq::<u8>::empty());
        assert(esc_bytes(Seq::<u8>::empty()) == Seq::<u8>::empty());
        assert(esc_bytes(s.push(b)) == esc_byte(b) + esc_bytes(Seq::<u8>::empty()));
        assert(esc_bytes(s.push(b)) =~= esc_bytes(s) + esc_byte(b));
    } else {
        assert(s.push(b).skip(1) =~= s.skip(1).push(b));
        lemma_esc_bytes_snoc(s.skip(1), b);
        assert(esc_byte(s[0]) + (esc_bytes(s.skip(1)) + esc_byte(b)) =~= (esc_byte(s[0])
            + esc_bytes(s.skip(1))) + esc_byte(b));
    }
}

/// The member list of the variables object grows pair by pair, a comma
/// before every pair but the first.
pub proof fn lemma_vars_tokens_snoc(s: Seq<(Seq<u8>, Seq<u8>)>, p: (Seq<u8>, Seq<u8>))
    ensures
        vars_tokens(s.push(p)) == if s.len() == 0 {
            pair_token(p.0, p.1)
        } else {
            vars_tokens(s) + seq![0x2cu8] + pair_token(p.0, p.1)
        },
    decreases s.len(),
{
    let t = s.push(p);
    if s.len() == 0 {
        assert(t.len() == 1 && t[0] == p);
    } else if s.len() == 1 {
        assert(t.skip(1) =~= seq![p]);
        assert(vars_tokens(t.skip(1)) == pair_token(p.0, p.1));
        assert(pair_token(s[0].0, s[0].1) + seq![0x2cu8] + pair_token(p.0, p.1) =~= vars_tokens(s)
            + seq![0x2cu8] + pair_token(p.0, p.1));
    } else {
        assert(t.skip(1) =~= s.skip(1).push(p));
        lemma_vars_tokens_snoc(s.skip(1), p);
        assert(pair_token(t[0].0, t[0].1) + seq![0x2cu8] + (vars_tokens(s.skip(1)) + seq![0x2cu8]
            + pair_token(p.0, p.1)) =~= (pair_token(s[0].0, s[0].1) + seq![0x2cu8] + vars_tokens(
            s.skip(1),
        )) + seq![0x2cu8] + pair_token(p.0, p.1));
    }
}

/// Appends a copy of `s` to `out`.
fn append_bytes(out: &mut Vec<u8>, s: &Vec<u8>)
    ensures
        final(out)@ == old(out)@ + s@,
{
    let n = s.len();
    let mut i: usize = 0;
    while i < n
        invariant
            n == s@.len(),
            i <= n,
            out@ == old(out)@ + s@.take(i as int),
        decreases n - i,
    {
        out.push(s[i]);
        proof {
            assert(s@.take(i + 1) =~= s@.take(i as int).push(s@[i as int]));
            assert(old(out)@ + s@.take(i + 1) =~= (old(out)@ + s@.take(i as int)).push(
                s@[i as int],
            ));
        }
        i += 1;
    }
    proof {
        assert(s@.take(n as int) =~= s@);
    }
}

/// Lower-case hexadecimal digit of a value below 16.
fn hex_digit_byte(d: u8) -> (r: u8)
    requires
        d < 16,
    ensures
        r == hex_digit(d as nat),
{
    if d < 10 {
        0x30 + d
    } else {
        0x57 + d
    }
}

/// Appends the escaped form of one content byte.
fn push_escaped_byte(out: &mut Vec<u8>, b: u8)
    ensures
        final(out)@ == old(out)@ + esc_byte(b),
{
    if b == 0x22 || b == 0x5c {
        out.push(0x5c);
        out.push(b);
        proof {
            assert(old(out)@ + esc_byte(b) =~= old(out)@.push(0x5c).push(b));
        }
    } else if b == 0x0a {
        out.push(0x5c);
        out.push(0x6e);
        proof {
            assert(old(out)@ + esc_byte(b) =~= old(out)@.push(0x5c).push(0x6e));
        }
    } else if b == 0x0d {
        out.push(0x5c);
        out.push(0x72);
        proof {
            assert(old(out)@ + esc_byte(b) =~= old(out)@.push(0x5c).push(0x72));
        }
    } else if b == 0x09 {
        out.push(0x5c);
        out.push(0x74);
        proof {
            assert(old(out)@ + esc_byte(b) =~= old(out)@.push(0x5c).push(0x74));
        }
    } else if b < 0x20 {
        let hi = hex_digit_byte(b / 16);
        let lo = hex_digit_byte(b % 16);
        out.push(0x5c);
        out.push(0x75);
        out.push(0x30);
        out.push(0x30);
        out.push(hi);
        out.push(lo);
        proof {
            assert(old(out)@ + esc_byte(b) =~= old(out)@.push(0x5c).push(0x75).push(0x30).push(
                0x30,
            ).push(hi).push(lo));
        }
    } else {
        out.push(b);
        proof {
            assert(old(out)@ + esc_byte(b) =~= old(out)@.push(b));
        }
    }
}

/// Appends a quoted, escaped string token for `s`.
fn append_string_token(out: &mut Vec<u8>, s: &Vec<u8>)
    ensures
        final(out)@ == old(out)@ + string_token(s@),
{
    out.push(0x22);
    let n = s.len();
    let mut i: usize = 0;
    while i < n
        invariant
            n == s@.len(),
            i <= n,
            out@ == old(out)@.push(0x22) + esc_bytes(s@.take(i as int)),
        decreases n - i,
    {
        push_escaped_byte(out, s[i]);
        proof {
            assert(s@.take(i + 1) =~= s@.take(i as int).push(s@[i as int]));
            lemma_esc_bytes_snoc(s@.take(i as int), s@[i as int]);
            assert(old(out)@.push(0x22) + esc_bytes(s@.take(i + 1)) =~= (old(out)@.push(0x22)
                + esc_bytes(s@.take(i as int))) + esc_byte(s@[i as int]));
        }
        i += 1;
    }
    out.push(0x22);
    proof {
        assert(s@.take(n as int) =~= s@);
        assert(old(out)@ + string_token(s@) =~= (old(out)@.push(0x22) + esc_bytes(s@)).push(0x22));
    }
}

/// Appends the decimal digits of `n`, most significant first.
fn append_count(out: &mut Vec<u8>, n: usize)
    ensures
        final(out)@ == old(out)@ + dec_digits(n as nat),
    decreases n,
{
    if n < 10 {
        out.push(0x30 + n as u8);
        proof {
            assert(old(out)@ + dec_digits(n as nat) =~= old(out)@.push((0x30 + n as nat) as u8));
        }
    } else {
        append_count(out, n / 10);
        out.push(0x30 + (n % 10) as u8);
        proof {
            assert(old(out)@ + dec_digits(n as nat) =~= (old(out)@ + dec_digits((n / 10) as nat))
                .push((0x30 + (n as nat) % 10) as u8));
        }
    }
}

/// The executable bytes of `{"message":"set_env","variables":{`.
fn setenv_prefix_vec() -> (r: Vec<u8>)
    ensures
        r@ == setenv_prefix(),
{
    let v: Vec<u8> = vec![
        0x7b, 0x22, 0x6d, 0x65, 0x73, 0x73, 0x61, 0x67, 0x65, 0x22, 0x3a, 0x22, 0x73, 0x65,
        0x74, 0x5f, 0x65, 0x6e, 0x76, 0x22, 0x2c, 0x22, 0x76, 0x61, 0x72, 0x69, 0x61, 0x62,
        0x6c, 0x65, 0x73, 0x22, 0x3a, 0x7b,
    ];
    proof {
        assert(v@ =~= setenv_prefix());
    }
    v
}

/// The executable bytes of `{"message":"new_privileged_client","count":`.
fn newclient_prefix_vec() -> (r: Vec<u8>)
    ensures
        r@ == newclient_prefix(),
{
    let v: Vec<u8> = vec![
        0x7b, 0x22, 0x6d, 0x65, 0x73, 0x73, 0x61, 0x67, 0x65, 0x22, 0x3a, 0x22, 0x6e, 0x65,
        0x77, 0x5f, 0x70, 0x72, 0x69, 0x76, 0x69, 0x6c, 0x65, 0x67, 0x65, 0x64, 0x5f, 0x63,
        0x6c, 0x69, 0x65, 0x6e, 0x74, 0x22, 0x2c, 0x22, 0x63, 0x6f, 0x75, 0x6e, 0x74, 0x22,
        0x3a,
    ];
    proof {
        assert(v@ =~= newclient_prefix());
    }
    v
}

/// Prints the message text of `m`.
pub fn encode_json(m: &Message) -> (r: Vec<u8>)
    ensures
        r@ == json_of(m.model()),
{
    let mut out: Vec<u8> = Vec::new();
    match m {
        Message::SetEnv { variables } => {
            let prefix = setenv_prefix_vec();
            append_bytes(&mut out, &prefix);
            let n = variables.len();
            let mut i: usize = 0;
            proof {
                assert(out@ =~= setenv_prefix() + vars_tokens(vars_view(variables@).take(0)));
            }
            while i < n
                invariant
                    n == variables@.len(),
                    i <= n,
                    out@ == setenv_prefix() + vars_tokens(vars_view(variables@).take(i as int)),
                decreases n - i,
            {
                let ghost vv = vars_view(variables@);
                if i > 0 {
                    out.push(0x2c);
                }
                let (k, v) = &variables[i];
                append_string_token(&mut out, k);
                out.push(0x3a);
                append_string_token(&mut out, v);
                proof {
                    assert(vv[i as int] == (variables@[i as int].0@, variables@[i as int].1@));
                    assert(vv.take(i + 1) =~= vv.take(i as int).push(vv[i as int]));
                    lemma_vars_tokens_snoc(vv.take(i as int), vv[i as int]);
                    if i > 0 {
                        assert(out@ =~= setenv_prefix() + (vars_tokens(vv.take(i as int)) + seq![
                            0x2cu8,
                        ] + pair_token(vv[i as int].0, vv[i as int].1)));
                    } else {
                        assert(out@ =~= setenv_prefix() + pair_token(
                            vv[i as int].0,
                            vv[i as int].1,
                        ));
                    }
                }
                i += 1;
            }
            out.push(0x7d);
            out.push(0x7d);
            proof {
                let vv = vars_view(variables@);
                assert(vv.take(n as int) =~= vv);
                assert(out@ =~= setenv_prefix() + vars_tokens(vv) + seq![0x7du8, 0x7du8]);
            }
        },
        Message::NewPrivilegedClient { count } => {
            let prefix = newclient_prefix_vec();
            append_bytes(&mut out, &prefix);
            append_count(&mut out, *count);
            out.push(0x7d);
            proof {
                assert(out@ =~= newclient_prefix() + dec_digits(*count as nat) + seq![0x7du8]);
            }
        },
    }
    out
}

/// Encodes a message as a frame: length prefix, then message text. Returns
/// `None` exactly when the text does not fit a two-byte length.
pub fn encode(m: &Message) -> (r: Option<Vec<u8>>)
    ensures
        match r {
            Some(frame) => frame@ == frame_of(m.model()) && json_of(m.model()).len() <= 0xffff,
            None => json_of(m.model()).len() > 0xffff,
        },
{
    let json = encode_json(m);
    if json.len() > 0xffff {
        return None;
    }
    let n = json.len();
    let mut frame: Vec<u8> = Vec::new();
    frame.push((n % 256) as u8);
    frame.push(((n / 256) % 256) as u8);
    append_bytes(&mut frame, &json);
    proof {
        assert(frame@ =~= frame_of(m.model()));
    }
    Some(frame)
}

/// Reads a frame length out of its two header bytes.
pub fn frame_len(b0: u8, b1: u8) -> (r: u16)
    ensures
        r as nat == b0 as nat + 256 * (b1 as nat),
        len_header(r as nat) == seq![b0, b1],
{
    let r: u16 = b0 as u16 + 256 * (b1 as u16);
    proof {
        assert(len_header(r as nat) =~= seq![b0, b1]);
    }
    r
}

// --- The executable decoder ---------------------------------------------------

/// The message a payload denotes, if it is well formed: the whole payload
/// must be consumed.
pub open spec fn parse_msg(b: Seq<u8>) -> Option<MsgModel> {
    if setenv_prefix().is_prefix_of(b) {
        let r0 = b.skip(setenv_prefix().len() as int);
        if r0.len() > 0 && r0[0] == 0x7d {
            if r0 == seq![0x7du8, 0x7du8] {
                Some(MsgModel::SetEnv { vars: Seq::empty() })
            } else {
                None
            }
        } else {
            match parse_pairs(r0) {
                Some((vars, r1)) => if r1 == seq![0x7du8] {
                    Some(MsgModel::SetEnv { vars })
                } else {
                    None
                },
                None => None,
            }
        }
    } else if newclient_prefix().is_prefix_of(b) {
        match parse_count(b.skip(newclient_prefix().len() as int)) {
            Some((n, r)) => if r == seq![0x7du8] {
                Some(MsgModel::NewPrivilegedClient { count: n })
            } else {
                None
            },
            None => None,
        }
    } else {
        None
    }
}

} // verus!

verus! {

/// Hexadecimal digit value, if `c` is one.
fn hex_value(c: u8) -> (r: Option<u8>)
    ensures
        match r {
            Some(v) => is_hex(c) && v as nat == hex_val(c) && v < 16,
            None => !is_hex(c),
        },
{
    if 0x30 <= c && c <= 0x39 {
        Some(c - 0x30)
    } else if 0x61 <= c && c <= 0x66 {
        Some(c - 0x57)
    } else if 0x41 <= c && c <= 0x46 {
        Some(c - 0x41 + 10)
    } else {
        None
    }
}

/// Decodes the remainder of a string token after the opening quote,
/// appending the unescaped content to `out`; returns the position just past
/// the closing quote.
fn decode_str_body(b: &Vec<u8>, pos: usize, out: &mut Vec<u8>) -> (r: Option<usize>)
    requires
        pos <= b@.len(),
    ensures
        match parse_str_body(b@.skip(pos as int)) {
            Some((s, rest)) => r matches Some(np) && pos < np <= b@.len() && b@.skip(np as int)
                == rest && final(out)@ == old(out)@ + s,
            None => r is None,
        },
    decreases b@.len() - pos,
{
    let ghost tail = b@.skip(pos as int);
    if pos == b.len() {
        return None;
    }
    let c = b[pos];
    proof {
        assert(c == tail[0]);
    }
    if c == 0x22 {
        proof {
            assert(b@.skip(pos + 1) =~= tail.skip(1));
            assert(out@ + Seq::<u8>::empty() =~= out@);
        }
        Some(pos + 1)
    } else if c == 0x5c {
        if pos + 1 < b.len() {
            let e = b[pos + 1];
            proof {
                assert(e == tail[1]);
            }
            if e == 0x22 || e == 0x5c || e == 0x6e || e == 0x72 || e == 0x74 {
                let unescaped: u8 = if e == 0x6e {
                    0x0a
                } else if e == 0x72 {
                    0x0d
                } else if e == 0x74 {
                    0x09
                } else {
                    e
                };
                proof {
                    assert(unescaped == simple_unescape(tail[1]));
                    assert(b@.skip(pos + 2) =~= tail.skip(2));
                }
                let ghost mid = out@;
                out.push(unescaped);
                let r = decode_str_body(b, pos + 2, out);
                proof {
                    if parse_str_body(tail.skip(2)) is Some {
                        let s2 = parse_str_body(tail.skip(2)).unwrap().0;
                        assert(mid + (seq![unescaped] + s2) =~= mid.push(unescaped) + s2);
                    }
                }
                r
            } else if e == 0x75 && b.len() - pos >= 6 && b[pos + 2] == 0x30 && b[pos + 3] == 0x30 {
                proof {
                    assert(b@[pos + 2] == tail[2] && b@[pos + 3] == tail[3] && b@[pos + 4]
                        == tail[4] && b@[pos + 5] == tail[5]);
                }
                let hi = match hex_value(b[pos + 4]) {
                    Some(v) => v,
                    None => {
                        return None;
                    },
                };
                let lo = match hex_value(b[pos + 5]) {
                    Some(v) => v,
                    None => {
                        return None;
                    },
                };
                let decoded: u8 = hi * 16 + lo;
                proof {
                    assert(decoded as nat == hex_val(tail[4]) * 16 + hex_val(tail[5]));
                    assert(b@.skip(pos + 6) =~= tail.skip(6));
                }
                let ghost mid = out@;
                out.push(decoded);
                let r = decode_str_body(b, pos + 6, out);
                proof {
                    if parse_str_body(tail.skip(6)) is Some {
                        let s2 = parse_str_body(tail.skip(6)).unwrap().0;
                        assert(mid + (seq![decoded] + s2) =~= mid.push(decoded) + s2);
                    }
                }
                r
            } else {
                proof {
                    if pos + 5 >= b.len() {
                        assert(tail.len() < 6);
                    }
                }
                None
            }
        } else {
            proof {
                assert(tail.len() < 2);
            }
            None
        }
    } else if c >= 0x20 {
        proof {
            assert(b@.skip(pos + 1) =~= tail.skip(1));
        }
        let ghost mid = out@;
        out.push(c);
        let r = decode_str_body(b, pos + 1, out);
        proof {
            if parse_str_body(tail.skip(1)) is Some {
                let s2 = parse_str_body(tail.skip(1)).unwrap().0;
                assert(mid + (seq![c] + s2) =~= mid.push(c) + s2);
            }
        }
        r
    } else {
        None
    }
}

/// Decodes a quoted string token starting at `pos`, appending the content to
/// `out`.
fn decode_string(b: &Vec<u8>, pos: usize, out: &mut Vec<u8>) -> (r: Option<usize>)
    requires
        pos <= b@.len(),
    ensures
        match parse_string(b@.skip(pos as int)) {
            Some((s, rest)) => r matches Some(np) && pos + 2 <= np <= b@.len() && b@.skip(
                np as int,
            ) == rest && final(out)@ == old(out)@ + s,
            None => r is None,
        },
{
    if pos < b.len() && b[pos] == 0x22 {
        proof {
            assert(b@.skip(pos as int)[0] == 0x22);
            assert(b@.skip(pos + 1) =~= b@.skip(pos as int).skip(1));
        }
        decode_str_body(b, pos + 1, out)
    } else {
        None
    }
}

/// Every accumulator only grows while digits are consumed.
proof fn lemma_parse_digits_min(b: Seq<u8>, acc: nat)
    ensures
        parse_digits(b, acc).0 >= acc,
    decreases b.len(),
{
    if b.len() > 0 && is_digit(b[0]) {
        assert(acc * 10 + (b[0] - 0x30) as nat >= acc) by (nonlinear_arith);
        lemma_parse_digits_min(b.skip(1), acc * 10 + (b[0] - 0x30) as nat);
    }
}

/// Decodes an unsigned decimal starting at `pos`: the value and the position
/// after the digits.
fn decode_count(b: &Vec<u8>, pos: usize) -> (r: Option<(usize, usize)>)
    requires
        pos <= b@.len(),
    ensures
        match parse_count(b@.skip(pos as int)) {
            Some((n, rest)) => r matches Some((v, np)) && v as nat == n && pos < np <= b@.len()
                && b@.skip(np as int) == rest,
            None => r is None,
        },
{
    let ghost tail = b@.skip(pos as int);
    if pos == b.len() {
        return None;
    }
    let c = b[pos];
    proof {
        assert(c == tail[0]);
    }
    if !(0x30 <= c && c <= 0x39) {
        return None;
    }
    if c == 0x30 {
        if pos + 1 < b.len() && 0x30 <= b[pos + 1] && b[pos + 1] <= 0x39 {
            proof {
                assert(b@[pos + 1] == tail[1]);
            }
            return None;
        }
        proof {
            if tail.len() >= 2 {
                assert(b@[pos + 1] == tail[1]);
            }
            assert(b@.skip(pos + 1) =~= tail.skip(1));
        }
        return Some((0, pos + 1));
    }
    let mut acc: usize = 0;
    let mut i: usize = pos;
    loop
        invariant
            pos <= i <= b@.len(),
            pos < b@.len(),
            tail == b@.skip(pos as int),
            is_digit(b@[pos as int]),
            b@[pos as int] != 0x30,
            parse_digits(tail, 0) == parse_digits(b@.skip(i as int), acc as nat),
        ensures
            pos < i <= b@.len(),
            parse_digits(tail, 0) == (acc as nat, b@.skip(i as int)),
        decreases b@.len() - i,
    {
        if i == b.len() {
            proof {
                assert(b@.skip(i as int).len() == 0);
            }
            break;
        }
        let d = b[i];
        if !(0x30 <= d && d <= 0x39) {
            proof {
                assert(d == b@.skip(i as int)[0]);
                if i == pos {
                    assert(b@[pos as int] == d);
                }
            }
            break;
        }
        proof {
            assert(d == b@.skip(i as int)[0]);
            assert(b@.skip(i + 1) =~= b@.skip(i as int).skip(1));
        }
        let dv: usize = (d - 0x30) as usize;
        if acc > (usize::MAX - dv) / 10 {
            proof {
                let big = acc as nat * 10 + dv as nat;
                assert(acc as nat >= (usize::MAX as nat - dv as nat) / 10 + 1);
                assert(((usize::MAX as nat - dv as nat) / 10 + 1) * 10 >= (usize::MAX as nat
                    - dv as nat) + 1) by (nonlinear_arith);
                assert(acc as nat * 10 >= ((usize::MAX as nat - dv as nat) / 10 + 1) * 10) by (nonlinear_arith)
                    requires
                        acc as nat >= (usize::MAX as nat - dv as nat) / 10 + 1,
                ;
                assert(big > usize::MAX as nat);
                lemma_parse_digits_min(b@.skip(i + 1), big);
                assert(parse_digits(tail, 0).0 > usize::MAX as nat);
            }
            return None;
        }
        proof {
            assert(acc as nat <= (usize::MAX as nat - dv as nat) / 10);
            assert(((usize::MAX as nat - dv as nat) / 10) * 10 <= usize::MAX as nat
                - dv as nat) by (nonlinear_arith);
            assert(acc as nat * 10 <= ((usize::MAX as nat - dv as nat) / 10) * 10) by (nonlinear_arith)
                requires
                    acc as nat <= (usize::MAX as nat - dv as nat) / 10,
            ;
            assert(acc as nat * 10 + dv as nat <= usize::MAX as nat);
        }
        acc = acc * 10 + dv;
        i += 1;
    }
    Some((acc, i))
}

/// Decodes `"key":"value"` members up to and including the closing brace of
/// the variables object, pushing each pair onto `vars`.
fn decode_pairs(b: &Vec<u8>, pos: usize, vars: &mut Vec<(Vec<u8>, Vec<u8>)>) -> (r: Option<usize>)
    requires
        pos <= b@.len(),
    ensures
        match parse_pairs(b@.skip(pos as int)) {
            Some((ps, rest)) => r matches Some(np) && pos < np <= b@.len() && b@.skip(np as int)
                == rest && vars_view(final(vars)@) == vars_view(old(vars)@) + ps,
            None => r is None,
        },
    decreases b@.len() - pos,
{
    let ghost tail = b@.skip(pos as int);
    let mut key: Vec<u8> = Vec::new();
    let p1 = match decode_string(b, pos, &mut key) {
        Some(p) => p,
        None => {
            return None;
        },
    };
    if !(p1 < b.len() && b[p1] == 0x3a) {
        proof {
            let r1 = parse_string(tail).unwrap().1;
            assert(r1 == b@.skip(p1 as int));
            if r1.len() > 0 {
                assert(r1[0] == b@[p1 as int]);
            }
        }
        return None;
    }
    proof {
        let r1 = parse_string(tail).unwrap().1;
        assert(r1[0] == b@[p1 as int]);
        assert(b@.skip(p1 + 1) =~= r1.skip(1));
    }
    let mut val: Vec<u8> = Vec::new();
    let p2 = match decode_string(b, p1 + 1, &mut val) {
        Some(p) => p,
        None => {
            return None;
        },
    };
    let ghost k = key@;
    let ghost v = val@;
    let ghost r2 = parse_string(parse_string(tail).unwrap().1.skip(1)).unwrap().1;
    proof {
        assert(r2 == b@.skip(p2 as int));
        if p2 < b@.len() {
            assert(r2[0] == b@[p2 as int]);
        }
    }
    if p2 < b.len() && b[p2] == 0x2c {
        proof {
            assert(b@.skip(p2 + 1) =~= r2.skip(1));
        }
        let ghost mid = vars@;
        vars.push((key, val));
        proof {
            assert(vars_view(vars@) =~= vars_view(mid).push((k, v)));
        }
        let r = decode_pairs(b, p2 + 1, vars);
        proof {
            if parse_pairs(r2.skip(1)) is Some {
                let ps2 = parse_pairs(r2.skip(1)).unwrap().0;
                assert(vars_view(mid) + (seq![(k, v)] + ps2) =~= vars_view(mid).push((k, v))
                    + ps2);
            }
        }
        r
    } else if p2 < b.len() && b[p2] == 0x7d {
        proof {
            assert(b@.skip(p2 + 1) =~= r2.skip(1));
        }
        vars.push((key, val));
        proof {
            assert(vars_view(vars@) =~= vars_view(old(vars)@) + seq![(k, v)]);
        }
        Some(p2 + 1)
    } else {
        None
    }
}

/// Compares a prefix.
fn has_prefix(b: &Vec<u8>, p: &Vec<u8>) -> (r: bool)
    ensures
        r == p@.is_prefix_of(b@),
{
    if p.len() > b.len() {
        assert(!p@.is_prefix_of(b@));
        return false;
    }
    let n = p.len();
    let mut i: usize = 0;
    while i < n
        invariant
            n == p@.len() <= b@.len(),
            i <= n,
            forall|j: int| 0 <= j < i ==> b@[j] == p@[j],
        decreases n - i,
    {
        if b[i] != p[i] {
            proof {
                assert(b@.take(n as int)[i as int] != p@[i as int]);
            }
            return false;
        }
        i += 1;
    }
    proof {
        assert(b@.take(n as int) =~= p@);
    }
    true
}

/// Decodes one frame payload. Succeeds exactly on the payloads the parser
/// accepts, and then returns the message the payload denotes; every other
/// payload — truncated, malformed, badly escaped, unknown tag — is a
/// protocol error, and the caller may keep the channel.
pub fn decode(payload: &Vec<u8>) -> (r: Result<Message, DecodeError>)
    ensures
        match parse_msg(payload@) {
            Some(m) => r matches Ok(msg) && msg.model() == m,
            None => r matches Err(DecodeError::Protocol),
        },
{
    let b = payload;
    let se = setenv_prefix_vec();
    let nc = newclient_prefix_vec();
    if has_prefix(b, &se) {
        let pos0: usize = se.len();
        let ghost r0 = b@.skip(pos0 as int);
        proof {
            assert(r0.len() == b@.len() - 34);
            if r0.len() > 0 {
                assert(r0[0] == b@[34]);
            }
        }
        if pos0 < b.len() && b[pos0] == 0x7d {
            if b.len() == pos0 + 2 && b[pos0 + 1] == 0x7d {
                proof {
                    assert(r0 =~= seq![0x7du8, 0x7du8]);
                }
                let variables: Vec<(Vec<u8>, Vec<u8>)> = Vec::new();
                let m = Message::SetEnv { variables };
                proof {
                    assert(vars_view(m->SetEnv_variables@) =~= Seq::<(Seq<u8>, Seq<u8>)>::empty());
                }
                Ok(m)
            } else {
                proof {
                    if r0 == seq![0x7du8, 0x7du8] {
                        assert(b@.len() == 36 && b@[35] == 0x7d);
                    }
                }
                Err(DecodeError::Protocol)
            }
        } else {
            let mut variables: Vec<(Vec<u8>, Vec<u8>)> = Vec::new();
            match decode_pairs(b, pos0, &mut variables) {
                Some(np) => {
                    let ghost r1 = parse_pairs(r0).unwrap().1;
                    proof {
                        assert(r1 == b@.skip(np as int));
                        if np < b@.len() {
                            assert(r1[0] == b@[np as int]);
                        }
                    }
                    if np < b.len() && np + 1 == b.len() && b[np] == 0x7d {
                        proof {
                            assert(r1 =~= seq![0x7du8]);
                        }
                        let m = Message::SetEnv { variables };
                        proof {
                            let ps = parse_pairs(r0).unwrap().0;
                            assert(vars_view(m->SetEnv_variables@) =~= ps);
                        }
                        Ok(m)
                    } else {
                        proof {
                            if r1 == seq![0x7du8] {
                                assert(b@.len() - np == 1 && b@[np as int] == 0x7d);
                            }
                        }
                        Err(DecodeError::Protocol)
                    }
                },
                None => Err(DecodeError::Protocol),
            }
        }
    } else if has_prefix(b, &nc) {
        let pos0: usize = nc.len();
        let ghost r0 = b@.skip(pos0 as int);
        match decode_count(b, pos0) {
            Some((v, np)) => {
                let ghost r1 = parse_count(r0).unwrap().1;
                proof {
                    assert(r1 == b@.skip(np as int));
                    if np < b@.len() {
                        assert(r1[0] == b@[np as int]);
                    }
                }
                if np < b.len() && np + 1 == b.len() && b[np] == 0x7d {
                    proof {
                        assert(r1 =~= seq![0x7du8]);
                    }
                    Ok(Message::NewPrivilegedClient { count: v })
                } else {
                    proof {
                        if r1 == seq![0x7du8] {
                            assert(b@.len() - np == 1 && b@[np as int] == 0x7d);
                        }
                    }
                    Err(DecodeError::Protocol)
                }
            },
            None => Err(DecodeError::Protocol),
        }
    } else {
        Err(DecodeError::Protocol)
    }
}

} // verus!

verus! {

// --- The parser inverts the printer ------------------------------------------

/// Power of ten with as many digits as `n`.
spec fn pow10_of(n: nat) -> nat
    decreases n,
{
    if n < 10 {
        10
    } else {
        10 * pow10_of(n / 10)
    }
}

/// Printing a hexadecimal digit and reading it back is the identity.
proof fn lemma_hex_digit_val(d: nat)
    requires
        d < 16,
    ensures
        is_hex(hex_digit(d)),
        hex_val(hex_digit(d)) == d,
{
}

/// Unescaping undoes escaping, byte string by byte string.
proof fn lemma_parse_str_body_of_esc(s: Seq<u8>, rest: Seq<u8>)
    ensures
        parse_str_body(esc_bytes(s) + seq![0x22u8] + rest) == Some((s, rest)),
    decreases s.len(),
{
    let b = esc_bytes(s) + seq![0x22u8] + rest;
    if s.len() == 0 {
        assert(b =~= seq![0x22u8] + rest);
        assert(b[0] == 0x22);
        assert(b.skip(1) =~= rest);
        assert(s =~= Seq::<u8>::empty());
    } else {
        let c = s[0];
        let t = esc_bytes(s.skip(1)) + seq![0x22u8] + rest;
        assert(b =~= esc_byte(c) + t);
        lemma_parse_str_body_of_esc(s.skip(1), rest);
        if c == 0x22 || c == 0x5c {
            assert(b[0] == 0x5c && b[1] == c);
            assert(b.skip(2) =~= t);
            assert(simple_unescape(c) == c);
            assert(seq![c] + s.skip(1) =~= s);
        } else if c == 0x0a {
            assert(b[0] == 0x5c && b[1] == 0x6e);
            assert(b.skip(2) =~= t);
            assert(seq![c] + s.skip(1) =~= s);
        } else if c == 0x0d {
            assert(b[0] == 0x5c && b[1] == 0x72);
            assert(b.skip(2) =~= t);
            assert(seq![c] + s.skip(1) =~= s);
        } else if c == 0x09 {
            assert(b[0] == 0x5c && b[1] == 0x74);
            assert(b.skip(2) =~= t);
            assert(seq![c] + s.skip(1) =~= s);
        } else if c < 0x20 {
            let hi = (c / 16) as nat;
            let lo = (c % 16) as nat;
            lemma_hex_digit_val(hi);
            lemma_hex_digit_val(lo);
            assert(b[0] == 0x5c && b[1] == 0x75 && b[2] == 0x30 && b[3] == 0x30);
            assert(b[4] == hex_digit(hi) && b[5] == hex_digit(lo));
            assert(!is_simple_escape(b[1]));
            assert(b.len() >= 6);
            assert(b.skip(6) =~= t);
            assert(hex_val(b[4]) * 16 + hex_val(b[5]) == hi * 16 + lo);
            assert(hi * 16 + lo == c) by {
                vstd::arithmetic::div_mod::lemma_fundamental_div_mod(c as int, 16);
            };
            assert(seq![c] + s.skip(1) =~= s);
        } else {
            assert(b[0] == c && c >= 0x20 && c != 0x22 && c != 0x5c);
            assert(b.skip(1) =~= t);
            assert(seq![c] + s.skip(1) =~= s);
        }
    }
}

/// Reading a printed string token yields the original content.
proof fn lemma_parse_string_of_token(s: Seq<u8>, rest: Seq<u8>)
    ensures
        parse_string(string_token(s) + rest) == Some((s, rest)),
{
    let b = string_token(s) + rest;
    assert(b[0] == 0x22);
    assert(b.skip(1) =~= esc_bytes(s) + seq![0x22u8] + rest);
    lemma_parse_str_body_of_esc(s, rest);
}

/// Consuming printed digits multiplies the accumulator past them.
proof fn lemma_parse_digits_of_dec(n: nat, rest: Seq<u8>, acc: nat)
    ensures
        parse_digits(dec_digits(n) + rest, acc) == parse_digits(rest, acc * pow10_of(n) + n),
    decreases n,
{
    let b = dec_digits(n) + rest;
    if n < 10 {
        let d = (0x30 + n) as u8;
        assert(b[0] == d && is_digit(d));
        assert(b.skip(1) =~= rest);
        assert(acc * 10 + (d - 0x30) as nat == acc * pow10_of(n) + n);
    } else {
        let d2 = (0x30 + n % 10) as u8;
        assert(b =~= dec_digits(n / 10) + (seq![d2] + rest));
        lemma_parse_digits_of_dec(n / 10, seq![d2] + rest, acc);
        let mid = acc * pow10_of(n / 10) + n / 10;
        let bb = seq![d2] + rest;
        assert(bb[0] == d2 && is_digit(d2));
        assert(bb.skip(1) =~= rest);
        assert(parse_digits(bb, mid) == parse_digits(rest, mid * 10 + (d2 - 0x30) as nat));
        assert((n / 10) * 10 + n % 10 == n) by {
            vstd::arithmetic::div_mod::lemma_fundamental_div_mod(n as int, 10);
        };
        let pw = pow10_of(n / 10);
        let q = n / 10;
        let rr = n % 10;
        assert((acc * pw + q) * 10 + rr == acc * (10 * pw) + (q * 10 + rr)) by (nonlinear_arith);
        assert(pow10_of(n) == 10 * pow10_of(n / 10));
    }
}

/// A printed count has no leading zero.
proof fn lemma_dec_digits_head(n: nat)
    ensures
        dec_digits(n).len() > 0,
        is_digit(dec_digits(n)[0]),
        n >= 1 ==> dec_digits(n)[0] != 0x30,
        n == 0 ==> dec_digits(n) == seq![0x30u8],
    decreases n,
{
    if n >= 10 {
        lemma_dec_digits_head(n / 10);
        assert(dec_digits(n)[0] == dec_digits(n / 10)[0]);
    }
}

/// Reading a printed count yields the original value.
proof fn lemma_parse_count_of_dec(n: nat, rest: Seq<u8>)
    requires
        rest.len() == 0 || !is_digit(rest[0]),
        n <= usize::MAX as nat,
    ensures
        parse_count(dec_digits(n) + rest) == Some((n, rest)),
{
    let b = dec_digits(n) + rest;
    lemma_dec_digits_head(n);
    assert(b[0] == dec_digits(n)[0]);
    if n == 0 {
        assert(b =~= seq![0x30u8] + rest);
        if b.len() >= 2 {
            assert(b[1] == rest[0]);
        }
        assert(b.skip(1) =~= rest);
    } else {
        assert(b[0] != 0x30);
        lemma_parse_digits_of_dec(n, rest, 0);
        assert(0 * pow10_of(n) == 0) by (nonlinear_arith);
        if rest.len() > 0 {
            assert(!is_digit(rest[0]));
        }
        assert(parse_digits(rest, n) == (n, rest));
    }
}

/// Reading printed variable members yields the original pairs.
proof fn lemma_parse_pairs_of_tokens(vars: Seq<(Seq<u8>, Seq<u8>)>, rest: Seq<u8>)
    requires
        vars.len() >= 1,
    ensures
        parse_pairs(vars_tokens(vars) + seq![0x7du8] + rest) == Some((vars, rest)),
    decreases vars.len(),
{
    let b = vars_tokens(vars) + seq![0x7du8] + rest;
    let k = vars[0].0;
    let v = vars[0].1;
    if vars.len() == 1 {
        let r1 = seq![0x3au8] + string_token(v) + (seq![0x7du8] + rest);
        assert(b =~= string_token(k) + r1);
        lemma_parse_string_of_token(k, r1);
        assert(r1[0] == 0x3a);
        assert(r1.skip(1) =~= string_token(v) + (seq![0x7du8] + rest));
        lemma_parse_string_of_token(v, seq![0x7du8] + rest);
        let r2 = seq![0x7du8] + rest;
        assert(r2[0] == 0x7d && r2[0] != 0x2c);
        assert(r2.skip(1) =~= rest);
        assert(vars =~= seq![(k, v)]);
    } else {
        let r1 = seq![0x3au8] + string_token(v) + (seq![0x2cu8] + vars_tokens(vars.skip(1))
            + seq![0x7du8] + rest);
        assert(b =~= string_token(k) + r1);
        lemma_parse_string_of_token(k, r1);
        assert(r1[0] == 0x3a);
        let r2 = seq![0x2cu8] + vars_tokens(vars.skip(1)) + seq![0x7du8] + rest;
        assert(r1.skip(1) =~= string_token(v) + r2);
        lemma_parse_string_of_token(v, r2);
        assert(r2[0] == 0x2c);
        assert(r2.skip(1) =~= vars_tokens(vars.skip(1)) + seq![0x7du8] + rest);
        lemma_parse_pairs_of_tokens(vars.skip(1), rest);
        assert(seq![(k, v)] + vars.skip(1) =~= vars);
    }
}

/// Round trip: every message text the printer produces is read back as the
/// message it came from. Together with the contracts of `encode` and
/// `decode`, a frame encoded from any message and decoded in one piece (or in
/// any number of pieces: see the frame state machine) yields that message
/// again.
pub proof fn lemma_parse_msg_of_json(m: MsgModel)
    requires
        crate::messages::model_fits(m),
    ensures
        parse_msg(json_of(m)) == Some(m),
{
    match m {
        MsgModel::SetEnv { vars } => {
            let b = setenv_prefix() + vars_tokens(vars) + seq![0x7du8, 0x7du8];
            assert(b.take(34) =~= setenv_prefix());
            assert(setenv_prefix().is_prefix_of(b));
            let r0 = b.skip(34);
            assert(r0 =~= vars_tokens(vars) + seq![0x7du8, 0x7du8]);
            if vars.len() == 0 {
                assert(r0 =~= seq![0x7du8, 0x7du8]);
                assert(vars =~= Seq::<(Seq<u8>, Seq<u8>)>::empty());
            } else {
                assert(vars_tokens(vars)[0] == 0x22) by {
                    assert(vars_tokens(vars)[0] == pair_token(vars[0].0, vars[0].1)[0]);
                    assert(pair_token(vars[0].0, vars[0].1)[0] == string_token(vars[0].0)[0]);
                };
                assert(r0[0] == 0x22);
                assert(r0 =~= vars_tokens(vars) + seq![0x7du8] + seq![0x7du8]);
                lemma_parse_pairs_of_tokens(vars, seq![0x7du8]);
                assert(parse_pairs(r0) == Some((vars, seq![0x7du8])));
            }
        },
        MsgModel::NewPrivilegedClient { count } => {
            let b = newclient_prefix() + dec_digits(count) + seq![0x7du8];
            assert(!setenv_prefix().is_prefix_of(b)) by {
                assert(b[12] == newclient_prefix()[12]);
                if setenv_prefix().is_prefix_of(b) {
                    assert(b.take(34)[12] == setenv_prefix()[12]);
                }
            };
            assert(b.take(43) =~= newclient_prefix());
            assert(newclient_prefix().is_prefix_of(b));
            assert(b.skip(43) =~= dec_digits(count) + seq![0x7du8]);
            lemma_parse_count_of_dec(count, seq![0x7du8]);
        },
    }
}

} // verus!
