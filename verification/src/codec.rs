//! The record codec: serialization of an [`ImageInfo`] to its canonical
//! pretty-printed JSON text, and parsing of such text back to a record.
//!
//! The text form is an object with two-space indentation, the fields in
//! declaration order, and each of the four optional fields omitted when its
//! value is the empty string. The parser accepts any JSON object with the
//! known keys in any order and with arbitrary whitespace, filling omitted
//! optional fields with the empty string and rejecting a document that
//! lacks a mandatory field, repeats a key, or holds an unknown key.

use vstd::prelude::*;
use crate::chars::{char_code, char_from_u32, chars_to_string, spec_char_of, str_to_chars};
use crate::error::ImagextractorError;
use crate::record::{ImageInfo, RecordView};

verus! {

// ---------------------------------------------------------------------
// Serialization, specification
// ---------------------------------------------------------------------

/// The lowercase digit character of `n`, for `n` below sixteen.
pub open spec fn spec_digit_char(n: int) -> char {
    if n == 0 { '0' } else if n == 1 { '1' } else if n == 2 { '2' } else if n == 3 { '3' }
    else if n == 4 { '4' } else if n == 5 { '5' } else if n == 6 { '6' } else if n == 7 { '7' }
    else if n == 8 { '8' } else if n == 9 { '9' } else if n == 10 { 'a' } else if n == 11 { 'b' }
    else if n == 12 { 'c' } else if n == 13 { 'd' } else if n == 14 { 'e' } else { 'f' }
}

/// How one character is written inside a JSON string: quote and backslash
/// get a backslash escape, the named control characters their short form,
/// the remaining control characters a `\u00xy` form, and every other
/// character stands for itself.
pub open spec fn spec_escape_char(c: char) -> Seq<char> {
    if c == '"' { seq!['\\', '"'] }
    else if c == '\\' { seq!['\\', '\\'] }
    else if c == '\u{8}' { seq!['\\', 'b'] }
    else if c == '\t' { seq!['\\', 't'] }
    else if c == '\n' { seq!['\\', 'n'] }
    else if c == '\u{c}' { seq!['\\', 'f'] }
    else if c == '\r' { seq!['\\', 'r'] }
    else if char_code(c) < 0x20 {
        seq!['\\', 'u', '0', '0', spec_digit_char(char_code(c) / 16), spec_digit_char(char_code(c) % 16)]
    }
    else { seq![c] }
}

/// The escaped form of a whole string.
pub open spec fn spec_escape(s: Seq<char>) -> Seq<char>
    decreases s.len(),
{
    if s.len() == 0 {
        Seq::empty()
    } else {
        spec_escape_char(s[0]) + spec_escape(s.subrange(1, s.len() as int))
    }
}

/// A JSON string literal: the escaped text between double quotes.
pub open spec fn spec_quote(s: Seq<char>) -> Seq<char> {
    seq!['"'] + spec_escape(s) + seq!['"']
}

/// The decimal digits of `v`, most significant first, with no sign and no
/// leading zero.
pub open spec fn spec_u64_str(v: nat) -> Seq<char>
    decreases v,
{
    if v < 10 {
        seq![spec_digit_char(v as int)]
    } else {
        spec_u64_str(v / 10) + seq![spec_digit_char((v % 10) as int)]
    }
}

pub open spec fn key_filename() -> Seq<char> { seq!['f', 'i', 'l', 'e', 'n', 'a', 'm', 'e'] }

pub open spec fn key_size() -> Seq<char> { seq!['s', 'i', 'z', 'e'] }

pub open spec fn key_created_time() -> Seq<char> {
    seq!['c', 'r', 'e', 'a', 't', 'e', 'd', '_', 't', 'i', 'm', 'e']
}

pub open spec fn key_modified_time() -> Seq<char> {
    seq!['m', 'o', 'd', 'i', 'f', 'i', 'e', 'd', '_', 't', 'i', 'm', 'e']
}

pub open spec fn key_orientation() -> Seq<char> {
    seq!['o', 'r', 'i', 'e', 'n', 't', 'a', 't', 'i', 'o', 'n']
}

pub open spec fn key_capture_time() -> Seq<char> {
    seq!['c', 'a', 'p', 't', 'u', 'r', 'e', '_', 't', 'i', 'm', 'e']
}

pub open spec fn key_camera_model() -> Seq<char> {
    seq!['c', 'a', 'm', 'e', 'r', 'a', '_', 'm', 'o', 'd', 'e', 'l']
}

pub open spec fn key_camera_serial() -> Seq<char> {
    seq!['c', 'a', 'm', 'e', 'r', 'a', '_', 's', 'e', 'r', 'i', 'a', 'l']
}

/// One member line of the pretty-printed object: a newline, the two-space
/// indent, the quoted key, a colon and a space, and the rendered value.
pub open spec fn spec_member(key: Seq<char>, val: Seq<char>) -> Seq<char> {
    seq!['\n', ' ', ' '] + spec_quote(key) + seq![':', ' '] + val
}

/// An optional string member: nothing when the value is empty, otherwise a
/// comma and the member line.
pub open spec fn spec_opt_member(key: Seq<char>, val: Seq<char>) -> Seq<char> {
    if val.len() == 0 {
        Seq::empty()
    } else {
        seq![','] + spec_member(key, spec_quote(val))
    }
}

/// The canonical JSON text of a record.
pub open spec fn spec_serialize(r: RecordView) -> Seq<char> {
    seq!['{']
        + spec_member(key_filename(), spec_quote(r.filename))
        + seq![','] + spec_member(key_size(), spec_u64_str(r.size as nat))
        + seq![','] + spec_member(key_created_time(), spec_quote(r.created_time))
        + seq![','] + spec_member(key_modified_time(), spec_quote(r.modified_time))
        + spec_opt_member(key_orientation(), r.orientation)
        + spec_opt_member(key_capture_time(), r.capture_time)
        + spec_opt_member(key_camera_model(), r.camera_model)
        + spec_opt_member(key_camera_serial(), r.camera_serial)
        + seq!['\n', '}']
}

// ---------------------------------------------------------------------
// Serialization, executable
// ---------------------------------------------------------------------

/// Escaping distributes over concatenation.
pub proof fn lemma_escape_concat(a: Seq<char>, b: Seq<char>)
    ensures
        spec_escape(a + b) == spec_escape(a) + spec_escape(b),
    decreases a.len(),
{
    if a.len() == 0 {
        assert(a + b =~= b);
        assert(spec_escape(a) + spec_escape(b) =~= spec_escape(b));
    } else {
        let a1 = a.subrange(1, a.len() as int);
        assert((a + b).subrange(1, (a + b).len() as int) =~= a1 + b);
        lemma_escape_concat(a1, b);
        assert(spec_escape_char(a[0]) + (spec_escape(a1) + spec_escape(b)) =~= (spec_escape_char(
            a[0],
        ) + spec_escape(a1)) + spec_escape(b));
        assert((a + b)[0] == a[0]);
    }
}

fn digit_char(n: u8) -> (c: char)
    requires
        n < 16,
    ensures
        c == spec_digit_char(n as int),
{
    if n == 0 { '0' } else if n == 1 { '1' } else if n == 2 { '2' } else if n == 3 { '3' }
    else if n == 4 { '4' } else if n == 5 { '5' } else if n == 6 { '6' } else if n == 7 { '7' }
    else if n == 8 { '8' } else if n == 9 { '9' } else if n == 10 { 'a' } else if n == 11 { 'b' }
    else if n == 12 { 'c' } else if n == 13 { 'd' } else if n == 14 { 'e' } else { 'f' }
}

fn emit_escaped(out: &mut Vec<char>, s: &str)
    ensures
        final(out)@ == old(out)@ + spec_escape(s@),
{
    let n = s.unicode_len();
    let mut i: usize = 0;
    while i < n
        invariant
            n == s@.len(),
            i <= n,
            out@ == old(out)@ + spec_escape(s@.subrange(0, i as int)),
        decreases n - i,
    {
        let c = s.get_char(i);
        if c == '"' {
            out.push('\\');
            out.push('"');
        } else if c == '\\' {
            out.push('\\');
            out.push('\\');
        } else if c == '\u{8}' {
            out.push('\\');
            out.push('b');
        } else if c == '\t' {
            out.push('\\');
            out.push('t');
        } else if c == '\n' {
            out.push('\\');
            out.push('n');
        } else if c == '\u{c}' {
            out.push('\\');
            out.push('f');
        } else if c == '\r' {
            out.push('\\');
            out.push('r');
        } else if (c as u32) < 0x20 {
            out.push('\\');
            out.push('u');
            out.push('0');
            out.push('0');
            out.push(digit_char(((c as u32) / 16) as u8));
            out.push(digit_char(((c as u32) % 16) as u8));
        } else {
            out.push(c);
        }
        proof {
            let pre = s@.subrange(0, i as int);
            let single = seq![s@[i as int]];
            assert(s@.subrange(0, i + 1 as int) =~= pre + single);
            lemma_escape_concat(pre, single);
            assert(single.subrange(1, 1) =~= Seq::<char>::empty());
            assert(spec_escape(single) =~= spec_escape_char(s@[i as int]) + spec_escape(
                Seq::<char>::empty(),
            ));
            assert(spec_escape(single) =~= spec_escape_char(s@[i as int]));
            assert(out@ =~= old(out)@ + spec_escape(s@.subrange(0, i + 1 as int)));
        }
        i = i + 1;
    }
    proof {
        assert(s@.subrange(0, n as int) =~= s@);
    }
}

fn emit_quoted(out: &mut Vec<char>, s: &str)
    ensures
        final(out)@ == old(out)@ + spec_quote(s@),
{
    out.push('"');
    emit_escaped(out, s);
    out.push('"');
    proof {
        assert(out@ =~= old(out)@ + spec_quote(s@));
    }
}

fn emit_u64(out: &mut Vec<char>, v: u64)
    ensures
        final(out)@ == old(out)@ + spec_u64_str(v as nat),
    decreases v,
{
    if v < 10 {
        out.push(digit_char(v as u8));
        proof {
            assert(out@ =~= old(out)@ + spec_u64_str(v as nat));
        }
    } else {
        emit_u64(out, v / 10);
        out.push(digit_char((v % 10) as u8));
        proof {
            assert(out@ =~= old(out)@ + spec_u64_str(v as nat));
        }
    }
}

fn emit_member_prefix(out: &mut Vec<char>, key: &str)
    ensures
        final(out)@ == old(out)@ + seq!['\n', ' ', ' '] + spec_quote(key@) + seq![':', ' '],
{
    out.push('\n');
    out.push(' ');
    out.push(' ');
    emit_quoted(out, key);
    out.push(':');
    out.push(' ');
    proof {
        assert(out@ =~= old(out)@ + seq!['\n', ' ', ' '] + spec_quote(key@) + seq![':', ' ']);
    }
}

fn emit_member_str(out: &mut Vec<char>, key: &str, val: &str)
    ensures
        final(out)@ == old(out)@ + spec_member(key@, spec_quote(val@)),
{
    emit_member_prefix(out, key);
    emit_quoted(out, val);
    proof {
        assert(out@ =~= old(out)@ + spec_member(key@, spec_quote(val@)));
    }
}

fn emit_opt_member(out: &mut Vec<char>, key: &str, val: &str)
    ensures
        final(out)@ == old(out)@ + spec_opt_member(key@, val@),
{
    if val.unicode_len() > 0 {
        out.push(',');
        emit_member_str(out, key, val);
        proof {
            assert(out@ =~= old(out)@ + spec_opt_member(key@, val@));
        }
    } else {
        proof {
            assert(out@ =~= old(out)@ + spec_opt_member(key@, val@));
        }
    }
}

/// Serializes a record to its canonical pretty-printed JSON text: the four
/// mandatory fields in declaration order, each optional field omitted
/// exactly when its value is the empty string.
#[verifier::rlimit(100)]
pub fn serialize(info: &ImageInfo) -> (r: String)
    ensures
        r@ == spec_serialize(info@),
{
    proof {
        reveal_strlit("filename");
        reveal_strlit("size");
        reveal_strlit("created_time");
        reveal_strlit("modified_time");
        reveal_strlit("orientation");
        reveal_strlit("capture_time");
        reveal_strlit("camera_model");
        reveal_strlit("camera_serial");
        assert("filename"@ =~= key_filename());
        assert("size"@ =~= key_size());
        assert("created_time"@ =~= key_created_time());
        assert("modified_time"@ =~= key_modified_time());
        assert("orientation"@ =~= key_orientation());
        assert("capture_time"@ =~= key_capture_time());
        assert("camera_model"@ =~= key_camera_model());
        assert("camera_serial"@ =~= key_camera_serial());
    }
    let mut out: Vec<char> = Vec::new();
    out.push('{');
    emit_member_str(&mut out, "filename", info.filename.as_str());
    out.push(',');
    emit_member_prefix(&mut out, "size");
    emit_u64(&mut out, info.size);
    out.push(',');
    emit_member_str(&mut out, "created_time", info.created_time.as_str());
    out.push(',');
    emit_member_str(&mut out, "modified_time", info.modified_time.as_str());
    emit_opt_member(&mut out, "orientation", info.orientation.as_str());
    emit_opt_member(&mut out, "capture_time", info.capture_time.as_str());
    emit_opt_member(&mut out, "camera_model", info.camera_model.as_str());
    emit_opt_member(&mut out, "camera_serial", info.camera_serial.as_str());
    out.push('\n');
    out.push('}');
    proof {
        assert(out@ =~= spec_serialize(info@));
    }
    chars_to_string(&out)
}

// ---------------------------------------------------------------------
// Parsing, specification
// ---------------------------------------------------------------------

/// JSON whitespace.
pub open spec fn is_ws(c: char) -> bool {
    c == ' ' || c == '\t' || c == '\n' || c == '\r'
}

/// A decimal digit character.
pub open spec fn is_digit(c: char) -> bool {
    48 <= char_code(c) && char_code(c) <= 57
}

/// The rest of `s` from index `i` on.
pub open spec fn tail_from(s: Seq<char>, i: int) -> Seq<char> {
    s.subrange(i, s.len() as int)
}

/// `s` without its leading whitespace.
pub open spec fn spec_skip_ws(s: Seq<char>) -> Seq<char>
    decreases s.len(),
{
    if s.len() > 0 && is_ws(s[0]) {
        spec_skip_ws(s.subrange(1, s.len() as int))
    } else {
        s
    }
}

/// The value of a hexadecimal digit character, or a negative number for
/// any other character.
pub open spec fn spec_hex_val(c: char) -> int {
    let n = char_code(c);
    if 48 <= n && n <= 57 { n - 48 }
    else if 97 <= n && n <= 102 { n - 87 }
    else if 65 <= n && n <= 70 { n - 55 }
    else { -1 }
}

/// The character denoted by a single-letter escape, if any.
pub open spec fn spec_escape_code(e: char) -> Option<char> {
    if e == '"' { Some('"') } else if e == '\\' { Some('\\') } else if e == '/' { Some('/') }
    else if e == 'b' { Some('\u{8}') } else if e == 'f' { Some('\u{c}') } else if e == 'n' { Some('\n') }
    else if e == 'r' { Some('\r') } else if e == 't' { Some('\t') } else { None }
}

/// A valid Unicode scalar value: any code point that is not a surrogate.
pub open spec fn valid_scalar(n: int) -> bool {
    (0 <= n && n < 0xD800) || (0xE000 <= n && n <= 0x10FFFF)
}

/// Prepends one decoded character to the content of a string parse.
pub open spec fn spec_cons_parsed(c: char, r: Option<(Seq<char>, Seq<char>)>) -> Option<
    (Seq<char>, Seq<char>),
> {
    match r {
        Some(p) => Some((seq![c] + p.0, p.1)),
        None => None,
    }
}

/// Parses the body of a JSON string after its opening quote: the decoded
/// content and the rest of the input after the closing quote. A `\u`
/// escape of a high surrogate must be followed by one of a low surrogate;
/// the pair denotes a single supplementary character, as in JSON; an
/// unpaired surrogate escape is rejected.
#[verifier::opaque]
pub open spec fn spec_parse_string_body(s: Seq<char>) -> Option<(Seq<char>, Seq<char>)>
    decreases s.len(),
{
    if s.len() == 0 {
        None
    } else if s[0] == '"' {
        Some((Seq::empty(), s.subrange(1, s.len() as int)))
    } else if s[0] == '\\' {
        if s.len() < 2 {
            None
        } else if s[1] == 'u' {
            if s.len() >= 6 && spec_hex_val(s[2]) >= 0 && spec_hex_val(s[3]) >= 0 && spec_hex_val(
                s[4],
            ) >= 0 && spec_hex_val(s[5]) >= 0 {
                let n = spec_hex_val(s[2]) * 4096 + spec_hex_val(s[3]) * 256 + spec_hex_val(s[4])
                    * 16 + spec_hex_val(s[5]);
                if 0xD800 <= n && n < 0xDC00 {
                    // a high surrogate: a low-surrogate escape must follow,
                    // and the pair denotes one supplementary character
                    if s.len() >= 12 && s[6] == '\\' && s[7] == 'u' && spec_hex_val(s[8]) >= 0
                        && spec_hex_val(s[9]) >= 0 && spec_hex_val(s[10]) >= 0 && spec_hex_val(
                        s[11],
                    ) >= 0 {
                        let n2 = spec_hex_val(s[8]) * 4096 + spec_hex_val(s[9]) * 256
                            + spec_hex_val(s[10]) * 16 + spec_hex_val(s[11]);
                        if 0xDC00 <= n2 && n2 < 0xE000 {
                            spec_cons_parsed(
                                spec_char_of(0x10000 + (n - 0xD800) * 0x400 + (n2 - 0xDC00)),
                                spec_parse_string_body(s.subrange(12, s.len() as int)),
                            )
                        } else {
                            None
                        }
                    } else {
                        None
                    }
                } else if valid_scalar(n) {
                    spec_cons_parsed(
                        spec_char_of(n),
                        spec_parse_string_body(s.subrange(6, s.len() as int)),
                    )
                } else {
                    None
                }
            } else {
                None
            }
        } else {
            match spec_escape_code(s[1]) {
                Some(c) => spec_cons_parsed(
                    c,
                    spec_parse_string_body(s.subrange(2, s.len() as int)),
                ),
                None => None,
            }
        }
    } else if char_code(s[0]) < 0x20 {
        None
    } else {
        spec_cons_parsed(s[0], spec_parse_string_body(s.subrange(1, s.len() as int)))
    }
}

/// Parses a complete JSON string literal, opening quote included.
pub open spec fn spec_parse_quoted(s: Seq<char>) -> Option<(Seq<char>, Seq<char>)> {
    if s.len() > 0 && s[0] == '"' {
        spec_parse_string_body(s.subrange(1, s.len() as int))
    } else {
        None
    }
}

/// Consumes the leading digits of `s`, folding them onto `acc`.
pub open spec fn spec_parse_digits(s: Seq<char>, acc: nat) -> (nat, Seq<char>)
    decreases s.len(),
{
    if s.len() > 0 && is_digit(s[0]) {
        spec_parse_digits(s.subrange(1, s.len() as int), acc * 10 + (char_code(s[0]) - 48) as nat)
    } else {
        (acc, s)
    }
}

/// Parses an unsigned JSON integer: at least one digit, no leading zero,
/// and a value that fits in sixty-four bits.
pub open spec fn spec_parse_u64(s: Seq<char>) -> Option<(u64, Seq<char>)> {
    if s.len() > 0 && is_digit(s[0]) {
        if s[0] == '0' && s.len() > 1 && is_digit(s[1]) {
            None
        } else {
            let p = spec_parse_digits(s, 0);
            if p.0 <= u64::MAX {
                Some((p.0 as u64, p.1))
            } else {
                None
            }
        }
    } else {
        None
    }
}

/// The members read so far from a JSON object: one slot per known key.
#[verifier::ext_equal]
pub struct PMembers {
    pub filename: Option<Seq<char>>,
    pub size: Option<u64>,
    pub created_time: Option<Seq<char>>,
    pub modified_time: Option<Seq<char>>,
    pub orientation: Option<Seq<char>>,
    pub capture_time: Option<Seq<char>>,
    pub camera_model: Option<Seq<char>>,
    pub camera_serial: Option<Seq<char>>,
}

/// No member seen yet.
pub open spec fn spec_empty_members() -> PMembers {
    PMembers {
        filename: None,
        size: None,
        created_time: None,
        modified_time: None,
        orientation: None,
        capture_time: None,
        camera_model: None,
        camera_serial: None,
    }
}

/// Parses the value of the member named `key` and records it, rejecting a
/// repeated or unknown key and a value of the wrong type.
pub open spec fn spec_parse_value(key: Seq<char>, s: Seq<char>, acc: PMembers) -> Option<
    (PMembers, Seq<char>),
> {
    if key == key_filename() {
        if acc.filename is Some { None } else {
            match spec_parse_quoted(s) {
                Some(p) => Some((PMembers { filename: Some(p.0), ..acc }, p.1)),
                None => None,
            }
        }
    } else if key == key_size() {
        if acc.size is Some { None } else {
            match spec_parse_u64(s) {
                Some(p) => Some((PMembers { size: Some(p.0), ..acc }, p.1)),
                None => None,
            }
        }
    } else if key == key_created_time() {
        if acc.created_time is Some { None } else {
            match spec_parse_quoted(s) {
                Some(p) => Some((PMembers { created_time: Some(p.0), ..acc }, p.1)),
                None => None,
            }
        }
    } else if key == key_modified_time() {
        if acc.modified_time is Some { None } else {
            match spec_parse_quoted(s) {
                Some(p) => Some((PMembers { modified_time: Some(p.0), ..acc }, p.1)),
                None => None,
            }
        }
    } else if key == key_orientation() {
        if acc.orientation is Some { None } else {
            match spec_parse_quoted(s) {
                Some(p) => Some((PMembers { orientation: Some(p.0), ..acc }, p.1)),
                None => None,
            }
        }
    } else if key == key_capture_time() {
        if acc.capture_time is Some { None } else {
            match spec_parse_quoted(s) {
                Some(p) => Some((PMembers { capture_time: Some(p.0), ..acc }, p.1)),
                None => None,
            }
        }
    } else if key == key_camera_model() {
        if acc.camera_model is Some { None } else {
            match spec_parse_quoted(s) {
                Some(p) => Some((PMembers { camera_model: Some(p.0), ..acc }, p.1)),
                None => None,
            }
        }
    } else if key == key_camera_serial() {
        if acc.camera_serial is Some { None } else {
            match spec_parse_quoted(s) {
                Some(p) => Some((PMembers { camera_serial: Some(p.0), ..acc }, p.1)),
                None => None,
            }
        }
    } else {
        None
    }
}

/// The recursion budget for object members. Only eight distinct keys are
/// accepted and a repeated or unknown key fails the parse, so any document
/// either fails or closes the object well within this bound.
pub open spec fn member_fuel() -> nat {
    20
}

/// Parses the members of an object after its opening brace (or after a
/// comma, in which case `allow_close` is false and a member must follow),
/// up to and including the closing brace.
pub open spec fn spec_parse_members(
    s: Seq<char>,
    acc: PMembers,
    allow_close: bool,
    fuel: nat,
) -> Option<(PMembers, Seq<char>)>
    decreases fuel,
{
    if fuel == 0 {
        None
    } else {
        let t = spec_skip_ws(s);
        if t.len() > 0 && t[0] == '}' && allow_close {
            Some((acc, t.subrange(1, t.len() as int)))
        } else if t.len() > 0 && t[0] == '"' {
            match spec_parse_string_body(t.subrange(1, t.len() as int)) {
                None => None,
                Some(kp) => {
                    let r2 = spec_skip_ws(kp.1);
                    if r2.len() > 0 && r2[0] == ':' {
                        let r3 = spec_skip_ws(r2.subrange(1, r2.len() as int));
                        match spec_parse_value(kp.0, r3, acc) {
                            None => None,
                            Some(vp) => {
                                let r5 = spec_skip_ws(vp.1);
                                if r5.len() > 0 && r5[0] == ',' {
                                    spec_parse_members(
                                        r5.subrange(1, r5.len() as int),
                                        vp.0,
                                        false,
                                        (fuel - 1) as nat,
                                    )
                                } else if r5.len() > 0 && r5[0] == '}' {
                                    Some((vp.0, r5.subrange(1, r5.len() as int)))
                                } else {
                                    None
                                }
                            },
                        }
                    } else {
                        None
                    }
                },
            }
        } else {
            None
        }
    }
}

/// Parses a whole document into its member table and the trailing rest.
pub open spec fn spec_parse_top(s: Seq<char>) -> Option<(PMembers, Seq<char>)> {
    let t = spec_skip_ws(s);
    if t.len() > 0 && t[0] == '{' {
        spec_parse_members(t.subrange(1, t.len() as int), spec_empty_members(), true, member_fuel())
    } else {
        None
    }
}

/// The record denoted by a member table: the four mandatory members must
/// be present, an absent optional member stands for the empty string.
pub open spec fn spec_record_of(m: PMembers) -> Option<RecordView> {
    match (m.filename, m.size, m.created_time, m.modified_time) {
        (Some(f), Some(sz), Some(ct), Some(mt)) => Some(
            RecordView {
                filename: f,
                size: sz,
                created_time: ct,
                modified_time: mt,
                orientation: match m.orientation { Some(o) => o, None => Seq::empty() },
                capture_time: match m.capture_time { Some(o) => o, None => Seq::empty() },
                camera_model: match m.camera_model { Some(o) => o, None => Seq::empty() },
                camera_serial: match m.camera_serial { Some(o) => o, None => Seq::empty() },
            },
        ),
        _ => None,
    }
}

/// The record denoted by a JSON text, if it is one well-formed object with
/// the known keys, nothing but whitespace around it, and all mandatory
/// members present.
pub open spec fn spec_deserialize(s: Seq<char>) -> Option<RecordView> {
    match spec_parse_top(s) {
        Some(p) => if spec_skip_ws(p.1).len() == 0 {
            spec_record_of(p.0)
        } else {
            None
        },
        None => None,
    }
}

// ---------------------------------------------------------------------
// Parsing, executable
// ---------------------------------------------------------------------

fn is_ws_char(c: char) -> (r: bool)
    ensures
        r == is_ws(c),
{
    c == ' ' || c == '\t' || c == '\n' || c == '\r'
}

/// The Unicode scalar value of `c`, as a number.
fn code_of_char(c: char) -> (n: u32)
    ensures
        n as int == char_code(c),
{
    proof {
        assert(0 <= c as int <= 0x10FFFF);
    }
    c as u32
}

fn skip_ws(v: &Vec<char>, i: usize) -> (j: usize)
    requires
        i <= v@.len(),
    ensures
        i <= j <= v@.len(),
        spec_skip_ws(tail_from(v@, i as int)) == tail_from(v@, j as int),
{
    let mut j = i;
    loop
        invariant
            i <= j <= v@.len(),
            spec_skip_ws(tail_from(v@, i as int)) == spec_skip_ws(tail_from(v@, j as int)),
        ensures
            i <= j <= v@.len(),
            spec_skip_ws(tail_from(v@, i as int)) == tail_from(v@, j as int),
        decreases v@.len() - j,
    {
        if j == v.len() {
            break;
        }
        if !is_ws_char(v[j]) {
            proof {
                assert(tail_from(v@, j as int)[0] == v@[j as int]);
            }
            break;
        }
        proof {
            let t = tail_from(v@, j as int);
            assert(t[0] == v@[j as int]);
            assert(t.subrange(1, t.len() as int) =~= tail_from(v@, j + 1 as int));
        }
        j = j + 1;
    }
    j
}

/// The hexadecimal value of `c`, negative when `c` is no such digit.
fn hex_val_char(c: char) -> (r: i32)
    ensures
        r == spec_hex_val(c),
{
    let n = code_of_char(c);
    if 48 <= n && n <= 57 {
        (n - 48) as i32
    } else if 97 <= n && n <= 102 {
        (n - 87) as i32
    } else if 65 <= n && n <= 70 {
        (n - 55) as i32
    } else {
        -1
    }
}

fn escape_code_char(e: char) -> (r: Option<char>)
    ensures
        r == spec_escape_code(e),
{
    if e == '"' { Some('"') } else if e == '\\' { Some('\\') } else if e == '/' { Some('/') }
    else if e == 'b' { Some('\u{8}') } else if e == 'f' { Some('\u{c}') } else if e == 'n' { Some('\n') }
    else if e == 'r' { Some('\r') } else if e == 't' { Some('\t') } else { None }
}

/// Decodes the low-surrogate half of a `\u` escape pair whose high half,
/// with value `n`, stands at `cur`.
#[verifier::rlimit(100)]
fn parse_surrogate_pair(v: &Vec<char>, cur: usize, n: u32) -> (r: Option<(char, usize)>)
    requires
        cur + 6 <= v@.len(),
        v@[cur as int] == '\\',
        v@[cur + 1 as int] == 'u',
        spec_hex_val(v@[cur + 2 as int]) >= 0,
        spec_hex_val(v@[cur + 3 as int]) >= 0,
        spec_hex_val(v@[cur + 4 as int]) >= 0,
        spec_hex_val(v@[cur + 5 as int]) >= 0,
        n as int == spec_hex_val(v@[cur + 2 as int]) * 4096 + spec_hex_val(v@[cur + 3 as int])
            * 256 + spec_hex_val(v@[cur + 4 as int]) * 16 + spec_hex_val(v@[cur + 5 as int]),
        0xD800 <= n < 0xDC00,
    ensures
        match r {
            Some(p) => cur < p.1 <= v@.len() && spec_parse_string_body(tail_from(v@, cur as int))
                == spec_cons_parsed(p.0, spec_parse_string_body(tail_from(v@, p.1 as int))),
            None => spec_parse_string_body(tail_from(v@, cur as int)) is None,
        },
{
    proof {
        reveal(spec_parse_string_body);
        let t = tail_from(v@, cur as int);
        assert(t[0] == v@[cur as int]);
        assert(t[1] == v@[cur + 1 as int]);
        assert(t[2] == v@[cur + 2 as int]);
        assert(t[3] == v@[cur + 3 as int]);
        assert(t[4] == v@[cur + 4 as int]);
        assert(t[5] == v@[cur + 5 as int]);
    }
    if v.len() - cur < 12 {
        return None;
    }
    proof {
        let t = tail_from(v@, cur as int);
        assert(t[6] == v@[cur + 6 as int]);
        assert(t[7] == v@[cur + 7 as int]);
    }
    if v[cur + 6] != '\\' || v[cur + 7] != 'u' {
        return None;
    }
    let g0 = hex_val_char(v[cur + 8]);
    let g1 = hex_val_char(v[cur + 9]);
    let g2 = hex_val_char(v[cur + 10]);
    let g3 = hex_val_char(v[cur + 11]);
    proof {
        let t = tail_from(v@, cur as int);
        assert(t[8] == v@[cur + 8 as int]);
        assert(t[9] == v@[cur + 9 as int]);
        assert(t[10] == v@[cur + 10 as int]);
        assert(t[11] == v@[cur + 11 as int]);
    }
    if g0 < 0 || g1 < 0 || g2 < 0 || g3 < 0 {
        return None;
    }
    let n2: u32 = (g0 as u32) * 4096 + (g1 as u32) * 256 + (g2 as u32) * 16 + (g3 as u32);
    if !(0xDC00 <= n2 && n2 < 0xE000) {
        return None;
    }
    let combined: u32 = 0x10000 + (n - 0xD800) * 0x400 + (n2 - 0xDC00);
    match char_from_u32(combined) {
        Some(ch) => {
            proof {
                crate::chars::lemma_char_of_code(ch);
                let t = tail_from(v@, cur as int);
                assert(t.subrange(12, t.len() as int) =~= tail_from(v@, cur + 12 as int));
                assert(spec_parse_string_body(t) == spec_cons_parsed(
                    ch,
                    spec_parse_string_body(tail_from(v@, cur + 12 as int)),
                ));
            }
            Some((ch, cur + 12))
        },
        None => {
            proof {
                assert(false);
            }
            None
        },
    }
}

/// Decodes one `\u` escape at `cur` (which must point at its backslash):
/// the denoted character and the index after the escape, a surrogate pair
/// counting as one escape of twelve characters.
#[verifier::rlimit(100)]
fn parse_unicode_escape(v: &Vec<char>, cur: usize) -> (r: Option<(char, usize)>)
    requires
        cur + 1 < v@.len(),
        v@[cur as int] == '\\',
        v@[cur + 1 as int] == 'u',
    ensures
        match r {
            Some(p) => cur < p.1 <= v@.len() && spec_parse_string_body(tail_from(v@, cur as int))
                == spec_cons_parsed(p.0, spec_parse_string_body(tail_from(v@, p.1 as int))),
            None => spec_parse_string_body(tail_from(v@, cur as int)) is None,
        },
{
    proof {
        reveal(spec_parse_string_body);
        let t = tail_from(v@, cur as int);
        assert(t[0] == v@[cur as int]);
        assert(t[1] == v@[cur + 1 as int]);
    }
    if v.len() - cur < 6 {
        return None;
    }
    let h0 = hex_val_char(v[cur + 2]);
    let h1 = hex_val_char(v[cur + 3]);
    let h2 = hex_val_char(v[cur + 4]);
    let h3 = hex_val_char(v[cur + 5]);
    proof {
        let t = tail_from(v@, cur as int);
        assert(t[2] == v@[cur + 2 as int]);
        assert(t[3] == v@[cur + 3 as int]);
        assert(t[4] == v@[cur + 4 as int]);
        assert(t[5] == v@[cur + 5 as int]);
    }
    if h0 < 0 || h1 < 0 || h2 < 0 || h3 < 0 {
        return None;
    }
    let n: u32 = (h0 as u32) * 4096 + (h1 as u32) * 256 + (h2 as u32) * 16 + (h3 as u32);
    if 0xD800 <= n && n < 0xDC00 {
        parse_surrogate_pair(v, cur, n)
    } else {
        match char_from_u32(n) {
            Some(ch) => {
                proof {
                    crate::chars::lemma_char_of_code(ch);
                    let t = tail_from(v@, cur as int);
                    assert(t.subrange(6, t.len() as int) =~= tail_from(v@, cur + 6 as int));
                    assert(spec_parse_string_body(t) == spec_cons_parsed(
                        ch,
                        spec_parse_string_body(tail_from(v@, cur + 6 as int)),
                    ));
                }
                Some((ch, cur + 6))
            },
            None => {
                None
            },
        }
    }
}

#[verifier::rlimit(100)]
fn parse_string_body(v: &Vec<char>, i: usize) -> (r: Option<(Vec<char>, usize)>)
    requires
        i <= v@.len(),
    ensures
        match r {
            Some(p) => p.1 <= v@.len() && spec_parse_string_body(tail_from(v@, i as int)) == Some(
                (p.0@, tail_from(v@, p.1 as int)),
            ),
            None => spec_parse_string_body(tail_from(v@, i as int)) is None,
        },
{
    proof {
        reveal(spec_parse_string_body);
    }
    let mut out: Vec<char> = Vec::new();
    let mut cur = i;
    loop
        invariant
            i <= cur <= v@.len(),
            spec_parse_string_body(tail_from(v@, i as int)) == (match spec_parse_string_body(
                tail_from(v@, cur as int),
            ) {
                Some(p) => Some((out@ + p.0, p.1)),
                None => None::<(Seq<char>, Seq<char>)>,
            }),
        decreases v@.len() - cur,
    {
        proof {
            reveal(spec_parse_string_body);
            let t = tail_from(v@, cur as int);
            if t.len() > 0 {
                assert(t[0] == v@[cur as int]);
            }
        }
        if cur == v.len() {
            return None;
        }
        let c = v[cur];
        if c == '"' {
            proof {
                let t = tail_from(v@, cur as int);
                assert(t.subrange(1, t.len() as int) =~= tail_from(v@, cur + 1 as int));
                assert(out@ + Seq::<char>::empty() =~= out@);
            }
            return Some((out, cur + 1));
        } else if c == '\\' {
            if cur + 1 == v.len() {
                return None;
            }
            let e = v[cur + 1];
            proof {
                let t = tail_from(v@, cur as int);
                assert(t[1] == v@[cur + 1 as int]);
            }
            if e == 'u' {
                match parse_unicode_escape(v, cur) {
                    Some((ch, nxt)) => {
                        let ghost out0 = out@;
                        out.push(ch);
                        proof {
                            assert(out@ =~= out0 + seq![ch]);
                            match spec_parse_string_body(tail_from(v@, nxt as int)) {
                                Some(p) => {
                                    assert(out0 + (seq![ch] + p.0) =~= (out0 + seq![ch]) + p.0);
                                },
                                None => {},
                            }
                        }
                        cur = nxt;
                    },
                    None => {
                        return None;
                    },
                }
            } else {
                match escape_code_char(e) {
                    Some(d) => {
                        let ghost out0 = out@;
                        out.push(d);
                        proof {
                            let t = tail_from(v@, cur as int);
                            assert(t.subrange(2, t.len() as int) =~= tail_from(
                                v@,
                                cur + 2 as int,
                            ));
                            assert(spec_parse_string_body(t) == spec_cons_parsed(
                                d,
                                spec_parse_string_body(tail_from(v@, cur + 2 as int)),
                            ));
                            assert(out@ =~= out0 + seq![d]);
                            match spec_parse_string_body(tail_from(v@, cur + 2 as int)) {
                                Some(p) => {
                                    assert(out0 + (seq![d] + p.0) =~= (out0 + seq![d]) + p.0);
                                },
                                None => {},
                            }
                        }
                        cur = cur + 2;
                    },
                    None => {
                        return None;
                    },
                }
            }
        } else if code_of_char(c) < 0x20 {
            return None;
        } else {
            let ghost out0 = out@;
            out.push(c);
            proof {
                let t = tail_from(v@, cur as int);
                assert(t.subrange(1, t.len() as int) =~= tail_from(v@, cur + 1 as int));
                assert(spec_parse_string_body(t) == spec_cons_parsed(
                    c,
                    spec_parse_string_body(tail_from(v@, cur + 1 as int)),
                ));
                assert(out@ =~= out0 + seq![c]);
                match spec_parse_string_body(tail_from(v@, cur + 1 as int)) {
                    Some(p) => {
                        assert(out0 + (seq![c] + p.0) =~= (out0 + seq![c]) + p.0);
                    },
                    None => {},
                }
            }
            cur = cur + 1;
        }
    }
}

fn parse_quoted_at(v: &Vec<char>, i: usize) -> (r: Option<(Vec<char>, usize)>)
    requires
        i <= v@.len(),
    ensures
        match r {
            Some(p) => p.1 <= v@.len() && spec_parse_quoted(tail_from(v@, i as int)) == Some(
                (p.0@, tail_from(v@, p.1 as int)),
            ),
            None => spec_parse_quoted(tail_from(v@, i as int)) is None,
        },
{
    proof {
        reveal(spec_parse_string_body);
        let t = tail_from(v@, i as int);
        if t.len() > 0 {
            assert(t[0] == v@[i as int]);
        }
    }
    if i == v.len() {
        return None;
    }
    if v[i] != '"' {
        return None;
    }
    proof {
        let t = tail_from(v@, i as int);
        assert(t.subrange(1, t.len() as int) =~= tail_from(v@, i + 1 as int));
    }
    parse_string_body(v, i + 1)
}

/// The folded digits never shrink below the accumulator.
proof fn lemma_parse_digits_ge(s: Seq<char>, acc: nat)
    ensures
        spec_parse_digits(s, acc).0 >= acc,
    decreases s.len(),
{
    if s.len() > 0 && is_digit(s[0]) {
        let acc2 = (acc * 10 + (char_code(s[0]) - 48) as nat) as nat;
        assert(acc * 10 >= acc) by (nonlinear_arith);
        lemma_parse_digits_ge(s.subrange(1, s.len() as int), acc2);
    }
}

#[verifier::rlimit(100)]
fn parse_u64_at(v: &Vec<char>, i: usize) -> (r: Option<(u64, usize)>)
    requires
        i <= v@.len(),
    ensures
        match r {
            Some(p) => p.1 <= v@.len() && spec_parse_u64(tail_from(v@, i as int)) == Some(
                (p.0, tail_from(v@, p.1 as int)),
            ),
            None => spec_parse_u64(tail_from(v@, i as int)) is None,
        },
{
    proof {
        let t = tail_from(v@, i as int);
        if t.len() > 0 {
            assert(t[0] == v@[i as int]);
        }
        if t.len() > 1 {
            assert(t[1] == v@[i + 1 as int]);
        }
    }
    if i == v.len() {
        return None;
    }
    let c0 = v[i];
    let n0 = code_of_char(c0);
    if !(48 <= n0 && n0 <= 57) {
        return None;
    }
    if c0 == '0' && i + 1 < v.len() {
        let n1 = code_of_char(v[i + 1]);
        if 48 <= n1 && n1 <= 57 {
            return None;
        }
    }
    let mut cur = i;
    let mut acc: u64 = 0;
    let ghost mut acc_n: nat = 0nat;
    let mut overflow = false;
    loop
        invariant
            i <= cur <= v@.len(),
            spec_parse_digits(tail_from(v@, i as int), 0) == spec_parse_digits(
                tail_from(v@, cur as int),
                acc_n,
            ),
            !overflow ==> acc == acc_n,
            overflow ==> acc_n > u64::MAX,
        ensures
            i <= cur <= v@.len(),
            spec_parse_digits(tail_from(v@, i as int), 0) == (acc_n, tail_from(v@, cur as int)),
            !overflow ==> acc == acc_n,
            overflow ==> acc_n > u64::MAX,
        decreases v@.len() - cur,
    {
        proof {
            let t = tail_from(v@, cur as int);
            if t.len() > 0 {
                assert(t[0] == v@[cur as int]);
            }
        }
        if cur == v.len() {
            break;
        }
        let c = v[cur];
        let n = code_of_char(c);
        if !(48 <= n && n <= 57) {
            break;
        }
        let d = (n - 48) as u64;
        let ghost acc_n0 = acc_n;
        if overflow {
            proof {
                assert(acc_n0 * 10 >= acc_n0) by (nonlinear_arith);
            }
        } else {
            let limit = u64::MAX / 10;
            let rem = u64::MAX % 10;
            if acc > limit || (acc == limit && d > rem) {
                proof {
                    assert(acc as nat * 10 + d as nat > u64::MAX) by (nonlinear_arith)
                        requires
                            acc as nat > u64::MAX as nat / 10 || (acc as nat == u64::MAX as nat
                                / 10 && d as nat > u64::MAX as nat % 10),
                            d < 10,
                            u64::MAX as nat == 10 * (u64::MAX as nat / 10) + (u64::MAX as nat
                                % 10),
                    ;
                }
                overflow = true;
            } else {
                proof {
                    assert(acc as nat * 10 + d as nat <= u64::MAX) by (nonlinear_arith)
                        requires
                            acc as nat <= u64::MAX as nat / 10,
                            !(acc as nat == u64::MAX as nat / 10 && d as nat > u64::MAX as nat
                                % 10),
                            d < 10,
                            u64::MAX as nat == 10 * (u64::MAX as nat / 10) + (u64::MAX as nat
                                % 10),
                    ;
                }
                acc = acc * 10 + d;
            }
        }
        proof {
            acc_n = (acc_n0 * 10 + d as nat) as nat;
            let t = tail_from(v@, cur as int);
            assert(t[0] == v@[cur as int]);
            assert(char_code(t[0]) == n as int);
            assert((char_code(t[0]) - 48) as nat == d as nat);
            assert(is_digit(t[0]));
            assert(t.subrange(1, t.len() as int) =~= tail_from(v@, cur + 1 as int));
            assert(spec_parse_digits(t, acc_n0) == spec_parse_digits(
                tail_from(v@, cur + 1 as int),
                acc_n,
            ));
        }
        cur = cur + 1;
    }
    if overflow {
        return None;
    }
    Some((acc, cur))
}

fn chars_eq_str(v: &Vec<char>, s: &str) -> (r: bool)
    ensures
        r == (v@ == s@),
{
    let n = s.unicode_len();
    if v.len() != n {
        proof {
            assert(v@ != s@) by {
                if v@ == s@ {
                    assert(v@.len() == s@.len());
                }
            }
        }
        return false;
    }
    let mut i: usize = 0;
    while i < n
        invariant
            n == s@.len(),
            v@.len() == n,
            i <= n,
            forall|k: int| 0 <= k < i ==> v@[k] == s@[k],
        decreases n - i,
    {
        if v[i] != s.get_char(i) {
            proof {
                assert(v@ != s@) by {
                    if v@ == s@ {
                        assert(v@[i as int] == s@[i as int]);
                    }
                }
            }
            return false;
        }
        i = i + 1;
    }
    proof {
        assert(v@ =~= s@);
    }
    true
}

/// The members read so far, with their values already in executable form.
struct MembersAcc {
    filename: Option<String>,
    size: Option<u64>,
    created_time: Option<String>,
    modified_time: Option<String>,
    orientation: Option<String>,
    capture_time: Option<String>,
    camera_model: Option<String>,
    camera_serial: Option<String>,
}

impl View for MembersAcc {
    type V = PMembers;

    closed spec fn view(&self) -> PMembers {
        PMembers {
            filename: match self.filename {
                Some(s) => Some(s@),
                None => None,
            },
            size: self.size,
            created_time: match self.created_time {
                Some(s) => Some(s@),
                None => None,
            },
            modified_time: match self.modified_time {
                Some(s) => Some(s@),
                None => None,
            },
            orientation: match self.orientation {
                Some(s) => Some(s@),
                None => None,
            },
            capture_time: match self.capture_time {
                Some(s) => Some(s@),
                None => None,
            },
            camera_model: match self.camera_model {
                Some(s) => Some(s@),
                None => None,
            },
            camera_serial: match self.camera_serial {
                Some(s) => Some(s@),
                None => None,
            },
        }
    }
}

fn parse_value_at(v: &Vec<char>, i: usize, key: &Vec<char>, acc: MembersAcc) -> (r: Option<
    (MembersAcc, usize),
>)
    requires
        i <= v@.len(),
    ensures
        match r {
            Some(p) => p.1 <= v@.len() && spec_parse_value(key@, tail_from(v@, i as int), acc@)
                == Some((p.0@, tail_from(v@, p.1 as int))),
            None => spec_parse_value(key@, tail_from(v@, i as int), acc@) is None,
        },
{
    proof {
        reveal_strlit("filename");
        reveal_strlit("size");
        reveal_strlit("created_time");
        reveal_strlit("modified_time");
        reveal_strlit("orientation");
        reveal_strlit("capture_time");
        reveal_strlit("camera_model");
        reveal_strlit("camera_serial");
        assert("filename"@ =~= key_filename());
        assert("size"@ =~= key_size());
        assert("created_time"@ =~= key_created_time());
        assert("modified_time"@ =~= key_modified_time());
        assert("orientation"@ =~= key_orientation());
        assert("capture_time"@ =~= key_capture_time());
        assert("camera_model"@ =~= key_camera_model());
        assert("camera_serial"@ =~= key_camera_serial());
    }
    if chars_eq_str(key, "filename") {
        if acc.filename.is_some() {
            return None;
        }
        match parse_quoted_at(v, i) {
            Some((content, j)) => Some((MembersAcc { filename: Some(chars_to_string(&content)), ..acc }, j)),
            None => None,
        }
    } else if chars_eq_str(key, "size") {
        if acc.size.is_some() {
            return None;
        }
        match parse_u64_at(v, i) {
            Some((val, j)) => Some((MembersAcc { size: Some(val), ..acc }, j)),
            None => None,
        }
    } else if chars_eq_str(key, "created_time") {
        if acc.created_time.is_some() {
            return None;
        }
        match parse_quoted_at(v, i) {
            Some((content, j)) => Some((MembersAcc { created_time: Some(chars_to_string(&content)), ..acc }, j)),
            None => None,
        }
    } else if chars_eq_str(key, "modified_time") {
        if acc.modified_time.is_some() {
            return None;
        }
        match parse_quoted_at(v, i) {
            Some((content, j)) => Some((MembersAcc { modified_time: Some(chars_to_string(&content)), ..acc }, j)),
            None => None,
        }
    } else if chars_eq_str(key, "orientation") {
        if acc.orientation.is_some() {
            return None;
        }
        match parse_quoted_at(v, i) {
            Some((content, j)) => Some((MembersAcc { orientation: Some(chars_to_string(&content)), ..acc }, j)),
            None => None,
        }
    } else if chars_eq_str(key, "capture_time") {
        if acc.capture_time.is_some() {
            return None;
        }
        match parse_quoted_at(v, i) {
            Some((content, j)) => Some((MembersAcc { capture_time: Some(chars_to_string(&content)), ..acc }, j)),
            None => None,
        }
    } else if chars_eq_str(key, "camera_model") {
        if acc.camera_model.is_some() {
            return None;
        }
        match parse_quoted_at(v, i) {
            Some((content, j)) => Some((MembersAcc { camera_model: Some(chars_to_string(&content)), ..acc }, j)),
            None => None,
        }
    } else if chars_eq_str(key, "camera_serial") {
        if acc.camera_serial.is_some() {
            return None;
        }
        match parse_quoted_at(v, i) {
            Some((content, j)) => Some((MembersAcc { camera_serial: Some(chars_to_string(&content)), ..acc }, j)),
            None => None,
        }
    } else {
        None
    }
}

#[verifier::rlimit(100)]
fn parse_members_at(v: &Vec<char>, i: usize, acc: MembersAcc, allow_close: bool, fuel: u32) -> (r:
    Option<(MembersAcc, usize)>)
    requires
        i <= v@.len(),
    ensures
        match r {
            Some(p) => p.1 <= v@.len() && spec_parse_members(
                tail_from(v@, i as int),
                acc@,
                allow_close,
                fuel as nat,
            ) == Some((p.0@, tail_from(v@, p.1 as int))),
            None => spec_parse_members(tail_from(v@, i as int), acc@, allow_close, fuel as nat)
                is None,
        },
    decreases fuel,
{
    if fuel == 0 {
        return None;
    }
    let t = skip_ws(v, i);
    proof {
        let tt = tail_from(v@, t as int);
        if tt.len() > 0 {
            assert(tt[0] == v@[t as int]);
        }
    }
    if t == v.len() {
        return None;
    }
    let c = v[t];
    if c == '}' && allow_close {
        proof {
            let tt = tail_from(v@, t as int);
            assert(tt.subrange(1, tt.len() as int) =~= tail_from(v@, t + 1 as int));
        }
        return Some((acc, t + 1));
    }
    if c != '"' {
        return None;
    }
    proof {
        let tt = tail_from(v@, t as int);
        assert(tt.subrange(1, tt.len() as int) =~= tail_from(v@, t + 1 as int));
    }
    match parse_string_body(v, t + 1) {
        None => None,
        Some((key, k)) => {
            let m = skip_ws(v, k);
            proof {
                let tm = tail_from(v@, m as int);
                if tm.len() > 0 {
                    assert(tm[0] == v@[m as int]);
                }
            }
            if m == v.len() {
                return None;
            }
            if v[m] != ':' {
                return None;
            }
            proof {
                let tm = tail_from(v@, m as int);
                assert(tm.subrange(1, tm.len() as int) =~= tail_from(v@, m + 1 as int));
            }
            let w = skip_ws(v, m + 1);
            match parse_value_at(v, w, &key, acc) {
                None => None,
                Some((acc2, x)) => {
                    let y = skip_ws(v, x);
                    proof {
                        let ty = tail_from(v@, y as int);
                        if ty.len() > 0 {
                            assert(ty[0] == v@[y as int]);
                        }
                    }
                    if y == v.len() {
                        return None;
                    }
                    let cy = v[y];
                    if cy == ',' {
                        proof {
                            let ty = tail_from(v@, y as int);
                            assert(ty.subrange(1, ty.len() as int) =~= tail_from(
                                v@,
                                y + 1 as int,
                            ));
                        }
                        parse_members_at(v, y + 1, acc2, false, fuel - 1)
                    } else if cy == '}' {
                        proof {
                            let ty = tail_from(v@, y as int);
                            assert(ty.subrange(1, ty.len() as int) =~= tail_from(
                                v@,
                                y + 1 as int,
                            ));
                        }
                        Some((acc2, y + 1))
                    } else {
                        None
                    }
                },
            }
        },
    }
}

fn record_of_members(m: MembersAcc) -> (r: Option<ImageInfo>)
    ensures
        match r {
            Some(rec) => spec_record_of(m@) == Some(rec@),
            None => spec_record_of(m@) is None,
        },
{
    match (m.filename, m.size, m.created_time, m.modified_time) {
        (Some(filename), Some(size), Some(created_time), Some(modified_time)) => {
            let orientation = match m.orientation {
                Some(s) => s,
                None => String::new(),
            };
            let capture_time = match m.capture_time {
                Some(s) => s,
                None => String::new(),
            };
            let camera_model = match m.camera_model {
                Some(s) => s,
                None => String::new(),
            };
            let camera_serial = match m.camera_serial {
                Some(s) => s,
                None => String::new(),
            };
            Some(
                ImageInfo {
                    filename,
                    size,
                    created_time,
                    modified_time,
                    orientation,
                    capture_time,
                    camera_model,
                    camera_serial,
                },
            )
        },
        _ => None,
    }
}

/// Parses a JSON text back to a record. The text must be one object with
/// any subset of the known keys, in any order and with any whitespace; the
/// four mandatory keys must be present, an omitted optional key yields the
/// empty string, and a repeated or unknown key, a trailing comma, a value
/// of the wrong type or trailing text is rejected.
pub fn deserialize(text: &str) -> (r: Result<ImageInfo, ImagextractorError>)
    ensures
        r is Ok <==> spec_deserialize(text@) is Some,
        r matches Ok(rec) ==> spec_deserialize(text@) == Some(rec@),
{
    let v = str_to_chars(text);
    proof {
        assert(tail_from(v@, 0) =~= text@);
    }
    let i = skip_ws(&v, 0);
    proof {
        let t = tail_from(v@, i as int);
        if t.len() > 0 {
            assert(t[0] == v@[i as int]);
        }
    }
    if i == v.len() {
        return Err(parse_failure());
    }
    if v[i] != '{' {
        return Err(parse_failure());
    }
    proof {
        let t = tail_from(v@, i as int);
        assert(t.subrange(1, t.len() as int) =~= tail_from(v@, i + 1 as int));
    }
    let acc = MembersAcc {
        filename: None,
        size: None,
        created_time: None,
        modified_time: None,
        orientation: None,
        capture_time: None,
        camera_model: None,
        camera_serial: None,
    };
    match parse_members_at(&v, i + 1, acc, true, 20) {
        None => Err(parse_failure()),
        Some((m, j)) => {
            let k = skip_ws(&v, j);
            if k != v.len() {
                return Err(parse_failure());
            }
            match record_of_members(m) {
                Some(rec) => Ok(rec),
                None => Err(parse_failure()),
            }
        },
    }
}

fn parse_failure() -> ImagextractorError {
    ImagextractorError::ParseError(String::from_str("the JSON document is not a metadata record"))
}

} // verus!
