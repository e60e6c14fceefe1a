//! The laws of the record codec, proved once and for all records: parsing
//! the canonical text of a record gives the record back, and an optional
//! field with the empty string as its value leaves no member in the text.

use vstd::prelude::*;
use crate::codec::{
    is_digit, is_ws, key_camera_model, key_camera_serial, key_capture_time, key_created_time,
    key_filename, key_modified_time, key_orientation, key_size, member_fuel,
    spec_cons_parsed, spec_deserialize, spec_digit_char, spec_empty_members, spec_escape,
    spec_escape_char, spec_escape_code, spec_hex_val, spec_member, spec_opt_member,
    spec_parse_digits, spec_parse_members, spec_parse_quoted, spec_parse_string_body,
    spec_parse_top, spec_parse_u64, spec_parse_value, spec_quote, spec_record_of, spec_serialize,
    spec_skip_ws, spec_u64_str, valid_scalar, PMembers,
};
use crate::chars::{char_code, spec_char_of};
use crate::record::RecordView;

verus! {

// ---------------------------------------------------------------------
// Whitespace
// ---------------------------------------------------------------------

proof fn lemma_skip_ws_concat(w: Seq<char>, rest: Seq<char>)
    requires
        forall|k: int| 0 <= k < w.len() ==> is_ws(#[trigger] w[k]),
    ensures
        spec_skip_ws(w + rest) == spec_skip_ws(rest),
    decreases w.len(),
{
    if w.len() == 0 {
        assert(w + rest =~= rest);
    } else {
        assert((w + rest)[0] == w[0]);
        assert((w + rest).subrange(1, (w + rest).len() as int) =~= w.subrange(
            1,
            w.len() as int,
        ) + rest);
        lemma_skip_ws_concat(w.subrange(1, w.len() as int), rest);
    }
}

proof fn lemma_skip_ws_nonws(s: Seq<char>)
    requires
        s.len() == 0 || !is_ws(s[0]),
    ensures
        spec_skip_ws(s) == s,
{
}

// ---------------------------------------------------------------------
// Strings
// ---------------------------------------------------------------------

proof fn lemma_hex_digit_val(h: int)
    requires
        0 <= h < 16,
    ensures
        spec_hex_val(spec_digit_char(h)) == h,
{
}

/// Parsing an escaped text followed by a closing quote restores the text.
#[verifier::rlimit(100)]
proof fn lemma_parse_escaped(x: Seq<char>, rest: Seq<char>)
    ensures
        spec_parse_string_body(spec_escape(x) + (seq!['"'] + rest)) == Some((x, rest)),
    decreases x.len(),
{
    reveal(spec_parse_string_body);
    if x.len() == 0 {
        let s = spec_escape(x) + (seq!['"'] + rest);
        assert(s =~= seq!['"'] + rest);
        assert(s[0] == '"');
        assert(s.subrange(1, s.len() as int) =~= rest);
        assert(x =~= Seq::<char>::empty());
    } else {
        let c = x[0];
        let x1 = x.subrange(1, x.len() as int);
        let e = spec_escape_char(c);
        let r2 = spec_escape(x1) + (seq!['"'] + rest);
        let s = spec_escape(x) + (seq!['"'] + rest);
        assert(spec_escape(x) == e + spec_escape(x1));
        assert(s =~= e + r2);
        lemma_parse_escaped(x1, rest);
        assert(seq![c] + x1 =~= x);
        if c == '"' || c == '\\' {
            assert(s[0] == '\\');
            assert(s[1] == c);
            assert(s.subrange(2, s.len() as int) =~= r2);
            assert(spec_escape_code(c) == Some(c));
            assert(spec_parse_string_body(s) == spec_cons_parsed(
                c,
                spec_parse_string_body(r2),
            ));
        } else if c == '\u{8}' || c == '\t' || c == '\n' || c == '\u{c}' || c == '\r' {
            assert(s[0] == '\\');
            assert(s.subrange(2, s.len() as int) =~= r2);
            if c == '\u{8}' {
                assert(s[1] == 'b');
                assert(spec_escape_code(s[1]) == Some(c));
            } else if c == '\t' {
                assert(s[1] == 't');
                assert(spec_escape_code(s[1]) == Some(c));
            } else if c == '\n' {
                assert(s[1] == 'n');
                assert(spec_escape_code(s[1]) == Some(c));
            } else if c == '\u{c}' {
                assert(s[1] == 'f');
                assert(spec_escape_code(s[1]) == Some(c));
            } else {
                assert(s[1] == 'r');
                assert(spec_escape_code(s[1]) == Some(c));
            }
            assert(spec_parse_string_body(s) == spec_cons_parsed(
                c,
                spec_parse_string_body(r2),
            ));
        } else if char_code(c) < 0x20 {
            let code = char_code(c);
            crate::chars::lemma_char_bounds(c);
            assert(0 <= code < 0x20);
            assert(s[0] == '\\');
            assert(s[1] == 'u');
            assert(s[2] == '0');
            assert(s[3] == '0');
            assert(s[4] == spec_digit_char(code / 16));
            assert(s[5] == spec_digit_char(code % 16));
            assert(s.len() >= 6);
            lemma_hex_digit_val(code / 16);
            lemma_hex_digit_val(code % 16);
            assert(spec_hex_val(s[2]) == 0);
            assert(spec_hex_val(s[3]) == 0);
            let n = spec_hex_val(s[2]) * 4096 + spec_hex_val(s[3]) * 256 + spec_hex_val(s[4]) * 16
                + spec_hex_val(s[5]);
            assert(n == 16 * (code / 16) + code % 16);
            assert(n == code);
            assert(valid_scalar(n));
            crate::chars::lemma_char_of_code(c);
            assert(spec_char_of(n) == c);
            assert(s.subrange(6, s.len() as int) =~= r2);
            assert(spec_parse_string_body(s) == spec_cons_parsed(
                c,
                spec_parse_string_body(r2),
            ));
        } else {
            assert(e =~= seq![c]);
            assert(s[0] == c);
            assert(s.subrange(1, s.len() as int) =~= r2);
            assert(spec_parse_string_body(s) == spec_cons_parsed(
                c,
                spec_parse_string_body(r2),
            ));
        }
    }
}

/// Parsing a quoted text restores the text.
proof fn lemma_parse_quoted(x: Seq<char>, rest: Seq<char>)
    ensures
        spec_parse_quoted(spec_quote(x) + rest) == Some((x, rest)),
{
    let s = spec_quote(x) + rest;
    assert(s[0] == '"');
    assert(s.subrange(1, s.len() as int) =~= spec_escape(x) + (seq!['"'] + rest));
    lemma_parse_escaped(x, rest);
}

// ---------------------------------------------------------------------
// Numbers
// ---------------------------------------------------------------------

spec fn pow10(n: nat) -> nat
    decreases n,
{
    if n == 0 {
        1
    } else {
        10 * pow10((n - 1) as nat)
    }
}

proof fn lemma_parse_digits_str(v: nat, rest: Seq<char>, acc: nat)
    ensures
        spec_parse_digits(spec_u64_str(v) + rest, acc) == spec_parse_digits(
            rest,
            acc * pow10(spec_u64_str(v).len() as nat) + v,
        ),
    decreases v,
{
    let w = spec_u64_str(v);
    let s = w + rest;
    if v < 10 {
        assert(w =~= seq![spec_digit_char(v as int)]);
        assert(s[0] == spec_digit_char(v as int));
        assert(is_digit(s[0]));
        assert(char_code(s[0]) - 48 == v);
        assert(s.subrange(1, s.len() as int) =~= rest);
        assert(pow10(1) == 10 * pow10(0));
        assert(acc * 10 + v == acc * pow10(1) + v) by (nonlinear_arith)
            requires
                pow10(1) == 10,
        ;
    } else {
        let w1 = spec_u64_str(v / 10);
        let d = spec_digit_char((v % 10) as int);
        assert(w == w1 + seq![d]);
        assert(s =~= w1 + (seq![d] + rest));
        lemma_parse_digits_str(v / 10, seq![d] + rest, acc);
        let l1 = w1.len() as nat;
        let a1 = (acc * pow10(l1) + v / 10) as nat;
        let t = seq![d] + rest;
        assert(t[0] == d);
        assert(is_digit(t[0]));
        assert(char_code(t[0]) - 48 == v % 10);
        assert(t.subrange(1, t.len() as int) =~= rest);
        assert(spec_parse_digits(t, a1) == spec_parse_digits(
            rest,
            (a1 * 10 + (v % 10)) as nat,
        ));
        assert(w.len() == l1 + 1);
        assert(pow10((l1 + 1) as nat) == 10 * pow10(l1));
        assert(a1 * 10 + (v % 10) == acc * pow10((l1 + 1) as nat) + v) by (nonlinear_arith)
            requires
                a1 == acc * pow10(l1) + v / 10,
                pow10((l1 + 1) as nat) == 10 * pow10(l1),
                v == 10 * (v / 10) + v % 10,
        ;
    }
}

proof fn lemma_u64_str_shape(v: nat)
    ensures
        spec_u64_str(v).len() >= 1,
        is_digit(spec_u64_str(v)[0]),
        v >= 10 ==> spec_u64_str(v)[0] != '0',
        v >= 1 ==> spec_u64_str(v)[0] != '0',
        v == 0 ==> spec_u64_str(v) =~= seq!['0'],
    decreases v,
{
    if v < 10 {
    } else {
        lemma_u64_str_shape(v / 10);
        assert(spec_u64_str(v)[0] == spec_u64_str(v / 10)[0]);
    }
}

/// Parsing the decimal text of a number restores the number.
proof fn lemma_parse_u64_str(v: u64, rest: Seq<char>)
    requires
        rest.len() == 0 || !is_digit(rest[0]),
    ensures
        spec_parse_u64(spec_u64_str(v as nat) + rest) == Some((v, rest)),
{
    let w = spec_u64_str(v as nat);
    let s = w + rest;
    lemma_u64_str_shape(v as nat);
    assert(s[0] == w[0]);
    assert(is_digit(s[0]));
    if v == 0 {
        assert(w =~= seq!['0']);
        if s.len() > 1 {
            assert(s[1] == rest[0]);
        }
    } else {
        assert(w[0] != '0');
    }
    assert(!(s[0] == '0' && s.len() > 1 && is_digit(s[1])));
    lemma_parse_digits_str(v as nat, rest, 0);
    assert(spec_parse_digits(rest, (0 * pow10(w.len() as nat) + v as nat) as nat)
        == spec_parse_digits(rest, v as nat));
    assert(spec_parse_digits(rest, v as nat) == (v as nat, rest));
}

// ---------------------------------------------------------------------
// Members
// ---------------------------------------------------------------------

/// The known string-valued keys are pairwise distinct and distinct from
/// the size key.
proof fn lemma_keys_distinct()
    ensures
        key_filename() != key_size(),
        key_filename() != key_created_time(),
        key_filename() != key_modified_time(),
        key_filename() != key_orientation(),
        key_filename() != key_capture_time(),
        key_filename() != key_camera_model(),
        key_filename() != key_camera_serial(),
        key_size() != key_created_time(),
        key_size() != key_modified_time(),
        key_size() != key_orientation(),
        key_size() != key_capture_time(),
        key_size() != key_camera_model(),
        key_size() != key_camera_serial(),
        key_created_time() != key_modified_time(),
        key_created_time() != key_orientation(),
        key_created_time() != key_capture_time(),
        key_created_time() != key_camera_model(),
        key_created_time() != key_camera_serial(),
        key_modified_time() != key_orientation(),
        key_modified_time() != key_capture_time(),
        key_modified_time() != key_camera_model(),
        key_modified_time() != key_camera_serial(),
        key_orientation() != key_capture_time(),
        key_orientation() != key_camera_model(),
        key_orientation() != key_camera_serial(),
        key_capture_time() != key_camera_model(),
        key_capture_time() != key_camera_serial(),
        key_camera_model() != key_camera_serial(),
{
    assert(key_created_time()[1] == 'r' && key_capture_time()[1] == 'a');
    assert(key_created_time()[1] == 'r' && key_camera_model()[1] == 'a');
    assert(key_modified_time()[0] == 'm' && key_camera_serial()[0] == 'c');
    assert(key_modified_time()[0] == 'm' && key_camera_model()[0] == 'c');
    assert(key_capture_time()[1] == 'a' && key_camera_model()[6] == '_');
    assert(key_capture_time()[6] == 'e' && key_camera_model()[6] == '_');
}

/// Which string-valued field a key names, and that its slot is free.
spec fn str_slot_free(key: Seq<char>, acc: PMembers) -> bool {
    if key == key_filename() { acc.filename is None }
    else if key == key_created_time() { acc.created_time is None }
    else if key == key_modified_time() { acc.modified_time is None }
    else if key == key_orientation() { acc.orientation is None }
    else if key == key_capture_time() { acc.capture_time is None }
    else if key == key_camera_model() { acc.camera_model is None }
    else if key == key_camera_serial() { acc.camera_serial is None }
    else { false }
}

/// The member table with the string field named by `key` set to `val`.
spec fn set_str_field(key: Seq<char>, acc: PMembers, val: Seq<char>) -> PMembers {
    if key == key_filename() { PMembers { filename: Some(val), ..acc } }
    else if key == key_created_time() { PMembers { created_time: Some(val), ..acc } }
    else if key == key_modified_time() { PMembers { modified_time: Some(val), ..acc } }
    else if key == key_orientation() { PMembers { orientation: Some(val), ..acc } }
    else if key == key_capture_time() { PMembers { capture_time: Some(val), ..acc } }
    else if key == key_camera_model() { PMembers { camera_model: Some(val), ..acc } }
    else if key == key_camera_serial() { PMembers { camera_serial: Some(val), ..acc } }
    else { acc }
}

proof fn lemma_parse_value_string(key: Seq<char>, val: Seq<char>, after: Seq<char>, acc: PMembers)
    requires
        str_slot_free(key, acc),
    ensures
        spec_parse_value(key, spec_quote(val) + after, acc) == Some(
            (set_str_field(key, acc, val), after),
        ),
{
    lemma_keys_distinct();
    lemma_parse_quoted(val, after);
}

proof fn lemma_parse_value_size(val: u64, after: Seq<char>, acc: PMembers)
    requires
        acc.size is None,
        after.len() == 0 || !is_digit(after[0]),
    ensures
        spec_parse_value(key_size(), spec_u64_str(val as nat) + after, acc) == Some(
            (PMembers { size: Some(val), ..acc }, after),
        ),
{
    lemma_keys_distinct();
    lemma_parse_u64_str(val, after);
}

/// One member step: given the text of a member followed by a comma or the
/// closing brace, the object parser records the member and moves on.
proof fn lemma_parse_member(
    key: Seq<char>,
    valtext: Seq<char>,
    after: Seq<char>,
    acc: PMembers,
    acc2: PMembers,
    allow_close: bool,
    fuel: nat,
)
    requires
        fuel >= 1,
        valtext.len() > 0,
        !is_ws(valtext[0]),
        spec_parse_value(key, valtext + after, acc) == Some((acc2, after)),
        ({
            let a2 = spec_skip_ws(after);
            a2.len() > 0 && (a2[0] == ',' || a2[0] == '}')
        }),
    ensures
        spec_parse_members(spec_member(key, valtext) + after, acc, allow_close, fuel) == ({
            let a2 = spec_skip_ws(after);
            if a2[0] == ',' {
                spec_parse_members(a2.subrange(1, a2.len() as int), acc2, false, (fuel - 1) as nat)
            } else {
                Some((acc2, a2.subrange(1, a2.len() as int)))
            }
        }),
{
    let s = spec_member(key, valtext) + after;
    let w = seq!['\n', ' ', ' '];
    let t0 = spec_quote(key) + (seq![':', ' '] + (valtext + after));
    assert(s =~= w + t0);
    assert(forall|k: int| 0 <= k < w.len() ==> is_ws(#[trigger] w[k]));
    lemma_skip_ws_concat(w, t0);
    assert(t0[0] == '"');
    lemma_skip_ws_nonws(t0);
    let t = spec_skip_ws(s);
    assert(t == t0);
    assert(t[0] != '}');
    assert(t.subrange(1, t.len() as int) =~= spec_escape(key) + (seq!['"'] + (seq![':', ' '] + (
    valtext + after))));
    lemma_parse_escaped(key, seq![':', ' '] + (valtext + after));
    let r1 = seq![':', ' '] + (valtext + after);
    assert(spec_parse_string_body(t.subrange(1, t.len() as int)) == Some((key, r1)));
    assert(r1[0] == ':');
    lemma_skip_ws_nonws(r1);
    assert(r1.subrange(1, r1.len() as int) =~= seq![' '] + (valtext + after));
    lemma_skip_ws_concat(seq![' '], valtext + after);
    assert((valtext + after)[0] == valtext[0]);
    lemma_skip_ws_nonws(valtext + after);
    let r3 = spec_skip_ws(r1.subrange(1, r1.len() as int));
    assert(r3 == valtext + after);
    assert(spec_parse_value(key, r3, acc) == Some((acc2, after)));
}

// ---------------------------------------------------------------------
// The whole text
// ---------------------------------------------------------------------

/// The member table that the canonical text of a record carries: every
/// mandatory member, and each optional member exactly when its value is
/// not the empty string.
pub open spec fn spec_members_of(r: RecordView) -> PMembers {
    PMembers {
        filename: Some(r.filename),
        size: Some(r.size),
        created_time: Some(r.created_time),
        modified_time: Some(r.modified_time),
        orientation: if r.orientation.len() == 0 { None } else { Some(r.orientation) },
        capture_time: if r.capture_time.len() == 0 { None } else { Some(r.capture_time) },
        camera_model: if r.camera_model.len() == 0 { None } else { Some(r.camera_model) },
        camera_serial: if r.camera_serial.len() == 0 { None } else { Some(r.camera_serial) },
    }
}

/// The text after the four mandatory members: the optional members from
/// position `from` on (0 orientation, 1 capture time, 2 camera model,
/// 3 body serial), and the closing newline and brace.
spec fn opt_tail(r: RecordView, from: int) -> Seq<char> {
    (if from <= 0 { spec_opt_member(key_orientation(), r.orientation) } else { Seq::empty() })
        + (if from <= 1 { spec_opt_member(key_capture_time(), r.capture_time) } else { Seq::empty() })
        + (if from <= 2 { spec_opt_member(key_camera_model(), r.camera_model) } else { Seq::empty() })
        + (if from <= 3 { spec_opt_member(key_camera_serial(), r.camera_serial) } else { Seq::empty() })
        + seq!['\n', '}']
}

/// The member table after the optional members from `from` on are read:
/// each nonempty one is set, the rest of `acc` is kept.
spec fn opt_filled(r: RecordView, from: int, acc: PMembers) -> PMembers {
    PMembers {
        orientation: if from <= 0 && r.orientation.len() > 0 {
            Some(r.orientation)
        } else {
            acc.orientation
        },
        capture_time: if from <= 1 && r.capture_time.len() > 0 {
            Some(r.capture_time)
        } else {
            acc.capture_time
        },
        camera_model: if from <= 2 && r.camera_model.len() > 0 {
            Some(r.camera_model)
        } else {
            acc.camera_model
        },
        camera_serial: if from <= 3 && r.camera_serial.len() > 0 {
            Some(r.camera_serial)
        } else {
            acc.camera_serial
        },
        ..acc
    }
}

/// The optional tail either starts a further member with a comma, or it is
/// the bare closing text and every member it would carry is empty.
proof fn lemma_opt_tail_shape(r: RecordView, g: int)
    requires
        0 <= g <= 4,
    ensures
        opt_tail(r, g).len() >= 2,
        opt_tail(r, g)[0] == ',' || (opt_tail(r, g) =~= seq!['\n', '}'] && (g <= 0
            ==> r.orientation.len() == 0) && (g <= 1 ==> r.capture_time.len() == 0) && (g <= 2
            ==> r.camera_model.len() == 0) && (g <= 3 ==> r.camera_serial.len() == 0)),
{
    let t = opt_tail(r, g);
    if g <= 0 && r.orientation.len() > 0 {
        assert(t[0] == ',');
    } else if g <= 1 && r.capture_time.len() > 0 {
        assert(t[0] == ',');
    } else if g <= 2 && r.camera_model.len() > 0 {
        assert(t[0] == ',');
    } else if g <= 3 && r.camera_serial.len() > 0 {
        assert(t[0] == ',');
    } else {
        assert(t =~= seq!['\n', '}']);
    }
}

/// Parsing the optional members from `from` on (the text begins with the
/// comma of the first of them) sets exactly the nonempty ones and consumes
/// the text whole.
proof fn lemma_parse_opt_tail(r: RecordView, from: int, acc: PMembers, fuel: nat)
    requires
        0 <= from <= 4,
        fuel >= 5 - from,
        from <= 0 ==> acc.orientation is None,
        from <= 1 ==> acc.capture_time is None,
        from <= 2 ==> acc.camera_model is None,
        from <= 3 ==> acc.camera_serial is None,
        opt_tail(r, from)[0] == ',',
    ensures
        spec_parse_members(
            opt_tail(r, from).subrange(1, opt_tail(r, from).len() as int),
            acc,
            false,
            fuel,
        ) == Some((opt_filled(r, from, acc), Seq::<char>::empty())),
    decreases 4 - from,
{
    lemma_keys_distinct();
    lemma_opt_tail_shape(r, from);
    let t = opt_tail(r, from);
    if from == 4 {
        assert(t =~= seq!['\n', '}']);
        assert(false);
    } else {
        let key = if from == 0 { key_orientation() } else if from == 1 { key_capture_time() }
            else if from == 2 { key_camera_model() } else { key_camera_serial() };
        let val = if from == 0 { r.orientation } else if from == 1 { r.capture_time }
            else if from == 2 { r.camera_model } else { r.camera_serial };
        let next = opt_tail(r, from + 1);
        lemma_opt_tail_shape(r, from + 1);
        if val.len() == 0 {
            assert(t =~= next);
            assert(next[0] == ',');
            lemma_parse_opt_tail(r, from + 1, acc, fuel);
            assert(opt_filled(r, from, acc) =~= opt_filled(r, from + 1, acc));
            assert(t.subrange(1, t.len() as int) == next.subrange(1, next.len() as int));
        } else {
            assert(t =~= seq![','] + (spec_member(key, spec_quote(val)) + next));
            assert(t.subrange(1, t.len() as int) =~= spec_member(key, spec_quote(val)) + next);
            assert(str_slot_free(key, acc));
            lemma_parse_value_string(key, val, next, acc);
            let acc1 = set_str_field(key, acc, val);
            let q = spec_quote(val);
            assert(q[0] == '"');
            assert(!is_ws(q[0]));
            if next[0] == ',' {
                lemma_skip_ws_nonws(next);
                lemma_parse_member(key, q, next, acc, acc1, false, fuel);
                lemma_parse_opt_tail(r, from + 1, acc1, (fuel - 1) as nat);
                assert(opt_filled(r, from, acc) =~= opt_filled(r, from + 1, acc1));
            } else {
                assert(next =~= seq!['\n', '}']);
                assert(next =~= seq!['\n'] + seq!['}']);
                lemma_skip_ws_concat(seq!['\n'], seq!['}']);
                lemma_skip_ws_nonws(seq!['}']);
                let a2 = spec_skip_ws(next);
                assert(a2 =~= seq!['}']);
                assert(a2[0] == '}');
                lemma_parse_member(key, q, next, acc, acc1, false, fuel);
                assert(a2.subrange(1, a2.len() as int) =~= Seq::<char>::empty());
                assert(opt_filled(r, from, acc) =~= acc1);
            }
        }
    }
}

/// Parsing the canonical text of a record yields exactly the members that
/// serialization wrote, with nothing left over.
#[verifier::rlimit(100)]
proof fn lemma_parse_serialized(r: RecordView)
    ensures
        spec_parse_top(spec_serialize(r)) == Some((spec_members_of(r), Seq::<char>::empty())),
{
    lemma_keys_distinct();
    let s = spec_serialize(r);
    let m1 = spec_member(key_filename(), spec_quote(r.filename));
    let m2 = spec_member(key_size(), spec_u64_str(r.size as nat));
    let m3 = spec_member(key_created_time(), spec_quote(r.created_time));
    let m4 = spec_member(key_modified_time(), spec_quote(r.modified_time));
    let tail4 = opt_tail(r, 0);
    let t4 = m4 + tail4;
    let t3 = m3 + (seq![','] + t4);
    let t2 = m2 + (seq![','] + t3);
    let t1 = m1 + (seq![','] + t2);
    assert(s =~= seq!['{'] + t1);
    assert(s[0] == '{');
    lemma_skip_ws_nonws(s);
    assert(s.subrange(1, s.len() as int) =~= t1);

    let e = spec_empty_members();
    let f = member_fuel();

    // filename
    lemma_parse_value_string(key_filename(), r.filename, seq![','] + t2, e);
    let a1 = set_str_field(key_filename(), e, r.filename);
    assert((seq![','] + t2)[0] == ',');
    lemma_skip_ws_nonws(seq![','] + t2);
    assert(spec_quote(r.filename)[0] == '"');
    lemma_parse_member(key_filename(), spec_quote(r.filename), seq![','] + t2, e, a1, true, f);
    assert((seq![','] + t2).subrange(1, (seq![','] + t2).len() as int) =~= t2);

    // size
    lemma_u64_str_shape(r.size as nat);
    assert((seq![','] + t3)[0] == ',');
    lemma_parse_value_size(r.size, seq![','] + t3, a1);
    let a2 = PMembers { size: Some(r.size), ..a1 };
    lemma_skip_ws_nonws(seq![','] + t3);
    assert(!is_ws(spec_u64_str(r.size as nat)[0]));
    lemma_parse_member(
        key_size(),
        spec_u64_str(r.size as nat),
        seq![','] + t3,
        a1,
        a2,
        false,
        (f - 1) as nat,
    );
    assert((seq![','] + t3).subrange(1, (seq![','] + t3).len() as int) =~= t3);

    // created_time
    lemma_parse_value_string(key_created_time(), r.created_time, seq![','] + t4, a2);
    let a3 = set_str_field(key_created_time(), a2, r.created_time);
    assert((seq![','] + t4)[0] == ',');
    lemma_skip_ws_nonws(seq![','] + t4);
    assert(spec_quote(r.created_time)[0] == '"');
    lemma_parse_member(
        key_created_time(),
        spec_quote(r.created_time),
        seq![','] + t4,
        a2,
        a3,
        false,
        (f - 2) as nat,
    );
    assert((seq![','] + t4).subrange(1, (seq![','] + t4).len() as int) =~= t4);

    // modified_time, followed by the optional members
    lemma_parse_value_string(key_modified_time(), r.modified_time, tail4, a3);
    let a4 = set_str_field(key_modified_time(), a3, r.modified_time);
    assert(spec_quote(r.modified_time)[0] == '"');
    assert(!is_ws(spec_quote(r.modified_time)[0]));
    lemma_opt_tail_shape(r, 0);
    if tail4[0] == ',' {
        lemma_skip_ws_nonws(tail4);
        lemma_parse_member(
            key_modified_time(),
            spec_quote(r.modified_time),
            tail4,
            a3,
            a4,
            false,
            (f - 3) as nat,
        );
        lemma_parse_opt_tail(r, 0, a4, (f - 4) as nat);
        assert(opt_filled(r, 0, a4) =~= spec_members_of(r));
    } else {
        assert(tail4 =~= seq!['\n', '}']);
        assert(tail4 =~= seq!['\n'] + seq!['}']);
        lemma_skip_ws_concat(seq!['\n'], seq!['}']);
        lemma_skip_ws_nonws(seq!['}']);
        let a5 = spec_skip_ws(tail4);
        assert(a5 =~= seq!['}']);
        assert(a5[0] == '}');
        lemma_parse_member(
            key_modified_time(),
            spec_quote(r.modified_time),
            tail4,
            a3,
            a4,
            false,
            (f - 3) as nat,
        );
        assert(a5.subrange(1, a5.len() as int) =~= Seq::<char>::empty());
        assert(a4 =~= spec_members_of(r));
    }
    assert(spec_parse_members(t1, e, true, f) == Some(
        (spec_members_of(r), Seq::<char>::empty()),
    ));
}

// ---------------------------------------------------------------------
// The laws
// ---------------------------------------------------------------------

/// Round-trip: for any record, parsing its canonical JSON text gives the
/// record back, whatever the eight field values, the empty optional
/// fields included.
pub proof fn lemma_serialize_round_trip(r: RecordView)
    ensures
        spec_deserialize(spec_serialize(r)) == Some(r),
{
    lemma_parse_serialized(r);
    let m = spec_members_of(r);
    assert(spec_skip_ws(Seq::<char>::empty()).len() == 0);
    let rec = spec_record_of(m);
    assert(rec matches Some(x) && x =~= r);
}

/// Optional-field omission: the canonical text of a record whose
/// orientation is the empty string carries no orientation member at all,
/// and parsing that text restores the empty orientation.
pub proof fn lemma_orientation_omitted(r: RecordView)
    requires
        r.orientation.len() == 0,
    ensures
        spec_parse_top(spec_serialize(r)) matches Some(p) && p.0.orientation is None,
        spec_deserialize(spec_serialize(r)) == Some(r),
{
    lemma_parse_serialized(r);
    lemma_serialize_round_trip(r);
}

} // verus!
