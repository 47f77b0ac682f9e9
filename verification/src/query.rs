//! Form packer: `application/x-www-form-urlencoded` bodies.
//!
//! Packing writes each key/value pair as `k=v`, joined by `&`, keys in map
//! order; nested arrays and objects expand to `k[0]` / `k[sub]` keys, `null`
//! is skipped, `true`/`false` become `1`/`0`. Bytes other than `A-Za-z0-9-_.`
//! are written `%XX` (upper-case hex), a space as `+`.
//!
//! Unpacking splits on `&` and the first `=`, decodes `+` and `%XX`, mangles
//! the top-level name (leading spaces dropped, `.` and space become `_`) and
//! reads one level of `k[sub]` / `k[]` nesting. In raw mode (the `_unpack_raw`
//! parameter is truthy) nothing is decoded.

use vstd::prelude::*;
use crate::json::{
    JsonMap, JsonValue, JsonView, key_lt, keys_sorted, law_map_entries_determined, law_map_insert,
    law_map_insert_twice, lemma_lower_bound, lemma_map_get_index, lower_bound, map_get, map_insert,
};
use crate::error::ArtfulError;
use crate::text::{decimal, decimal_string, strings_view, join_with, chars_of, index_of_first, lemma_index_of_first, lemma_index_of_first_none, find_char, find_byte, push_char, push_str, string_from_chars, split_seq, lemma_split_step, lossy_decode, utf8_lossy_string};

verus! {

broadcast use vstd::utf8::encode_utf8_decode_utf8;

/// Bytes written as themselves.
pub open spec fn is_unreserved(b: u8) -> bool {
    (65 <= b <= 90) || (97 <= b <= 122) || (48 <= b <= 57) || b == 45 || b == 95 || b == 46
}

/// Upper-case hex digit for `d` (below 16).
pub open spec fn hex_upper(d: u8) -> char {
    if d < 10 {
        ((d + 48) as u8) as char
    } else {
        ((d + 55) as u8) as char
    }
}

/// The text one byte is written as.
pub open spec fn encode_byte(b: u8) -> Seq<char> {
    if is_unreserved(b) {
        seq![b as char]
    } else if b == 32 {
        seq!['+']
    } else {
        seq!['%', hex_upper(b / 16), hex_upper(b % 16)]
    }
}

/// Form encoding of a byte sequence.
pub open spec fn form_encode_bytes(bs: Seq<u8>) -> Seq<char>
    decreases bs.len(),
{
    if bs.len() == 0 {
        Seq::empty()
    } else {
        encode_byte(bs[0]) + form_encode_bytes(bs.drop_first())
    }
}

/// Form encoding of a string: its UTF-8 bytes, encoded.
pub open spec fn form_encode(s: Seq<char>) -> Seq<char> {
    form_encode_bytes(vstd::utf8::encode_utf8(s))
}

/// Value of a hex digit byte.
pub open spec fn hex_val(b: u8) -> Option<u8> {
    if 48 <= b <= 57 {
        Some((b - 48) as u8)
    } else if 97 <= b <= 102 {
        Some((b - 87) as u8)
    } else if 65 <= b <= 70 {
        Some((b - 55) as u8)
    } else {
        None
    }
}

/// Form decoding: `+` is a space, `%XX` a byte; a `%` that does not start
/// a full escape stays as it is.
pub open spec fn form_decode_bytes(bs: Seq<u8>) -> Seq<u8>
    decreases bs.len(),
{
    if bs.len() == 0 {
        Seq::empty()
    } else if bs[0] == 43 {
        seq![32u8] + form_decode_bytes(bs.drop_first())
    } else if bs[0] == 37 && bs.len() > 2 && hex_val(bs[1]) is Some && hex_val(bs[2]) is Some {
        seq![(hex_val(bs[1]).unwrap() * 16 + hex_val(bs[2]).unwrap()) as u8] + form_decode_bytes(
            bs.skip(3),
        )
    } else {
        seq![bs[0]] + form_decode_bytes(bs.drop_first())
    }
}

/// The bytes of an ASCII text.
pub open spec fn ascii_bytes(cs: Seq<char>) -> Seq<u8> {
    Seq::new(cs.len(), |i: int| cs[i] as u8)
}

proof fn lemma_encode_concat(a: Seq<u8>, b: Seq<u8>)
    ensures
        form_encode_bytes(a + b) == form_encode_bytes(a) + form_encode_bytes(b),
    decreases a.len(),
{
    if a.len() > 0 {
        assert((a + b).drop_first() =~= a.drop_first() + b);
        lemma_encode_concat(a.drop_first(), b);
        assert(form_encode_bytes(a + b) =~= form_encode_bytes(a) + form_encode_bytes(b));
    } else {
        assert(a + b =~= b);
        assert(form_encode_bytes(a + b) =~= form_encode_bytes(a) + form_encode_bytes(b));
    }
}

proof fn lemma_encode_ascii(bs: Seq<u8>)
    ensures
        forall|i: int| 0 <= i < form_encode_bytes(bs).len() ==> (#[trigger] form_encode_bytes(bs)[i]) as u32 <= 127,
    decreases bs.len(),
{
    if bs.len() > 0 {
        lemma_encode_ascii(bs.drop_first());
        let b = bs[0];
        let h = encode_byte(b);
        assert forall|i: int| 0 <= i < h.len() implies (#[trigger] h[i]) as u32 <= 127 by {
            if !is_unreserved(b) && b != 32 {
                assert(b / 16 < 16 && b % 16 < 16);
            }
        }
        assert forall|i: int| 0 <= i < form_encode_bytes(bs).len() implies (#[trigger] form_encode_bytes(bs)[i]) as u32 <= 127 by {
            if i < h.len() {
                assert(form_encode_bytes(bs)[i] == h[i]);
            } else {
                assert(form_encode_bytes(bs)[i] == form_encode_bytes(bs.drop_first())[i - h.len()]);
            }
        }
    }
}

proof fn lemma_hex_roundtrip(d: u8)
    requires
        d < 16,
    ensures
        hex_val(hex_upper(d) as u8) == Some(d),
{
}

/// Decoding what was encoded gives back the bytes.
pub proof fn law_form_decode_encode_bytes(bs: Seq<u8>)
    ensures
        form_decode_bytes(ascii_bytes(form_encode_bytes(bs))) == bs,
    decreases bs.len(),
{
    if bs.len() == 0 {
        assert(ascii_bytes(form_encode_bytes(bs)) =~= Seq::<u8>::empty());
    } else {
        let b = bs[0];
        let rest = bs.drop_first();
        law_form_decode_encode_bytes(rest);
        let h = encode_byte(b);
        let t = form_encode_bytes(rest);
        assert(form_encode_bytes(bs) == h + t);
        let all = ascii_bytes(h + t);
        assert(ascii_bytes(h + t) =~= ascii_bytes(h) + ascii_bytes(t));
        if is_unreserved(b) {
            assert(all.drop_first() =~= ascii_bytes(t));
        } else if b == 32 {
            assert(all.drop_first() =~= ascii_bytes(t));
        } else {
            lemma_hex_roundtrip(b / 16);
            lemma_hex_roundtrip(b % 16);
            assert(all.skip(3) =~= ascii_bytes(t));
            assert(all[1] == hex_upper(b / 16) as u8);
            assert(all[2] == hex_upper(b % 16) as u8);
        }
        assert(form_decode_bytes(all) =~= seq![b] + rest);
        assert(seq![b] + rest =~= bs);
    }
}

/// Decoding the form encoding of a string gives back its UTF-8 bytes.
pub proof fn law_form_decode_encode(s: Seq<char>)
    ensures
        form_decode_bytes(ascii_bytes(form_encode(s))) == vstd::utf8::encode_utf8(s),
{
    law_form_decode_encode_bytes(vstd::utf8::encode_utf8(s));
}

/// What `percent_decode` makes of what `percent_encode` wrote is the text's
/// UTF-8 bytes: form decoding undoes form encoding.
pub proof fn law_percent_decode_encode(s: Seq<char>)
    ensures
        form_decode_bytes(vstd::utf8::encode_utf8(form_encode(s))) == vstd::utf8::encode_utf8(s),
{
    let e = form_encode(s);
    lemma_encode_ascii(vstd::utf8::encode_utf8(s));
    assert forall|i: int| 0 <= i < e.len() implies '\0' <= #[trigger] e[i] <= '\u{7f}' by {
        let c = e[i];
        assert((c as u32) <= 127);
        vstd::utf8::char_u32_cast(c, c as u32);
        assert(c as u32 as int == c as int);
    }
    assert(vstd::utf8::is_ascii_chars(e));
    vstd::utf8::is_ascii_chars_encode_utf8(e);
    assert(vstd::utf8::encode_utf8(e) =~= ascii_bytes(e));
    law_form_decode_encode(s);
}

/// The form encoding of `s`.
pub fn percent_encode(s: &str) -> (r: String)
    ensures
        r@ == form_encode(s@),
{
    let bytes = s.as_bytes();
    let ghost all = bytes@;
    let mut out = String::new();
    let mut i: usize = 0;
    while i < bytes.len()
        invariant
            bytes@ == all,
            all == vstd::utf8::encode_utf8(s@),
            0 <= i <= all.len(),
            out@ == form_encode_bytes(all.take(i as int)),
        decreases all.len() - i,
    {
        let b = bytes[i];
        proof {
            assert(all.take(i + 1) =~= all.take(i as int) + seq![b]);
            lemma_encode_concat(all.take(i as int), seq![b]);
            let e = Seq::<u8>::empty();
            assert(form_encode_bytes(e) == Seq::<char>::empty());
            assert(seq![b].drop_first() == e);
            assert(seq![b][0] == b);
            assert(form_encode_bytes(seq![b]) == encode_byte(b) + form_encode_bytes(e));
            assert(encode_byte(b) + Seq::<char>::empty() =~= encode_byte(b));
            assert(form_encode_bytes(seq![b]) =~= encode_byte(b));
        }
        if (b >= 65 && b <= 90) || (b >= 97 && b <= 122) || (b >= 48 && b <= 57) || b == 45 || b == 95
            || b == 46 {
            push_char(&mut out, b as char);
        } else if b == 32 {
            push_char(&mut out, '+');
        } else {
            push_char(&mut out, '%');
            push_char(&mut out, hex_digit(b / 16));
            push_char(&mut out, hex_digit(b % 16));
        }
        assert(out@ =~= form_encode_bytes(all.take(i + 1)));
        i = i + 1;
    }
    assert(all.take(all.len() as int) =~= all);
    out
}

fn hex_digit(d: u8) -> (c: char)
    requires
        d < 16,
    ensures
        c == hex_upper(d),
{
    if d < 10 {
        (d + 48) as char
    } else {
        (d + 55) as char
    }
}

fn hex_value(b: u8) -> (r: Option<u8>)
    ensures
        r == hex_val(b),
{
    if b >= 48 && b <= 57 {
        Some(b - 48)
    } else if b >= 97 && b <= 102 {
        Some(b - 87)
    } else if b >= 65 && b <= 70 {
        Some(b - 55)
    } else {
        None
    }
}

/// Form decoding of the bytes of `s`.
pub fn percent_decode(s: &str) -> (r: Vec<u8>)
    ensures
        r@ == form_decode_bytes(vstd::utf8::encode_utf8(s@)),
{
    let bytes = s.as_bytes();
    let r = decode_form_bytes(bytes, 0, bytes.len());
    assert(bytes@.subrange(0, bytes@.len() as int) =~= bytes@);
    r
}

/// Form decoding of `bytes[from..to]`.
pub fn decode_form_bytes(bytes: &[u8], from: usize, to: usize) -> (r: Vec<u8>)
    requires
        from <= to <= bytes@.len(),
    ensures
        r@ == form_decode_bytes(bytes@.subrange(from as int, to as int)),
{
    let ghost all = bytes@.subrange(from as int, to as int);
    let mut out: Vec<u8> = Vec::new();
    let mut i: usize = from;
    assert(all.skip(0) =~= all);
    while i < to
        invariant
            from <= i <= to,
            to <= bytes@.len(),
            all == bytes@.subrange(from as int, to as int),
            form_decode_bytes(all) == out@ + form_decode_bytes(all.skip(i - from)),
        decreases to - i,
    {
        let b = bytes[i];
        let ghost rest = all.skip(i - from);
        assert(rest[0] == b);
        if b == 43 {
            out.push(32);
            assert(rest.drop_first() =~= all.skip(i + 1 - from));
            i = i + 1;
        } else if b == 37 && to - i > 2 {
            assert(rest[1] == bytes@[i + 1] && rest[2] == bytes@[i + 2]);
            match (hex_value(bytes[i + 1]), hex_value(bytes[i + 2])) {
                (Some(hi), Some(lo)) => {
                    out.push(hi * 16 + lo);
                    assert(rest.skip(3) =~= all.skip(i + 3 - from));
                    i = i + 3;
                },
                _ => {
                    out.push(37);
                    assert(rest.drop_first() =~= all.skip(i + 1 - from));
                    i = i + 1;
                },
            }
        } else {
            out.push(b);
            assert(rest.drop_first() =~= all.skip(i + 1 - from));
            i = i + 1;
        }
    }
    assert(all.skip(all.len() as int) =~= Seq::<u8>::empty());
    assert(out@ + Seq::<u8>::empty() =~= out@);
    out
}


/// `.` and space in a top-level name become `_`.
pub open spec fn underscore_char(c: char) -> char {
    if c == '.' || c == ' ' {
        '_'
    } else {
        c
    }
}

/// Number of leading spaces.
pub open spec fn leading_spaces(s: Seq<char>) -> nat
    decreases s.len(),
{
    if s.len() > 0 && s[0] == ' ' {
        1 + leading_spaces(s.drop_first())
    } else {
        0
    }
}

/// Mangles a name up to its first `[`; the rest is kept.
pub open spec fn mangle_name(t: Seq<char>) -> Seq<char>
    decreases t.len(),
{
    if t.len() == 0 {
        t
    } else if t[0] == '[' {
        t
    } else {
        seq![underscore_char(t[0])] + mangle_name(t.drop_first())
    }
}

/// Top-level variable name mangling: leading spaces dropped, then `.` and
/// space replaced by `_` before the first `[`.
pub open spec fn mangle_key_spec(raw: Seq<char>) -> Seq<char> {
    mangle_name(raw.skip(leading_spaces(raw) as int))
}

proof fn lemma_leading_spaces_bound(s: Seq<char>)
    ensures
        leading_spaces(s) <= s.len(),
    decreases s.len(),
{
    if s.len() > 0 && s[0] == ' ' {
        lemma_leading_spaces_bound(s.drop_first());
    }
}

proof fn lemma_leading_spaces_stop(s: Seq<char>)
    ensures
        leading_spaces(s) <= s.len(),
        leading_spaces(s) < s.len() ==> s[leading_spaces(s) as int] != ' ',
    decreases s.len(),
{
    if s.len() > 0 && s[0] == ' ' {
        lemma_leading_spaces_stop(s.drop_first());
        let k = leading_spaces(s.drop_first());
        if k < s.drop_first().len() {
            assert(s[(k + 1) as int] == s.drop_first()[k as int]);
        }
    }
}

/// No `.` or space before the first `[` of a mangled name; mangling it again
/// changes nothing; its first character is what mangling made of `t`'s.
proof fn lemma_mangle_name(t: Seq<char>)
    ensures
        mangle_name(t).len() == t.len(),
        mangle_name(mangle_name(t)) == mangle_name(t),
        t.len() > 0 ==> mangle_name(t)[0] == if t[0] == '[' { '[' } else { underscore_char(t[0]) },
        forall|i: int|
            0 <= i < t.len() && (forall|j: int| 0 <= j <= i ==> #[trigger] mangle_name(t)[j] != '[') ==> mangle_name(t)[i]
                != '.' && mangle_name(t)[i] != ' ',
    decreases t.len(),
{
    if t.len() > 0 && t[0] != '[' {
        let rest = t.drop_first();
        lemma_mangle_name(rest);
        let m = mangle_name(t);
        let c = underscore_char(t[0]);
        assert(m == seq![c] + mangle_name(rest));
        assert(m.drop_first() =~= mangle_name(rest));
        assert(c != '[');
        assert(mangle_name(m) == seq![underscore_char(c)] + mangle_name(m.drop_first()));
        assert(mangle_name(m) =~= m);
        assert forall|i: int|
            0 <= i < t.len() && (forall|j: int| 0 <= j <= i ==> #[trigger] m[j] != '[') implies m[i] != '.' && m[i]
                != ' ' by {
            if i > 0 {
                assert forall|j: int| 0 <= j <= i - 1 implies #[trigger] mangle_name(rest)[j] != '[' by {
                    assert(m[j + 1] == mangle_name(rest)[j]);
                }
                assert(m[i] == mangle_name(rest)[i - 1]);
            }
        }
    }
}

/// What `mangle_key` makes of a name is a fixed point of it, never starts
/// with a space, and has no `.` or space before its first `[`.
pub proof fn law_mangle_key_shape(raw: Seq<char>)
    ensures
        mangle_key_spec(mangle_key_spec(raw)) == mangle_key_spec(raw),
        mangle_key_spec(raw).len() > 0 ==> mangle_key_spec(raw)[0] != ' ',
        forall|i: int|
            0 <= i < mangle_key_spec(raw).len() && (forall|j: int|
                0 <= j <= i ==> #[trigger] mangle_key_spec(raw)[j] != '[') ==> mangle_key_spec(raw)[i] != '.'
                && mangle_key_spec(raw)[i] != ' ',
{
    let k = leading_spaces(raw);
    lemma_leading_spaces_stop(raw);
    let t = raw.skip(k as int);
    let m = mangle_key_spec(raw);
    lemma_mangle_name(t);
    if t.len() > 0 {
        assert(t[0] == raw[k as int]);
        assert(m[0] != ' ');
    }
    assert(leading_spaces(m) == 0);
    assert(m.skip(0) =~= m);
}

/// Mangles a top-level variable name.
pub fn mangle_key(raw: &str) -> (r: String)
    ensures
        r@ == mangle_key_spec(raw@),
{
    let cs = chars_of(raw);
    let ghost s = cs@;
    let mut i: usize = 0;
    assert(s.skip(0) =~= s);
    while i < cs.len() && cs[i] == ' '
        invariant
            cs@ == s,
            0 <= i <= s.len(),
            leading_spaces(s) == i + leading_spaces(s.skip(i as int)),
        decreases s.len() - i,
    {
        assert(s.skip(i as int).drop_first() =~= s.skip(i + 1));
        i = i + 1;
    }
    assert(leading_spaces(s.skip(i as int)) == 0);
    assert(s == raw@);
    let ghost t = s.skip(i as int);
    let mut out = String::new();
    let mut j = i;
    assert(s.skip(j as int) == t);
    while j < cs.len()
        invariant
            cs@ == s,
            i <= j <= s.len(),
            t == s.skip(i as int),
            mangle_key_spec(raw@) == mangle_name(t),
            mangle_name(t) == out@ + mangle_name(s.skip(j as int)),
        decreases s.len() - j,
    {
        let c = cs[j];
        assert(s.skip(j as int)[0] == c);
        if c == '[' {
            let rest = string_from_chars(&cs, j, cs.len());
            assert(s.subrange(j as int, s.len() as int) =~= s.skip(j as int));
            push_str(&mut out, rest.as_str());
            return out;
        }
        assert(s.skip(j as int).drop_first() =~= s.skip(j + 1));
        if c == '.' || c == ' ' {
            push_char(&mut out, '_');
        } else {
            push_char(&mut out, c);
        }
        j = j + 1;
    }
    assert(s.skip(j as int) =~= Seq::<char>::empty());
    assert(out@ + Seq::<char>::empty() =~= out@);
    out
}

/// Splits `k[sub]` into `(k, sub)`; with more after the first `]` (as in
/// `k[a][b]`) the inner part is everything after the first `[`. No `[`, or no
/// `]` after it, gives `None`.
pub open spec fn split_bracket_spec(k: Seq<char>) -> Option<(Seq<char>, Seq<char>)> {
    match index_of_first(k, '[') {
        None => None,
        Some(open) => match index_of_first(k.skip(open), ']') {
            None => None,
            Some(d) => if open + d + 1 == k.len() {
                Some((k.take(open), k.subrange(open + 1, open + d)))
            } else {
                Some((k.take(open), k.skip(open + 1)))
            },
        },
    }
}

/// Splits a bracketed key; see [`split_bracket_spec`].
pub fn split_bracket(key: &str) -> (r: Option<(String, String)>)
    ensures
        match r {
            Some((base, inner)) => split_bracket_spec(key@) == Some((base@, inner@)),
            None => split_bracket_spec(key@) is None,
        },
{
    let cs = chars_of(key);
    let ghost k = cs@;
    match find_char(&cs, 0, '[') {
        None => {
            proof {
                lemma_index_of_first_none(k, '[');
            }
            None
        },
        Some(open) => {
            proof {
                lemma_index_of_first(k, '[', open as int);
            }
            match find_char(&cs, open, ']') {
                None => {
                    proof {
                        assert forall|j: int| 0 <= j < k.skip(open as int).len() implies k.skip(
                            open as int,
                        )[j] != ']' by {
                            assert(k.skip(open as int)[j] == k[open + j]);
                        }
                        lemma_index_of_first_none(k.skip(open as int), ']');
                    }
                    None
                },
                Some(close) => {
                    proof {
                        let t = k.skip(open as int);
                        assert forall|j: int| 0 <= j < close - open implies t[j] != ']' by {
                            assert(t[j] == k[open + j]);
                        }
                        lemma_index_of_first(t, ']', close - open);
                    }
                    let base = string_from_chars(&cs, 0, open);
                    assert(k.subrange(0, open as int) =~= k.take(open as int));
                    if close == cs.len() - 1 {
                        let inner = string_from_chars(&cs, open + 1, close);
                        Some((base, inner))
                    } else {
                        let inner = string_from_chars(&cs, open + 1, cs.len());
                        assert(k.subrange(open + 1, k.len() as int) =~= k.skip(open + 1));
                        Some((base, inner))
                    }
                },
            }
        },
    }
}

/// Every character is an ASCII digit.
pub open spec fn all_digits(s: Seq<char>) -> bool {
    forall|i: int| 0 <= i < s.len() ==> '0' <= #[trigger] s[i] <= '9'
}

/// Appends to the array under `base`, or starts one when there is none.
pub open spec fn append_to_array_spec(root: Seq<(Seq<char>, JsonView)>, base: Seq<char>, v: JsonView) -> Seq<(Seq<char>, JsonView)> {
    match map_get(root, base) {
        Some(JsonView::Array(items)) => map_insert(root, base, JsonView::Array(items.push(v))),
        _ => map_insert(root, base, JsonView::Array(seq![v])),
    }
}

/// Stores under `inner` in the object under `base`, or starts one.
pub open spec fn insert_into_object_spec(
    root: Seq<(Seq<char>, JsonView)>,
    base: Seq<char>,
    inner: Seq<char>,
    v: JsonView,
) -> Seq<(Seq<char>, JsonView)> {
    match map_get(root, base) {
        Some(JsonView::Object(o)) => map_insert(root, base, JsonView::Object(map_insert(o, inner, v))),
        _ => map_insert(
            root,
            base,
            JsonView::Object(map_insert(Seq::empty(), inner, v)),
        ),
    }
}

/// Stores `v` under a possibly bracketed key: `k[]` or `k[<digits>]` appends to
/// an array, `k[sub]` stores into an object, a plain key is stored as is.
pub open spec fn insert_bracketed_spec(root: Seq<(Seq<char>, JsonView)>, key: Seq<char>, v: JsonView) -> Seq<(Seq<char>, JsonView)> {
    match split_bracket_spec(key) {
        None => map_insert(root, key, v),
        Some((base, inner)) => if all_digits(inner) {
            append_to_array_spec(root, base, v)
        } else {
            insert_into_object_spec(root, base, inner, v)
        },
    }
}

/// Appends to the array under `base`; see [`append_to_array_spec`].
pub fn append_to_array(root: &mut JsonMap, base: String, value: JsonValue)
    ensures
        final(root)@ == append_to_array_spec(old(root)@, base@, value@),
{
    let _ = root.len();
    let ghost r0 = root@;
    let key2 = base.clone();
    let prev = root.insert(key2, JsonValue::Null);
    proof {
        law_map_insert_twice(r0, base@, JsonView::Null, JsonView::Array(Seq::empty()));
    }
    match prev {
        Some(JsonValue::Array(mut items)) => {
            let ghost iv = JsonValue::Array(items)@;
            let ghost vv = value@;
            items.push(value);
            let nv = JsonValue::Array(items);
            proof {
                if let JsonView::Array(s) = iv {
                    assert(nv@ == JsonView::Array(s.push(vv))) by {
                        if let JsonView::Array(s2) = nv@ {
                            assert(s2 =~= s.push(vv));
                        }
                    }
                    law_map_insert_twice(r0, base@, JsonView::Null, nv@);
                }
            }
            root.insert(base, nv);
        },
        other => {
            proof {
                match other {
                    Some(x) => {
                        assert(x@ !is Array) by {
                            if let JsonValue::Array(_) = x {
                            }
                        }
                    },
                    None => {},
                }
            }
            let mut items: Vec<JsonValue> = Vec::new();
            let ghost vv = value@;
            items.push(value);
            let nv = JsonValue::Array(items);
            proof {
                if let JsonView::Array(s2) = nv@ {
                    assert(s2 =~= seq![vv]);
                }
                law_map_insert_twice(r0, base@, JsonView::Null, nv@);
            }
            root.insert(base, nv);
        },
    }
}


/// Stores into the object under `base`; see [`insert_into_object_spec`].
pub fn insert_into_object(root: &mut JsonMap, base: String, inner: String, value: JsonValue)
    ensures
        final(root)@ == insert_into_object_spec(old(root)@, base@, inner@, value@),
{
    let _ = root.len();
    let ghost r0 = root@;
    let key2 = base.clone();
    let prev = root.insert(key2, JsonValue::Null);
    match prev {
        Some(JsonValue::Object(mut obj)) => {
            let ghost ov = obj@;
            let _ = obj.len();
            obj.insert(inner, value);
            let nv = JsonValue::Object(obj);
            proof {
                law_map_insert_twice(r0, base@, JsonView::Null, nv@);
            }
            root.insert(base, nv);
        },
        other => {
            proof {
                match other {
                    Some(x) => {
                        assert(x@ !is Object) by {
                            if let JsonValue::Object(_) = x {
                            }
                        }
                    },
                    None => {},
                }
            }
            let mut obj = JsonMap::new();
            obj.insert(inner, value);
            let nv = JsonValue::Object(obj);
            proof {
                law_map_insert_twice(r0, base@, JsonView::Null, nv@);
            }
            root.insert(base, nv);
        },
    }
}

/// Whether every character of `s` is an ASCII digit.
fn is_all_digits(s: &str) -> (b: bool)
    ensures
        b == all_digits(s@),
{
    let cs = chars_of(s);
    let mut i: usize = 0;
    while i < cs.len()
        invariant
            cs@ == s@,
            0 <= i <= cs@.len(),
            forall|j: int| 0 <= j < i ==> '0' <= #[trigger] cs@[j] <= '9',
        decreases cs@.len() - i,
    {
        if !(cs[i] >= '0' && cs[i] <= '9') {
            return false;
        }
        i = i + 1;
    }
    true
}

/// Stores `value` under a possibly bracketed key; see [`insert_bracketed_spec`].
pub fn insert_bracketed(root: &mut JsonMap, key: &str, value: JsonValue)
    ensures
        final(root)@ == insert_bracketed_spec(old(root)@, key@, value@),
{
    match split_bracket(key) {
        None => {
            let k = key.to_owned();
            root.insert(k, value);
        },
        Some((base, inner)) => {
            if is_all_digits(inner.as_str()) {
                append_to_array(root, base, value);
            } else {
                insert_into_object(root, base, inner, value);
            }
        },
    }
}

/// A number's text is nonzero when a digit 1-9 comes before any exponent.
pub open spec fn number_nonzero(t: Seq<char>) -> bool {
    exists|i: int|
        0 <= i < t.len() && '1' <= #[trigger] t[i] <= '9' && forall|j: int|
            0 <= j < i ==> t[j] != 'e' && t[j] != 'E'
}

/// Truthiness: non-empty containers, `true`, nonzero numbers, and strings
/// other than `""` and `"0"`.
pub open spec fn truthy(v: JsonView) -> bool {
    match v {
        JsonView::Null => false,
        JsonView::Bool(b) => b,
        JsonView::Number(t) => number_nonzero(t),
        JsonView::Str(s) => s.len() > 0 && s != seq!['0'],
        JsonView::Array(items) => items.len() > 0,
        JsonView::Object(o) => o.len() > 0,
    }
}

/// Truthiness of a value; see [`truthy`].
pub fn is_truthy(value: &JsonValue) -> (b: bool)
    ensures
        b == truthy(value@),
{
    match value {
        JsonValue::Null => false,
        JsonValue::Bool(b) => *b,
        JsonValue::Number(n) => {
            let cs = chars_of(n.as_str());
            let mut i: usize = 0;
            while i < cs.len()
                invariant
                    cs@ == n@,
                    value@ == JsonView::Number(n@),
                    0 <= i <= cs@.len(),
                    forall|j: int| 0 <= j < i ==> cs@[j] != 'e' && cs@[j] != 'E' && !('1' <= cs@[j] <= '9'),
                decreases cs@.len() - i,
            {
                let c = cs[i];
                if c == 'e' || c == 'E' {
                    proof {
                        assert forall|k: int| 0 <= k < cs@.len() && '1' <= #[trigger] cs@[k] <= '9' implies !(forall|j: int| 0 <= j < k ==> cs@[j] != 'e' && cs@[j] != 'E') by {
                            assert(k > i);
                            assert(cs@[i as int] == 'e' || cs@[i as int] == 'E');
                        }
                    }
                    return false;
                }
                if c >= '1' && c <= '9' {
                    assert('1' <= cs@[i as int] <= '9');
                    return true;
                }
                i = i + 1;
            }
            false
        },
        JsonValue::String(s) => {
            let cs = chars_of(s.as_str());
            proof {
                if cs@.len() == 1 {
                    if cs@[0] == '0' {
                        assert(cs@ =~= seq!['0']);
                    }
                }
            }
            cs.len() > 0 && !(cs.len() == 1 && cs[0] == '0')
        },
        JsonValue::Array(items) => items.len() > 0,
        JsonValue::Object(o) => o.len() > 0,
    }
}


/// A form segment cut at its first `=` (no `=`: all key, empty value).
pub open spec fn form_pair(seg: Seq<u8>) -> (Seq<u8>, Seq<u8>) {
    match index_of_first(seg, 61u8) {
        Some(p) => (seg.take(p), seg.skip(p + 1)),
        None => (seg, Seq::empty()),
    }
}

/// What one `&`-separated segment adds in the decoding mode: empty segments
/// and keys that mangle to nothing are skipped.
#[verifier::opaque]
pub open spec fn form_segment_step(acc: Seq<(Seq<char>, JsonView)>, seg: Seq<u8>) -> Seq<(Seq<char>, JsonView)> {
    if seg.len() == 0 {
        acc
    } else {
        let key = mangle_key_spec(lossy_decode(form_decode_bytes(form_pair(seg).0)));
        if key.len() == 0 {
            acc
        } else {
            insert_bracketed_spec(acc, key, JsonView::Str(lossy_decode(form_decode_bytes(form_pair(seg).1))))
        }
    }
}

/// Folds the segments in order.
#[verifier::opaque]
pub open spec fn form_fold(acc: Seq<(Seq<char>, JsonView)>, segs: Seq<Seq<u8>>) -> Seq<(Seq<char>, JsonView)>
    decreases segs.len(),
{
    if segs.len() == 0 {
        acc
    } else {
        form_fold(form_segment_step(acc, segs[0]), segs.drop_first())
    }
}

/// The decoding-mode result for a form text.
pub open spec fn unpack_form_spec(data: Seq<char>) -> JsonView {
    JsonView::Object(form_fold(Seq::empty(), split_seq(vstd::utf8::encode_utf8(data), 38u8)))
}

proof fn lemma_form_fold_step(acc: Seq<(Seq<char>, JsonView)>, segs: Seq<Seq<u8>>)
    requires
        segs.len() > 0,
    ensures
        form_fold(acc, segs) == form_fold(form_segment_step(acc, segs[0]), segs.drop_first()),
{
    reveal(form_fold);
}

proof fn lemma_form_fold_empty(acc: Seq<(Seq<char>, JsonView)>, segs: Seq<Seq<u8>>)
    requires
        segs.len() == 0,
    ensures
        form_fold(acc, segs) == acc,
{
    reveal(form_fold);
}

proof fn lemma_raw_fold_step(acc: Seq<(Seq<char>, JsonView)>, segs: Seq<Seq<char>>)
    requires
        segs.len() > 0,
    ensures
        raw_fold(acc, segs) == raw_fold(raw_segment_step(acc, segs[0]), segs.drop_first()),
{
    reveal(raw_fold);
}

proof fn lemma_raw_fold_empty(acc: Seq<(Seq<char>, JsonView)>, segs: Seq<Seq<char>>)
    requires
        segs.len() == 0,
    ensures
        raw_fold(acc, segs) == acc,
{
    reveal(raw_fold);
}

#[verifier::rlimit(40)]
fn form_segment(root: &mut JsonMap, bytes: &[u8], from: usize, to: usize)
    requires
        from <= to <= bytes@.len(),
    ensures
        final(root)@ == form_segment_step(old(root)@, bytes@.subrange(from as int, to as int)),
{
    reveal(form_segment_step);
    if from == to {
        return;
    }
    let ghost seg = bytes@.subrange(from as int, to as int);
    let found = find_byte(bytes, from, to, 61);
    let (kf, kt, vf, vt) = match found {
        Some(e) => {
            proof {
                assert forall|j: int| 0 <= j < e - from implies seg[j] != 61u8 by {
                    assert(seg[j] == bytes@[from + j]);
                }
                lemma_index_of_first(seg, 61u8, e - from);
                assert(seg.take(e - from) =~= bytes@.subrange(from as int, e as int));
                assert(seg.skip(e - from + 1) =~= bytes@.subrange(e + 1, to as int));
            }
            (from, e, e + 1, to)
        },
        None => {
            proof {
                assert forall|j: int| 0 <= j < seg.len() implies seg[j] != 61u8 by {
                    assert(seg[j] == bytes@[from + j]);
                }
                lemma_index_of_first_none(seg, 61u8);
                assert(bytes@.subrange(to as int, to as int) =~= Seq::<u8>::empty());
            }
            (from, to, to, to)
        },
    };
    let raw_key = decode_form_bytes(bytes, kf, kt);
    let key_text = utf8_lossy_string(raw_key.as_slice());
    let key = mangle_key(key_text.as_str());
    if key.as_str().is_empty() {
        return;
    }
    let raw_value = decode_form_bytes(bytes, vf, vt);
    let value = utf8_lossy_string(raw_value.as_slice());
    insert_bracketed(root, key.as_str(), JsonValue::String(value));
}

/// Decoding mode: see the module documentation.
pub fn unpack_parse_str(data: &str) -> (r: JsonValue)
    ensures
        r@ == unpack_form_spec(data@),
{
    let bytes = data.as_bytes();
    let ghost all = bytes@;
    let mut root = JsonMap::new();
    let mut start: usize = 0;
    assert(all.skip(0) =~= all);
    loop
        invariant
            bytes@ == all,
            all == vstd::utf8::encode_utf8(data@),
            start <= all.len(),
            form_fold(Seq::empty(), split_seq(all, 38u8)) == form_fold(root@, split_seq(all.skip(start as int), 38u8)),
        decreases all.len() - start,
    {
        let found = find_byte(bytes, start, bytes.len(), 38);
        proof {
            lemma_split_step(all, start as int, 38u8, match found { Some(e) => Some(e as int), None => None });
        }
        match found {
            Some(e) => {
                proof {
                    let segs = split_seq(all.skip(start as int), 38u8);
                    assert(segs[0] == all.subrange(start as int, e as int));
                    assert(segs.drop_first() =~= split_seq(all.skip(e + 1), 38u8));
                    lemma_form_fold_step(root@, segs);
                }
                form_segment(&mut root, bytes, start, e);
                start = e + 1;
            },
            None => {
                proof {
                    let segs = split_seq(all.skip(start as int), 38u8);
                    assert(segs[0] =~= all.subrange(start as int, all.len() as int));
                    assert(segs.drop_first() =~= Seq::<Seq<u8>>::empty());
                    lemma_form_fold_step(root@, segs);
                }
                let ghost r1 = root@;
                form_segment(&mut root, bytes, start, bytes.len());
                proof {
                    lemma_form_fold_empty(root@, Seq::<Seq<u8>>::empty());
                }
                let r = JsonValue::Object(root);
                return r;
            },
        }
    }
}

/// What one segment adds in raw mode: `k=v` is stored as is; a segment
/// without `=` is stored under the empty key, less its first character.
pub open spec fn raw_segment_step(acc: Seq<(Seq<char>, JsonView)>, seg: Seq<char>) -> Seq<(Seq<char>, JsonView)> {
    match index_of_first(seg, '=') {
        Some(p) => map_insert(acc, seg.take(p), JsonView::Str(seg.skip(p + 1))),
        None => map_insert(
            acc,
            Seq::empty(),
            JsonView::Str(
                if seg.len() > 0 {
                    seg.drop_first()
                } else {
                    seg
                },
            ),
        ),
    }
}

/// Folds raw segments in order.
#[verifier::opaque]
pub open spec fn raw_fold(acc: Seq<(Seq<char>, JsonView)>, segs: Seq<Seq<char>>) -> Seq<(Seq<char>, JsonView)>
    decreases segs.len(),
{
    if segs.len() == 0 {
        acc
    } else {
        raw_fold(raw_segment_step(acc, segs[0]), segs.drop_first())
    }
}

/// The raw-mode result: empty when the text is empty or holds no `=`.
pub open spec fn unpack_raw_spec(data: Seq<char>) -> JsonView {
    if data.len() == 0 || index_of_first(data, '=') is None {
        JsonView::Object(Seq::empty())
    } else {
        JsonView::Object(raw_fold(Seq::empty(), split_seq(data, '&')))
    }
}

fn raw_segment(root: &mut JsonMap, cs: &[char], from: usize, to: usize)
    requires
        from <= to <= cs@.len(),
    ensures
        final(root)@ == raw_segment_step(old(root)@, cs@.subrange(from as int, to as int)),
{
    let ghost seg = cs@.subrange(from as int, to as int);
    let mut i = from;
    while i < to
        invariant
            seg == cs@.subrange(from as int, to as int),
            *root == *old(root),
            from <= i <= to,
            to <= cs@.len(),
            forall|j: int| from <= j < i ==> cs@[j] != '=',
        decreases to - i,
    {
        if cs[i] == '=' {
            proof {
                assert forall|j: int| 0 <= j < i - from implies seg[j] != '=' by {
                    assert(seg[j] == cs@[from + j]);
                }
                lemma_index_of_first(seg, '=', i - from);
                assert(seg.take(i - from) =~= cs@.subrange(from as int, i as int));
                assert(seg.skip(i - from + 1) =~= cs@.subrange(i + 1, to as int));
            }
            let k = string_from_chars(cs, from, i);
            let v = string_from_chars(cs, i + 1, to);
            root.insert(k, JsonValue::String(v));
            return;
        }
        i = i + 1;
    }
    proof {
        assert forall|j: int| 0 <= j < seg.len() implies seg[j] != '=' by {
            assert(seg[j] == cs@[from + j]);
        }
        lemma_index_of_first_none(seg, '=');
    }
    let v = if from < to {
        assert(seg.drop_first() =~= cs@.subrange(from + 1, to as int));
        string_from_chars(cs, from + 1, to)
    } else {
        string_from_chars(cs, from, to)
    };
    let k = String::new();
    root.insert(k, JsonValue::String(v));
}

/// Raw mode: see the module documentation.
pub fn unpack_raw(data: &str) -> (r: JsonValue)
    ensures
        r@ == unpack_raw_spec(data@),
{
    let cs = chars_of(data);
    let ghost all = cs@;
    let mut root = JsonMap::new();
    match find_char(&cs, 0, '=') {
        None => {
            proof {
                lemma_index_of_first_none(all, '=');
            }
            return JsonValue::Object(root);
        },
        Some(p) => {
            proof {
                lemma_index_of_first(all, '=', p as int);
            }
        },
    }
    let mut start: usize = 0;
    assert(all.skip(0) =~= all);
    loop
        invariant
            cs@ == all,
            all == data@,
            all.len() > 0,
            index_of_first(all, '=') is Some,
            start <= all.len(),
            raw_fold(Seq::empty(), split_seq(all, '&')) == raw_fold(root@, split_seq(all.skip(start as int), '&')),
        decreases all.len() - start,
    {
        let found = find_char(&cs, start, '&');
        proof {
            lemma_split_step(all, start as int, '&', match found { Some(e) => Some(e as int), None => None });
        }
        match found {
            Some(e) => {
                proof {
                    let segs = split_seq(all.skip(start as int), '&');
                    assert(segs[0] == all.subrange(start as int, e as int));
                    assert(segs.drop_first() =~= split_seq(all.skip(e + 1), '&'));
                    lemma_raw_fold_step(root@, segs);
                }
                raw_segment(&mut root, &cs, start, e);
                assert(e < cs.len());
                start = e + 1;
            },
            None => {
                proof {
                    let segs = split_seq(all.skip(start as int), '&');
                    assert(segs[0] =~= all.subrange(start as int, all.len() as int));
                    assert(segs.drop_first() =~= Seq::<Seq<char>>::empty());
                    lemma_raw_fold_step(root@, segs);
                }
                raw_segment(&mut root, &cs, start, cs.len());
                proof {
                    lemma_raw_fold_empty(root@, Seq::<Seq<char>>::empty());
                }
                return JsonValue::Object(root);
            },
        }
    }
}

/// The parameter that switches unpacking to raw mode.
pub open spec fn unpack_raw_key() -> Seq<char> {
    seq!['_', 'u', 'n', 'p', 'a', 'c', 'k', '_', 'r', 'a', 'w']
}

/// Whether `params` ask for raw mode.
pub open spec fn raw_mode(params: Seq<(Seq<char>, JsonView)>) -> bool {
    match map_get(params, unpack_raw_key()) {
        Some(v) => truthy(v),
        None => false,
    }
}

/// What unpacking a form text gives.
pub open spec fn query_unpack_spec(data: Seq<char>, params: Seq<(Seq<char>, JsonView)>) -> JsonView {
    if raw_mode(params) {
        unpack_raw_spec(data)
    } else {
        unpack_form_spec(data)
    }
}

/// The text a scalar is written as.
pub open spec fn scalar_text(v: JsonView) -> Seq<char> {
    match v {
        JsonView::Str(s) => s,
        JsonView::Number(t) => t,
        JsonView::Bool(b) => if b {
            seq!['1']
        } else {
            seq!['0']
        },
        _ => Seq::empty(),
    }
}

/// `prefix[name]`.
pub open spec fn child_prefix(prefix: Seq<char>, name: Seq<char>) -> Seq<char> {
    prefix + seq!['['] + name + seq![']']
}

/// The `k=v` pairs a value under key path `prefix` packs to, in order.
pub open spec fn pack_parts(prefix: Seq<char>, v: JsonView) -> Seq<Seq<char>>
    decreases v, 0int,
{
    match v {
        JsonView::Null => Seq::empty(),
        JsonView::Array(items) => pack_items(prefix, items, 0),
        JsonView::Object(o) => pack_fields(prefix, o, 0),
        _ => seq![form_encode(prefix) + seq!['='] + form_encode(scalar_text(v))],
    }
}

/// The pairs of array elements `i..`, keyed by index.
pub open spec fn pack_items(prefix: Seq<char>, items: Seq<JsonView>, i: int) -> Seq<Seq<char>>
    decreases items, items.len() - i,
{
    if i < 0 || i >= items.len() {
        Seq::empty()
    } else {
        pack_parts(child_prefix(prefix, decimal(i as nat)), items[i]) + pack_items(prefix, items, i + 1)
    }
}

/// The pairs of object entries `i..`, keyed by name.
pub open spec fn pack_fields(prefix: Seq<char>, o: Seq<(Seq<char>, JsonView)>, i: int) -> Seq<Seq<char>>
    decreases o, o.len() - i,
{
    if i < 0 || i >= o.len() {
        Seq::empty()
    } else {
        pack_parts(child_prefix(prefix, o[i].0), o[i].1) + pack_fields(prefix, o, i + 1)
    }
}

/// The pairs of top-level entries `i..`.
pub open spec fn pack_top(o: Seq<(Seq<char>, JsonView)>, i: int) -> Seq<Seq<char>>
    decreases o.len() - i,
{
    if i < 0 || i >= o.len() {
        Seq::empty()
    } else {
        pack_parts(o[i].0, o[i].1) + pack_top(o, i + 1)
    }
}

/// A packed form text.
pub open spec fn query_pack_spec(data: Seq<(Seq<char>, JsonView)>) -> Seq<char> {
    join_with(pack_top(data, 0), '&')
}

/// The text of a scalar: strings as they are, numbers as their text,
/// `true`/`false` as `1`/`0`.
pub fn scalar_to_string(value: &JsonValue) -> (r: String)
    ensures
        r@ == scalar_text(value@),
{
    match value {
        JsonValue::String(s) => s.clone(),
        JsonValue::Number(n) => n.clone(),
        JsonValue::Bool(b) => {
            if *b {
                let t = "1";
                proof {
                    reveal_strlit("1");
                }
                t.to_owned()
            } else {
                let t = "0";
                proof {
                    reveal_strlit("0");
                }
                t.to_owned()
            }
        },
        _ => String::new(),
    }
}

fn bracketed(prefix: &str, name: &str) -> (r: String)
    ensures
        r@ == child_prefix(prefix@, name@),
{
    let mut p = prefix.to_owned();
    push_char(&mut p, '[');
    push_str(&mut p, name);
    push_char(&mut p, ']');
    p
}

/// Appends the pairs of `value` under key path `prefix` to `parts`.
pub fn pack_entry(prefix: &str, value: &JsonValue, parts: &mut Vec<String>)
    ensures
        strings_view(final(parts)@) == strings_view(old(parts)@) + pack_parts(prefix@, value@),
    decreases value@,
{
    let ghost start = strings_view(parts@);
    match value {
        JsonValue::Array(items) => {
            let ghost iv = match value@ {
                JsonView::Array(s) => s,
                _ => Seq::empty(),
            };
            assert(value@ == JsonView::Array(iv));
            assert(iv.len() == items@.len());
            assert(forall|k: int| 0 <= k < iv.len() ==> iv[k] == items@[k]@);
            let mut i: usize = 0;
            let n = items.len();
            assert(start + pack_items(prefix@, iv, 0) =~= start + pack_parts(prefix@, value@));
            while i < n
                invariant
                    0 <= i <= n,
                    n == items@.len(),
                    iv.len() == items@.len(),
                    forall|k: int| 0 <= k < iv.len() ==> iv[k] == items@[k]@,
                    value@ == JsonView::Array(iv),
                    start == strings_view(old(parts)@),
                    start + pack_parts(prefix@, value@) == strings_view(parts@) + pack_items(prefix@, iv, i as int),
                decreases n - i,
            {
                let name = decimal_string(i);
                let p = bracketed(prefix, name.as_str());
                let ghost before = strings_view(parts@);
                assert(decreases_to!(value@ => iv[i as int]));
                let item = &items[i];
                pack_entry(p.as_str(), item, parts);
                assert(before + pack_items(prefix@, iv, i as int) =~= strings_view(parts@) + pack_items(prefix@, iv, i + 1));
                i = i + 1;
            }
            assert(pack_items(prefix@, iv, i as int) =~= Seq::<Seq<char>>::empty());
            assert(strings_view(parts@) + Seq::<Seq<char>>::empty() =~= strings_view(parts@));
            assert(start + pack_parts(prefix@, value@) == strings_view(parts@));
            assert(start == strings_view(old(parts)@));
            assert(strings_view(parts@) == strings_view(old(parts)@) + pack_parts(prefix@, value@));
        },
        JsonValue::Object(obj) => {
            let ghost ov = obj@;
            assert(value@ == JsonView::Object(ov));
            let n = obj.len();
            let mut i: usize = 0;
            while i < n
                invariant
                    0 <= i <= n,
                    n == ov.len(),
                    ov == obj@,
                    value@ == JsonView::Object(ov),
                    start + pack_parts(prefix@, value@) == strings_view(parts@) + pack_fields(prefix@, ov, i as int),
                decreases n - i,
            {
                let (k, v) = obj.entry_at(i);
                let p = bracketed(prefix, k.as_str());
                let ghost before = strings_view(parts@);
                assert(decreases_to!(value@ => ov[i as int].1));
                pack_entry(p.as_str(), v, parts);
                assert(before + pack_fields(prefix@, ov, i as int) =~= strings_view(parts@) + pack_fields(prefix@, ov, i + 1));
                i = i + 1;
            }
            assert(pack_fields(prefix@, ov, i as int) =~= Seq::<Seq<char>>::empty());
            assert(strings_view(parts@) + Seq::<Seq<char>>::empty() =~= strings_view(parts@));
            assert(strings_view(parts@) == strings_view(old(parts)@) + pack_parts(prefix@, value@));
        },
        JsonValue::Null => {
            assert(start + Seq::<Seq<char>>::empty() =~= start);
            assert(strings_view(parts@) == strings_view(old(parts)@) + pack_parts(prefix@, value@));
        },
        _ => {
            let mut pair = percent_encode(prefix);
            push_char(&mut pair, '=');
            let text = scalar_to_string(value);
            let enc = percent_encode(text.as_str());
            push_str(&mut pair, enc.as_str());
            let ghost pv = pair@;
            assert(pv =~= form_encode(prefix@) + seq!['='] + form_encode(scalar_text(value@)));
            parts.push(pair);
            assert(strings_view(parts@) =~= start + seq![pv]);
            assert(strings_view(parts@) == strings_view(old(parts)@) + pack_parts(prefix@, value@));
        },
    }
}

/// The form packer.
#[derive(Debug, Clone, Copy, Default)]
pub struct QueryPacker;

impl QueryPacker {
    /// Writes `data` as a form text; never fails.
    pub fn pack(&self, data: &JsonMap, params: &JsonMap) -> (r: Result<String, ArtfulError>)
        ensures
            r matches Ok(t) && t@ == query_pack_spec(data@),
    {
        let mut parts: Vec<String> = Vec::new();
        let n = data.len();
        let mut i: usize = 0;
        let ghost dv = data@;
        assert(strings_view(parts@) =~= Seq::<Seq<char>>::empty());
        while i < n
            invariant
                0 <= i <= n,
                n == dv.len(),
                dv == data@,
                pack_top(dv, 0) == strings_view(parts@) + pack_top(dv, i as int),
            decreases n - i,
        {
            let (k, v) = data.entry_at(i);
            let ghost before = strings_view(parts@);
            pack_entry(k.as_str(), v, &mut parts);
            assert(before + pack_top(dv, i as int) =~= strings_view(parts@) + pack_top(dv, i + 1));
            i = i + 1;
        }
        assert(pack_top(dv, i as int) =~= Seq::<Seq<char>>::empty());
        assert(strings_view(parts@) + Seq::<Seq<char>>::empty() =~= strings_view(parts@));
        Ok(crate::text::join_strings(&parts, '&'))
    }

    /// Reads a form text into an object; never fails.
    pub fn unpack(&self, data: &str, params: &JsonMap) -> (r: Result<JsonValue, ArtfulError>)
        ensures
            r matches Ok(v) && v@ == query_unpack_spec(data@, params@),
    {
        let key = "_unpack_raw";
        proof {
            reveal_strlit("_unpack_raw");
            assert(key@ =~= unpack_raw_key());
        }
        let raw = match params.get(key) {
            Some(v) => is_truthy(v),
            None => false,
        };
        if raw {
            Ok(unpack_raw(data))
        } else {
            Ok(unpack_parse_str(data))
        }
    }

    /// The Content-Type of a form body.
    pub fn content_type(&self) -> (r: Option<&'static str>)
        ensures
            r matches Some(t) && t@ == form_content_type(),
    {
        let t = "application/x-www-form-urlencoded";
        proof {
            reveal_strlit("application/x-www-form-urlencoded");
        }
        Some(t)
    }
}

/// `application/x-www-form-urlencoded`.
pub open spec fn form_content_type() -> Seq<char> {
    seq!['a', 'p', 'p', 'l', 'i', 'c', 'a', 't', 'i', 'o', 'n', '/', 'x', '-', 'w', 'w', 'w', '-', 'f', 'o', 'r', 'm', '-', 'u', 'r', 'l', 'e', 'n', 'c', 'o', 'd', 'e', 'd']
}

/// The bytes a text's form encoding is sent as: its characters, one byte
/// each.
pub open spec fn encoded_bytes(s: Seq<char>) -> Seq<u8> {
    vstd::utf8::encode_utf8(form_encode(s))
}

proof fn lemma_encoded_ascii(s: Seq<char>)
    ensures
        encoded_bytes(s) == ascii_bytes(form_encode(s)),
{
    let e = form_encode(s);
    lemma_encode_ascii(vstd::utf8::encode_utf8(s));
    assert forall|i: int| 0 <= i < e.len() implies '\0' <= #[trigger] e[i] <= '\u{7f}' by {
        let c = e[i];
        assert((c as u32) <= 127);
        vstd::utf8::char_u32_cast(c, c as u32);
        assert(c as u32 as int == c as int);
    }
    vstd::utf8::is_ascii_chars_encode_utf8(e);
    assert(vstd::utf8::encode_utf8(e) =~= ascii_bytes(e));
}

proof fn lemma_plain_bytes(bs: Seq<u8>)
    ensures
        forall|j: int|
            0 <= j < ascii_bytes(form_encode_bytes(bs)).len() ==> #[trigger] ascii_bytes(form_encode_bytes(bs))[j]
                != 38u8 && ascii_bytes(form_encode_bytes(bs))[j] != 61u8,
    decreases bs.len(),
{
    if bs.len() > 0 {
        lemma_plain_bytes(bs.drop_first());
        let b = bs[0];
        let h = encode_byte(b);
        let t = form_encode_bytes(bs.drop_first());
        assert(form_encode_bytes(bs) == h + t);
        let a = ascii_bytes(h + t);
        assert(ascii_bytes(h + t) =~= ascii_bytes(h) + ascii_bytes(t));
        assert forall|j: int| 0 <= j < ascii_bytes(h).len() implies #[trigger] ascii_bytes(h)[j] != 38u8
            && ascii_bytes(h)[j] != 61u8 by {
            if is_unreserved(b) {
                assert(ascii_bytes(h)[j] == b);
            } else if b == 32 {
                assert(ascii_bytes(h)[j] == 43u8);
            } else {
                assert(b / 16 < 16 && b % 16 < 16);
                if j == 0 {
                    assert(ascii_bytes(h)[j] == 37u8);
                } else if j == 1 {
                    assert(ascii_bytes(h)[j] == hex_upper(b / 16) as u8);
                } else {
                    assert(ascii_bytes(h)[j] == hex_upper(b % 16) as u8);
                }
            }
        }
        assert forall|j: int| 0 <= j < a.len() implies #[trigger] a[j] != 38u8 && a[j] != 61u8 by {
            if j < ascii_bytes(h).len() {
                assert(a[j] == ascii_bytes(h)[j]);
            } else {
                assert(a[j] == ascii_bytes(t)[j - ascii_bytes(h).len()]);
            }
        }
    }
}

proof fn lemma_encoded_plain(s: Seq<char>)
    ensures
        forall|j: int| 0 <= j < encoded_bytes(s).len() ==> #[trigger] encoded_bytes(s)[j] != 38u8 && encoded_bytes(s)[j] != 61u8,
{
    lemma_encoded_ascii(s);
    lemma_plain_bytes(vstd::utf8::encode_utf8(s));
}

proof fn lemma_encode_utf8_concat(a: Seq<char>, b: Seq<char>)
    ensures
        vstd::utf8::encode_utf8(a + b) == vstd::utf8::encode_utf8(a) + vstd::utf8::encode_utf8(b),
    decreases a.len(),
{
    if a.len() == 0 {
        assert(a + b =~= b);
        assert(vstd::utf8::encode_utf8(a) =~= Seq::<u8>::empty());
        assert(vstd::utf8::encode_utf8(a + b) =~= vstd::utf8::encode_utf8(a) + vstd::utf8::encode_utf8(b));
    } else {
        assert((a + b).drop_first() =~= a.drop_first() + b);
        assert((a + b)[0] == a[0]);
        lemma_encode_utf8_concat(a.drop_first(), b);
        assert(vstd::utf8::encode_utf8(a + b) =~= vstd::utf8::encode_utf8(a) + vstd::utf8::encode_utf8(b));
    }
}

proof fn lemma_encode_separators()
    ensures
        vstd::utf8::encode_utf8(seq!['&']) == seq![38u8],
        vstd::utf8::encode_utf8(seq!['=']) == seq![61u8],
{
    let amp = seq!['&'];
    let eq = seq!['='];
    assert(amp.drop_first() =~= Seq::<char>::empty());
    assert(eq.drop_first() =~= Seq::<char>::empty());
    assert(('&' as u32) == 38u32);
    assert(('=' as u32) == 61u32);
    assert((38u32 & 0x7F) as u8 == 38u8) by (bit_vector);
    assert((61u32 & 0x7F) as u8 == 61u8) by (bit_vector);
    assert(amp[0] == '&' && eq[0] == '=');
    assert(vstd::utf8::encode_scalar(38u32) =~= seq![38u8]);
    assert(vstd::utf8::encode_scalar(61u32) =~= seq![61u8]);
    assert(vstd::utf8::encode_utf8(amp.drop_first()) =~= Seq::<u8>::empty());
    assert(vstd::utf8::encode_utf8(eq.drop_first()) =~= Seq::<u8>::empty());
    assert(vstd::utf8::encode_utf8(amp) =~= seq![38u8]);
    assert(vstd::utf8::encode_utf8(eq) =~= seq![61u8]);
}

/// The pieces joined by `sep` (bytes).
pub open spec fn join_bytes(parts: Seq<Seq<u8>>, sep: u8) -> Seq<u8>
    decreases parts.len(),
{
    if parts.len() == 0 {
        Seq::empty()
    } else if parts.len() == 1 {
        parts[0]
    } else {
        join_bytes(parts.drop_last(), sep) + seq![sep] + parts.last()
    }
}

proof fn lemma_encode_join(parts: Seq<Seq<char>>)
    ensures
        vstd::utf8::encode_utf8(join_with(parts, '&')) == join_bytes(
            Seq::new(parts.len(), |i: int| vstd::utf8::encode_utf8(parts[i])),
            38u8,
        ),
    decreases parts.len(),
{
    let q = Seq::new(parts.len(), |i: int| vstd::utf8::encode_utf8(parts[i]));
    if parts.len() == 0 {
        assert(vstd::utf8::encode_utf8(Seq::<char>::empty()) =~= Seq::<u8>::empty());
    } else if parts.len() == 1 {
    } else {
        let d = parts.drop_last();
        lemma_encode_join(d);
        let qd = Seq::new(d.len(), |i: int| vstd::utf8::encode_utf8(d[i]));
        assert(qd =~= q.drop_last());
        lemma_encode_separators();
        lemma_encode_utf8_concat(join_with(d, '&') + seq!['&'], parts.last());
        lemma_encode_utf8_concat(join_with(d, '&'), seq!['&']);
    }
}

proof fn lemma_join_front(q: Seq<Seq<u8>>, sep: u8)
    requires
        q.len() >= 2,
    ensures
        join_bytes(q, sep) == q[0] + seq![sep] + join_bytes(q.drop_first(), sep),
    decreases q.len(),
{
    if q.len() == 2 {
        assert(q.drop_last().len() == 1);
        assert(q.drop_first().len() == 1);
        assert(join_bytes(q.drop_first(), sep) == q[1]);
        assert(join_bytes(q.drop_last(), sep) == q[0]);
        assert(q.last() == q[1]);
        assert(join_bytes(q, sep) =~= q[0] + seq![sep] + join_bytes(q.drop_first(), sep));
    } else {
        let d = q.drop_last();
        lemma_join_front(d, sep);
        assert(d.drop_first() =~= q.drop_first().drop_last());
        assert(q.drop_first().last() == q.last());
        assert(join_bytes(q, sep) =~= q[0] + seq![sep] + join_bytes(q.drop_first(), sep));
    }
}

proof fn lemma_split_join(q: Seq<Seq<u8>>, sep: u8)
    requires
        q.len() >= 1,
        forall|i: int, j: int| 0 <= i < q.len() && 0 <= j < q[i].len() ==> #[trigger] q[i][j] != sep,
    ensures
        split_seq(join_bytes(q, sep), sep) == q,
    decreases q.len(),
{
    reveal(split_seq);
    if q.len() == 1 {
        let t = join_bytes(q, sep);
        assert(t == q[0]);
        assert forall|j: int| 0 <= j < t.len() implies t[j] != sep by {
            assert(q[0][j] != sep);
        }
        lemma_index_of_first_none(t, sep);
        assert(split_seq(t, sep) =~= q);
    } else {
        lemma_join_front(q, sep);
        let r = q.drop_first();
        assert forall|i: int, j: int| 0 <= i < r.len() && 0 <= j < r[i].len() implies #[trigger] r[i][j] != sep by {
            assert(r[i] == q[i + 1]);
            assert(q[i + 1][j] != sep);
        }
        lemma_split_join(r, sep);
        let t = join_bytes(q, sep);
        let n = q[0].len() as int;
        assert(t[n] == sep);
        assert forall|j: int| 0 <= j < n implies t[j] != sep by {
            assert(t[j] == q[0][j]);
            assert(q[0][j] != sep);
        }
        lemma_index_of_first(t, sep, n);
        assert(t.take(n) =~= q[0]);
        assert(t.skip(n + 1) =~= join_bytes(r, sep));
        assert(split_seq(t, sep) =~= seq![q[0]] + split_seq(join_bytes(r, sep), sep));
        assert(seq![q[0]] + r =~= q);
    }
}

/// A name that form packing and unpacking keep as it is: not empty, and
/// none of `.`, space or `[` in it.
pub open spec fn plain_form_key(k: Seq<char>) -> bool {
    k.len() > 0 && forall|i: int| 0 <= i < k.len() ==> #[trigger] k[i] != '.' && k[i] != ' ' && k[i] != '['
}

/// Entries with plain names whose values are strings.
pub open spec fn plain_form_entries(m: Seq<(Seq<char>, JsonView)>) -> bool {
    forall|i: int| #![trigger m[i]] 0 <= i < m.len() ==> plain_form_key(m[i].0) && m[i].1 is Str
}

/// The `key=value` text of one top-level scalar entry.
pub open spec fn form_part(e: (Seq<char>, JsonView)) -> Seq<char> {
    form_encode(e.0) + seq!['='] + form_encode(scalar_text(e.1))
}

/// The bytes of [`form_part`].
pub open spec fn form_segment_bytes(e: (Seq<char>, JsonView)) -> Seq<u8> {
    encoded_bytes(e.0) + seq![61u8] + encoded_bytes(scalar_text(e.1))
}

proof fn lemma_mangle_name_plain(k: Seq<char>)
    requires
        forall|i: int| 0 <= i < k.len() ==> #[trigger] k[i] != '.' && k[i] != ' ' && k[i] != '[',
    ensures
        mangle_name(k) == k,
    decreases k.len(),
{
    if k.len() > 0 {
        let r = k.drop_first();
        assert forall|i: int| 0 <= i < r.len() implies #[trigger] r[i] != '.' && r[i] != ' ' && r[i] != '[' by {
            assert(r[i] == k[i + 1]);
        }
        lemma_mangle_name_plain(r);
        assert(k[0] != '[' && underscore_char(k[0]) == k[0]);
        assert(seq![k[0]] + r =~= k);
    }
}

proof fn lemma_form_segment_step(acc: Seq<(Seq<char>, JsonView)>, e: (Seq<char>, JsonView))
    requires
        plain_form_key(e.0),
        e.1 is Str,
    ensures
        form_segment_step(acc, form_segment_bytes(e)) == map_insert(acc, e.0, e.1),
{
    reveal(form_segment_step);
    let k = e.0;
    let v = scalar_text(e.1);
    let a = encoded_bytes(k);
    let b = encoded_bytes(v);
    let sg = form_segment_bytes(e);
    lemma_encoded_plain(k);
    assert(sg[a.len() as int] == 61u8);
    assert forall|j: int| 0 <= j < a.len() implies sg[j] != 61u8 by {
        assert(sg[j] == a[j]);
    }
    lemma_index_of_first(sg, 61u8, a.len() as int);
    assert(sg.take(a.len() as int) =~= a);
    assert(sg.skip((a.len() + 1) as int) =~= b);
    assert(form_pair(sg) == (a, b));
    law_percent_decode_encode(k);
    law_percent_decode_encode(v);
    vstd::utf8::encode_utf8_valid_utf8(k);
    vstd::utf8::encode_utf8_valid_utf8(v);
    assert(lossy_decode(form_decode_bytes(a)) == k);
    assert(lossy_decode(form_decode_bytes(b)) == v);
    assert(leading_spaces(k) == 0);
    assert(k.skip(0) =~= k);
    lemma_mangle_name_plain(k);
    assert(mangle_key_spec(k) == k);
    lemma_index_of_first_none(k, '[');
    assert(split_bracket_spec(k) is None);
    assert(JsonView::Str(v) == e.1);
}

proof fn lemma_pack_top_plain(m: Seq<(Seq<char>, JsonView)>, i: int)
    requires
        plain_form_entries(m),
        0 <= i <= m.len(),
    ensures
        pack_top(m, i) == Seq::new((m.len() - i) as nat, |j: int| form_part(m[i + j])),
    decreases m.len() - i,
{
    if i < m.len() {
        lemma_pack_top_plain(m, i + 1);
        assert(m[i].1 is Str);
        assert(pack_parts(m[i].0, m[i].1) == seq![form_part(m[i])]);
        assert(pack_top(m, i) =~= Seq::new((m.len() - i) as nat, |j: int| form_part(m[i + j])));
    } else {
        assert(pack_top(m, i) =~= Seq::new((m.len() - i) as nat, |j: int| form_part(m[i + j])));
    }
}

proof fn lemma_fold_plain(
    m: Seq<(Seq<char>, JsonView)>,
    q: Seq<Seq<u8>>,
    acc: Seq<(Seq<char>, JsonView)>,
    i: int,
)
    requires
        keys_sorted(m),
        plain_form_entries(m),
        q.len() == m.len(),
        forall|j: int| 0 <= j < m.len() ==> #[trigger] q[j] == form_segment_bytes(m[j]),
        0 <= i <= m.len(),
        keys_sorted(acc),
        forall|k: Seq<char>| #[trigger] map_get(acc, k) == map_get(m.take(i), k),
    ensures
        form_fold(acc, q.skip(i)) == m,
    decreases m.len() - i,
{
    if i == m.len() {
        lemma_form_fold_empty(acc, q.skip(i));
        assert(m.take(i) =~= m);
        law_map_entries_determined(acc, m);
    } else {
        lemma_form_fold_step(acc, q.skip(i));
        assert(q.skip(i).drop_first() =~= q.skip(i + 1));
        assert(q.skip(i)[0] == form_segment_bytes(m[i]));
        lemma_form_segment_step(acc, m[i]);
        let acc2 = map_insert(acc, m[i].0, m[i].1);
        law_map_insert(acc, m[i].0, m[i].1);
        let t = m.take(i);
        let t2 = m.take(i + 1);
        assert(keys_sorted(t)) by {
            assert forall|a: int, b: int| 0 <= a < b < t.len() implies key_lt(#[trigger] t[a].0, #[trigger] t[b].0) by {
                assert(t[a] == m[a] && t[b] == m[b]);
            }
        }
        assert(keys_sorted(t2)) by {
            assert forall|a: int, b: int| 0 <= a < b < t2.len() implies key_lt(#[trigger] t2[a].0, #[trigger] t2[b].0) by {
                assert(t2[a] == m[a] && t2[b] == m[b]);
            }
        }
        assert forall|k: Seq<char>| #[trigger] map_get(acc2, k) == map_get(t2, k) by {
            if k == m[i].0 {
                lemma_map_get_index(t2, k, i);
            } else {
                if exists|l: int| 0 <= l < i && t[l].0 == k {
                    let l = choose|l: int| 0 <= l < i && t[l].0 == k;
                    lemma_map_get_index(t, k, l);
                    assert(t2[l] == t[l]);
                    lemma_map_get_index(t2, k, l);
                } else {
                    lemma_lower_bound(t2, k);
                    lemma_lower_bound(t, k);
                    let p = lower_bound(t2, k);
                    if p < t2.len() && t2[p].0 == k {
                        assert(t2[i] == m[i]);
                        assert(p != i);
                        assert(t[p] == t2[p]);
                        assert(false);
                    }
                    let p1 = lower_bound(t, k);
                    if p1 < t.len() && t[p1].0 == k {
                        assert(false);
                    }
                    assert(map_get(t2, k) is None);
                    assert(map_get(t, k) is None);
                    assert(map_get(acc2, k) == map_get(acc, k));
                }
            }
        }
        lemma_fold_plain(m, q, acc2, i + 1);
    }
}

/// Unpacking what packing wrote gives back the map: for entries with plain
/// names (not empty, with no `.`, space or `[`) and string values, form
/// decoding (no raw mode) of the packed text is the same map.
pub proof fn law_query_unpack_pack(m: Seq<(Seq<char>, JsonView)>)
    requires
        keys_sorted(m),
        plain_form_entries(m),
    ensures
        query_unpack_spec(query_pack_spec(m), Seq::empty()) == JsonView::Object(m),
{
    let n = m.len();
    let parts = pack_top(m, 0);
    lemma_pack_top_plain(m, 0);
    assert(parts =~= Seq::new(n, |j: int| form_part(m[j])));
    let q = Seq::new(n, |j: int| vstd::utf8::encode_utf8(parts[j]));
    lemma_encode_join(parts);
    lemma_encode_separators();
    assert forall|j: int| 0 <= j < n implies #[trigger] q[j] == form_segment_bytes(m[j]) by {
        lemma_encode_utf8_concat(form_encode(m[j].0) + seq!['='], form_encode(scalar_text(m[j].1)));
        lemma_encode_utf8_concat(form_encode(m[j].0), seq!['=']);
    }
    let data = query_pack_spec(m);
    assert(vstd::utf8::encode_utf8(data) == join_bytes(q, 38u8));
    assert(!raw_mode(Seq::empty()));
    let segs = split_seq(join_bytes(q, 38u8), 38u8);
    if n == 0 {
        reveal(split_seq);
        lemma_index_of_first_none(Seq::<u8>::empty(), 38u8);
        assert(join_bytes(q, 38u8) =~= Seq::<u8>::empty());
        assert(segs =~= seq![Seq::<u8>::empty()]);
        lemma_form_fold_step(Seq::empty(), segs);
        reveal(form_segment_step);
        lemma_form_fold_empty(Seq::empty(), segs.drop_first());
        assert(m =~= Seq::<(Seq<char>, JsonView)>::empty());
    } else {
        assert forall|i: int, j: int| 0 <= i < q.len() && 0 <= j < q[i].len() implies #[trigger] q[i][j] != 38u8 by {
            let e = m[i];
            lemma_encoded_plain(e.0);
            lemma_encoded_plain(scalar_text(e.1));
            let a = encoded_bytes(e.0);
            if j < a.len() {
                assert(q[i][j] == a[j]);
            } else if j > a.len() {
                assert(q[i][j] == encoded_bytes(scalar_text(e.1))[j - a.len() - 1]);
            }
        }
        lemma_split_join(q, 38u8);
        assert(m.take(0) =~= Seq::<(Seq<char>, JsonView)>::empty());
        assert(q.skip(0) =~= q);
        lemma_fold_plain(m, q, Seq::empty(), 0);
    }
}

/// Storing a sub-key into the object under `base` keeps what that object
/// held: `inner` reads `v`, every other sub-key reads as it did (nothing
/// when `base` held no object), every other top-level key reads as before,
/// and keys stay in order at both levels.
pub proof fn law_insert_into_object_keeps(
    root: Seq<(Seq<char>, JsonView)>,
    base: Seq<char>,
    inner: Seq<char>,
    v: JsonView,
    other_inner: Seq<char>,
    other_key: Seq<char>,
)
    requires
        keys_sorted(root),
        map_get(root, base) matches Some(JsonView::Object(o)) ==> keys_sorted(o),
    ensures
        keys_sorted(insert_into_object_spec(root, base, inner, v)),
        map_get(insert_into_object_spec(root, base, inner, v), base) matches Some(JsonView::Object(o2)) && keys_sorted(
            o2,
        ) && map_get(o2, inner) == Some(v) && (other_inner != inner ==> map_get(o2, other_inner) == match map_get(
            root,
            base,
        ) {
            Some(JsonView::Object(o)) => map_get(o, other_inner),
            _ => None,
        }),
        other_key != base ==> map_get(insert_into_object_spec(root, base, inner, v), other_key) == map_get(
            root,
            other_key,
        ),
{
    let e = Seq::<(Seq<char>, JsonView)>::empty();
    assert(keys_sorted(e));
    match map_get(root, base) {
        Some(JsonView::Object(o)) => {
            law_map_insert(o, inner, v);
            law_map_insert(root, base, JsonView::Object(map_insert(o, inner, v)));
        },
        _ => {
            law_map_insert(e, inner, v);
            assert(map_get(e, other_inner) is None);
            law_map_insert(root, base, JsonView::Object(map_insert(e, inner, v)));
        },
    }
}

/// `t` begins with `s`.
pub open spec fn starts_with(t: Seq<char>, s: Seq<char>) -> bool {
    s.len() <= t.len() && t.take(s.len() as int) == s
}

proof fn lemma_form_encode_concat(a: Seq<char>, b: Seq<char>)
    ensures
        form_encode(a + b) == form_encode(a) + form_encode(b),
{
    lemma_encode_utf8_concat(a, b);
    lemma_encode_concat(vstd::utf8::encode_utf8(a), vstd::utf8::encode_utf8(b));
}

proof fn lemma_starts_with_extend(t: Seq<char>, a: Seq<char>, b: Seq<char>)
    requires
        starts_with(t, a + b),
    ensures
        starts_with(t, a),
{
    assert(t.take(a.len() as int) =~= (a + b).take(a.len() as int));
    assert((a + b).take(a.len() as int) =~= a);
}

/// Every pair a value packs to under key path `q` has a key beginning with
/// the encoding of `q`.
proof fn lemma_parts_prefix(q: Seq<char>, v: JsonView)
    ensures
        forall|k: int| 0 <= k < pack_parts(q, v).len() ==> starts_with(#[trigger] pack_parts(q, v)[k], form_encode(q)),
    decreases v, 0int,
{
    match v {
        JsonView::Null => {
            assert(pack_parts(q, v).len() == 0);
        },
        JsonView::Array(items) => {
            lemma_items_prefix(q, items, 0);
            assert(pack_parts(q, v) == pack_items(q, items, 0));
        },
        JsonView::Object(o) => {
            lemma_fields_prefix(q, o, 0);
            assert(pack_parts(q, v) == pack_fields(q, o, 0));
        },
        _ => {
            let t = form_encode(q) + seq!['='] + form_encode(scalar_text(v));
            assert(pack_parts(q, v) == seq![t]);
            assert(t.take(form_encode(q).len() as int) =~= form_encode(q));
        },
    }
}

proof fn lemma_child_prefix(q: Seq<char>, name: Seq<char>, t: Seq<char>)
    requires
        starts_with(t, form_encode(child_prefix(q, name))),
    ensures
        starts_with(t, form_encode(q)),
{
    let rest = seq!['['] + name + seq![']'];
    assert(child_prefix(q, name) =~= q + rest);
    lemma_form_encode_concat(q, rest);
    lemma_starts_with_extend(t, form_encode(q), form_encode(rest));
}

proof fn lemma_items_prefix(q: Seq<char>, items: Seq<JsonView>, i: int)
    ensures
        forall|k: int|
            #![trigger pack_items(q, items, i)[k]]
            0 <= k < pack_items(q, items, i).len() ==> exists|j: int|
            #![trigger decimal(j as nat)]
            0 <= j < items.len() && starts_with(pack_items(q, items, i)[k], form_encode(child_prefix(q, decimal(j as nat)))),
        forall|k: int| 0 <= k < pack_items(q, items, i).len() ==> starts_with(#[trigger] pack_items(q, items, i)[k], form_encode(q)),
    decreases items, items.len() - i,
{
    if 0 <= i < items.len() {
        let c = child_prefix(q, decimal(i as nat));
        lemma_parts_prefix(c, items[i]);
        lemma_items_prefix(q, items, i + 1);
        let a = pack_parts(c, items[i]);
        let b = pack_items(q, items, i + 1);
        assert(pack_items(q, items, i) == a + b);
        assert forall|k: int|
            #![trigger (a + b)[k]]
            0 <= k < (a + b).len() implies exists|j: int|
            #![trigger decimal(j as nat)]
            0 <= j < items.len() && starts_with((a + b)[k], form_encode(child_prefix(q, decimal(j as nat)))) by {
            if k < a.len() {
                assert((a + b)[k] == a[k]);
                assert(starts_with(a[k], form_encode(c)));
                assert(decimal(i as nat) == decimal(i as nat));
            } else {
                assert((a + b)[k] == b[k - a.len()]);
            }
        }
        assert forall|k: int| 0 <= k < (a + b).len() implies starts_with(#[trigger] (a + b)[k], form_encode(q)) by {
            if k < a.len() {
                assert((a + b)[k] == a[k]);
                lemma_child_prefix(q, decimal(i as nat), a[k]);
            } else {
                assert((a + b)[k] == b[k - a.len()]);
            }
        }
    }
}

proof fn lemma_fields_prefix(q: Seq<char>, o: Seq<(Seq<char>, JsonView)>, i: int)
    ensures
        forall|k: int|
            #![trigger pack_fields(q, o, i)[k]]
            0 <= k < pack_fields(q, o, i).len() ==> exists|j: int|
            #![trigger o[j]]
            0 <= j < o.len() && starts_with(pack_fields(q, o, i)[k], form_encode(child_prefix(q, o[j].0))),
        forall|k: int| 0 <= k < pack_fields(q, o, i).len() ==> starts_with(#[trigger] pack_fields(q, o, i)[k], form_encode(q)),
    decreases o, o.len() - i,
{
    if 0 <= i < o.len() {
        let c = child_prefix(q, o[i].0);
        lemma_parts_prefix(c, o[i].1);
        lemma_fields_prefix(q, o, i + 1);
        let a = pack_parts(c, o[i].1);
        let b = pack_fields(q, o, i + 1);
        assert(pack_fields(q, o, i) == a + b);
        assert forall|k: int|
            #![trigger (a + b)[k]]
            0 <= k < (a + b).len() implies exists|j: int|
            #![trigger o[j]]
            0 <= j < o.len() && starts_with((a + b)[k], form_encode(child_prefix(q, o[j].0))) by {
            if k < a.len() {
                assert((a + b)[k] == a[k]);
                assert(starts_with(a[k], form_encode(c)));
                assert(o[i] == o[i]);
            } else {
                assert((a + b)[k] == b[k - a.len()]);
            }
        }
        assert forall|k: int| 0 <= k < (a + b).len() implies starts_with(#[trigger] (a + b)[k], form_encode(q)) by {
            if k < a.len() {
                assert((a + b)[k] == a[k]);
                lemma_child_prefix(q, o[i].0, a[k]);
            } else {
                assert((a + b)[k] == b[k - a.len()]);
            }
        }
    }
}

/// Objects pack by name: every pair an object packs to under key path `p`
/// has a key beginning with `p[name]` (encoded) for the name of one of its
/// entries.
pub proof fn law_pack_object_named(p: Seq<char>, o: Seq<(Seq<char>, JsonView)>)
    ensures
        forall|k: int|
            #![trigger pack_parts(p, JsonView::Object(o))[k]]
            0 <= k < pack_parts(p, JsonView::Object(o)).len() ==> exists|j: int|
            #![trigger o[j]]
            0 <= j < o.len() && starts_with(pack_parts(p, JsonView::Object(o))[k], form_encode(child_prefix(p, o[j].0))),
{
    lemma_fields_prefix(p, o, 0);
    assert(pack_parts(p, JsonView::Object(o)) == pack_fields(p, o, 0));
}

/// Arrays pack by index: every pair an array packs to under key path `p`
/// has a key beginning with `p[i]` (encoded) for the index `i` of one of
/// its elements, whatever the element's type.
pub proof fn law_pack_array_indexed(p: Seq<char>, items: Seq<JsonView>)
    ensures
        forall|k: int|
            #![trigger pack_parts(p, JsonView::Array(items))[k]]
            0 <= k < pack_parts(p, JsonView::Array(items)).len() ==> exists|i: int|
            #![trigger decimal(i as nat)]
            0 <= i < items.len() && starts_with(
                pack_parts(p, JsonView::Array(items))[k],
                form_encode(child_prefix(p, decimal(i as nat))),
            ),
{
    lemma_items_prefix(p, items, 0);
    assert(pack_parts(p, JsonView::Array(items)) == pack_items(p, items, 0));
}

} // verus!
