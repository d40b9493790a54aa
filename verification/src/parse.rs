//! The textual wire format of inbound client frames.
//!
//! Inbound frames are flat JSON objects whose fields are strings: a
//! camel-cased `type` tag and the fields of that frame. The parser accepts
//! any field order, the usual JSON whitespace, and full string escaping —
//! the short escapes, `\u` forms and surrogate pairs — and rejects
//! anything else: malformed text, a duplicated field, an unknown tag or a
//! missing required field, all of which the session layer drops without
//! closing the connection. `spec_decode_client` is the grammar, position
//! by position; `decode_client_message` returns exactly what it defines.

use vstd::prelude::*;

use crate::message::ClientMessage;
use crate::wire::spec_hex_digit;
use crate::wire::spec_hex_range;
use crate::wire::spec_nibble;
use crate::wire::spec_uuid;
use crate::wire::string_from_chars;

verus! {

broadcast use vstd::utf8::char_u32_cast;

/// JSON whitespace.
pub open spec fn is_ws(c: char) -> bool {
    c == ' ' || c == '\t' || c == '\n' || c == '\r'
}

/// The first position at or after `i` holding no whitespace.
pub open spec fn spec_skip_ws(s: Seq<char>, i: int) -> int
    decreases s.len() - i,
{
    if !(0 <= i < s.len()) {
        i
    } else if is_ws(s[i]) {
        spec_skip_ws(s, i + 1)
    } else {
        i
    }
}

/// The value of a hexadecimal digit, upper or lower case.
pub open spec fn spec_hex_char_val(c: char) -> Option<u8> {
    if c == '0' {
        Option::Some(0u8)
    } else if c == '1' {
        Option::Some(1u8)
    } else if c == '2' {
        Option::Some(2u8)
    } else if c == '3' {
        Option::Some(3u8)
    } else if c == '4' {
        Option::Some(4u8)
    } else if c == '5' {
        Option::Some(5u8)
    } else if c == '6' {
        Option::Some(6u8)
    } else if c == '7' {
        Option::Some(7u8)
    } else if c == '8' {
        Option::Some(8u8)
    } else if c == '9' {
        Option::Some(9u8)
    } else if c == 'a' || c == 'A' {
        Option::Some(10u8)
    } else if c == 'b' || c == 'B' {
        Option::Some(11u8)
    } else if c == 'c' || c == 'C' {
        Option::Some(12u8)
    } else if c == 'd' || c == 'D' {
        Option::Some(13u8)
    } else if c == 'e' || c == 'E' {
        Option::Some(14u8)
    } else if c == 'f' || c == 'F' {
        Option::Some(15u8)
    } else {
        Option::None
    }
}

/// The value of the four hexadecimal digits at `i`.
pub open spec fn spec_hex4(s: Seq<char>, i: int) -> Option<u32> {
    if !(0 <= i && i + 4 <= s.len()) {
        Option::None
    } else {
        match (
            spec_hex_char_val(s[i]),
            spec_hex_char_val(s[i + 1]),
            spec_hex_char_val(s[i + 2]),
            spec_hex_char_val(s[i + 3]),
        ) {
            (Option::Some(a), Option::Some(b), Option::Some(c), Option::Some(d)) => Option::Some(
                (((a as int) * 4096 + (b as int) * 256 + (c as int) * 16 + (d as int)) as u32),
            ),
            _ => Option::None,
        }
    }
}

/// The characters that may follow a backslash directly.
pub open spec fn is_short_escape(c: char) -> bool {
    c == '"' || c == '\\' || c == '/' || c == 'b' || c == 'f' || c == 'n' || c == 'r' || c == 't'
}

/// The character a short escape stands for.
pub open spec fn short_escape_char(c: char) -> char {
    if c == '"' {
        '"'
    } else if c == '\\' {
        '\\'
    } else if c == '/' {
        '/'
    } else if c == 'b' {
        '\u{08}'
    } else if c == 'f' {
        '\u{0c}'
    } else if c == 'n' {
        '\u{0a}'
    } else if c == 'r' {
        '\u{0d}'
    } else {
        '\u{09}'
    }
}

/// The scalar value a surrogate pair encodes.
pub open spec fn combined_scalar(hi: u32, lo: u32) -> u32 {
    ((((hi as int) - 0xD800) * 1024 + ((lo as int) - 0xDC00) + 0x10000) as u32)
}

/// Prefixes the parsed value of a string-body outcome.
pub open spec fn opt_prepend(p: Seq<char>, o: Option<(Seq<char>, int)>) -> Option<
    (Seq<char>, int),
> {
    match o {
        Option::None => Option::None,
        Option::Some(pair) => Option::Some((p + pair.0, pair.1)),
    }
}

/// Parses the body of a JSON string from position `i` (just after the
/// opening quote) up to and beyond its closing quote: the unescaped
/// characters and the position after the closing quote.
pub open spec fn spec_parse_string_body(s: Seq<char>, i: int) -> Option<(Seq<char>, int)>
    decreases s.len() - i,
{
    if !(0 <= i < s.len()) {
        Option::None
    } else if s[i] == '"' {
        Option::Some((Seq::empty(), i + 1))
    } else if s[i] == '\\' {
        if !(i + 1 < s.len()) {
            Option::None
        } else if is_short_escape(s[i + 1]) {
            opt_prepend(seq![short_escape_char(s[i + 1])], spec_parse_string_body(s, i + 2))
        } else if s[i + 1] == 'u' {
            match spec_hex4(s, i + 2) {
                Option::None => Option::None,
                Option::Some(cp) => {
                    if 0xD800 <= cp < 0xDC00 {
                        if i + 8 < s.len() && s[i + 6] == '\\' && s[i + 7] == 'u' {
                            match spec_hex4(s, i + 8) {
                                Option::None => Option::None,
                                Option::Some(lo) => {
                                    if 0xDC00 <= lo < 0xE000 {
                                        opt_prepend(
                                            seq![(combined_scalar(cp, lo) as char)],
                                            spec_parse_string_body(s, i + 12),
                                        )
                                    } else {
                                        Option::None
                                    }
                                },
                            }
                        } else {
                            Option::None
                        }
                    } else if 0xDC00 <= cp < 0xE000 {
                        Option::None
                    } else {
                        opt_prepend(seq![(cp as char)], spec_parse_string_body(s, i + 6))
                    }
                },
            }
        } else {
            Option::None
        }
    } else if (s[i] as u32) < 32 {
        Option::None
    } else {
        opt_prepend(seq![s[i]], spec_parse_string_body(s, i + 1))
    }
}

/// Parses a JSON string starting at `i`: its unescaped characters and the
/// position after its closing quote.
pub open spec fn spec_parse_string(s: Seq<char>, i: int) -> Option<(Seq<char>, int)> {
    if 0 <= i < s.len() && s[i] == '"' {
        spec_parse_string_body(s, i + 1)
    } else {
        Option::None
    }
}

proof fn lemma_opt_prepend_assoc(p: Seq<char>, q: Seq<char>, o: Option<(Seq<char>, int)>)
    ensures
        opt_prepend(p, opt_prepend(q, o)) == opt_prepend(p + q, o),
{
    match o {
        Option::None => {
        },
        Option::Some(pair) => {
            assert(p + (q + pair.0) =~= (p + q) + pair.0);
        },
    }
}

/// Relies on `char::from_u32`: it returns `Some` exactly for the Unicode
/// scalar values — below the surrogate range or between it and the
/// greatest code point — and the character returned carries that value.
#[verifier::external_body]
fn char_from_u32(v: u32) -> (r: Option<char>)
    ensures
        match r {
            Option::Some(c) => (v < 0xD800 || (0xE000 <= v && v <= 0x10FFFF)) && c as u32 == v,
            Option::None => !(v < 0xD800 || (0xE000 <= v && v <= 0x10FFFF)),
        },
{
    char::from_u32(v)
}

fn hex_char_val(c: char) -> (r: Option<u8>)
    ensures
        r == spec_hex_char_val(c),
{
    if c == '0' {
        Option::Some(0u8)
    } else if c == '1' {
        Option::Some(1u8)
    } else if c == '2' {
        Option::Some(2u8)
    } else if c == '3' {
        Option::Some(3u8)
    } else if c == '4' {
        Option::Some(4u8)
    } else if c == '5' {
        Option::Some(5u8)
    } else if c == '6' {
        Option::Some(6u8)
    } else if c == '7' {
        Option::Some(7u8)
    } else if c == '8' {
        Option::Some(8u8)
    } else if c == '9' {
        Option::Some(9u8)
    } else if c == 'a' || c == 'A' {
        Option::Some(10u8)
    } else if c == 'b' || c == 'B' {
        Option::Some(11u8)
    } else if c == 'c' || c == 'C' {
        Option::Some(12u8)
    } else if c == 'd' || c == 'D' {
        Option::Some(13u8)
    } else if c == 'e' || c == 'E' {
        Option::Some(14u8)
    } else if c == 'f' || c == 'F' {
        Option::Some(15u8)
    } else {
        Option::None
    }
}

fn hex4(s: &str, i: usize, n: usize) -> (r: Option<u32>)
    requires
        n == s@.len(),
    ensures
        r == spec_hex4(s@, i as int),
{
    if i > n || n - i < 4 {
        return Option::None;
    }
    let a = match hex_char_val(s.get_char(i)) {
        Option::Some(v) => v,
        Option::None => {
            return Option::None;
        },
    };
    let b = match hex_char_val(s.get_char(i + 1)) {
        Option::Some(v) => v,
        Option::None => {
            return Option::None;
        },
    };
    let c = match hex_char_val(s.get_char(i + 2)) {
        Option::Some(v) => v,
        Option::None => {
            return Option::None;
        },
    };
    let d = match hex_char_val(s.get_char(i + 3)) {
        Option::Some(v) => v,
        Option::None => {
            return Option::None;
        },
    };
    Option::Some((a as u32) * 4096 + (b as u32) * 256 + (c as u32) * 16 + (d as u32))
}

/// The first position at or after `i` holding no whitespace.
fn skip_ws(s: &str, i: usize, n: usize) -> (r: usize)
    requires
        n == s@.len(),
        i <= n,
    ensures
        r as int == spec_skip_ws(s@, i as int),
        i <= r <= n,
{
    let mut j: usize = i;
    loop
        invariant
            i <= j <= n,
            n == s@.len(),
            spec_skip_ws(s@, i as int) == spec_skip_ws(s@, j as int),
        decreases n - j,
    {
        if j >= n {
            proof {
                assert(spec_skip_ws(s@, j as int) == j as int);
            }
            return j;
        }
        let c = s.get_char(j);
        if c == ' ' || c == '\t' || c == '\n' || c == '\r' {
            proof {
                assert(spec_skip_ws(s@, j as int) == spec_skip_ws(s@, j + 1));
            }
            j = j + 1;
        } else {
            proof {
                assert(spec_skip_ws(s@, j as int) == j as int);
            }
            return j;
        }
    }
}

/// Parses a JSON string starting at `start`: its unescaped text and the
/// position after its closing quote.
#[verifier::rlimit(60)]
fn parse_string(s: &str, start: usize, n: usize) -> (r: Option<(String, usize)>)
    requires
        n == s@.len(),
        start <= n,
    ensures
        match r {
            Option::Some(pair) => spec_parse_string(s@, start as int) == Option::Some(
                (pair.0@, pair.1 as int),
            ) && start < pair.1 <= n,
            Option::None => spec_parse_string(s@, start as int) is None,
        },
{
    if !(start < n && s.get_char(start) == '"') {
        return Option::None;
    }
    let mut acc: Vec<char> = Vec::new();
    let mut i: usize = start + 1;
    proof {
        assert(acc@ =~= Seq::<char>::empty());
        assert(opt_prepend(Seq::<char>::empty(), spec_parse_string_body(s@, i as int))
            == spec_parse_string_body(s@, i as int)) by {
            match spec_parse_string_body(s@, i as int) {
                Option::None => {
                },
                Option::Some(pair) => {
                    assert(Seq::<char>::empty() + pair.0 =~= pair.0);
                },
            }
        }
    }
    loop
        invariant
            start + 1 <= i <= n,
            n == s@.len(),
            start < n && s@[start as int] == '"',
            spec_parse_string_body(s@, (start + 1) as int) == opt_prepend(
                acc@,
                spec_parse_string_body(s@, i as int),
            ),
        decreases n - i,
    {
        let ghost acc0 = acc@;
        if i >= n {
            proof {
                assert(spec_parse_string_body(s@, i as int) is None);
            }
            return Option::None;
        }
        let c = s.get_char(i);
        if c == '"' {
            proof {
                assert(spec_parse_string_body(s@, i as int) == Option::Some(
                    (Seq::<char>::empty(), i + 1),
                ));
                assert(acc@ + Seq::<char>::empty() =~= acc@);
                assert(spec_parse_string_body(s@, (start + 1) as int) == Option::Some(
                    (acc@, i + 1),
                ));
                assert(spec_parse_string(s@, start as int) == Option::Some((acc@, i + 1)));
            }
            let text = string_from_chars(acc);
            return Option::Some((text, i + 1));
        } else if c == '\\' {
            if i + 1 >= n {
                proof {
                    assert(spec_parse_string_body(s@, i as int) is None);
                }
                return Option::None;
            }
            let e = s.get_char(i + 1);
            if e == '"' || e == '\\' || e == '/' || e == 'b' || e == 'f' || e == 'n' || e == 'r'
                || e == 't' {
                let ch: char = if e == '"' {
                    '"'
                } else if e == '\\' {
                    '\\'
                } else if e == '/' {
                    '/'
                } else if e == 'b' {
                    '\u{08}'
                } else if e == 'f' {
                    '\u{0c}'
                } else if e == 'n' {
                    '\u{0a}'
                } else if e == 'r' {
                    '\u{0d}'
                } else {
                    '\u{09}'
                };
                proof {
                    assert(ch == short_escape_char(e));
                    assert(spec_parse_string_body(s@, i as int) == opt_prepend(
                        seq![ch],
                        spec_parse_string_body(s@, i + 2),
                    ));
                    lemma_opt_prepend_assoc(acc0, seq![ch], spec_parse_string_body(s@, i + 2));
                    assert(acc0.push(ch) =~= acc0 + seq![ch]);
                }
                acc.push(ch);
                i = i + 2;
            } else if e == 'u' {
                let cp = match hex4(s, i + 2, n) {
                    Option::Some(v) => v,
                    Option::None => {
                        proof {
                            assert(spec_parse_string_body(s@, i as int) is None);
                        }
                        return Option::None;
                    },
                };
                if 0xD800 <= cp && cp < 0xDC00 {
                    if n - i > 8 && s.get_char(i + 6) == '\\' && s.get_char(i + 7) == 'u' {
                        let lo = match hex4(s, i + 8, n) {
                            Option::Some(v) => v,
                            Option::None => {
                                proof {
                                    assert(spec_parse_string_body(s@, i as int) is None);
                                }
                                return Option::None;
                            },
                        };
                        if 0xDC00 <= lo && lo < 0xE000 {
                            let scalar: u32 = (cp - 0xD800) * 1024 + (lo - 0xDC00) + 0x10000;
                            proof {
                                assert(scalar == combined_scalar(cp, lo));
                            }
                            let ch = match char_from_u32(scalar) {
                                Option::Some(ch) => ch,
                                Option::None => {
                                    proof {
                                        assert(false);
                                    }
                                    return Option::None;
                                },
                            };
                            proof {
                                vstd::utf8::char_u32_cast(ch, scalar);
                                assert((combined_scalar(cp, lo) as char) == ch);
                                assert(spec_parse_string_body(s@, i as int) == opt_prepend(
                                    seq![ch],
                                    spec_parse_string_body(s@, i + 12),
                                ));
                                lemma_opt_prepend_assoc(
                                    acc0,
                                    seq![ch],
                                    spec_parse_string_body(s@, i + 12),
                                );
                                assert(acc0.push(ch) =~= acc0 + seq![ch]);
                            }
                            acc.push(ch);
                            i = i + 12;
                        } else {
                            proof {
                                assert(spec_parse_string_body(s@, i as int) is None);
                            }
                            return Option::None;
                        }
                    } else {
                        proof {
                            assert(spec_parse_string_body(s@, i as int) is None);
                        }
                        return Option::None;
                    }
                } else if 0xDC00 <= cp && cp < 0xE000 {
                    proof {
                        assert(spec_parse_string_body(s@, i as int) is None);
                    }
                    return Option::None;
                } else {
                    let ch = match char_from_u32(cp) {
                        Option::Some(ch) => ch,
                        Option::None => {
                            proof {
                                assert(false);
                            }
                            return Option::None;
                        },
                    };
                    proof {
                        vstd::utf8::char_u32_cast(ch, cp);
                        assert((cp as char) == ch);
                        assert(spec_parse_string_body(s@, i as int) == opt_prepend(
                            seq![ch],
                            spec_parse_string_body(s@, i + 6),
                        ));
                        lemma_opt_prepend_assoc(acc0, seq![ch], spec_parse_string_body(s@, i + 6));
                        assert(acc0.push(ch) =~= acc0 + seq![ch]);
                    }
                    acc.push(ch);
                    i = i + 6;
                }
            } else {
                proof {
                    assert(spec_parse_string_body(s@, i as int) is None);
                }
                return Option::None;
            }
        } else if (c as u32) < 32 {
            proof {
                assert(spec_parse_string_body(s@, i as int) is None);
            }
            return Option::None;
        } else {
            proof {
                assert(spec_parse_string_body(s@, i as int) == opt_prepend(
                    seq![c],
                    spec_parse_string_body(s@, i + 1),
                ));
                lemma_opt_prepend_assoc(acc0, seq![c], spec_parse_string_body(s@, i + 1));
                assert(acc0.push(c) =~= acc0 + seq![c]);
            }
            acc.push(c);
            i = i + 1;
        }
    }
}

/// Prefixes one parsed field onto a members outcome.
pub open spec fn opt_prepend_field(
    f: (Seq<char>, Seq<char>),
    o: Option<(Seq<(Seq<char>, Seq<char>)>, int)>,
) -> Option<(Seq<(Seq<char>, Seq<char>)>, int)> {
    match o {
        Option::None => Option::None,
        Option::Some(pair) => Option::Some((seq![f] + pair.0, pair.1)),
    }
}

/// Prefixes already-parsed fields onto a members outcome.
pub open spec fn opt_prepend_fields(
    p: Seq<(Seq<char>, Seq<char>)>,
    o: Option<(Seq<(Seq<char>, Seq<char>)>, int)>,
) -> Option<(Seq<(Seq<char>, Seq<char>)>, int)> {
    match o {
        Option::None => Option::None,
        Option::Some(pair) => Option::Some((p + pair.0, pair.1)),
    }
}

proof fn lemma_opt_prepend_fields_assoc(
    p: Seq<(Seq<char>, Seq<char>)>,
    f: (Seq<char>, Seq<char>),
    o: Option<(Seq<(Seq<char>, Seq<char>)>, int)>,
)
    ensures
        opt_prepend_fields(p, opt_prepend_field(f, o)) == opt_prepend_fields(p.push(f), o),
{
    match o {
        Option::None => {
        },
        Option::Some(pair) => {
            assert(p + (seq![f] + pair.0) =~= p.push(f) + pair.0);
        },
    }
}

/// Parses `"key" : "value"` members separated by commas, consuming the
/// closing brace: the fields in order and the position after the brace.
/// `fuel` only bounds the recursion and exceeds what any input can need.
pub open spec fn spec_parse_members(s: Seq<char>, i: int, fuel: nat) -> Option<
    (Seq<(Seq<char>, Seq<char>)>, int),
>
    decreases fuel,
{
    if fuel == 0 {
        Option::None
    } else {
        match spec_parse_string(s, i) {
            Option::None => Option::None,
            Option::Some(key_pair) => {
                let j = spec_skip_ws(s, key_pair.1);
                if !(j < s.len() && s[j] == ':') {
                    Option::None
                } else {
                    let j2 = spec_skip_ws(s, j + 1);
                    match spec_parse_string(s, j2) {
                        Option::None => Option::None,
                        Option::Some(val_pair) => {
                            let k = spec_skip_ws(s, val_pair.1);
                            if k < s.len() && s[k] == ',' {
                                opt_prepend_field(
                                    (key_pair.0, val_pair.0),
                                    spec_parse_members(
                                        s,
                                        spec_skip_ws(s, k + 1),
                                        (fuel - 1) as nat,
                                    ),
                                )
                            } else if k < s.len() && s[k] == '}' {
                                Option::Some((seq![(key_pair.0, val_pair.0)], k + 1))
                            } else {
                                Option::None
                            }
                        },
                    }
                }
            },
        }
    }
}

/// Parses a whole frame: one object of string fields, surrounded by
/// nothing but whitespace.
pub open spec fn spec_parse_frame_fields(s: Seq<char>) -> Option<Seq<(Seq<char>, Seq<char>)>> {
    let i = spec_skip_ws(s, 0);
    if !(i < s.len() && s[i] == '{') {
        Option::None
    } else {
        let j = spec_skip_ws(s, i + 1);
        if j < s.len() && s[j] == '}' {
            if spec_skip_ws(s, j + 1) == s.len() {
                Option::Some(Seq::empty())
            } else {
                Option::None
            }
        } else {
            match spec_parse_members(s, j, s.len()) {
                Option::None => Option::None,
                Option::Some(pair) => {
                    if spec_skip_ws(s, pair.1) == s.len() {
                        Option::Some(pair.0)
                    } else {
                        Option::None
                    }
                },
            }
        }
    }
}

/// Whether the parsed fields carry pairwise distinct names.
pub open spec fn fields_no_dup(fs: Seq<(Seq<char>, Seq<char>)>) -> bool {
    forall|a: int, b: int| 0 <= a < b < fs.len() ==> (#[trigger] fs[a]).0 != (#[trigger] fs[b]).0
}

/// Whether a field of the given name is present.
pub open spec fn fields_has(fs: Seq<(Seq<char>, Seq<char>)>, name: Seq<char>) -> bool {
    exists|t: int| 0 <= t < fs.len() && (#[trigger] fs[t]).0 == name
}

/// The position of the field of the given name.
pub open spec fn fields_index(fs: Seq<(Seq<char>, Seq<char>)>, name: Seq<char>) -> int {
    choose|t: int| 0 <= t < fs.len() && (#[trigger] fs[t]).0 == name
}

/// The value of the field of the given name, when present.
pub open spec fn spec_field_val(fs: Seq<(Seq<char>, Seq<char>)>, name: Seq<char>) -> Option<
    Seq<char>,
> {
    if fields_has(fs, name) {
        Option::Some(fs[fields_index(fs, name)].1)
    } else {
        Option::None
    }
}

proof fn lemma_field_val(fs: Seq<(Seq<char>, Seq<char>)>, name: Seq<char>, t: int)
    requires
        fields_no_dup(fs),
        0 <= t < fs.len(),
        fs[t].0 == name,
    ensures
        spec_field_val(fs, name) == Option::Some(fs[t].1),
{
    assert(fields_has(fs, name));
    let t2 = fields_index(fs, name);
    assert(0 <= t2 < fs.len() && fs[t2].0 == name);
    if t != t2 {
        assert(false);
    }
}

/// The hexadecimal value accumulated over a digit sequence.
pub open spec fn spec_hex_acc(ds: Seq<char>) -> Option<u128>
    decreases ds.len(),
{
    if ds.len() == 0 {
        Option::Some(0u128)
    } else {
        match spec_hex_acc(ds.drop_last()) {
            Option::None => Option::None,
            Option::Some(hi) => match spec_hex_char_val(ds.last()) {
                Option::None => Option::None,
                Option::Some(d) => Option::Some((hi << 4) | (d as u128)),
            },
        }
    }
}

/// The hexadecimal digits of a canonical UUID string, dashes removed.
pub open spec fn spec_uuid_digits(v: Seq<char>) -> Seq<char> {
    v.subrange(0, 8) + v.subrange(9, 13) + v.subrange(14, 18) + v.subrange(19, 23) + v.subrange(
        24,
        36,
    )
}

/// The 128-bit value of a canonical UUID string: five dash-separated
/// groups of hexadecimal digits, upper or lower case.
pub open spec fn spec_parse_uuid(v: Seq<char>) -> Option<u128> {
    if v.len() == 36 && v[8] == '-' && v[13] == '-' && v[18] == '-' && v[23] == '-' {
        spec_hex_acc(spec_uuid_digits(v))
    } else {
        Option::None
    }
}

proof fn lemma_hex_acc_none(ds: Seq<char>, t: int)
    requires
        0 <= t < ds.len(),
        spec_hex_char_val(ds[t]) is None,
    ensures
        spec_hex_acc(ds) is None,
    decreases ds.len(),
{
    if t == ds.len() - 1 {
    } else {
        assert(ds.drop_last()[t] == ds[t]);
        lemma_hex_acc_none(ds.drop_last(), t);
    }
}

/// An inbound frame with its text payloads as character sequences; what
/// decoding promises to recognize.
pub ghost enum ClientFrame {
    Auth { token: Seq<char> },
    SendMessage { conversation_id: u128, content: Seq<char> },
    JoinConversation { conversation_id: u128 },
    LeaveConversation { conversation_id: u128 },
    TypingStart { conversation_id: u128 },
    TypingStop { conversation_id: u128 },
    Ping,
}

/// The frame a decoded message stands for.
pub open spec fn frame_of(m: ClientMessage) -> ClientFrame {
    match m {
        ClientMessage::Auth { token } => ClientFrame::Auth { token: token@ },
        ClientMessage::SendMessage { conversation_id, content } => ClientFrame::SendMessage {
            conversation_id,
            content: content@,
        },
        ClientMessage::JoinConversation { conversation_id } => ClientFrame::JoinConversation {
            conversation_id,
        },
        ClientMessage::LeaveConversation { conversation_id } => ClientFrame::LeaveConversation {
            conversation_id,
        },
        ClientMessage::TypingStart { conversation_id } => ClientFrame::TypingStart {
            conversation_id,
        },
        ClientMessage::TypingStop { conversation_id } => ClientFrame::TypingStop {
            conversation_id,
        },
        ClientMessage::Ping => ClientFrame::Ping,
    }
}

/// The frame a text decodes to, if any: a well-formed object of string
/// fields with distinct names, whose `type` tag names a frame and whose
/// required fields are present and, for identifiers, in canonical UUID
/// form. Extra fields are ignored, as the service has always done.
pub open spec fn spec_decode_client(s: Seq<char>) -> Option<ClientFrame> {
    match spec_parse_frame_fields(s) {
        Option::None => Option::None,
        Option::Some(fs) => {
            if !fields_no_dup(fs) {
                Option::None
            } else {
                match spec_field_val(fs, "type"@) {
                    Option::None => Option::None,
                    Option::Some(tag) => {
                        if tag == "auth"@ {
                            match spec_field_val(fs, "token"@) {
                                Option::None => Option::None,
                                Option::Some(token) => Option::Some(
                                    ClientFrame::Auth { token },
                                ),
                            }
                        } else if tag == "sendMessage"@ {
                            match (
                                spec_field_val(fs, "conversationId"@),
                                spec_field_val(fs, "content"@),
                            ) {
                                (Option::Some(cid), Option::Some(content)) => match
                                    spec_parse_uuid(cid) {
                                    Option::None => Option::None,
                                    Option::Some(conversation_id) => Option::Some(
                                        ClientFrame::SendMessage { conversation_id, content },
                                    ),
                                },
                                _ => Option::None,
                            }
                        } else if tag == "joinConversation"@ {
                            match spec_conversation_id(fs) {
                                Option::None => Option::None,
                                Option::Some(conversation_id) => Option::Some(
                                    ClientFrame::JoinConversation { conversation_id },
                                ),
                            }
                        } else if tag == "leaveConversation"@ {
                            match spec_conversation_id(fs) {
                                Option::None => Option::None,
                                Option::Some(conversation_id) => Option::Some(
                                    ClientFrame::LeaveConversation { conversation_id },
                                ),
                            }
                        } else if tag == "typingStart"@ {
                            match spec_conversation_id(fs) {
                                Option::None => Option::None,
                                Option::Some(conversation_id) => Option::Some(
                                    ClientFrame::TypingStart { conversation_id },
                                ),
                            }
                        } else if tag == "typingStop"@ {
                            match spec_conversation_id(fs) {
                                Option::None => Option::None,
                                Option::Some(conversation_id) => Option::Some(
                                    ClientFrame::TypingStop { conversation_id },
                                ),
                            }
                        } else if tag == "ping"@ {
                            Option::Some(ClientFrame::Ping)
                        } else {
                            Option::None
                        }
                    },
                }
            }
        },
    }
}

/// The parsed `conversationId` field, when present and well-formed.
pub open spec fn spec_conversation_id(fs: Seq<(Seq<char>, Seq<char>)>) -> Option<u128> {
    match spec_field_val(fs, "conversationId"@) {
        Option::None => Option::None,
        Option::Some(cid) => spec_parse_uuid(cid),
    }
}

fn fields_distinct(fields: &Vec<(String, String)>) -> (r: bool)
    ensures
        r == (forall|a: int, b: int|
            0 <= a < b < fields@.len() ==> (#[trigger] fields@[a]).0@ != (
            #[trigger] fields@[b]).0@),
{
    let n = fields.len();
    let mut a: usize = 0;
    while a < n
        invariant
            a <= n,
            n == fields@.len(),
            forall|x: int, y: int|
                0 <= x < y < fields@.len() && x < a ==> (#[trigger] fields@[x]).0@ != (
                #[trigger] fields@[y]).0@,
        decreases n - a,
    {
        let mut b: usize = a + 1;
        while b < n
            invariant
                a < n,
                a + 1 <= b <= n,
                n == fields@.len(),
                forall|y: int|
                    a < y < b ==> (#[trigger] fields@[y]).0@ != fields@[a as int].0@,
            decreases n - b,
        {
            if fields[a].0 == fields[b].0 {
                proof {
                    assert(fields@[a as int].0@ == fields@[b as int].0@);
                }
                return false;
            }
            b = b + 1;
        }
        a = a + 1;
    }
    true
}

fn find_field<'a>(fields: &'a Vec<(String, String)>, name: &str) -> (r: Option<&'a String>)
    ensures
        match r {
            Option::Some(v) => exists|t: int|
                0 <= t < fields@.len() && (#[trigger] fields@[t]).0@ == name@ && fields@[t].1@
                    == v@,
            Option::None => forall|t: int|
                0 <= t < fields@.len() ==> (#[trigger] fields@[t]).0@ != name@,
        },
{
    let key_owned = name.to_owned();
    let n = fields.len();
    let mut t: usize = 0;
    while t < n
        invariant
            t <= n,
            n == fields@.len(),
            key_owned@ == name@,
            forall|x: int| 0 <= x < t ==> (#[trigger] fields@[x]).0@ != name@,
        decreases n - t,
    {
        if fields[t].0 == key_owned {
            return Option::Some(&fields[t].1);
        }
        t = t + 1;
    }
    Option::None
}

/// Parses the members of a frame object from `start`, mirroring
/// `spec_parse_members` with the same recursion bound.
#[verifier::rlimit(60)]
fn parse_members(s: &str, start: usize, n: usize) -> (r: Option<(Vec<(String, String)>, usize)>)
    requires
        n == s@.len(),
        start <= n,
    ensures
        match r {
            Option::Some(pair) => ({
                &&& spec_parse_members(s@, start as int, n as nat) matches Option::Some(sp)
                &&& sp.1 == pair.1 as int
                &&& pair.1 <= n
                &&& sp.0.len() == pair.0@.len()
                &&& forall|t: int|
                    0 <= t < sp.0.len() ==> (#[trigger] pair.0@[t]).0@ == sp.0[t].0
                        && pair.0@[t].1@ == sp.0[t].1
            }),
            Option::None => spec_parse_members(s@, start as int, n as nat) is None,
        },
{
    let mut fields: Vec<(String, String)> = Vec::new();
    let ghost mut gf: Seq<(Seq<char>, Seq<char>)> = Seq::empty();
    let mut i: usize = start;
    let mut fuel: usize = n;
    proof {
        assert(opt_prepend_fields(gf, spec_parse_members(s@, i as int, fuel as nat))
            == spec_parse_members(s@, i as int, fuel as nat)) by {
            match spec_parse_members(s@, i as int, fuel as nat) {
                Option::None => {
                },
                Option::Some(pair) => {
                    assert(Seq::<(Seq<char>, Seq<char>)>::empty() + pair.0 =~= pair.0);
                },
            }
        }
    }
    loop
        invariant
            n == s@.len(),
            i <= n,
            fuel <= n,
            gf.len() == fields@.len(),
            forall|t: int|
                0 <= t < gf.len() ==> (#[trigger] fields@[t]).0@ == gf[t].0 && fields@[t].1@
                    == gf[t].1,
            spec_parse_members(s@, start as int, n as nat) == opt_prepend_fields(
                gf,
                spec_parse_members(s@, i as int, fuel as nat),
            ),
        decreases fuel,
    {
        if fuel == 0 {
            proof {
                assert(spec_parse_members(s@, i as int, fuel as nat) is None);
            }
            return Option::None;
        }
        let ghost gf0 = gf;
        let (key, after_key) = match parse_string(s, i, n) {
            Option::Some(p) => p,
            Option::None => {
                proof {
                    assert(spec_parse_members(s@, i as int, fuel as nat) is None);
                }
                return Option::None;
            },
        };
        let j = skip_ws(s, after_key, n);
        if !(j < n && s.get_char(j) == ':') {
            proof {
                assert(spec_parse_members(s@, i as int, fuel as nat) is None);
            }
            return Option::None;
        }
        let j2 = skip_ws(s, j + 1, n);
        let (val, after_val) = match parse_string(s, j2, n) {
            Option::Some(p) => p,
            Option::None => {
                proof {
                    assert(spec_parse_members(s@, i as int, fuel as nat) is None);
                }
                return Option::None;
            },
        };
        let k = skip_ws(s, after_val, n);
        if k < n && s.get_char(k) == ',' {
            let nx = skip_ws(s, k + 1, n);
            proof {
                assert(spec_parse_members(s@, i as int, fuel as nat) == opt_prepend_field(
                    (key@, val@),
                    spec_parse_members(s@, nx as int, (fuel - 1) as nat),
                ));
                lemma_opt_prepend_fields_assoc(
                    gf0,
                    (key@, val@),
                    spec_parse_members(s@, nx as int, (fuel - 1) as nat),
                );
                gf = gf0.push((key@, val@));
            }
            fields.push((key, val));
            i = nx;
            fuel = fuel - 1;
        } else if k < n && s.get_char(k) == '}' {
            proof {
                assert(spec_parse_members(s@, i as int, fuel as nat) == Option::Some(
                    (seq![(key@, val@)], k + 1),
                ));
                assert(gf0 + seq![(key@, val@)] =~= gf0.push((key@, val@)));
                gf = gf0.push((key@, val@));
            }
            fields.push((key, val));
            return Option::Some((fields, k + 1));
        } else {
            proof {
                assert(spec_parse_members(s@, i as int, fuel as nat) is None);
            }
            return Option::None;
        }
    }
}

/// Parses a whole inbound frame into its fields.
fn parse_frame_fields(s: &str) -> (r: Option<Vec<(String, String)>>)
    ensures
        match r {
            Option::Some(fields) => ({
                &&& spec_parse_frame_fields(s@) matches Option::Some(fs)
                &&& fs.len() == fields@.len()
                &&& forall|t: int|
                    0 <= t < fs.len() ==> (#[trigger] fields@[t]).0@ == fs[t].0
                        && fields@[t].1@ == fs[t].1
            }),
            Option::None => spec_parse_frame_fields(s@) is None,
        },
{
    let n = s.unicode_len();
    let i = skip_ws(s, 0, n);
    if !(i < n && s.get_char(i) == '{') {
        return Option::None;
    }
    let j = skip_ws(s, i + 1, n);
    if j < n && s.get_char(j) == '}' {
        let e = skip_ws(s, j + 1, n);
        if e == n {
            let fields: Vec<(String, String)> = Vec::new();
            return Option::Some(fields);
        } else {
            return Option::None;
        }
    }
    match parse_members(s, j, n) {
        Option::None => Option::None,
        Option::Some(pair) => {
            let e2 = skip_ws(s, pair.1, n);
            if e2 == n {
                Option::Some(pair.0)
            } else {
                Option::None
            }
        },
    }
}

/// Parses a canonical UUID string into its 128-bit value.
#[verifier::rlimit(60)]
fn parse_uuid(v: &str) -> (r: Option<u128>)
    ensures
        r == spec_parse_uuid(v@),
{
    let n = v.unicode_len();
    if n != 36 {
        return Option::None;
    }
    if !(v.get_char(8) == '-' && v.get_char(13) == '-' && v.get_char(18) == '-' && v.get_char(23)
        == '-') {
        return Option::None;
    }
    let ghost digits = spec_uuid_digits(v@);
    proof {
        assert(digits.len() == 32);
        assert(digits.subrange(0, 0) =~= Seq::<char>::empty());
    }
    let mut acc: u128 = 0;
    let mut k: usize = 0;
    while k < 32
        invariant
            k <= 32,
            v@.len() == 36,
            v@[8] == '-' && v@[13] == '-' && v@[18] == '-' && v@[23] == '-',
            digits == spec_uuid_digits(v@),
            digits.len() == 32,
            Option::Some(acc) == spec_hex_acc(digits.subrange(0, k as int)),
        decreases 32 - k,
    {
        let pos: usize = if k < 8 {
            k
        } else if k < 12 {
            k + 1
        } else if k < 16 {
            k + 2
        } else if k < 20 {
            k + 3
        } else {
            k + 4
        };
        proof {
            assert(digits[k as int] == v@[pos as int]);
        }
        let d = match hex_char_val(v.get_char(pos)) {
            Option::Some(d) => d,
            Option::None => {
                proof {
                    lemma_hex_acc_none(digits, k as int);
                }
                return Option::None;
            },
        };
        proof {
            assert(digits.subrange(0, k + 1).drop_last() =~= digits.subrange(0, k as int));
            assert(digits.subrange(0, k + 1).last() == digits[k as int]);
            assert(Option::Some((acc << 4) | (d as u128)) == spec_hex_acc(
                digits.subrange(0, k + 1),
            ));
        }
        acc = (acc << 4) | (d as u128);
        k = k + 1;
    }
    proof {
        assert(digits.subrange(0, 32) =~= digits);
    }
    Option::Some(acc)
}

proof fn lemma_no_field(
    fields: Seq<(String, String)>,
    fs: Seq<(Seq<char>, Seq<char>)>,
    name: Seq<char>,
)
    requires
        fs.len() == fields.len(),
        forall|t: int|
            0 <= t < fs.len() ==> (#[trigger] fields[t]).0@ == fs[t].0 && fields[t].1@
                == fs[t].1,
        forall|t: int| 0 <= t < fields.len() ==> (#[trigger] fields[t]).0@ != name,
    ensures
        spec_field_val(fs, name) is None,
{
    if fields_has(fs, name) {
        let t = fields_index(fs, name);
        assert(0 <= t < fs.len() && fs[t].0 == name);
        assert(fields[t].0@ == name);
        assert(false);
    }
}

proof fn lemma_some_field(
    fields: Seq<(String, String)>,
    fs: Seq<(Seq<char>, Seq<char>)>,
    name: Seq<char>,
    v: String,
)
    requires
        fs.len() == fields.len(),
        forall|t: int|
            0 <= t < fs.len() ==> (#[trigger] fields[t]).0@ == fs[t].0 && fields[t].1@
                == fs[t].1,
        fields_no_dup(fs),
        exists|t: int|
            0 <= t < fields.len() && (#[trigger] fields[t]).0@ == name && fields[t].1@ == v@,
    ensures
        spec_field_val(fs, name) == Option::Some(v@),
{
    let t = choose|t: int|
        0 <= t < fields.len() && (#[trigger] fields[t]).0@ == name && fields[t].1@ == v@;
    assert(fs[t].0 == name && fs[t].1 == v@);
    lemma_field_val(fs, name, t);
}

proof fn lemma_distinct_bridge(fields: Seq<(String, String)>, fs: Seq<(Seq<char>, Seq<char>)>)
    requires
        fs.len() == fields.len(),
        forall|t: int|
            0 <= t < fs.len() ==> (#[trigger] fields[t]).0@ == fs[t].0 && fields[t].1@
                == fs[t].1,
    ensures
        fields_no_dup(fs) == (forall|a: int, b: int|
            0 <= a < b < fields.len() ==> (#[trigger] fields[a]).0@ != (
            #[trigger] fields[b]).0@),
{
    if forall|a: int, b: int|
        0 <= a < b < fields.len() ==> (#[trigger] fields[a]).0@ != (#[trigger] fields[b]).0@ {
        assert forall|a: int, b: int| 0 <= a < b < fs.len() implies (#[trigger] fs[a]).0
            != (#[trigger] fs[b]).0 by {
            assert(fields[a].0@ != fields[b].0@);
        }
    } else {
        let (a, b) = choose|a: int, b: int|
            0 <= a < b < fields.len() && (#[trigger] fields[a]).0@ == (
            #[trigger] fields[b]).0@;
        assert(fs[a].0 == fs[b].0);
        assert(!fields_no_dup(fs));
    }
}

/// Decodes one inbound frame: exactly the texts `spec_decode_client`
/// recognizes yield a message, and everything else is rejected.
#[verifier::rlimit(100)]
pub fn decode_client_message(s: &str) -> (r: Option<ClientMessage>)
    ensures
        match r {
            Option::Some(m) => spec_decode_client(s@) == Option::Some(frame_of(m)),
            Option::None => spec_decode_client(s@) is None,
        },
{
    let fields = match parse_frame_fields(s) {
        Option::Some(fields) => fields,
        Option::None => {
            return Option::None;
        },
    };
    let ghost fs = spec_parse_frame_fields(s@)->0;
    proof {
        lemma_distinct_bridge(fields@, fs);
    }
    if !fields_distinct(&fields) {
        return Option::None;
    }
    let tag = match find_field(&fields, "type") {
        Option::Some(v) => v,
        Option::None => {
            proof {
                lemma_no_field(fields@, fs, "type"@);
            }
            return Option::None;
        },
    };
    proof {
        lemma_some_field(fields@, fs, "type"@, *tag);
    }
    if *tag == "auth".to_owned() {
        let token = match find_field(&fields, "token") {
            Option::Some(v) => v,
            Option::None => {
                proof {
                    lemma_no_field(fields@, fs, "token"@);
                }
                return Option::None;
            },
        };
        proof {
            lemma_some_field(fields@, fs, "token"@, *token);
        }
        return Option::Some(ClientMessage::Auth { token: token.clone() });
    } else if *tag == "sendMessage".to_owned() {
        let cid = match find_field(&fields, "conversationId") {
            Option::Some(v) => v,
            Option::None => {
                proof {
                    lemma_no_field(fields@, fs, "conversationId"@);
                }
                return Option::None;
            },
        };
        proof {
            lemma_some_field(fields@, fs, "conversationId"@, *cid);
        }
        let content = match find_field(&fields, "content") {
            Option::Some(v) => v,
            Option::None => {
                proof {
                    lemma_no_field(fields@, fs, "content"@);
                }
                return Option::None;
            },
        };
        proof {
            lemma_some_field(fields@, fs, "content"@, *content);
        }
        match parse_uuid(cid.as_str()) {
            Option::None => {
                return Option::None;
            },
            Option::Some(conversation_id) => {
                return Option::Some(
                    ClientMessage::SendMessage { conversation_id, content: content.clone() },
                );
            },
        }
    } else if *tag == "joinConversation".to_owned() {
        match parse_conversation_id(&fields, Ghost(fs)) {
            Option::None => {
                return Option::None;
            },
            Option::Some(conversation_id) => {
                return Option::Some(ClientMessage::JoinConversation { conversation_id });
            },
        }
    } else if *tag == "leaveConversation".to_owned() {
        match parse_conversation_id(&fields, Ghost(fs)) {
            Option::None => {
                return Option::None;
            },
            Option::Some(conversation_id) => {
                return Option::Some(ClientMessage::LeaveConversation { conversation_id });
            },
        }
    } else if *tag == "typingStart".to_owned() {
        match parse_conversation_id(&fields, Ghost(fs)) {
            Option::None => {
                return Option::None;
            },
            Option::Some(conversation_id) => {
                return Option::Some(ClientMessage::TypingStart { conversation_id });
            },
        }
    } else if *tag == "typingStop".to_owned() {
        match parse_conversation_id(&fields, Ghost(fs)) {
            Option::None => {
                return Option::None;
            },
            Option::Some(conversation_id) => {
                return Option::Some(ClientMessage::TypingStop { conversation_id });
            },
        }
    } else if *tag == "ping".to_owned() {
        return Option::Some(ClientMessage::Ping);
    } else {
        return Option::None;
    }
}

/// The parsed `conversationId` field of a frame, when present and
/// well-formed.
fn parse_conversation_id(fields: &Vec<(String, String)>, Ghost(fs): Ghost<
    Seq<(Seq<char>, Seq<char>)>,
>) -> (r: Option<u128>)
    requires
        fs.len() == fields@.len(),
        forall|t: int|
            0 <= t < fs.len() ==> (#[trigger] fields@[t]).0@ == fs[t].0 && fields@[t].1@
                == fs[t].1,
        fields_no_dup(fs),
    ensures
        r == spec_conversation_id(fs),
{
    let cid = match find_field(fields, "conversationId") {
        Option::Some(v) => v,
        Option::None => {
            proof {
                lemma_no_field(fields@, fs, "conversationId"@);
            }
            return Option::None;
        },
    };
    proof {
        lemma_some_field(fields@, fs, "conversationId"@, *cid);
    }
    parse_uuid(cid.as_str())
}

proof fn lemma_hex_range_len(id: u128, a: int, b: int)
    requires
        a <= b,
    ensures
        spec_hex_range(id, a, b).len() == b - a,
    decreases b - a,
{
    if a < b {
        lemma_hex_range_len(id, a, b - 1);
    }
}

proof fn lemma_hex_range_concat(id: u128, a: int, b: int, c: int)
    requires
        a <= b <= c,
    ensures
        spec_hex_range(id, a, b) + spec_hex_range(id, b, c) == spec_hex_range(id, a, c),
    decreases c - b,
{
    if b == c {
        assert(spec_hex_range(id, a, b) + spec_hex_range(id, b, c) =~= spec_hex_range(id, a, c));
    } else {
        lemma_hex_range_concat(id, a, b, c - 1);
        assert(spec_hex_range(id, a, b) + spec_hex_range(id, b, c) =~= (spec_hex_range(id, a, b)
            + spec_hex_range(id, b, c - 1)).push(spec_hex_digit(spec_nibble(id, c - 1))));
    }
}

proof fn lemma_hex_digit_val(n: u128)
    requires
        n < 16,
    ensures
        spec_hex_char_val(spec_hex_digit(n)) == Option::Some(n as u8),
{
}

proof fn lemma_acc_prefix(id: u128, k: int)
    requires
        1 <= k <= 32,
    ensures
        spec_hex_acc(spec_hex_range(id, 0, k)) == Option::Some((id >> ((128 - 4 * k) as u128))),
    decreases k,
{
    let ds = spec_hex_range(id, 0, k);
    lemma_hex_range_len(id, 0, k);
    assert(ds.drop_last() =~= spec_hex_range(id, 0, k - 1));
    assert(ds.last() == spec_hex_digit(spec_nibble(id, k - 1)));
    let snib = (128 - 4 * k) as u128;
    assert(spec_nibble(id, k - 1) == (id >> snib) & 0xf);
    assert((id >> snib) & 0xf < 16) by (bit_vector);
    lemma_hex_digit_val(spec_nibble(id, k - 1));
    if k == 1 {
        assert(spec_hex_acc(spec_hex_range(id, 0, 0)) == Option::Some(0u128));
        assert((0u128 << 4) | ((id >> 124) & 0xf) == id >> 124) by (bit_vector);
    } else {
        lemma_acc_prefix(id, k - 1);
        let shi = (128 - 4 * (k - 1)) as u128;
        assert(((id >> shi) << 4) | ((id >> snib) & 0xf) == id >> snib) by (bit_vector)
            requires
                shi == snib + 4,
                snib <= 120,
        ;
    }
}

/// The identifier codec round-trips: the canonical UUID text of any id
/// parses back to that id.
pub proof fn lemma_uuid_roundtrip(id: u128)
    ensures
        spec_parse_uuid(spec_uuid(id)) == Option::Some(id),
{
    let v = spec_uuid(id);
    lemma_hex_range_len(id, 0, 8);
    lemma_hex_range_len(id, 8, 12);
    lemma_hex_range_len(id, 12, 16);
    lemma_hex_range_len(id, 16, 20);
    lemma_hex_range_len(id, 20, 32);
    assert(v.len() == 36);
    assert(v[8] == '-');
    assert(v[13] == '-');
    assert(v[18] == '-');
    assert(v[23] == '-');
    assert(v.subrange(0, 8) =~= spec_hex_range(id, 0, 8));
    assert(v.subrange(9, 13) =~= spec_hex_range(id, 8, 12));
    assert(v.subrange(14, 18) =~= spec_hex_range(id, 12, 16));
    assert(v.subrange(19, 23) =~= spec_hex_range(id, 16, 20));
    assert(v.subrange(24, 36) =~= spec_hex_range(id, 20, 32));
    lemma_hex_range_concat(id, 0, 8, 12);
    lemma_hex_range_concat(id, 0, 12, 16);
    lemma_hex_range_concat(id, 0, 16, 20);
    lemma_hex_range_concat(id, 0, 20, 32);
    assert(spec_uuid_digits(v) =~= spec_hex_range(id, 0, 32));
    lemma_acc_prefix(id, 32);
    assert(id >> 0u128 == id) by (bit_vector);
}

} // verus!
