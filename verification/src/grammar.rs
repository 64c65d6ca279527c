//! The dogs-document format, defined mathematically.
//!
//! A document is a JSON array of objects, each with exactly the two
//! string fields `name` and `breed`, in either order. Rejecting any
//! further member is a deliberate narrowing: the record has no other
//! fields, and skipping arbitrary foreign values would admit documents
//! well outside the data model. The functions
//! here are the format's definition: [`json_of_dogs`] gives the canonical
//! text of a collection, and [`parse_doc`] says which texts are
//! well-formed and what collection each denotes. The executable encoder
//! and parser are proved against these definitions.
//!
//! Strings are JSON strings: the short escapes `\" \\ \/ \b \f \n \r \t`,
//! numeric `\uXXXX` escapes (code points outside the basic plane as a
//! surrogate pair), and raw characters for everything else except the
//! quote, the backslash, and the control characters, which must be
//! escaped.

use vstd::prelude::*;
use crate::dog::DogView;

verus! {

/// The characters treated as insignificant whitespace between tokens.
pub open spec fn is_ws(c: char) -> bool {
    c == ' ' || c == '\t' || c == '\n' || c == '\r'
}

/// The input with its leading whitespace removed.
pub open spec fn skip_ws(s: Seq<char>) -> Seq<char>
    decreases s.len(),
{
    if s.len() > 0 && is_ws(s[0]) {
        skip_ws(s.skip(1))
    } else {
        s
    }
}

/// The key naming a dog's name field.
pub open spec fn name_key() -> Seq<char> {
    seq!['n', 'a', 'm', 'e']
}

/// The key naming a dog's breed field.
pub open spec fn breed_key() -> Seq<char> {
    seq!['b', 'r', 'e', 'e', 'd']
}

// ---------------------------------------------------------------------
// Serialization: the canonical text of a collection.
// ---------------------------------------------------------------------

/// The numeric value of one hexadecimal digit, upper or lower case.
pub open spec fn hex_val(c: char) -> Option<u32> {
    let v = c as u32;
    if 48 <= v <= 57 {
        Some((v - 48) as u32)
    } else if 97 <= v <= 102 {
        Some((v - 87) as u32)
    } else if 65 <= v <= 70 {
        Some((v - 55) as u32)
    } else {
        None
    }
}

/// The code point written by the four hexadecimal digits that `s` opens
/// with, if it opens with four such digits.
pub open spec fn hex4(s: Seq<char>) -> Option<u32> {
    if s.len() >= 4 {
        match (hex_val(s[0]), hex_val(s[1]), hex_val(s[2]), hex_val(s[3])) {
            (Some(a), Some(b), Some(c), Some(d)) => Some(
                (a * 4096 + b * 256 + c * 16 + d) as u32,
            ),
            _ => None,
        }
    } else {
        None
    }
}

/// The lower-case hexadecimal digit writing the value `d`.
pub open spec fn hex_digit(d: int) -> char {
    if d < 10 {
        ((48 + d) as u8) as char
    } else {
        ((87 + d) as u8) as char
    }
}

/// The text standing for one character inside a quoted string.
pub open spec fn esc_char(c: char) -> Seq<char> {
    if c == '"' {
        seq!['\\', '"']
    } else if c == '\\' {
        seq!['\\', '\\']
    } else if c == '\u{8}' {
        seq!['\\', 'b']
    } else if c == '\u{c}' {
        seq!['\\', 'f']
    } else if c == '\n' {
        seq!['\\', 'n']
    } else if c == '\r' {
        seq!['\\', 'r']
    } else if c == '\t' {
        seq!['\\', 't']
    } else if (c as u32) < 32 {
        seq!['\\', 'u', '0', '0', hex_digit((c as u32) as int / 16), hex_digit((c as u32) as int % 16)]
    } else {
        seq![c]
    }
}

/// The text standing for a string's characters, escapes applied.
pub open spec fn json_of_content(t: Seq<char>) -> Seq<char>
    decreases t.len(),
{
    if t.len() == 0 {
        Seq::<char>::empty()
    } else {
        esc_char(t[0]) + json_of_content(t.skip(1))
    }
}

/// The text of one quoted string.
pub open spec fn json_of_string(t: Seq<char>) -> Seq<char> {
    seq!['"'] + json_of_content(t) + seq!['"']
}

/// The text of one dog object, fields in canonical order.
pub open spec fn json_of_dog(d: DogView) -> Seq<char> {
    seq!['{'] + json_of_string(name_key()) + seq![':'] + json_of_string(d.name) + seq![',']
        + json_of_string(breed_key()) + seq![':'] + json_of_string(d.breed) + seq!['}']
}

/// The text of every dog after the first, each behind a comma.
pub open spec fn json_of_dogs_rest(ds: Seq<DogView>) -> Seq<char>
    decreases ds.len(),
{
    if ds.len() == 0 {
        Seq::<char>::empty()
    } else {
        seq![','] + json_of_dog(ds[0]) + json_of_dogs_rest(ds.skip(1))
    }
}

/// The canonical text of a whole collection.
pub open spec fn json_of_dogs(ds: Seq<DogView>) -> Seq<char> {
    if ds.len() == 0 {
        seq!['[', ']']
    } else {
        seq!['['] + json_of_dog(ds[0]) + json_of_dogs_rest(ds.skip(1)) + seq![']']
    }
}

// ---------------------------------------------------------------------
// Parsing: which texts are well-formed, and what they denote.
// Each function consumes a prefix of its input and yields the value
// denoted together with the remaining suffix, or nothing on a
// malformed prefix.
// ---------------------------------------------------------------------

/// The character denoted by the escape that `s` opens with (the text
/// after a backslash), with the rest of the input.
pub open spec fn parse_escape(s: Seq<char>) -> Option<(char, Seq<char>)> {
    if s.len() == 0 {
        None
    } else if s[0] == '"' || s[0] == '\\' || s[0] == '/' {
        Some((s[0], s.skip(1)))
    } else if s[0] == 'b' {
        Some(('\u{8}', s.skip(1)))
    } else if s[0] == 'f' {
        Some(('\u{c}', s.skip(1)))
    } else if s[0] == 'n' {
        Some(('\n', s.skip(1)))
    } else if s[0] == 'r' {
        Some(('\r', s.skip(1)))
    } else if s[0] == 't' {
        Some(('\t', s.skip(1)))
    } else if s[0] == 'u' {
        match hex4(s.skip(1)) {
            Some(code) => if 0xD800 <= code < 0xDC00 {
                // a high surrogate must pair with an escaped low surrogate
                let r = s.skip(5);
                if r.len() >= 2 && r[0] == '\\' && r[1] == 'u' {
                    match hex4(r.skip(2)) {
                        Some(code2) => if 0xDC00 <= code2 < 0xE000 {
                            Some(
                                (
                                    ((0x10000 + (code - 0xD800) * 0x400 + (code2 - 0xDC00)) as u32)
                                        as char,
                                    r.skip(6),
                                ),
                            )
                        } else {
                            None
                        },
                        None => None,
                    }
                } else {
                    None
                }
            } else if 0xDC00 <= code < 0xE000 {
                // a lone low surrogate writes no character
                None
            } else {
                Some((code as char, s.skip(5)))
            },
            None => None,
        }
    } else {
        None
    }
}

/// The characters of a quoted string after its opening quote, up to and
/// including the closing quote. The guard on the recursive call only
/// restates that an escape consumes input, which keeps the recursion
/// visibly bounded.
pub open spec fn parse_string_rest(s: Seq<char>) -> Option<(Seq<char>, Seq<char>)>
    decreases s.len(),
{
    if s.len() == 0 {
        None
    } else if s[0] == '"' {
        Some((Seq::<char>::empty(), s.skip(1)))
    } else if s[0] == '\\' {
        match parse_escape(s.skip(1)) {
            Some((c, r)) => if r.len() < s.len() {
                match parse_string_rest(r) {
                    Some((t, r2)) => Some((seq![c] + t, r2)),
                    None => None,
                }
            } else {
                None
            },
            None => None,
        }
    } else if (s[0] as u32) >= 32 {
        match parse_string_rest(s.skip(1)) {
            Some((t, r2)) => Some((seq![s[0]] + t, r2)),
            None => None,
        }
    } else {
        // raw control characters are not string content
        None
    }
}

/// One quoted string.
pub open spec fn parse_string(s: Seq<char>) -> Option<(Seq<char>, Seq<char>)> {
    if s.len() > 0 && s[0] == '"' {
        parse_string_rest(s.skip(1))
    } else {
        None
    }
}

/// One `"key": "value"` member of an object.
pub open spec fn parse_member(s: Seq<char>) -> Option<((Seq<char>, Seq<char>), Seq<char>)> {
    match parse_string(s) {
        Some((k, r)) => {
            let r1 = skip_ws(r);
            if r1.len() > 0 && r1[0] == ':' {
                match parse_string(skip_ws(r1.skip(1))) {
                    Some((v, r2)) => Some(((k, v), r2)),
                    None => None,
                }
            } else {
                None
            }
        },
        None => None,
    }
}

/// The dog described by two members, which must carry the keys `name`
/// and `breed` in some order; any other pair of keys describes nothing.
pub open spec fn dog_of_members(
    k1: Seq<char>,
    v1: Seq<char>,
    k2: Seq<char>,
    v2: Seq<char>,
) -> Option<DogView> {
    if k1 == name_key() && k2 == breed_key() {
        Some(DogView { name: v1, breed: v2 })
    } else if k1 == breed_key() && k2 == name_key() {
        Some(DogView { name: v2, breed: v1 })
    } else {
        None
    }
}

/// One dog object: exactly two members between braces.
pub open spec fn parse_dog(s: Seq<char>) -> Option<(DogView, Seq<char>)> {
    if s.len() > 0 && s[0] == '{' {
        match parse_member(skip_ws(s.skip(1))) {
            Some(((k1, v1), r1)) => {
                let r2 = skip_ws(r1);
                if r2.len() > 0 && r2[0] == ',' {
                    match parse_member(skip_ws(r2.skip(1))) {
                        Some(((k2, v2), r4)) => {
                            let r5 = skip_ws(r4);
                            if r5.len() > 0 && r5[0] == '}' {
                                match dog_of_members(k1, v1, k2, v2) {
                                    Some(d) => Some((d, r5.skip(1))),
                                    None => None,
                                }
                            } else {
                                None
                            }
                        },
                        None => None,
                    }
                } else {
                    None
                }
            },
            None => None,
        }
    } else {
        None
    }
}

/// The dogs after the first element of an array, each behind a comma,
/// up to and including the closing bracket. The guard on the recursive
/// call only restates that an element consumes input.
pub open spec fn parse_dogs_rest(s: Seq<char>) -> Option<(Seq<DogView>, Seq<char>)>
    decreases s.len(),
{
    let r = skip_ws(s);
    if r.len() > 0 && r[0] == ']' {
        Some((Seq::<DogView>::empty(), r.skip(1)))
    } else if r.len() > 0 && r[0] == ',' {
        match parse_dog(skip_ws(r.skip(1))) {
            Some((d, r2)) => if r2.len() < s.len() {
                match parse_dogs_rest(r2) {
                    Some((ds, r3)) => Some((seq![d] + ds, r3)),
                    None => None,
                }
            } else {
                None
            },
            None => None,
        }
    } else {
        None
    }
}

/// One array of dogs between brackets.
pub open spec fn parse_dogs(s: Seq<char>) -> Option<(Seq<DogView>, Seq<char>)> {
    if s.len() > 0 && s[0] == '[' {
        let r0 = skip_ws(s.skip(1));
        if r0.len() > 0 && r0[0] == ']' {
            Some((Seq::<DogView>::empty(), r0.skip(1)))
        } else {
            match parse_dog(r0) {
                Some((d, r1)) => match parse_dogs_rest(r1) {
                    Some((ds, r2)) => Some((seq![d] + ds, r2)),
                    None => None,
                },
                None => None,
            }
        }
    } else {
        None
    }
}

/// A whole document: one array, possibly surrounded by whitespace and
/// nothing else. This is the format's acceptance criterion: a text is a
/// well-formed dogs document exactly when this yields a collection.
pub open spec fn parse_doc(s: Seq<char>) -> Option<Seq<DogView>> {
    match parse_dogs(skip_ws(s)) {
        Some((ds, r)) => if skip_ws(r).len() == 0 {
            Some(ds)
        } else {
            None
        },
        None => None,
    }
}

} // verus!
