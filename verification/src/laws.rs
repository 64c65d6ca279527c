//! Proofs that parsing inverts serialization: the canonical text of any
//! collection of dogs is a well-formed document denoting that same
//! collection.

use vstd::prelude::*;
use crate::dog::DogView;
use crate::grammar::{
    breed_key, dog_of_members, esc_char, hex4, hex_digit, hex_val, json_of_content, json_of_dog,
    json_of_dogs, json_of_dogs_rest, json_of_string, name_key, parse_dog, parse_dogs,
    parse_dogs_rest, parse_doc, parse_escape, parse_member, parse_string, parse_string_rest,
    skip_ws,
};

verus! {

/// A parsed escape step: a backslash, the escape character `e`, and then
/// input whose string body parses, together parse to the escaped
/// character in front of that body.
proof fn lemma_rest_step_escape(e: char, c: char, s1: Seq<char>, t1: Seq<char>, r2: Seq<char>)
    requires
        parse_escape(seq![e] + s1) == Some((c, s1)),
        parse_string_rest(s1) == Some((t1, r2)),
    ensures
        parse_string_rest(seq!['\\', e] + s1) == Some((seq![c] + t1, r2)),
{
    let s = seq!['\\', e] + s1;
    assert(s[0] == '\\');
    assert(s.skip(1) =~= seq![e] + s1);
    assert(s1.len() < s.len());
}

/// A parsed numeric escape step: a backslash, `u`, and four hex digits
/// denoting the character `c`, in front of a parsing string body.
proof fn lemma_rest_step_uescape(
    c: char,
    h: char,
    l: char,
    s1: Seq<char>,
    t1: Seq<char>,
    r2: Seq<char>,
)
    requires
        parse_escape(seq!['u', '0', '0', h, l] + s1) == Some((c, s1)),
        parse_string_rest(s1) == Some((t1, r2)),
    ensures
        parse_string_rest(seq!['\\', 'u', '0', '0', h, l] + s1) == Some((seq![c] + t1, r2)),
{
    let s = seq!['\\', 'u', '0', '0', h, l] + s1;
    assert(s[0] == '\\');
    assert(s.skip(1) =~= seq!['u', '0', '0', h, l] + s1);
    assert(s1.len() < s.len());
}

/// A hexadecimal digit written by [`hex_digit`] reads back as its value.
proof fn lemma_hex_digit_val(d: int)
    requires
        0 <= d < 16,
    ensures
        hex_val(hex_digit(d)) == Some(d as u32),
{
}

/// A raw character step: any character other than a quote, a backslash
/// or a control character stands for itself in front of a parsing
/// string body.
proof fn lemma_rest_step_raw(c: char, s1: Seq<char>, t1: Seq<char>, r2: Seq<char>)
    requires
        c != '"',
        c != '\\',
        (c as u32) >= 32,
        parse_string_rest(s1) == Some((t1, r2)),
    ensures
        parse_string_rest(seq![c] + s1) == Some((seq![c] + t1, r2)),
{
    let s = seq![c] + s1;
    assert(s[0] == c);
    assert(s.skip(1) =~= s1);
}

/// A control character's `\u00XX` escape text parses back to that
/// character, leaving the rest of the input.
proof fn lemma_control_escape(c: char, s1: Seq<char>)
    requires
        (c as u32) < 32,
    ensures
        parse_escape(
            seq!['u', '0', '0', hex_digit((c as u32) as int / 16), hex_digit(
                (c as u32) as int % 16,
            )] + s1,
        ) == Some((c, s1)),
{
    let v = c as u32;
    let h = hex_digit(v as int / 16);
    let l = hex_digit(v as int % 16);
    let e4 = seq!['0', '0', h, l] + s1;
    assert((seq!['u', '0', '0', h, l] + s1)[0] == 'u');
    assert((seq!['u', '0', '0', h, l] + s1).skip(1) =~= e4);
    assert(e4[0] == '0' && e4[1] == '0' && e4[2] == h && e4[3] == l);
    assert(hex_val('0') == Some(0u32));
    lemma_hex_digit_val(v as int / 16);
    lemma_hex_digit_val(v as int % 16);
    assert(hex4(e4) == Some(v)) by {
        assert(v / 16 * 16 + v % 16 == v);
    }
    assert((seq!['u', '0', '0', h, l] + s1).skip(5) =~= s1);
    assert(v as char == c) by {
        vstd::utf8::char_u32_cast(c, v);
    }
}

/// One character's escape text in front of a parsing string body parses
/// back to that character in front of the body's characters.
#[verifier::rlimit(100)]
proof fn lemma_esc_step(c: char, s1: Seq<char>, t1: Seq<char>, r2: Seq<char>)
    requires
        parse_string_rest(s1) == Some((t1, r2)),
    ensures
        parse_string_rest(esc_char(c) + s1) == Some((seq![c] + t1, r2)),
{
    if c == '"' {
        assert((seq!['"'] + s1)[0] == '"');
        assert((seq!['"'] + s1).skip(1) =~= s1);
        lemma_rest_step_escape('"', '"', s1, t1, r2);
    } else if c == '\\' {
        assert((seq!['\\'] + s1)[0] == '\\');
        assert((seq!['\\'] + s1).skip(1) =~= s1);
        lemma_rest_step_escape('\\', '\\', s1, t1, r2);
    } else if c == '\u{8}' {
        assert((seq!['b'] + s1)[0] == 'b');
        assert((seq!['b'] + s1).skip(1) =~= s1);
        lemma_rest_step_escape('b', '\u{8}', s1, t1, r2);
    } else if c == '\u{c}' {
        assert((seq!['f'] + s1)[0] == 'f');
        assert((seq!['f'] + s1).skip(1) =~= s1);
        lemma_rest_step_escape('f', '\u{c}', s1, t1, r2);
    } else if c == '\n' {
        assert((seq!['n'] + s1)[0] == 'n');
        assert((seq!['n'] + s1).skip(1) =~= s1);
        lemma_rest_step_escape('n', '\n', s1, t1, r2);
    } else if c == '\r' {
        assert((seq!['r'] + s1)[0] == 'r');
        assert((seq!['r'] + s1).skip(1) =~= s1);
        lemma_rest_step_escape('r', '\r', s1, t1, r2);
    } else if c == '\t' {
        assert((seq!['t'] + s1)[0] == 't');
        assert((seq!['t'] + s1).skip(1) =~= s1);
        lemma_rest_step_escape('t', '\t', s1, t1, r2);
    } else if (c as u32) < 32 {
        let v = c as u32;
        let h = hex_digit(v as int / 16);
        let l = hex_digit(v as int % 16);
        assert(esc_char(c) == seq!['\\', 'u', '0', '0', h, l]);
        lemma_control_escape(c, s1);
        lemma_rest_step_uescape(c, h, l, s1, t1, r2);
    } else {
        assert(esc_char(c) == seq![c]);
        lemma_rest_step_raw(c, s1, t1, r2);
    }
}

/// Escaped string contents followed by a closing quote parse back to the
/// original characters, leaving exactly what followed the quote.
proof fn lemma_content_roundtrip(t: Seq<char>, rest: Seq<char>)
    ensures
        parse_string_rest(json_of_content(t) + seq!['"'] + rest) == Some((t, rest)),
    decreases t.len(),
{
    if t.len() == 0 {
        let s = json_of_content(t) + seq!['"'] + rest;
        assert(s =~= seq!['"'] + rest);
        assert(s[0] == '"');
        assert(s.skip(1) =~= rest);
    } else {
        let c = t[0];
        let t1 = t.skip(1);
        let s1 = json_of_content(t1) + seq!['"'] + rest;
        lemma_content_roundtrip(t1, rest);
        assert(json_of_content(t) + seq!['"'] + rest =~= esc_char(c) + s1);
        lemma_esc_step(c, s1, t1, rest);
        assert(seq![c] + t1 =~= t);
    }
}

/// A serialized string parses back to its characters, leaving exactly
/// what followed it.
proof fn lemma_string_roundtrip(t: Seq<char>, rest: Seq<char>)
    ensures
        parse_string(json_of_string(t) + rest) == Some((t, rest)),
{
    let s = json_of_string(t) + rest;
    assert(s =~= seq!['"'] + (json_of_content(t) + seq!['"'] + rest));
    assert(s[0] == '"');
    assert(s.skip(1) =~= json_of_content(t) + seq!['"'] + rest);
    lemma_content_roundtrip(t, rest);
}

/// A serialized `"key":"value"` member parses back to that pair.
proof fn lemma_member_roundtrip(k: Seq<char>, v: Seq<char>, rest: Seq<char>)
    ensures
        parse_member(json_of_string(k) + seq![':'] + json_of_string(v) + rest) == Some(
            ((k, v), rest),
        ),
{
    let r = seq![':'] + json_of_string(v) + rest;
    let s = json_of_string(k) + seq![':'] + json_of_string(v) + rest;
    assert(s =~= json_of_string(k) + r);
    lemma_string_roundtrip(k, r);
    assert(r[0] == ':');
    assert(skip_ws(r) == r);
    let r2 = json_of_string(v) + rest;
    assert(r.skip(1) =~= r2);
    assert(r2[0] == '"');
    assert(skip_ws(r2) == r2);
    lemma_string_roundtrip(v, rest);
}

/// A serialized dog object parses back to that dog, leaving exactly
/// what followed it.
#[verifier::rlimit(100)]
proof fn lemma_dog_roundtrip(d: DogView, rest: Seq<char>)
    ensures
        parse_dog(json_of_dog(d) + rest) == Some((d, rest)),
{
    let s = json_of_dog(d) + rest;
    let tail2 = seq!['}'] + rest;
    let m2 = json_of_string(breed_key()) + seq![':'] + json_of_string(d.breed) + tail2;
    let tail1 = seq![','] + m2;
    let m1 = json_of_string(name_key()) + seq![':'] + json_of_string(d.name) + tail1;
    assert(s =~= seq!['{'] + m1);
    assert(s[0] == '{');
    assert(s.skip(1) =~= m1);
    assert(m1[0] == '"');
    assert(skip_ws(m1) == m1);
    lemma_member_roundtrip(name_key(), d.name, tail1);
    assert(tail1[0] == ',');
    assert(skip_ws(tail1) == tail1);
    assert(tail1.skip(1) =~= m2);
    assert(m2[0] == '"');
    assert(skip_ws(m2) == m2);
    lemma_member_roundtrip(breed_key(), d.breed, tail2);
    assert(tail2[0] == '}');
    assert(skip_ws(tail2) == tail2);
    assert(tail2.skip(1) =~= rest);
    assert(dog_of_members(name_key(), d.name, breed_key(), d.breed) == Some(
        DogView { name: d.name, breed: d.breed },
    ));
    assert(DogView { name: d.name, breed: d.breed } =~= d);
}

/// The serialized tail of an array (comma-separated dogs after the
/// first, then the closing bracket) parses back to those dogs.
#[verifier::rlimit(60)]
proof fn lemma_dogs_rest_roundtrip(ds: Seq<DogView>, rest: Seq<char>)
    ensures
        parse_dogs_rest(json_of_dogs_rest(ds) + seq![']'] + rest) == Some((ds, rest)),
    decreases ds.len(),
{
    let s = json_of_dogs_rest(ds) + seq![']'] + rest;
    if ds.len() == 0 {
        assert(s =~= seq![']'] + rest);
        assert(s[0] == ']');
        assert(skip_ws(s) == s);
        assert(s.skip(1) =~= rest);
        assert(Seq::<DogView>::empty() =~= ds);
    } else {
        let d = ds[0];
        let ds1 = ds.skip(1);
        let s1 = json_of_dogs_rest(ds1) + seq![']'] + rest;
        assert(s =~= seq![','] + (json_of_dog(d) + s1));
        assert(s[0] == ',');
        assert(skip_ws(s) == s);
        assert(s.skip(1) =~= json_of_dog(d) + s1);
        assert((json_of_dog(d) + s1)[0] == '{');
        assert(skip_ws(json_of_dog(d) + s1) == json_of_dog(d) + s1);
        lemma_dog_roundtrip(d, s1);
        assert(s1.len() < s.len());
        lemma_dogs_rest_roundtrip(ds1, rest);
        assert(seq![d] + ds1 =~= ds);
    }
}

/// A serialized empty array parses back to the empty collection.
#[verifier::rlimit(100)]
proof fn lemma_dogs_roundtrip_empty(ds: Seq<DogView>, rest: Seq<char>)
    requires
        ds.len() == 0,
    ensures
        parse_dogs(json_of_dogs(ds) + rest) == Some((ds, rest)),
{
    let s = json_of_dogs(ds) + rest;
    assert(s =~= seq!['['] + (seq![']'] + rest));
    assert(s[0] == '[');
    assert(s.skip(1) =~= seq![']'] + rest);
    assert((seq![']'] + rest)[0] == ']');
    assert(skip_ws(seq![']'] + rest) == seq![']'] + rest);
    assert((seq![']'] + rest).skip(1) =~= rest);
    assert(Seq::<DogView>::empty() =~= ds);
}

/// A serialized non-empty array parses back to its collection.
#[verifier::rlimit(100)]
proof fn lemma_dogs_roundtrip_full(ds: Seq<DogView>, rest: Seq<char>)
    requires
        ds.len() > 0,
    ensures
        parse_dogs(json_of_dogs(ds) + rest) == Some((ds, rest)),
{
    let s = json_of_dogs(ds) + rest;
    let d = ds[0];
    let ds1 = ds.skip(1);
    let rest1 = json_of_dogs_rest(ds1) + seq![']'] + rest;
    assert(s =~= seq!['['] + (json_of_dog(d) + rest1));
    assert(s[0] == '[');
    assert(s.skip(1) =~= json_of_dog(d) + rest1);
    assert((json_of_dog(d) + rest1)[0] == '{');
    assert(skip_ws(json_of_dog(d) + rest1) == json_of_dog(d) + rest1);
    lemma_dog_roundtrip(d, rest1);
    lemma_dogs_rest_roundtrip(ds1, rest);
    assert(seq![d] + ds1 =~= ds);
}

/// A serialized array of dogs parses back to that collection, leaving
/// exactly what followed it.
proof fn lemma_dogs_roundtrip(ds: Seq<DogView>, rest: Seq<char>)
    ensures
        parse_dogs(json_of_dogs(ds) + rest) == Some((ds, rest)),
{
    if ds.len() == 0 {
        lemma_dogs_roundtrip_empty(ds, rest);
    } else {
        lemma_dogs_roundtrip_full(ds, rest);
    }
}

/// Round trip: the canonical text of any collection of dogs is a
/// well-formed document, and parsing it yields an equal collection.
pub proof fn lemma_round_trip(ds: Seq<DogView>)
    ensures
        parse_doc(json_of_dogs(ds)) == Some(ds),
{
    let j = json_of_dogs(ds);
    assert(j[0] == '[');
    assert(skip_ws(j) == j);
    lemma_dogs_roundtrip(ds, Seq::<char>::empty());
    assert(j + Seq::<char>::empty() =~= j);
    assert(skip_ws(Seq::<char>::empty()).len() == 0);
}

} // verus!
