//! The executable encoder and parser for the dogs-document format, each
//! proved against the format's definition in [`crate::grammar`].

use vstd::prelude::*;
use vstd::string::{StrSliceExecFns, StringExecFns};
use crate::dog::{views_of, Dog, DogView};
use crate::error::JsonError;
use crate::grammar::{
    breed_key, esc_char, hex4, hex_digit, hex_val, is_ws, json_of_content, json_of_dog,
    json_of_dogs, json_of_dogs_rest, json_of_string, name_key, parse_dog, parse_dogs,
    parse_dogs_rest, parse_doc, parse_escape, parse_member, parse_string, parse_string_rest,
    skip_ws,
};

verus! {

/// Relies on `String::push`: appends the given character at the end of
/// the string and changes nothing else.
#[verifier::external_body]
pub(crate) fn push_char(s: &mut String, c: char)
    ensures
        final(s)@ == old(s)@ + seq![c],
{
    s.push(c);
}

/// Relies on `char::from_u32`: a code point below the surrogate range,
/// or above it and at most 0x10FFFF, is a scalar value, and the call
/// yields the character with exactly that code point.
#[verifier::external_body]
fn char_from_code(v: u32) -> (c: char)
    requires
        v < 0xD800 || (0xE000 <= v && v <= 0x10FFFF),
    ensures
        c as u32 == v,
        c == v as char,
{
    char::from_u32(v).unwrap()
}

/// The lower-case hexadecimal digit writing the value `d`.
fn hex_digit_exec(d: u32) -> (r: char)
    requires
        d < 16,
    ensures
        r == hex_digit(d as int),
{
    if d < 10 {
        ((48 + d) as u8) as char
    } else {
        ((87 + d) as u8) as char
    }
}

/// The numeric value of one hexadecimal digit, upper or lower case.
fn hex_val_exec(c: char) -> (r: Option<u32>)
    ensures
        r == hex_val(c),
        r is Some ==> r->Some_0 < 16,
{
    let v = c as u32;
    if 48 <= v && v <= 57 {
        Some(v - 48)
    } else if 97 <= v && v <= 102 {
        Some(v - 87)
    } else if 65 <= v && v <= 70 {
        Some(v - 55)
    } else {
        None
    }
}

/// Scans four hexadecimal digits as a code point.
fn scan_hex4(s: &str, n: usize, i: usize) -> (r: Option<u32>)
    requires
        n == s@.len(),
        i <= n,
    ensures
        r == hex4(s@.skip(i as int)),
        r is Some ==> i + 4 <= n && r->Some_0 < 0x10000,
{
    if n - i < 4 {
        assert(s@.skip(i as int).len() < 4);
        return None;
    }
    let c0 = s.get_char(i);
    let c1 = s.get_char(i + 1);
    let c2 = s.get_char(i + 2);
    let c3 = s.get_char(i + 3);
    assert(s@.skip(i as int)[0] == c0);
    assert(s@.skip(i as int)[1] == c1);
    assert(s@.skip(i as int)[2] == c2);
    assert(s@.skip(i as int)[3] == c3);
    let v0 = match hex_val_exec(c0) {
        Some(x) => x,
        None => {
            return None;
        },
    };
    let v1 = match hex_val_exec(c1) {
        Some(x) => x,
        None => {
            return None;
        },
    };
    let v2 = match hex_val_exec(c2) {
        Some(x) => x,
        None => {
            return None;
        },
    };
    let v3 = match hex_val_exec(c3) {
        Some(x) => x,
        None => {
            return None;
        },
    };
    Some(v0 * 4096 + v1 * 256 + v2 * 16 + v3)
}

/// Splitting escaped contents splits their escaped text.
proof fn lemma_content_append(a: Seq<char>, b: Seq<char>)
    ensures
        json_of_content(a + b) == json_of_content(a) + json_of_content(b),
    decreases a.len(),
{
    if a.len() == 0 {
        assert(a + b =~= b);
        assert(json_of_content(a) + json_of_content(b) =~= json_of_content(b));
    } else {
        lemma_content_append(a.skip(1), b);
        assert((a + b)[0] == a[0]);
        assert((a + b).skip(1) =~= a.skip(1) + b);
        assert(esc_char(a[0]) + (json_of_content(a.skip(1)) + json_of_content(b)) =~= (esc_char(
            a[0],
        ) + json_of_content(a.skip(1))) + json_of_content(b));
    }
}

/// Appends the escape text of one character.
fn push_escaped(out: &mut String, c: char)
    ensures
        final(out)@ == old(out)@ + esc_char(c),
{
    if c == '"' {
        push_char(out, '\\');
        push_char(out, '"');
    } else if c == '\\' {
        push_char(out, '\\');
        push_char(out, '\\');
    } else if c == '\u{8}' {
        push_char(out, '\\');
        push_char(out, 'b');
    } else if c == '\u{c}' {
        push_char(out, '\\');
        push_char(out, 'f');
    } else if c == '\n' {
        push_char(out, '\\');
        push_char(out, 'n');
    } else if c == '\r' {
        push_char(out, '\\');
        push_char(out, 'r');
    } else if c == '\t' {
        push_char(out, '\\');
        push_char(out, 't');
    } else {
        let v = c as u32;
        if v < 32 {
            push_char(out, '\\');
            push_char(out, 'u');
            push_char(out, '0');
            push_char(out, '0');
            push_char(out, hex_digit_exec(v / 16));
            push_char(out, hex_digit_exec(v % 16));
        } else {
            push_char(out, c);
        }
    }
    assert(final(out)@ =~= old(out)@ + esc_char(c));
}

/// Appends one quoted string, escapes applied.
fn push_string(out: &mut String, t: &str)
    ensures
        final(out)@ == old(out)@ + json_of_string(t@),
{
    let ghost out0 = out@;
    push_char(out, '"');
    let n = t.unicode_len();
    let mut k: usize = 0;
    while k < n
        invariant
            k <= n,
            n == t@.len(),
            out@ == out0 + seq!['"'] + json_of_content(t@.take(k as int)),
        decreases n - k,
    {
        let c = t.get_char(k);
        push_escaped(out, c);
        proof {
            lemma_content_append(t@.take(k as int), seq![c]);
            assert(t@.take(k as int + 1) =~= t@.take(k as int) + seq![c]);
            reveal_with_fuel(json_of_content, 2);
            assert(seq![c].skip(1) =~= Seq::<char>::empty());
            assert(json_of_content(seq![c]) =~= esc_char(c));
            assert(out0 + seq!['"'] + json_of_content(t@.take(k as int + 1)) =~= (out0 + seq!['"']
                + json_of_content(t@.take(k as int))) + esc_char(c));
        }
        k = k + 1;
    }
    push_char(out, '"');
    proof {
        assert(t@.take(n as int) =~= t@);
        assert(out0 + json_of_string(t@) =~= (out0 + seq!['"'] + json_of_content(t@)) + seq!['"']);
    }
}

/// Appends the text of one dog object.
fn push_dog(out: &mut String, d: &Dog)
    ensures
        final(out)@ == old(out)@ + json_of_dog(d@),
{
    let ghost out0 = out@;
    proof {
        reveal_strlit("name");
        reveal_strlit("breed");
    }
    push_char(out, '{');
    push_string(out, "name");
    push_char(out, ':');
    push_string(out, d.name.as_str());
    push_char(out, ',');
    push_string(out, "breed");
    push_char(out, ':');
    push_string(out, d.breed.as_str());
    push_char(out, '}');
    proof {
        assert("name"@ =~= name_key());
        assert("breed"@ =~= breed_key());
        assert(out@ =~= out0 + json_of_dog(d@));
    }
}

/// Serializes a collection of dogs as its canonical document text.
pub fn dogs_to_json(dogs: &Vec<Dog>) -> (r: String)
    ensures
        r@ == json_of_dogs(views_of(dogs@)),
{
    let ghost vs = views_of(dogs@);
    let mut out = String::new();
    push_char(&mut out, '[');
    if dogs.len() == 0 {
        push_char(&mut out, ']');
        assert(out@ =~= json_of_dogs(vs));
        return out;
    }
    push_dog(&mut out, &dogs[0]);
    assert(vs[0] == dogs@[0]@);
    let mut k: usize = 1;
    while k < dogs.len()
        invariant
            1 <= k <= dogs.len(),
            vs == views_of(dogs@),
            vs.len() == dogs@.len(),
            out@ == seq!['['] + json_of_dog(vs[0]) + json_of_dogs_rest(vs.subrange(1, k as int)),
        decreases dogs.len() - k,
    {
        let ghost pre = vs.subrange(1, k as int);
        push_char(&mut out, ',');
        push_dog(&mut out, &dogs[k]);
        proof {
            assert(vs[k as int] == dogs@[k as int]@);
            lemma_dogs_rest_push(pre, vs[k as int]);
            assert(vs.subrange(1, k as int + 1) =~= pre.push(vs[k as int]));
            assert(seq!['['] + json_of_dog(vs[0]) + (json_of_dogs_rest(pre) + seq![',']
                + json_of_dog(vs[k as int])) =~= ((seq!['['] + json_of_dog(vs[0])
                + json_of_dogs_rest(pre)) + seq![',']) + json_of_dog(vs[k as int]));
        }
        k = k + 1;
    }
    push_char(&mut out, ']');
    proof {
        assert(vs.subrange(1, vs.len() as int) =~= vs.skip(1));
        assert(out@ =~= json_of_dogs(vs));
    }
    out
}

// ---------------------------------------------------------------------
// Parsing. Each scanner walks the text from a character index and is
// proved to return exactly what the corresponding grammar function
// yields on the text's suffix at that index.
// ---------------------------------------------------------------------

/// Advances past insignificant whitespace.
fn scan_ws(s: &str, n: usize, i: usize) -> (j: usize)
    requires
        n == s@.len(),
        i <= n,
    ensures
        i <= j <= n,
        skip_ws(s@.skip(i as int)) == s@.skip(j as int),
{
    let mut cur: usize = i;
    loop
        invariant
            i <= cur <= n,
            n == s@.len(),
            skip_ws(s@.skip(i as int)) == skip_ws(s@.skip(cur as int)),
        decreases n - cur,
    {
        if cur == n {
            assert(s@.skip(cur as int).len() == 0);
            return cur;
        }
        let c = s.get_char(cur);
        assert(s@.skip(cur as int)[0] == c);
        if c == ' ' || c == '\t' || c == '\n' || c == '\r' {
            assert(s@.skip(cur as int).skip(1) =~= s@.skip(cur as int + 1));
            cur = cur + 1;
        } else {
            assert(!is_ws(c));
            return cur;
        }
    }
}

/// Scans one escape (the text after a backslash) and yields the
/// character it denotes.
#[verifier::rlimit(100)]
fn scan_escape(s: &str, n: usize, i: usize) -> (r: Result<(char, usize), usize>)
    requires
        n == s@.len(),
        i <= n,
    ensures
        match r {
            Ok((ec, j)) => i < j <= n && parse_escape(s@.skip(i as int)) == Some(
                (ec, s@.skip(j as int)),
            ),
            Err(_) => parse_escape(s@.skip(i as int)) is None,
        },
{
    if i == n {
        assert(s@.skip(i as int).len() == 0);
        return Err(i);
    }
    let e = s.get_char(i);
    assert(s@.skip(i as int)[0] == e);
    if e == 'u' {
        proof {
            assert(s@.skip(i as int).skip(1) =~= s@.skip(i as int + 1));
        }
        let code = match scan_hex4(s, n, i + 1) {
            Some(x) => x,
            None => {
                return Err(i + 1);
            },
        };
        if 0xD800 <= code && code < 0xDC00 {
            // a high surrogate: the escaped low surrogate must follow
            proof {
                assert(s@.skip(i as int).skip(5) =~= s@.skip(i as int + 5));
            }
            if n - (i + 5) < 2 {
                assert(s@.skip(i as int + 5).len() < 2);
                return Err(i + 5);
            }
            let b0 = s.get_char(i + 5);
            let b1 = s.get_char(i + 6);
            assert(s@.skip(i as int + 5)[0] == b0);
            assert(s@.skip(i as int + 5)[1] == b1);
            if !(b0 == '\\' && b1 == 'u') {
                return Err(i + 5);
            }
            proof {
                assert(s@.skip(i as int + 5).skip(2) =~= s@.skip(i as int + 7));
            }
            let code2 = match scan_hex4(s, n, i + 7) {
                Some(x) => x,
                None => {
                    return Err(i + 7);
                },
            };
            if !(0xDC00 <= code2 && code2 < 0xE000) {
                return Err(i + 7);
            }
            let combined = 0x10000 + (code - 0xD800) * 0x400 + (code2 - 0xDC00);
            let ec = char_from_code(combined);
            proof {
                assert(s@.skip(i as int + 5).skip(6) =~= s@.skip(i as int + 11));
            }
            Ok((ec, i + 11))
        } else if 0xDC00 <= code && code < 0xE000 {
            // a lone low surrogate writes no character
            Err(i + 1)
        } else {
            let ec = char_from_code(code);
            proof {
                assert(s@.skip(i as int).skip(5) =~= s@.skip(i as int + 5));
            }
            Ok((ec, i + 5))
        }
    } else {
        let ec: char;
        if e == '"' || e == '\\' || e == '/' {
            ec = e;
        } else if e == 'b' {
            ec = '\u{8}';
        } else if e == 'f' {
            ec = '\u{c}';
        } else if e == 'n' {
            ec = '\n';
        } else if e == 'r' {
            ec = '\r';
        } else if e == 't' {
            ec = '\t';
        } else {
            return Err(i);
        }
        proof {
            assert(s@.skip(i as int).skip(1) =~= s@.skip(i as int + 1));
        }
        Ok((ec, i + 1))
    }
}

/// Scans the body of a quoted string, from just after the opening quote
/// to just past the closing one, undoing escapes.
#[verifier::rlimit(100)]
fn scan_string_rest(s: &str, n: usize, i: usize) -> (r: Result<(String, usize), usize>)
    requires
        n == s@.len(),
        i <= n,
    ensures
        match r {
            Ok((t, j)) => i < j <= n && parse_string_rest(s@.skip(i as int)) == Some(
                (t@, s@.skip(j as int)),
            ),
            Err(_) => parse_string_rest(s@.skip(i as int)) is None,
        },
{
    let mut acc = String::new();
    let mut cur: usize = i;
    loop
        invariant
            i <= cur <= n,
            n == s@.len(),
            parse_string_rest(s@.skip(i as int)) == (match parse_string_rest(
                s@.skip(cur as int),
            ) {
                Some((t, r2)) => Some((acc@ + t, r2)),
                None => None::<(Seq<char>, Seq<char>)>,
            }),
        decreases n - cur,
    {
        if cur == n {
            assert(s@.skip(cur as int).len() == 0);
            return Err(cur);
        }
        let c = s.get_char(cur);
        assert(s@.skip(cur as int)[0] == c);
        if c == '"' {
            assert(s@.skip(cur as int).skip(1) =~= s@.skip(cur as int + 1));
            assert(acc@ + Seq::<char>::empty() =~= acc@);
            return Ok((acc, cur + 1));
        } else if c == '\\' {
            assert(s@.skip(cur as int).skip(1) =~= s@.skip(cur as int + 1));
            let (ec, next) = match scan_escape(s, n, cur + 1) {
                Ok(x) => x,
                Err(o) => {
                    return Err(o);
                },
            };
            proof {
                assert(s@.skip(next as int).len() < s@.skip(cur as int).len());
                let rr = parse_string_rest(s@.skip(next as int));
                if rr is Some {
                    let t2 = rr->Some_0.0;
                    assert((acc@ + seq![ec]) + t2 =~= acc@ + (seq![ec] + t2));
                }
            }
            push_char(&mut acc, ec);
            cur = next;
        } else if (c as u32) >= 32 {
            proof {
                assert(s@.skip(cur as int).skip(1) =~= s@.skip(cur as int + 1));
                let rr = parse_string_rest(s@.skip(cur as int + 1));
                if rr is Some {
                    let t2 = rr->Some_0.0;
                    assert((acc@ + seq![c]) + t2 =~= acc@ + (seq![c] + t2));
                }
            }
            push_char(&mut acc, c);
            cur = cur + 1;
        } else {
            // a raw control character is not string content
            return Err(cur);
        }
    }
}

/// Scans one quoted string.
fn scan_string(s: &str, n: usize, i: usize) -> (r: Result<(String, usize), usize>)
    requires
        n == s@.len(),
        i <= n,
    ensures
        match r {
            Ok((t, j)) => i < j <= n && parse_string(s@.skip(i as int)) == Some(
                (t@, s@.skip(j as int)),
            ),
            Err(_) => parse_string(s@.skip(i as int)) is None,
        },
{
    if i == n {
        assert(s@.skip(i as int).len() == 0);
        return Err(i);
    }
    let c = s.get_char(i);
    assert(s@.skip(i as int)[0] == c);
    if c != '"' {
        return Err(i);
    }
    assert(s@.skip(i as int).skip(1) =~= s@.skip(i as int + 1));
    scan_string_rest(s, n, i + 1)
}

/// Scans one `"key": "value"` member.
fn scan_member(s: &str, n: usize, i: usize) -> (r: Result<((String, String), usize), usize>)
    requires
        n == s@.len(),
        i <= n,
    ensures
        match r {
            Ok(((k, v), j)) => i < j <= n && parse_member(s@.skip(i as int)) == Some(
                ((k@, v@), s@.skip(j as int)),
            ),
            Err(_) => parse_member(s@.skip(i as int)) is None,
        },
{
    let (k, j1) = match scan_string(s, n, i) {
        Ok(x) => x,
        Err(o) => {
            return Err(o);
        },
    };
    let j2 = scan_ws(s, n, j1);
    if j2 == n {
        assert(s@.skip(j2 as int).len() == 0);
        return Err(j2);
    }
    let c = s.get_char(j2);
    assert(s@.skip(j2 as int)[0] == c);
    if c != ':' {
        return Err(j2);
    }
    assert(s@.skip(j2 as int).skip(1) =~= s@.skip(j2 as int + 1));
    let j3 = scan_ws(s, n, j2 + 1);
    let (v, j4) = match scan_string(s, n, j3) {
        Ok(x) => x,
        Err(o) => {
            return Err(o);
        },
    };
    Ok(((k, v), j4))
}

/// Scans one dog object and builds the record it denotes.
#[verifier::rlimit(60)]
fn scan_dog(s: &str, n: usize, i: usize) -> (r: Result<(Dog, usize), usize>)
    requires
        n == s@.len(),
        i <= n,
    ensures
        match r {
            Ok((d, j)) => i < j <= n && parse_dog(s@.skip(i as int)) == Some(
                (d@, s@.skip(j as int)),
            ),
            Err(_) => parse_dog(s@.skip(i as int)) is None,
        },
{
    if i == n {
        assert(s@.skip(i as int).len() == 0);
        return Err(i);
    }
    let c0 = s.get_char(i);
    assert(s@.skip(i as int)[0] == c0);
    if c0 != '{' {
        return Err(i);
    }
    assert(s@.skip(i as int).skip(1) =~= s@.skip(i as int + 1));
    let j0 = scan_ws(s, n, i + 1);
    let ((k1, v1), j1) = match scan_member(s, n, j0) {
        Ok(x) => x,
        Err(o) => {
            return Err(o);
        },
    };
    let j2 = scan_ws(s, n, j1);
    if j2 == n {
        assert(s@.skip(j2 as int).len() == 0);
        return Err(j2);
    }
    let c1 = s.get_char(j2);
    assert(s@.skip(j2 as int)[0] == c1);
    if c1 != ',' {
        return Err(j2);
    }
    assert(s@.skip(j2 as int).skip(1) =~= s@.skip(j2 as int + 1));
    let j3 = scan_ws(s, n, j2 + 1);
    let ((k2, v2), j4) = match scan_member(s, n, j3) {
        Ok(x) => x,
        Err(o) => {
            return Err(o);
        },
    };
    let j5 = scan_ws(s, n, j4);
    if j5 == n {
        assert(s@.skip(j5 as int).len() == 0);
        return Err(j5);
    }
    let c2 = s.get_char(j5);
    assert(s@.skip(j5 as int)[0] == c2);
    if c2 != '}' {
        return Err(j5);
    }
    assert(s@.skip(j5 as int).skip(1) =~= s@.skip(j5 as int + 1));
    proof {
        reveal_strlit("name");
        reveal_strlit("breed");
        assert("name"@ =~= name_key());
        assert("breed"@ =~= breed_key());
    }
    let nk = String::from_str("name");
    let bk = String::from_str("breed");
    if k1 == nk && k2 == bk {
        let d = Dog { name: v1, breed: v2 };
        Ok((d, j5 + 1))
    } else if k1 == bk && k2 == nk {
        let d = Dog { name: v2, breed: v1 };
        Ok((d, j5 + 1))
    } else {
        Err(i)
    }
}

/// Scans one array of dogs.
fn scan_dogs(s: &str, n: usize, i: usize) -> (r: Result<(Vec<Dog>, usize), usize>)
    requires
        n == s@.len(),
        i <= n,
    ensures
        match r {
            Ok((ds, j)) => i < j <= n && parse_dogs(s@.skip(i as int)) == Some(
                (views_of(ds@), s@.skip(j as int)),
            ),
            Err(_) => parse_dogs(s@.skip(i as int)) is None,
        },
{
    if i == n {
        assert(s@.skip(i as int).len() == 0);
        return Err(i);
    }
    let c0 = s.get_char(i);
    assert(s@.skip(i as int)[0] == c0);
    if c0 != '[' {
        return Err(i);
    }
    assert(s@.skip(i as int).skip(1) =~= s@.skip(i as int + 1));
    let j0 = scan_ws(s, n, i + 1);
    if j0 < n {
        let cb = s.get_char(j0);
        assert(s@.skip(j0 as int)[0] == cb);
        if cb == ']' {
            let ds: Vec<Dog> = Vec::new();
            assert(s@.skip(j0 as int).skip(1) =~= s@.skip(j0 as int + 1));
            assert(views_of(ds@) =~= Seq::<DogView>::empty());
            return Ok((ds, j0 + 1));
        }
    } else {
        assert(s@.skip(j0 as int).len() == 0);
    }
    let (d0, j1) = match scan_dog(s, n, j0) {
        Ok(x) => x,
        Err(o) => {
            return Err(o);
        },
    };
    let mut acc: Vec<Dog> = Vec::new();
    acc.push(d0);
    assert(views_of(acc@) =~= seq![d0@]);
    let mut cur: usize = j1;
    loop
        invariant
            i < cur <= n,
            n == s@.len(),
            (match parse_dogs_rest(s@.skip(cur as int)) {
                Some((ds2, r2)) => parse_dogs(s@.skip(i as int)) == Some(
                    (views_of(acc@) + ds2, r2),
                ),
                None => parse_dogs(s@.skip(i as int)) is None,
            }),
        decreases n - cur,
    {
        let j2 = scan_ws(s, n, cur);
        if j2 == n {
            assert(s@.skip(j2 as int).len() == 0);
            return Err(j2);
        }
        let c2 = s.get_char(j2);
        assert(s@.skip(j2 as int)[0] == c2);
        if c2 == ']' {
            assert(s@.skip(j2 as int).skip(1) =~= s@.skip(j2 as int + 1));
            assert(views_of(acc@) + Seq::<DogView>::empty() =~= views_of(acc@));
            return Ok((acc, j2 + 1));
        } else if c2 == ',' {
            assert(s@.skip(j2 as int).skip(1) =~= s@.skip(j2 as int + 1));
            let j3 = scan_ws(s, n, j2 + 1);
            let (d, j4) = match scan_dog(s, n, j3) {
                Ok(x) => x,
                Err(o) => {
                    return Err(o);
                },
            };
            proof {
                assert(s@.skip(j4 as int).len() < s@.skip(cur as int).len());
                let ghost accv = views_of(acc@);
                let rr = parse_dogs_rest(s@.skip(j4 as int));
                if rr is Some {
                    let ds2 = rr->Some_0.0;
                    assert(accv.push(d@) + ds2 =~= accv + (seq![d@] + ds2));
                }
            }
            let ghost accv0 = views_of(acc@);
            acc.push(d);
            assert(views_of(acc@) =~= accv0.push(d@));
            cur = j4;
        } else {
            return Err(j2);
        }
    }
}

/// Parses a whole document: one array of dog objects, possibly
/// surrounded by whitespace and nothing else. Succeeds on exactly the
/// texts the grammar accepts, and then returns the collection the text
/// denotes; any other text is rejected as a parse failure. The
/// rejection carries the index the scanners gave up at, as a
/// diagnostic the contract leaves open.
pub fn dogs_from_json(s: &str) -> (r: Result<Vec<Dog>, JsonError>)
    ensures
        match r {
            Ok(dogs) => parse_doc(s@) == Some(views_of(dogs@)),
            Err(_) => parse_doc(s@) is None,
        },
{
    let n = s.unicode_len();
    assert(s@.skip(0) =~= s@);
    let j0 = scan_ws(s, n, 0);
    let (ds, j1) = match scan_dogs(s, n, j0) {
        Ok(x) => x,
        Err(o) => {
            return Err(JsonError::new(o));
        },
    };
    let j2 = scan_ws(s, n, j1);
    if j2 == n {
        assert(skip_ws(s@.skip(j1 as int)).len() == 0);
        Ok(ds)
    } else {
        assert(skip_ws(s@.skip(j1 as int)).len() > 0);
        Err(JsonError::new(j2))
    }
}

/// Serializing one more dog extends the comma-separated tail by one
/// comma and one object.
proof fn lemma_dogs_rest_push(a: Seq<DogView>, d: DogView)
    ensures
        json_of_dogs_rest(a.push(d)) == json_of_dogs_rest(a) + seq![','] + json_of_dog(d),
    decreases a.len(),
{
    if a.len() == 0 {
        reveal_with_fuel(json_of_dogs_rest, 2);
        assert(a.push(d)[0] == d);
        assert(a.push(d).skip(1) =~= Seq::<DogView>::empty());
        assert(json_of_dogs_rest(a.push(d)) =~= json_of_dogs_rest(a) + seq![','] + json_of_dog(
            d,
        ));
    } else {
        lemma_dogs_rest_push(a.skip(1), d);
        assert(a.push(d)[0] == a[0]);
        assert(a.push(d).skip(1) =~= a.skip(1).push(d));
        assert(seq![','] + json_of_dog(a[0]) + (json_of_dogs_rest(a.skip(1)) + seq![',']
            + json_of_dog(d)) =~= (seq![','] + json_of_dog(a[0]) + json_of_dogs_rest(a.skip(1)))
            + seq![','] + json_of_dog(d));
    }
}

} // verus!
