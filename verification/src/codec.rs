//! The wire codec for message envelopes.
//!
//! One frame is one JSON object with string members `user_id`, `content`
//! (both required) and `timestamp` (optional), in any order, each at most
//! once. Member values accept the escapes `\"` `\\` `\/` `\b` `\f` `\n` `\r`
//! `\t` and `\uXXXX` for any scalar value; every other character, including a
//! raw control character, stands for itself. The serializer emits the members
//! in the fixed order above, with no whitespace, escaping only `"`, `\`,
//! newline, carriage return and tab.
use vstd::prelude::*;
use crate::ChatMessage;
use crate::text::char_of_cp;
use crate::text::char_from_u32;
use crate::text::chars_to_string;
use crate::text::is_scalar_value;
use crate::text::str_to_chars;
use vstd::string::StrSliceExecFns;
use vstd::string::StringExecFns;

verus! {

/// How the serializer writes one character inside a JSON string value.
pub open spec fn esc_char(c: char) -> Seq<char> {
    if c == '"' {
        seq!['\\', '"']
    } else if c == '\\' {
        seq!['\\', '\\']
    } else if c == '\n' {
        seq!['\\', 'n']
    } else if c == '\r' {
        seq!['\\', 'r']
    } else if c == '\t' {
        seq!['\\', 't']
    } else {
        seq![c]
    }
}

/// How the serializer writes a whole string value: each character escaped.
pub open spec fn esc(s: Seq<char>) -> Seq<char>
    decreases s.len(),
{
    if s.len() == 0 {
        Seq::empty()
    } else {
        esc_char(s[0]) + esc(s.skip(1))
    }
}

/// Escaping distributes over concatenation.
pub proof fn lemma_esc_concat(a: Seq<char>, b: Seq<char>)
    ensures
        esc(a + b) == esc(a) + esc(b),
    decreases a.len(),
{
    if a.len() == 0 {
        assert(a + b =~= b);
        assert(esc(a) + esc(b) =~= esc(b));
    } else {
        assert((a + b).skip(1) =~= a.skip(1) + b);
        lemma_esc_concat(a.skip(1), b);
        assert(esc_char((a + b)[0]) + (esc(a.skip(1)) + esc(b)) =~= (esc_char(a[0]) + esc(
            a.skip(1),
        )) + esc(b));
    }
}

/// Escaping a single character is `esc_char`.
pub proof fn lemma_esc_singleton(c: char)
    ensures
        esc(seq![c]) == esc_char(c),
{
    let s = seq![c];
    assert(s.skip(1) =~= Seq::<char>::empty());
    assert(esc(s.skip(1)) == Seq::<char>::empty());
    assert(esc(s) == esc_char(c) + esc(s.skip(1)));
    assert(esc_char(c) + Seq::<char>::empty() =~= esc_char(c));
}

/// The full frame the serializer produces for the three fields.
pub open spec fn wire_of(user_id: Seq<char>, timestamp: Seq<char>, content: Seq<char>) -> Seq<
    char,
> {
    "{\"user_id\":\""@ + esc(user_id) + "\",\"timestamp\":\""@ + esc(timestamp)
        + "\",\"content\":\""@ + esc(content) + "\"}"@
}

fn escape_chars(s: &Vec<char>) -> (r: Vec<char>)
    ensures
        r@ == esc(s@),
{
    let mut out: Vec<char> = Vec::new();
    let mut i: usize = 0;
    while i < s.len()
        invariant
            0 <= i <= s@.len(),
            out@ == esc(s@.take(i as int)),
        decreases s@.len() - i,
    {
        let c = s[i];
        if c == '"' {
            out.push('\\');
            out.push('"');
        } else if c == '\\' {
            out.push('\\');
            out.push('\\');
        } else if c == '\n' {
            out.push('\\');
            out.push('n');
        } else if c == '\r' {
            out.push('\\');
            out.push('r');
        } else if c == '\t' {
            out.push('\\');
            out.push('t');
        } else {
            out.push(c);
        }
        proof {
            assert(s@.take(i + 1 as int) =~= s@.take(i as int) + seq![s@[i as int]]);
            lemma_esc_concat(s@.take(i as int), seq![s@[i as int]]);
            lemma_esc_singleton(s@[i as int]);
            assert(out@ =~= esc(s@.take(i as int)) + esc_char(s@[i as int]));
        }
        i += 1;
    }
    proof {
        assert(s@.take(s@.len() as int) =~= s@);
    }
    out
}

/// Escape one field for the wire.
fn escape_string(s: &String) -> (r: String)
    ensures
        r@ == esc(s@),
{
    let chars = str_to_chars(s.as_str());
    let escaped = escape_chars(&chars);
    chars_to_string(&escaped)
}

/// A frame whitespace character.
pub open spec fn is_ws(c: char) -> bool {
    c == ' ' || c == '\t' || c == '\n' || c == '\r'
}

/// The first position at or after `i` holding no whitespace.
pub open spec fn spec_skip_ws(s: Seq<char>, i: int) -> int
    decreases s.len() - i when 0 <= i <= s.len()
{
    if 0 <= i && i < s.len() && is_ws(s[i]) {
        spec_skip_ws(s, i + 1)
    } else {
        i
    }
}

/// The value of one hexadecimal digit, or -1.
pub open spec fn hex_digit_val(c: char) -> int {
    if '0' as int <= c as int && c as int <= '9' as int {
        c as int - '0' as int
    } else if 'a' as int <= c as int && c as int <= 'f' as int {
        10 + c as int - 'a' as int
    } else if 'A' as int <= c as int && c as int <= 'F' as int {
        10 + c as int - 'A' as int
    } else {
        -1
    }
}

pub open spec fn is_hex_digit(c: char) -> bool {
    hex_digit_val(c) >= 0
}

/// Whether the four characters at `i` are hexadecimal digits.
pub open spec fn hex4_ok(s: Seq<char>, i: int) -> bool {
    is_hex_digit(s[i]) && is_hex_digit(s[i + 1]) && is_hex_digit(s[i + 2]) && is_hex_digit(
        s[i + 3],
    )
}

/// The value of the four hexadecimal digits at `i`.
pub open spec fn hex4_val(s: Seq<char>, i: int) -> int {
    hex_digit_val(s[i]) * 4096 + hex_digit_val(s[i + 1]) * 256 + hex_digit_val(s[i + 2]) * 16
        + hex_digit_val(s[i + 3])
}

/// The single-character escapes the parser accepts after a backslash.
pub open spec fn is_simple_escape(e: char) -> bool {
    e == '"' || e == '\\' || e == '/' || e == 'b' || e == 'f' || e == 'n' || e == 'r' || e == 't'
}

/// The character a single-character escape stands for.
pub open spec fn unesc_char(e: char) -> char {
    if e == 'b' {
        '\u{8}'
    } else if e == 'f' {
        '\u{c}'
    } else if e == 'n' {
        '\n'
    } else if e == 'r' {
        '\r'
    } else if e == 't' {
        '\t'
    } else {
        e
    }
}

/// The content and end position of a JSON string value whose opening quote
/// stands just before `i`: the decoded characters up to the closing quote,
/// and the position just past that quote. `None` on an unterminated string,
/// a bad escape, or a `\u` escape that names no scalar value.
pub open spec fn spec_string_body(s: Seq<char>, i: int) -> Option<(Seq<char>, int)>
    decreases s.len() - i when 0 <= i <= s.len()
{
    if !(0 <= i && i < s.len()) {
        None
    } else if s[i] == '"' {
        Some((Seq::empty(), i + 1))
    } else if s[i] == '\\' {
        if i + 1 < s.len() {
            let e = s[i + 1];
            if e == 'u' {
                if i + 6 <= s.len() && hex4_ok(s, i + 2) && is_scalar_value(hex4_val(s, i + 2)) {
                    match spec_string_body(s, i + 6) {
                        Some(p) => Some((seq![char_of_cp(hex4_val(s, i + 2))] + p.0, p.1)),
                        None => None,
                    }
                } else {
                    None
                }
            } else if is_simple_escape(e) {
                match spec_string_body(s, i + 2) {
                    Some(p) => Some((seq![unesc_char(e)] + p.0, p.1)),
                    None => None,
                }
            } else {
                None
            }
        } else {
            None
        }
    } else {
        match spec_string_body(s, i + 1) {
            Some(p) => Some((seq![s[i]] + p.0, p.1)),
            None => None,
        }
    }
}

/// A prefix prepended to the content of a parsed string tail.
pub open spec fn compose_body(prefix: Seq<char>, r: Option<(Seq<char>, int)>) -> Option<
    (Seq<char>, int),
> {
    match r {
        Some(p) => Some((prefix + p.0, p.1)),
        None => None,
    }
}

proof fn lemma_compose_empty(r: Option<(Seq<char>, int)>)
    ensures
        compose_body(Seq::empty(), r) == r,
{
    if r is Some {
        assert(Seq::<char>::empty() + r.unwrap().0 =~= r.unwrap().0);
    }
}

proof fn lemma_compose_assoc(a: Seq<char>, b: Seq<char>, r: Option<(Seq<char>, int)>)
    ensures
        compose_body(a, compose_body(b, r)) == compose_body(a + b, r),
{
    if r is Some {
        assert(a + (b + r.unwrap().0) =~= (a + b) + r.unwrap().0);
    }
}

/// One `"key" : "value"` member starting at `i`: its key, its value, and the
/// position just past the value's closing quote.
pub open spec fn spec_member(s: Seq<char>, i: int) -> Option<(Seq<char>, Seq<char>, int)> {
    if 0 <= i && i < s.len() && s[i] == '"' {
        match spec_string_body(s, i + 1) {
            Some(kp) => {
                let a = spec_skip_ws(s, kp.1);
                if a < s.len() && s[a] == ':' {
                    let b = spec_skip_ws(s, a + 1);
                    if b < s.len() && s[b] == '"' {
                        match spec_string_body(s, b + 1) {
                            Some(vp) => Some((kp.0, vp.0, vp.1)),
                            None => None,
                        }
                    } else {
                        None
                    }
                } else {
                    None
                }
            },
            None => None,
        }
    } else {
        None
    }
}

/// Field slots while members are gathered: `user_id`, `timestamp`, `content`.
pub open spec fn slots_put(
    sl: (Option<Seq<char>>, Option<Seq<char>>, Option<Seq<char>>),
    k: Seq<char>,
    v: Seq<char>,
) -> Option<(Option<Seq<char>>, Option<Seq<char>>, Option<Seq<char>>)> {
    if k == "user_id"@ {
        if sl.0 is Some {
            None
        } else {
            Some((Some(v), sl.1, sl.2))
        }
    } else if k == "timestamp"@ {
        if sl.1 is Some {
            None
        } else {
            Some((sl.0, Some(v), sl.2))
        }
    } else if k == "content"@ {
        if sl.2 is Some {
            None
        } else {
            Some((sl.0, sl.1, Some(v)))
        }
    } else {
        None
    }
}

/// The parsed triple, once the object is closed: `user_id` and `content` are
/// required, a missing `timestamp` reads as empty.
pub open spec fn slots_finish(
    sl: (Option<Seq<char>>, Option<Seq<char>>, Option<Seq<char>>),
) -> Option<(Seq<char>, Seq<char>, Seq<char>)> {
    if sl.0 is Some && sl.2 is Some {
        Some(
            (
                sl.0.unwrap(),
                if sl.1 is Some {
                    sl.1.unwrap()
                } else {
                    Seq::empty()
                },
                sl.2.unwrap(),
            ),
        )
    } else {
        None
    }
}

/// Only whitespace from `i` to the end.
pub open spec fn end_ok(s: Seq<char>, i: int) -> bool {
    spec_skip_ws(s, i) == s.len()
}

/// What a whole frame parses to: `Some` exactly on the frames the codec's
/// grammar accepts, with the `user_id`, `timestamp` and `content` values.
pub open spec fn spec_parse_message(s: Seq<char>) -> Option<(Seq<char>, Seq<char>, Seq<char>)> {
    let i0 = spec_skip_ws(s, 0);
    if !(i0 < s.len() && s[i0] == '{') {
        None
    } else {
        let i1 = spec_skip_ws(s, i0 + 1);
        match spec_member(s, i1) {
            None => None,
            Some(m1) => match slots_put((None, None, None), m1.0, m1.1) {
                None => None,
                Some(sl1) => {
                    let a1 = spec_skip_ws(s, m1.2);
                    if a1 < s.len() && s[a1] == ',' {
                        let i2 = spec_skip_ws(s, a1 + 1);
                        match spec_member(s, i2) {
                            None => None,
                            Some(m2) => match slots_put(sl1, m2.0, m2.1) {
                                None => None,
                                Some(sl2) => {
                                    let a2 = spec_skip_ws(s, m2.2);
                                    if a2 < s.len() && s[a2] == ',' {
                                        let i3 = spec_skip_ws(s, a2 + 1);
                                        match spec_member(s, i3) {
                                            None => None,
                                            Some(m3) => match slots_put(sl2, m3.0, m3.1) {
                                                None => None,
                                                Some(sl3) => {
                                                    let a3 = spec_skip_ws(s, m3.2);
                                                    if a3 < s.len() && s[a3] == '}' && end_ok(
                                                        s,
                                                        a3 + 1,
                                                    ) {
                                                        slots_finish(sl3)
                                                    } else {
                                                        None
                                                    }
                                                },
                                            },
                                        }
                                    } else if a2 < s.len() && s[a2] == '}' && end_ok(s, a2 + 1) {
                                        slots_finish(sl2)
                                    } else {
                                        None
                                    }
                                },
                            },
                        }
                    } else if a1 < s.len() && s[a1] == '}' && end_ok(s, a1 + 1) {
                        slots_finish(sl1)
                    } else {
                        None
                    }
                },
            },
        }
    }
}

fn ws_char(c: char) -> (r: bool)
    ensures
        r == is_ws(c),
{
    c == ' ' || c == '\t' || c == '\n' || c == '\r'
}

fn skip_ws(s: &Vec<char>, i: usize) -> (r: usize)
    requires
        i <= s@.len(),
    ensures
        r as int == spec_skip_ws(s@, i as int),
        i <= r <= s@.len(),
{
    let mut cur = i;
    while cur < s.len() && ws_char(s[cur])
        invariant
            i <= cur <= s@.len(),
            spec_skip_ws(s@, i as int) == spec_skip_ws(s@, cur as int),
        decreases s@.len() - cur,
    {
        proof {
            assert(spec_skip_ws(s@, cur as int) == spec_skip_ws(s@, cur + 1 as int));
        }
        cur += 1;
    }
    cur
}

fn hex_val(c: char) -> (r: i32)
    ensures
        r as int == hex_digit_val(c),
{
    if '0' <= c && c <= '9' {
        (c as u32 as i32) - 48
    } else if 'a' <= c && c <= 'f' {
        (c as u32 as i32) - 97 + 10
    } else if 'A' <= c && c <= 'F' {
        (c as u32 as i32) - 65 + 10
    } else {
        -1
    }
}

fn parse_string_body(s: &Vec<char>, i: usize) -> (r: Option<(Vec<char>, usize)>)
    requires
        i <= s@.len(),
    ensures
        ({
            let sp = spec_string_body(s@, i as int);
            match r {
                Some(p) => sp == Some((p.0@, p.1 as int)) && i < p.1 <= s@.len(),
                None => sp is None,
            }
        }),
{
    let ghost start: int = i as int;
    let mut acc: Vec<char> = Vec::new();
    let mut cur = i;
    proof {
        lemma_compose_empty(spec_string_body(s@, start));
    }
    loop
        invariant
            i <= cur <= s@.len(),
            spec_string_body(s@, start) == compose_body(acc@, spec_string_body(s@, cur as int)),
            start == i as int,
        decreases s@.len() - cur,
    {
        if cur >= s.len() {
            return None;
        }
        let c = s[cur];
        if c == '"' {
            proof {
                assert(acc@ + Seq::<char>::empty() =~= acc@);
            }
            return Some((acc, cur + 1));
        }
        if c == '\\' {
            if s.len() - cur < 2 {
                return None;
            }
            let e = s[cur + 1];
            if e == 'u' {
                if s.len() - cur < 6 {
                    return None;
                }
                let h0 = hex_val(s[cur + 2]);
                let h1 = hex_val(s[cur + 3]);
                let h2 = hex_val(s[cur + 4]);
                let h3 = hex_val(s[cur + 5]);
                if h0 < 0 || h1 < 0 || h2 < 0 || h3 < 0 {
                    return None;
                }
                let v: i32 = h0 * 4096 + h1 * 256 + h2 * 16 + h3;
                let ch = match char_from_u32(v as u32) {
                    Some(ch) => ch,
                    None => {
                        return None;
                    },
                };
                proof {
                    let sp_next = spec_string_body(s@, cur + 6 as int);
                    assert(spec_string_body(s@, cur as int) == compose_body(seq![ch], sp_next));
                    lemma_compose_assoc(acc@, seq![ch], sp_next);
                    assert(acc@ + seq![ch] =~= acc@.push(ch));
                }
                acc.push(ch);
                cur += 6;
            } else {
                let un: char = if e == '"' {
                    '"'
                } else if e == '\\' {
                    '\\'
                } else if e == '/' {
                    '/'
                } else if e == 'b' {
                    '\u{8}'
                } else if e == 'f' {
                    '\u{c}'
                } else if e == 'n' {
                    '\n'
                } else if e == 'r' {
                    '\r'
                } else if e == 't' {
                    '\t'
                } else {
                    return None;
                };
                proof {
                    let sp_next = spec_string_body(s@, cur + 2 as int);
                    assert(spec_string_body(s@, cur as int) == compose_body(seq![un], sp_next));
                    lemma_compose_assoc(acc@, seq![un], sp_next);
                    assert(acc@ + seq![un] =~= acc@.push(un));
                }
                acc.push(un);
                cur += 2;
            }
        } else {
            proof {
                let sp_next = spec_string_body(s@, cur + 1 as int);
                assert(spec_string_body(s@, cur as int) == compose_body(seq![c], sp_next));
                lemma_compose_assoc(acc@, seq![c], sp_next);
                assert(acc@ + seq![c] =~= acc@.push(c));
            }
            acc.push(c);
            cur += 1;
        }
    }
}

fn parse_member(s: &Vec<char>, i: usize) -> (r: Option<(Vec<char>, Vec<char>, usize)>)
    requires
        i <= s@.len(),
    ensures
        ({
            let sp = spec_member(s@, i as int);
            match r {
                Some(p) => sp == Some((p.0@, p.1@, p.2 as int)) && i < p.2 <= s@.len(),
                None => sp is None,
            }
        }),
{
    if i >= s.len() || s[i] != '"' {
        return None;
    }
    let kp = match parse_string_body(s, i + 1) {
        Some(kp) => kp,
        None => {
            return None;
        },
    };
    let a = skip_ws(s, kp.1);
    if a >= s.len() || s[a] != ':' {
        return None;
    }
    let b = skip_ws(s, a + 1);
    if b >= s.len() || s[b] != '"' {
        return None;
    }
    let vp = match parse_string_body(s, b + 1) {
        Some(vp) => vp,
        None => {
            return None;
        },
    };
    Some((kp.0, vp.0, vp.1))
}

/// True when the characters of `v` spell exactly the string `s`.
fn chars_eq_str(v: &Vec<char>, s: &str) -> (r: bool)
    ensures
        r <==> v@ == s@,
{
    let n = s.unicode_len();
    if v.len() != n {
        proof {
            assert(v@.len() != s@.len());
        }
        return false;
    }
    let mut i: usize = 0;
    while i < n
        invariant
            0 <= i <= n,
            n == v@.len() == s@.len(),
            forall|k: int| 0 <= k < i ==> v@[k] == s@[k],
        decreases n - i,
    {
        if v[i] != s.get_char(i) {
            return false;
        }
        i += 1;
    }
    proof {
        assert(v@ =~= s@);
    }
    true
}

/// The deep view of an optional character vector.
pub open spec fn opt_chars_view(o: Option<Vec<char>>) -> Option<Seq<char>> {
    match o {
        Some(x) => Some(x@),
        None => None,
    }
}

fn apply_member(
    su: &mut Option<Vec<char>>,
    st: &mut Option<Vec<char>>,
    sc: &mut Option<Vec<char>>,
    k: &Vec<char>,
    v: Vec<char>,
) -> (ok: bool)
    ensures
        ({
            let sp = slots_put(
                (opt_chars_view(*old(su)), opt_chars_view(*old(st)), opt_chars_view(*old(sc))),
                k@,
                v@,
            );
            match sp {
                Some(ns) => ok && opt_chars_view(*final(su)) == ns.0 && opt_chars_view(*final(st))
                    == ns.1 && opt_chars_view(*final(sc)) == ns.2,
                None => !ok,
            }
        }),
{
    if chars_eq_str(k, "user_id") {
        if su.is_some() {
            false
        } else {
            *su = Some(v);
            true
        }
    } else if chars_eq_str(k, "timestamp") {
        if st.is_some() {
            false
        } else {
            *st = Some(v);
            true
        }
    } else if chars_eq_str(k, "content") {
        if sc.is_some() {
            false
        } else {
            *sc = Some(v);
            true
        }
    } else {
        false
    }
}

/// Parse one wire frame. Returns the envelope exactly when the frame matches
/// the codec's grammar; a missing `timestamp` member reads as the empty
/// string. On `None` the frame is malformed and is to be discarded.
pub fn parse_message(text: &str) -> (r: Option<ChatMessage>)
    ensures
        ({
            let sp = spec_parse_message(text@);
            match r {
                Some(m) => sp == Some((m.user_id@, m.timestamp@, m.content@)),
                None => sp is None,
            }
        }),
{
    let s = str_to_chars(text);
    let i0 = skip_ws(&s, 0);
    if i0 >= s.len() || s[i0] != '{' {
        return None;
    }
    let mut su: Option<Vec<char>> = None;
    let mut st: Option<Vec<char>> = None;
    let mut sc: Option<Vec<char>> = None;
    let i1 = skip_ws(&s, i0 + 1);
    let m1 = match parse_member(&s, i1) {
        Some(m1) => m1,
        None => {
            return None;
        },
    };
    let (k1, v1, p1) = m1;
    if !apply_member(&mut su, &mut st, &mut sc, &k1, v1) {
        return None;
    }
    let a1 = skip_ws(&s, p1);
    let close: usize;
    if a1 < s.len() && s[a1] == ',' {
        let i2 = skip_ws(&s, a1 + 1);
        let m2 = match parse_member(&s, i2) {
            Some(m2) => m2,
            None => {
                return None;
            },
        };
        let (k2, v2, p2) = m2;
        if !apply_member(&mut su, &mut st, &mut sc, &k2, v2) {
            return None;
        }
        let a2 = skip_ws(&s, p2);
        if a2 < s.len() && s[a2] == ',' {
            let i3 = skip_ws(&s, a2 + 1);
            let m3 = match parse_member(&s, i3) {
                Some(m3) => m3,
                None => {
                    return None;
                },
            };
            let (k3, v3, p3) = m3;
            if !apply_member(&mut su, &mut st, &mut sc, &k3, v3) {
                return None;
            }
            let a3 = skip_ws(&s, p3);
            if !(a3 < s.len() && s[a3] == '}') {
                return None;
            }
            close = a3;
        } else if a2 < s.len() && s[a2] == '}' {
            close = a2;
        } else {
            return None;
        }
    } else if a1 < s.len() && s[a1] == '}' {
        close = a1;
    } else {
        return None;
    }
    let tail = skip_ws(&s, close + 1);
    if tail < s.len() {
        return None;
    }
    let user_vec = match su {
        Some(u) => u,
        None => {
            return None;
        },
    };
    let content_vec = match sc {
        Some(c) => c,
        None => {
            return None;
        },
    };
    let timestamp = match st {
        Some(t) => chars_to_string(&t),
        None => String::new(),
    };
    Some(
        ChatMessage {
            user_id: chars_to_string(&user_vec),
            timestamp,
            content: chars_to_string(&content_vec),
        },
    )
}

/// Escaping leaves a string without special characters as it is.
pub proof fn lemma_esc_raw(s: Seq<char>)
    requires
        forall|k: int| 0 <= k < s.len() ==> esc_char(s[k]) == seq![s[k]],
    ensures
        esc(s) == s,
    decreases s.len(),
{
    if s.len() == 0 {
        assert(esc(s) =~= s);
    } else {
        assert forall|k: int| 0 <= k < s.skip(1).len() implies esc_char(s.skip(1)[k]) == seq![
            s.skip(1)[k],
        ] by {
            assert(s.skip(1)[k] == s[k + 1]);
        }
        lemma_esc_raw(s.skip(1));
        assert(esc(s) == esc_char(s[0]) + s.skip(1));
        assert(seq![s[0]] + s.skip(1) =~= s);
    }
}

/// A string value, written escaped and closed with a quote, parses back to
/// exactly itself, ending just past that quote.
pub proof fn lemma_string_body_esc(s: Seq<char>, j: int, x: Seq<char>)
    requires
        0 <= j,
        j + esc(x).len() < s.len(),
        s.subrange(j, j + esc(x).len()) == esc(x),
        s[j + esc(x).len()] == '"',
    ensures
        spec_string_body(s, j) == Some((x, j + esc(x).len() + 1)),
    decreases x.len(),
{
    assert forall|k: int| 0 <= k < esc(x).len() implies s[j + k] == esc(x)[k] by {
        assert(s.subrange(j, j + esc(x).len())[k] == s[j + k]);
    }
    if x.len() == 0 {
        assert(s[j] == '"');
    } else {
        let c0 = x[0];
        let e = esc_char(c0);
        let rest = esc(x.skip(1));
        assert(esc(x) == e + rest);
        let j2 = j + e.len() as int;
        assert forall|k: int| 0 <= k < rest.len() implies s[j2 + k] == rest[k] by {
            assert(esc(x)[e.len() + k] == rest[k]);
            assert(s[j + (e.len() + k)] == esc(x)[e.len() + k]);
        }
        assert(s.subrange(j2, j2 + rest.len()) =~= rest);
        lemma_string_body_esc(s, j2, x.skip(1));
        if c0 == '"' || c0 == '\\' || c0 == '\n' || c0 == '\r' || c0 == '\t' {
            let code: char = if c0 == '"' {
                '"'
            } else if c0 == '\\' {
                '\\'
            } else if c0 == '\n' {
                'n'
            } else if c0 == '\r' {
                'r'
            } else {
                't'
            };
            assert(e == seq!['\\', code]);
            assert(esc(x)[0] == e[0] && esc(x)[1] == e[1]);
            assert(s[j + 0] == esc(x)[0] && s[j + 1] == esc(x)[1]);
            assert(s[j] == '\\');
            assert(s[j + 1] == code);
            assert(code != 'u');
            assert(is_simple_escape(code));
            assert(unesc_char(code) == c0);
            assert(spec_string_body(s, j) == Some((seq![c0] + x.skip(1), j + esc(x).len() + 1)));
        } else {
            assert(e == seq![c0]);
            assert(esc(x)[0] == e[0]);
            assert(s[j + 0] == esc(x)[0]);
            assert(s[j] == c0);
            assert(spec_string_body(s, j) == Some((seq![c0] + x.skip(1), j + esc(x).len() + 1)));
        }
        assert(seq![c0] + x.skip(1) =~= x);
    }
}

/// The round trip: a frame the serializer renders parses back to exactly the
/// three fields it was rendered from. What a session rebroadcasts is
/// received, through the same codec, as the very envelope the relay stamped.
#[verifier::rlimit(100)]
pub proof fn lemma_wire_round_trip(u: Seq<char>, t: Seq<char>, c: Seq<char>)
    ensures
        spec_parse_message(wire_of(u, t, c)) == Some((u, t, c)),
{
    reveal_strlit("{\"user_id\":\"");
    reveal_strlit("\",\"timestamp\":\"");
    reveal_strlit("\",\"content\":\"");
    reveal_strlit("\"}");
    reveal_strlit("user_id");
    reveal_strlit("timestamp");
    reveal_strlit("content");
    let l1 = "{\"user_id\":\""@;
    let l2 = "\",\"timestamp\":\""@;
    let l3 = "\",\"content\":\""@;
    let l4 = "\"}"@;
    let ku = "user_id"@;
    let kt = "timestamp"@;
    let kc = "content"@;
    let w = wire_of(u, t, c);
    let nu = esc(u).len() as int;
    let nt = esc(t).len() as int;
    let nc = esc(c).len() as int;
    assert(l1.len() == 12 && l2.len() == 15 && l3.len() == 13 && l4.len() == 2);
    assert(ku.len() == 7 && kt.len() == 9 && kc.len() == 7);
    assert(w.len() == 42 + nu + nt + nc);
    assert(ku != kt && kt != kc);
    assert(kc != ku) by {
        assert(ku[0] == 'u' && kc[0] == 'c');
    }
    assert forall|k: int| 0 <= k < ku.len() implies esc_char(ku[k]) == seq![ku[k]] by {}
    assert forall|k: int| 0 <= k < kt.len() implies esc_char(kt[k]) == seq![kt[k]] by {}
    assert forall|k: int| 0 <= k < kc.len() implies esc_char(kc[k]) == seq![kc[k]] by {}
    lemma_esc_raw(ku);
    lemma_esc_raw(kt);
    lemma_esc_raw(kc);
    // the first member: "user_id" : u
    assert(spec_skip_ws(w, 0) == 0);
    assert(w[0] == '{');
    assert(spec_skip_ws(w, 1) == 1);
    assert(w[1] == '"');
    assert(w.subrange(2, 9) =~= esc(ku));
    assert(w[9] == '"');
    lemma_string_body_esc(w, 2, ku);
    assert(spec_skip_ws(w, 10) == 10);
    assert(w[10] == ':');
    assert(spec_skip_ws(w, 11) == 11);
    assert(w[11] == '"');
    assert(w.subrange(12, 12 + nu) =~= esc(u));
    assert(w[12 + nu] == '"');
    lemma_string_body_esc(w, 12, u);
    assert(spec_member(w, 1) == Some((ku, u, 13 + nu)));
    // the second member: "timestamp" : t
    assert(spec_skip_ws(w, 13 + nu) == 13 + nu);
    assert(w[13 + nu] == ',');
    assert(spec_skip_ws(w, 14 + nu) == 14 + nu);
    assert(w[14 + nu] == '"');
    assert(w.subrange(15 + nu, 24 + nu) =~= esc(kt));
    assert(w[24 + nu] == '"');
    lemma_string_body_esc(w, 15 + nu, kt);
    assert(spec_skip_ws(w, 25 + nu) == 25 + nu);
    assert(w[25 + nu] == ':');
    assert(spec_skip_ws(w, 26 + nu) == 26 + nu);
    assert(w[26 + nu] == '"');
    assert(w.subrange(27 + nu, 27 + nu + nt) =~= esc(t));
    assert(w[27 + nu + nt] == '"');
    lemma_string_body_esc(w, 27 + nu, t);
    assert(spec_member(w, 14 + nu) == Some((kt, t, 28 + nu + nt)));
    // the third member: "content" : c
    assert(spec_skip_ws(w, 28 + nu + nt) == 28 + nu + nt);
    assert(w[28 + nu + nt] == ',');
    assert(spec_skip_ws(w, 29 + nu + nt) == 29 + nu + nt);
    assert(w[29 + nu + nt] == '"');
    assert(w.subrange(30 + nu + nt, 37 + nu + nt) =~= esc(kc));
    assert(w[37 + nu + nt] == '"');
    lemma_string_body_esc(w, 30 + nu + nt, kc);
    assert(spec_skip_ws(w, 38 + nu + nt) == 38 + nu + nt);
    assert(w[38 + nu + nt] == ':');
    assert(spec_skip_ws(w, 39 + nu + nt) == 39 + nu + nt);
    assert(w[39 + nu + nt] == '"');
    assert(w.subrange(40 + nu + nt, 40 + nu + nt + nc) =~= esc(c));
    assert(w[40 + nu + nt + nc] == '"');
    lemma_string_body_esc(w, 40 + nu + nt, c);
    assert(spec_member(w, 29 + nu + nt) == Some((kc, c, 41 + nu + nt + nc)));
    // the close and the end of input
    assert(spec_skip_ws(w, 41 + nu + nt + nc) == 41 + nu + nt + nc);
    assert(w[41 + nu + nt + nc] == '}');
    assert(spec_skip_ws(w, 42 + nu + nt + nc) == 42 + nu + nt + nc);
    assert(end_ok(w, 42 + nu + nt + nc));
    // the three members fill the three slots in order
    assert(slots_put((None, None, None), ku, u) == Some(
        (Some(u), None::<Seq<char>>, None::<Seq<char>>),
    ));
    assert(spec_parse_message(w) == Some((u, t, c)));
}

/// Render an envelope as one wire frame: the three members in fixed order,
/// each value escaped, no whitespace.
pub fn serialize_message(m: &ChatMessage) -> (r: String)
    ensures
        r@ == wire_of(m.user_id@, m.timestamp@, m.content@),
{
    let mut out = String::from_str("{\"user_id\":\"");
    let eu = escape_string(&m.user_id);
    out.append(eu.as_str());
    out.append("\",\"timestamp\":\"");
    let et = escape_string(&m.timestamp);
    out.append(et.as_str());
    out.append("\",\"content\":\"");
    let ec = escape_string(&m.content);
    out.append(ec.as_str());
    out.append("\"}");
    out
}

} // verus!
