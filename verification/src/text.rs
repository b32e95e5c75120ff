use vstd::prelude::*;

use crate::errors::{StoreError, StoreErrorV};
use crate::json::{arr_views, obj_views, Json, JsonV};

verus! {

// --- The printed form -------------------------------------------------
//
// The store document is persisted as JSON text.  The printer below emits a
// canonical compact form; the parser accepts standard JSON with
// whitespace, string escapes (surrogate pairs included) and numbers —
// 64-bit integers exactly, every other number as its literal text — and
// the round trip through both is proved exact.

/// The decimal digit character for `d` in `0 .. 10`.
pub open spec fn dec_digit(d: int) -> char {
    ((48 + d) as u8) as char
}

/// The hexadecimal digit character for `d` in `0 .. 16`, lower case.
pub open spec fn hex_digit(d: int) -> char {
    if d < 10 {
        dec_digit(d)
    } else {
        ((87 + d) as u8) as char
    }
}

/// The decimal digits of `n`, most significant first, no leading zero.
pub open spec fn dec_digits(n: nat) -> Seq<char>
    decreases n,
{
    if n < 10 {
        seq![dec_digit(n as int)]
    } else {
        dec_digits(n / 10).push(dec_digit((n % 10) as int))
    }
}

/// The canonical text of a 64-bit integer.
pub open spec fn int_text(i: int) -> Seq<char> {
    if i < 0 {
        seq!['-'] + dec_digits((-i) as nat)
    } else {
        dec_digits(i as nat)
    }
}

/// How one character stands inside a printed string: quote and backslash
/// escaped, control characters in hexadecimal form, all else verbatim.
pub open spec fn esc_char(c: char) -> Seq<char> {
    if c == '"' {
        seq!['\\', '"']
    } else if c == '\\' {
        seq!['\\', '\\']
    } else if (c as u32) < 32 {
        seq!['\\', 'u', '0', '0', hex_digit(((c as u32) / 16) as int), hex_digit(
            ((c as u32) % 16) as int,
        )]
    } else {
        seq![c]
    }
}

/// The printed body of a string, between the quotes.
pub open spec fn str_body(s: Seq<char>) -> Seq<char>
    decreases s.len(),
{
    if s.len() == 0 {
        Seq::empty()
    } else {
        esc_char(s[0]) + str_body(s.drop_first())
    }
}

/// The printed form of a string, quotes included.
pub open spec fn str_text(s: Seq<char>) -> Seq<char> {
    seq!['"'] + str_body(s) + seq!['"']
}

/// The printed elements of a non-empty array, comma separated.
pub open spec fn elems_text(items: Seq<JsonV>) -> Seq<char>
    decreases items, 1int,
{
    if items.len() == 0 {
        Seq::empty()
    } else {
        json_text(items[0]) + rest_elems_text(items.drop_first())
    }
}

/// The printed later elements of an array, each with its leading comma.
pub open spec fn rest_elems_text(items: Seq<JsonV>) -> Seq<char>
    decreases items, 2int,
{
    if items.len() == 0 {
        Seq::empty()
    } else {
        seq![','] + json_text(items[0]) + rest_elems_text(items.drop_first())
    }
}

/// The printed members of a non-empty object, comma separated.
pub open spec fn members_text(ms: Seq<(Seq<char>, JsonV)>) -> Seq<char>
    decreases ms, 1int,
{
    if ms.len() == 0 {
        Seq::empty()
    } else {
        str_text(ms[0].0) + seq![':'] + json_text(ms[0].1) + rest_members_text(ms.drop_first())
    }
}

/// The printed later members of an object, each with its leading comma.
pub open spec fn rest_members_text(ms: Seq<(Seq<char>, JsonV)>) -> Seq<char>
    decreases ms, 2int,
{
    if ms.len() == 0 {
        Seq::empty()
    } else {
        seq![','] + str_text(ms[0].0) + seq![':'] + json_text(ms[0].1) + rest_members_text(
            ms.drop_first(),
        )
    }
}

/// The canonical compact text of a document.
pub open spec fn json_text(j: JsonV) -> Seq<char>
    decreases j, 0int,
{
    match j {
        JsonV::Null => seq!['n', 'u', 'l', 'l'],
        JsonV::Bool(b) => if b {
            seq!['t', 'r', 'u', 'e']
        } else {
            seq!['f', 'a', 'l', 's', 'e']
        },
        JsonV::Int(i) => int_text(i),
        JsonV::Num(t) => t,
        JsonV::Str(s) => str_text(s),
        JsonV::Arr(items) => seq!['['] + elems_text(items) + seq![']'],
        JsonV::Obj(ms) => seq!['{'] + members_text(ms) + seq!['}'],
    }
}

// --- The parsed form --------------------------------------------------

/// JSON insignificant whitespace.
pub open spec fn is_ws(c: char) -> bool {
    c == ' ' || c == '\n' || c == '\t' || c == '\r'
}

/// The suffix after leading whitespace.
pub open spec fn skip_ws(s: Seq<char>) -> Seq<char>
    decreases s.len(),
{
    if s.len() > 0 && is_ws(s[0]) {
        skip_ws(s.drop_first())
    } else {
        s
    }
}

pub open spec fn is_digit(c: char) -> bool {
    '0' <= c && c <= '9'
}

pub open spec fn digit_val(c: char) -> int {
    c as u32 - 48
}

/// The value of a hexadecimal digit, or a negative number for any other
/// character.
pub open spec fn hex_val(c: char) -> int {
    if '0' <= c && c <= '9' {
        c as u32 - 48
    } else if 'a' <= c && c <= 'f' {
        c as u32 - 87
    } else if 'A' <= c && c <= 'F' {
        c as u32 - 55
    } else {
        -1
    }
}

/// A code point that a `char` can hold.
pub open spec fn is_scalar_u32(u: u32) -> bool {
    u < 0xD800 || (0xE000 <= u && u <= 0x10FFFF)
}

/// The longest digit prefix and the rest.
pub open spec fn take_digits(s: Seq<char>) -> (Seq<char>, Seq<char>)
    decreases s.len(),
{
    if s.len() > 0 && is_digit(s[0]) {
        let (d, r) = take_digits(s.drop_first());
        (seq![s[0]] + d, r)
    } else {
        (Seq::empty(), s)
    }
}

/// The number the digits spell, most significant first.
pub open spec fn digits_val(ds: Seq<char>) -> int
    decreases ds.len(),
{
    if ds.len() == 0 {
        0
    } else {
        digits_val(ds.drop_last()) * 10 + digit_val(ds.last())
    }
}

/// The suffix after an optional fraction part, and whether one stood
/// there; a bare point without digits is malformed.
pub open spec fn after_frac(r: Seq<char>) -> Option<(bool, Seq<char>)> {
    if r.len() >= 1 && r[0] == '.' {
        let (fds, r2) = take_digits(r.drop_first());
        if fds.len() == 0 {
            None
        } else {
            Some((true, r2))
        }
    } else {
        Some((false, r))
    }
}

/// The suffix after an optional exponent part, and whether one stood
/// there; an exponent mark without digits is malformed.
pub open spec fn after_exp(r: Seq<char>) -> Option<(bool, Seq<char>)> {
    if r.len() >= 1 && (r[0] == 'e' || r[0] == 'E') {
        let body = if r.len() >= 2 && (r[1] == '+' || r[1] == '-') {
            r.skip(2)
        } else {
            r.drop_first()
        };
        let (eds, r2) = take_digits(body);
        if eds.len() == 0 {
            None
        } else {
            Some((true, r2))
        }
    } else {
        Some((false, r))
    }
}

/// A parsed number: an optional minus, digits without a leading zero,
/// then an optional fraction and an optional exponent.  A plain integer
/// within 64 bits becomes an integer; any other well-formed number —
/// fractional, exponent-bearing or out of range — keeps its literal
/// text.
pub open spec fn parse_number(s: Seq<char>) -> Option<(JsonV, Seq<char>)> {
    let neg = s.len() > 0 && s[0] == '-';
    let body = if neg {
        s.drop_first()
    } else {
        s
    };
    let (ds, r1) = take_digits(body);
    if ds.len() == 0 || (ds.len() > 1 && ds[0] == '0') {
        None
    } else {
        match after_frac(r1) {
            None => None,
            Some((frac, r2)) => match after_exp(r2) {
                None => None,
                Some((exp, r3)) => {
                    let fits = if neg {
                        digits_val(ds) <= 0x8000_0000_0000_0000
                    } else {
                        digits_val(ds) <= 0x7FFF_FFFF_FFFF_FFFF
                    };
                    if !frac && !exp && fits {
                        if neg {
                            Some((JsonV::Int(-digits_val(ds)), r3))
                        } else {
                            Some((JsonV::Int(digits_val(ds)), r3))
                        }
                    } else {
                        Some((JsonV::Num(s.take(s.len() - r3.len())), r3))
                    }
                },
            },
        }
    }
}

/// The body of a string after its opening quote: the characters up to the
/// closing quote, escapes decoded, and the suffix after the quote.
pub open spec fn parse_string_body(s: Seq<char>) -> Option<(Seq<char>, Seq<char>)>
    decreases s.len(),
{
    if s.len() == 0 {
        None
    } else if s[0] == '"' {
        Some((Seq::empty(), s.drop_first()))
    } else if s[0] == '\\' {
        if s.len() < 2 {
            None
        } else if s[1] == 'u' {
            if s.len() < 6 {
                None
            } else {
                let h = hex_val(s[2]) * 4096 + hex_val(s[3]) * 256 + hex_val(s[4]) * 16 + hex_val(
                    s[5],
                );
                if hex_val(s[2]) < 0 || hex_val(s[3]) < 0 || hex_val(s[4]) < 0 || hex_val(s[5]) < 0 {
                    None
                } else if 0xD800 <= h < 0xDC00 {
                    // a high surrogate must pair with a low one; together
                    // they denote one astral character
                    if s.len() < 12 || s[6] != '\\' || s[7] != 'u' {
                        None
                    } else {
                        let lo = hex_val(s[8]) * 4096 + hex_val(s[9]) * 256 + hex_val(s[10]) * 16
                            + hex_val(s[11]);
                        if hex_val(s[8]) < 0 || hex_val(s[9]) < 0 || hex_val(s[10]) < 0 || hex_val(
                            s[11],
                        ) < 0 || !(0xDC00 <= lo < 0xE000) {
                            None
                        } else {
                            let c = 0x10000 + (h - 0xD800) * 0x400 + (lo - 0xDC00);
                            match parse_string_body(s.skip(12)) {
                                None => None,
                                Some((t, r)) => Some((seq![(c as u32) as char] + t, r)),
                            }
                        }
                    }
                } else if !is_scalar_u32(h as u32) {
                    None
                } else {
                    match parse_string_body(s.skip(6)) {
                        None => None,
                        Some((t, r)) => Some((seq![(h as u32) as char] + t, r)),
                    }
                }
            }
        } else {
            let c = if s[1] == '"' {
                '"'
            } else if s[1] == '\\' {
                '\\'
            } else if s[1] == '/' {
                '/'
            } else if s[1] == 'n' {
                '\n'
            } else if s[1] == 't' {
                '\t'
            } else if s[1] == 'r' {
                '\r'
            } else if s[1] == 'b' {
                8u8 as char
            } else {
                12u8 as char
            };
            if s[1] == '"' || s[1] == '\\' || s[1] == '/' || s[1] == 'n' || s[1] == 't' || s[1]
                == 'r' || s[1] == 'b' || s[1] == 'f' {
                match parse_string_body(s.skip(2)) {
                    None => None,
                    Some((t, r)) => Some((seq![c] + t, r)),
                }
            } else {
                None
            }
        }
    } else {
        match parse_string_body(s.drop_first()) {
            None => None,
            Some((t, r)) => Some((seq![s[0]] + t, r)),
        }
    }
}

/// A parsed value, and the suffix after it.  The guards on suffix lengths
/// only serve termination: whitespace skipping never lengthens the text,
/// so they always pass.
pub open spec fn parse_value(s: Seq<char>) -> Option<(JsonV, Seq<char>)>
    decreases s.len(), 1int,
{
    if s.len() == 0 {
        None
    } else if is_ws(s[0]) {
        parse_value(s.drop_first())
    } else if s[0] == 'n' {
        if s.len() >= 4 && s[1] == 'u' && s[2] == 'l' && s[3] == 'l' {
            Some((JsonV::Null, s.skip(4)))
        } else {
            None
        }
    } else if s[0] == 't' {
        if s.len() >= 4 && s[1] == 'r' && s[2] == 'u' && s[3] == 'e' {
            Some((JsonV::Bool(true), s.skip(4)))
        } else {
            None
        }
    } else if s[0] == 'f' {
        if s.len() >= 5 && s[1] == 'a' && s[2] == 'l' && s[3] == 's' && s[4] == 'e' {
            Some((JsonV::Bool(false), s.skip(5)))
        } else {
            None
        }
    } else if s[0] == '"' {
        match parse_string_body(s.drop_first()) {
            None => None,
            Some((t, r)) => Some((JsonV::Str(t), r)),
        }
    } else if s[0] == '[' {
        let t = skip_ws(s.drop_first());
        if t.len() < s.len() {
            if t.len() > 0 && t[0] == ']' {
                Some((JsonV::Arr(Seq::empty()), t.drop_first()))
            } else {
                match parse_elems(t) {
                    None => None,
                    Some((vs, r)) => Some((JsonV::Arr(vs), r)),
                }
            }
        } else {
            None
        }
    } else if s[0] == '{' {
        let t = skip_ws(s.drop_first());
        if t.len() < s.len() {
            if t.len() > 0 && t[0] == '}' {
                Some((JsonV::Obj(Seq::empty()), t.drop_first()))
            } else {
                match parse_members(t) {
                    None => None,
                    Some((ms, r)) => Some((JsonV::Obj(ms), r)),
                }
            }
        } else {
            None
        }
    } else if s[0] == '-' || is_digit(s[0]) {
        parse_number(s)
    } else {
        None
    }
}

/// The elements of an array from the first element on, and the suffix
/// after the closing bracket.
pub open spec fn parse_elems(s: Seq<char>) -> Option<(Seq<JsonV>, Seq<char>)>
    decreases s.len(), 2int,
{
    match parse_value(s) {
        None => None,
        Some((v, r0)) => {
            let r = skip_ws(r0);
            if r.len() < s.len() {
                if r.len() > 0 && r[0] == ',' {
                    match parse_elems(r.drop_first()) {
                        None => None,
                        Some((vs, r2)) => Some((seq![v] + vs, r2)),
                    }
                } else if r.len() > 0 && r[0] == ']' {
                    Some((seq![v], r.drop_first()))
                } else {
                    None
                }
            } else {
                None
            }
        },
    }
}

/// The members of an object from the first key on, and the suffix after
/// the closing brace.
pub open spec fn parse_members(s: Seq<char>) -> Option<(Seq<(Seq<char>, JsonV)>, Seq<char>)>
    decreases s.len(), 2int,
{
    if s.len() > 0 && s[0] == '"' {
        match parse_string_body(s.drop_first()) {
            None => None,
            Some((k, r1)) => {
                let r2 = skip_ws(r1);
                if r2.len() > 0 && r2[0] == ':' && r2.len() < s.len() {
                    match parse_value(r2.drop_first()) {
                        None => None,
                        Some((v, r3)) => {
                            let r4 = skip_ws(r3);
                            if r4.len() < s.len() {
                                if r4.len() > 0 && r4[0] == ',' {
                                    let r5 = skip_ws(r4.drop_first());
                                    if r5.len() < s.len() {
                                        match parse_members(r5) {
                                            None => None,
                                            Some((ms, r6)) => Some((seq![(k, v)] + ms, r6)),
                                        }
                                    } else {
                                        None
                                    }
                                } else if r4.len() > 0 && r4[0] == '}' {
                                    Some((seq![(k, v)], r4.drop_first()))
                                } else {
                                    None
                                }
                            } else {
                                None
                            }
                        },
                    }
                } else {
                    None
                }
            },
        }
    } else {
        None
    }
}

/// A whole document: one value with nothing but whitespace around it.
pub open spec fn parse_json(s: Seq<char>) -> Option<JsonV> {
    match parse_value(s) {
        None => None,
        Some((v, r)) => if skip_ws(r).len() == 0 {
            Some(v)
        } else {
            None
        },
    }
}

// --- Round trip -------------------------------------------------------

/// A document whose integers fit in 64 bits — every document the
/// executable tree can hold.
pub open spec fn json_wf(j: JsonV) -> bool
    decreases j,
{
    match j {
        JsonV::Int(i) => -0x8000_0000_0000_0000 <= i <= 0x7FFF_FFFF_FFFF_FFFF,
        JsonV::Num(t) => parse_number(t) == Some((JsonV::Num(t), Seq::<char>::empty())),
        JsonV::Arr(items) => forall|i: int| 0 <= i < items.len() ==> json_wf(#[trigger] items[i]),
        JsonV::Obj(ms) => forall|i: int| 0 <= i < ms.len() ==> json_wf((#[trigger] ms[i]).1),
        _ => true,
    }
}

/// Every digit sequence the printer emits consists of digit characters.
pub open spec fn all_digits(ds: Seq<char>) -> bool {
    forall|i: int| 0 <= i < ds.len() ==> is_digit(#[trigger] ds[i])
}

/// The printed digits of `n`: none missing, all digits, no leading zero
/// unless `n` itself is one digit, and they spell `n` again.
pub proof fn lemma_dec_digits(n: nat)
    ensures
        dec_digits(n).len() >= 1,
        all_digits(dec_digits(n)),
        n >= 10 ==> dec_digits(n)[0] != '0',
        n < 10 ==> dec_digits(n).len() == 1,
        digits_val(dec_digits(n)) == n,
    decreases n,
{
    if n < 10 {
        assert(dec_digits(n) == seq![dec_digit(n as int)]);
        assert(is_digit(dec_digit(n as int)));
        assert(dec_digits(n).drop_last() =~= Seq::<char>::empty());
        assert(dec_digits(n).last() == dec_digit(n as int));
        assert(digits_val(dec_digits(n)) == digits_val(Seq::<char>::empty()) * 10 + digit_val(
            dec_digit(n as int),
        ));
    } else {
        lemma_dec_digits(n / 10);
        let ds = dec_digits(n);
        let hd = dec_digits(n / 10);
        assert(ds == hd.push(dec_digit((n % 10) as int)));
        assert(ds.drop_last() =~= hd);
        assert forall|i: int| 0 <= i < ds.len() implies is_digit(#[trigger] ds[i]) by {
            if i < hd.len() {
                assert(is_digit(hd[i]));
            } else {
                assert(is_digit(dec_digit((n % 10) as int)));
            }
        }
        assert(ds[0] == hd[0]);
        if n / 10 >= 10 {
        } else {
            assert(hd[0] == dec_digit((n / 10) as int));
            assert(n / 10 >= 1);
        }
        assert(digits_val(ds) == digits_val(hd) * 10 + digit_val(dec_digit((n % 10) as int)));
    }
}

/// Digits followed by a non-digit are taken whole and exactly.
pub proof fn lemma_take_digits(ds: Seq<char>, rest: Seq<char>)
    requires
        all_digits(ds),
        rest.len() == 0 || !is_digit(rest[0]),
    ensures
        take_digits(ds + rest) == (ds, rest),
    decreases ds.len(),
{
    if ds.len() == 0 {
        assert(ds + rest =~= rest);
        if rest.len() > 0 {
            assert(!is_digit((ds + rest)[0]));
        }
        assert(take_digits(ds + rest) == (Seq::<char>::empty(), ds + rest));
        assert(ds + rest =~= rest);
    } else {
        assert((ds + rest)[0] == ds[0]);
        assert(is_digit(ds[0]));
        assert((ds + rest).drop_first() =~= ds.drop_first() + rest);
        assert(all_digits(ds.drop_first())) by {
            assert(forall|i: int|
                0 <= i < ds.drop_first().len() ==> #[trigger] ds.drop_first()[i] == ds[i + 1]);
        }
        lemma_take_digits(ds.drop_first(), rest);
        assert(seq![ds[0]] + ds.drop_first() =~= ds);
    }
}

/// `take_digits` splits its text exactly: digits, then a non-digit rest.
pub proof fn lemma_take_digits_parts(x: Seq<char>)
    ensures
        take_digits(x).0 + take_digits(x).1 =~= x,
        all_digits(take_digits(x).0),
        take_digits(x).1.len() > 0 ==> !is_digit(take_digits(x).1[0]),
    decreases x.len(),
{
    if x.len() > 0 && is_digit(x[0]) {
        lemma_take_digits_parts(x.drop_first());
        let d = take_digits(x.drop_first());
        assert(d.0 + d.1 =~= x.drop_first());
        let glued = (seq![x[0]] + d.0) + d.1;
        assert(glued.len() == x.len());
        assert forall|i: int| 0 <= i < x.len() implies glued[i] == x[i] by {
            if i == 0 {
                assert(glued[0] == x[0]);
            } else if i - 1 < d.0.len() {
                assert(glued[i] == (seq![x[0]] + d.0)[i]);
                assert(glued[i] == d.0[i - 1]);
                assert((d.0 + d.1)[i - 1] == d.0[i - 1]);
                assert(x[i] == x.drop_first()[i - 1]);
            } else {
                assert(glued[i] == d.1[i - 1 - d.0.len()]);
                assert((d.0 + d.1)[i - 1] == d.1[i - 1 - d.0.len()]);
                assert(x[i] == x.drop_first()[i - 1]);
            }
        }
        assert(glued =~= x);
        assert forall|i: int| 0 <= i < take_digits(x).0.len() implies is_digit(
            #[trigger] take_digits(x).0[i],
        ) by {
            if i > 0 {
                assert(take_digits(x).0[i] == d.0[i - 1]);
            }
        }
    }
}

/// Appending text that no digit opens leaves the digit split unchanged.
pub proof fn lemma_take_digits_append(x: Seq<char>, rest: Seq<char>)
    requires
        rest.len() == 0 || !is_digit(rest[0]),
    ensures
        take_digits(x + rest).0 == take_digits(x).0,
        take_digits(x + rest).1 =~= take_digits(x).1 + rest,
    decreases x.len(),
{
    if x.len() == 0 {
        assert(x + rest =~= rest);
        assert(take_digits(x).0 =~= Seq::<char>::empty());
        assert(take_digits(rest).0 =~= Seq::<char>::empty());
        assert(take_digits(x + rest).0 == take_digits(x).0);
        assert(take_digits(x).1 + rest =~= rest);
    } else if is_digit(x[0]) {
        assert((x + rest)[0] == x[0]);
        assert((x + rest).drop_first() =~= x.drop_first() + rest);
        lemma_take_digits_append(x.drop_first(), rest);
        assert(seq![x[0]] + take_digits(x.drop_first() + rest).0 =~= seq![x[0]] + take_digits(
            x.drop_first(),
        ).0);
    } else {
        assert((x + rest)[0] == x[0]);
        assert(take_digits(x + rest).0 =~= take_digits(x).0);
        assert(take_digits(x).1 + rest =~= x + rest);
    }
}

/// Appending text that cannot continue a number moves through the
/// fraction scanner unchanged.
pub proof fn lemma_after_frac_append(r: Seq<char>, rest: Seq<char>)
    requires
        after_frac(r) is Some,
        rest.len() == 0 || !num_cont(rest[0]),
    ensures
        after_frac(r + rest) matches Some(p) && p.0 == after_frac(r)->Some_0.0 && p.1 =~= after_frac(
            r,
        )->Some_0.1 + rest,
{
    if r.len() >= 1 && r[0] == '.' {
        assert((r + rest)[0] == '.');
        assert((r + rest).drop_first() =~= r.drop_first() + rest);
        lemma_take_digits_append(r.drop_first(), rest);
    } else {
        if r.len() == 0 {
            assert(r + rest =~= rest);
            if rest.len() >= 1 {
                assert(!num_cont(rest[0]));
                assert(rest[0] != '.');
            }
            assert(after_frac(r)->Some_0.1 + rest =~= rest);
        } else {
            assert((r + rest)[0] == r[0]);
        }
    }
}

/// Appending text that cannot continue a number moves through the
/// exponent scanner unchanged.
pub proof fn lemma_after_exp_append(r: Seq<char>, rest: Seq<char>)
    requires
        after_exp(r) is Some,
        rest.len() == 0 || !num_cont(rest[0]),
    ensures
        after_exp(r + rest) matches Some(p) && p.0 == after_exp(r)->Some_0.0 && p.1 =~= after_exp(
            r,
        )->Some_0.1 + rest,
{
    if r.len() >= 1 && (r[0] == 'e' || r[0] == 'E') {
        assert((r + rest)[0] == r[0]);
        if r.len() >= 2 && (r[1] == '+' || r[1] == '-') {
            assert((r + rest).len() >= 2 && (r + rest)[1] == r[1]);
            assert((r + rest).skip(2) =~= r.skip(2) + rest);
            lemma_take_digits_append(r.skip(2), rest);
        } else {
            // the exponent digits are non-empty, so `r` reaches past the
            // mark and the sign test reads the same character either way
            assert(take_digits(r.drop_first()).0.len() > 0);
            assert(r.drop_first().len() > 0) by {
                if r.drop_first().len() == 0 {
                    assert(take_digits(r.drop_first()).0 =~= Seq::<char>::empty());
                }
            }
            assert(r.len() >= 2);
            assert((r + rest)[1] == r[1]);
            assert(!((r + rest).len() >= 2 && ((r + rest)[1] == '+' || (r + rest)[1] == '-')));
            assert((r + rest).drop_first() =~= r.drop_first() + rest);
            lemma_take_digits_append(r.drop_first(), rest);
        }
    } else {
        if r.len() == 0 {
            assert(r + rest =~= rest);
            if rest.len() >= 1 {
                assert(rest[0] != 'e' && rest[0] != 'E');
            }
            assert(after_exp(r)->Some_0.1 + rest =~= rest);
        } else {
            assert((r + rest)[0] == r[0]);
        }
    }
}

/// A whole number token followed by text that cannot continue it parses
/// to the very same value, leaving that text.
pub proof fn lemma_parse_number_append(t: Seq<char>, rest: Seq<char>)
    requires
        parse_number(t) matches Some(p) && p.1.len() == 0,
        rest.len() == 0 || !num_cont(rest[0]),
    ensures
        parse_number(t + rest) == Some((parse_number(t)->Some_0.0, rest)),
{
    let s1 = t + rest;
    assert(t.len() > 0) by {
        if t.len() == 0 {
            assert(take_digits(t).0 =~= Seq::<char>::empty());
        }
    }
    assert(s1[0] == t[0]);
    let neg = t[0] == '-';
    let body = if neg {
        t.drop_first()
    } else {
        t
    };
    let body1 = if neg {
        s1.drop_first()
    } else {
        s1
    };
    assert(body1 =~= body + rest);
    lemma_take_digits_append(body, rest);
    let ds = take_digits(body).0;
    let r1 = take_digits(body).1;
    assert(take_digits(body1).0 == ds);
    assert(take_digits(body1).1 =~= r1 + rest);
    lemma_after_frac_append(r1, rest);
    let r2 = after_frac(r1)->Some_0.1;
    lemma_after_exp_append(r2, rest);
    let r3 = after_exp(r2)->Some_0.1;
    assert(r3.len() == 0);
    assert(after_exp(r2 + rest)->Some_0.1 =~= rest) by {
        assert(r3 + rest =~= rest);
    }
    assert(s1.take(s1.len() - rest.len()) =~= t);
    assert(t.take(t.len() - r3.len()) =~= t);
}

/// A parsable number opens with a minus or a digit.
pub proof fn lemma_number_head(t: Seq<char>)
    requires
        parse_number(t) is Some,
    ensures
        t.len() > 0,
        t[0] == '-' || is_digit(t[0]),
{
    assert(t.len() > 0) by {
        if t.len() == 0 {
            assert(take_digits(t).0 =~= Seq::<char>::empty());
        }
    }
    if t[0] != '-' && !is_digit(t[0]) {
        assert(take_digits(t).0 =~= Seq::<char>::empty());
    }
}

/// The canonical text of a 64-bit integer parses back to it whole.
pub proof fn lemma_parse_number_int(i: int)
    requires
        -0x8000_0000_0000_0000 <= i <= 0x7FFF_FFFF_FFFF_FFFF,
    ensures
        parse_number(int_text(i)) == Some((JsonV::Int(i), Seq::<char>::empty())),
{
    let t = int_text(i);
    if i >= 0 {
        let n = i as nat;
        lemma_dec_digits(n);
        assert(t == dec_digits(n));
        assert(is_digit(t[0]));
        assert(dec_digits(n) + Seq::<char>::empty() =~= dec_digits(n));
        lemma_take_digits(dec_digits(n), Seq::empty());
        assert(take_digits(t) == (dec_digits(n), Seq::<char>::empty()));
    } else {
        let n = (-i) as nat;
        lemma_dec_digits(n);
        assert(t[0] == '-');
        assert(t.drop_first() =~= dec_digits(n));
        assert(dec_digits(n) + Seq::<char>::empty() =~= dec_digits(n));
        lemma_take_digits(dec_digits(n), Seq::empty());
        assert(take_digits(t.drop_first()) == (dec_digits(n), Seq::<char>::empty()));
    }
}

/// A printed value is never empty, and its first character opens a value:
/// it is no whitespace, separator or closer.
pub proof fn lemma_print_first(j: JsonV)
    requires
        json_wf(j),
    ensures
        json_text(j).len() >= 1,
        !is_ws(json_text(j)[0]),
        json_text(j)[0] != ']',
        json_text(j)[0] != '}',
        json_text(j)[0] != ',',
        json_text(j)[0] != ':',
{
    match j {
        JsonV::Int(i) => {
            if i < 0 {
                lemma_dec_digits((-i) as nat);
                assert(json_text(j)[0] == '-');
            } else {
                lemma_dec_digits(i as nat);
                assert(json_text(j)[0] == dec_digits(i as nat)[0]);
                assert(is_digit(json_text(j)[0]));
            }
        },
        JsonV::Num(tok) => {
            lemma_number_head(tok);
            assert(json_text(j)[0] == '-' || is_digit(json_text(j)[0]));
        },
        JsonV::Str(s) => {
            assert(json_text(j)[0] == '"');
        },
        JsonV::Arr(items) => {
            assert(json_text(j)[0] == '[');
        },
        JsonV::Obj(ms) => {
            assert(json_text(j)[0] == '{');
        },
        _ => {},
    }
}

/// Hexadecimal printing and reading invert each other digit by digit.
pub proof fn lemma_hex_inv(d: int)
    requires
        0 <= d < 16,
    ensures
        hex_val(hex_digit(d)) == d,
{
}

/// A printed string body followed by the closing quote parses back to the
/// very characters, leaving the suffix.
pub proof fn lemma_parse_str_body(s: Seq<char>, rest: Seq<char>)
    ensures
        parse_string_body(str_body(s) + seq!['"'] + rest) == Some((s, rest)),
    decreases s.len(),
{
    let t = str_body(s) + seq!['"'] + rest;
    if s.len() == 0 {
        assert(t[0] == '"');
        assert(t.drop_first() =~= rest);
    } else {
        let c = s[0];
        let tail = str_body(s.drop_first()) + seq!['"'] + rest;
        assert(t =~= esc_char(c) + tail);
        lemma_parse_str_body(s.drop_first(), rest);
        assert(seq![c] + s.drop_first() =~= s);
        if c == '"' {
            assert(t[0] == '\\' && t[1] == '"');
            assert(t.skip(2) =~= tail);
        } else if c == '\\' {
            assert(t[0] == '\\' && t[1] == '\\');
            assert(t.skip(2) =~= tail);
        } else if (c as u32) < 32 {
            let u = c as u32;
            assert(t[0] == '\\' && t[1] == 'u' && t[2] == '0' && t[3] == '0');
            assert(t[4] == hex_digit((u / 16) as int) && t[5] == hex_digit((u % 16) as int));
            lemma_hex_inv((u / 16) as int);
            lemma_hex_inv((u % 16) as int);
            let h = hex_val(t[2]) * 4096 + hex_val(t[3]) * 256 + hex_val(t[4]) * 16 + hex_val(t[5]);
            assert(h == u);
            assert(is_scalar_u32(h as u32));
            vstd::utf8::char_u32_cast(c, u);
            assert((h as u32) as char == c);
            assert(t.skip(6) =~= tail);
        } else {
            assert(t[0] == c);
            assert(t.drop_first() =~= tail);
        }
    }
}

/// A character that could extend a number token.
pub open spec fn num_cont(c: char) -> bool {
    is_digit(c) || c == '.' || c == 'e' || c == 'E'
}

/// Whether a printed value may stand before this suffix without merging
/// into it: only a number can capture what follows.
pub open spec fn sep_ok(j: JsonV, rest: Seq<char>) -> bool {
    (j is Int || j is Num) ==> rest.len() == 0 || !num_cont(rest[0])
}

/// Round trip of one value: the canonical text of a well-formed document,
/// followed by any suffix it cannot merge with, parses back to the very
/// document and that suffix.
#[verifier::rlimit(100)]
#[verifier::spinoff_prover]
pub proof fn lemma_round_value(j: JsonV, rest: Seq<char>)
    requires
        json_wf(j),
        sep_ok(j, rest),
    ensures
        parse_value(json_text(j) + rest) == Some((j, rest)),
    decreases j, 0int,
{
    let t = json_text(j) + rest;
    match j {
        JsonV::Null => {
            assert(t[0] == 'n' && t[1] == 'u' && t[2] == 'l' && t[3] == 'l');
            assert(t.skip(4) =~= rest);
            assert(parse_value(t) == Some((j, rest)));
        },
        JsonV::Bool(b) => {
            if b {
                assert(t[0] == 't' && t[1] == 'r' && t[2] == 'u' && t[3] == 'e');
                assert(t.skip(4) =~= rest);
            } else {
                assert(t[0] == 'f' && t[1] == 'a' && t[2] == 'l' && t[3] == 's' && t[4] == 'e');
                assert(t.skip(5) =~= rest);
            }
            assert(parse_value(t) == Some((j, rest)));
        },
        JsonV::Int(i) => {
            lemma_parse_number_int(i);
            lemma_parse_number_append(int_text(i), rest);
            if i >= 0 {
                lemma_dec_digits(i as nat);
                assert(t[0] == dec_digits(i as nat)[0]);
                assert(is_digit(t[0]));
            } else {
                lemma_dec_digits((-i) as nat);
                assert(t[0] == '-');
            }
            assert(parse_value(t) == Some((j, rest)));
        },
        JsonV::Num(tok) => {
            lemma_number_head(tok);
            lemma_parse_number_append(tok, rest);
            assert(t[0] == tok[0]);
            assert(t[0] == '-' || is_digit(t[0]));
            assert(parse_value(t) == Some((j, rest)));
        },
        JsonV::Str(str0) => {
            assert(t[0] == '"');
            assert(t.drop_first() =~= str_body(str0) + seq!['"'] + rest);
            lemma_parse_str_body(str0, rest);
            assert(parse_value(t) == Some((j, rest)));
        },
        JsonV::Arr(items) => {
            assert(t[0] == '[');
            let inner = elems_text(items) + seq![']'] + rest;
            assert(t.drop_first() =~= inner);
            if items.len() == 0 {
                assert(inner[0] == ']');
                assert(skip_ws(inner) == inner);
                assert(inner.drop_first() =~= rest);
                assert(items =~= Seq::<JsonV>::empty());
            } else {
                lemma_print_first(items[0]);
                assert(inner[0] == json_text(items[0])[0]);
                assert(!is_ws(inner[0]) && inner[0] != ']');
                assert(skip_ws(inner) == inner);
                lemma_round_elems(items, rest);
            }
            assert(parse_value(t) == Some((j, rest)));
        },
        JsonV::Obj(ms) => {
            assert(t[0] == '{');
            let inner = members_text(ms) + seq!['}'] + rest;
            assert(t.drop_first() =~= inner);
            if ms.len() == 0 {
                assert(inner[0] == '}');
                assert(skip_ws(inner) == inner);
                assert(inner.drop_first() =~= rest);
                assert(ms =~= Seq::<(Seq<char>, JsonV)>::empty());
            } else {
                assert(inner[0] == '"');
                assert(skip_ws(inner) == inner);
                lemma_round_members(ms, rest);
            }
            assert(parse_value(t) == Some((j, rest)));
        },
    }
}

/// Round trip of the elements of a non-empty array.
#[verifier::rlimit(100)]
#[verifier::spinoff_prover]
pub proof fn lemma_round_elems(items: Seq<JsonV>, rest: Seq<char>)
    requires
        items.len() > 0,
        forall|i: int| 0 <= i < items.len() ==> json_wf(#[trigger] items[i]),
    ensures
        parse_elems(elems_text(items) + seq![']'] + rest) == Some((items, rest)),
    decreases items, 1int,
{
    let s = elems_text(items) + seq![']'] + rest;
    let d = items.drop_first();
    let tail = rest_elems_text(d) + seq![']'] + rest;
    assert(s =~= json_text(items[0]) + tail);
    lemma_print_first(items[0]);
    if d.len() == 0 {
        assert(tail[0] == ']');
        lemma_round_value(items[0], tail);
        assert(skip_ws(tail) == tail);
        assert(tail.drop_first() =~= rest);
        assert(seq![items[0]] =~= items);
    } else {
        assert(tail[0] == ',');
        lemma_round_value(items[0], tail);
        assert(skip_ws(tail) == tail);
        assert(tail.drop_first() =~= elems_text(d) + seq![']'] + rest) by {
            assert(elems_text(d) == json_text(d[0]) + rest_elems_text(d.drop_first()));
        }
        lemma_round_elems(d, rest);
        assert(seq![items[0]] + d =~= items);
    }
}

/// Round trip of the members of a non-empty object.
#[verifier::rlimit(100)]
#[verifier::spinoff_prover]
pub proof fn lemma_round_members(ms: Seq<(Seq<char>, JsonV)>, rest: Seq<char>)
    requires
        ms.len() > 0,
        forall|i: int| 0 <= i < ms.len() ==> json_wf((#[trigger] ms[i]).1),
    ensures
        parse_members(members_text(ms) + seq!['}'] + rest) == Some((ms, rest)),
    decreases ms, 1int,
{
    let s = members_text(ms) + seq!['}'] + rest;
    let d = ms.drop_first();
    let k = ms[0].0;
    let v = ms[0].1;
    let after_key = seq![':'] + json_text(v) + rest_members_text(d) + seq!['}'] + rest;
    assert(s[0] == '"');
    assert(s.drop_first() =~= str_body(k) + seq!['"'] + after_key);
    lemma_parse_str_body(k, after_key);
    assert(skip_ws(after_key) == after_key);
    assert(after_key[0] == ':');
    assert(after_key.len() < s.len()) by {
        lemma_str_body_len(k);
    }
    let after_colon = json_text(v) + rest_members_text(d) + seq!['}'] + rest;
    assert(after_key.drop_first() =~= after_colon);
    let tail = rest_members_text(d) + seq!['}'] + rest;
    assert(after_colon =~= json_text(v) + tail);
    lemma_print_first(v);
    if d.len() == 0 {
        assert(tail[0] == '}');
        lemma_round_value(v, tail);
        assert(skip_ws(tail) == tail);
        assert(tail.len() < s.len());
        assert(tail.drop_first() =~= rest);
        assert(seq![(k, v)] =~= ms);
    } else {
        assert(tail[0] == ',');
        lemma_round_value(v, tail);
        assert(skip_ws(tail) == tail);
        assert(tail.len() < s.len());
        let next = str_text(d[0].0) + seq![':'] + json_text(d[0].1) + rest_members_text(
            d.drop_first(),
        ) + seq!['}'] + rest;
        assert(tail.drop_first() =~= next);
        assert(next[0] == '"');
        assert(skip_ws(next) == next);
        assert(next =~= members_text(d) + seq!['}'] + rest) by {
            assert(members_text(d) == str_text(d[0].0) + seq![':'] + json_text(d[0].1)
                + rest_members_text(d.drop_first()));
        }
        assert(next.len() < s.len()) by {
            lemma_str_body_len(k);
        }
        lemma_round_members(d, rest);
        assert(seq![(k, v)] + d =~= ms);
    }
}

/// A printed string body is never shorter than the string.
pub proof fn lemma_str_body_len(s: Seq<char>)
    ensures
        str_body(s).len() >= s.len(),
    decreases s.len(),
{
    if s.len() > 0 {
        lemma_str_body_len(s.drop_first());
    }
}

/// Round trip of a whole document: parsing the canonical text of any
/// well-formed document yields that document again.
pub proof fn lemma_round_trip(j: JsonV)
    requires
        json_wf(j),
    ensures
        parse_json(json_text(j)) == Some(j),
{
    assert(json_text(j) + Seq::<char>::empty() =~= json_text(j));
    lemma_round_value(j, Seq::empty());
    assert(skip_ws(Seq::<char>::empty()).len() == 0);
}

// --- The executable printer -------------------------------------------

/// Relies on str::chars for the characters of a string, in order.
#[verifier::external_body]
pub(crate) fn str_chars(s: &str) -> (r: Vec<char>)
    ensures
        r@ == s@,
{
    s.chars().collect()
}

/// Relies on String's FromIterator over characters: a string holding
/// exactly the given characters.
#[verifier::external_body]
pub(crate) fn string_from_chars(v: &Vec<char>) -> (r: String)
    ensures
        r@ == v@,
{
    v.iter().collect()
}

/// Printing a concatenation prints the parts in turn.
pub proof fn lemma_str_body_concat(a: Seq<char>, b: Seq<char>)
    ensures
        str_body(a + b) == str_body(a) + str_body(b),
    decreases a.len(),
{
    if a.len() == 0 {
        assert(a + b =~= b);
        assert(str_body(a) + str_body(b) =~= str_body(b));
    } else {
        assert((a + b)[0] == a[0]);
        assert((a + b).drop_first() =~= a.drop_first() + b);
        lemma_str_body_concat(a.drop_first(), b);
        assert(esc_char(a[0]) + (str_body(a.drop_first()) + str_body(b)) =~= (esc_char(a[0])
            + str_body(a.drop_first())) + str_body(b));
    }
}

/// One more element extends the printed elements by a comma and its text.
pub proof fn lemma_rest_elems_snoc(a: Seq<JsonV>, x: JsonV)
    ensures
        rest_elems_text(a.push(x)) == rest_elems_text(a) + seq![','] + json_text(x),
    decreases a.len(),
{
    if a.len() == 0 {
        assert(a.push(x)[0] == x);
        assert(a.push(x).drop_first() =~= Seq::<JsonV>::empty());
        reveal_with_fuel(rest_elems_text, 2);
        assert(rest_elems_text(a.push(x)) =~= rest_elems_text(a) + seq![','] + json_text(x));
    } else {
        assert(a.push(x)[0] == a[0]);
        assert(a.push(x).drop_first() =~= a.drop_first().push(x));
        lemma_rest_elems_snoc(a.drop_first(), x);
        assert(seq![','] + json_text(a[0]) + (rest_elems_text(a.drop_first()) + seq![',']
            + json_text(x)) =~= (seq![','] + json_text(a[0]) + rest_elems_text(a.drop_first()))
            + seq![','] + json_text(x));
    }
}

/// One more element extends a non-empty printed element list.
pub proof fn lemma_elems_snoc(a: Seq<JsonV>, x: JsonV)
    requires
        a.len() > 0,
    ensures
        elems_text(a.push(x)) == elems_text(a) + seq![','] + json_text(x),
{
    assert(a.push(x)[0] == a[0]);
    assert(a.push(x).drop_first() =~= a.drop_first().push(x));
    lemma_rest_elems_snoc(a.drop_first(), x);
    assert(json_text(a[0]) + (rest_elems_text(a.drop_first()) + seq![','] + json_text(x)) =~= (
    json_text(a[0]) + rest_elems_text(a.drop_first())) + seq![','] + json_text(x));
}

/// One more member extends the printed members by a comma and its text.
pub proof fn lemma_rest_members_snoc(a: Seq<(Seq<char>, JsonV)>, x: (Seq<char>, JsonV))
    ensures
        rest_members_text(a.push(x)) == rest_members_text(a) + seq![','] + str_text(x.0)
            + seq![':'] + json_text(x.1),
    decreases a.len(),
{
    if a.len() == 0 {
        assert(a.push(x)[0] == x);
        assert(a.push(x).drop_first() =~= Seq::<(Seq<char>, JsonV)>::empty());
        reveal_with_fuel(rest_members_text, 2);
        assert(rest_members_text(a.push(x)) =~= rest_members_text(a) + seq![','] + str_text(x.0)
            + seq![':'] + json_text(x.1));
    } else {
        assert(a.push(x)[0] == a[0]);
        assert(a.push(x).drop_first() =~= a.drop_first().push(x));
        lemma_rest_members_snoc(a.drop_first(), x);
        assert(seq![','] + str_text(a[0].0) + seq![':'] + json_text(a[0].1) + (rest_members_text(
            a.drop_first(),
        ) + seq![','] + str_text(x.0) + seq![':'] + json_text(x.1)) =~= (seq![','] + str_text(
            a[0].0,
        ) + seq![':'] + json_text(a[0].1) + rest_members_text(a.drop_first())) + seq![',']
            + str_text(x.0) + seq![':'] + json_text(x.1));
    }
}

/// One more member extends a non-empty printed member list.
pub proof fn lemma_members_snoc(a: Seq<(Seq<char>, JsonV)>, x: (Seq<char>, JsonV))
    requires
        a.len() > 0,
    ensures
        members_text(a.push(x)) == members_text(a) + seq![','] + str_text(x.0) + seq![':']
            + json_text(x.1),
{
    assert(a.push(x)[0] == a[0]);
    assert(a.push(x).drop_first() =~= a.drop_first().push(x));
    lemma_rest_members_snoc(a.drop_first(), x);
    assert(str_text(a[0].0) + seq![':'] + json_text(a[0].1) + (rest_members_text(a.drop_first())
        + seq![','] + str_text(x.0) + seq![':'] + json_text(x.1)) =~= (str_text(a[0].0) + seq![':']
        + json_text(a[0].1) + rest_members_text(a.drop_first())) + seq![','] + str_text(x.0)
        + seq![':'] + json_text(x.1));
}

/// Appends the decimal digits of `mag`, most significant first.
fn push_digits(out: &mut Vec<char>, mag: u64)
    ensures
        final(out)@ == old(out)@ + dec_digits(mag as nat),
    decreases mag,
{
    if mag < 10 {
        let d = ((48 + mag as u8) as u8) as char;
        out.push(d);
        proof {
            assert(old(out)@.push(dec_digit(mag as int)) =~= old(out)@ + dec_digits(mag as nat));
        }
    } else {
        push_digits(out, mag / 10);
        let d = ((48 + (mag % 10) as u8) as u8) as char;
        out.push(d);
        proof {
            assert(dec_digits(mag as nat) == dec_digits((mag as nat) / 10).push(dec_digit(
                ((mag as nat) % 10) as int,
            )));
            assert((old(out)@ + dec_digits((mag as nat) / 10)).push(dec_digit(
                ((mag as nat) % 10) as int,
            )) =~= old(out)@ + dec_digits(mag as nat));
        }
    }
}

/// Appends the canonical text of a 64-bit integer.
fn push_int(out: &mut Vec<char>, i: i64)
    ensures
        final(out)@ == old(out)@ + int_text(i as int),
{
    if i >= 0 {
        push_digits(out, i as u64);
    } else {
        out.push('-');
        let mag: u64 = if i < -9223372036854775807i64 {
            9223372036854775808u64
        } else {
            (-i) as u64
        };
        proof {
            assert(mag as nat == (-(i as int)) as nat);
        }
        push_digits(out, mag);
        proof {
            assert(old(out)@.push('-') + dec_digits(mag as nat) =~= old(out)@ + int_text(i as int));
        }
    }
}

/// Appends the printed form of a string, quotes and escapes included.
#[verifier::loop_isolation(false)]
fn push_str_text(out: &mut Vec<char>, s: &String)
    ensures
        final(out)@ == old(out)@ + str_text(s@),
{
    out.push('"');
    let cs = str_chars(s.as_str());
    let ghost base = out@;
    let mut i: usize = 0;
    while i < cs.len()
        invariant
            i <= cs@.len(),
            out@ == base + str_body(cs@.take(i as int)),
        decreases cs@.len() - i,
    {
        let ghost prefix = out@;
        let c = cs[i];
        if c == '"' {
            out.push('\\');
            out.push('"');
        } else if c == '\\' {
            out.push('\\');
            out.push('\\');
        } else {
            let u = c as u32;
            if u < 32 {
                out.push('\\');
                out.push('u');
                out.push('0');
                out.push('0');
                let hv = (u / 16) as u8;
                let hc = if hv < 10 {
                    (48 + hv) as char
                } else {
                    (87 + hv) as char
                };
                out.push(hc);
                let lv = (u % 16) as u8;
                let lc = if lv < 10 {
                    (48 + lv) as char
                } else {
                    (87 + lv) as char
                };
                out.push(lc);
            } else {
                out.push(c);
            }
        }
        proof {
            assert(out@ =~= prefix + esc_char(cs@[i as int]));
            assert(cs@.take(i as int + 1) =~= cs@.take(i as int) + seq![cs@[i as int]]);
            lemma_str_body_concat(cs@.take(i as int), seq![cs@[i as int]]);
            assert(str_body(seq![cs@[i as int]]) =~= esc_char(cs@[i as int])) by {
                assert(seq![cs@[i as int]].drop_first() =~= Seq::<char>::empty());
                reveal_with_fuel(str_body, 2);
            }
            assert(out@ =~= base + str_body(cs@.take(i as int + 1)));
        }
        i = i + 1;
    }
    out.push('"');
    proof {
        assert(cs@.take(cs@.len() as int) =~= cs@);
        assert(base + str_body(cs@) + seq!['"'] =~= old(out)@ + str_text(s@));
        assert(out@ =~= base + str_body(cs@) + seq!['"']);
    }
}

/// Appends the canonical compact text of a document.
#[verifier::loop_isolation(false)]
#[verifier::rlimit(100)]
#[verifier::spinoff_prover]
pub fn json_push_text(out: &mut Vec<char>, j: &Json)
    ensures
        final(out)@ == old(out)@ + json_text(j@),
    decreases *j,
{
    match j {
        Json::Null => {
            out.push('n');
            out.push('u');
            out.push('l');
            out.push('l');
            proof {
                assert(out@ =~= old(out)@ + json_text(j@));
            }
        },
        Json::Bool(b) => {
            if *b {
                out.push('t');
                out.push('r');
                out.push('u');
                out.push('e');
            } else {
                out.push('f');
                out.push('a');
                out.push('l');
                out.push('s');
                out.push('e');
            }
            proof {
                assert(out@ =~= old(out)@ + json_text(j@));
            }
        },
        Json::Int(i) => {
            push_int(out, *i);
        },
        Json::Num(tok) => {
            let cs = str_chars(tok.as_str());
            let ghost base = out@;
            let mut i: usize = 0;
            while i < cs.len()
                invariant
                    i <= cs@.len(),
                    out@ =~= base + cs@.take(i as int),
                decreases cs@.len() - i,
            {
                out.push(cs[i]);
                proof {
                    assert(cs@.take(i as int + 1) =~= cs@.take(i as int).push(cs@[i as int]));
                }
                i = i + 1;
            }
            proof {
                assert(cs@.take(cs@.len() as int) =~= cs@);
                assert(out@ =~= old(out)@ + json_text(j@));
            }
        },
        Json::Str(s) => {
            push_str_text(out, s);
        },
        Json::Arr(items) => {
            let ghost vs = arr_views(items@);
            out.push('[');
            let ghost base = out@;
            let mut i: usize = 0;
            while i < items.len()
                invariant
                    i <= items@.len(),
                    out@ == base + if i == 0 {
                        Seq::<char>::empty()
                    } else {
                        elems_text(vs.take(i as int))
                    },
                decreases items@.len() - i,
            {
                let ghost prefix = out@;
                if i > 0 {
                    out.push(',');
                }
                proof {
                    assert(*items == self_arr_items(j));
                    assert(decreases_to!(*j => *items));
                    assert(decreases_to!(*items => items@));
                    assert(decreases_to!(items@ => items@[i as int]));
                }
                json_push_text(out, &items[i]);
                proof {
                    assert(vs.take(i as int + 1) =~= vs.take(i as int).push(vs[i as int]));
                    if i == 0 {
                        assert(vs.take(1).drop_first() =~= Seq::<JsonV>::empty());
                        assert(elems_text(vs.take(1)) =~= json_text(vs[0]));
                        assert(out@ =~= base + elems_text(vs.take(1)));
                    } else {
                        lemma_elems_snoc(vs.take(i as int), vs[i as int]);
                        assert(out@ =~= prefix + seq![','] + json_text(vs[i as int]));
                        assert(out@ =~= base + elems_text(vs.take(i as int + 1)));
                    }
                }
                i = i + 1;
            }
            out.push(']');
            proof {
                assert(vs.take(vs.len() as int) =~= vs);
                if items@.len() == 0 {
                    assert(elems_text(vs) =~= Seq::<char>::empty());
                }
                assert(out@ =~= old(out)@ + (seq!['['] + elems_text(vs) + seq![']']));
            }
        },
        Json::Obj(members) => {
            let ghost ms = obj_views(members@);
            out.push('{');
            let ghost base = out@;
            let mut i: usize = 0;
            while i < members.len()
                invariant
                    i <= members@.len(),
                    out@ == base + if i == 0 {
                        Seq::<char>::empty()
                    } else {
                        members_text(ms.take(i as int))
                    },
                decreases members@.len() - i,
            {
                let ghost prefix = out@;
                if i > 0 {
                    out.push(',');
                }
                let ghost mid = out@;
                push_str_text(out, &members[i].0);
                out.push(':');
                proof {
                    assert(*members == self_obj_members(j));
                    assert(decreases_to!(*j => *members));
                    assert(decreases_to!(*members => members@));
                    assert(decreases_to!(members@ => members@[i as int]));
                    assert(decreases_to!(members@[i as int] => members@[i as int].1));
                }
                json_push_text(out, &members[i].1);
                proof {
                    assert(ms.take(i as int + 1) =~= ms.take(i as int).push(ms[i as int]));
                    assert(out@ =~= mid + str_text(ms[i as int].0) + seq![':'] + json_text(
                        ms[i as int].1,
                    ));
                    if i == 0 {
                        assert(ms.take(1).drop_first() =~= Seq::<(Seq<char>, JsonV)>::empty());
                        assert(members_text(ms.take(1)) =~= str_text(ms[0].0) + seq![':']
                            + json_text(ms[0].1));
                        assert(out@ =~= base + members_text(ms.take(1)));
                    } else {
                        lemma_members_snoc(ms.take(i as int), ms[i as int]);
                        assert(out@ =~= base + members_text(ms.take(i as int + 1)));
                    }
                }
                i = i + 1;
            }
            out.push('}');
            proof {
                assert(ms.take(ms.len() as int) =~= ms);
                if members@.len() == 0 {
                    assert(members_text(ms) =~= Seq::<char>::empty());
                }
                assert(out@ =~= old(out)@ + (seq!['{'] + members_text(ms) + seq!['}']));
            }
        },
    }
}

/// The spec-level array items of an array document, for termination
/// bookkeeping.
pub open spec fn self_arr_items(j: &Json) -> Vec<Json> {
    j->Arr_0
}

/// The spec-level object members of an object document.
pub open spec fn self_obj_members(j: &Json) -> Vec<(String, Json)> {
    j->Obj_0
}

/// The canonical compact text of a document, as a string.
pub fn json_to_string(j: &Json) -> (r: String)
    ensures
        r@ == json_text(j@),
{
    let mut out: Vec<char> = Vec::new();
    json_push_text(&mut out, j);
    string_from_chars(&out)
}

// --- The executable parser --------------------------------------------

/// Relies on char::from_u32: a character exactly for Unicode scalar
/// values, nothing otherwise.
#[verifier::external_body]
fn char_from_u32(u: u32) -> (r: Option<char>)
    ensures
        is_scalar_u32(u) ==> r == Some(u as char),
        !is_scalar_u32(u) ==> r is None,
{
    char::from_u32(u)
}

/// Powers of ten.
pub open spec fn pow10(n: nat) -> int
    decreases n,
{
    if n == 0 {
        1
    } else {
        10 * pow10((n - 1) as nat)
    }
}

/// Digit strings are bounded by powers of ten, from below without a
/// leading zero.
pub proof fn lemma_digits_val_bounds(ds: Seq<char>)
    requires
        all_digits(ds),
    ensures
        0 <= digits_val(ds) < pow10(ds.len()),
        ds.len() > 0 && ds[0] != '0' ==> digits_val(ds) >= pow10((ds.len() - 1) as nat),
    decreases ds.len(),
{
    if ds.len() > 0 {
        assert(all_digits(ds.drop_last())) by {
            assert(forall|i: int|
                0 <= i < ds.drop_last().len() ==> #[trigger] ds.drop_last()[i] == ds[i]);
        }
        lemma_digits_val_bounds(ds.drop_last());
        assert(is_digit(ds.last()));
        assert(0 <= digit_val(ds.last()) <= 9);
        if ds.len() > 1 && ds[0] != '0' {
            assert(ds.drop_last()[0] == ds[0]);
        }
        if ds.len() == 1 && ds[0] != '0' {
            assert(digit_val(ds.last()) >= 1);
        }
    }
}

/// Counting the leading digits computes the split that `take_digits`
/// makes.
pub proof fn lemma_take_digits_count(t: Seq<char>, k: int)
    requires
        0 <= k <= t.len(),
        forall|j: int| 0 <= j < k ==> is_digit(#[trigger] t[j]),
        k == t.len() || !is_digit(t[k]),
    ensures
        take_digits(t) == (t.take(k), t.skip(k)),
    decreases k,
{
    if k == 0 {
        assert(t.take(0) =~= Seq::<char>::empty());
        assert(t.skip(0) =~= t);
    } else {
        assert(is_digit(t[0]));
        let d = t.drop_first();
        assert(forall|j: int| 0 <= j < k - 1 ==> #[trigger] d[j] == t[j + 1]);
        lemma_take_digits_count(d, k - 1);
        assert(seq![t[0]] + d.take(k - 1) =~= t.take(k));
        assert(d.skip(k - 1) =~= t.skip(k));
    }
}

/// The suffix after leading whitespace, executably.
#[verifier::loop_isolation(false)]
pub(crate) fn skip_ws_exec<'a>(s: &'a [char]) -> (r: &'a [char])
    ensures
        r@ == skip_ws(s@),
{
    let mut cur: &[char] = s;
    loop
        invariant
            skip_ws(s@) == skip_ws(cur@),
        decreases cur@.len(),
    {
        if cur.len() > 0 {
            let c = cur[0];
            if c == ' ' || c == '\n' || c == '\t' || c == '\r' {
                proof {
                    assert(is_ws(cur@[0]));
                }
                cur = &cur[1..cur.len()];
                continue ;
            }
        }
        break ;
    }
    proof {
        assert(skip_ws(cur@) == cur@);
    }
    cur
}

/// The value of a hexadecimal digit, negative for other characters.
fn hex_val_exec(c: char) -> (r: i8)
    ensures
        r as int == hex_val(c),
{
    let u = c as u32;
    if 48 <= u && u <= 57 {
        (u - 48) as i8
    } else if 97 <= u && u <= 102 {
        (u - 87) as i8
    } else if 65 <= u && u <= 70 {
        (u - 55) as i8
    } else {
        -1
    }
}

/// Whether the character at `k` is a decimal digit.
fn digit_at(s: &[char], k: usize) -> (r: bool)
    requires
        k < s@.len(),
    ensures
        r == is_digit(s@[k as int]),
{
    let c = s[k];
    '0' <= c && c <= '9'
}

/// Scans an optional fraction and an optional exponent beginning at `k`,
/// returning whether either stood there and where the number token ends.
#[verifier::loop_isolation(false)]
#[verifier::rlimit(100)]
#[verifier::spinoff_prover]
fn scan_frac_exp(s: &[char], k: usize) -> (r: Option<(bool, usize)>)
    requires
        k <= s@.len(),
    ensures
        ({
            let r1 = s@.skip(k as int);
            match r {
                Some(p) => {
                    &&& k <= p.1 <= s@.len()
                    &&& after_frac(r1) matches Some(f2) && after_exp(f2.1) matches Some(f3)
                        && p.0 == (f2.0 || f3.0) && f3.1 == s@.skip(p.1 as int)
                },
                None => !(after_frac(r1) matches Some(f2) && after_exp(f2.1) is Some),
            }
        }),
{
    let ghost r1 = s@.skip(k as int);
    let mut frac = false;
    let mut k2: usize = k;
    if k < s.len() && s[k] == '.' {
        proof {
            assert(r1.len() >= 1 && r1[0] == '.');
            assert(r1.drop_first() =~= s@.skip(k as int + 1));
        }
        let mut j: usize = k + 1;
        while j < s.len() && digit_at(s, j)
            invariant
                k + 1 <= j <= s@.len(),
                forall|q: int| k + 1 <= q < j ==> is_digit(#[trigger] s@[q]),
            decreases s@.len() - j,
        {
            j = j + 1;
        }
        proof {
            assert(forall|q: int|
                0 <= q < j - (k + 1) ==> is_digit(#[trigger] s@.skip(k as int + 1)[q]));
            lemma_take_digits_count(s@.skip(k as int + 1), j - (k + 1));
        }
        if j == k + 1 {
            proof {
                assert(take_digits(r1.drop_first()).0 =~= Seq::<char>::empty());
                assert(after_frac(r1) is None);
            }
            return None;
        }
        frac = true;
        k2 = j;
        proof {
            assert(take_digits(r1.drop_first()).0.len() == j - (k + 1));
            assert(take_digits(r1.drop_first()).1 =~= s@.skip(j as int));
            assert(after_frac(r1) == Some((true, s@.skip(k2 as int))));
        }
    } else {
        proof {
            assert(r1.len() == 0 || r1[0] != '.');
            assert(after_frac(r1) == Some((false, r1)));
            assert(s@.skip(k2 as int) =~= r1);
        }
    }
    let ghost r2 = s@.skip(k2 as int);
    proof {
        assert(after_frac(r1) == Some((frac, r2)));
    }
    let mut expn = false;
    let mut k3: usize = k2;
    if k2 < s.len() && (s[k2] == 'e' || s[k2] == 'E') {
        let estart: usize = if k2 + 1 < s.len() && (s[k2 + 1] == '+' || s[k2 + 1] == '-') {
            k2 + 2
        } else {
            k2 + 1
        };
        proof {
            if k2 + 1 < s.len() && (s@[k2 as int + 1] == '+' || s@[k2 as int + 1] == '-') {
                assert(r2.len() >= 2 && (r2[1] == '+' || r2[1] == '-'));
                assert(r2.skip(2) =~= s@.skip(estart as int));
            } else {
                assert(!(r2.len() >= 2 && (r2[1] == '+' || r2[1] == '-')));
                assert(r2.drop_first() =~= s@.skip(estart as int));
            }
        }
        let mut j: usize = estart;
        while j < s.len() && digit_at(s, j)
            invariant
                estart <= j <= s@.len(),
                forall|q: int| estart <= q < j ==> is_digit(#[trigger] s@[q]),
            decreases s@.len() - j,
        {
            j = j + 1;
        }
        proof {
            assert(forall|q: int|
                0 <= q < j - estart ==> is_digit(#[trigger] s@.skip(estart as int)[q]));
            lemma_take_digits_count(s@.skip(estart as int), j - estart);
        }
        if j == estart {
            proof {
                assert(after_exp(r2) is None);
            }
            return None;
        }
        expn = true;
        k3 = j;
        proof {
            assert(take_digits(s@.skip(estart as int)).1 =~= s@.skip(j as int));
            assert(after_exp(r2) == Some((true, s@.skip(k3 as int))));
        }
    } else {
        proof {
            assert(r2.len() == 0 || (r2[0] != 'e' && r2[0] != 'E'));
            assert(after_exp(r2) == Some((false, r2)));
            assert(s@.skip(k3 as int) =~= r2);
        }
    }
    proof {
        assert(after_exp(r2) == Some((expn, s@.skip(k3 as int))));
    }
    Some((frac || expn, k3))
}

/// The number token ending at `k3`, kept as its literal text.
#[verifier::loop_isolation(false)]
fn num_token<'a>(s: &'a [char], k3: usize) -> (r: (Json, &'a [char]))
    requires
        k3 <= s@.len(),
    ensures
        r.0@ == JsonV::Num(s@.take(k3 as int)),
        r.1@ == s@.skip(k3 as int),
{
    let mut tchars: Vec<char> = Vec::new();
    let mut i: usize = 0;
    while i < k3
        invariant
            i <= k3,
            k3 <= s@.len(),
            tchars@ =~= s@.take(k3 as int).take(i as int),
        decreases k3 - i,
    {
        tchars.push(s[i]);
        proof {
            assert(s@.take(k3 as int).take(i as int + 1) =~= s@.take(k3 as int).take(
                i as int,
            ).push(s@[i as int]));
        }
        i = i + 1;
    }
    proof {
        assert(s@.take(k3 as int).take(k3 as int) =~= s@.take(k3 as int));
    }
    let t = string_from_chars(&tchars);
    let rest = &s[k3..s.len()];
    proof {
        assert(t@ =~= s@.take(k3 as int));
        assert(rest@ =~= s@.skip(k3 as int));
    }
    (Json::Num(t), rest)
}

/// A parsed number, executably.
#[verifier::loop_isolation(false)]
#[verifier::rlimit(100)]
#[verifier::spinoff_prover]
fn p_number<'a>(s: &'a [char]) -> (r: Option<(Json, &'a [char])>)
    ensures
        match r {
            Some(p) => parse_number(s@) matches Some(q) && p.0@ == q.0 && p.1@ == q.1,
            None => parse_number(s@) is None,
        },
{
    let neg = s.len() > 0 && s[0] == '-';
    let start: usize = if neg {
        1
    } else {
        0
    };
    let ghost body = s@.skip(start as int);
    proof {
        if neg {
            assert(body =~= s@.drop_first());
        } else {
            assert(body =~= s@);
        }
    }
    let mut k: usize = start;
    while k < s.len() && digit_at(s, k)
        invariant
            start <= k <= s@.len(),
            forall|j: int| start <= j < k ==> is_digit(#[trigger] s@[j]),
        decreases s@.len() - k,
    {
        k = k + 1;
    }
    let n = k - start;
    proof {
        assert(forall|j: int| 0 <= j < n ==> is_digit(#[trigger] body[j]));
        lemma_take_digits_count(body, n as int);
        assert(take_digits(body).0 == body.take(n as int));
        assert(take_digits(body).1 == body.skip(n as int));
    }
    let ghost ds = body.take(n as int);
    let ghost r1 = body.skip(n as int);
    if n == 0 {
        return None;
    }
    if n > 1 && s[start] == '0' {
        proof {
            assert(ds[0] == '0');
        }
        return None;
    }
    proof {
        assert(ds[0] == s@[start as int]);
        assert(ds[0] != '0' || n == 1);
        assert(all_digits(ds));
        assert(r1 =~= s@.skip(k as int));
    }
    let (changed, k3) = match scan_frac_exp(s, k) {
        Some(p) => p,
        None => {
            return None;
        },
    };
    let ghost r3 = s@.skip(k3 as int);
    if !changed {
        proof {
            lemma_digits_val_bounds(ds);
        }
        if n > 19 {
            proof {
                assert(ds.len() >= 20);
                assert(pow10((ds.len() - 1) as nat) >= pow10(19)) by {
                    lemma_pow10_mono(19, (ds.len() - 1) as nat);
                }
                lemma_pow10_19();
                assert(digits_val(ds) > 0x8000_0000_0000_0000);
                assert(s@.take(s@.len() - r3.len()) =~= s@.take(k3 as int));
            }
            return Some(num_token(s, k3));
        }
        let mut acc: u64 = 0;
        let mut i: usize = start;
        while i < k
            invariant
                start <= i <= k,
                k <= s@.len(),
                k - start == n,
                n <= 19,
                ds == body.take(n as int),
                all_digits(ds),
                acc as int == digits_val(ds.take(i - start)),
                (acc as int) < pow10((i - start) as nat),
            decreases k - i,
        {
            let c = s[i];
            let d = (c as u32 - 48) as u64;
            proof {
                assert(ds[i - start] == s@[i as int]);
                assert(is_digit(ds[i - start]));
                assert(d as int == digit_val(ds[i - start]));
                assert(ds.take(i - start + 1).drop_last() =~= ds.take(i - start));
                assert(ds.take(i - start + 1).last() == ds[i - start]);
                lemma_pow10_step((i - start) as nat);
                lemma_pow10_mono((i - start + 1) as nat, 19);
                lemma_pow10_19();
            }
            acc = acc * 10 + d;
            i = i + 1;
        }
        proof {
            assert(ds.take(n as int) =~= ds);
            assert(acc as int == digits_val(ds));
        }
        let rest = &s[k..s.len()];
        proof {
            assert(rest@ =~= r3);
        }
        if neg {
            if acc > 9223372036854775808u64 {
                proof {
                    assert(s@.take(s@.len() - r3.len()) =~= s@.take(k3 as int));
                }
                return Some(num_token(s, k3));
            }
            let v: i64 = if acc == 9223372036854775808u64 {
                -9223372036854775807i64 - 1
            } else {
                -(acc as i64)
            };
            Some((Json::Int(v), rest))
        } else {
            if acc > 9223372036854775807u64 {
                proof {
                    assert(s@.take(s@.len() - r3.len()) =~= s@.take(k3 as int));
                }
                return Some(num_token(s, k3));
            }
            Some((Json::Int(acc as i64), rest))
        }
    } else {
        proof {
            assert(s@.take(s@.len() - r3.len()) =~= s@.take(k3 as int));
        }
        Some(num_token(s, k3))
    }
}

/// One more power of ten.
pub proof fn lemma_pow10_step(n: nat)
    ensures
        pow10(n + 1) == 10 * pow10(n),
{
}

/// The first power of ten past every 64-bit integer.
pub proof fn lemma_pow10_19()
    ensures
        pow10(19) == 10_000_000_000_000_000_000,
{
    reveal_with_fuel(pow10, 20);
}

/// Powers of ten do not shrink.
pub proof fn lemma_pow10_mono(a: nat, b: nat)
    requires
        a <= b,
    ensures
        pow10(a) <= pow10(b),
        pow10(a) >= 1,
    decreases b,
{
    if b > 0 {
        if a == b {
            lemma_pow10_mono((b - 1) as nat, (b - 1) as nat);
        } else {
            lemma_pow10_mono(a, (b - 1) as nat);
        }
    }
}

/// The body of a string after the opening quote, executably.
#[verifier::loop_isolation(false)]
#[verifier::rlimit(100)]
#[verifier::spinoff_prover]
fn p_string_body<'a>(s: &'a [char]) -> (r: Option<(Vec<char>, &'a [char])>)
    ensures
        match r {
            Some(p) => parse_string_body(s@) matches Some(q) && p.0@ == q.0 && p.1@ == q.1,
            None => parse_string_body(s@) is None,
        },
{
    let mut acc: Vec<char> = Vec::new();
    let mut cur: &[char] = s;
    loop
        invariant
            match parse_string_body(s@) {
                Some(q) => parse_string_body(cur@) matches Some(q2) && q.0 == acc@ + q2.0 && q.1
                    == q2.1,
                None => parse_string_body(cur@) is None,
            },
        decreases cur@.len(),
    {
        if cur.len() == 0 {
            return None;
        }
        let c = cur[0];
        if c == '"' {
            proof {
                assert(parse_string_body(cur@) == Some((Seq::<char>::empty(), cur@.drop_first())));
                assert(acc@ + Seq::<char>::empty() =~= acc@);
            }
            let rest = &cur[1..cur.len()];
            proof {
                assert(rest@ =~= cur@.drop_first());
            }
            return Some((acc, rest));
        }
        if c == '\\' {
            if cur.len() < 2 {
                return None;
            }
            let e = cur[1];
            if e == 'u' {
                if cur.len() < 6 {
                    return None;
                }
                let h1 = hex_val_exec(cur[2]);
                let h2 = hex_val_exec(cur[3]);
                let h3 = hex_val_exec(cur[4]);
                let h4 = hex_val_exec(cur[5]);
                if h1 < 0 || h2 < 0 || h3 < 0 || h4 < 0 {
                    return None;
                }
                let u = (h1 as u32) * 4096 + (h2 as u32) * 256 + (h3 as u32) * 16 + (h4 as u32);
                if 0xD800 <= u && u < 0xDC00 {
                    // a high surrogate: the pair denotes one character
                    if cur.len() < 12 || cur[6] != '\\' || cur[7] != 'u' {
                        return None;
                    }
                    let g1 = hex_val_exec(cur[8]);
                    let g2 = hex_val_exec(cur[9]);
                    let g3 = hex_val_exec(cur[10]);
                    let g4 = hex_val_exec(cur[11]);
                    if g1 < 0 || g2 < 0 || g3 < 0 || g4 < 0 {
                        return None;
                    }
                    let lo = (g1 as u32) * 4096 + (g2 as u32) * 256 + (g3 as u32) * 16 + (
                    g4 as u32);
                    if !(0xDC00 <= lo && lo < 0xE000) {
                        return None;
                    }
                    let comb: u32 = 0x10000 + (u - 0xD800) * 0x400 + (lo - 0xDC00);
                    match char_from_u32(comb) {
                        None => {
                            proof {
                                assert(is_scalar_u32(comb));
                                assert(false);
                            }
                            return None;
                        },
                        Some(decoded) => {
                            let ghost prev = acc@;
                            acc.push(decoded);
                            proof {
                                assert(prev + (seq![decoded] + parse_string_body(
                                    cur@.skip(12),
                                )->Some_0.0) =~= acc@ + parse_string_body(cur@.skip(12))->Some_0.0);
                            }
                            cur = &cur[12..cur.len()];
                        },
                    }
                } else {
                    match char_from_u32(u) {
                        None => {
                            proof {
                                assert(!is_scalar_u32(u));
                            }
                            return None;
                        },
                        Some(decoded) => {
                            proof {
                                assert(is_scalar_u32(u)) by {
                                    if !is_scalar_u32(u) {
                                        assert(false);
                                    }
                                }
                            }
                            let ghost prev = acc@;
                            acc.push(decoded);
                            proof {
                                assert(prev + (seq![decoded] + parse_string_body(
                                    cur@.skip(6),
                                )->Some_0.0) =~= acc@ + parse_string_body(cur@.skip(6))->Some_0.0);
                            }
                            cur = &cur[6..cur.len()];
                        },
                    }
                }
            } else if e == '"' || e == '/' || e == '\\' || e == 'n' || e == 't' || e == 'r' || e
                == 'b' || e == 'f' {
                let decoded = if e == '"' {
                    '"'
                } else if e == '\\' {
                    '\\'
                } else if e == '/' {
                    '/'
                } else if e == 'n' {
                    '\n'
                } else if e == 't' {
                    '\t'
                } else if e == 'r' {
                    '\r'
                } else if e == 'b' {
                    8u8 as char
                } else {
                    12u8 as char
                };
                let ghost prev = acc@;
                acc.push(decoded);
                proof {
                    assert(prev + (seq![decoded] + parse_string_body(cur@.skip(2))->Some_0.0)
                        =~= acc@ + parse_string_body(cur@.skip(2))->Some_0.0);
                }
                cur = &cur[2..cur.len()];
            } else {
                return None;
            }
        } else {
            let ghost prev = acc@;
            acc.push(c);
            proof {
                assert(prev + (seq![c] + parse_string_body(cur@.drop_first())->Some_0.0) =~= acc@
                    + parse_string_body(cur@.drop_first())->Some_0.0);
            }
            cur = &cur[1..cur.len()];
        }
    }
}

/// A parsed value, executably.
#[verifier::loop_isolation(false)]
#[verifier::rlimit(100)]
#[verifier::spinoff_prover]
fn p_value<'a>(s: &'a [char]) -> (r: Option<(Json, &'a [char])>)
    ensures
        match r {
            Some(p) => parse_value(s@) matches Some(q) && p.0@ == q.0 && p.1@ == q.1,
            None => parse_value(s@) is None,
        },
    decreases s@.len(), 1int,
{
    if s.len() == 0 {
        return None;
    }
    let c = s[0];
    if c == ' ' || c == '\n' || c == '\t' || c == '\r' {
        proof {
            assert(is_ws(s@[0]));
            assert(s@.drop_first() =~= s@.skip(1));
        }
        return p_value(&s[1..s.len()]);
    }
    proof {
        assert(!is_ws(s@[0]));
    }
    if c == 'n' {
        if s.len() >= 4 && s[1] == 'u' && s[2] == 'l' && s[3] == 'l' {
            let rest = &s[4..s.len()];
            proof {
                assert(rest@ =~= s@.skip(4));
            }
            return Some((Json::Null, rest));
        }
        return None;
    }
    if c == 't' {
        if s.len() >= 4 && s[1] == 'r' && s[2] == 'u' && s[3] == 'e' {
            let rest = &s[4..s.len()];
            proof {
                assert(rest@ =~= s@.skip(4));
            }
            return Some((Json::Bool(true), rest));
        }
        return None;
    }
    if c == 'f' {
        if s.len() >= 5 && s[1] == 'a' && s[2] == 'l' && s[3] == 's' && s[4] == 'e' {
            let rest = &s[5..s.len()];
            proof {
                assert(rest@ =~= s@.skip(5));
            }
            return Some((Json::Bool(false), rest));
        }
        return None;
    }
    if c == '"' {
        proof {
            assert(s@.drop_first() =~= s@.subrange(1, s@.len() as int));
        }
        match p_string_body(&s[1..s.len()]) {
            None => {
                return None;
            },
            Some((cs, rest)) => {
                let st = string_from_chars(&cs);
                return Some((Json::Str(st), rest));
            },
        }
    }
    if c == '[' {
        proof {
            assert(s@.drop_first() =~= s@.subrange(1, s@.len() as int));
        }
        let t = skip_ws_exec(&s[1..s.len()]);
        if t.len() < s.len() {
            if t.len() > 0 && t[0] == ']' {
                let rest = &t[1..t.len()];
                proof {
                    assert(rest@ =~= t@.drop_first());
                    assert(arr_views(Seq::<Json>::empty()) =~= Seq::<JsonV>::empty());
                }
                let items: Vec<Json> = Vec::new();
                proof {
                    assert(items@ =~= Seq::<Json>::empty());
                }
                return Some((Json::Arr(items), rest));
            }
            match p_elems(t) {
                None => {
                    return None;
                },
                Some((vs, rest)) => {
                    return Some((Json::Arr(vs), rest));
                },
            }
        }
        return None;
    }
    if c == '{' {
        proof {
            assert(s@.drop_first() =~= s@.subrange(1, s@.len() as int));
        }
        let t = skip_ws_exec(&s[1..s.len()]);
        if t.len() < s.len() {
            if t.len() > 0 && t[0] == '}' {
                let rest = &t[1..t.len()];
                proof {
                    assert(rest@ =~= t@.drop_first());
                    assert(obj_views(Seq::<(String, Json)>::empty()) =~= Seq::<
                        (Seq<char>, JsonV),
                    >::empty());
                }
                let members: Vec<(String, Json)> = Vec::new();
                proof {
                    assert(members@ =~= Seq::<(String, Json)>::empty());
                }
                return Some((Json::Obj(members), rest));
            }
            match p_members(t) {
                None => {
                    return None;
                },
                Some((ms, rest)) => {
                    return Some((Json::Obj(ms), rest));
                },
            }
        }
        return None;
    }
    if c == '-' || ('0' <= c && c <= '9') {
        return p_number(s);
    }
    proof {
        assert(!is_digit(s@[0]));
    }
    None
}

/// The elements of an array, executably.
#[verifier::loop_isolation(false)]
#[verifier::rlimit(100)]
#[verifier::spinoff_prover]
fn p_elems<'a>(s: &'a [char]) -> (r: Option<(Vec<Json>, &'a [char])>)
    ensures
        match r {
            Some(p) => parse_elems(s@) matches Some(q) && arr_views(p.0@) == q.0 && p.1@ == q.1,
            None => parse_elems(s@) is None,
        },
    decreases s@.len(), 2int,
{
    match p_value(s) {
        None => None,
        Some((v, r0)) => {
            let r = skip_ws_exec(r0);
            if r.len() < s.len() {
                if r.len() > 0 && r[0] == ',' {
                    proof {
                        assert(r@.drop_first() =~= r@.subrange(1, r@.len() as int));
                    }
                    match p_elems(&r[1..r.len()]) {
                        None => None,
                        Some((vs, r2)) => {
                            let mut vs = vs;
                            vs.insert(0, v);
                            proof {
                                let q = parse_elems(s@)->Some_0;
                                assert(arr_views(vs@) =~= q.0);
                            }
                            Some((vs, r2))
                        },
                    }
                } else if r.len() > 0 && r[0] == ']' {
                    let rest = &r[1..r.len()];
                    proof {
                        assert(rest@ =~= r@.drop_first());
                    }
                    let mut vs: Vec<Json> = Vec::new();
                    vs.push(v);
                    proof {
                        let q = parse_elems(s@)->Some_0;
                        assert(arr_views(vs@) =~= q.0);
                    }
                    Some((vs, rest))
                } else {
                    None
                }
            } else {
                None
            }
        },
    }
}

/// The members of an object, executably.
#[verifier::loop_isolation(false)]
#[verifier::rlimit(100)]
#[verifier::spinoff_prover]
fn p_members<'a>(s: &'a [char]) -> (r: Option<(Vec<(String, Json)>, &'a [char])>)
    ensures
        match r {
            Some(p) => parse_members(s@) matches Some(q) && obj_views(p.0@) == q.0 && p.1@ == q.1,
            None => parse_members(s@) is None,
        },
    decreases s@.len(), 2int,
{
    if s.len() > 0 && s[0] == '"' {
        proof {
            assert(s@.drop_first() =~= s@.subrange(1, s@.len() as int));
        }
        match p_string_body(&s[1..s.len()]) {
            None => None,
            Some((kcs, r1)) => {
                let key = string_from_chars(&kcs);
                let r2 = skip_ws_exec(r1);
                if r2.len() > 0 && r2[0] == ':' && r2.len() < s.len() {
                    proof {
                        assert(r2@.drop_first() =~= r2@.subrange(1, r2@.len() as int));
                    }
                    match p_value(&r2[1..r2.len()]) {
                        None => None,
                        Some((v, r3)) => {
                            let r4 = skip_ws_exec(r3);
                            if r4.len() < s.len() {
                                if r4.len() > 0 && r4[0] == ',' {
                                    proof {
                                        assert(r4@.drop_first() =~= r4@.subrange(
                                            1,
                                            r4@.len() as int,
                                        ));
                                    }
                                    let r5 = skip_ws_exec(&r4[1..r4.len()]);
                                    if r5.len() < s.len() {
                                        match p_members(r5) {
                                            None => None,
                                            Some((ms, r6)) => {
                                                let mut ms = ms;
                                                ms.insert(0, (key, v));
                                                proof {
                                                    let q = parse_members(s@)->Some_0;
                                                    assert(obj_views(ms@) =~= q.0);
                                                }
                                                Some((ms, r6))
                                            },
                                        }
                                    } else {
                                        None
                                    }
                                } else if r4.len() > 0 && r4[0] == '}' {
                                    let rest = &r4[1..r4.len()];
                                    proof {
                                        assert(rest@ =~= r4@.drop_first());
                                    }
                                    let mut ms: Vec<(String, Json)> = Vec::new();
                                    ms.push((key, v));
                                    proof {
                                        let q = parse_members(s@)->Some_0;
                                        assert(obj_views(ms@) =~= q.0);
                                    }
                                    Some((ms, rest))
                                } else {
                                    None
                                }
                            } else {
                                None
                            }
                        },
                    }
                } else {
                    None
                }
            },
        }
    } else {
        None
    }
}

/// A whole document from characters: one value with only whitespace
/// around it, or a syntax error naming the offending input and how much
/// of it was left unread.
pub fn json_from_chars(s: &Vec<char>) -> (r: Result<Json, StoreError>)
    ensures
        match r {
            Ok(j) => parse_json(s@) == Some(j@),
            Err(e) => parse_json(s@) is None && (e@ matches StoreErrorV::JsonSyntax {
                at: _,
                text,
            } && text == s@),
        },
{
    match p_value(s.as_slice()) {
        None => Err(StoreError::JsonSyntax { at: s.len(), text: string_from_chars(s) }),
        Some((v, rest)) => {
            let t = skip_ws_exec(rest);
            if t.len() == 0 {
                Ok(v)
            } else {
                Err(StoreError::JsonSyntax { at: t.len(), text: string_from_chars(s) })
            }
        },
    }
}

/// A whole document from a string.
pub fn json_from_string(s: &String) -> (r: Result<Json, StoreError>)
    ensures
        match r {
            Ok(j) => parse_json(s@) == Some(j@),
            Err(e) => parse_json(s@) is None && (e@ matches StoreErrorV::JsonSyntax {
                at: _,
                text,
            } && text == s@),
        },
{
    let cs = str_chars(s.as_str());
    json_from_chars(&cs)
}

// --- The pretty form --------------------------------------------------
//
// What the tool writes out for people — the persisted store and the
// generic resolver's answer array — is indented over several lines, in
// the usual two-space style.  The parser reads it back exactly: the
// round trip through the pretty printer is proved like the compact one.

/// A line break followed by two spaces per indent level.
pub open spec fn nl(ind: nat) -> Seq<char>
    decreases ind,
{
    if ind == 0 {
        seq!['\n']
    } else {
        nl((ind - 1) as nat) + seq![' ', ' ']
    }
}

/// Text made of nothing but whitespace.
pub open spec fn ws_only(s: Seq<char>) -> bool {
    forall|i: int| 0 <= i < s.len() ==> is_ws(#[trigger] s[i])
}

/// The pretty elements of a non-empty array, one per line.
pub open spec fn pretty_elems(items: Seq<JsonV>, ind: nat) -> Seq<char>
    decreases items, 1int,
{
    if items.len() == 0 {
        Seq::empty()
    } else {
        pretty_text(items[0], ind) + pretty_rest_elems(items.drop_first(), ind)
    }
}

/// The pretty later elements of an array, each after a comma and a line
/// break.
pub open spec fn pretty_rest_elems(items: Seq<JsonV>, ind: nat) -> Seq<char>
    decreases items, 2int,
{
    if items.len() == 0 {
        Seq::empty()
    } else {
        seq![','] + nl(ind) + pretty_text(items[0], ind) + pretty_rest_elems(
            items.drop_first(),
            ind,
        )
    }
}

/// The pretty members of a non-empty object, one per line.
pub open spec fn pretty_members(ms: Seq<(Seq<char>, JsonV)>, ind: nat) -> Seq<char>
    decreases ms, 1int,
{
    if ms.len() == 0 {
        Seq::empty()
    } else {
        str_text(ms[0].0) + seq![':', ' '] + pretty_text(ms[0].1, ind) + pretty_rest_members(
            ms.drop_first(),
            ind,
        )
    }
}

/// The pretty later members of an object.
pub open spec fn pretty_rest_members(ms: Seq<(Seq<char>, JsonV)>, ind: nat) -> Seq<char>
    decreases ms, 2int,
{
    if ms.len() == 0 {
        Seq::empty()
    } else {
        seq![','] + nl(ind) + str_text(ms[0].0) + seq![':', ' '] + pretty_text(ms[0].1, ind)
            + pretty_rest_members(ms.drop_first(), ind)
    }
}

/// The indented text of a document at a given depth.  Leaves print as in
/// the compact form; collections spread over lines.
pub open spec fn pretty_text(j: JsonV, ind: nat) -> Seq<char>
    decreases j, 0int,
{
    match j {
        JsonV::Arr(items) => if items.len() == 0 {
            seq!['[', ']']
        } else {
            seq!['['] + nl(ind + 1) + pretty_elems(items, ind + 1) + nl(ind) + seq![']']
        },
        JsonV::Obj(ms) => if ms.len() == 0 {
            seq!['{', '}']
        } else {
            seq!['{'] + nl(ind + 1) + pretty_members(ms, ind + 1) + nl(ind) + seq!['}']
        },
        _ => json_text(j),
    }
}

/// Indentation is nothing but whitespace.
pub proof fn lemma_nl_ws(ind: nat)
    ensures
        ws_only(nl(ind)),
        nl(ind).len() >= 1,
    decreases ind,
{
    if ind > 0 {
        lemma_nl_ws((ind - 1) as nat);
        assert forall|i: int| 0 <= i < nl(ind).len() implies is_ws(#[trigger] nl(ind)[i]) by {
            if i < nl((ind - 1) as nat).len() {
                assert(nl(ind)[i] == nl((ind - 1) as nat)[i]);
            } else {
                assert(nl(ind)[i] == ' ');
            }
        }
    }
}

/// Skipping whitespace never lengthens the text.
pub proof fn lemma_skip_ws_len(s: Seq<char>)
    ensures
        skip_ws(s).len() <= s.len(),
    decreases s.len(),
{
    if s.len() > 0 && is_ws(s[0]) {
        lemma_skip_ws_len(s.drop_first());
    }
}

/// A whitespace prefix falls away before parsing a value.
pub proof fn lemma_parse_value_ws(ws: Seq<char>, y: Seq<char>)
    requires
        ws_only(ws),
    ensures
        parse_value(ws + y) == parse_value(y),
    decreases ws.len(),
{
    if ws.len() == 0 {
        assert(ws + y =~= y);
    } else {
        assert((ws + y)[0] == ws[0]);
        assert(is_ws(ws[0]));
        assert((ws + y).drop_first() =~= ws.drop_first() + y);
        assert(ws_only(ws.drop_first())) by {
            assert(forall|i: int|
                0 <= i < ws.drop_first().len() ==> #[trigger] ws.drop_first()[i] == ws[i + 1]);
        }
        lemma_parse_value_ws(ws.drop_first(), y);
    }
}

/// A whitespace prefix falls away under `skip_ws`.
pub proof fn lemma_skip_ws_prefix(ws: Seq<char>, y: Seq<char>)
    requires
        ws_only(ws),
    ensures
        skip_ws(ws + y) == skip_ws(y),
    decreases ws.len(),
{
    if ws.len() == 0 {
        assert(ws + y =~= y);
    } else {
        assert((ws + y)[0] == ws[0]);
        assert(is_ws(ws[0]));
        assert((ws + y).drop_first() =~= ws.drop_first() + y);
        assert(ws_only(ws.drop_first())) by {
            assert(forall|i: int|
                0 <= i < ws.drop_first().len() ==> #[trigger] ws.drop_first()[i] == ws[i + 1]);
        }
        lemma_skip_ws_prefix(ws.drop_first(), y);
    }
}

/// A pretty-printed value is never empty and opens like its compact form.
pub proof fn lemma_pretty_first(j: JsonV, ind: nat)
    requires
        json_wf(j),
    ensures
        pretty_text(j, ind).len() >= 1,
        !is_ws(pretty_text(j, ind)[0]),
        pretty_text(j, ind)[0] != ']',
        pretty_text(j, ind)[0] != '}',
        pretty_text(j, ind)[0] != ',',
        pretty_text(j, ind)[0] != ':',
{
    match j {
        JsonV::Arr(items) => {
            assert(pretty_text(j, ind)[0] == '[');
        },
        JsonV::Obj(ms) => {
            assert(pretty_text(j, ind)[0] == '{');
        },
        _ => {
            lemma_print_first(j);
        },
    }
}

/// Round trip of one pretty-printed value: the indented text of a
/// well-formed document, followed by any suffix it cannot merge with,
/// parses back to the very document and that suffix.
#[verifier::rlimit(100)]
#[verifier::spinoff_prover]
pub proof fn lemma_pretty_value(j: JsonV, ind: nat, rest: Seq<char>)
    requires
        json_wf(j),
        sep_ok(j, rest),
    ensures
        parse_value(pretty_text(j, ind) + rest) == Some((j, rest)),
    decreases j, 1int,
{
    match j {
        JsonV::Arr(items) => {
            lemma_pretty_value_arr(j, items, ind, rest);
        },
        JsonV::Obj(ms) => {
            lemma_pretty_value_obj(j, ms, ind, rest);
        },
        _ => {
            assert(pretty_text(j, ind) == json_text(j));
            lemma_round_value(j, rest);
        },
    }
}

/// The array case of the pretty round trip.
#[verifier::rlimit(100)]
#[verifier::spinoff_prover]
proof fn lemma_pretty_value_arr(j: JsonV, items: Seq<JsonV>, ind: nat, rest: Seq<char>)
    requires
        json_wf(j),
        j == JsonV::Arr(items),
    ensures
        parse_value(pretty_text(j, ind) + rest) == Some((j, rest)),
    decreases j, 0int,
{
    let t = pretty_text(j, ind) + rest;
    assert(t[0] == '[');
    if items.len() == 0 {
        assert(t.drop_first() =~= seq![']'] + rest);
        assert((seq![']'] + rest)[0] == ']');
        assert(skip_ws(seq![']'] + rest) == seq![']'] + rest);
        assert((seq![']'] + rest).drop_first() =~= rest);
        assert(items =~= Seq::<JsonV>::empty());
        assert(parse_value(t) == Some((j, rest)));
    } else {
        let x = pretty_elems(items, ind + 1) + nl(ind) + seq![']'] + rest;
        assert(t.drop_first() =~= nl(ind + 1) + x);
        lemma_nl_ws(ind + 1);
        lemma_skip_ws_prefix(nl(ind + 1), x);
        lemma_pretty_first(items[0], ind + 1);
        assert(x[0] == pretty_text(items[0], ind + 1)[0]);
        assert(!is_ws(x[0]) && x[0] != ']');
        assert(skip_ws(x) == x);
        assert(x.len() < t.len());
        lemma_pretty_elems(items, ind + 1, ind, rest);
        assert(parse_value(t) == Some((j, rest)));
    }
}

/// The object case of the pretty round trip.
#[verifier::rlimit(100)]
#[verifier::spinoff_prover]
proof fn lemma_pretty_value_obj(j: JsonV, ms: Seq<(Seq<char>, JsonV)>, ind: nat, rest: Seq<char>)
    requires
        json_wf(j),
        j == JsonV::Obj(ms),
    ensures
        parse_value(pretty_text(j, ind) + rest) == Some((j, rest)),
    decreases j, 0int,
{
    let t = pretty_text(j, ind) + rest;
    assert(t[0] == '{');
    if ms.len() == 0 {
        assert(t.drop_first() =~= seq!['}'] + rest);
        assert((seq!['}'] + rest)[0] == '}');
        assert(skip_ws(seq!['}'] + rest) == seq!['}'] + rest);
        assert((seq!['}'] + rest).drop_first() =~= rest);
        assert(ms =~= Seq::<(Seq<char>, JsonV)>::empty());
        assert(parse_value(t) == Some((j, rest)));
    } else {
        let x = pretty_members(ms, ind + 1) + nl(ind) + seq!['}'] + rest;
        assert(t.drop_first() =~= nl(ind + 1) + x);
        lemma_nl_ws(ind + 1);
        lemma_skip_ws_prefix(nl(ind + 1), x);
        assert(x[0] == '"');
        assert(skip_ws(x) == x);
        assert(x.len() < t.len());
        lemma_pretty_members(ms, ind + 1, ind, rest);
        assert(parse_value(t) == Some((j, rest)));
    }
}

/// Round trip of the pretty elements of a non-empty array, up to the
/// closing bracket at the outer indent.
#[verifier::rlimit(100)]
#[verifier::spinoff_prover]
pub proof fn lemma_pretty_elems(items: Seq<JsonV>, ind: nat, outer: nat, rest: Seq<char>)
    requires
        items.len() > 0,
        forall|i: int| 0 <= i < items.len() ==> json_wf(#[trigger] items[i]),
    ensures
        parse_elems(pretty_elems(items, ind) + nl(outer) + seq![']'] + rest) == Some(
            (items, rest),
        ),
    decreases items, 2int,
{
    let d = items.drop_first();
    let s = pretty_elems(items, ind) + nl(outer) + seq![']'] + rest;
    let tail = pretty_rest_elems(d, ind) + nl(outer) + seq![']'] + rest;
    assert(s =~= pretty_text(items[0], ind) + tail);
    lemma_pretty_first(items[0], ind);
    lemma_nl_ws(outer);
    if d.len() == 0 {
        assert(tail =~= nl(outer) + (seq![']'] + rest));
        assert(is_ws(tail[0])) by {
            assert(tail[0] == nl(outer)[0]);
        }
        assert(!num_cont(tail[0]));
        lemma_pretty_value(items[0], ind, tail);
        lemma_skip_ws_prefix(nl(outer), seq![']'] + rest);
        assert(skip_ws(tail) == seq![']'] + rest);
        assert((seq![']'] + rest)[0] == ']');
        assert((seq![']'] + rest).len() < s.len());
        assert((seq![']'] + rest).drop_first() =~= rest);
        assert(seq![items[0]] =~= items);
        assert(parse_elems(s) == Some((items, rest)));
    } else {
        assert(tail[0] == ',');
        assert(!num_cont(tail[0]));
        lemma_pretty_value(items[0], ind, tail);
        assert(skip_ws(tail) == tail);
        assert(tail.len() < s.len());
        let y = pretty_elems(d, ind) + nl(outer) + seq![']'] + rest;
        assert(tail.drop_first() =~= nl(ind) + y);
        lemma_pretty_elems(d, ind, outer, rest);
        lemma_nl_ws(ind);
        lemma_parse_value_ws(nl(ind), y);
        assert(parse_value(nl(ind) + y) == parse_value(y));
        // the recursion reads the same stream whether or not the line
        // break stands before it
        assert(parse_elems(nl(ind) + y) == Some((d, rest))) by {
            let r0 = parse_value(y);
            assert(parse_elems(y) == Some((d, rest)));
            match r0 {
                Some(p) => {
                    let r = skip_ws(p.1);
                    assert(r.len() < y.len()) by {
                        if !(r.len() < y.len()) {
                            assert(parse_elems(y) is None);
                        }
                    }
                    assert(r.len() < (nl(ind) + y).len());
                },
                None => {
                    assert(parse_elems(y) is None);
                },
            }
        }
        assert(seq![items[0]] + d =~= items);
        assert(parse_elems(s) == Some((items, rest)));
    }
}

/// Round trip of the pretty members of a non-empty object, up to the
/// closing brace at the outer indent.
#[verifier::rlimit(100)]
#[verifier::spinoff_prover]
pub proof fn lemma_pretty_members(
    ms: Seq<(Seq<char>, JsonV)>,
    ind: nat,
    outer: nat,
    rest: Seq<char>,
)
    requires
        ms.len() > 0,
        forall|i: int| 0 <= i < ms.len() ==> json_wf((#[trigger] ms[i]).1),
    ensures
        parse_members(pretty_members(ms, ind) + nl(outer) + seq!['}'] + rest) == Some(
            (ms, rest),
        ),
    decreases ms, 2int,
{
    let d = ms.drop_first();
    let k = ms[0].0;
    let v = ms[0].1;
    let s = pretty_members(ms, ind) + nl(outer) + seq!['}'] + rest;
    let tail = pretty_rest_members(d, ind) + nl(outer) + seq!['}'] + rest;
    let after_key = seq![':', ' '] + pretty_text(v, ind) + tail;
    assert(s[0] == '"');
    assert(s.drop_first() =~= str_body(k) + seq!['"'] + after_key);
    lemma_parse_str_body(k, after_key);
    assert(after_key[0] == ':');
    assert(skip_ws(after_key) == after_key);
    assert(after_key.len() < s.len()) by {
        lemma_str_body_len(k);
    }
    let after_colon = seq![' '] + (pretty_text(v, ind) + tail);
    assert(after_key.drop_first() =~= after_colon);
    assert(ws_only(seq![' ']));
    lemma_parse_value_ws(seq![' '], pretty_text(v, ind) + tail);
    lemma_pretty_first(v, ind);
    lemma_nl_ws(outer);
    lemma_nl_ws(ind);
    if d.len() == 0 {
        assert(tail =~= nl(outer) + (seq!['}'] + rest));
        assert(is_ws(tail[0])) by {
            assert(tail[0] == nl(outer)[0]);
        }
        assert(!num_cont(tail[0]));
        lemma_pretty_value(v, ind, tail);
        lemma_skip_ws_prefix(nl(outer), seq!['}'] + rest);
        assert(skip_ws(tail) == seq!['}'] + rest);
        assert((seq!['}'] + rest)[0] == '}');
        assert((seq!['}'] + rest).len() < s.len());
        assert((seq!['}'] + rest).drop_first() =~= rest);
        assert(seq![(k, v)] =~= ms);
        assert(parse_members(s) == Some((ms, rest)));
    } else {
        assert(tail[0] == ',');
        assert(!num_cont(tail[0]));
        lemma_pretty_value(v, ind, tail);
        assert(skip_ws(tail) == tail);
        assert(tail.len() < s.len());
        let y = pretty_members(d, ind) + nl(outer) + seq!['}'] + rest;
        assert(tail.drop_first() =~= nl(ind) + y);
        lemma_skip_ws_prefix(nl(ind), y);
        assert(y[0] == '"');
        assert(skip_ws(nl(ind) + y) == y);
        assert(y.len() < s.len());
        lemma_pretty_members(d, ind, outer, rest);
        assert(seq![(k, v)] + d =~= ms);
        assert(parse_members(s) == Some((ms, rest)));
    }
}

/// Round trip of a whole pretty-printed document.
pub proof fn lemma_pretty_round_trip(j: JsonV)
    requires
        json_wf(j),
    ensures
        parse_json(pretty_text(j, 0)) == Some(j),
{
    assert(pretty_text(j, 0) + Seq::<char>::empty() =~= pretty_text(j, 0));
    lemma_pretty_value(j, 0, Seq::empty());
    assert(skip_ws(Seq::<char>::empty()).len() == 0);
}

/// One more element extends the pretty elements by a comma, a line break
/// and its text.
pub proof fn lemma_pretty_rest_elems_snoc(a: Seq<JsonV>, x: JsonV, ind: nat)
    ensures
        pretty_rest_elems(a.push(x), ind) == pretty_rest_elems(a, ind) + seq![','] + nl(ind)
            + pretty_text(x, ind),
    decreases a.len(),
{
    if a.len() == 0 {
        assert(a.push(x)[0] == x);
        assert(a.push(x).drop_first() =~= Seq::<JsonV>::empty());
        reveal_with_fuel(pretty_rest_elems, 2);
        assert(pretty_rest_elems(a.push(x), ind) =~= pretty_rest_elems(a, ind) + seq![','] + nl(
            ind,
        ) + pretty_text(x, ind));
    } else {
        assert(a.push(x)[0] == a[0]);
        assert(a.push(x).drop_first() =~= a.drop_first().push(x));
        lemma_pretty_rest_elems_snoc(a.drop_first(), x, ind);
        assert(seq![','] + nl(ind) + pretty_text(a[0], ind) + (pretty_rest_elems(
            a.drop_first(),
            ind,
        ) + seq![','] + nl(ind) + pretty_text(x, ind)) =~= (seq![','] + nl(ind) + pretty_text(
            a[0],
            ind,
        ) + pretty_rest_elems(a.drop_first(), ind)) + seq![','] + nl(ind) + pretty_text(x, ind));
    }
}

/// One more element extends a non-empty pretty element list.
pub proof fn lemma_pretty_elems_snoc(a: Seq<JsonV>, x: JsonV, ind: nat)
    requires
        a.len() > 0,
    ensures
        pretty_elems(a.push(x), ind) == pretty_elems(a, ind) + seq![','] + nl(ind) + pretty_text(
            x,
            ind,
        ),
{
    assert(a.push(x)[0] == a[0]);
    assert(a.push(x).drop_first() =~= a.drop_first().push(x));
    lemma_pretty_rest_elems_snoc(a.drop_first(), x, ind);
    assert(pretty_text(a[0], ind) + (pretty_rest_elems(a.drop_first(), ind) + seq![','] + nl(ind)
        + pretty_text(x, ind)) =~= (pretty_text(a[0], ind) + pretty_rest_elems(
        a.drop_first(),
        ind,
    )) + seq![','] + nl(ind) + pretty_text(x, ind));
}

/// One more member extends the pretty members likewise.
pub proof fn lemma_pretty_rest_members_snoc(
    a: Seq<(Seq<char>, JsonV)>,
    x: (Seq<char>, JsonV),
    ind: nat,
)
    ensures
        pretty_rest_members(a.push(x), ind) == pretty_rest_members(a, ind) + seq![','] + nl(ind)
            + str_text(x.0) + seq![':', ' '] + pretty_text(x.1, ind),
    decreases a.len(),
{
    if a.len() == 0 {
        assert(a.push(x)[0] == x);
        assert(a.push(x).drop_first() =~= Seq::<(Seq<char>, JsonV)>::empty());
        reveal_with_fuel(pretty_rest_members, 2);
        assert(pretty_rest_members(a.push(x), ind) =~= pretty_rest_members(a, ind) + seq![',']
            + nl(ind) + str_text(x.0) + seq![':', ' '] + pretty_text(x.1, ind));
    } else {
        assert(a.push(x)[0] == a[0]);
        assert(a.push(x).drop_first() =~= a.drop_first().push(x));
        lemma_pretty_rest_members_snoc(a.drop_first(), x, ind);
        assert(seq![','] + nl(ind) + str_text(a[0].0) + seq![':', ' '] + pretty_text(a[0].1, ind)
            + (pretty_rest_members(a.drop_first(), ind) + seq![','] + nl(ind) + str_text(x.0)
            + seq![':', ' '] + pretty_text(x.1, ind)) =~= (seq![','] + nl(ind) + str_text(a[0].0)
            + seq![':', ' '] + pretty_text(a[0].1, ind) + pretty_rest_members(
            a.drop_first(),
            ind,
        )) + seq![','] + nl(ind) + str_text(x.0) + seq![':', ' '] + pretty_text(x.1, ind));
    }
}

/// One more member extends a non-empty pretty member list.
pub proof fn lemma_pretty_members_snoc(
    a: Seq<(Seq<char>, JsonV)>,
    x: (Seq<char>, JsonV),
    ind: nat,
)
    requires
        a.len() > 0,
    ensures
        pretty_members(a.push(x), ind) == pretty_members(a, ind) + seq![','] + nl(ind) + str_text(
            x.0,
        ) + seq![':', ' '] + pretty_text(x.1, ind),
{
    assert(a.push(x)[0] == a[0]);
    assert(a.push(x).drop_first() =~= a.drop_first().push(x));
    lemma_pretty_rest_members_snoc(a.drop_first(), x, ind);
    assert(str_text(a[0].0) + seq![':', ' '] + pretty_text(a[0].1, ind) + (pretty_rest_members(
        a.drop_first(),
        ind,
    ) + seq![','] + nl(ind) + str_text(x.0) + seq![':', ' '] + pretty_text(x.1, ind)) =~= (
    str_text(a[0].0) + seq![':', ' '] + pretty_text(a[0].1, ind) + pretty_rest_members(
        a.drop_first(),
        ind,
    )) + seq![','] + nl(ind) + str_text(x.0) + seq![':', ' '] + pretty_text(x.1, ind));
}

/// Appends the characters of a buffer.
#[verifier::loop_isolation(false)]
fn push_chars(out: &mut Vec<char>, v: &Vec<char>)
    ensures
        final(out)@ == old(out)@ + v@,
{
    let mut i: usize = 0;
    while i < v.len()
        invariant
            i <= v@.len(),
            out@ =~= old(out)@ + v@.take(i as int),
        decreases v@.len() - i,
    {
        out.push(v[i]);
        proof {
            assert(v@.take(i as int + 1) =~= v@.take(i as int).push(v@[i as int]));
        }
        i = i + 1;
    }
    proof {
        assert(v@.take(v@.len() as int) =~= v@);
    }
}

/// The indentation one level deeper.
#[verifier::loop_isolation(false)]
fn deeper(indent: &Vec<char>, Ghost(ind): Ghost<nat>) -> (r: Vec<char>)
    requires
        indent@ == nl(ind),
    ensures
        r@ == nl(ind + 1),
{
    let mut r: Vec<char> = Vec::new();
    let mut i: usize = 0;
    while i < indent.len()
        invariant
            i <= indent@.len(),
            r@ =~= indent@.take(i as int),
        decreases indent@.len() - i,
    {
        r.push(indent[i]);
        proof {
            assert(indent@.take(i as int + 1) =~= indent@.take(i as int).push(indent@[i as int]));
        }
        i = i + 1;
    }
    r.push(' ');
    r.push(' ');
    proof {
        assert(indent@.take(indent@.len() as int) =~= indent@);
        assert(r@ =~= nl(ind + 1));
    }
    r
}

/// Appends the indented text of a document at the depth whose line break
/// and indentation `indent` holds.
#[verifier::loop_isolation(false)]
#[verifier::rlimit(100)]
#[verifier::spinoff_prover]
fn json_push_pretty(out: &mut Vec<char>, j: &Json, indent: &Vec<char>, Ghost(ind): Ghost<nat>)
    requires
        indent@ == nl(ind),
    ensures
        final(out)@ == old(out)@ + pretty_text(j@, ind),
    decreases *j,
{
    match j {
        Json::Arr(items) => {
            if items.len() == 0 {
                out.push('[');
                out.push(']');
                proof {
                    assert(arr_views(items@).len() == 0);
                    assert(out@ =~= old(out)@ + pretty_text(j@, ind));
                }
                return ;
            }
            let ghost vs = arr_views(items@);
            let indent2 = deeper(indent, Ghost(ind));
            out.push('[');
            push_chars(out, &indent2);
            let ghost base = out@;
            let mut i: usize = 0;
            while i < items.len()
                invariant
                    i <= items@.len(),
                    indent2@ == nl(ind + 1),
                    out@ == base + if i == 0 {
                        Seq::<char>::empty()
                    } else {
                        pretty_elems(vs.take(i as int), (ind + 1) as nat)
                    },
                decreases items@.len() - i,
            {
                let ghost prefix = out@;
                if i > 0 {
                    out.push(',');
                    push_chars(out, &indent2);
                }
                proof {
                    assert(*items == self_arr_items(j));
                    assert(decreases_to!(*j => *items));
                    assert(decreases_to!(*items => items@));
                    assert(decreases_to!(items@ => items@[i as int]));
                }
                json_push_pretty(out, &items[i], &indent2, Ghost((ind + 1) as nat));
                proof {
                    assert(vs.take(i as int + 1) =~= vs.take(i as int).push(vs[i as int]));
                    if i == 0 {
                        assert(vs.take(1).drop_first() =~= Seq::<JsonV>::empty());
                        assert(pretty_elems(vs.take(1), (ind + 1) as nat) =~= pretty_text(
                            vs[0],
                            (ind + 1) as nat,
                        ));
                        assert(out@ =~= base + pretty_elems(vs.take(1), (ind + 1) as nat));
                    } else {
                        lemma_pretty_elems_snoc(vs.take(i as int), vs[i as int], (ind + 1) as nat);
                        assert(out@ =~= prefix + seq![','] + nl(ind + 1) + pretty_text(
                            vs[i as int],
                            (ind + 1) as nat,
                        ));
                        assert(out@ =~= base + pretty_elems(vs.take(i as int + 1), (ind + 1) as nat));
                    }
                }
                i = i + 1;
            }
            push_chars(out, indent);
            out.push(']');
            proof {
                assert(vs.take(vs.len() as int) =~= vs);
                assert(out@ =~= old(out)@ + (seq!['['] + nl(ind + 1) + pretty_elems(
                    vs,
                    (ind + 1) as nat,
                ) + nl(ind) + seq![']']));
            }
        },
        Json::Obj(members) => {
            if members.len() == 0 {
                out.push('{');
                out.push('}');
                proof {
                    assert(obj_views(members@).len() == 0);
                    assert(out@ =~= old(out)@ + pretty_text(j@, ind));
                }
                return ;
            }
            let ghost ms = obj_views(members@);
            let indent2 = deeper(indent, Ghost(ind));
            out.push('{');
            push_chars(out, &indent2);
            let ghost base = out@;
            let mut i: usize = 0;
            while i < members.len()
                invariant
                    i <= members@.len(),
                    indent2@ == nl(ind + 1),
                    out@ == base + if i == 0 {
                        Seq::<char>::empty()
                    } else {
                        pretty_members(ms.take(i as int), (ind + 1) as nat)
                    },
                decreases members@.len() - i,
            {
                let ghost prefix = out@;
                if i > 0 {
                    out.push(',');
                    push_chars(out, &indent2);
                }
                let ghost mid = out@;
                push_str_text(out, &members[i].0);
                out.push(':');
                out.push(' ');
                proof {
                    assert(*members == self_obj_members(j));
                    assert(decreases_to!(*j => *members));
                    assert(decreases_to!(*members => members@));
                    assert(decreases_to!(members@ => members@[i as int]));
                    assert(decreases_to!(members@[i as int] => members@[i as int].1));
                }
                json_push_pretty(out, &members[i].1, &indent2, Ghost((ind + 1) as nat));
                proof {
                    assert(ms.take(i as int + 1) =~= ms.take(i as int).push(ms[i as int]));
                    assert(out@ =~= mid + str_text(ms[i as int].0) + seq![':', ' '] + pretty_text(
                        ms[i as int].1,
                        (ind + 1) as nat,
                    ));
                    if i == 0 {
                        assert(ms.take(1).drop_first() =~= Seq::<(Seq<char>, JsonV)>::empty());
                        assert(pretty_members(ms.take(1), (ind + 1) as nat) =~= str_text(ms[0].0)
                            + seq![':', ' '] + pretty_text(ms[0].1, (ind + 1) as nat));
                        assert(out@ =~= base + pretty_members(ms.take(1), (ind + 1) as nat));
                    } else {
                        lemma_pretty_members_snoc(
                            ms.take(i as int),
                            ms[i as int],
                            (ind + 1) as nat,
                        );
                        assert(out@ =~= base + pretty_members(
                            ms.take(i as int + 1),
                            (ind + 1) as nat,
                        ));
                    }
                }
                i = i + 1;
            }
            push_chars(out, indent);
            out.push('}');
            proof {
                assert(ms.take(ms.len() as int) =~= ms);
                assert(out@ =~= old(out)@ + (seq!['{'] + nl(ind + 1) + pretty_members(
                    ms,
                    (ind + 1) as nat,
                ) + nl(ind) + seq!['}']));
            }
        },
        _ => {
            json_push_text(out, j);
            proof {
                assert(pretty_text(j@, ind) == json_text(j@));
            }
        },
    }
}

/// The indented text of a document, as a string.
pub fn json_to_pretty_string(j: &Json) -> (r: String)
    ensures
        r@ == pretty_text(j@, 0),
{
    let mut indent: Vec<char> = Vec::new();
    indent.push('\n');
    proof {
        assert(indent@ =~= nl(0));
    }
    let mut out: Vec<char> = Vec::new();
    json_push_pretty(&mut out, j, &indent, Ghost(0nat));
    string_from_chars(&out)
}


} // verus!
