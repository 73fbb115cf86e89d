//! The Wavefront OBJ grammar the asset loader reads.
//!
//! OBJ is plain text with one item per line:
//!
//!   v  x y z        vertex position
//!   vn x y z        vertex normal
//!   f  a b c ...    a face with 3 or more corners. Each corner is v, v/vt,
//!                   v//vn or v/vt/vn. Indices are 1 based, negative counts
//!                   from the end.
//!
//! A `#` starts a comment that runs to the end of the line. Texture
//! coordinates, materials, groups and any other line types are skipped.
//! Faces with more than 3 corners are fan triangulated. Numbers are kept as
//! the text they were written as, once checked to be valid number literals.
use crate::text::{
    chars_of, char_pred, decimal, find_char, first_where, lemma_first_where_bounds,
    lemma_first_where_is, lines, next_line, push_decimal, push_range, push_signed_decimal, push_str,
    signed_decimal, string_from_chars, word_ranges, words,
};
use vstd::slice::slice_subrange;
use vstd::prelude::*;

verus! {

/// Whether `c` is an ASCII decimal digit.
pub open spec fn is_digit(c: char) -> bool {
    '0' <= c <= '9'
}

/// The value of a run of decimal digits, most significant first.
pub open spec fn digits_value(s: Seq<char>) -> int
    decreases s.len(),
{
    if s.len() == 0 {
        0
    } else {
        digits_value(s.drop_last()) * 10 + (s.last() as int - '0' as int)
    }
}

pub open spec fn all_digits(s: Seq<char>) -> bool {
    forall|i: int| 0 <= i < s.len() ==> is_digit(#[trigger] s[i])
}

/// What `str::parse::<i64>` accepts: an optional `'+'` or `'-'`, then one or
/// more decimal digits, denoting a value in the `i64` range.
pub open spec fn parse_i64(s: Seq<char>) -> Option<i64> {
    let signed = s.len() > 0 && (s[0] == '-' || s[0] == '+');
    let d = if signed {
        s.drop_first()
    } else {
        s
    };
    let v = if s.len() > 0 && s[0] == '-' {
        -digits_value(d)
    } else {
        digits_value(d)
    };
    if d.len() == 0 || !all_digits(d) || v < i64::MIN || v > i64::MAX {
        None
    } else {
        Some(v as i64)
    }
}

proof fn lemma_digits_value_step(s: Seq<char>, k: int)
    requires
        0 <= k < s.len(),
    ensures
        digits_value(s.subrange(0, k + 1)) == digits_value(s.subrange(0, k)) * 10 + (s[k] as int
            - '0' as int),
{
    assert(s.subrange(0, k + 1).drop_last() =~= s.subrange(0, k));
}

proof fn lemma_digits_value_grows(s: Seq<char>, k: int)
    requires
        0 <= k <= s.len(),
        all_digits(s),
    ensures
        0 <= digits_value(s.subrange(0, k)) <= digits_value(s),
    decreases s.len() - k,
{
    if k < s.len() {
        lemma_digits_value_step(s, k);
        assert(is_digit(s[k]));
        lemma_digits_value_nonneg(s.subrange(0, k));
        lemma_digits_value_grows(s, k + 1);
    } else {
        assert(s.subrange(0, k) =~= s);
        lemma_digits_value_nonneg(s);
    }
}

proof fn lemma_digits_value_nonneg(s: Seq<char>)
    requires
        all_digits(s),
    ensures
        digits_value(s) >= 0,
    decreases s.len(),
{
    if s.len() > 0 {
        assert(is_digit(s[s.len() - 1]));
        lemma_digits_value_nonneg(s.drop_last());
    }
}

/// `str::parse::<i64>` on the characters `s[from..to]`.
fn parse_i64_range(s: &Vec<char>, from: usize, to: usize) -> (r: Option<i64>)
    requires
        from <= to <= s@.len(),
    ensures
        r == parse_i64(s@.subrange(from as int, to as int)),
{
    let ghost t = s@.subrange(from as int, to as int);
    let negative = from < to && s[from] == '-';
    let signed = from < to && (s[from] == '-' || s[from] == '+');
    let start: usize = if signed {
        from + 1
    } else {
        from
    };
    let ghost d = s@.subrange(start as int, to as int);
    assert(d =~= if signed {
        t.drop_first()
    } else {
        t
    });
    if start == to {
        return None;
    }
    let limit: u128 = 0x8000_0000_0000_0000;
    let mut magnitude: u128 = 0;
    let mut i: usize = start;
    while i < to
        invariant
            start <= i <= to,
            to <= s@.len(),
            d == s@.subrange(start as int, to as int),
            t == s@.subrange(from as int, to as int),
            d == if signed {
                t.drop_first()
            } else {
                t
            },
            signed == (t.len() > 0 && (t[0] == '-' || t[0] == '+')),
            negative == (t.len() > 0 && t[0] == '-'),
            d.len() > 0,
            limit == 0x8000_0000_0000_0000,
            all_digits(d.subrange(0, i - start)),
            magnitude == digits_value(d.subrange(0, i - start)),
            magnitude <= limit,
        decreases to - i,
    {
        let c = s[i];
        if !('0' <= c && c <= '9') {
            assert(d[i - start] == c);
            return None;
        }
        proof {
            lemma_digits_value_step(d, i - start);
            assert(d.subrange(0, i - start + 1) =~= d.subrange(0, i - start).push(c));
        }
        magnitude = magnitude * 10 + (c as u128 - '0' as u128);
        i = i + 1;
        if magnitude > limit {
            proof {
                if all_digits(d) {
                    lemma_digits_value_grows(d, i - start);
                }
            }
            return None;
        }
    }
    assert(d.subrange(0, i - start) =~= d);
    if negative {
        if magnitude == limit {
            Some(i64::MIN)
        } else {
            Some(-(magnitude as i64))
        }
    } else if magnitude == limit {
        None
    } else {
        Some(magnitude as i64)
    }
}

/// The index that `s[from..to]` holds its first `'/'` at, or `to` when it has none.
fn find_slash(s: &Vec<char>, from: usize, to: usize) -> (i: usize)
    requires
        from <= to <= s@.len(),
    ensures
        from <= i <= to,
        i - from == first_where(s@.subrange(from as int, to as int), char_pred('/')),
{
    let mut i = from;
    while i < to && s[i] != '/'
        invariant
            from <= i <= to,
            to <= s@.len(),
            forall|k: int| from <= k < i ==> s@[k] != '/',
        decreases to - i,
    {
        i = i + 1;
    }
    proof {
        let t = s@.subrange(from as int, to as int);
        assert forall|k: int| 0 <= k < i - from implies !char_pred('/')(#[trigger] t[k]) by {
            assert(t[k] == s@[from + k]);
        }
        lemma_first_where_is(t, char_pred('/'), i - from);
    }
    i
}

/// The fields of a face corner token that the loader reads: the text
/// before the first `'/'` (the position index) and, when the token has at
/// least two `'/'`, the text between the second `'/'` and the next one
/// (the normal index).
pub open spec fn corner_fields(t: Seq<char>) -> (Seq<char>, Option<Seq<char>>) {
    let i = first_where(t, char_pred('/'));
    let f0 = t.subrange(0, i);
    if i >= t.len() {
        (f0, None)
    } else {
        let r1 = t.subrange(i + 1, t.len() as int);
        let j = first_where(r1, char_pred('/'));
        if j >= r1.len() {
            (f0, None)
        } else {
            let r2 = r1.subrange(j + 1, r1.len() as int);
            (f0, Some(r2.subrange(0, first_where(r2, char_pred('/')))))
        }
    }
}

pub open spec fn msg_bad_corner(line_no: nat, token: Seq<char>) -> Seq<char> {
    "line "@ + decimal(line_no) + ": bad face corner '"@ + token + "'"@
}

pub open spec fn msg_bad_normal(line_no: nat, token: Seq<char>) -> Seq<char> {
    "line "@ + decimal(line_no) + ": bad normal index in '"@ + token + "'"@
}

/// A face corner token read as (position index, optional normal index),
/// both still 1 based or negative, or the message saying why it is bad.
pub open spec fn face_corner(token: Seq<char>, line_no: nat) -> Result<(i64, Option<i64>), Seq<char>> {
    let (f0, f2) = corner_fields(token);
    match parse_i64(f0) {
        None => Err(msg_bad_corner(line_no, token)),
        Some(pi) => match f2 {
            Some(f) => if f.len() == 0 {
                Ok((pi, None))
            } else {
                match parse_i64(f) {
                    Some(ni) => Ok((pi, Some(ni))),
                    None => Err(msg_bad_normal(line_no, token)),
                }
            },
            None => Ok((pi, None)),
        },
    }
}

fn bad_corner_message(line_no: usize, s: &Vec<char>, from: usize, to: usize) -> (m: String)
    requires
        from <= to <= s@.len(),
    ensures
        m@ == msg_bad_corner(line_no as nat, s@.subrange(from as int, to as int)),
{
    let mut v: Vec<char> = Vec::new();
    push_str(&mut v, "line ");
    push_decimal(&mut v, line_no as u64);
    push_str(&mut v, ": bad face corner '");
    push_range(&mut v, s, from, to);
    push_str(&mut v, "'");
    string_from_chars(v.as_slice())
}

fn bad_normal_message(line_no: usize, s: &Vec<char>, from: usize, to: usize) -> (m: String)
    requires
        from <= to <= s@.len(),
    ensures
        m@ == msg_bad_normal(line_no as nat, s@.subrange(from as int, to as int)),
{
    let mut v: Vec<char> = Vec::new();
    push_str(&mut v, "line ");
    push_decimal(&mut v, line_no as u64);
    push_str(&mut v, ": bad normal index in '");
    push_range(&mut v, s, from, to);
    push_str(&mut v, "'");
    string_from_chars(v.as_slice())
}

/// Parse the face corner token `s[from..to]` (see `face_corner`).
fn parse_corner_range(s: &Vec<char>, from: usize, to: usize, line_no: usize) -> (r: Result<
    (i64, Option<i64>),
    String,
>)
    requires
        from <= to <= s@.len(),
    ensures
        match (r, face_corner(s@.subrange(from as int, to as int), line_no as nat)) {
            (Ok(a), Ok(b)) => a == b,
            (Err(m), Err(sm)) => m@ == sm,
            _ => false,
        },
{
    let ghost t = s@.subrange(from as int, to as int);
    let i = find_slash(s, from, to);
    assert(s@.subrange(from as int, i as int) =~= t.subrange(0, i - from));
    let pi = match parse_i64_range(s, from, i) {
        Some(v) => v,
        None => {
            return Err(bad_corner_message(line_no, s, from, to));
        },
    };
    if i == to {
        return Ok((pi, None));
    }
    let ghost r1 = t.subrange(i - from + 1, t.len() as int);
    assert(r1 =~= s@.subrange(i + 1, to as int));
    let j = find_slash(s, i + 1, to);
    if j == to {
        return Ok((pi, None));
    }
    let ghost r2 = r1.subrange(j - i, r1.len() as int);
    assert(r2 =~= s@.subrange(j + 1, to as int));
    let k = find_slash(s, j + 1, to);
    assert(r2.subrange(0, k - j - 1) =~= s@.subrange(j + 1, k as int));
    if k == j + 1 {
        return Ok((pi, None));
    }
    match parse_i64_range(s, j + 1, k) {
        Some(ni) => Ok((pi, Some(ni))),
        None => Err(bad_normal_message(line_no, s, from, to)),
    }
}

/// Parse one face corner token (v, v/vt, v//vn or v/vt/vn) into a
/// (position index, optional normal index) pair, still 1 based or negative.
/// `line_no` names the line in the error message.
pub fn parse_face_corner(token: &str, line_no: usize) -> (r: Result<(i64, Option<i64>), String>)
    ensures
        match (r, face_corner(token@, line_no as nat)) {
            (Ok(a), Ok(b)) => a == b,
            (Err(m), Err(sm)) => m@ == sm,
            _ => false,
        },
{
    let chars = chars_of(token);
    assert(chars@.subrange(0, chars@.len() as int) =~= token@);
    parse_corner_range(&chars, 0, chars.len(), line_no)
}

/// The list position an OBJ index refers to in a list of `len` items: 1
/// based counting from the front, negative counting back from the end, 0
/// and anything past either end referring to nothing.
pub open spec fn obj_index(len: int, index: int) -> Option<int> {
    if 0 < index <= len {
        Some(index - 1)
    } else if index < 0 && -index <= len {
        Some(len + index)
    } else {
        None
    }
}

/// The list position an OBJ index refers to in a list of `len` items (see `obj_index`).
pub fn obj_position(len: usize, index: i64) -> (r: Option<usize>)
    ensures
        r == match obj_index(len as int, index as int) {
            Some(i) => Some(i as usize),
            None => None::<usize>,
        },
{
    let n = len as i128;
    let ix = index as i128;
    if ix > 0 {
        if ix <= n {
            Some((ix - 1) as usize)
        } else {
            None
        }
    } else if ix < 0 {
        if -ix <= n {
            Some((n + ix) as usize)
        } else {
            None
        }
    } else {
        None
    }
}

/// Resolve an OBJ index into the list it refers to (see `obj_index`).
pub fn resolve<T>(list: &[T], index: i64) -> (r: Option<&T>)
    ensures
        r == match obj_index(list@.len() as int, index as int) {
            Some(i) => Some(&list@[i]),
            None => None::<&T>,
        },
{
    match obj_position(list.len(), index) {
        Some(i) => Some(&list[i]),
        None => None,
    }
}


/// A character with ASCII upper case letters folded to lower case.
pub open spec fn ascii_lower(c: char) -> char {
    if 'A' <= c <= 'Z' {
        ((c as u32) + 32) as char
    } else {
        c
    }
}

/// Whether `b` is a decimal number: digits with at most one `'.'` and at
/// least one digit, then optionally `'e'`, an optional sign and one or more
/// digits. `b` is already in lower case.
pub open spec fn decimal_number(b: Seq<char>) -> bool {
    let e = first_where(b, char_pred('e'));
    let mantissa = b.subrange(0, e);
    let dot = first_where(mantissa, char_pred('.'));
    let int_part = mantissa.subrange(0, dot);
    let frac_part = if dot < mantissa.len() {
        mantissa.subrange(dot + 1, mantissa.len() as int)
    } else {
        Seq::empty()
    };
    let exponent_ok = if e < b.len() {
        let rest = b.subrange(e + 1, b.len() as int);
        let digits = if rest.len() > 0 && (rest[0] == '+' || rest[0] == '-') {
            rest.drop_first()
        } else {
            rest
        };
        digits.len() > 0 && all_digits(digits)
    } else {
        true
    };
    &&& all_digits(int_part)
    &&& all_digits(frac_part)
    &&& int_part.len() + frac_part.len() > 0
    &&& exponent_ok
}

/// Whether `token` is a number literal as the standard library's decimal
/// parsing accepts one: ignoring ASCII case, an optional sign followed by
/// `inf`, `infinity`, `nan` or a decimal number.
pub open spec fn number_literal(token: Seq<char>) -> bool {
    let t = token.map_values(|c: char| ascii_lower(c));
    let body = if t.len() > 0 && (t[0] == '+' || t[0] == '-') {
        t.drop_first()
    } else {
        t
    };
    ||| body == seq!['i', 'n', 'f']
    ||| body == seq!['i', 'n', 'f', 'i', 'n', 'i', 't', 'y']
    ||| body == seq!['n', 'a', 'n']
    ||| decimal_number(body)
}

fn lower_of(c: char) -> (l: char)
    ensures
        l == ascii_lower(c),
{
    if 'A' <= c && c <= 'Z' {
        ((c as u8) + 32) as char
    } else {
        c
    }
}

/// Whether `s[from..to]` consists of one or more decimal digits.
fn digits_only(s: &Vec<char>, from: usize, to: usize) -> (ok: bool)
    requires
        from <= to <= s@.len(),
    ensures
        ok == all_digits(s@.subrange(from as int, to as int)),
{
    let mut i = from;
    while i < to
        invariant
            from <= i <= to,
            to <= s@.len(),
            forall|k: int| from <= k < i ==> is_digit(#[trigger] s@[k]),
        decreases to - i,
    {
        if !('0' <= s[i] && s[i] <= '9') {
            assert(s@.subrange(from as int, to as int)[i - from] == s@[i as int]);
            return false;
        }
        i = i + 1;
    }
    assert forall|k: int| 0 <= k < to - from implies is_digit(
        #[trigger] s@.subrange(from as int, to as int)[k],
    ) by {
        assert(s@.subrange(from as int, to as int)[k] == s@[from + k]);
    }
    true
}

/// The characters `s[from..to]` with ASCII letters folded to lower case.
fn lowered(s: &Vec<char>, from: usize, to: usize) -> (t: Vec<char>)
    requires
        from <= to <= s@.len(),
    ensures
        t@ == s@.subrange(from as int, to as int).map_values(|c: char| ascii_lower(c)),
{
    let ghost token = s@.subrange(from as int, to as int);
    let mut t: Vec<char> = Vec::new();
    let mut i = from;
    while i < to
        invariant
            from <= i <= to,
            to <= s@.len(),
            token == s@.subrange(from as int, to as int),
            t@ == token.subrange(0, i - from).map_values(|c: char| ascii_lower(c)),
        decreases to - i,
    {
        t.push(lower_of(s[i]));
        i = i + 1;
        assert(t@ =~= token.subrange(0, i - from).map_values(|c: char| ascii_lower(c)));
    }
    assert(token.subrange(0, token.len() as int) =~= token);
    t
}

/// Whether `t[start..n]` spells `inf`, `infinity` or `nan`.
fn is_special_word(t: &Vec<char>, start: usize, n: usize) -> (ok: bool)
    requires
        start <= n <= t@.len(),
    ensures
        ok == ({
            let body = t@.subrange(start as int, n as int);
            ||| body == seq!['i', 'n', 'f']
            ||| body == seq!['i', 'n', 'f', 'i', 'n', 'i', 't', 'y']
            ||| body == seq!['n', 'a', 'n']
        }),
{
    let ghost body = t@.subrange(start as int, n as int);
    let len = n - start;
    let ok = if len == 3 {
        (t[start] == 'i' && t[start + 1] == 'n' && t[start + 2] == 'f') || (t[start] == 'n'
            && t[start + 1] == 'a' && t[start + 2] == 'n')
    } else if len == 8 {
        t[start] == 'i' && t[start + 1] == 'n' && t[start + 2] == 'f' && t[start + 3] == 'i'
            && t[start + 4] == 'n' && t[start + 5] == 'i' && t[start + 6] == 't' && t[start + 7]
            == 'y'
    } else {
        false
    };
    proof {
        let inf = seq!['i', 'n', 'f'];
        let nan = seq!['n', 'a', 'n'];
        let infinity = seq!['i', 'n', 'f', 'i', 'n', 'i', 't', 'y'];
        assert(inf.len() == 3 && inf[0] == 'i' && inf[1] == 'n' && inf[2] == 'f');
        assert(nan.len() == 3 && nan[0] == 'n' && nan[1] == 'a' && nan[2] == 'n');
        assert(infinity.len() == 8 && infinity[0] == 'i' && infinity[1] == 'n' && infinity[2]
            == 'f' && infinity[3] == 'i' && infinity[4] == 'n' && infinity[5] == 'i'
            && infinity[6] == 't' && infinity[7] == 'y');
        if len == 3 {
            assert(body[0] == t@[start as int]);
            assert(body[1] == t@[start + 1]);
            assert(body[2] == t@[start + 2]);
            if ok {
                assert(body =~= seq!['i', 'n', 'f'] || body =~= seq!['n', 'a', 'n']);
            }
        }
        if len == 8 {
            assert(body[0] == t@[start as int]);
            assert(body[1] == t@[start + 1]);
            assert(body[2] == t@[start + 2]);
            assert(body[3] == t@[start + 3]);
            assert(body[4] == t@[start + 4]);
            assert(body[5] == t@[start + 5]);
            assert(body[6] == t@[start + 6]);
            assert(body[7] == t@[start + 7]);
            if ok {
                assert(body =~= seq!['i', 'n', 'f', 'i', 'n', 'i', 't', 'y']);
            }
        }
    }
    ok
}

/// Whether `t[start..n]` is a decimal number (see `decimal_number`).
fn is_decimal_number(t: &Vec<char>, start: usize, n: usize) -> (ok: bool)
    requires
        start <= n <= t@.len(),
    ensures
        ok == decimal_number(t@.subrange(start as int, n as int)),
{
    let ghost body = t@.subrange(start as int, n as int);
    let e = find_char(t, start, n, 'e');
    let dot = find_char(t, start, e, '.');
    proof {
        assert(body.subrange(0, e - start) =~= t@.subrange(start as int, e as int));
        assert(body.subrange(0, e - start).subrange(0, dot - start) =~= t@.subrange(
            start as int,
            dot as int,
        ));
    }
    if !digits_only(t, start, dot) {
        return false;
    }
    let frac_from: usize = if dot < e {
        dot + 1
    } else {
        e
    };
    proof {
        let mantissa = body.subrange(0, e - start);
        if dot < e {
            assert(mantissa.subrange(dot - start + 1, mantissa.len() as int) =~= t@.subrange(
                frac_from as int,
                e as int,
            ));
        } else {
            assert(t@.subrange(frac_from as int, e as int) =~= Seq::<char>::empty());
        }
    }
    if !digits_only(t, frac_from, e) {
        return false;
    }
    if (dot - start) + (e - frac_from) == 0 {
        return false;
    }
    if e == n {
        return true;
    }
    let exp_from = e + 1;
    let digits_from: usize = if exp_from < n && (t[exp_from] == '+' || t[exp_from] == '-') {
        exp_from + 1
    } else {
        exp_from
    };
    proof {
        let rest = body.subrange(e - start + 1, body.len() as int);
        assert(rest =~= t@.subrange(exp_from as int, n as int));
        if rest.len() > 0 && (rest[0] == '+' || rest[0] == '-') {
            assert(rest.drop_first() =~= t@.subrange(digits_from as int, n as int));
        } else {
            assert(rest =~= t@.subrange(digits_from as int, n as int));
        }
    }
    digits_from < n && digits_only(t, digits_from, n)
}

/// Whether `s[from..to]` is a number literal (see `number_literal`).
fn is_number_literal(s: &Vec<char>, from: usize, to: usize) -> (ok: bool)
    requires
        from <= to <= s@.len(),
    ensures
        ok == number_literal(s@.subrange(from as int, to as int)),
{
    let t = lowered(s, from, to);
    let n = t.len();
    let start: usize = if n > 0 && (t[0] == '+' || t[0] == '-') {
        1
    } else {
        0
    };
    assert(t@.subrange(start as int, n as int) =~= if t@.len() > 0 && (t@[0] == '+' || t@[0]
        == '-') {
        t@.drop_first()
    } else {
        t@
    });
    is_special_word(&t, start, n) || is_decimal_number(&t, start, n)
}

/// Three numbers, kept as the text they were written as.
pub struct ObjVec3 {
    pub x: String,
    pub y: String,
    pub z: String,
}

impl View for ObjVec3 {
    type V = Seq<Seq<char>>;

    open spec fn view(&self) -> Seq<Seq<char>> {
        seq![self.x@, self.y@, self.z@]
    }
}

/// One triangle corner: the 0 based position it uses and the 0 based
/// normal it was given, if any.
#[derive(Clone, Copy, PartialEq, Eq, Debug, Structural)]
pub struct ObjCorner {
    pub position: usize,
    pub normal: Option<usize>,
}

/// What an OBJ file holds: its vertex positions and normals, in file
/// order, and a flat triangle list in which every 3 corners are one
/// triangle.
pub struct ObjLayout {
    pub positions: Vec<ObjVec3>,
    pub normals: Vec<ObjVec3>,
    pub triangles: Vec<ObjCorner>,
}

/// The positions, normals and triangle corners read so far.
pub type ObjSpec = (Seq<Seq<Seq<char>>>, Seq<Seq<Seq<char>>>, Seq<ObjCorner>);

impl View for ObjLayout {
    type V = ObjSpec;

    open spec fn view(&self) -> ObjSpec {
        (
            self.positions@.map_values(|v: ObjVec3| v@),
            self.normals@.map_values(|v: ObjVec3| v@),
            self.triangles@,
        )
    }
}

pub open spec fn msg_needs_three(line_no: nat, what: Seq<char>) -> Seq<char> {
    "line "@ + decimal(line_no) + ": '"@ + what + "' needs three numbers"@
}

pub open spec fn msg_not_a_number(line_no: nat, token: Seq<char>) -> Seq<char> {
    "line "@ + decimal(line_no) + ": '"@ + token + "' is not a number"@
}

pub open spec fn msg_vertex_out_of_range(line_no: nat, index: int) -> Seq<char> {
    "line "@ + decimal(line_no) + ": face vertex index "@ + signed_decimal(index) + " is out of range"@
}

pub open spec fn msg_normal_out_of_range(line_no: nat, index: int) -> Seq<char> {
    "line "@ + decimal(line_no) + ": face normal index "@ + signed_decimal(index) + " is out of range"@
}

pub open spec fn msg_few_corners(line_no: nat) -> Seq<char> {
    "line "@ + decimal(line_no) + ": face has fewer than 3 corners"@
}

pub open spec fn msg_no_faces() -> Seq<char> {
    "no faces found (is this an OBJ file with geometry?)"@
}

/// The three numbers after a `v` or `vn` keyword; further words are ignored.
pub open spec fn vec3_args(args: Seq<Seq<char>>, line_no: nat, what: Seq<char>) -> Result<
    Seq<Seq<char>>,
    Seq<char>,
> {
    if args.len() < 1 {
        Err(msg_needs_three(line_no, what))
    } else if !number_literal(args[0]) {
        Err(msg_not_a_number(line_no, args[0]))
    } else if args.len() < 2 {
        Err(msg_needs_three(line_no, what))
    } else if !number_literal(args[1]) {
        Err(msg_not_a_number(line_no, args[1]))
    } else if args.len() < 3 {
        Err(msg_needs_three(line_no, what))
    } else if !number_literal(args[2]) {
        Err(msg_not_a_number(line_no, args[2]))
    } else {
        Ok(args.subrange(0, 3))
    }
}

/// The corners of a face, each resolved against the `positions` positions
/// and `normals` normals read so far; the first bad corner decides the error.
pub open spec fn face_corners(positions: int, normals: int, line_no: nat, args: Seq<Seq<char>>) -> Result<
    Seq<ObjCorner>,
    Seq<char>,
>
    decreases args.len(),
{
    if args.len() == 0 {
        Ok(Seq::empty())
    } else {
        match face_corner(args[0], line_no) {
            Err(m) => Err(m),
            Ok((pi, ni)) => match obj_index(positions, pi as int) {
                None => Err(msg_vertex_out_of_range(line_no, pi as int)),
                Some(p) => {
                    let normal: Result<Option<usize>, Seq<char>> = match ni {
                        None => Ok(None),
                        Some(n) => match obj_index(normals, n as int) {
                            None => Err(msg_normal_out_of_range(line_no, n as int)),
                            Some(q) => Ok(Some(q as usize)),
                        },
                    };
                    match normal {
                        Err(m) => Err(m),
                        Ok(nq) => match face_corners(positions, normals, line_no, args.drop_first()) {
                            Err(m) => Err(m),
                            Ok(rest) => Ok(
                                seq![ObjCorner { position: p as usize, normal: nq }] + rest,
                            ),
                        },
                    }
                },
            },
        }
    }
}

/// Fan triangulation of a polygon: corners (0, k, k + 1) for each k in 1..n-1.
pub open spec fn fan(cs: Seq<ObjCorner>) -> Seq<ObjCorner> {
    Seq::new(
        (3 * (cs.len() - 2)) as nat,
        |i: int|
            if i % 3 == 0 {
                cs[0]
            } else if i % 3 == 1 {
                cs[i / 3 + 1]
            } else {
                cs[i / 3 + 2]
            },
    )
}

/// The words of a line, a `'#'` and everything after it removed.
pub open spec fn line_words(line: Seq<char>) -> Seq<Seq<char>> {
    words(line.subrange(0, first_where(line, char_pred('#'))))
}

/// Read one line (number `line_no`, counting from 1) on top of `st`.
pub open spec fn obj_line(st: ObjSpec, line_no: nat, line: Seq<char>) -> Result<ObjSpec, Seq<char>> {
    let w = line_words(line);
    if w.len() == 0 {
        Ok(st)
    } else if w[0] == seq!['v'] {
        match vec3_args(w.drop_first(), line_no, w[0]) {
            Err(m) => Err(m),
            Ok(v) => Ok((st.0.push(v), st.1, st.2)),
        }
    } else if w[0] == seq!['v', 'n'] {
        match vec3_args(w.drop_first(), line_no, w[0]) {
            Err(m) => Err(m),
            Ok(v) => Ok((st.0, st.1.push(v), st.2)),
        }
    } else if w[0] == seq!['f'] {
        match face_corners(st.0.len() as int, st.1.len() as int, line_no, w.drop_first()) {
            Err(m) => Err(m),
            Ok(cs) => if cs.len() < 3 {
                Err(msg_few_corners(line_no))
            } else {
                Ok((st.0, st.1, st.2 + fan(cs)))
            },
        }
    } else {
        Ok(st)
    }
}

/// Read a sequence of lines in order, the first error ending the read.
pub open spec fn obj_lines(ls: Seq<Seq<char>>) -> Result<ObjSpec, Seq<char>>
    decreases ls.len(),
{
    if ls.len() == 0 {
        Ok((Seq::empty(), Seq::empty(), Seq::empty()))
    } else {
        match obj_lines(ls.drop_last()) {
            Err(m) => Err(m),
            Ok(st) => obj_line(st, ls.len() as nat, ls.last()),
        }
    }
}

/// What an OBJ text holds, or the message that says why it cannot be read.
/// A file without a single face is refused.
pub open spec fn obj_model(text: Seq<char>) -> Result<ObjSpec, Seq<char>> {
    match obj_lines(lines(text)) {
        Err(m) => Err(m),
        Ok(st) => if st.2.len() == 0 {
            Err(msg_no_faces())
        } else {
            Ok(st)
        },
    }
}


/// Read the three numbers after a `v` or `vn` keyword. `ranges` locates the
/// words `w` of the line in `t`; the keyword is word 0.
fn read_vec3(
    t: &Vec<char>,
    ranges: &Vec<(usize, usize)>,
    line_no: usize,
    Ghost(w): Ghost<Seq<Seq<char>>>,
) -> (r: Result<ObjVec3, String>)
    requires
        ranges@.len() == w.len(),
        w.len() >= 1,
        forall|k: int|
            0 <= k < ranges@.len() ==> (#[trigger] ranges@[k]).0 <= ranges@[k].1 <= t@.len()
                && t@.subrange(ranges@[k].0 as int, ranges@[k].1 as int) == w[k],
    ensures
        match (r, vec3_args(w.drop_first(), line_no as nat, w[0])) {
            (Ok(v), Ok(sv)) => v@ == sv,
            (Err(m), Err(sm)) => m@ == sm,
            _ => false,
        },
{
    let ghost args = w.drop_first();
    let n = ranges.len();
    let mut i: usize = 1;
    while i < 4
        invariant
            1 <= i <= 4,
            i <= n,
            w.len() >= 1,
            n == ranges@.len(),
            ranges@.len() == w.len(),
            args == w.drop_first(),
            forall|k: int|
                0 <= k < ranges@.len() ==> (#[trigger] ranges@[k]).0 <= ranges@[k].1 <= t@.len()
                    && t@.subrange(ranges@[k].0 as int, ranges@[k].1 as int) == w[k],
            forall|k: int| 0 <= k < i - 1 ==> k < args.len() && number_literal(#[trigger] args[k]),
        decreases 4 - i,
    {
        if i >= n {
            let (k0, k1) = ranges[0];
            let mut v: Vec<char> = Vec::new();
            push_str(&mut v, "line ");
            push_decimal(&mut v, line_no as u64);
            push_str(&mut v, ": '");
            push_range(&mut v, t, k0, k1);
            push_str(&mut v, "' needs three numbers");
            return Err(string_from_chars(v.as_slice()));
        }
        let (a, b) = ranges[i];
        assert(args[i - 1] == w[i as int]);
        if !is_number_literal(t, a, b) {
            let mut v: Vec<char> = Vec::new();
            push_str(&mut v, "line ");
            push_decimal(&mut v, line_no as u64);
            push_str(&mut v, ": '");
            push_range(&mut v, t, a, b);
            push_str(&mut v, "' is not a number");
            return Err(string_from_chars(v.as_slice()));
        }
        i = i + 1;
    }
    let (a1, b1) = ranges[1];
    let (a2, b2) = ranges[2];
    let (a3, b3) = ranges[3];
    let v = ObjVec3 {
        x: string_from_chars(slice_subrange(t.as_slice(), a1, b1)),
        y: string_from_chars(slice_subrange(t.as_slice(), a2, b2)),
        z: string_from_chars(slice_subrange(t.as_slice(), a3, b3)),
    };
    assert(v@ =~= args.subrange(0, 3));
    Ok(v)
}

/// The result of a face read after the corners `done` have been resolved.
pub open spec fn after_corners(done: Seq<ObjCorner>, rest: Result<Seq<ObjCorner>, Seq<char>>) -> Result<
    Seq<ObjCorner>,
    Seq<char>,
> {
    match rest {
        Ok(cs) => Ok(done + cs),
        Err(m) => Err(m),
    }
}

/// Resolve the corners of a face: words 1.. of the line, located by `ranges`.
fn read_corners(
    t: &Vec<char>,
    ranges: &Vec<(usize, usize)>,
    line_no: usize,
    positions: usize,
    normals: usize,
    Ghost(w): Ghost<Seq<Seq<char>>>,
) -> (r: Result<Vec<ObjCorner>, String>)
    requires
        ranges@.len() == w.len(),
        w.len() >= 1,
        forall|k: int|
            0 <= k < ranges@.len() ==> (#[trigger] ranges@[k]).0 <= ranges@[k].1 <= t@.len()
                && t@.subrange(ranges@[k].0 as int, ranges@[k].1 as int) == w[k],
    ensures
        match (r, face_corners(positions as int, normals as int, line_no as nat, w.drop_first())) {
            (Ok(v), Ok(sv)) => v@ == sv,
            (Err(m), Err(sm)) => m@ == sm,
            _ => false,
        },
{
    let ghost args = w.drop_first();
    let ghost whole = face_corners(positions as int, normals as int, line_no as nat, args);
    let n = ranges.len();
    let mut corners: Vec<ObjCorner> = Vec::new();
    let mut i: usize = 1;
    assert(args.subrange(0, args.len() as int) =~= args);
    assert(corners@ + Seq::<ObjCorner>::empty() =~= corners@);
    while i < n
        invariant
            1 <= i <= n,
            n == ranges@.len(),
            ranges@.len() == w.len(),
            args == w.drop_first(),
            whole == face_corners(positions as int, normals as int, line_no as nat, args),
            forall|k: int|
                0 <= k < ranges@.len() ==> (#[trigger] ranges@[k]).0 <= ranges@[k].1 <= t@.len()
                    && t@.subrange(ranges@[k].0 as int, ranges@[k].1 as int) == w[k],
            whole == after_corners(
                corners@,
                face_corners(
                    positions as int,
                    normals as int,
                    line_no as nat,
                    args.subrange(i - 1, args.len() as int),
                ),
            ),
        decreases n - i,
    {
        let ghost rest = args.subrange(i - 1, args.len() as int);
        assert(rest[0] == w[i as int]);
        assert(rest.drop_first() =~= args.subrange(i as int, args.len() as int));
        let (a, b) = ranges[i];
        let (pi, ni) = match parse_corner_range(t, a, b, line_no) {
            Ok(c) => c,
            Err(m) => {
                return Err(m);
            },
        };
        let position = match obj_position(positions, pi) {
            Some(p) => p,
            None => {
                let mut v: Vec<char> = Vec::new();
                push_str(&mut v, "line ");
                push_decimal(&mut v, line_no as u64);
                push_str(&mut v, ": face vertex index ");
                push_signed_decimal(&mut v, pi);
                push_str(&mut v, " is out of range");
                return Err(string_from_chars(v.as_slice()));
            },
        };
        let normal = match ni {
            None => None,
            Some(nix) => match obj_position(normals, nix) {
                Some(q) => Some(q),
                None => {
                    let mut v: Vec<char> = Vec::new();
                    push_str(&mut v, "line ");
                    push_decimal(&mut v, line_no as u64);
                    push_str(&mut v, ": face normal index ");
                    push_signed_decimal(&mut v, nix);
                    push_str(&mut v, " is out of range");
                    return Err(string_from_chars(v.as_slice()));
                },
            },
        };
        let c = ObjCorner { position, normal };
        let ghost before = corners@;
        corners.push(c);
        proof {
            let tail = face_corners(
                positions as int,
                normals as int,
                line_no as nat,
                args.subrange(i as int, args.len() as int),
            );
            match tail {
                Ok(cs) => {
                    assert(before + (seq![c] + cs) =~= corners@ + cs);
                },
                Err(m) => {},
            }
        }
        i = i + 1;
    }
    assert(args.subrange(n - 1, args.len() as int) =~= Seq::<Seq<char>>::empty());
    assert(corners@ + Seq::<ObjCorner>::empty() =~= corners@);
    Ok(corners)
}

proof fn lemma_fan_index(k: int, j: int)
    requires
        k >= 1,
        0 <= j < 3,
    ensures
        (3 * (k - 1) + j) % 3 == j,
        (3 * (k - 1) + j) / 3 == k - 1,
{
    vstd::arithmetic::div_mod::lemma_fundamental_div_mod_converse(3 * (k - 1) + j, 3, k - 1, j);
}

/// Append the fan triangulation of `corners` to `triangles`.
fn push_fan(triangles: &mut Vec<ObjCorner>, corners: &Vec<ObjCorner>)
    requires
        corners@.len() >= 3,
    ensures
        final(triangles)@ == old(triangles)@ + fan(corners@),
{
    let n = corners.len();
    let mut k: usize = 1;
    while k + 1 < n
        invariant
            1 <= k <= n - 1,
            n == corners@.len(),
            n >= 3,
            triangles@ == old(triangles)@ + fan(corners@).subrange(0, 3 * (k - 1)),
        decreases n - k,
    {
        triangles.push(corners[0]);
        triangles.push(corners[k]);
        triangles.push(corners[k + 1]);
        proof {
            lemma_fan_index(k as int, 0);
            lemma_fan_index(k as int, 1);
            lemma_fan_index(k as int, 2);
            assert(triangles@ =~= old(triangles)@ + fan(corners@).subrange(0, 3 * k));
        }
        k = k + 1;
    }
    assert(fan(corners@).subrange(0, 3 * (k - 1)) =~= fan(corners@));
}

/// Read the line `t[from..to]`, number `line_no`, on top of what `layout` holds.
fn read_line(t: &Vec<char>, from: usize, to: usize, line_no: usize, layout: &mut ObjLayout) -> (r:
    Result<(), String>)
    requires
        from <= to <= t@.len(),
    ensures
        match obj_line(old(layout)@, line_no as nat, t@.subrange(from as int, to as int)) {
            Ok(st) => r is Ok && final(layout)@ == st,
            Err(m) => r matches Err(e) && e@ == m,
        },
{
    let ghost line = t@.subrange(from as int, to as int);
    let hash = find_char(t, from, to, '#');
    assert(line.subrange(0, hash - from) =~= t@.subrange(from as int, hash as int));
    let ranges = word_ranges(t, from, hash);
    let ghost w = line_words(line);
    if ranges.len() == 0 {
        return Ok(());
    }
    let (k0, k1) = ranges[0];
    let klen = k1 - k0;
    proof {
        let kw = t@.subrange(k0 as int, k1 as int);
        assert(kw == w[0]);
        if klen >= 1 {
            assert(kw[0] == t@[k0 as int]);
        }
        if klen >= 2 {
            assert(kw[1] == t@[k0 + 1]);
        }
        let sv = seq!['v'];
        let svn = seq!['v', 'n'];
        let sf = seq!['f'];
        assert(sv.len() == 1 && sv[0] == 'v');
        assert(svn.len() == 2 && svn[0] == 'v' && svn[1] == 'n');
        assert(sf.len() == 1 && sf[0] == 'f');
        if klen == 1 && t@[k0 as int] == 'v' {
            assert(kw =~= sv);
        }
        if klen == 2 && t@[k0 as int] == 'v' && t@[k0 + 1] == 'n' {
            assert(kw =~= svn);
        }
        if klen == 1 && t@[k0 as int] == 'f' {
            assert(kw =~= sf);
        }
    }
    if klen == 1 && t[k0] == 'v' {
        let v = read_vec3(t, &ranges, line_no, Ghost(w))?;
        layout.positions.push(v);
        assert(layout@.0 =~= old(layout)@.0.push(v@));
        Ok(())
    } else if klen == 2 && t[k0] == 'v' && t[k0 + 1] == 'n' {
        let v = read_vec3(t, &ranges, line_no, Ghost(w))?;
        layout.normals.push(v);
        assert(layout@.1 =~= old(layout)@.1.push(v@));
        Ok(())
    } else if klen == 1 && t[k0] == 'f' {
        let corners = read_corners(
            t,
            &ranges,
            line_no,
            layout.positions.len(),
            layout.normals.len(),
            Ghost(w),
        )?;
        if corners.len() < 3 {
            let mut v: Vec<char> = Vec::new();
            push_str(&mut v, "line ");
            push_decimal(&mut v, line_no as u64);
            push_str(&mut v, ": face has fewer than 3 corners");
            return Err(string_from_chars(v.as_slice()));
        }
        push_fan(&mut layout.triangles, &corners);
        Ok(())
    } else {
        Ok(())
    }
}

proof fn lemma_obj_lines_error_sticks(ls: Seq<Seq<char>>, more: Seq<Seq<char>>, m: Seq<char>)
    requires
        obj_lines(ls) == Err::<ObjSpec, Seq<char>>(m),
    ensures
        obj_lines(ls + more) == Err::<ObjSpec, Seq<char>>(m),
    decreases more.len(),
{
    if more.len() == 0 {
        assert(ls + more =~= ls);
    } else {
        lemma_obj_lines_error_sticks(ls, more.drop_last(), m);
        assert((ls + more).drop_last() =~= ls + more.drop_last());
    }
}

/// Read a Wavefront OBJ text: its vertex positions and normals, and its
/// faces fan triangulated into a triangle list whose corners refer to them.
/// A bad line is an error naming the line (counting from 1) and what is
/// wrong with it, and a text with no faces at all is refused.
pub fn parse_obj_layout(text: &str) -> (r: Result<ObjLayout, String>)
    ensures
        match (r, obj_model(text@)) {
            (Ok(layout), Ok(model)) => layout@ == model,
            (Err(m), Err(sm)) => m@ == sm,
            _ => false,
        },
{
    let t = chars_of(text);
    let n = t.len();
    let mut layout = ObjLayout { positions: Vec::new(), normals: Vec::new(), triangles: Vec::new() };
    let ghost mut done: Seq<Seq<char>> = Seq::empty();
    let mut pos: usize = 0;
    let mut line_no: usize = 0;
    assert(t@.subrange(0, n as int) =~= t@);
    assert(layout@ =~= (Seq::empty(), Seq::empty(), Seq::empty()));
    while pos < n
        invariant
            0 <= line_no <= pos <= n,
            n == t@.len(),
            t@ == text@,
            line_no == done.len(),
            done + lines(t@.subrange(pos as int, n as int)) == lines(t@),
            obj_lines(done) == Ok::<ObjSpec, Seq<char>>(layout@),
        decreases n - pos,
    {
        let (end, next) = next_line(&t, pos);
        let ghost line = t@.subrange(pos as int, end as int);
        proof {
            assert(done + lines(t@.subrange(pos as int, n as int)) =~= done.push(line) + lines(
                t@.subrange(next as int, n as int),
            ));
            assert(done.push(line).drop_last() =~= done);
        }
        line_no = line_no + 1;
        match read_line(&t, pos, end, line_no, &mut layout) {
            Ok(()) => {},
            Err(m) => {
                proof {
                    lemma_obj_lines_error_sticks(
                        done.push(line),
                        lines(t@.subrange(next as int, n as int)),
                        m@,
                    );
                }
                return Err(m);
            },
        }
        proof {
            done = done.push(line);
        }
        pos = next;
    }
    assert(t@.subrange(n as int, n as int) =~= Seq::<char>::empty());
    assert(done + Seq::<Seq<char>>::empty() =~= done);
    if layout.triangles.len() == 0 {
        let mut v: Vec<char> = Vec::new();
        push_str(&mut v, "no faces found (is this an OBJ file with geometry?)");
        return Err(string_from_chars(v.as_slice()));
    }
    Ok(layout)
}


/// Every triangle corner refers to a position read so far, and every normal
/// it names to a normal read so far; the list holds whole triangles.
pub open spec fn corners_resolved(st: ObjSpec) -> bool {
    &&& st.2.len() % 3 == 0
    &&& forall|i: int|
        0 <= i < st.2.len() ==> (#[trigger] st.2[i]).position < st.0.len() && (st.2[i].normal matches Some(
            q,
        ) ==> q < st.1.len())
}

proof fn lemma_face_corners_resolved(positions: int, normals: int, line_no: nat, args: Seq<Seq<char>>)
    requires
        0 <= positions,
        0 <= normals,
    ensures
        face_corners(positions, normals, line_no, args) matches Ok(cs) ==> forall|i: int|
            0 <= i < cs.len() ==> (#[trigger] cs[i]).position < positions && (cs[i].normal matches Some(
                q,
            ) ==> q < normals),
    decreases args.len(),
{
    if args.len() > 0 {
        lemma_face_corners_resolved(positions, normals, line_no, args.drop_first());
    }
}

proof fn lemma_fan_len(cs: Seq<ObjCorner>)
    requires
        cs.len() >= 3,
    ensures
        fan(cs).len() % 3 == 0,
        forall|i: int| 0 <= i < fan(cs).len() ==> exists|j: int| 0 <= j < cs.len() && #[trigger] fan(cs)[i] == cs[j],
{
    vstd::arithmetic::div_mod::lemma_mod_multiples_basic(cs.len() - 2, 3);
    assert((3 * (cs.len() - 2)) % 3 == 0) by (nonlinear_arith)
        requires
            ((cs.len() - 2) * 3) % 3 == 0,
    ;
    assert forall|i: int| 0 <= i < fan(cs).len() implies exists|j: int|
        0 <= j < cs.len() && #[trigger] fan(cs)[i] == cs[j] by {
        vstd::arithmetic::div_mod::lemma_fundamental_div_mod(i, 3);
        vstd::arithmetic::div_mod::lemma_mod_bound(i, 3);
        assert(i / 3 + 2 < cs.len()) by (nonlinear_arith)
            requires
                0 <= i < 3 * (cs.len() - 2),
                i == 3 * (i / 3) + i % 3,
                0 <= i % 3 < 3,
        ;
        if i % 3 == 0 {
            assert(fan(cs)[i] == cs[0]);
        } else if i % 3 == 1 {
            assert(fan(cs)[i] == cs[i / 3 + 1]);
        } else {
            assert(fan(cs)[i] == cs[i / 3 + 2]);
        }
    }
}

proof fn lemma_obj_lines_resolved(ls: Seq<Seq<char>>)
    ensures
        obj_lines(ls) matches Ok(st) ==> corners_resolved(st),
    decreases ls.len(),
{
    if ls.len() > 0 {
        lemma_obj_lines_resolved(ls.drop_last());
        if let Ok(st) = obj_lines(ls.drop_last()) {
            let w = line_words(ls.last());
            if w.len() > 0 && w[0] == seq!['f'] {
                lemma_face_corners_resolved(
                    st.0.len() as int,
                    st.1.len() as int,
                    ls.len() as nat,
                    w.drop_first(),
                );
                if let Ok(cs) = face_corners(
                    st.0.len() as int,
                    st.1.len() as int,
                    ls.len() as nat,
                    w.drop_first(),
                ) {
                    if cs.len() >= 3 {
                        lemma_fan_len(cs);
                        let next = st.2 + fan(cs);
                        assert forall|i: int| 0 <= i < next.len() implies (#[trigger] next[i]).position
                            < st.0.len() && (next[i].normal matches Some(q) ==> q < st.1.len()) by {
                            if i >= st.2.len() {
                                assert(next[i] == fan(cs)[i - st.2.len()]);
                            }
                        }
                    }
                }
            }
        }
    }
}

/// A model that reads successfully is a non-empty list of whole triangles
/// whose every corner refers to a vertex position in the file, and whose
/// every normal refers to a vertex normal in the file.
pub proof fn law_obj_triangles_resolved(text: Seq<char>)
    ensures
        obj_model(text) matches Ok(model) ==> model.2.len() > 0 && corners_resolved(model),
{
    lemma_obj_lines_resolved(lines(text));
}

/// Index 1 and index `-len` name the first item; index `len` and index `-1`
/// name the last; index 0 names nothing.
pub proof fn law_obj_index_ends(len: int)
    requires
        len > 0,
    ensures
        obj_index(len, 1) == Some(0int),
        obj_index(len, -len) == Some(0int),
        obj_index(len, len) == Some(len - 1),
        obj_index(len, -1) == Some(len - 1),
        obj_index(len, 0) is None,
        obj_index(len, len + 1) is None,
        obj_index(len, -len - 1) is None,
{
}

/// Fan triangulation of a face with `n >= 3` corners `cs` gives `n - 2`
/// triangles, and triangle `k` is corners 0, `k + 1` and `k + 2` of the
/// face: every corner of the face is used, none is left out.
pub proof fn law_fan_triangulates(cs: Seq<ObjCorner>)
    requires
        cs.len() >= 3,
    ensures
        fan(cs).len() == 3 * (cs.len() - 2),
        forall|k: int|
            #![trigger fan(cs)[3 * k]]
            0 <= k < cs.len() - 2 ==> fan(cs)[3 * k] == cs[0] && fan(cs)[3 * k + 1] == cs[k + 1]
                && fan(cs)[3 * k + 2] == cs[k + 2],
        forall|j: int| 0 <= j < cs.len() ==> fan(cs).contains(#[trigger] cs[j]),
{
    assert forall|k: int| 0 <= k < cs.len() - 2 implies #[trigger] fan(cs)[3 * k] == cs[0] && fan(
        cs,
    )[3 * k + 1] == cs[k + 1] && fan(cs)[3 * k + 2] == cs[k + 2] by {
        lemma_fan_index(k + 1, 0);
        lemma_fan_index(k + 1, 1);
        lemma_fan_index(k + 1, 2);
    }
    assert forall|j: int| 0 <= j < cs.len() implies fan(cs).contains(#[trigger] cs[j]) by {
        if j == 0 {
            lemma_fan_index(1, 0);
            assert(fan(cs)[0] == cs[0]);
        } else if j == 1 {
            lemma_fan_index(1, 1);
            assert(fan(cs)[1] == cs[1]);
        } else {
            lemma_fan_index(j - 1, 2);
            assert(fan(cs)[3 * (j - 2) + 2] == cs[j]);
        }
    }
}

/// Reading an `f` line with `n` resolved corners keeps the positions and
/// normals and appends exactly `n - 2` triangles to the triangle list,
/// triangle `k` being corners 0, `k + 1` and `k + 2` of the face in the
/// order the line gives them; a face of fewer than 3 corners is refused.
pub proof fn law_face_line_appends_fan(st: ObjSpec, line_no: nat, line: Seq<char>)
    requires
        line_words(line).len() > 0,
        line_words(line)[0] == seq!['f'],
    ensures
        match face_corners(
            st.0.len() as int,
            st.1.len() as int,
            line_no,
            line_words(line).drop_first(),
        ) {
            Err(m) => obj_line(st, line_no, line) == Err::<ObjSpec, Seq<char>>(m),
            Ok(cs) => cs.len() < 3 ==> obj_line(st, line_no, line) is Err,
        },
        match (
            face_corners(st.0.len() as int, st.1.len() as int, line_no, line_words(line).drop_first()),
            obj_line(st, line_no, line),
        ) {
            (Ok(cs), Ok(after)) => {
                &&& cs.len() >= 3
                &&& after.0 == st.0
                &&& after.1 == st.1
                &&& after.2.len() == st.2.len() + 3 * (cs.len() - 2)
                &&& after.2.subrange(0, st.2.len() as int) == st.2
                &&& forall|k: int|
                    #![trigger after.2[st.2.len() + 3 * k]]
                    0 <= k < cs.len() - 2 ==> after.2[st.2.len() + 3 * k] == cs[0] && after.2[st.2.len()
                        + 3 * k + 1] == cs[k + 1] && after.2[st.2.len() + 3 * k + 2] == cs[k + 2]
            },
            _ => true,
        },
{
    let w = line_words(line);
    assert(w[0] != seq!['v']) by {
        assert(w[0][0] == 'f');
    }
    assert(w[0] != seq!['v', 'n']) by {
        assert(w[0].len() == 1);
    }
    match face_corners(st.0.len() as int, st.1.len() as int, line_no, w.drop_first()) {
        Ok(cs) => {
            if cs.len() >= 3 {
                law_fan_triangulates(cs);
                let after = st.2 + fan(cs);
                assert(after.subrange(0, st.2.len() as int) =~= st.2);
                assert forall|k: int| 0 <= k < cs.len() - 2 implies #[trigger] after[st.2.len() + 3 * k]
                    == cs[0] && after[st.2.len() + 3 * k + 1] == cs[k + 1] && after[st.2.len() + 3 * k
                    + 2] == cs[k + 2] by {
                    assert(after[st.2.len() + 3 * k] == fan(cs)[3 * k]);
                    assert(after[st.2.len() + 3 * k + 1] == fan(cs)[3 * k + 1]);
                    assert(after[st.2.len() + 3 * k + 2] == fan(cs)[3 * k + 2]);
                }
            }
        },
        Err(_) => {},
    }
}

} // verus!
