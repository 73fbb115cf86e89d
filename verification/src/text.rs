//! Character-level text helpers: line splitting, whitespace splitting and
//! decimal rendering, each stated over sequences of characters.
use vstd::prelude::*;

verus! {

/// Unicode `White_Space`, the property `char::is_whitespace` tests.
pub open spec fn is_ws(c: char) -> bool {
    let u = c as u32;
    ||| 0x09 <= u <= 0x0D
    ||| u == 0x20
    ||| u == 0x85
    ||| u == 0xA0
    ||| u == 0x1680
    ||| 0x2000 <= u <= 0x200A
    ||| u == 0x2028
    ||| u == 0x2029
    ||| u == 0x202F
    ||| u == 0x205F
    ||| u == 0x3000
}

pub open spec fn ws_pred() -> spec_fn(char) -> bool {
    |c: char| is_ws(c)
}

pub open spec fn non_ws_pred() -> spec_fn(char) -> bool {
    |c: char| !is_ws(c)
}

pub open spec fn char_pred(target: char) -> spec_fn(char) -> bool {
    |c: char| c == target
}

/// The index of the first character of `s` that satisfies `p`, or `s.len()` if none does.
pub open spec fn first_where(s: Seq<char>, p: spec_fn(char) -> bool) -> int
    decreases s.len(),
{
    if s.len() == 0 {
        0
    } else if p(s[0]) {
        0
    } else {
        1 + first_where(s.drop_first(), p)
    }
}

pub proof fn lemma_first_where_bounds(s: Seq<char>, p: spec_fn(char) -> bool)
    ensures
        0 <= first_where(s, p) <= s.len(),
        first_where(s, p) < s.len() ==> p(s[first_where(s, p)]),
        forall|k: int| 0 <= k < first_where(s, p) ==> !p(#[trigger] s[k]),
    decreases s.len(),
{
    if s.len() > 0 && !p(s[0]) {
        lemma_first_where_bounds(s.drop_first(), p);
        assert forall|k: int| 0 <= k < first_where(s, p) implies !p(#[trigger] s[k]) by {
            if k > 0 {
                assert(s[k] == s.drop_first()[k - 1]);
            }
        }
    }
}

pub proof fn lemma_first_where_is(s: Seq<char>, p: spec_fn(char) -> bool, j: int)
    requires
        0 <= j <= s.len(),
        forall|k: int| 0 <= k < j ==> !p(#[trigger] s[k]),
        j == s.len() || p(s[j]),
    ensures
        first_where(s, p) == j,
    decreases j,
{
    if j > 0 {
        assert(!p(s[0]));
        assert forall|k: int| 0 <= k < j - 1 implies !p(#[trigger] s.drop_first()[k]) by {
            assert(s.drop_first()[k] == s[k + 1]);
        }
        if j < s.len() {
            assert(s.drop_first()[j - 1] == s[j]);
        }
        lemma_first_where_is(s.drop_first(), p, j - 1);
    }
}

/// Drop one trailing carriage return, if there is one.
pub open spec fn strip_cr(s: Seq<char>) -> Seq<char> {
    if s.len() > 0 && s.last() == '\r' {
        s.drop_last()
    } else {
        s
    }
}

/// The lines of `t`, as `str::lines` yields them: split after each `'\n'`,
/// with that `'\n'` and a `'\r'` just before it removed; a final line needs
/// no terminator, and a terminator at the very end starts no further line.
pub open spec fn lines(t: Seq<char>) -> Seq<Seq<char>>
    decreases t.len(),
{
    if t.len() == 0 {
        Seq::empty()
    } else {
        let j = first_where(t, char_pred('\n'));
        if j >= t.len() {
            seq![t]
        } else {
            proof {
                lemma_first_where_bounds(t, char_pred('\n'));
            }
            seq![strip_cr(t.subrange(0, j))] + lines(t.subrange(j + 1, t.len() as int))
        }
    }
}

/// The whitespace-separated words of `s`, as `str::split_whitespace` yields them.
pub open spec fn words(s: Seq<char>) -> Seq<Seq<char>>
    decreases s.len(),
{
    let a = first_where(s, non_ws_pred());
    if a >= s.len() {
        Seq::empty()
    } else {
        proof {
            lemma_first_where_bounds(s, non_ws_pred());
        }
        let rest = s.subrange(a, s.len() as int);
        let b = first_where(rest, ws_pred());
        proof {
            lemma_first_where_bounds(rest, ws_pred());
        }
        seq![rest.subrange(0, b)] + words(rest.subrange(b, rest.len() as int))
    }
}

/// The character for a decimal digit.
pub open spec fn digit_char(d: int) -> char {
    if d == 0 {
        '0'
    } else if d == 1 {
        '1'
    } else if d == 2 {
        '2'
    } else if d == 3 {
        '3'
    } else if d == 4 {
        '4'
    } else if d == 5 {
        '5'
    } else if d == 6 {
        '6'
    } else if d == 7 {
        '7'
    } else if d == 8 {
        '8'
    } else {
        '9'
    }
}

/// The decimal digits of `n`, most significant first, with no leading zeros.
pub open spec fn decimal(n: nat) -> Seq<char>
    decreases n,
{
    if n < 10 {
        seq![digit_char(n as int)]
    } else {
        decimal(n / 10).push(digit_char((n % 10) as int))
    }
}

/// A signed integer in decimal, with a leading `'-'` when negative.
pub open spec fn signed_decimal(v: int) -> Seq<char> {
    if v < 0 {
        seq!['-'] + decimal((-v) as nat)
    } else {
        decimal(v as nat)
    }
}

/// `char::is_whitespace`.
pub fn char_is_ws(c: char) -> (b: bool)
    ensures
        b == is_ws(c),
{
    let u = c as u32;
    (0x09 <= u && u <= 0x0D) || u == 0x20 || u == 0x85 || u == 0xA0 || u == 0x1680 || (0x2000
        <= u && u <= 0x200A) || u == 0x2028 || u == 0x2029 || u == 0x202F || u == 0x205F || u
        == 0x3000
}

/// The characters of `s`, in order.
pub fn chars_of(s: &str) -> (v: Vec<char>)
    ensures
        v@ == s@,
{
    broadcast use vstd::string::group_string_axioms;

    let mut v: Vec<char> = Vec::new();
    for c in it: s.chars()
        invariant
            v@ == it.seq().take(it.index() as int),
    {
        v.push(c);
    }
    assert(v@ =~= s@);
    v
}

/// Append the characters of `s` to `v`.
pub fn push_str(v: &mut Vec<char>, s: &str)
    ensures
        final(v)@ == old(v)@ + s@,
{
    let cs = chars_of(s);
    let mut i: usize = 0;
    while i < cs.len()
        invariant
            0 <= i <= cs@.len(),
            cs@ == s@,
            v@ == old(v)@ + cs@.subrange(0, i as int),
        decreases cs@.len() - i,
    {
        v.push(cs[i]);
        i = i + 1;
        assert(v@ =~= old(v)@ + cs@.subrange(0, i as int));
    }
    assert(cs@.subrange(0, cs@.len() as int) =~= cs@);
}

/// Append the characters `s[from..to]` to `v`.
pub fn push_range(v: &mut Vec<char>, s: &Vec<char>, from: usize, to: usize)
    requires
        from <= to <= s@.len(),
    ensures
        final(v)@ == old(v)@ + s@.subrange(from as int, to as int),
{
    let mut i: usize = from;
    while i < to
        invariant
            from <= i <= to,
            to <= s@.len(),
            v@ == old(v)@ + s@.subrange(from as int, i as int),
        decreases to - i,
    {
        v.push(s[i]);
        i = i + 1;
        assert(v@ =~= old(v)@ + s@.subrange(from as int, i as int));
    }
}

fn digit_of(d: u64) -> (c: char)
    requires
        d < 10,
    ensures
        c == digit_char(d as int),
{
    if d == 0 {
        '0'
    } else if d == 1 {
        '1'
    } else if d == 2 {
        '2'
    } else if d == 3 {
        '3'
    } else if d == 4 {
        '4'
    } else if d == 5 {
        '5'
    } else if d == 6 {
        '6'
    } else if d == 7 {
        '7'
    } else if d == 8 {
        '8'
    } else {
        '9'
    }
}

/// Append `n` in decimal to `v`.
pub fn push_decimal(v: &mut Vec<char>, n: u64)
    ensures
        final(v)@ == old(v)@ + decimal(n as nat),
    decreases n,
{
    if n < 10 {
        v.push(digit_of(n));
        assert(v@ =~= old(v)@ + decimal(n as nat));
    } else {
        push_decimal(v, n / 10);
        v.push(digit_of(n % 10));
        assert(v@ =~= old(v)@ + decimal(n as nat));
    }
}

/// Append `value` in decimal to `v`, with a leading `'-'` when negative.
pub fn push_signed_decimal(v: &mut Vec<char>, value: i64)
    ensures
        final(v)@ == old(v)@ + signed_decimal(value as int),
{
    if value < 0 {
        v.push('-');
        let magnitude: u64 = if value == i64::MIN {
            0x8000_0000_0000_0000
        } else {
            (-value) as u64
        };
        push_decimal(v, magnitude);
        assert(v@ =~= old(v)@ + signed_decimal(value as int));
    } else {
        push_decimal(v, value as u64);
    }
}


/// The index that `s[from..to]` holds its first `target` at, or `to` when it has none.
pub fn find_char(s: &Vec<char>, from: usize, to: usize, target: char) -> (i: usize)
    requires
        from <= to <= s@.len(),
    ensures
        from <= i <= to,
        i - from == first_where(s@.subrange(from as int, to as int), char_pred(target)),
{
    let mut i = from;
    while i < to && s[i] != target
        invariant
            from <= i <= to,
            to <= s@.len(),
            forall|k: int| from <= k < i ==> s@[k] != target,
        decreases to - i,
    {
        i = i + 1;
    }
    proof {
        let t = s@.subrange(from as int, to as int);
        assert forall|k: int| 0 <= k < i - from implies !char_pred(target)(#[trigger] t[k]) by {
            assert(t[k] == s@[from + k]);
        }
        lemma_first_where_is(t, char_pred(target), i - from);
    }
    i
}

/// The index of the first character of `s[from..to]` whose whitespace-ness
/// is `ws`, or `to` when there is none.
fn find_ws(s: &Vec<char>, from: usize, to: usize, ws: bool) -> (i: usize)
    requires
        from <= to <= s@.len(),
    ensures
        from <= i <= to,
        i - from == first_where(
            s@.subrange(from as int, to as int),
            if ws {
                ws_pred()
            } else {
                non_ws_pred()
            },
        ),
{
    let ghost p = if ws {
        ws_pred()
    } else {
        non_ws_pred()
    };
    let mut i = from;
    while i < to && char_is_ws(s[i]) != ws
        invariant
            from <= i <= to,
            to <= s@.len(),
            p == if ws {
                ws_pred()
            } else {
                non_ws_pred()
            },
            forall|k: int| from <= k < i ==> !p(#[trigger] s@[k]),
        decreases to - i,
    {
        i = i + 1;
    }
    proof {
        let t = s@.subrange(from as int, to as int);
        assert forall|k: int| 0 <= k < i - from implies !p(#[trigger] t[k]) by {
            assert(t[k] == s@[from + k]);
        }
        lemma_first_where_is(t, p, i - from);
    }
    i
}

/// The character ranges of the whitespace-separated words of `s[from..to]`, in order.
pub fn word_ranges(s: &Vec<char>, from: usize, to: usize) -> (r: Vec<(usize, usize)>)
    requires
        from <= to <= s@.len(),
    ensures
        r@.len() == words(s@.subrange(from as int, to as int)).len(),
        forall|k: int|
            0 <= k < r@.len() ==> from <= (#[trigger] r@[k]).0 <= r@[k].1 <= to && s@.subrange(
                r@[k].0 as int,
                r@[k].1 as int,
            ) == words(s@.subrange(from as int, to as int))[k],
{
    let ghost all = words(s@.subrange(from as int, to as int));
    let mut r: Vec<(usize, usize)> = Vec::new();
    let mut p = from;
    loop
        invariant
            from <= p <= to,
            to <= s@.len(),
            all == words(s@.subrange(from as int, to as int)),
            r@.len() + words(s@.subrange(p as int, to as int)).len() == all.len(),
            forall|k: int|
                0 <= k < r@.len() ==> from <= (#[trigger] r@[k]).0 <= r@[k].1 <= p && s@.subrange(
                    r@[k].0 as int,
                    r@[k].1 as int,
                ) == all[k],
            forall|k: int|
                0 <= k < words(s@.subrange(p as int, to as int)).len() ==> #[trigger] words(
                    s@.subrange(p as int, to as int),
                )[k] == all[r@.len() + k],
        ensures
            r@.len() == all.len(),
            forall|k: int|
                0 <= k < r@.len() ==> from <= (#[trigger] r@[k]).0 <= r@[k].1 <= to && s@.subrange(
                    r@[k].0 as int,
                    r@[k].1 as int,
                ) == all[k],
        decreases to - p,
    {
        let ghost rest = s@.subrange(p as int, to as int);
        let a = find_ws(s, p, to, false);
        if a == to {
            assert(words(rest) =~= Seq::<Seq<char>>::empty());
            break;
        }
        let b = find_ws(s, a, to, true);
        proof {
            lemma_first_where_bounds(rest, non_ws_pred());
            let tail = rest.subrange(a - p, rest.len() as int);
            assert(tail =~= s@.subrange(a as int, to as int));
            lemma_first_where_bounds(tail, ws_pred());
            assert(s@[a as int] == tail[0]);
            assert(b > a);
            assert(tail.subrange(0, b - a) =~= s@.subrange(a as int, b as int));
            assert(tail.subrange(b - a, tail.len() as int) =~= s@.subrange(b as int, to as int));
            assert(words(rest) == seq![s@.subrange(a as int, b as int)] + words(
                s@.subrange(b as int, to as int),
            ));
            assert(words(rest)[0] == s@.subrange(a as int, b as int));
            assert forall|k: int|
                0 <= k < words(s@.subrange(b as int, to as int)).len() implies #[trigger] words(
                s@.subrange(b as int, to as int),
            )[k] == all[r@.len() + 1 + k] by {
                assert(words(rest)[k + 1] == words(s@.subrange(b as int, to as int))[k]);
            }
        }
        r.push((a, b));
        p = b;
    }
    r
}


/// The length of `s` with its trailing whitespace removed.
pub open spec fn trim_end_len(s: Seq<char>) -> int
    decreases s.len(),
{
    if s.len() == 0 {
        0
    } else if !is_ws(s.last()) {
        s.len() as int
    } else {
        trim_end_len(s.drop_last())
    }
}

/// `s` without leading or trailing whitespace, as `str::trim` gives it.
pub open spec fn trimmed(s: Seq<char>) -> Seq<char> {
    let a = first_where(s, non_ws_pred());
    let b = trim_end_len(s);
    if a >= b {
        Seq::empty()
    } else {
        s.subrange(a, b)
    }
}

pub proof fn lemma_trim_end_len_bounds(s: Seq<char>)
    ensures
        0 <= trim_end_len(s) <= s.len(),
        trim_end_len(s) > 0 ==> !is_ws(s[trim_end_len(s) - 1]),
        forall|k: int| trim_end_len(s) <= k < s.len() ==> is_ws(#[trigger] s[k]),
    decreases s.len(),
{
    if s.len() > 0 && is_ws(s.last()) {
        lemma_trim_end_len_bounds(s.drop_last());
        assert forall|k: int| trim_end_len(s) <= k < s.len() implies is_ws(#[trigger] s[k]) by {
            if k < s.len() - 1 {
                assert(s[k] == s.drop_last()[k]);
            }
        }
    }
}

pub proof fn lemma_trim_end_len_is(s: Seq<char>, b: int)
    requires
        0 <= b <= s.len(),
        b > 0 ==> !is_ws(s[b - 1]),
        forall|k: int| b <= k < s.len() ==> is_ws(#[trigger] s[k]),
    ensures
        trim_end_len(s) == b,
    decreases s.len(),
{
    if s.len() > b {
        assert(is_ws(s[s.len() - 1]));
        assert forall|k: int| b <= k < s.len() - 1 implies is_ws(#[trigger] s.drop_last()[k]) by {
            assert(s.drop_last()[k] == s[k]);
        }
        if b > 0 {
            assert(s.drop_last()[b - 1] == s[b - 1]);
        }
        lemma_trim_end_len_is(s.drop_last(), b);
    }
}

/// The range of `s[from..to]` left after trimming whitespace from both ends.
pub fn trim_range(s: &Vec<char>, from: usize, to: usize) -> (r: (usize, usize))
    requires
        from <= to <= s@.len(),
    ensures
        from <= r.0 <= r.1 <= to,
        s@.subrange(r.0 as int, r.1 as int) == trimmed(s@.subrange(from as int, to as int)),
{
    let ghost t = s@.subrange(from as int, to as int);
    let a = find_ws(s, from, to, false);
    let mut b = to;
    while b > from && char_is_ws(s[b - 1])
        invariant
            from <= b <= to,
            to <= s@.len(),
            forall|k: int| b <= k < to ==> is_ws(#[trigger] s@[k]),
        decreases b - from,
    {
        b = b - 1;
    }
    proof {
        assert forall|k: int| b - from <= k < t.len() implies is_ws(#[trigger] t[k]) by {
            assert(t[k] == s@[from + k]);
        }
        if b > from {
            assert(t[b - from - 1] == s@[b - 1]);
        }
        lemma_trim_end_len_is(t, b - from);
        lemma_first_where_bounds(t, non_ws_pred());
    }
    if a >= b {
        assert(s@.subrange(b as int, b as int) =~= Seq::<char>::empty());
        (b, b)
    } else {
        assert(s@.subrange(a as int, b as int) =~= t.subrange(a - from, b - from));
        (a, b)
    }
}


/// Locate the first line of `t[pos..]`: it is `t[pos..end]`, and the lines
/// after it start at `next`.
pub fn next_line(t: &Vec<char>, pos: usize) -> (r: (usize, usize))
    requires
        pos < t@.len(),
    ensures
        pos <= r.0 <= r.1,
        pos < r.1 <= t@.len(),
        lines(t@.subrange(pos as int, t@.len() as int)) == seq![t@.subrange(pos as int, r.0 as int)]
            + lines(t@.subrange(r.1 as int, t@.len() as int)),
{
    let n = t.len();
    let ghost rest = t@.subrange(pos as int, n as int);
    let nl = find_char(t, pos, n, '\n');
    let end: usize = if nl < n && nl > pos && t[nl - 1] == '\r' {
        nl - 1
    } else {
        nl
    };
    let next: usize = if nl < n {
        nl + 1
    } else {
        n
    };
    let ghost line = t@.subrange(pos as int, end as int);
    proof {
        if nl < n {
            assert(rest.subrange(nl - pos + 1, rest.len() as int) =~= t@.subrange(
                next as int,
                n as int,
            ));
            let head = rest.subrange(0, nl - pos);
            assert(head =~= t@.subrange(pos as int, nl as int));
            if nl > pos && t@[nl - 1] == '\r' {
                assert(head.drop_last() =~= line);
            } else {
                assert(head =~= line);
            }
            assert(lines(rest) == seq![line] + lines(t@.subrange(next as int, n as int)));
        } else {
            assert(line =~= rest);
            assert(t@.subrange(next as int, n as int) =~= Seq::<char>::empty());
            assert(lines(rest) == seq![line]);
            assert(seq![line] + lines(t@.subrange(next as int, n as int)) =~= seq![line]);
        }
    }
    (end, next)
}

/// Build a `String` from characters through `FromIterator<char>`, which
/// yields exactly those characters in order.
#[verifier::external_body]
pub(crate) fn string_from_chars(chars: &[char]) -> (s: String)
    ensures
        s@ == chars@,
{
    chars.iter().collect()
}

} // verus!
