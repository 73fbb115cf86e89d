//! The script vocabulary, the syntax check, and the warning that flags
//! names a script uses but never declares; also what the script editor
//! shows beside a script (status line, line-number gutter, picker filter).
//!
//! Scripts are dynamically typed, so a misspelled variable is only an error
//! when the script runs: it silently does nothing, thirty times a second.
//! The script language's parser gives the names a script reads or writes
//! and the names it declares with `let`; this module decides which of the
//! used names to report.
use crate::text::{chars_of, decimal, push_decimal, push_range, push_str, string_from_chars, trim_range, trimmed};
use rhai::{ASTNode, Engine, Expr, Stmt};
use vstd::multiset::Multiset;
use vstd::prelude::*;

verus! {

/// A problem found in a script's source, shaped for the editor to display:
/// a message plus the 1-based line and column, where known.
#[derive(Clone, Debug)]
pub struct ScriptError {
    pub line: Option<usize>,
    pub column: Option<usize>,
    pub message: String,
}

/// A variable a script reads or writes, and where.
#[derive(Clone, Debug)]
pub struct VariableUse {
    pub name: String,
    pub line: Option<usize>,
    pub column: Option<usize>,
}

/// Every name a script may use without declaring it: the read-only context
/// (`t`, `hit`), the structured values, and the original flat spellings.
pub open spec fn api_vars() -> Seq<Seq<char>> {
    seq![
        "t"@,
        "hit"@,
        "pos"@,
        "vel"@,
        "scale"@,
        "color"@,
        "px"@,
        "py"@,
        "pz"@,
        "dx"@,
        "dy"@,
        "dz"@,
        "sx"@,
        "sy"@,
        "sz"@,
        "cr"@,
        "cg"@,
        "cb"@,
    ]
}

/// Whether `name` is part of the script vocabulary.
pub fn is_api_var(name: &String) -> (b: bool)
    ensures
        b == api_vars().contains(name@),
{
    let vocabulary: [&str; 18] = [
        "t",
        "hit",
        "pos",
        "vel",
        "scale",
        "color",
        "px",
        "py",
        "pz",
        "dx",
        "dy",
        "dz",
        "sx",
        "sy",
        "sz",
        "cr",
        "cg",
        "cb",
    ];
    assert(vocabulary@.map_values(|s: &str| s@) =~= api_vars());
    let mut i: usize = 0;
    while i < 18
        invariant
            0 <= i <= 18,
            vocabulary@.map_values(|s: &str| s@) == api_vars(),
            forall|k: int| 0 <= k < i ==> api_vars()[k] != name@,
        decreases 18 - i,
    {
        let word: String = vocabulary[i].to_owned();
        assert(word@ == api_vars()[i as int]);
        if word == *name {
            return true;
        }
        i = i + 1;
    }
    false
}

/// The message reported for an undeclared name.
pub open spec fn unknown_variable_message(name: Seq<char>) -> Seq<char> {
    "unknown variable '"@ + name + "' — not part of the script API"@
}

/// The text of each name.
pub open spec fn name_views(names: Seq<String>) -> Seq<Seq<char>> {
    names.map_values(|d: String| d@)
}

/// A variable use as the checks see it: name, line and column.
pub type UseView = (Seq<char>, Option<usize>, Option<usize>);

/// The view of a use.
pub open spec fn use_view(u: VariableUse) -> UseView {
    (u.name@, u.line, u.column)
}

/// Whether the use at position `k` of `used` is reported: its name is not
/// in the vocabulary, not declared, and not used earlier (each unknown name
/// is reported once, at its first use).
pub open spec fn reported(used: Seq<UseView>, declared: Seq<Seq<char>>, k: int) -> bool {
    let name = used[k].0;
    &&& !api_vars().contains(name)
    &&& !declared.contains(name)
    &&& forall|j: int| 0 <= j < k ==> used[j].0 != name
}

/// The warnings for the first `n` uses, in order of use.
pub open spec fn warnings_for(used: Seq<UseView>, declared: Seq<Seq<char>>, n: int) -> Seq<
    (Seq<char>, Option<usize>, Option<usize>),
>
    decreases n,
{
    if n <= 0 {
        Seq::empty()
    } else {
        let prev = warnings_for(used, declared, n - 1);
        if reported(used, declared, n - 1) {
            let u = used[n - 1];
            prev.push((unknown_variable_message(u.0), u.1, u.2))
        } else {
            prev
        }
    }
}

/// The view of a reported problem: message, line and column.
pub open spec fn error_view(e: ScriptError) -> (Seq<char>, Option<usize>, Option<usize>) {
    (e.message@, e.line, e.column)
}

fn contains_name(names: &Vec<String>, name: &String) -> (b: bool)
    ensures
        b == name_views(names@).contains(name@),
{
    let mut i: usize = 0;
    while i < names.len()
        invariant
            0 <= i <= names@.len(),
            forall|k: int| 0 <= k < i ==> names@[k]@ != name@,
        decreases names@.len() - i,
    {
        if names[i] == *name {
            assert(name_views(names@)[i as int] == name@);
            return true;
        }
        i = i + 1;
    }
    proof {
        if name_views(names@).contains(name@) {
            let k = choose|k: int|
                0 <= k < names@.len() && #[trigger] name_views(names@)[k] == name@;
            assert(names@[k]@ == name@);
        }
    }
    false
}

fn used_before(used: &Vec<VariableUse>, k: usize) -> (b: bool)
    requires
        k < used@.len(),
    ensures
        b == exists|j: int| 0 <= j < k && used@[j].name@ == used@[k as int].name@,
{
    let mut j: usize = 0;
    while j < k
        invariant
            0 <= j <= k,
            k < used@.len(),
            forall|l: int| 0 <= l < j ==> used@[l].name@ != used@[k as int].name@,
        decreases k - j,
    {
        if used[j].name == used[k].name {
            return true;
        }
        j = j + 1;
    }
    false
}

/// Report every name a script uses that is neither part of the script
/// vocabulary nor declared in the script, once per name, at its first use,
/// in order of use.
pub fn unknown_variables(declared: &Vec<String>, used: &Vec<VariableUse>) -> (out: Vec<ScriptError>)
    ensures
        out@.map_values(|e: ScriptError| error_view(e)) == warnings_for(
            used@.map_values(|u: VariableUse| use_view(u)),
            name_views(declared@),
            used@.len() as int,
        ),
{
    let mut out: Vec<ScriptError> = Vec::new();
    let mut k: usize = 0;
    while k < used.len()
        invariant
            0 <= k <= used@.len(),
            out@.map_values(|e: ScriptError| error_view(e)) == warnings_for(
                used@.map_values(|u: VariableUse| use_view(u)),
                name_views(declared@),
                k as int,
            ),
        decreases used@.len() - k,
    {
        let u = &used[k];
        let report = !is_api_var(&u.name) && !contains_name(declared, &u.name) && !used_before(
            used,
            k,
        );
        let ghost before = out@;
        proof {
            let uv = used@.map_values(|u: VariableUse| use_view(u));
            assert(uv[k as int] == use_view(used@[k as int]));
            if exists|j: int| 0 <= j < k && used@[j].name@ == used@[k as int].name@ {
                let j = choose|j: int| 0 <= j < k && used@[j].name@ == used@[k as int].name@;
                assert(uv[j] == use_view(used@[j]));
            } else {
                assert forall|j: int| 0 <= j < k implies uv[j].0 != uv[k as int].0 by {
                    assert(uv[j] == use_view(used@[j]));
                }
            }
            assert(report == reported(uv, name_views(declared@), k as int));
        }
        if report {
            let mut v: Vec<char> = Vec::new();
            push_str(&mut v, "unknown variable '");
            let name_chars = chars_of(u.name.as_str());
            let mut i: usize = 0;
            while i < name_chars.len()
                invariant
                    0 <= i <= name_chars@.len(),
                    v@ == "unknown variable '"@ + name_chars@.subrange(0, i as int),
                decreases name_chars@.len() - i,
            {
                v.push(name_chars[i]);
                i = i + 1;
                assert(v@ =~= "unknown variable '"@ + name_chars@.subrange(0, i as int));
            }
            assert(name_chars@.subrange(0, name_chars@.len() as int) =~= u.name@);
            push_str(&mut v, "' — not part of the script API");
            out.push(
                ScriptError { line: u.line, column: u.column, message: string_from_chars(v.as_slice()) },
            );
            assert(out@.map_values(|e: ScriptError| error_view(e)) =~= before.map_values(
                |e: ScriptError| error_view(e),
            ).push((unknown_variable_message(u.name@), u.line, u.column)));
        }
        k = k + 1;
    }
    out
}

/// The name a script gets from what was typed in the new-script box: the
/// text trimmed of surrounding whitespace, or none when nothing is left.
pub fn new_script_key(typed: &str) -> (key: Option<String>)
    ensures
        key.is_some() == (trimmed(typed@).len() > 0),
        key.is_some() ==> key.unwrap()@ == trimmed(typed@),
{
    let t = chars_of(typed);
    let (a, b) = trim_range(&t, 0, t.len());
    assert(t@.subrange(0, t@.len() as int) =~= t@);
    if a < b {
        let mut v: Vec<char> = Vec::new();
        push_range(&mut v, &t, a, b);
        Some(string_from_chars(v.as_slice()))
    } else {
        None
    }
}

/// Where a problem is, as the editor's status line leads with it:
/// `line L, col C: `, `line L: ` without a column, and nothing without a line.
pub open spec fn location_prefix(line: Option<usize>, column: Option<usize>) -> Seq<char> {
    match (line, column) {
        (Some(l), Some(c)) => "line "@ + decimal(l as nat) + ", col "@ + decimal(c as nat) + ": "@,
        (Some(l), None) => "line "@ + decimal(l as nat) + ": "@,
        _ => Seq::empty(),
    }
}

/// The status line shown for a problem: its location, then its message.
pub fn status_line(e: &ScriptError) -> (text: String)
    ensures
        text@ == location_prefix(e.line, e.column) + e.message@,
{
    let mut v: Vec<char> = Vec::new();
    match (e.line, e.column) {
        (Some(l), Some(c)) => {
            push_str(&mut v, "line ");
            push_decimal(&mut v, l as u64);
            push_str(&mut v, ", col ");
            push_decimal(&mut v, c as u64);
            push_str(&mut v, ": ");
        },
        (Some(l), None) => {
            push_str(&mut v, "line ");
            push_decimal(&mut v, l as u64);
            push_str(&mut v, ": ");
        },
        _ => {},
    }
    assert(v@ =~= location_prefix(e.line, e.column));
    let m = chars_of(e.message.as_str());
    push_range(&mut v, &m, 0, m.len());
    assert(m@.subrange(0, m@.len() as int) =~= e.message@);
    string_from_chars(v.as_slice())
}

/// How many line breaks `s` holds.
pub open spec fn line_breaks(s: Seq<char>) -> nat {
    s.filter(|c: char| c == '\n').len()
}

/// `n` in decimal, right-aligned with spaces to at least `width` characters.
pub open spec fn right_aligned(n: nat, width: nat) -> Seq<char> {
    let d = decimal(n);
    let pad: nat = if width > d.len() {
        (width - d.len()) as nat
    } else {
        0
    };
    Seq::new(pad, |i: int| ' ') + d
}

/// The numbers 1 to `count`, each right-aligned to `width`, one per line.
pub open spec fn numbered_lines(count: nat, width: nat) -> Seq<char>
    decreases count,
{
    if count == 0 {
        Seq::empty()
    } else if count == 1 {
        right_aligned(1, width)
    } else {
        numbered_lines((count - 1) as nat, width) + seq!['\n'] + right_aligned(count, width)
    }
}

/// The line-number gutter beside a script's source: one number per line of
/// the source, right-aligned to the width of the largest.
pub open spec fn gutter(source: Seq<char>) -> Seq<char> {
    let count = line_breaks(source) + 1;
    numbered_lines(count, decimal(count).len())
}

#[verifier::spinoff_prover]
fn push_right_aligned(v: &mut Vec<char>, n: u64, width: usize)
    ensures
        final(v)@ == old(v)@ + right_aligned(n as nat, width as nat),
{
    let mut digits: Vec<char> = Vec::new();
    push_decimal(&mut digits, n);
    assert(digits@ =~= decimal(n as nat));
    let ghost start = v@;
    if width > digits.len() {
        let pad = width - digits.len();
        let mut i: usize = 0;
        while i < pad
            invariant
                0 <= i <= pad,
                v@ == start + Seq::new(i as nat, |k: int| ' '),
            decreases pad - i,
        {
            v.push(' ');
            i = i + 1;
            assert(v@ =~= start + Seq::new(i as nat, |k: int| ' '));
        }
    } else {
        assert(v@ =~= start + Seq::new(0nat, |k: int| ' '));
    }
    push_range(v, &digits, 0, digits.len());
    assert(digits@.subrange(0, digits@.len() as int) =~= digits@);
    assert(v@ =~= start + right_aligned(n as nat, width as nat));
}

/// The line-number gutter for a script's source, as the script editor
/// shows it to the left of the text.
pub fn line_gutter(source: &str) -> (text: String)
    requires
        source@.len() < u64::MAX,
    ensures
        text@ == gutter(source@),
{
    let t = chars_of(source);
    let mut breaks: u64 = 0;
    let mut i: usize = 0;
    while i < t.len()
        invariant
            0 <= i <= t@.len(),
            t@ == source@,
            t@.len() < u64::MAX,
            breaks == t@.subrange(0, i as int).filter(|c: char| c == '\n').len(),
            breaks <= i,
        decreases t@.len() - i,
    {
        proof {
            let sub = t@.subrange(0, i as int);
            assert(t@.subrange(0, i + 1) =~= sub.push(t@[i as int]));
            sub.lemma_filter_push(t@[i as int], |c: char| c == '\n');
        }
        if t[i] == '\n' {
            breaks = breaks + 1;
        }
        i = i + 1;
    }
    assert(t@.subrange(0, t@.len() as int) =~= source@);
    let count: u64 = breaks + 1;
    let mut digits: Vec<char> = Vec::new();
    push_decimal(&mut digits, count);
    assert(digits@ =~= decimal(count as nat));
    let width = digits.len();
    let mut v: Vec<char> = Vec::new();
    let mut n: u64 = 1;
    push_right_aligned(&mut v, 1, width);
    assert(v@ =~= numbered_lines(1, width as nat));
    while n < count
        invariant
            1 <= n <= count,
            v@ == numbered_lines(n as nat, width as nat),
        decreases count - n,
    {
        n = n + 1;
        v.push('\n');
        push_right_aligned(&mut v, n, width);
    }
    string_from_chars(v.as_slice())
}

/// The text as `str::to_lowercase` gives it: every character replaced by
/// its Unicode lower-case mapping.
pub uninterp spec fn lowercase(s: Seq<char>) -> Seq<char>;

/// `str::to_lowercase`. Claimed: the result is `lowercase` of the text,
/// and so depends on the text alone; what the mapping does to each
/// character is left to the standard library's Unicode tables.
#[verifier::external_body]
fn to_lowercase(s: &str) -> (r: String)
    ensures
        r@ == lowercase(s@),
{
    s.to_lowercase()
}

/// Whether `needle` occurs in `hay` as a run of consecutive characters.
pub open spec fn has_substring(hay: Seq<char>, needle: Seq<char>) -> bool {
    exists|i: int| 0 <= i <= hay.len() - needle.len() && #[trigger] hay.subrange(i, i + needle.len()) == needle
}

fn occurs_at(hay: &Vec<char>, needle: &Vec<char>, i: usize) -> (b: bool)
    requires
        i + needle@.len() <= hay@.len(),
        hay@.len() <= usize::MAX,
    ensures
        b == (hay@.subrange(i as int, i + needle@.len()) == needle@),
{
    let mut k: usize = 0;
    while k < needle.len()
        invariant
            0 <= k <= needle@.len(),
            i + needle@.len() <= hay@.len(),
            hay@.len() <= usize::MAX,
            forall|j: int| 0 <= j < k ==> hay@[i + j] == needle@[j],
        decreases needle@.len() - k,
    {
        if hay[i + k] != needle[k] {
            assert(hay@.subrange(i as int, i + needle@.len())[k as int] != needle@[k as int]);
            return false;
        }
        k = k + 1;
    }
    assert(hay@.subrange(i as int, i + needle@.len()) =~= needle@);
    true
}

/// Whether `needle` occurs in `hay`, as `str::contains` answers it.
pub fn contains_text(hay: &str, needle: &str) -> (b: bool)
    ensures
        b == has_substring(hay@, needle@),
{
    let h = chars_of(hay);
    let n = chars_of(needle);
    if n.len() > h.len() {
        return false;
    }
    let last = h.len() - n.len();
    let mut i: usize = 0;
    loop
        invariant
            0 <= i <= last,
            last + n@.len() == h@.len(),
            h@.len() <= usize::MAX,
            h@ == hay@,
            n@ == needle@,
            forall|j: int| 0 <= j < i ==> #[trigger] h@.subrange(j, j + n@.len()) != n@,
        decreases last - i,
    {
        if occurs_at(&h, &n, i) {
            return true;
        }
        if i == last {
            return false;
        }
        i = i + 1;
    }
}

/// Whether the script picker lists a script under `filter`: an empty filter
/// lists every script, otherwise the lower-cased name must contain the
/// lower-cased filter.
pub fn script_matches(name: &str, filter: &str) -> (b: bool)
    ensures
        b == (lowercase(filter@).len() == 0 || has_substring(lowercase(name@), lowercase(filter@))),
{
    let needle = to_lowercase(filter);
    let hay = to_lowercase(name);
    proof {
        if needle@.len() == 0 {
            assert(has_substring(hay@, needle@)) by {
                assert(hay@.subrange(0, 0int + needle@.len()) =~= needle@);
            }
        }
    }
    contains_text(hay.as_str(), needle.as_str())
}

/// A variable use as the script parser reports it: its name, line and
/// column, and whether it is qualified by a module path (`a::b`).
pub type ParsedUse = (String, Option<usize>, Option<usize>, bool);

/// A parsed use as plain values.
pub type ParsedUseView = (Seq<char>, Option<usize>, Option<usize>, bool);

/// A parse error as plain values: message, line, column.
pub type ParseErrorView = (Seq<char>, Option<usize>, Option<usize>);

/// What the script language's parser makes of a source text: the names
/// the script declares with `let` and the variables it uses, or the first
/// parse error. The walk over a parsed script visits the bodies of its
/// functions in an order that changes from one process to the next, so
/// only which names and uses occur, and how often, is a function of the
/// text: they are given as multisets.
pub uninterp spec fn rhai_parse(source: Seq<char>) -> Result<
    (Multiset<Seq<char>>, Multiset<ParsedUseView>),
    ParseErrorView,
>;

/// The uses a parse returned, as plain values, in the order returned.
pub open spec fn parsed_uses(used: Seq<ParsedUse>) -> Seq<ParsedUseView> {
    used.map_values(|p: ParsedUse| (p.0@, p.1, p.2, p.3))
}

/// Whether a parse result agrees with `rhai_parse`: the same error, or the
/// same declared names and uses in some order.
pub open spec fn parse_agrees(
    r: Result<(Vec<String>, Vec<ParsedUse>), (String, Option<usize>, Option<usize>)>,
    expected: Result<(Multiset<Seq<char>>, Multiset<ParsedUseView>), ParseErrorView>,
) -> bool {
    match (r, expected) {
        (Ok((declared, used)), Ok((names, uses))) => name_views(declared@).to_multiset() == names
            && parsed_uses(used@).to_multiset() == uses,
        (Err(e), Err(err)) => (e.0@, e.1, e.2) == err,
        _ => false,
    }
}

/// `rhai::Engine::compile` on a fresh engine, then `rhai::AST::walk` over the
/// tree. Claimed: whether it fails, and with which error, is `rhai_parse`
/// of the source; on success, the names and uses returned are those of
/// `rhai_parse`, in some order (the walk's order over function bodies is
/// not stated). Each `let` statement gives its name; each variable
/// expression gives its name, position and whether its namespace is
/// non-empty; a compile error gives its bare message and position.
#[verifier::external_body]
fn parse_script(source: &str) -> (r: Result<
    (Vec<String>, Vec<ParsedUse>),
    (String, Option<usize>, Option<usize>),
>)
    ensures
        parse_agrees(r, rhai_parse(source@)),
{
    let ast = Engine::new().compile(source).map_err(|e| (e.err_type().to_string(), e.position().line(), e.position().position()))?;
    let (mut declared, mut used) = (vec![], vec![]);
    ast.walk(&mut |path| {
        match path.last() {
            Some(ASTNode::Stmt(Stmt::Var(d, ..))) => declared.push(d.0.name.to_string()),
            Some(ASTNode::Expr(Expr::Variable(v, _, p))) => used.push((v.1.to_string(), p.line(), p.position(), !v.2.is_empty())),
            _ => {}
        }
        true
    });
    Ok((declared, used))
}

/// Syntax-check a script's source: `Ok` when it parses, otherwise the first
/// parse error with its position.
pub fn script_check(source: &str) -> (r: Result<(), ScriptError>)
    ensures
        match rhai_parse(source@) {
            Ok(_) => r is Ok,
            Err(e) => r matches Err(err) && error_view(err) == e,
        },
{
    match parse_script(source) {
        Ok(_) => Ok(()),
        Err((message, line, column)) => Err(ScriptError { line, column, message }),
    }
}

/// The uses the warnings judge: the unqualified ones, in order. A name
/// qualified by a module path is not the script's own to declare.
pub open spec fn unqualified(uses: Seq<ParsedUseView>) -> Seq<UseView> {
    uses.filter(|u: ParsedUseView| !u.3).map_values(|u: ParsedUseView| (u.0, u.1, u.2))
}

/// The unknown-variable warnings for a parse's declared names and uses,
/// in the order the parse returned them: every unqualified name used that
/// is neither part of the script vocabulary nor declared, once per name,
/// at its first use.
pub fn parsed_warnings(declared: &Vec<String>, parsed: &Vec<ParsedUse>) -> (ws: Vec<ScriptError>)
    ensures
        ws@.map_values(|w: ScriptError| error_view(w)) == warnings_for(
            unqualified(parsed_uses(parsed@)),
            name_views(declared@),
            unqualified(parsed_uses(parsed@)).len() as int,
        ),
{
    let ghost pv = parsed_uses(parsed@);
    let mut used: Vec<VariableUse> = Vec::new();
    let mut i: usize = 0;
    while i < parsed.len()
        invariant
            0 <= i <= parsed@.len(),
            pv == parsed_uses(parsed@),
            used@.map_values(|u: VariableUse| use_view(u)) == unqualified(pv.subrange(0, i as int)),
        decreases parsed@.len() - i,
    {
        let p = &parsed[i];
        let ghost before = used@;
        proof {
            assert(pv.subrange(0, i + 1) =~= pv.subrange(0, i as int).push(pv[i as int]));
            pv.subrange(0, i as int).lemma_filter_push(pv[i as int], |u: ParsedUseView| !u.3);
            assert(pv[i as int] == (p.0@, p.1, p.2, p.3));
        }
        if !p.3 {
            used.push(VariableUse { name: p.0.clone(), line: p.1, column: p.2 });
            assert(used@.map_values(|u: VariableUse| use_view(u)) =~= before.map_values(
                |u: VariableUse| use_view(u),
            ).push((p.0@, p.1, p.2)));
        }
        i = i + 1;
    }
    assert(pv.subrange(0, parsed@.len() as int) =~= pv);
    unknown_variables(declared, &used)
}

/// The unknown-variable warnings for a script's source: every unqualified
/// name it uses that is neither part of the script vocabulary nor declared
/// with `let` anywhere in it, once per name, at its first use in the order
/// the parser walked the script. A source that does not parse gets none;
/// its syntax error is the real problem.
pub fn script_warnings(source: &str) -> (ws: Vec<ScriptError>)
    ensures
        match rhai_parse(source@) {
            Err(_) => ws@.len() == 0,
            Ok((names, uses)) => exists|declared: Seq<Seq<char>>, used: Seq<ParsedUseView>|
                declared.to_multiset() == names && used.to_multiset() == uses
                    && ws@.map_values(|w: ScriptError| error_view(w)) == #[trigger] warnings_for(
                    unqualified(used),
                    declared,
                    unqualified(used).len() as int,
                ),
        },
{
    match parse_script(source) {
        Err(_) => Vec::new(),
        Ok((declared, parsed)) => {
            let ws = parsed_warnings(&declared, &parsed);
            assert(ws@.map_values(|w: ScriptError| error_view(w)) == warnings_for(
                unqualified(parsed_uses(parsed@)),
                name_views(declared@),
                unqualified(parsed_uses(parsed@)).len() as int,
            ));
            ws
        },
    }
}

/// The script vocabulary is exactly the documented names: the read-only
/// context `t` and `hit`, the structured `pos`, `vel`, `scale`, `color`, and
/// the flat `px` `py` `pz`, `dx` `dy` `dz`, `sx` `sy` `sz`, `cr` `cg` `cb`;
/// all eighteen are there, and nothing else is.
pub proof fn law_vocabulary(name: Seq<char>)
    ensures
        api_vars().contains("t"@),
        api_vars().contains("hit"@),
        api_vars().contains("pos"@),
        api_vars().contains("vel"@),
        api_vars().contains("scale"@),
        api_vars().contains("color"@),
        api_vars().contains("px"@),
        api_vars().contains("py"@),
        api_vars().contains("pz"@),
        api_vars().contains("dx"@),
        api_vars().contains("dy"@),
        api_vars().contains("dz"@),
        api_vars().contains("sx"@),
        api_vars().contains("sy"@),
        api_vars().contains("sz"@),
        api_vars().contains("cr"@),
        api_vars().contains("cg"@),
        api_vars().contains("cb"@),
        api_vars().len() == 18,
        api_vars().contains(name) ==> (name == "t"@ || name == "hit"@ || name == "pos"@ || name == "vel"@ || name == "scale"@ || name == "color"@ || name == "px"@ || name == "py"@ || name == "pz"@ || name == "dx"@ || name == "dy"@ || name == "dz"@ || name == "sx"@ || name == "sy"@ || name == "sz"@ || name == "cr"@ || name == "cg"@ || name == "cb"@),
{
    reveal_strlit("t");
    reveal_strlit("hit");
    reveal_strlit("pos");
    reveal_strlit("vel");
    reveal_strlit("scale");
    reveal_strlit("color");
    reveal_strlit("px");
    reveal_strlit("py");
    reveal_strlit("pz");
    reveal_strlit("dx");
    reveal_strlit("dy");
    reveal_strlit("dz");
    reveal_strlit("sx");
    reveal_strlit("sy");
    reveal_strlit("sz");
    reveal_strlit("cr");
    reveal_strlit("cg");
    reveal_strlit("cb");
    assert(api_vars()[0] == "t"@);
    assert(api_vars()[1] == "hit"@);
    assert(api_vars()[2] == "pos"@);
    assert(api_vars()[3] == "vel"@);
    assert(api_vars()[4] == "scale"@);
    assert(api_vars()[5] == "color"@);
    assert(api_vars()[6] == "px"@);
    assert(api_vars()[7] == "py"@);
    assert(api_vars()[8] == "pz"@);
    assert(api_vars()[9] == "dx"@);
    assert(api_vars()[10] == "dy"@);
    assert(api_vars()[11] == "dz"@);
    assert(api_vars()[12] == "sx"@);
    assert(api_vars()[13] == "sy"@);
    assert(api_vars()[14] == "sz"@);
    assert(api_vars()[15] == "cr"@);
    assert(api_vars()[16] == "cg"@);
    assert(api_vars()[17] == "cb"@);
}

/// A script whose every use names a vocabulary word or one of its own
/// declarations gets no warning.
pub proof fn law_known_names_never_warned(used: Seq<UseView>, declared: Seq<Seq<char>>, n: int)
    requires
        n <= used.len(),
        forall|k: int|
            0 <= k < n ==> api_vars().contains(#[trigger] used[k].0) || declared.contains(used[k].0),
    ensures
        warnings_for(used, declared, n).len() == 0,
    decreases n,
{
    if n > 0 {
        law_known_names_never_warned(used, declared, n - 1);
    }
}

} // verus!
