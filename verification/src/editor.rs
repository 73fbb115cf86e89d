//! Bookkeeping the editor keeps between frames: the list of recently opened
//! projects, the capped output log, and the checks on a new project's name.
use crate::text::{
    char_pred, chars_of, first_where, lemma_first_where_bounds, lemma_first_where_is,
    lemma_trim_end_len_bounds, lines, next_line, non_ws_pred, push_range, push_str, string_from_chars,
    trim_end_len, trim_range, trimmed,
};
use vstd::prelude::*;

verus! {

/// How many recently opened projects the launcher remembers.
pub const MAX_RECENT_PROJECTS: usize = 20;

/// How many lines the output log keeps; older lines are dropped first.
pub const MAX_LOG_LINES: usize = 500;

/// The text of each entry.
pub open spec fn texts(v: Seq<String>) -> Seq<Seq<char>> {
    v.map_values(|s: String| s@)
}

/// Whether two folder paths name the same folder as `std::path::Path`
/// compares them: component by component, so `/p/` and `/p`, or `a//b` and
/// `a/b`, are the same path.
pub uninterp spec fn same_path(a: Seq<char>, b: Seq<char>) -> bool;

/// `==` on `std::path::Path`. Claimed: the answer is `same_path` of the two
/// texts, and so depends on them alone. How a text splits into components
/// is left to the standard library.
#[verifier::external_body]
fn paths_equal(a: &str, b: &str) -> (r: bool)
    ensures
        r == same_path(a@, b@),
{
    std::path::Path::new(a) == std::path::Path::new(b)
}

/// Keeps every folder that is not the path `root`.
pub open spec fn other_than(root: Seq<char>) -> spec_fn(Seq<char>) -> bool {
    |r: Seq<char>| !same_path(r, root)
}

/// No folder in the list is the same path as an earlier one.
pub open spec fn distinct_folders(v: Seq<Seq<char>>) -> bool {
    forall|i: int, j: int| 0 <= i < j < v.len() ==> !same_path(#[trigger] v[j], #[trigger] v[i])
}

/// The recent-projects list after opening `root`: `root` first, then the
/// remembered folders that are other paths, in their previous order, keeping at most
/// `MAX_RECENT_PROJECTS` entries.
pub open spec fn after_opening(roots: Seq<Seq<char>>, root: Seq<char>) -> Seq<Seq<char>> {
    let kept = seq![root] + roots.filter(other_than(root));
    if kept.len() > MAX_RECENT_PROJECTS {
        kept.take(MAX_RECENT_PROJECTS as int)
    } else {
        kept
    }
}

/// Record that the project folder `root` was just opened.
pub fn remember_project(roots: &mut Vec<String>, root: String)
    ensures
        texts(final(roots)@) == after_opening(texts(old(roots)@), root@),
{
    let ghost old_texts = texts(roots@);
    let ghost keep = other_than(root@);
    let mut kept: Vec<String> = Vec::new();
    kept.push(root.clone());
    let mut i: usize = 0;
    while i < roots.len()
        invariant
            0 <= i <= roots@.len(),
            old_texts == texts(roots@),
            keep == other_than(root@),
            texts(kept@) == seq![root@] + old_texts.take(i as int).filter(keep),
        decreases roots@.len() - i,
    {
        reveal_with_fuel(Seq::<_>::filter, 1);
        assert(old_texts.take(i + 1).drop_last() =~= old_texts.take(i as int));
        let ghost before = texts(kept@);
        if !paths_equal(roots[i].as_str(), root.as_str()) {
            kept.push(roots[i].clone());
            assert(texts(kept@) =~= before.push(roots@[i as int]@));
        }
        i = i + 1;
    }
    assert(old_texts.take(roots@.len() as int) =~= old_texts);
    if kept.len() > MAX_RECENT_PROJECTS {
        kept.truncate(MAX_RECENT_PROJECTS);
        assert(texts(kept@) =~= after_opening(old_texts, root@));
    }
    *roots = kept;
}

/// Append a line to the output log, dropping the oldest line once the log
/// holds more than `MAX_LOG_LINES` lines.
pub fn push_log_line(lines: &mut Vec<String>, line: String)
    ensures
        final(lines)@ == if old(lines)@.len() + 1 > MAX_LOG_LINES {
            old(lines)@.push(line).drop_first()
        } else {
            old(lines)@.push(line)
        },
{
    lines.push(line);
    if lines.len() > MAX_LOG_LINES {
        lines.remove(0);
        assert(lines@ =~= old(lines)@.push(line).drop_first());
    }
}


proof fn lemma_filter_keeps_distinct(s: Seq<Seq<char>>, p: spec_fn(Seq<char>) -> bool)
    requires
        distinct_folders(s),
    ensures
        distinct_folders(s.filter(p)),
    decreases s.len(),
{
    if s.len() > 0 {
        let init = s.drop_last();
        let x = s.last();
        assert(s =~= init.push(x));
        assert(distinct_folders(init)) by {
            assert forall|i: int, j: int| 0 <= i < j < init.len() implies !same_path(
                #[trigger] init[j],
                #[trigger] init[i],
            ) by {
                assert(init[i] == s[i] && init[j] == s[j]);
            }
        }
        lemma_filter_keeps_distinct(init, p);
        init.lemma_filter_push(x, p);
        if p(x) {
            let f = init.filter(p).push(x);
            assert forall|i: int, j: int| 0 <= i < j < f.len() implies !same_path(
                #[trigger] f[j],
                #[trigger] f[i],
            ) by {
                if j == f.len() - 1 {
                    assert(init.filter(p).contains(f[i]));
                    init.lemma_filter_contains_rev(p, f[i]);
                    let k = choose|k: int| 0 <= k < init.len() && init[k] == f[i];
                    assert(s[k] == f[i] && s[s.len() - 1] == x);
                } else {
                    assert(f[i] == init.filter(p)[i] && f[j] == init.filter(p)[j]);
                }
            }
        }
    }
}

/// After opening a project, it heads the recent list, no later entry is
/// the same path as it, and the list holds at most `MAX_RECENT_PROJECTS`
/// entries; a list in which no folder repeats an earlier one as a path
/// stays so.
pub proof fn law_recent_projects(roots: Seq<Seq<char>>, root: Seq<char>)
    ensures
        after_opening(roots, root).len() <= MAX_RECENT_PROJECTS,
        after_opening(roots, root)[0] == root,
        forall|i: int|
            0 < i < after_opening(roots, root).len() ==> !same_path(
                #[trigger] after_opening(roots, root)[i],
                root,
            ),
        distinct_folders(roots) ==> distinct_folders(after_opening(roots, root)),
{
    broadcast use vstd::seq_lib::group_filter_ensures;

    let keep = other_than(root);
    let rest = roots.filter(keep);
    let kept = seq![root] + rest;
    assert forall|i: int| 0 < i < kept.len() implies !same_path(kept[i], root) by {
        assert(kept[i] == rest[i - 1]);
        assert(keep(rest[i - 1]));
    }
    if distinct_folders(roots) {
        lemma_filter_keeps_distinct(roots, keep);
        assert forall|i: int, j: int| 0 <= i < j < kept.len() implies !same_path(
            #[trigger] kept[j],
            #[trigger] kept[i],
        ) by {
            assert(kept[j] == rest[j - 1]);
            if i > 0 {
                assert(kept[i] == rest[i - 1]);
            } else {
                assert(keep(rest[j - 1]));
            }
        }
    }
    let after = after_opening(roots, root);
    assert(after == if kept.len() > MAX_RECENT_PROJECTS {
        kept.take(MAX_RECENT_PROJECTS as int)
    } else {
        kept
    });
    if distinct_folders(roots) {
        assert forall|i: int, j: int| 0 <= i < j < after.len() implies !same_path(
            #[trigger] after[j],
            #[trigger] after[i],
        ) by {
            assert(after[i] == kept[i] && after[j] == kept[j]);
        }
    }
    assert forall|i: int| 0 < i < after.len() implies !same_path(#[trigger] after[i], root) by {
        assert(after[i] == kept[i]);
    }
}

/// The output log never holds more than `MAX_LOG_LINES` lines, and its
/// newest line is always the one appended last.
pub proof fn law_log_is_capped(lines: Seq<String>, line: String)
    requires
        lines.len() <= MAX_LOG_LINES,
    ensures
        ({
            let after = if lines.len() + 1 > MAX_LOG_LINES {
                lines.push(line).drop_first()
            } else {
                lines.push(line)
            };
            after.len() <= MAX_LOG_LINES && after.last() == line
        }),
{
}


/// Keeps non-empty lines.
pub open spec fn non_empty() -> spec_fn(Seq<char>) -> bool {
    |l: Seq<char>| l.len() > 0
}

/// Trims a line.
pub open spec fn trim_line() -> spec_fn(Seq<char>) -> Seq<char> {
    |l: Seq<char>| trimmed(l)
}

/// The project folders a recent-projects file lists: one per line, trimmed,
/// blank lines skipped, in file order.
pub open spec fn listed_projects(text: Seq<char>) -> Seq<Seq<char>> {
    lines(text).map_values(trim_line()).filter(non_empty())
}

/// The folders, one per line, as the recent-projects file holds them.
pub open spec fn joined_lines(v: Seq<Seq<char>>) -> Seq<char>
    decreases v.len(),
{
    if v.len() == 0 {
        Seq::empty()
    } else if v.len() == 1 {
        v[0]
    } else {
        v[0] + seq!['\n'] + joined_lines(v.drop_first())
    }
}

/// Read the recent-projects file's text into the folders it lists.
pub fn parse_recent_projects(text: &str) -> (roots: Vec<String>)
    ensures
        texts(roots@) == listed_projects(text@),
{
    let t = chars_of(text);
    let n = t.len();
    let mut roots: Vec<String> = Vec::new();
    let ghost mut done: Seq<Seq<char>> = Seq::empty();
    let mut pos: usize = 0;
    assert(t@.subrange(0, n as int) =~= t@);
    while pos < n
        invariant
            0 <= pos <= n,
            n == t@.len(),
            t@ == text@,
            done + lines(t@.subrange(pos as int, n as int)) == lines(t@),
            texts(roots@) == done.map_values(trim_line()).filter(non_empty()),
        decreases n - pos,
    {
        let (end, next) = next_line(&t, pos);
        let ghost line = t@.subrange(pos as int, end as int);
        let (a, b) = trim_range(&t, pos, end);
        let ghost before = texts(roots@);
        if a < b {
            let mut v: Vec<char> = Vec::new();
            push_range(&mut v, &t, a, b);
            roots.push(string_from_chars(v.as_slice()));
            assert(texts(roots@) =~= before.push(trimmed(line)));
        }
        proof {
            assert(done.push(line).map_values(trim_line()) =~= done.map_values(trim_line()).push(
                trimmed(line),
            ));
            done.map_values(trim_line()).lemma_filter_push(trimmed(line), non_empty());
            assert(done + lines(t@.subrange(pos as int, n as int)) =~= done.push(line) + lines(
                t@.subrange(next as int, n as int),
            ));
            done = done.push(line);
        }
        pos = next;
    }
    assert(t@.subrange(n as int, n as int) =~= Seq::<char>::empty());
    assert(done + Seq::<Seq<char>>::empty() =~= done);
    roots
}

/// The recent-projects file's text for `roots`: one folder per line.
pub fn recent_projects_text(roots: &Vec<String>) -> (text: String)
    ensures
        text@ == joined_lines(texts(roots@)),
{
    let ghost all = texts(roots@);
    let mut v: Vec<char> = Vec::new();
    let n = roots.len();
    if n == 0 {
        return string_from_chars(v.as_slice());
    }
    let mut i: usize = n;
    let first = chars_of(roots[n - 1].as_str());
    push_range(&mut v, &first, 0, first.len());
    assert(first@.subrange(0, first@.len() as int) =~= first@);
    assert(v@ == joined_lines(all.subrange(n - 1, n as int))) by {
        assert(all.subrange(n - 1, n as int).len() == 1);
        assert(all.subrange(n - 1, n as int)[0] == all[n - 1]);
    }
    i = n - 1;
    while i > 0
        invariant
            0 <= i < n,
            n == roots@.len(),
            all == texts(roots@),
            v@ == joined_lines(all.subrange(i as int, n as int)),
        decreases i,
    {
        let word = chars_of(roots[i - 1].as_str());
        let mut w: Vec<char> = Vec::new();
        push_range(&mut w, &word, 0, word.len());
        w.push('\n');
        push_range(&mut w, &v, 0, v.len());
        proof {
            assert(word@.subrange(0, word@.len() as int) =~= word@);
            assert(v@.subrange(0, v@.len() as int) =~= v@);
            let tail = all.subrange(i - 1, n as int);
            assert(tail.len() >= 2);
            assert(tail[0] == all[i - 1]);
            assert(tail.drop_first() =~= all.subrange(i as int, n as int));
            assert(w@ =~= joined_lines(tail));
        }
        v = w;
        i = i - 1;
    }
    assert(all.subrange(0, n as int) =~= all);
    string_from_chars(v.as_slice())
}

/// Whether a folder name can be written on a line of its own and read back
/// unchanged: it is not blank, has no surrounding whitespace and no line break.
pub open spec fn clean_line(r: Seq<char>) -> bool {
    &&& r.len() > 0
    &&& trimmed(r) == r
    &&& !r.contains('\n')
}

proof fn lemma_clean_line(r: Seq<char>)
    requires
        clean_line(r),
    ensures
        first_where(r, char_pred('\n')) == r.len(),
        r.last() != '\r',
        lines(r) == seq![r],
{
    assert forall|k: int| 0 <= k < r.len() implies !char_pred('\n')(#[trigger] r[k]) by {
        if r[k] == '\n' {
            assert(r.contains('\n'));
        }
    }
    lemma_first_where_is(r, char_pred('\n'), r.len() as int);
    lemma_trim_end_len_bounds(r);
    lemma_first_where_bounds(r, non_ws_pred());
    let a = first_where(r, non_ws_pred());
    let b = trim_end_len(r);
    assert(a < b);
    assert(b - a == r.len());
    assert(!crate::text::is_ws(r[b - 1]));
}

/// Writing the recent projects one per line and reading the file back gives
/// the same folders in the same order, when every folder is a clean line.
pub proof fn law_recent_projects_round_trip(roots: Seq<Seq<char>>)
    requires
        forall|i: int| 0 <= i < roots.len() ==> clean_line(#[trigger] roots[i]),
    ensures
        listed_projects(joined_lines(roots)) == roots,
    decreases roots.len(),
{
    broadcast use vstd::seq_lib::group_filter_ensures;

    if roots.len() == 0 {
        assert(lines(joined_lines(roots)) =~= Seq::<Seq<char>>::empty());
        assert(listed_projects(joined_lines(roots)) =~= roots);
    } else {
        let r = roots[0];
        assert(clean_line(r));
        lemma_clean_line(r);
        if roots.len() == 1 {
            assert(joined_lines(roots) == r);
            assert(lines(r).map_values(trim_line()) =~= seq![r]);
            seq![r].drop_last().lemma_filter_push(r, non_empty());
            assert(seq![r].drop_last() =~= Seq::<Seq<char>>::empty());
            assert(Seq::<Seq<char>>::empty().push(r) =~= seq![r]);
            assert(Seq::<Seq<char>>::empty().filter(non_empty()) =~= Seq::<Seq<char>>::empty());
            assert(listed_projects(joined_lines(roots)) =~= roots);
        } else {
            let rest = roots.drop_first();
            assert forall|i: int| 0 <= i < rest.len() implies clean_line(#[trigger] rest[i]) by {
                assert(rest[i] == roots[i + 1]);
            }
            law_recent_projects_round_trip(rest);
            let j = joined_lines(rest);
            let whole = r + seq!['\n'] + j;
            assert(joined_lines(roots) == whole);
            assert forall|k: int| 0 <= k < r.len() implies !char_pred('\n')(#[trigger] whole[k]) by {
                assert(whole[k] == r[k]);
                assert(!char_pred('\n')(r[k]));
            }
            lemma_first_where_is(whole, char_pred('\n'), r.len() as int);
            assert(whole.subrange(0, r.len() as int) =~= r);
            assert(whole.subrange(r.len() as int + 1, whole.len() as int) =~= j);
            assert(lines(whole) == seq![r] + lines(j));
            let head = seq![r];
            assert((head + lines(j)).map_values(trim_line()) =~= head.map_values(trim_line())
                + lines(j).map_values(trim_line()));
            assert(head.map_values(trim_line()) =~= seq![r]);
            Seq::filter_distributes_over_add(head, lines(j).map_values(trim_line()), non_empty());
            head.drop_last().lemma_filter_push(r, non_empty());
            assert(head.drop_last() =~= Seq::<Seq<char>>::empty());
            assert(Seq::<Seq<char>>::empty().push(r) =~= head);
            assert(Seq::<Seq<char>>::empty().filter(non_empty()) =~= Seq::<Seq<char>>::empty());
            assert(seq![r] + rest =~= roots);
        }
    }
}


/// Whether `a` sorts before `b`, comparing characters in order (the order
/// of their UTF-8 bytes) and a proper prefix before the longer text.
pub open spec fn sorts_before(a: Seq<char>, b: Seq<char>) -> bool
    decreases a.len(),
{
    if a.len() == 0 {
        b.len() > 0
    } else if b.len() == 0 {
        false
    } else if a[0] != b[0] {
        (a[0] as u32) < (b[0] as u32)
    } else {
        sorts_before(a.drop_first(), b.drop_first())
    }
}

/// Whether a file name names a scene: a `.ron` file with a non-empty stem,
/// other than the `project.ron` manifest.
pub open spec fn is_scene_name(name: Seq<char>) -> bool {
    &&& name.len() > 4
    &&& name.subrange(name.len() - 4, name.len() as int) == seq!['.', 'r', 'o', 'n']
    &&& name != "project.ron"@
}

fn chars_sort_before(a: &Vec<char>, b: &Vec<char>) -> (r: bool)
    ensures
        r == sorts_before(a@, b@),
{
    let mut i: usize = 0;
    assert(a@.subrange(0, a@.len() as int) =~= a@);
    assert(b@.subrange(0, b@.len() as int) =~= b@);
    assert(a@.subrange(0, 0) =~= b@.subrange(0, 0));
    while i < a.len() && i < b.len() && a[i] == b[i]
        invariant
            0 <= i <= a@.len(),
            i <= b@.len(),
            a@.subrange(0, i as int) == b@.subrange(0, i as int),
            sorts_before(a@, b@) == sorts_before(
                a@.subrange(i as int, a@.len() as int),
                b@.subrange(i as int, b@.len() as int),
            ),
        decreases a@.len() - i,
    {
        proof {
            let ra = a@.subrange(i as int, a@.len() as int);
            let rb = b@.subrange(i as int, b@.len() as int);
            assert(ra.drop_first() =~= a@.subrange(i + 1, a@.len() as int));
            assert(rb.drop_first() =~= b@.subrange(i + 1, b@.len() as int));
            assert(ra[0] == a@[i as int] && rb[0] == b@[i as int]);
        }
        i = i + 1;
        assert(a@.subrange(0, i as int) =~= b@.subrange(0, i as int));
    }
    proof {
        let ra = a@.subrange(i as int, a@.len() as int);
        let rb = b@.subrange(i as int, b@.len() as int);
        if i < a.len() && i < b.len() {
            assert(ra[0] == a@[i as int] && rb[0] == b@[i as int]);
        }
    }
    if i == a.len() {
        i < b.len()
    } else if i == b.len() {
        false
    } else {
        (a[i] as u32) < (b[i] as u32)
    }
}

fn is_scene_file(name: &String, manifest: &String) -> (r: bool)
    requires
        manifest@ == "project.ron"@,
    ensures
        r == is_scene_name(name@),
{
    if *name == *manifest {
        return false;
    }
    let c = chars_of(name.as_str());
    let n = c.len();
    if n <= 4 {
        return false;
    }
    let r = c[n - 4] == '.' && c[n - 3] == 'r' && c[n - 2] == 'o' && c[n - 1] == 'n';
    proof {
        let tail = name@.subrange(n - 4, n as int);
        let ron = seq!['.', 'r', 'o', 'n'];
        assert(ron.len() == 4 && ron[0] == '.' && ron[1] == 'r' && ron[2] == 'o' && ron[3] == 'n');
        assert(tail[0] == c@[n - 4] && tail[1] == c@[n - 3] && tail[2] == c@[n - 2] && tail[3]
            == c@[n - 1]);
        if r {
            assert(tail =~= ron);
        }
    }
    r
}

/// Which of a project folder's file names is its scene: the first, in
/// sorted order, of the `.ron` files other than the `project.ron` manifest.
/// A project's name is this file's stem.
pub fn pick_scene(names: &Vec<String>) -> (r: Option<usize>)
    ensures
        r is None <==> forall|i: int| 0 <= i < names@.len() ==> !is_scene_name(#[trigger] names@[i]@),
        r matches Some(k) ==> k < names@.len() && is_scene_name(names@[k as int]@) && forall|i: int|
            0 <= i < names@.len() && is_scene_name(#[trigger] names@[i]@) ==> !sorts_before(
                names@[i]@,
                names@[k as int]@,
            ),
{
    let manifest: String = "project.ron".to_owned();
    let mut best: Option<usize> = None;
    let mut best_chars: Vec<char> = Vec::new();
    let mut i: usize = 0;
    while i < names.len()
        invariant
            0 <= i <= names@.len(),
            manifest@ == "project.ron"@,
            best is None <==> forall|j: int| 0 <= j < i ==> !is_scene_name(#[trigger] names@[j]@),
            best matches Some(k) ==> k < i && is_scene_name(names@[k as int]@) && best_chars@
                == names@[k as int]@ && forall|j: int|
                0 <= j < i && is_scene_name(#[trigger] names@[j]@) ==> !sorts_before(
                    names@[j]@,
                    names@[k as int]@,
                ),
        decreases names@.len() - i,
    {
        if is_scene_file(&names[i], &manifest) {
            let c = chars_of(names[i].as_str());
            let better = match best {
                None => true,
                Some(_) => chars_sort_before(&c, &best_chars),
            };
            if better {
                proof {
                    if let Some(k) = best {
                        assert forall|j: int|
                            0 <= j < i + 1 && is_scene_name(#[trigger] names@[j]@) implies !sorts_before(
                            names@[j]@,
                            names@[i as int]@,
                        ) by {
                            if j < i {
                                if sorts_before(names@[j]@, names@[i as int]@) {
                                    lemma_sorts_before_transitive(
                                        names@[j]@,
                                        names@[i as int]@,
                                        names@[k as int]@,
                                    );
                                }
                            } else {
                                lemma_sorts_before_irreflexive(names@[i as int]@);
                            }
                        }
                    } else {
                        lemma_sorts_before_irreflexive(names@[i as int]@);
                    }
                }
                best = Some(i);
                best_chars = c;
            }
        }
        i = i + 1;
    }
    best
}

proof fn lemma_sorts_before_irreflexive(a: Seq<char>)
    ensures
        !sorts_before(a, a),
    decreases a.len(),
{
    if a.len() > 0 {
        lemma_sorts_before_irreflexive(a.drop_first());
    }
}

proof fn lemma_sorts_before_transitive(a: Seq<char>, b: Seq<char>, c: Seq<char>)
    requires
        sorts_before(a, b),
        sorts_before(b, c),
    ensures
        sorts_before(a, c),
    decreases a.len(),
{
    if a.len() > 0 && b.len() > 0 && c.len() > 0 && a[0] == b[0] && b[0] == c[0] {
        lemma_sorts_before_transitive(a.drop_first(), b.drop_first(), c.drop_first());
    }
}

/// What the launcher makes of the name typed for a new project: the name
/// trimmed of surrounding whitespace and the scene file it gets,
/// `<name>.ron`, or the line it logs instead when the name is blank or
/// holds a slash of either kind.
pub open spec fn new_project_files(typed: Seq<char>) -> Result<(Seq<char>, Seq<char>), Seq<char>> {
    let name = trimmed(typed);
    if name.len() == 0 {
        Err("Type a project name first"@)
    } else if name.contains('/') || name.contains('\\') {
        Err("Project name can't contain slashes"@)
    } else {
        Ok((name, name + ".ron"@))
    }
}

fn literal(text: &str) -> (s: String)
    ensures
        s@ == text@,
{
    let mut v: Vec<char> = Vec::new();
    push_str(&mut v, text);
    assert(v@ =~= text@);
    string_from_chars(v.as_slice())
}

/// Check the name typed for a new project, and give the project's name and
/// its scene file's name.
pub fn new_project_name(typed: &str) -> (r: Result<(String, String), String>)
    ensures
        match (r, new_project_files(typed@)) {
            (Ok((name, file)), Ok((n, f))) => name@ == n && file@ == f,
            (Err(m), Err(e)) => m@ == e,
            _ => false,
        },
{
    let t = chars_of(typed);
    let (a, b) = trim_range(&t, 0, t.len());
    assert(t@.subrange(0, t@.len() as int) =~= typed@);
    if a == b {
        return Err(literal("Type a project name first"));
    }
    let mut i: usize = a;
    while i < b
        invariant
            a <= i <= b <= t@.len(),
            a < b,
            t@.subrange(a as int, b as int) == trimmed(typed@),
            forall|k: int| a <= k < i ==> t@[k] != '/' && t@[k] != '\\',
        decreases b - i,
    {
        if t[i] == '/' || t[i] == '\\' {
            let ghost name = t@.subrange(a as int, b as int);
            assert(name[i - a] == t@[i as int]);
            assert(name.contains('/') || name.contains('\\'));
            return Err(literal("Project name can't contain slashes"));
        }
        i = i + 1;
    }
    let mut v: Vec<char> = Vec::new();
    push_range(&mut v, &t, a, b);
    let name = string_from_chars(v.as_slice());
    push_str(&mut v, ".ron");
    let file = string_from_chars(v.as_slice());
    proof {
        let name_s = t@.subrange(a as int, b as int);
        assert(!name_s.contains('/')) by {
            if name_s.contains('/') {
                let k = choose|k: int| 0 <= k < name_s.len() && name_s[k] == '/';
                assert(name_s[k] == t@[a + k]);
            }
        }
        assert(!name_s.contains('\\')) by {
            if name_s.contains('\\') {
                let k = choose|k: int| 0 <= k < name_s.len() && name_s[k] == '\\';
                assert(name_s[k] == t@[a + k]);
            }
        }
    }
    Ok((name, file))
}

/// The launcher remembers twenty recent projects and the output log keeps
/// five hundred lines.
pub proof fn law_editor_limits()
    ensures
        MAX_RECENT_PROJECTS == 20,
        MAX_LOG_LINES == 500,
{
}

} // verus!
