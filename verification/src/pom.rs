//! Enabling the selected business modules in the Maven POMs of the backend
//! template: commented-out `<module>` lines of the root POM and commented-out
//! `<dependency>` blocks of the server POM are uncommented.
use vstd::prelude::*;
use crate::catalog::{module_server_artifacts, server_artifacts, str_views, string_views};
use crate::text::{
    chars_of, contains, has_char, lemma_find_from, lemma_lines_of_rejoin, lemma_lines_shape,
    lemma_replace_all_keeps_char, lemma_replace_all_plain, lines, occurs_at, plain_line, push_str,
    rejoin, rejoin_lines, replace_all, replace_all_exec, split_lines, text_contains, views,
};

verus! {

/// `<module>yudao-module-m</module>`.
pub open spec fn module_tag(m: Seq<char>) -> Seq<char> {
    "<module>yudao-module-"@ + m + "</module>"@
}

/// The line names the module of one of the selected modules.
pub open spec fn names_selected_module(l: Seq<char>, sel: Seq<Seq<char>>) -> bool {
    exists|i: int| 0 <= i < sel.len() && contains(l, #[trigger] module_tag(sel[i]))
}

/// The XML comment markers removed from a line.
pub open spec fn uncomment(l: Seq<char>) -> Seq<char> {
    replace_all(replace_all(l, "<!--"@, Seq::empty()), "-->"@, Seq::empty())
}

/// A commented-out line of a selected module, to be uncommented.
pub open spec fn activates_root_line(l: Seq<char>, sel: Seq<Seq<char>>) -> bool {
    names_selected_module(l, sel) && contains(l, "<!--"@)
}

/// What `activate_root_modules` does to one line.
pub open spec fn activate_root_line(l: Seq<char>, sel: Seq<Seq<char>>) -> Seq<char> {
    if activates_root_line(l, sel) {
        uncomment(l)
    } else {
        l
    }
}

/// What `activate_root_modules` returns for a root POM text: `None` when no
/// line changes, else the edited text.
pub open spec fn root_modules_edit(text: Seq<char>, sel: Seq<Seq<char>>) -> Option<Seq<char>> {
    let ls = lines(text);
    if exists|k: int| 0 <= k < ls.len() && activates_root_line(#[trigger] ls[k], sel) {
        Some(rejoin(Seq::new(ls.len(), |k: int| activate_root_line(ls[k], sel)), text))
    } else {
        None
    }
}

/// Whether the line names one of the selected modules.
fn line_names_selected_module(line: &str, selected: &Vec<String>) -> (r: bool)
    ensures
        r == names_selected_module(line@, string_views(selected@)),
{
    let mut i: usize = 0;
    while i < selected.len()
        invariant
            i <= selected.len(),
            forall|k: int| 0 <= k < i ==> !contains(line@, #[trigger] module_tag(string_views(selected@)[k])),
        decreases selected.len() - i,
    {
        let mut tag = String::new();
        push_str(&mut tag, "<module>yudao-module-");
        push_str(&mut tag, selected[i].as_str());
        push_str(&mut tag, "</module>");
        assert(string_views(selected@)[i as int] == selected@[i as int]@);
        assert(tag@ == module_tag(string_views(selected@)[i as int]));
        if text_contains(line, tag.as_str()) {
            return true;
        }
        i += 1;
    }
    false
}

/// Uncomments the `<module>` lines of the selected modules in a root POM.
/// `None` when nothing had to change.
pub fn activate_root_modules(text: &str, selected: &Vec<String>) -> (r: Option<String>)
    ensures
        match root_modules_edit(text@, string_views(selected@)) {
            None => r is None,
            Some(t) => r matches Some(out) && out@ == t,
        },
{
    let ls = split_lines(text);
    let ghost lv = views(ls@);
    let ghost sel = string_views(selected@);
    let mut out: Vec<String> = Vec::new();
    let mut changed = false;
    let mut i: usize = 0;
    while i < ls.len()
        invariant
            lv == views(ls@),
            lv == lines(text@),
            sel == string_views(selected@),
            i <= ls.len(),
            out@.len() == i,
            forall|k: int| 0 <= k < i ==> #[trigger] out@[k]@ == activate_root_line(lv[k], sel),
            changed == exists|k: int| 0 <= k < i && activates_root_line(#[trigger] lv[k], sel),
        decreases ls.len() - i,
    {
        let line: &str = ls[i].as_str();
        assert(lv[i as int] == line@);
        if line_names_selected_module(line, selected) && text_contains(line, "<!--") {
            proof {
                reveal_strlit("<!--");
                reveal_strlit("-->");
            }
            let a = replace_all_exec(line, "<!--", "");
            let b = replace_all_exec(a.as_str(), "-->", "");
            assert(""@ =~= Seq::<char>::empty()) by {
                reveal_strlit("");
            }
            out.push(b);
            changed = true;
        } else {
            out.push(copy_line(line));
        }
        i += 1;
    }
    assert(lv.len() == ls@.len());
    if changed {
        assert(views(out@) =~= Seq::new(lv.len(), |k: int| activate_root_line(lv[k], sel)));
        Some(rejoin_lines(&out, text))
    } else {
        None
    }
}

/// A copy of one line.
fn copy_line(l: &str) -> (r: String)
    ensures
        r@ == l@,
{
    crate::text::copy_str(l)
}

// ---------------------------------------------------------------------------
// Server POM dependencies
// ---------------------------------------------------------------------------
/// `<artifactId>a</artifactId>`.
pub open spec fn artifact_tag(a: Seq<char>) -> Seq<char> {
    "<artifactId>"@ + a + "</artifactId>"@
}

/// The line names a server artifact of one of the selected modules.
pub open spec fn names_selected_artifact(l: Seq<char>, sel: Seq<Seq<char>>) -> bool {
    exists|i: int, j: int|
        0 <= i < sel.len() && 0 <= j < server_artifacts(sel[i]).len() && contains(
            l,
            #[trigger] artifact_tag(server_artifacts(sel[i])[j]),
        )
}

/// The first line at or after `k` that closes a `<dependency>`.
pub open spec fn first_dependency_close(ls: Seq<Seq<char>>, k: int) -> Option<int>
    decreases ls.len() - k,
{
    if k < 0 || k >= ls.len() {
        None
    } else if contains(ls[k], "</dependency>"@) {
        Some(k)
    } else {
        first_dependency_close(ls, k + 1)
    }
}

/// The last line of the `<dependency>` block opened at line `i` (the line
/// itself when no closing line follows).
pub open spec fn dependency_end(ls: Seq<Seq<char>>, i: int) -> int {
    match first_dependency_close(ls, i) {
        Some(e) => e,
        None => i,
    }
}

/// Where a dependency block ends.
pub proof fn lemma_dependency_end(ls: Seq<Seq<char>>, i: int)
    requires
        0 <= i < ls.len(),
    ensures
        i <= dependency_end(ls, i) < ls.len(),
{
    lemma_first_dependency_close(ls, i);
}

/// Where `first_dependency_close` can land.
pub proof fn lemma_first_dependency_close(ls: Seq<Seq<char>>, k: int)
    requires
        0 <= k,
    ensures
        match first_dependency_close(ls, k) {
            Some(e) => k <= e < ls.len() && contains(ls[e], "</dependency>"@),
            None => true,
        },
    decreases ls.len() - k,
{
    if k < ls.len() && !contains(ls[k], "</dependency>"@) {
        lemma_first_dependency_close(ls, k + 1);
    }
}

/// A line that carries an XML comment marker.
pub open spec fn has_comment_marker(l: Seq<char>) -> bool {
    contains(l, "<!--"@) || contains(l, "-->"@)
}

/// The lines `a..=b` uncommented where they carry a comment marker.
pub open spec fn uncomment_block(ls: Seq<Seq<char>>, a: int, b: int) -> Seq<Seq<char>> {
    Seq::new(
        ls.len(),
        |k: int|
            if a <= k <= b && has_comment_marker(ls[k]) {
                uncomment(ls[k])
            } else {
                ls[k]
            },
    )
}

/// The walk over the server POM from line `i`: the resulting lines, and
/// whether any line changed.
pub open spec fn activate_dependencies_from(ls: Seq<Seq<char>>, i: int, sel: Seq<Seq<char>>) -> (
    Seq<Seq<char>>,
    bool,
)
    decreases ls.len() - i,
{
    if i < 0 || i >= ls.len() {
        (ls, false)
    } else if !contains(ls[i], "<dependency>"@) {
        activate_dependencies_from(ls, i + 1, sel)
    } else {
        let e = dependency_end(ls, i);
        proof {
            lemma_dependency_end(ls, i);
        }
        if exists|k: int| i <= k <= e && names_selected_artifact(#[trigger] ls[k], sel) {
            let next = uncomment_block(ls, i, e);
            let rest = activate_dependencies_from(next, e + 1, sel);
            (rest.0, rest.1 || exists|k: int| i <= k <= e && has_comment_marker(#[trigger] ls[k]))
        } else {
            activate_dependencies_from(ls, e + 1, sel)
        }
    }
}

/// What `activate_server_dependencies` returns for a server POM text: `None`
/// when no line changes, else the edited text.
pub open spec fn server_dependencies_edit(text: Seq<char>, sel: Seq<Seq<char>>) -> Option<Seq<char>> {
    let r = activate_dependencies_from(lines(text), 0, sel);
    if r.1 {
        Some(rejoin(r.0, text))
    } else {
        None
    }
}

/// `x` is one of `r`.
pub open spec fn has_entry(r: Seq<Seq<char>>, x: Seq<char>) -> bool {
    exists|t: int| 0 <= t < r.len() && r[t] == x
}

/// The server artifacts of all selected modules, as `<artifactId>` tags.
fn selected_artifact_tags(selected: &Vec<String>) -> (r: Vec<String>)
    ensures
        forall|l: Seq<char>|
            #![trigger names_selected_artifact(l, string_views(selected@))]
            names_selected_artifact(l, string_views(selected@)) <==> exists|t: int|
                0 <= t < r@.len() && contains(l, #[trigger] string_views(r@)[t]),
{
    let ghost sel = string_views(selected@);
    let mut r: Vec<String> = Vec::new();
    let ghost mut origin: Seq<(int, int)> = Seq::empty();
    let mut i: usize = 0;
    while i < selected.len()
        invariant
            sel == string_views(selected@),
            i <= selected.len(),
            origin.len() == r@.len(),
            forall|t: int|
                0 <= t < r@.len() ==> {
                    let (a, b) = #[trigger] origin[t];
                    &&& 0 <= a < i
                    &&& 0 <= b < server_artifacts(sel[a]).len()
                    &&& r@[t]@ == artifact_tag(server_artifacts(sel[a])[b])
                },
            forall|a: int, b: int|
                0 <= a < i && 0 <= b < server_artifacts(sel[a]).len() ==> has_entry(
                    string_views(r@),
                    #[trigger] artifact_tag(server_artifacts(sel[a])[b]),
                ),
        decreases selected.len() - i,
    {
        assert(sel[i as int] == selected@[i as int]@);
        let arts = module_server_artifacts(selected[i].as_str());
        let mut j: usize = 0;
        while j < arts.len()
            invariant
                sel == string_views(selected@),
                i < selected.len(),
                sel[i as int] == selected@[i as int]@,
                str_views(arts@) == server_artifacts(sel[i as int]),
                j <= arts.len(),
                origin.len() == r@.len(),
                forall|t: int|
                    0 <= t < r@.len() ==> {
                        let (a, b) = #[trigger] origin[t];
                        &&& 0 <= a <= i
                        &&& 0 <= b < server_artifacts(sel[a]).len()
                        &&& r@[t]@ == artifact_tag(server_artifacts(sel[a])[b])
                    },
                forall|a: int, b: int|
                    0 <= a < i && 0 <= b < server_artifacts(sel[a]).len() ==> has_entry(
                        string_views(r@),
                        #[trigger] artifact_tag(server_artifacts(sel[a])[b]),
                    ),
                forall|b: int|
                    0 <= b < j ==> has_entry(
                        string_views(r@),
                        #[trigger] artifact_tag(server_artifacts(sel[i as int])[b]),
                    ),
            decreases arts.len() - j,
        {
            let mut tag = String::new();
            push_str(&mut tag, "<artifactId>");
            push_str(&mut tag, arts[j]);
            push_str(&mut tag, "</artifactId>");
            assert(str_views(arts@)[j as int] == arts@[j as int]@);
            let ghost old_r = string_views(r@);
            proof {
                origin = origin.push((i as int, j as int));
            }
            r.push(tag);
            assert(string_views(r@) =~= old_r.push(tag@));
            assert(has_entry(string_views(r@), artifact_tag(server_artifacts(sel[i as int])[j as int])))
                by {
                assert(string_views(r@)[old_r.len() as int] == artifact_tag(
                    server_artifacts(sel[i as int])[j as int],
                ));
            }
            assert forall|x: Seq<char>| has_entry(old_r, x) implies has_entry(
                string_views(r@),
                x,
            ) by {
                let t = choose|t: int| 0 <= t < old_r.len() && old_r[t] == x;
                assert(string_views(r@)[t] == x);
            }
            j += 1;
        }
        i += 1;
    }
    assert forall|l: Seq<char>|
        #![trigger names_selected_artifact(l, string_views(selected@))]
        names_selected_artifact(l, string_views(selected@)) <==> exists|t: int|
            0 <= t < r@.len() && contains(l, #[trigger] string_views(r@)[t]) by {
        if names_selected_artifact(l, sel) {
            let (a, b) = choose|a: int, b: int|
                0 <= a < sel.len() && 0 <= b < server_artifacts(sel[a]).len() && contains(
                    l,
                    #[trigger] artifact_tag(server_artifacts(sel[a])[b]),
                );
            assert(has_entry(string_views(r@), artifact_tag(server_artifacts(sel[a])[b])));
            let t = choose|t: int|
                0 <= t < string_views(r@).len() && string_views(r@)[t] == artifact_tag(
                    server_artifacts(sel[a])[b],
                );
            assert(contains(l, string_views(r@)[t]));
        }
        if exists|t: int| 0 <= t < r@.len() && contains(l, #[trigger] string_views(r@)[t]) {
            let t = choose|t: int| 0 <= t < r@.len() && contains(l, #[trigger] string_views(r@)[t]);
            let (a, b) = origin[t];
            assert(string_views(r@)[t] == r@[t]@);
            assert(contains(l, artifact_tag(server_artifacts(sel[a])[b])));
        }
    }
    r
}

/// Whether the line contains one of the tags.
fn line_contains_any(line: &str, tags: &Vec<String>) -> (r: bool)
    ensures
        r == exists|t: int| 0 <= t < tags@.len() && contains(line@, #[trigger] string_views(tags@)[t]),
{
    let mut i: usize = 0;
    while i < tags.len()
        invariant
            i <= tags.len(),
            forall|t: int| 0 <= t < i ==> !contains(line@, #[trigger] string_views(tags@)[t]),
        decreases tags.len() - i,
    {
        assert(string_views(tags@)[i as int] == tags@[i as int]@);
        if text_contains(line, tags[i].as_str()) {
            return true;
        }
        i += 1;
    }
    false
}

/// Uncomments the `<dependency>` blocks of the server POM that name a server
/// artifact of a selected module. `None` when nothing had to change.
pub fn activate_server_dependencies(text: &str, selected: &Vec<String>) -> (r: Option<String>)
    ensures
        match server_dependencies_edit(text@, string_views(selected@)) {
            None => r is None,
            Some(t) => r matches Some(out) && out@ == t,
        },
{
    let ghost sel = string_views(selected@);
    let tags = selected_artifact_tags(selected);
    let mut ls = split_lines(text);
    let ghost goal = activate_dependencies_from(lines(text@), 0, sel);
    let mut changed = false;
    let mut index: usize = 0;
    proof {
        reveal_strlit("<!--");
        reveal_strlit("-->");
        reveal_strlit("");
    }
    while index < ls.len()
        invariant
            sel == string_views(selected@),
            forall|l: Seq<char>|
                #![trigger names_selected_artifact(l, sel)]
                names_selected_artifact(l, sel) <==> exists|t: int|
                    0 <= t < tags@.len() && contains(l, #[trigger] string_views(tags@)[t]),
            index <= ls.len(),
            goal == activate_dependencies_from(lines(text@), 0, sel),
            goal.0 == activate_dependencies_from(views(ls@), index as int, sel).0,
            goal.1 == (changed || activate_dependencies_from(views(ls@), index as int, sel).1),
            ""@ == Seq::<char>::empty(),
            "<!--"@.len() > 0,
            "-->"@.len() > 0,
        decreases ls.len() - index,
    {
        let ghost lv = views(ls@);
        assert(lv.len() == ls@.len());
        assert(lv[index as int] == ls@[index as int]@);
        if !text_contains(ls[index].as_str(), "<dependency>") {
            index += 1;
            continue;
        }
        // The end of the block.
        let mut end = index;
        let mut k = index;
        let mut found = false;
        while k < ls.len()
            invariant_except_break
                index <= k <= ls.len(),
                views(ls@) == lv,
                lv.len() == ls@.len(),
                first_dependency_close(lv, index as int) == first_dependency_close(lv, k as int),
                !found,
            ensures
                found ==> k < ls.len() && first_dependency_close(lv, index as int) == Some(k as int),
                !found ==> first_dependency_close(lv, index as int) is None,
            decreases ls.len() - k,
        {
            assert(lv[k as int] == ls@[k as int]@);
            if text_contains(ls[k].as_str(), "</dependency>") {
                found = true;
                break;
            }
            k += 1;
        }
        if found {
            end = k;
        }
        assert(end as int == dependency_end(lv, index as int));
        proof {
            lemma_dependency_end(lv, index as int);
        }
        // Does the block name a selected artifact?
        let mut selected_block = false;
        let mut m = index;
        while m <= end
            invariant
                index <= m <= end + 1,
                end < ls.len(),
                views(ls@) == lv,
                lv.len() == ls@.len(),
                forall|l: Seq<char>|
                    #![trigger names_selected_artifact(l, sel)]
                    names_selected_artifact(l, sel) <==> exists|t: int|
                        0 <= t < tags@.len() && contains(l, #[trigger] string_views(tags@)[t]),
                selected_block == exists|q: int| index <= q < m && names_selected_artifact(#[trigger] lv[q], sel),
            decreases end + 1 - m,
        {
            assert(lv[m as int] == ls@[m as int]@);
            if line_contains_any(ls[m].as_str(), &tags) {
                assert(names_selected_artifact(lv[m as int], sel));
                selected_block = true;
            } else {
                assert(!names_selected_artifact(lv[m as int], sel));
            }
            m += 1;
        }
        if selected_block {
            let ghost base = lv;
            let mut block_changed = false;
            let mut q = index;
            while q <= end
                invariant
                    index <= q <= end + 1,
                    end < ls.len(),
                    base.len() == ls@.len(),
                    views(ls@) == Seq::new(
                        base.len(),
                        |x: int|
                            if index <= x < q && has_comment_marker(base[x]) {
                                uncomment(base[x])
                            } else {
                                base[x]
                            },
                    ),
                    block_changed == exists|x: int| index <= x < q && has_comment_marker(#[trigger] base[x]),
                    ""@ == Seq::<char>::empty(),
                    "<!--"@.len() > 0,
                    "-->"@.len() > 0,
                decreases end + 1 - q,
            {
                let ghost before = views(ls@);
                assert(before[q as int] == ls@[q as int]@);
                assert(before[q as int] == base[q as int]);
                let line = crate::text::copy_str(ls[q].as_str());
                if text_contains(line.as_str(), "<!--") || text_contains(line.as_str(), "-->") {
                    let a = replace_all_exec(line.as_str(), "<!--", "");
                    let b = replace_all_exec(a.as_str(), "-->", "");
                    assert(b@ == uncomment(base[q as int]));
                    let ghost old_ls = ls@;
                    ls.set(q, b);
                    assert forall|x: int| 0 <= x < ls@.len() implies #[trigger] views(ls@)[x] == (
                    if x == q {
                        uncomment(base[x])
                    } else {
                        before[x]
                    }) by {
                        assert(views(ls@)[x] == ls@[x]@);
                        assert(before[x] == old_ls[x]@);
                    }
                    block_changed = true;
                } else {
                    assert(!has_comment_marker(base[q as int]));
                }
                assert(views(ls@) =~= Seq::new(
                    base.len(),
                    |x: int|
                        if index <= x < q + 1 && has_comment_marker(base[x]) {
                            uncomment(base[x])
                        } else {
                            base[x]
                        },
                ));
                q += 1;
            }
            assert(views(ls@) =~= uncomment_block(base, index as int, end as int));
            changed = changed || block_changed;
        }
        index = end + 1;
    }
    assert(views(ls@).len() == ls@.len());
    if changed {
        Some(rejoin_lines(&ls, text))
    } else {
        None
    }
}

} // verus!

verus! {

/// A character that no XML comment marker holds survives uncommenting, and
/// an uncommented line stays free of line breaks.
proof fn lemma_uncomment(l: Seq<char>, c: char)
    requires
        c != '<' && c != '!' && c != '-' && c != '>',
    ensures
        plain_line(l) ==> plain_line(uncomment(l)),
        has_char(l, c) ==> has_char(uncomment(l), c),
{
    reveal_strlit("<!--");
    reveal_strlit("-->");
    let once = replace_all(l, "<!--"@, Seq::empty());
    if plain_line(l) {
        lemma_replace_all_plain(l, "<!--"@, Seq::empty());
        lemma_replace_all_plain(once, "-->"@, Seq::empty());
    }
    if has_char(l, c) {
        assert(!has_char("<!--"@, c)) by {
            assert forall|i: int| 0 <= i < 4 implies "<!--"@[i] != c by {}
        }
        lemma_replace_all_keeps_char(l, "<!--"@, Seq::empty(), c);
        assert(!has_char("-->"@, c)) by {
            assert forall|i: int| 0 <= i < 3 implies "-->"@[i] != c by {}
        }
        lemma_replace_all_keeps_char(once, "-->"@, Seq::empty(), c);
    }
}

/// A line that holds `q` holds the character `q[j]`.
proof fn lemma_contains_char(l: Seq<char>, q: Seq<char>, j: int)
    requires
        contains(l, q),
        0 <= j < q.len(),
    ensures
        has_char(l, q[j]),
{
    let i = choose|i: int| occurs_at(l, q, i);
    assert(l.subrange(i, i + q.len())[j] == l[i + j]);
}

/// The root POM read back: for a text without carriage returns, the lines of
/// the edited POM are the old lines, each activated line uncommented and
/// every other line exactly as it was.
pub proof fn lemma_root_modules_read_back(text: Seq<char>, sel: Seq<Seq<char>>)
    requires
        forall|k: int| 0 <= k < text.len() ==> text[k] != '\r',
        root_modules_edit(text, sel) is Some,
    ensures
        lines(root_modules_edit(text, sel)->0) == Seq::new(
            lines(text).len(),
            |k: int| activate_root_line(lines(text)[k], sel),
        ),
{
    let ls = lines(text);
    let out = Seq::new(ls.len(), |k: int| activate_root_line(ls[k], sel));
    lemma_lines_shape(text, 0);
    assert(ls.len() > 0);
    assert forall|k: int| 0 <= k < out.len() implies plain_line(#[trigger] out[k]) by {
        lemma_uncomment(ls[k], 'm');
    }
    if !(text.len() > 0 && text.last() == '\n') {
        let l = ls[ls.len() - 1];
        if activates_root_line(l, sel) {
            let i = choose|i: int| 0 <= i < sel.len() && contains(l, #[trigger] module_tag(sel[i]));
            reveal_strlit("<module>yudao-module-");
            assert(module_tag(sel[i])[1] == 'm');
            lemma_contains_char(l, module_tag(sel[i]), 1);
            lemma_uncomment(l, 'm');
        }
        assert(out.last() == activate_root_line(l, sel));
    }
    lemma_lines_of_rejoin(out, text);
}

/// The walk over a server POM keeps its lines free of line breaks, keeps
/// their number, and keeps a non-empty last line non-empty.
proof fn lemma_activate_dependencies_shape(ls: Seq<Seq<char>>, i: int, sel: Seq<Seq<char>>, keep_last: bool)
    requires
        0 <= i,
        forall|k: int| 0 <= k < ls.len() ==> plain_line(#[trigger] ls[k]),
        keep_last ==> ls.len() > 0 && ls.last().len() > 0,
    ensures
        activate_dependencies_from(ls, i, sel).0.len() == ls.len(),
        forall|k: int|
            0 <= k < ls.len() ==> plain_line(#[trigger] activate_dependencies_from(ls, i, sel).0[k]),
        keep_last ==> activate_dependencies_from(ls, i, sel).0.last().len() > 0,
    decreases ls.len() - i,
{
    if i >= ls.len() {
    } else if !contains(ls[i], "<dependency>"@) {
        lemma_activate_dependencies_shape(ls, i + 1, sel, keep_last);
    } else {
        let e = dependency_end(ls, i);
        lemma_dependency_end(ls, i);
        if exists|k: int| i <= k <= e && names_selected_artifact(#[trigger] ls[k], sel) {
            let next = uncomment_block(ls, i, e);
            assert forall|k: int| 0 <= k < next.len() implies plain_line(#[trigger] next[k]) by {
                lemma_uncomment(ls[k], 'd');
            }
            if keep_last {
                let n1 = ls.len() - 1;
                if i <= n1 <= e && has_comment_marker(ls[n1]) {
                    lemma_first_dependency_close(ls, i);
                    reveal_strlit("</dependency>");
                    reveal_strlit("<dependency>");
                    match first_dependency_close(ls, i) {
                        Some(c) => {
                            assert("</dependency>"@[2] == 'd');
                            lemma_contains_char(ls[c], "</dependency>"@, 2);
                        },
                        None => {
                            assert("<dependency>"@[1] == 'd');
                            lemma_contains_char(ls[i], "<dependency>"@, 1);
                        },
                    }
                    lemma_uncomment(ls[n1], 'd');
                }
                assert(next.last() == next[n1]);
            }
            lemma_activate_dependencies_shape(next, e + 1, sel, keep_last);
        } else {
            lemma_activate_dependencies_shape(ls, e + 1, sel, keep_last);
        }
    }
}

/// The server POM read back: for a text without carriage returns, the lines
/// of the edited POM are the lines the walk over its dependency blocks
/// produced: the blocks naming a selected module's artifact uncommented,
/// every other line exactly as it was.
pub proof fn lemma_server_dependencies_read_back(text: Seq<char>, sel: Seq<Seq<char>>)
    requires
        forall|k: int| 0 <= k < text.len() ==> text[k] != '\r',
        server_dependencies_edit(text, sel) is Some,
    ensures
        lines(server_dependencies_edit(text, sel)->0) == activate_dependencies_from(lines(text), 0, sel).0,
{
    let ls = lines(text);
    lemma_lines_shape(text, 0);
    assert(ls.len() > 0);
    let keep_last = !(text.len() > 0 && text.last() == '\n');
    lemma_activate_dependencies_shape(ls, 0, sel, keep_last);
    let out = activate_dependencies_from(ls, 0, sel).0;
    lemma_lines_of_rejoin(out, text);
}

} // verus!

verus! {

/// Selecting a business module enables its server dependency: a line that
/// names the artifact `yudao-module-<m>` of a selected module `m` (other than
/// the composite `mall` and `iot`, whose artifacts `lemma_module_services_follow_meta`
/// gives) counts as naming a selected artifact, so the dependency block
/// holding it is uncommented.
pub proof fn lemma_selected_module_artifact(l: Seq<char>, sel: Seq<Seq<char>>, k: int)
    requires
        0 <= k < sel.len(),
        crate::catalog::selectable_modules().contains(sel[k]),
        sel[k] != "mall"@,
        sel[k] != "iot"@,
        contains(l, artifact_tag("yudao-module-"@ + sel[k])),
    ensures
        names_selected_artifact(l, sel),
{
    let j = choose|j: int| 0 <= j < crate::catalog::selectable_modules().len()
        && crate::catalog::selectable_modules()[j] == sel[k];
    crate::catalog::lemma_module_meta_laws(j, j);
    let i = choose|i: int| 0 <= i < crate::catalog::module_table().len()
        && #[trigger] crate::catalog::module_table()[i].0.0 == crate::catalog::selectable_modules()[j];
    crate::catalog::lemma_module_meta_laws(i, i);
    crate::catalog::lemma_module_services_follow_meta(i);
    assert(server_artifacts(sel[k])[0] == "yudao-module-"@ + sel[k]);
}

} // verus!
