//! Decisions about the generated project tree: which templates, which
//! modules and UI variants stay, which texts are rewritten and how, and
//! where things go on disk.
use vstd::prelude::*;
use crate::archive::{template_cache_dir_name};
use crate::catalog::{
    frontend_named, frontend_source, list_contains, selectable_module_names, selectable_modules,
    str_views, string_views, vben_variant_names, vben_variants,
};
use crate::error::ScaffoldError;
use crate::settings::{ScaffoldAnswers, names_view};
use crate::text::{
    chars_of, copy_str, ends_with, push_chars, push_str, replace_all, replace_all_exec,
    replace_str, replace_str_exec,
    replace_char, replace_char_exec, starts_with, str_eq, string_from_chars, trim, trim_bounds,
    vec_starts_with,
};

verus! {

// ---------------------------------------------------------------------------
// Text replacements
// ---------------------------------------------------------------------------
/// The views of a list of (from, to) pairs.
pub open spec fn pair_views(v: Seq<(String, String)>) -> Seq<(Seq<char>, Seq<char>)> {
    v.map_values(|p: (String, String)| (p.0@, p.1@))
}

/// `text` after each replacement in turn (`text = text.replace(from, to)`).
pub open spec fn apply_replacements(text: Seq<char>, reps: Seq<(Seq<char>, Seq<char>)>) -> Seq<char>
    decreases reps.len(),
{
    if reps.len() == 0 {
        text
    } else {
        replace_str(apply_replacements(text, reps.drop_last()), reps.last().0, reps.last().1)
    }
}

/// Applies the replacements to a text, one after the other.
pub fn rewrite_text(text: &str, replacements: &Vec<(String, String)>) -> (r: String)
    ensures
        r@ == apply_replacements(text@, pair_views(replacements@)),
{
    let ghost reps = pair_views(replacements@);
    let mut cur = copy_str(text);
    let mut i: usize = 0;
    while i < replacements.len()
        invariant
            reps == pair_views(replacements@),
            i <= replacements.len(),
            cur@ == apply_replacements(text@, reps.take(i as int)),
        decreases replacements.len() - i,
    {
        let next = replace_str_exec(
            cur.as_str(),
            replacements[i].0.as_str(),
            replacements[i].1.as_str(),
        );
        assert(reps.take(i + 1).drop_last() =~= reps.take(i as int));
        assert(reps.take(i + 1).last() == (replacements@[i as int].0@, replacements@[i as int].1@));
        cur = next;
        i += 1;
    }
    assert(reps.take(replacements.len() as int) =~= reps);
    cur
}

/// The replacements that rename the backend template's packages, group,
/// artifact and project.
pub open spec fn backend_replacements(a: ScaffoldAnswers) -> Seq<(Seq<char>, Seq<char>)> {
    seq![
        ("cn.iocoder.yudao"@, a.base_package@),
        ("cn/iocoder/yudao"@, replace_char(a.base_package@, '.', "/"@)),
        ("cn\\iocoder\\yudao"@, replace_char(a.base_package@, '.', "\\"@)),
        ("cn.iocoder.boot"@, a.group_id@),
        ("<artifactId>yudao</artifactId>"@, "<artifactId>"@ + a.artifact_id@ + "</artifactId>"@),
        ("ruoyi-vue-pro"@, a.project_name@),
        ("yudao-cloud"@, a.project_name@),
    ]
}

/// The text replacements applied to every rewritable file of the backend
/// template; the patterns are never empty.
pub fn customize_backend_tree(answers: &ScaffoldAnswers) -> (r: Vec<(String, String)>)
    ensures
        pair_views(r@) == backend_replacements(*answers),
        forall|i: int| 0 <= i < r@.len() ==> (#[trigger] r@[i]).0@.len() > 0,
{
    let slash_package = replace_char_exec(answers.base_package.as_str(), '.', "/");
    let backslash_package = replace_char_exec(answers.base_package.as_str(), '.', "\\");
    let mut artifact_tag = copy_str("<artifactId>");
    push_str(&mut artifact_tag, answers.artifact_id.as_str());
    push_str(&mut artifact_tag, "</artifactId>");
    let r = vec![
        (copy_str("cn.iocoder.yudao"), copy_str(answers.base_package.as_str())),
        (copy_str("cn/iocoder/yudao"), slash_package),
        (copy_str("cn\\iocoder\\yudao"), backslash_package),
        (copy_str("cn.iocoder.boot"), copy_str(answers.group_id.as_str())),
        (copy_str("<artifactId>yudao</artifactId>"), artifact_tag),
        (copy_str("ruoyi-vue-pro"), copy_str(answers.project_name.as_str())),
        (copy_str("yudao-cloud"), copy_str(answers.project_name.as_str())),
    ];
    assert(pair_views(r@) =~= backend_replacements(*answers));
    proof {
        reveal_strlit("cn.iocoder.yudao");
        reveal_strlit("cn/iocoder/yudao");
        reveal_strlit("cn\\iocoder\\yudao");
        reveal_strlit("cn.iocoder.boot");
        reveal_strlit("<artifactId>yudao</artifactId>");
        reveal_strlit("ruoyi-vue-pro");
        reveal_strlit("yudao-cloud");
        assert forall|i: int| 0 <= i < r@.len() implies (#[trigger] r@[i]).0@.len() > 0 by {
            assert(r@[i].0@ == backend_replacements(*answers)[i].0);
        }
    }
    r
}

/// How a front end template is customized: the text replacements, and the
/// Vben UI variant to keep when the front end is the Vben admin.
pub struct FrontendCustomization {
    pub replacements: Vec<(String, String)>,
    pub vben_variant: Option<String>,
}

/// The replacements that rename the project in a front end template.
pub open spec fn frontend_replacements(a: ScaffoldAnswers) -> Seq<(Seq<char>, Seq<char>)> {
    seq![("ruoyi-vue-pro"@, a.project_name@), ("yudao-cloud"@, a.project_name@)]
}

/// How the front end `frontend_id` is customized: the project renamed, and
/// for `admin-vben` the chosen UI variant kept (`antd` by default).
pub fn customize_frontend_tree(frontend_id: &str, answers: &ScaffoldAnswers) -> (r: FrontendCustomization)
    ensures
        pair_views(r.replacements@) == frontend_replacements(*answers),
        forall|i: int| 0 <= i < r.replacements@.len() ==> (#[trigger] r.replacements@[i]).0@.len() > 0,
        frontend_id@ == "admin-vben"@ ==> (r.vben_variant matches Some(v) && v@ == match answers.vben_variant {
            Some(x) => x@,
            None => "antd"@,
        }),
        frontend_id@ != "admin-vben"@ ==> r.vben_variant is None,
{
    let replacements = vec![
        (copy_str("ruoyi-vue-pro"), copy_str(answers.project_name.as_str())),
        (copy_str("yudao-cloud"), copy_str(answers.project_name.as_str())),
    ];
    assert(pair_views(replacements@) =~= frontend_replacements(*answers));
    proof {
        reveal_strlit("ruoyi-vue-pro");
        reveal_strlit("yudao-cloud");
        assert forall|i: int| 0 <= i < replacements@.len() implies (#[trigger] replacements@[i]).0@.len() > 0 by {
            assert(replacements@[i].0@ == frontend_replacements(*answers)[i].0);
        }
    }
    let vben_variant = if str_eq(frontend_id, "admin-vben") {
        match &answers.vben_variant {
            Some(v) => Some(copy_str(v.as_str())),
            None => Some(copy_str("antd")),
        }
    } else {
        None
    };
    FrontendCustomization { replacements, vben_variant }
}

// ---------------------------------------------------------------------------
// Modules and UI variants
// ---------------------------------------------------------------------------
/// The first selected module that the catalog does not know, from index `i` on.
pub open spec fn first_unknown_module(sel: Seq<Seq<char>>, i: int) -> Option<int>
    decreases sel.len() - i,
{
    if i < 0 || i >= sel.len() {
        None
    } else if !selectable_modules().contains(sel[i]) {
        Some(i)
    } else {
        first_unknown_module(sel, i + 1)
    }
}

/// Checks a module selection: `system` and `infra` must be in it, and every
/// module must be one the catalog knows (the first unknown one is reported).
pub fn check_module_selection(selected: &Vec<String>) -> (r: Result<(), ScaffoldError>)
    ensures
        !names_view(selected@).contains("system"@) ==> (r matches Err(
            ScaffoldError::MissingRequiredModule(m),
        ) && m@ == "system"@),
        names_view(selected@).contains("system"@) && !names_view(selected@).contains("infra"@) ==> (
        r matches Err(ScaffoldError::MissingRequiredModule(m)) && m@ == "infra"@),
        names_view(selected@).contains("system"@) && names_view(selected@).contains("infra"@) ==> match first_unknown_module(names_view(selected@), 0) {
            None => r is Ok,
            Some(k) => r matches Err(ScaffoldError::UnknownModule(m)) && m@ == names_view(selected@)[k],
        },
{
    let ghost sel = names_view(selected@);
    let required = vec!["system", "infra"];
    let mut q: usize = 0;
    while q < required.len()
        invariant
            sel == names_view(selected@),
            str_views(required@) == seq!["system"@, "infra"@],
            required@.len() == 2,
            q <= required.len(),
            q >= 1 ==> sel.contains("system"@),
            q >= 2 ==> sel.contains("infra"@),
        decreases required.len() - q,
    {
        let name = required[q];
        assert(str_views(required@)[q as int] == name@);
        let mut found = false;
        let mut i: usize = 0;
        while i < selected.len()
            invariant
                sel == names_view(selected@),
                i <= selected.len(),
                found == exists|k: int| 0 <= k < i && sel[k] == name@,
            decreases selected.len() - i,
        {
            assert(sel[i as int] == selected@[i as int]@);
            if str_eq(selected[i].as_str(), name) {
                found = true;
            }
            i += 1;
        }
        assert(sel.len() == selected@.len());
        if !found {
            assert(!sel.contains(name@));
            assert(q == 0 ==> name@ == "system"@);
            assert(q == 1 ==> name@ == "infra"@);
            assert(q <= 1);
            assert(!(sel.contains("system"@) && sel.contains("infra"@)));
            return Err(ScaffoldError::MissingRequiredModule(copy_str(name)));
        }
        q += 1;
    }
    let known = selectable_module_names();
    let mut i: usize = 0;
    while i < selected.len()
        invariant
            sel == names_view(selected@),
            sel.contains("system"@),
            sel.contains("infra"@),
            str_views(known@) == selectable_modules(),
            i <= selected.len(),
            first_unknown_module(sel, 0) == first_unknown_module(sel, i as int),
        decreases selected.len() - i,
    {
        assert(sel[i as int] == selected@[i as int]@);
        if !list_contains(&known, selected[i].as_str()) {
            return Err(ScaffoldError::UnknownModule(copy_str(selected[i].as_str())));
        }
        i += 1;
    }
    Ok(())
}

/// A directory of the backend root is removed when it is a module
/// directory (`yudao-module-<m>`) of a module that is not selected.
pub open spec fn removes_module_dir(name: Seq<char>, sel: Seq<Seq<char>>) -> bool {
    starts_with(name, "yudao-module-"@) && !sel.contains(
        name.subrange("yudao-module-"@.len() as int, name.len() as int),
    )
}

/// Whether the backend directory `dir_name` is an unselected module's directory.
pub fn is_unselected_module_dir(dir_name: &str, selected: &Vec<String>) -> (r: bool)
    ensures
        r == removes_module_dir(dir_name@, names_view(selected@)),
{
    let cs = chars_of(dir_name);
    let prefix = chars_of("yudao-module-");
    if !vec_starts_with(&cs, &prefix) {
        return false;
    }
    let module = string_from_chars(&cs, prefix.len(), cs.len());
    assert(module@ == dir_name@.subrange("yudao-module-"@.len() as int, dir_name@.len() as int));
    let ghost sel = names_view(selected@);
    let mut i: usize = 0;
    while i < selected.len()
        invariant
            sel == names_view(selected@),
            module@ == dir_name@.subrange("yudao-module-"@.len() as int, dir_name@.len() as int),
            starts_with(dir_name@, "yudao-module-"@),
            i <= selected.len(),
            forall|k: int| 0 <= k < i ==> sel[k] != module@,
        decreases selected.len() - i,
    {
        assert(sel[i as int] == selected@[i as int]@);
        if str_eq(selected[i].as_str(), module.as_str()) {
            assert(sel.contains(module@));
            return false;
        }
        i += 1;
    }
    true
}

/// What happens to the Vben applications directory: the variant kept, and
/// the variant directories removed (`web-<variant>`).
pub struct VbenPrune {
    pub keep: String,
    pub remove: Vec<String>,
}

/// `web-<v>`.
pub open spec fn vben_dir(v: Seq<char>) -> Seq<char> {
    "web-"@ + v
}

/// The test for a variant other than `v`.
pub open spec fn not_variant(v: Seq<char>) -> spec_fn(Seq<char>) -> bool {
    |x: Seq<char>| x != v
}

/// The variants other than `v`, in catalog order.
pub open spec fn other_variants(v: Seq<char>) -> Seq<Seq<char>> {
    vben_variants().filter(not_variant(v))
}

/// Decides which Vben UI variant directories go: all but the selected one,
/// which must be a known variant.
pub fn prune_vben_variants(selected_variant: &str) -> (r: Result<VbenPrune, ScaffoldError>)
    ensures
        !vben_variants().contains(selected_variant@) ==> (r matches Err(
            ScaffoldError::UnknownVbenVariant(v),
        ) && v@ == selected_variant@),
        vben_variants().contains(selected_variant@) ==> (r matches Ok(p) && p.keep@ == vben_dir(
            selected_variant@,
        ) && string_views(p.remove@) == other_variants(selected_variant@).map_values(
            |x: Seq<char>| vben_dir(x),
        )),
{
    let variants = vben_variant_names();
    if !list_contains(&variants, selected_variant) {
        return Err(ScaffoldError::UnknownVbenVariant(copy_str(selected_variant)));
    }
    let mut keep = copy_str("web-");
    push_str(&mut keep, selected_variant);
    let ghost vs = vben_variants();
    let mut remove: Vec<String> = Vec::new();
    let mut i: usize = 0;
    while i < variants.len()
        invariant
            str_views(variants@) == vs,
            vs == vben_variants(),
            i <= variants.len(),
            string_views(remove@) == vs.take(i as int).filter(not_variant(selected_variant@)).map_values(
                |x: Seq<char>| vben_dir(x),
            ),
        decreases variants.len() - i,
    {
        let ghost before = string_views(remove@);
        assert(vs[i as int] == variants@[i as int]@);
        assert(vs.take(i + 1).drop_last() =~= vs.take(i as int));
        reveal_with_fuel(Seq::filter, 1);
        if !str_eq(variants[i], selected_variant) {
            let mut d = copy_str("web-");
            push_str(&mut d, variants[i]);
            remove.push(d);
            assert(string_views(remove@) =~= before.push(vben_dir(vs[i as int])));
        }
        assert(string_views(remove@) =~= vs.take(i + 1).filter(not_variant(selected_variant@)).map_values(
            |x: Seq<char>| vben_dir(x),
        ));
        i += 1;
    }
    assert(vs.take(variants.len() as int) =~= vs);
    Ok(VbenPrune { keep, remove })
}

/// Pruning keeps exactly the selected variant: a known variant's directory
/// is removed if and only if the variant is not the selected one.
pub proof fn lemma_vben_prune_keeps_only_selected(v: Seq<char>, x: Seq<char>)
    requires
        vben_variants().contains(x),
    ensures
        other_variants(v).contains(x) <==> x != v,
        other_variants(v).map_values(|y: Seq<char>| vben_dir(y)).contains(vben_dir(x)) <==> x != v,
{
    let vs = vben_variants();
    let p = not_variant(v);
    let others = other_variants(v);
    let dirs = others.map_values(|y: Seq<char>| vben_dir(y));
    if x != v {
        let i = choose|i: int| 0 <= i < vs.len() && vs[i] == x;
        vs.lemma_filter_contains(p, i);
        let k = choose|k: int| 0 <= k < others.len() && others[k] == x;
        assert(dirs[k] == vben_dir(x));
    } else {
        if others.contains(x) {
            let k = choose|k: int| 0 <= k < others.len() && others[k] == x;
            vs.lemma_filter_pred(p, k);
        }
        if dirs.contains(vben_dir(x)) {
            let k = choose|k: int| 0 <= k < dirs.len() && dirs[k] == vben_dir(x);
            assert(vben_dir(others[k]) == vben_dir(x));
            assert(others[k] =~= vben_dir(others[k]).subrange(4, vben_dir(others[k]).len() as int)) by {
                reveal_strlit("web-");
            }
            assert(x =~= vben_dir(x).subrange(4, vben_dir(x).len() as int)) by {
                reveal_strlit("web-");
            }
            vs.lemma_filter_pred(p, k);
        }
    }
}

// ---------------------------------------------------------------------------
// Templates of a run
// ---------------------------------------------------------------------------
/// The backend template of a backend kind.
pub open spec fn backend_template_name(backend: Seq<char>) -> Seq<char> {
    if backend == "microservice"@ {
        "yudao-cloud"@
    } else {
        "ruoyi-vue-pro"@
    }
}

/// The templates of a run: the backend first, then the template of every
/// known front end, in the order chosen.
pub open spec fn run_templates(backend: Seq<char>, frontends: Seq<Seq<char>>) -> Seq<Seq<char>>
    decreases frontends.len(),
{
    if frontends.len() == 0 {
        seq![backend_template_name(backend)]
    } else {
        let before = run_templates(backend, frontends.drop_last());
        match frontend_named(frontends.last()) {
            Some(f) => before.push(f.1),
            None => before,
        }
    }
}

/// The templates a run prepares, in order.
pub fn selected_templates(answers: &ScaffoldAnswers) -> (r: Vec<&'static str>)
    ensures
        str_views(r@) == run_templates(answers.backend@, names_view(answers.frontends@)),
        r@.len() >= 1,
{
    let ghost fr = names_view(answers.frontends@);
    let mut r: Vec<&'static str> = Vec::new();
    if str_eq(answers.backend.as_str(), "microservice") {
        r.push("yudao-cloud");
    } else {
        r.push("ruoyi-vue-pro");
    }
    assert(str_views(r@) =~= run_templates(answers.backend@, fr.take(0)));
    let mut i: usize = 0;
    while i < answers.frontends.len()
        invariant
            fr == names_view(answers.frontends@),
            i <= answers.frontends.len(),
            r@.len() >= 1,
            str_views(r@) == run_templates(answers.backend@, fr.take(i as int)),
        decreases answers.frontends.len() - i,
    {
        let ghost before = str_views(r@);
        assert(fr.take(i + 1).drop_last() =~= fr.take(i as int));
        assert(fr.take(i + 1).last() == answers.frontends@[i as int]@);
        match frontend_source(answers.frontends[i].as_str()) {
            Some(f) => {
                r.push(f.template);
                assert(str_views(r@) =~= before.push(f.template@));
            },
            None => {},
        }
        i += 1;
    }
    assert(fr.take(answers.frontends.len() as int) =~= fr);
    r
}

// ---------------------------------------------------------------------------
// Output directory
// ---------------------------------------------------------------------------
/// Checks the output directory of a run. `Ok(true)` when an existing
/// directory will be replaced (and must be guarded first), `Ok(false)` when
/// it does not exist yet.
pub fn check_output_dir(
    output_dir: &str,
    is_absolute: bool,
    exists: bool,
    is_dir: bool,
    force: Option<bool>,
) -> (r: Result<bool, ScaffoldError>)
    ensures
        trim(output_dir@).len() == 0 ==> r matches Err(ScaffoldError::EmptyOutputDir),
        trim(output_dir@).len() > 0 && !is_absolute ==> r matches Err(ScaffoldError::OutputDirNotAbsolute),
        trim(output_dir@).len() > 0 && is_absolute && !exists ==> r matches Ok(false),
        trim(output_dir@).len() > 0 && is_absolute && exists && force != Some(true) ==> r matches Err(
            ScaffoldError::OutputDirExists,
        ),
        trim(output_dir@).len() > 0 && is_absolute && exists && force == Some(true) && !is_dir ==> r matches Err(
            ScaffoldError::OutputPathNotDirectory,
        ),
        trim(output_dir@).len() > 0 && is_absolute && exists && force == Some(true) && is_dir ==> r matches Ok(true),
{
    let cs = chars_of(output_dir);
    let (a, b) = trim_bounds(&cs, 0, cs.len());
    assert(cs@.subrange(0, cs@.len() as int) =~= cs@);
    if a == b {
        return Err(ScaffoldError::EmptyOutputDir);
    }
    if !is_absolute {
        return Err(ScaffoldError::OutputDirNotAbsolute);
    }
    if !exists {
        return Ok(false);
    }
    match force {
        Some(true) => {},
        _ => return Err(ScaffoldError::OutputDirExists),
    }
    if !is_dir {
        return Err(ScaffoldError::OutputPathNotDirectory);
    }
    Ok(true)
}

/// Refuses to replace a directory too close to the file system root (one
/// without a parent, or with fewer than four path components) or the
/// user's home directory.
pub fn guard_removable_output_dir(has_parent: bool, component_count: usize, is_home: bool) -> (r:
    Result<(), ScaffoldError>)
    ensures
        (!has_parent || component_count < 4) ==> r matches Err(ScaffoldError::OutputDirTooHigh),
        has_parent && component_count >= 4 && is_home ==> r matches Err(ScaffoldError::OutputDirIsHome),
        has_parent && component_count >= 4 && !is_home ==> r is Ok,
{
    if !has_parent || component_count < 4 {
        Err(ScaffoldError::OutputDirTooHigh)
    } else if is_home {
        Err(ScaffoldError::OutputDirIsHome)
    } else {
        Ok(())
    }
}

} // verus!

verus! {

/// A text that holds none of the patterns comes out of the replacements as
/// it was, so it is not written back.
pub proof fn lemma_replacements_absent(text: Seq<char>, reps: Seq<(Seq<char>, Seq<char>)>)
    requires
        forall|i: int| 0 <= i < reps.len() ==> !crate::text::contains(text, #[trigger] reps[i].0),
    ensures
        apply_replacements(text, reps) == text,
    decreases reps.len(),
{
    if reps.len() > 0 {
        lemma_replacements_absent(text, reps.drop_last());
        assert(!crate::text::contains(text, reps[reps.len() - 1].0));
        if reps.last().0.len() == 0 {
            assert(text.subrange(0, 0) =~= reps.last().0);
            assert(crate::text::occurs_at(text, reps.last().0, 0));
        }
        crate::text::lemma_replace_all_absent(text, reps.last().0, reps.last().1);
    }
}

} // verus!

verus! {

/// Pruning keeps every selected module's directory: `yudao-module-<m>` is
/// never removed when `m` is any element of the selection.
pub proof fn lemma_selected_module_dir_kept(sel: Seq<Seq<char>>, k: int)
    requires
        0 <= k < sel.len(),
    ensures
        !removes_module_dir("yudao-module-"@ + sel[k], sel),
{
    let name = "yudao-module-"@ + sel[k];
    assert(name.subrange("yudao-module-"@.len() as int, name.len() as int) =~= sel[k]);
}

/// Pruning removes the directory `yudao-module-<m>` of every module `m` that
/// is not selected, and no directory outside the `yudao-module-` prefix.
pub proof fn lemma_unselected_module_dir_removed(sel: Seq<Seq<char>>, m: Seq<char>, other: Seq<char>)
    requires
        !sel.contains(m),
        !starts_with(other, "yudao-module-"@),
    ensures
        removes_module_dir("yudao-module-"@ + m, sel),
        !removes_module_dir(other, sel),
{
    let name = "yudao-module-"@ + m;
    assert(name.subrange(0, "yudao-module-"@.len() as int) =~= "yudao-module-"@);
    assert(name.subrange("yudao-module-"@.len() as int, name.len() as int) =~= m);
}

} // verus!
