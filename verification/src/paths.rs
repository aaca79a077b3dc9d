//! Paths as the library handles them: strings whose parts are joined with
//! `/`, plus the few path rules the scaffolder applies (which files are
//! rewritten, which directories are skipped, how archive entries lose their
//! root directory, where the workspace and the cache are).
use vstd::prelude::*;
use crate::catalog::string_views;
use crate::text::{
    chars_of, copy_str, ends_with, push_chars, push_str, replace_char, replace_char_exec, str_eq,
    string_from_chars, trim, trim_bounds,
};

verus! {

// ---------------------------------------------------------------------------
// Joining and printing
// ---------------------------------------------------------------------------
/// `b` appended to the path `a` as one more part, with `/` as the only
/// separator (`PathBuf::join` on Unix, for a relative part).
pub open spec fn join_path(a: Seq<char>, b: Seq<char>) -> Seq<char> {
    if a.len() == 0 {
        b
    } else if a.last() == '/' {
        a + b
    } else {
        a + seq!['/'] + b
    }
}

/// Appends `part` to the path `base`.
pub fn join(base: &str, part: &str) -> (r: String)
    ensures
        r@ == join_path(base@, part@),
{
    let cs = chars_of(base);
    let mut r = copy_str(base);
    if cs.len() > 0 && cs[cs.len() - 1] != '/' {
        crate::text::push_char(&mut r, '/');
    }
    push_str(&mut r, part);
    r
}

/// A path as shown to the user: every `\` turned into `/`.
pub fn path_string(path: &str) -> (r: String)
    ensures
        r@ == replace_char(path@, '\\', seq!['/']),
{
    let r = replace_char_exec(path, '\\', "/");
    proof {
        reveal_strlit("/");
    }
    assert("/"@ =~= seq!['/']);
    r
}

/// Where the scaffolder keeps its files.
pub struct RuntimePaths {
    pub home_dir: String,
    pub workspace: String,
    pub cache_dir: String,
}

/// The workspace used for a requested one: the request when it is not
/// blank, else `yudao-scaffold-workspace` in the home directory.
pub open spec fn workspace_dir(home: Seq<char>, requested: Option<Seq<char>>) -> Seq<char> {
    match requested {
        Some(w) => if trim(w).len() > 0 {
            w
        } else {
            join_path(home, "yudao-scaffold-workspace"@)
        },
        None => join_path(home, "yudao-scaffold-workspace"@),
    }
}

/// The workspace and the template cache for a home directory and an
/// optional requested workspace.
pub fn runtime_paths(home_dir: &str, workspace: Option<String>) -> (r: RuntimePaths)
    ensures
        r.home_dir@ == home_dir@,
        r.workspace@ == workspace_dir(
            home_dir@,
            match workspace {
                Some(w) => Some(w@),
                None => None,
            },
        ),
        r.cache_dir@ == join_path(join_path(home_dir@, ".yudao-scaffold-ui"@), "templates"@),
{
    let chosen = match workspace {
        Some(w) => {
            let cs = chars_of(w.as_str());
            let (a, b) = trim_bounds(&cs, 0, cs.len());
            assert(cs@.subrange(0, cs@.len() as int) =~= cs@);
            if a < b {
                w
            } else {
                join(home_dir, "yudao-scaffold-workspace")
            }
        },
        None => join(home_dir, "yudao-scaffold-workspace"),
    };
    let ui = join(home_dir, ".yudao-scaffold-ui");
    let cache_dir = join(ui.as_str(), "templates");
    RuntimePaths { home_dir: copy_str(home_dir), workspace: chosen, cache_dir }
}

// ---------------------------------------------------------------------------
// Archive entries
// ---------------------------------------------------------------------------
/// One component of a path.
pub enum PathComponent {
    Prefix,
    RootDir,
    CurDir,
    ParentDir,
    Normal(String),
}

/// The names of the normal components among `cs`.
pub open spec fn normal_names(cs: Seq<PathComponent>) -> Seq<Seq<char>>
    decreases cs.len(),
{
    if cs.len() == 0 {
        seq![]
    } else {
        let before = normal_names(cs.drop_last());
        match cs.last() {
            PathComponent::Normal(n) => before.push(n@),
            _ => before,
        }
    }
}

/// All components but the first.
pub open spec fn after_first(cs: Seq<PathComponent>) -> Seq<PathComponent> {
    if cs.len() == 0 {
        seq![]
    } else {
        cs.subrange(1, cs.len() as int)
    }
}

/// An archive entry's path without its first component (the archive's root
/// directory), keeping only normal components.
pub fn strip_first_component(components: &Vec<PathComponent>) -> (r: Vec<String>)
    ensures
        string_views(r@) == normal_names(after_first(components@)),
{
    let mut r: Vec<String> = Vec::new();
    let ghost rest = after_first(components@);
    let mut i: usize = 1;
    if components.len() == 0 {
        assert(normal_names(rest) == Seq::<Seq<char>>::empty());
        return r;
    }
    assert(rest.take(0) =~= Seq::<PathComponent>::empty());
    while i < components.len()
        invariant
            1 <= i <= components.len(),
            rest == components@.subrange(1, components@.len() as int),
            string_views(r@) == normal_names(rest.take(i - 1)),
        decreases components.len() - i,
    {
        let ghost before = string_views(r@);
        assert(rest.take(i as int).drop_last() =~= rest.take(i - 1));
        assert(rest.take(i as int).last() == components@[i as int]);
        match &components[i] {
            PathComponent::Normal(n) => {
                r.push(copy_str(n.as_str()));
                assert(string_views(r@) =~= before.push(n@));
            },
            _ => {},
        }
        i += 1;
    }
    assert(rest.take(components.len() - 1) =~= rest);
    r
}

// ---------------------------------------------------------------------------
// Files and directories
// ---------------------------------------------------------------------------
/// The position of the last `.` before position `i`.
pub open spec fn last_dot_before(s: Seq<char>, i: int) -> Option<int>
    decreases i,
{
    if i <= 0 || i > s.len() {
        None
    } else if s[i - 1] == '.' {
        Some(i - 1)
    } else {
        last_dot_before(s, i - 1)
    }
}

/// The extension of a file name as `Path::extension` gives it: the text
/// after the last `.`, unless there is no `.`, the only text before it is
/// empty, or the name is `..`.
pub open spec fn extension(name: Seq<char>) -> Option<Seq<char>> {
    if name == seq!['.', '.'] {
        None
    } else {
        match last_dot_before(name, name.len() as int) {
            None => None,
            Some(i) => if i == 0 {
                None
            } else {
                Some(name.subrange(i + 1, name.len() as int))
            },
        }
    }
}

/// Where `last_dot_before` can land.
pub proof fn lemma_last_dot_before(s: Seq<char>, i: int)
    ensures
        match last_dot_before(s, i) {
            Some(k) => 0 <= k < i && k < s.len(),
            None => true,
        },
    decreases i,
{
    if 0 < i <= s.len() && s[i - 1] != '.' {
        lemma_last_dot_before(s, i - 1);
    }
}

/// The extension of a file name (see `extension`).
pub fn file_extension(name: &str) -> (r: Option<String>)
    ensures
        match extension(name@) {
            Some(e) => r matches Some(x) && x@ == e,
            None => r is None,
        },
{
    let cs = chars_of(name);
    if cs.len() == 2 && cs[0] == '.' && cs[1] == '.' {
        assert(cs@ =~= seq!['.', '.']);
        return None;
    }
    let mut i = cs.len();
    while i > 0
        invariant
            i <= cs.len(),
            cs@ == name@,
            name@ != seq!['.', '.'],
            last_dot_before(name@, name@.len() as int) == last_dot_before(name@, i as int),
        decreases i,
    {
        if cs[i - 1] == '.' {
            if i - 1 == 0 {
                return None;
            }
            return Some(string_from_chars(&cs, i, cs.len()));
        }
        i -= 1;
    }
    None
}

/// The extensions of the text files whose contents are rewritten.
pub open spec fn rewritable_extensions() -> Seq<Seq<char>> {
    seq![
        "java"@,
        "kt"@,
        "xml"@,
        "yml"@,
        "yaml"@,
        "properties"@,
        "md"@,
        "json"@,
        "ts"@,
        "js"@,
        "vue"@,
        "html"@,
        "sql"@,
        "env"@,
        "txt"@,
    ]
}

/// Whether the contents of the file called `file_name` are rewritten: its
/// extension is one of the text extensions.
pub fn should_rewrite_file(file_name: &str) -> (r: bool)
    ensures
        r == match extension(file_name@) {
            Some(e) => rewritable_extensions().contains(e),
            None => false,
        },
{
    let list = vec![
        "java",
        "kt",
        "xml",
        "yml",
        "yaml",
        "properties",
        "md",
        "json",
        "ts",
        "js",
        "vue",
        "html",
        "sql",
        "env",
        "txt",
    ];
    assert(crate::catalog::str_views(list@) =~= rewritable_extensions());
    match file_extension(file_name) {
        Some(e) => crate::catalog::list_contains(&list, e.as_str()),
        None => false,
    }
}

/// The directory names skipped when a template is copied.
pub open spec fn skipped_when_copying() -> Seq<Seq<char>> {
    seq![".git"@, "node_modules"@, "target"@, ".idea"@, ".vscode"@]
}

/// The directory names skipped when texts are rewritten.
pub open spec fn skipped_when_rewriting() -> Seq<Seq<char>> {
    seq![".git"@, "node_modules"@, "target"@, "dist"@, ".idea"@, ".vscode"@]
}

/// The directory names skipped when Java source roots are looked for.
pub open spec fn skipped_when_finding_java_roots() -> Seq<Seq<char>> {
    seq![".git"@, "node_modules"@, "target"@]
}

/// Whether an entry with this name is left out when a template is copied.
pub fn skip_when_copying(name: &str) -> (r: bool)
    ensures
        r == skipped_when_copying().contains(name@),
{
    let list = vec![".git", "node_modules", "target", ".idea", ".vscode"];
    assert(crate::catalog::str_views(list@) =~= skipped_when_copying());
    crate::catalog::list_contains(&list, name)
}

/// Whether an entry with this name is left out when texts are rewritten.
pub fn skip_when_rewriting(name: &str) -> (r: bool)
    ensures
        r == skipped_when_rewriting().contains(name@),
{
    let list = vec![".git", "node_modules", "target", "dist", ".idea", ".vscode"];
    assert(crate::catalog::str_views(list@) =~= skipped_when_rewriting());
    crate::catalog::list_contains(&list, name)
}

/// Whether a directory with this name is left out when Java source roots are looked for.
pub fn skip_when_finding_java_roots(name: &str) -> (r: bool)
    ensures
        r == skipped_when_finding_java_roots().contains(name@),
{
    let list = vec![".git", "node_modules", "target"];
    assert(crate::catalog::str_views(list@) =~= skipped_when_finding_java_roots());
    crate::catalog::list_contains(&list, name)
}

// ---------------------------------------------------------------------------
// Java packages
// ---------------------------------------------------------------------------
/// The directories of a Java package below a source root: its non-empty
/// `.`-separated parts.
pub open spec fn package_dirs(s: Seq<char>) -> Seq<Seq<char>>
    decreases s.len(),
{
    match first_dot(s, 0) {
        None => if s.len() > 0 {
            seq![s]
        } else {
            seq![]
        },
        Some(k) => {
            proof {
                lemma_first_dot(s, 0);
            }
            let head = s.subrange(0, k);
            let tail = package_dirs(s.subrange(k + 1, s.len() as int));
            if head.len() > 0 {
                seq![head] + tail
            } else {
                tail
            }
        },
    }
}

/// The first `.` at or after `i`.
pub open spec fn first_dot(s: Seq<char>, i: int) -> Option<int>
    decreases s.len() - i,
{
    if i < 0 || i >= s.len() {
        None
    } else if s[i] == '.' {
        Some(i)
    } else {
        first_dot(s, i + 1)
    }
}

/// Where `first_dot` can land.
pub proof fn lemma_first_dot(s: Seq<char>, i: int)
    requires
        0 <= i,
    ensures
        match first_dot(s, i) {
            Some(k) => i <= k < s.len() && s[k] == '.' && forall|m: int| i <= m < k ==> s[m] != '.',
            None => forall|m: int| i <= m < s.len() ==> s[m] != '.',
        },
    decreases s.len() - i,
{
    if 0 <= i < s.len() && s[i] != '.' {
        lemma_first_dot(s, i + 1);
    }
}

/// Skipping characters that are not dots does not move the first dot.
pub proof fn lemma_first_dot_skip(s: Seq<char>, j: int, i: int)
    requires
        0 <= j <= i,
        forall|m: int| j <= m < i ==> s[m] != '.',
    ensures
        first_dot(s, j) == first_dot(s, i),
    decreases i - j,
{
    if j < i {
        lemma_first_dot_skip(s, j + 1, i);
    }
}

/// The directories of the Java package `base_package` below a source root.
pub fn java_package_dirs(base_package: &str) -> (r: Vec<String>)
    ensures
        string_views(r@) == package_dirs(base_package@),
    decreases base_package@.len(),
{
    let cs = chars_of(base_package);
    let mut k: usize = 0;
    while k < cs.len() && cs[k] != '.'
        invariant
            cs@ == base_package@,
            k <= cs.len(),
            forall|m: int| 0 <= m < k ==> cs@[m] != '.',
        decreases cs.len() - k,
    {
        k += 1;
    }
    proof {
        lemma_first_dot_skip(cs@, 0, k as int);
    }
    if k == cs.len() {
        let mut r: Vec<String> = Vec::new();
        if cs.len() > 0 {
            r.push(copy_str(base_package));
        }
        assert(string_views(r@) =~= package_dirs(base_package@));
        return r;
    }
    let tail_text = string_from_chars(&cs, k + 1, cs.len());
    let tail = java_package_dirs(tail_text.as_str());
    let mut r: Vec<String> = Vec::new();
    if k > 0 {
        r.push(string_from_chars(&cs, 0, k));
    }
    let ghost head = string_views(r@);
    let mut j: usize = 0;
    while j < tail.len()
        invariant
            j <= tail.len(),
            string_views(r@) == head + string_views(tail@).take(j as int),
        decreases tail.len() - j,
    {
        let ghost before = string_views(r@);
        r.push(copy_str(tail[j].as_str()));
        assert(string_views(r@) =~= before.push(tail@[j as int]@));
        assert(string_views(tail@).take(j + 1) =~= string_views(tail@).take(j as int).push(
            tail@[j as int]@,
        ));
        j += 1;
    }
    assert(string_views(tail@).take(tail.len() as int) =~= string_views(tail@));
    assert(string_views(r@) =~= package_dirs(base_package@));
    r
}

/// The template's own Java package `cn.iocoder.yudao` as directories.
pub open spec fn template_package_dirs() -> Seq<Seq<char>> {
    seq!["cn"@, "iocoder"@, "yudao"@]
}

/// The path of a Java package below a source root: the package with every
/// `.` turned into `/`. Joined to the root as a path, so a leading `.` makes
/// it an absolute path and empty parts vanish.
pub fn java_package_path(base_package: &str) -> (r: String)
    ensures
        r@ == replace_char(base_package@, '.', seq!['/']),
{
    let r = replace_char_exec(base_package, '.', "/");
    proof {
        reveal_strlit("/");
    }
    assert("/"@ =~= seq!['/']);
    r
}

/// Whether the Java sources stay where they are: the package's path, joined
/// to a source root, is the template's own `cn/iocoder/yudao` there. It is
/// not when the package starts with `.` (the path is then absolute), and
/// otherwise exactly when its non-empty parts are `cn`, `iocoder`, `yudao`.
pub fn package_is_unchanged(base_package: &str) -> (r: bool)
    ensures
        r == (!(base_package@.len() > 0 && base_package@[0] == '.') && package_dirs(base_package@)
            == template_package_dirs()),
{
    let cs = chars_of(base_package);
    if cs.len() > 0 && cs[0] == '.' {
        return false;
    }
    let dirs = java_package_dirs(base_package);
    let own = vec!["cn", "iocoder", "yudao"];
    assert(crate::catalog::str_views(own@) =~= template_package_dirs());
    if dirs.len() != own.len() {
        return false;
    }
    let mut i: usize = 0;
    while i < dirs.len()
        invariant
            dirs.len() == own.len(),
            string_views(dirs@) == package_dirs(base_package@),
            crate::catalog::str_views(own@) == template_package_dirs(),
            i <= dirs.len(),
            forall|m: int| 0 <= m < i ==> string_views(dirs@)[m] == template_package_dirs()[m],
        decreases dirs.len() - i,
    {
        assert(string_views(dirs@)[i as int] == dirs@[i as int]@);
        assert(template_package_dirs()[i as int] == own@[i as int]@);
        if !str_eq(dirs[i].as_str(), own[i]) {
            return false;
        }
        i += 1;
    }
    assert(string_views(dirs@) =~= template_package_dirs());
    true
}

} // verus!

verus! {

/// The directories of a Java package are proper directory names: none is
/// empty and none holds a `.`.
pub proof fn lemma_package_dirs_parts(s: Seq<char>)
    ensures
        forall|k: int|
            0 <= k < package_dirs(s).len() ==> (#[trigger] package_dirs(s)[k]).len() > 0 && forall|
                m: int,
            |
                0 <= m < package_dirs(s)[k].len() ==> package_dirs(s)[k][m] != '.',
    decreases s.len(),
{
    lemma_first_dot(s, 0);
    match first_dot(s, 0) {
        None => {},
        Some(d) => {
            let head = s.subrange(0, d);
            let rest = s.subrange(d + 1, s.len() as int);
            lemma_package_dirs_parts(rest);
            let tail = package_dirs(rest);
            if head.len() > 0 {
                assert forall|k: int| 0 <= k < package_dirs(s).len() implies (#[trigger] package_dirs(
                    s,
                )[k]).len() > 0 && forall|m: int|
                    0 <= m < package_dirs(s)[k].len() ==> package_dirs(s)[k][m] != '.' by {
                    if k == 0 {
                        assert(package_dirs(s)[0] == head);
                    } else {
                        assert(package_dirs(s)[k] == tail[k - 1]);
                    }
                }
            }
        },
    }
}

} // verus!

verus! {

/// The text files whose contents are rewritten are exactly those whose
/// extension is one of `java`, `kt`, `xml`, `yml`, `yaml`, `properties`,
/// `md`, `json`, `ts`, `js`, `vue`, `html`, `sql`, `env` and `txt`; a file
/// without an extension is never rewritten.
pub proof fn lemma_rewritten_files(name: Seq<char>)
    ensures
        (match extension(name) {
            Some(e) => rewritable_extensions().contains(e),
            None => false,
        }) <==> (extension(name) matches Some(e) && seq![
            "java"@,
            "kt"@,
            "xml"@,
            "yml"@,
            "yaml"@,
            "properties"@,
            "md"@,
            "json"@,
            "ts"@,
            "js"@,
            "vue"@,
            "html"@,
            "sql"@,
            "env"@,
            "txt"@,
        ].contains(e)),
{
    assert(rewritable_extensions() =~= seq![
        "java"@,
        "kt"@,
        "xml"@,
        "yml"@,
        "yaml"@,
        "properties"@,
        "md"@,
        "json"@,
        "ts"@,
        "js"@,
        "vue"@,
        "html"@,
        "sql"@,
        "env"@,
        "txt"@,
    ]);
}

} // verus!
