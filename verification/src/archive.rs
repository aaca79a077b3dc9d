//! Where template archives come from: download addresses, cache directory
//! names, and the check that a downloaded body is a ZIP archive.
use vstd::prelude::*;
use crate::catalog::{template_table, TemplateSource, string_views};
use crate::error::ScaffoldError;
use crate::text::{
    chars_of, contains, copy_str, ends_with, push_chars, push_str, starts_with, str_eq,
    string_from_chars, text_contains, trim, trim_bounds, vec_ends_with,
};

verus! {

// ---------------------------------------------------------------------------
// ZIP signature
// ---------------------------------------------------------------------------
/// The body starts with one of the ZIP signatures `PK\x03\x04`, `PK\x05\x06`, `PK\x07\x08`.
pub open spec fn is_zip_signature(b: Seq<u8>) -> bool {
    &&& b.len() >= 4
    &&& b[0] == 0x50u8
    &&& b[1] == 0x4Bu8
    &&& ((b[2] == 3u8 && b[3] == 4u8) || (b[2] == 5u8 && b[3] == 6u8) || (b[2] == 7u8 && b[3]
        == 8u8))
}

/// Whether a downloaded body starts like a ZIP archive.
pub fn has_zip_signature(bytes: &[u8]) -> (r: bool)
    ensures
        r == is_zip_signature(bytes@),
{
    if bytes.len() < 4 {
        return false;
    }
    bytes[0] == 0x50 && bytes[1] == 0x4B && ((bytes[2] == 3 && bytes[3] == 4) || (bytes[2] == 5
        && bytes[3] == 6) || (bytes[2] == 7 && bytes[3] == 8))
}

// ---------------------------------------------------------------------------
// Branches and cache directories
// ---------------------------------------------------------------------------
/// The backend branch for a JDK version, or `None` for an unsupported one.
pub open spec fn jdk_branch(jdk: Seq<char>) -> Option<Seq<char>> {
    if jdk == "8"@ {
        Some("master"@)
    } else if jdk == "17"@ {
        Some("master-jdk17"@)
    } else {
        None
    }
}

/// The branch of the backend template that matches a JDK version.
pub fn backend_template_branch(jdk_version: &str) -> (r: Result<&'static str, ScaffoldError>)
    ensures
        match jdk_branch(jdk_version@) {
            Some(b) => r matches Ok(s) && s@ == b,
            None => r matches Err(ScaffoldError::UnsupportedJdkVersion(v)) && v@ == jdk_version@,
        },
{
    if str_eq(jdk_version, "8") {
        Ok("master")
    } else if str_eq(jdk_version, "17") {
        Ok("master-jdk17")
    } else {
        Err(ScaffoldError::UnsupportedJdkVersion(copy_str(jdk_version)))
    }
}

/// `s` without the prefix `p`, when it has it (`str::strip_prefix(..).unwrap_or(s)`).
pub open spec fn strip_prefix_or_keep(s: Seq<char>, p: Seq<char>) -> Seq<char> {
    if starts_with(s, p) {
        s.subrange(p.len() as int, s.len() as int)
    } else {
        s
    }
}

/// The cache directory name of a template downloaded from `branch`.
pub open spec fn cache_dir_name(name: Seq<char>, branch: Option<Seq<char>>) -> Seq<char> {
    match branch {
        None => name,
        Some(b) => if b == "master"@ {
            name
        } else {
            name + "-"@ + strip_prefix_or_keep(b, "master-"@)
        },
    }
}

/// The directory, under the template cache, that holds a template downloaded
/// from `branch`: the template's name, suffixed for branches other than `master`.
pub fn template_cache_dir_name(template_name: &str, branch: Option<&str>) -> (r: String)
    ensures
        r@ == cache_dir_name(
            template_name@,
            match branch {
                Some(b) => Some(b@),
                None => None,
            },
        ),
{
    match branch {
        None => copy_str(template_name),
        Some(b) => {
            if str_eq(b, "master") {
                copy_str(template_name)
            } else {
                let mut r = copy_str(template_name);
                push_str(&mut r, "-");
                let bc = chars_of(b);
                let pc = chars_of("master-");
                if crate::text::vec_starts_with(&bc, &pc) {
                    push_chars(&mut r, &bc, pc.len(), bc.len());
                } else {
                    push_chars(&mut r, &bc, 0, bc.len());
                    assert(bc@.subrange(0, bc@.len() as int) =~= bc@);
                }
                r
            }
        },
    }
}

// ---------------------------------------------------------------------------
// Download addresses
// ---------------------------------------------------------------------------
/// `s` with every trailing repetition of `p` removed (`str::trim_end_matches`).
pub open spec fn trim_end_matches(s: Seq<char>, p: Seq<char>) -> Seq<char>
    decreases s.len(),
{
    if p.len() > 0 && ends_with(s, p) {
        trim_end_matches(s.subrange(0, s.len() - p.len()), p)
    } else {
        s
    }
}

/// A repository address reduced to its base: trimmed, without `.git` and trailing `/`.
pub open spec fn repository_base(url: Seq<char>) -> Seq<char> {
    trim_end_matches(trim_end_matches(trim(url), ".git"@), "/"@)
}

/// The branches tried when none is given.
pub open spec fn branches_tried(branch: Option<Seq<char>>) -> Seq<Seq<char>> {
    match branch {
        Some(b) => seq![b],
        None => seq!["master"@, "main"@],
    }
}

/// The archive addresses derived from one repository address.
pub open spec fn archive_urls(url: Seq<char>, branch: Option<Seq<char>>) -> Seq<Seq<char>> {
    let base = repository_base(url);
    let bs = branches_tried(branch);
    if ends_with(base, ".zip"@) {
        seq![base]
    } else if contains(base, "github.com/"@) {
        Seq::new(bs.len(), |i: int| base + "/archive/refs/heads/"@ + bs[i] + ".zip"@)
    } else if contains(base, "gitee.com/"@) {
        Seq::new(bs.len(), |i: int| base + "/repository/archive/"@ + bs[i] + ".zip"@)
    } else {
        seq![]
    }
}

/// The bounds of `trim_end_matches(cs[lo..hi], p)` within `cs`.
fn trim_end_matches_bound(cs: &Vec<char>, hi: usize, p: &Vec<char>) -> (r: usize)
    requires
        hi <= cs.len(),
    ensures
        r <= hi,
        cs@.subrange(0, r as int) == trim_end_matches(cs@.subrange(0, hi as int), p@),
{
    let mut end = hi;
    loop
        invariant
            end <= hi <= cs.len(),
            trim_end_matches(cs@.subrange(0, hi as int), p@) == trim_end_matches(
                cs@.subrange(0, end as int),
                p@,
            ),
        decreases end,
    {
        let prefix = string_from_chars(cs, 0, end);
        let pc = chars_of(prefix.as_str());
        if p.len() > 0 && vec_ends_with(&pc, p) {
            assert(cs@.subrange(0, end as int).subrange(0, end - p@.len()) =~= cs@.subrange(
                0,
                end - p@.len(),
            ));
            end = end - p.len();
        } else {
            return end;
        }
    }
}

/// The archive addresses to try for one repository address: the address
/// itself when it names a `.zip`, else the GitHub or Gitee archive of each
/// branch tried (`master` and `main` when no branch is given).
pub fn archive_url_candidates(url: &str, branch: Option<&str>) -> (r: Vec<String>)
    ensures
        string_views(r@) == archive_urls(
            url@,
            match branch {
                Some(b) => Some(b@),
                None => None,
            },
        ),
{
    let ghost br = match branch {
        Some(b) => Some(b@),
        None => None,
    };
    let cs = chars_of(url);
    let (a, b) = trim_bounds(&cs, 0, cs.len());
    assert(cs@.subrange(0, cs@.len() as int) =~= cs@);
    let t = string_from_chars(&cs, a, b);
    let tc = chars_of(t.as_str());
    assert(tc@.subrange(0, tc@.len() as int) =~= tc@);
    let e1 = trim_end_matches_bound(&tc, tc.len(), &chars_of(".git"));
    let e2 = trim_end_matches_bound(&tc, e1, &chars_of("/"));
    let base = string_from_chars(&tc, 0, e2);
    assert(base@ == repository_base(url@));
    if crate::text::text_ends_with(base.as_str(), ".zip") {
        let mut r: Vec<String> = Vec::new();
        r.push(base);
        assert(string_views(r@) =~= archive_urls(url@, br));
        return r;
    }
    let branches: Vec<&str> = match branch {
        Some(b) => vec![b],
        None => vec!["master", "main"],
    };
    assert(branches@.map_values(|s: &str| s@) =~= branches_tried(br));
    let github = text_contains(base.as_str(), "github.com/");
    let gitee = text_contains(base.as_str(), "gitee.com/");
    let mut r: Vec<String> = Vec::new();
    if !github && !gitee {
        assert(string_views(r@) =~= archive_urls(url@, br));
        return r;
    }
    let middle = if github {
        "/archive/refs/heads/"
    } else {
        "/repository/archive/"
    };
    let ghost bs = branches_tried(br);
    let mut i: usize = 0;
    while i < branches.len()
        invariant
            branches@.map_values(|s: &str| s@) == bs,
            i <= branches.len(),
            r@.len() == i,
            forall|k: int| 0 <= k < i ==> #[trigger] r@[k]@ == base@ + middle@ + bs[k] + ".zip"@,
        decreases branches.len() - i,
    {
        let mut u = copy_str(base.as_str());
        push_str(&mut u, middle);
        push_str(&mut u, branches[i]);
        push_str(&mut u, ".zip");
        assert(bs[i as int] == branches@[i as int]@);
        r.push(u);
        i += 1;
    }
    assert(string_views(r@) =~= archive_urls(url@, br));
    r
}

/// The repository addresses tried for a template, in order: the override
/// when one is given, else the chosen mirror first and the other second.
pub open spec fn source_urls(t: (Seq<char>, Seq<char>, Seq<char>, Seq<char>), url_override: Option<
    Seq<char>,
>, mirror: Seq<char>) -> Seq<Seq<char>> {
    match url_override {
        Some(u) => seq![u],
        None => if mirror == "github"@ {
            seq![t.2, t.3]
        } else {
            seq![t.3, t.2]
        },
    }
}

/// The repository addresses tried for a template.
pub fn template_source_urls(template: &TemplateSource, url_override: Option<&str>, mirror: &str) -> (r:
    Vec<String>)
    ensures
        string_views(r@) == source_urls(
            template@,
            match url_override {
                Some(u) => Some(u@),
                None => None,
            },
            mirror@,
        ),
{
    let mut r: Vec<String> = Vec::new();
    match url_override {
        Some(u) => {
            r.push(copy_str(u));
        },
        None => {
            if str_eq(mirror, "github") {
                r.push(copy_str(template.github));
                r.push(copy_str(template.gitee));
            } else {
                r.push(copy_str(template.gitee));
                r.push(copy_str(template.github));
            }
        },
    }
    assert(string_views(r@) =~= source_urls(
        template@,
        match url_override {
            Some(u) => Some(u@),
            None => None,
        },
        mirror@,
    ));
    r
}

/// The archive addresses of every repository address, in order.
pub open spec fn all_archive_urls(urls: Seq<Seq<char>>, branch: Option<Seq<char>>) -> Seq<Seq<char>>
    decreases urls.len(),
{
    if urls.len() == 0 {
        seq![]
    } else {
        all_archive_urls(urls.drop_last(), branch) + archive_urls(urls.last(), branch)
    }
}

/// The archive addresses to try, in order, for the given repository addresses.
pub fn download_candidates(urls: &Vec<String>, branch: Option<&str>) -> (r: Vec<String>)
    ensures
        string_views(r@) == all_archive_urls(
            string_views(urls@),
            match branch {
                Some(b) => Some(b@),
                None => None,
            },
        ),
{
    let ghost br = match branch {
        Some(b) => Some(b@),
        None => None,
    };
    let mut r: Vec<String> = Vec::new();
    let mut i: usize = 0;
    while i < urls.len()
        invariant
            i <= urls.len(),
            br == match branch {
                Some(b) => Some(b@),
                None => None,
            },
            string_views(r@) == all_archive_urls(string_views(urls@).take(i as int), br),
        decreases urls.len() - i,
    {
        let more = archive_url_candidates(urls[i].as_str(), branch);
        let ghost before = string_views(r@);
        let mut j: usize = 0;
        while j < more.len()
            invariant
                j <= more.len(),
                string_views(r@) == before + string_views(more@).take(j as int),
            decreases more.len() - j,
        {
            let ghost old_views = string_views(r@);
            r.push(copy_str(more[j].as_str()));
            assert(string_views(r@) =~= old_views.push(more@[j as int]@));
            assert(string_views(more@).take(j + 1) =~= string_views(more@).take(j as int).push(
                more@[j as int]@,
            ));
            assert(string_views(r@) =~= before + string_views(more@).take(j + 1));
            j += 1;
        }
        assert(string_views(more@).take(more@.len() as int) =~= string_views(more@));
        assert(string_views(urls@).take(i + 1).drop_last() =~= string_views(urls@).take(i as int));
        assert(string_views(urls@).take(i + 1).last() == urls@[i as int]@);
        assert(string_views(r@) == all_archive_urls(string_views(urls@).take(i + 1), br));
        i += 1;
    }
    assert(string_views(urls@).take(urls@.len() as int) =~= string_views(urls@));
    r
}

// ---------------------------------------------------------------------------
// Where a template is taken from
// ---------------------------------------------------------------------------
/// Where a template is taken from.
pub enum TemplateOrigin {
    /// The copy in the workspace.
    Local,
    /// The cached download.
    Cache,
    /// A new download; `incomplete_cache` when a cache directory exists but
    /// is not used, which deserves a warning.
    Download { incomplete_cache: bool },
}

/// Chooses where a template is taken from: a non-empty workspace copy first,
/// then a non-empty cache when the cache may be used, else a download.
pub fn choose_template_origin(
    local_has_entries: bool,
    use_cache: bool,
    cache_has_entries: bool,
    cache_exists: bool,
) -> (r: TemplateOrigin)
    ensures
        local_has_entries ==> r is Local,
        !local_has_entries && use_cache && cache_has_entries ==> r is Cache,
        !local_has_entries && !(use_cache && cache_has_entries) ==> (r matches TemplateOrigin::Download {
            incomplete_cache,
        } && incomplete_cache == cache_exists),
{
    if local_has_entries {
        TemplateOrigin::Local
    } else if use_cache && cache_has_entries {
        TemplateOrigin::Cache
    } else {
        TemplateOrigin::Download { incomplete_cache: cache_exists }
    }
}

} // verus!

verus! {

/// The two JDK variants of a backend template are cached apart: the
/// directory for JDK 8 is the template's name, the one for JDK 17 carries
/// the `-jdk17` suffix.
pub proof fn lemma_jdk_caches_apart(name: Seq<char>)
    ensures
        cache_dir_name(name, jdk_branch("8"@)) == name,
        cache_dir_name(name, jdk_branch("17"@)) == name + "-jdk17"@,
        cache_dir_name(name, jdk_branch("8"@)) != cache_dir_name(name, jdk_branch("17"@)),
{
    reveal_strlit("8");
    reveal_strlit("17");
    reveal_strlit("master");
    reveal_strlit("master-jdk17");
    reveal_strlit("master-");
    reveal_strlit("-");
    reveal_strlit("-jdk17");
    reveal_strlit("jdk17");
    let b = "master-jdk17"@;
    assert("17"@.len() != "8"@.len());
    assert(jdk_branch("17"@) == Some(b));
    assert(b.len() != "master"@.len());
    assert(starts_with(b, "master-"@)) by {
        assert(b.subrange(0, 7) =~= "master-"@);
    }
    assert(b.subrange(7, b.len() as int) =~= "jdk17"@);
    assert("-"@ + "jdk17"@ =~= "-jdk17"@);
    assert(name + "-"@ + "jdk17"@ =~= name + "-jdk17"@);
    assert((name + "-jdk17"@).len() != name.len());
}

} // verus!

verus! {

/// A repository address `https://<host>...<name>.git`, with no whitespace
/// around it and a name that ends in neither `t`, `/` nor `ip`, has the
/// address without `.git` as its base, and yields archive addresses for
/// every branch.
pub proof fn lemma_repository_archive_urls(url: Seq<char>, host: Seq<char>, branch: Option<Seq<char>>)
    requires
        host == "github.com/"@ || host == "gitee.com/"@,
        starts_with(url, "https://"@ + host),
        ends_with(url, ".git"@),
        url.len() > 12 + host.len(),
        !crate::text::is_ws(url[0]),
        !crate::text::is_ws(url[url.len() - 1]),
        url[url.len() - 5] != 't',
        url[url.len() - 5] != '/',
        !(url[url.len() - 5] == 'p' && url[url.len() - 6] == 'i'),
    ensures
        repository_base(url) == url.subrange(0, url.len() - 4),
        archive_urls(url, branch).len() > 0,
{
    reveal_strlit("https://");
    reveal_strlit("github.com/");
    reveal_strlit("gitee.com/");
    reveal_strlit(".git");
    reveal_strlit("/");
    reveal_strlit(".zip");
    let n = url.len() as int;
    assert(crate::text::trim_start(url) == url);
    assert(crate::text::trim_end(url) == url);
    assert(trim(url) == url);
    let base = url.subrange(0, n - 4);
    assert(url.subrange(0, url.len() - ".git"@.len()) == base);
    assert(!ends_with(base, ".git"@)) by {
        if ends_with(base, ".git"@) {
            assert(base.subrange(base.len() - 4, base.len() as int)[3] == base[base.len() - 1]);
        }
    }
    assert(trim_end_matches(base, ".git"@) == base);
    assert(".git"@.len() > 0 && ends_with(url, ".git"@));
    assert(trim_end_matches(url, ".git"@) == trim_end_matches(url.subrange(0, url.len() - ".git"@.len()), ".git"@));
    assert(trim_end_matches(url, ".git"@) == base);
    assert(!ends_with(base, "/"@)) by {
        if ends_with(base, "/"@) {
            assert(base.subrange(base.len() - 1, base.len() as int)[0] == base[base.len() - 1]);
        }
    }
    assert(trim_end_matches(base, "/"@) == base);
    assert(!ends_with(base, ".zip"@)) by {
        if ends_with(base, ".zip"@) {
            assert(base.subrange(base.len() - 4, base.len() as int)[3] == base[base.len() - 1]);
            assert(base.subrange(base.len() - 4, base.len() as int)[2] == base[base.len() - 2]);
        }
    }
    let pre = "https://"@ + host;
    assert(base.subrange(8, 8 + host.len() as int) =~= host) by {
        assert forall|k: int| 0 <= k < host.len() implies base.subrange(8, 8 + host.len() as int)[k] == host[k] by {
            assert(url.subrange(0, pre.len() as int)[8 + k] == pre[8 + k]);
        }
    }
    assert(crate::text::occurs_at(base, host, 8));
    assert(contains(base, "github.com/"@) || contains(base, "gitee.com/"@));
}

/// Every template of the catalog yields archive addresses from both of its
/// repository addresses, whatever branch is asked for.
pub proof fn lemma_template_archive_urls(i: int, branch: Option<Seq<char>>)
    requires
        0 <= i < template_table().len(),
    ensures
        archive_urls(template_table()[i].2, branch).len() > 0,
        archive_urls(template_table()[i].3, branch).len() > 0,
{
    crate::catalog::lemma_template_laws(i, i);
    reveal_strlit("github.com/");
    reveal_strlit("gitee.com/");
    reveal_strlit("https://github.com/");
    reveal_strlit("https://gitee.com/");
    reveal_strlit("https://");
    let t = template_table()[i];
    assert("https://"@ + "github.com/"@ =~= "https://github.com/"@);
    assert("https://"@ + "gitee.com/"@ =~= "https://gitee.com/"@);
    reveal_strlit("https://github.com/YunaiV/ruoyi-vue-pro.git");
    reveal_strlit("https://gitee.com/zhijiantianya/ruoyi-vue-pro.git");
    reveal_strlit("https://github.com/YunaiV/yudao-cloud.git");
    reveal_strlit("https://gitee.com/zhijiantianya/yudao-cloud.git");
    reveal_strlit("https://github.com/yudaocode/yudao-ui-admin-vue3.git");
    reveal_strlit("https://gitee.com/yudaocode/yudao-ui-admin-vue3.git");
    reveal_strlit("https://github.com/yudaocode/yudao-ui-admin-vben.git");
    reveal_strlit("https://gitee.com/yudaocode/yudao-ui-admin-vben.git");
    reveal_strlit("https://github.com/yudaocode/yudao-ui-admin-vue2.git");
    reveal_strlit("https://gitee.com/yudaocode/yudao-ui-admin-vue2.git");
    reveal_strlit("https://github.com/yudaocode/yudao-ui-admin-uniapp.git");
    reveal_strlit("https://gitee.com/yudaocode/yudao-ui-admin-uniapp.git");
    reveal_strlit("https://github.com/yudaocode/yudao-mall-uniapp.git");
    reveal_strlit("https://gitee.com/yudaocode/yudao-mall-uniapp.git");
    reveal_strlit("https://github.com/yudaocode/yudao-ui-go-view.git");
    reveal_strlit("https://gitee.com/yudaocode/yudao-ui-go-view.git");
    lemma_repository_archive_urls(t.2, "github.com/"@, branch);
    lemma_repository_archive_urls(t.3, "gitee.com/"@, branch);
}

} // verus!
