//! Edits of the template's configuration texts: Maven POMs, Spring YAML
//! profiles and Dockerfiles.
//!
//! Each function takes the whole text of one file and returns the edited
//! text; reading and writing the file is left to the caller.
use vstd::prelude::*;
use crate::error::ScaffoldError;
use crate::text::{
    chars_of, decimal, decimal_string, find, find_from, is_whitespace, leading_ws, lemma_find_from,
    lines, matches_at, push_chars, push_str, rejoin, rejoin_lines, replace_all, replace_all_exec,
    split_lines, starts_with, starts_with_ws, string_from_chars, trim, trim_bounds, trim_start,
    vec_find_from, views, occurs_at, copy_str, push_decimal, push_char, join_lines, lines_from,
    next_newline,
};

verus! {

// ---------------------------------------------------------------------------
// Line analysis
// ---------------------------------------------------------------------------
/// An optional index as a mathematical integer.
pub open spec fn as_int(o: Option<usize>) -> Option<int> {
    match o {
        Some(k) => Some(k as int),
        None => None,
    }
}

/// `l` is a line that is not indented and whose trimmed text is `key`.
pub open spec fn is_top_key_line(l: Seq<char>, key: Seq<char>) -> bool {
    trim(l) == key && !starts_with_ws(l)
}

/// The first line at or after `i` that is the top-level line `key`.
pub open spec fn first_top_key_line(ls: Seq<Seq<char>>, key: Seq<char>, i: int) -> Option<int>
    decreases ls.len() - i,
{
    if i < 0 || i >= ls.len() {
        None
    } else if is_top_key_line(ls[i], key) {
        Some(i)
    } else {
        first_top_key_line(ls, key, i + 1)
    }
}

/// Where `first_top_key_line` can land.
pub proof fn lemma_first_top_key_line(ls: Seq<Seq<char>>, key: Seq<char>, i: int)
    requires
        0 <= i,
    ensures
        match first_top_key_line(ls, key, i) {
            Some(k) => i <= k < ls.len() && is_top_key_line(ls[k], key),
            None => true,
        },
    decreases ls.len() - i,
{
    if i < ls.len() && !is_top_key_line(ls[i], key) {
        lemma_first_top_key_line(ls, key, i + 1);
    }
}

/// The characters of `l`, with the bounds of its trimmed text.
pub struct LineShape {
    pub chars: Vec<char>,
    pub lo: usize,
    pub hi: usize,
}

impl LineShape {
    /// The shape describes the line `l`.
    pub open spec fn describes(&self, l: Seq<char>) -> bool {
        &&& self.chars@ == l
        &&& self.lo <= self.hi <= self.chars@.len()
        &&& self.chars@.subrange(self.lo as int, self.hi as int) == trim(l)
        &&& self.chars@.subrange(self.lo as int, l.len() as int) == trim_start(l)
    }
}

/// Analyses one line.
pub fn shape_of(l: &str) -> (r: LineShape)
    ensures
        r.describes(l@),
{
    let chars = chars_of(l);
    let (lo, hi) = trim_bounds(&chars, 0, chars.len());
    assert(chars@.subrange(0, chars@.len() as int) =~= chars@);
    LineShape { chars, lo, hi }
}

/// `starts_with` on a suffix is a match at the suffix's start.
pub proof fn lemma_starts_with_suffix(s: Seq<char>, p: Seq<char>, a: int)
    requires
        0 <= a <= s.len(),
    ensures
        starts_with(s.subrange(a, s.len() as int), p) == occurs_at(s, p, a),
{
    if a + p.len() <= s.len() {
        assert(s.subrange(a, s.len() as int).subrange(0, p.len() as int) =~= s.subrange(
            a,
            a + p.len(),
        ));
    }
}

/// The number of leading whitespace characters of a line.
pub proof fn lemma_leading_ws_len(l: Seq<char>, lo: int)
    requires
        0 <= lo <= l.len(),
        l.subrange(lo, l.len() as int) == trim_start(l),
    ensures
        leading_ws(l) == l.subrange(0, lo),
        leading_ws(l).len() == lo,
{
}

/// Whether the line is not indented and its trimmed text is `key`.
pub fn shape_is_top_key(sh: &LineShape, key: &Vec<char>) -> (r: bool)
    requires
        sh.describes(sh.chars@),
    ensures
        r == is_top_key_line(sh.chars@, key@),
{
    let ws = sh.chars.len() > 0 && is_whitespace(sh.chars[0]);
    let eq = sh.hi - sh.lo == key.len() && matches_at(&sh.chars, sh.lo, key);
    proof {
        if eq {
            assert(sh.chars@.subrange(sh.lo as int, sh.hi as int) =~= key@);
        } else if trim(sh.chars@) == key@ {
            assert(sh.chars@.subrange(sh.lo as int, sh.lo + key@.len()) =~= key@);
        }
    }
    eq && !ws
}

/// The first top-level line `key` at or after `from`.
pub fn find_top_key_line(ls: &Vec<String>, key: &str, from: usize) -> (r: Option<usize>)
    ensures
        as_int(r) == first_top_key_line(views(ls@), key@, from as int),
{
    let kc = chars_of(key);
    let mut i = from;
    while i < ls.len()
        invariant
            kc@ == key@,
            from <= i,
            first_top_key_line(views(ls@), key@, from as int) == first_top_key_line(
                views(ls@),
                key@,
                i as int,
            ),
        decreases ls.len() - i,
    {
        let sh = shape_of(ls[i].as_str());
        if shape_is_top_key(&sh, &kc) {
            return Some(i);
        }
        i += 1;
    }
    None
}

/// The lines of `text` as a vector.
pub fn text_lines(text: &str) -> (r: Vec<String>)
    ensures
        views(r@) == lines(text@),
{
    split_lines(text)
}

// ---------------------------------------------------------------------------
// XML tag value
// ---------------------------------------------------------------------------
/// `<tag>`.
pub open spec fn open_tag(tag: Seq<char>) -> Seq<char> {
    seq!['<'] + tag + seq!['>']
}

/// `</tag>`.
pub open spec fn close_tag(tag: Seq<char>) -> Seq<char> {
    seq!['<', '/'] + tag + seq!['>']
}

/// What `set_xml_tag_value` turns `text` into: the text between the first
/// `<tag>` and the first `</tag>` after it replaced by `value`.
pub open spec fn xml_tag_edit(text: Seq<char>, tag: Seq<char>, value: Seq<char>) -> Option<
    Seq<char>,
> {
    match find(text, open_tag(tag)) {
        None => None,
        Some(i) => {
            let start = i + open_tag(tag).len();
            match find_from(text, close_tag(tag), start) {
                None => None,
                Some(e) => Some(text.subrange(0, start) + value + text.subrange(e, text.len() as int)),
            }
        },
    }
}

/// Sets the text of the first `<tag>` element of an XML text to `value`.
pub fn set_xml_tag_value(text: &str, tag: &str, value: &str) -> (r: Result<String, ScaffoldError>)
    ensures
        find(text@, open_tag(tag@)) is None ==> (r matches Err(ScaffoldError::MissingXmlOpenTag(t))
            && t@ == tag@),
        find(text@, open_tag(tag@)) is Some && xml_tag_edit(text@, tag@, value@) is None ==> (r matches Err(
            ScaffoldError::MissingXmlCloseTag(t)) && t@ == tag@),
        xml_tag_edit(text@, tag@, value@) matches Some(t) ==> r matches Ok(out) && out@ == t,
{
    let cs = chars_of(text);
    let tc = chars_of(tag);
    let mut open: Vec<char> = Vec::new();
    open.push('<');
    let mut close: Vec<char> = Vec::new();
    close.push('<');
    close.push('/');
    let mut k: usize = 0;
    while k < tc.len()
        invariant
            k <= tc.len(),
            open@ == seq!['<'] + tc@.subrange(0, k as int),
            close@ == seq!['<', '/'] + tc@.subrange(0, k as int),
        decreases tc.len() - k,
    {
        open.push(tc[k]);
        close.push(tc[k]);
        assert(tc@.subrange(0, k + 1) =~= tc@.subrange(0, k as int).push(tc@[k as int]));
        k += 1;
    }
    open.push('>');
    close.push('>');
    assert(open@ =~= open_tag(tag@));
    assert(close@ =~= close_tag(tag@));
    match vec_find_from(&cs, &open, 0) {
        None => Err(ScaffoldError::MissingXmlOpenTag(copy_str(tag))),
        Some(i) => {
            proof {
                lemma_find_from(cs@, open@, 0);
                assert(occurs_at(cs@, open@, i as int));
                assert(i + open@.len() <= cs@.len());
                assert(cs@.len() == cs.len());
            }
            let start = i + open.len();
            match vec_find_from(&cs, &close, start) {
                None => Err(ScaffoldError::MissingXmlCloseTag(copy_str(tag))),
                Some(e) => {
                    proof {
                        lemma_find_from(cs@, close@, start as int);
                    }
                    let mut out = string_from_chars(&cs, 0, start);
                    push_str(&mut out, value);
                    push_chars(&mut out, &cs, e, cs.len());
                    Ok(out)
                },
            }
        },
    }
}

// ---------------------------------------------------------------------------
// Top-level server port
// ---------------------------------------------------------------------------
/// A line that still belongs to the block opened by a top-level key: blank or indented.
pub open spec fn in_indented_block(l: Seq<char>) -> bool {
    trim(l).len() == 0 || starts_with_ws(l)
}

/// A `port:` line.
pub open spec fn is_port_line(l: Seq<char>) -> bool {
    starts_with(trim_start(l), "port:"@)
}

/// The first `port:` line of the block that continues at line `j`.
pub open spec fn find_port_line(ls: Seq<Seq<char>>, j: int) -> Option<int>
    decreases ls.len() - j,
{
    if j < 0 || j >= ls.len() || !in_indented_block(ls[j]) {
        None
    } else if is_port_line(ls[j]) {
        Some(j)
    } else {
        find_port_line(ls, j + 1)
    }
}

/// `localhost:48080` and `127.0.0.1:48080` pointed at `port`.
pub open spec fn retarget_default_port(l: Seq<char>, port: nat) -> Seq<char> {
    replace_all(
        replace_all(l, "localhost:48080"@, "localhost:"@ + decimal(port)),
        "127.0.0.1:48080"@,
        "127.0.0.1:"@ + decimal(port),
    )
}

/// The port line rewritten for `port`, keeping its indentation.
pub open spec fn port_line(l: Seq<char>, port: nat) -> Seq<char> {
    leading_ws(l) + "port: "@ + decimal(port)
}

/// What `set_top_level_server_port` turns the lines into.
pub open spec fn server_port_lines(ls: Seq<Seq<char>>, p: int, port: nat) -> Seq<Seq<char>> {
    let updated = ls.update(p, port_line(ls[p], port));
    Seq::new(updated.len(), |k: int| retarget_default_port(updated[k], port))
}

/// Whether the line belongs to an indented block.
pub fn shape_in_block(sh: &LineShape) -> (r: bool)
    requires
        sh.describes(sh.chars@),
    ensures
        r == in_indented_block(sh.chars@),
{
    sh.hi == sh.lo || (sh.chars.len() > 0 && is_whitespace(sh.chars[0]))
}

/// Whether the trimmed-start text of the line begins with `p`.
pub fn shape_trimmed_starts_with(sh: &LineShape, p: &Vec<char>) -> (r: bool)
    requires
        sh.describes(sh.chars@),
    ensures
        r == starts_with(trim_start(sh.chars@), p@),
{
    proof {
        lemma_starts_with_suffix(sh.chars@, p@, sh.lo as int);
    }
    matches_at(&sh.chars, sh.lo, p)
}

/// Sets `server.port` of a Spring YAML text to `port`, and points
/// `localhost:48080` and `127.0.0.1:48080` at it.
pub fn set_top_level_server_port(text: &str, port: u16) -> (r: Result<String, ScaffoldError>)
    ensures
        ({
            let ls = lines(text@);
            match first_top_key_line(ls, "server:"@, 0) {
                None => r matches Err(ScaffoldError::MissingTopLevelServer),
                Some(s) => match find_port_line(ls, s + 1) {
                    None => r matches Err(ScaffoldError::MissingServerPort),
                    Some(p) => r matches Ok(out) && out@ == rejoin(
                        server_port_lines(ls, p, port as nat),
                        text@,
                    ),
                },
            }
        }),
{
    let ls = text_lines(text);
    let ghost lv = views(ls@);
    let server = match find_top_key_line(&ls, "server:", 0) {
        None => return Err(ScaffoldError::MissingTopLevelServer),
        Some(s) => s,
    };
    proof {
        lemma_first_top_key_line(lv, "server:"@, 0);
        assert(lv.len() == ls@.len());
        assert(first_top_key_line(lv, "server:"@, 0) == Some(server as int));
        assert(server < lv.len());
        assert(ls@.len() == ls.len());
    }
    let port_key = chars_of("port:");
    let mut j = server + 1;
    loop
        invariant_except_break
            server < j,
            views(ls@) == lv,
            lv == lines(text@),
            first_top_key_line(lv, "server:"@, 0) == Some(server as int),
            port_key@ == "port:"@,
            find_port_line(lv, server + 1) == find_port_line(lv, j as int),
        ensures
            j < ls.len(),
            find_port_line(lv, server + 1) == Some(j as int),
        decreases ls.len() - j,
    {
        assert(lv.len() == ls@.len());
        if j >= ls.len() {
            assert(find_port_line(lv, j as int) is None);
            return Err(ScaffoldError::MissingServerPort);
        }
        assert(lv[j as int] == ls@[j as int]@);
        let sh = shape_of(ls[j].as_str());
        if !shape_in_block(&sh) {
            assert(find_port_line(lv, j as int) is None);
            return Err(ScaffoldError::MissingServerPort);
        }
        if shape_trimmed_starts_with(&sh, &port_key) {
            break;
        }
        j += 1;
    }
    let p = j;
    assert(lv[p as int] == ls@[p as int]@);
    let port_text = decimal_string(port as u64);
    let sh = shape_of(ls[p].as_str());
    proof {
        lemma_leading_ws_len(sh.chars@, sh.lo as int);
    }
    let mut new_line = string_from_chars(&sh.chars, 0, sh.lo);
    push_str(&mut new_line, "port: ");
    push_str(&mut new_line, port_text.as_str());
    let mut local = String::new();
    push_str(&mut local, "localhost:");
    push_str(&mut local, port_text.as_str());
    let mut loopback = String::new();
    push_str(&mut loopback, "127.0.0.1:");
    push_str(&mut loopback, port_text.as_str());
    proof {
        reveal_strlit("localhost:48080");
        reveal_strlit("127.0.0.1:48080");
    }
    let ghost updated = lv.update(p as int, port_line(lv[p as int], port as nat));
    let mut out: Vec<String> = Vec::new();
    let mut k: usize = 0;
    while k < ls.len()
        invariant
            views(ls@) == lv,
            p < ls.len(),
            updated == lv.update(p as int, port_line(lv[p as int], port as nat)),
            new_line@ == port_line(lv[p as int], port as nat),
            local@ == "localhost:"@ + decimal(port as nat),
            loopback@ == "127.0.0.1:"@ + decimal(port as nat),
            "localhost:48080"@.len() > 0,
            "127.0.0.1:48080"@.len() > 0,
            k <= ls.len(),
            out@.len() == k,
            forall|m: int| 0 <= m < k ==> #[trigger] out@[m]@ == retarget_default_port(updated[m], port as nat),
        decreases ls.len() - k,
    {
        let line: &str = if k == p {
            new_line.as_str()
        } else {
            ls[k].as_str()
        };
        assert(lv[k as int] == ls@[k as int]@);
        assert(line@ == updated[k as int]);
        let a = replace_all_exec(line, "localhost:48080", local.as_str());
        let b = replace_all_exec(a.as_str(), "127.0.0.1:48080", loopback.as_str());
        out.push(b);
        k += 1;
    }
    assert(views(out@) =~= server_port_lines(lv, p as int, port as nat));
    Ok(rejoin_lines(&out, text))
}

} // verus!

verus! {

// ---------------------------------------------------------------------------
// Lines found by the start of their trimmed text
// ---------------------------------------------------------------------------
/// The first line at or after `i` whose text, leading whitespace removed, begins with `p`.
pub open spec fn first_trimmed_prefix_line(ls: Seq<Seq<char>>, p: Seq<char>, i: int) -> Option<int>
    decreases ls.len() - i,
{
    if i < 0 || i >= ls.len() {
        None
    } else if starts_with(trim_start(ls[i]), p) {
        Some(i)
    } else {
        first_trimmed_prefix_line(ls, p, i + 1)
    }
}

/// Where `first_trimmed_prefix_line` can land.
pub proof fn lemma_first_trimmed_prefix_line(ls: Seq<Seq<char>>, p: Seq<char>, i: int)
    requires
        0 <= i,
    ensures
        match first_trimmed_prefix_line(ls, p, i) {
            Some(k) => i <= k < ls.len(),
            None => true,
        },
    decreases ls.len() - i,
{
    if i < ls.len() && !starts_with(trim_start(ls[i]), p) {
        lemma_first_trimmed_prefix_line(ls, p, i + 1);
    }
}

/// The first line at or after `from` whose trimmed-start text begins with `p`.
pub fn find_trimmed_prefix_line(ls: &Vec<String>, p: &str, from: usize) -> (r: Option<usize>)
    ensures
        as_int(r) == first_trimmed_prefix_line(views(ls@), p@, from as int),
{
    let pc = chars_of(p);
    let mut i = from;
    while i < ls.len()
        invariant
            pc@ == p@,
            from <= i,
            first_trimmed_prefix_line(views(ls@), p@, from as int) == first_trimmed_prefix_line(
                views(ls@),
                p@,
                i as int,
            ),
        decreases ls.len() - i,
    {
        assert(views(ls@)[i as int] == ls@[i as int]@);
        let sh = shape_of(ls[i].as_str());
        if shape_trimmed_starts_with(&sh, &pc) {
            return Some(i);
        }
        i += 1;
    }
    None
}

/// The lines with line `k` replaced by `new_line`, joined again like `original`.
pub fn replace_line(ls: &Vec<String>, k: usize, new_line: String, original: &str) -> (r: String)
    requires
        k < ls.len(),
    ensures
        r@ == rejoin(views(ls@).update(k as int, new_line@), original@),
{
    let mut out: Vec<String> = Vec::new();
    let mut i: usize = 0;
    let ghost target = views(ls@).update(k as int, new_line@);
    while i < ls.len()
        invariant
            k < ls.len(),
            i <= ls.len(),
            target == views(ls@).update(k as int, new_line@),
            out@.len() == i,
            forall|m: int| 0 <= m < i ==> #[trigger] out@[m]@ == target[m],
        decreases ls.len() - i,
    {
        if i == k {
            out.push(copy_str(new_line.as_str()));
        } else {
            assert(views(ls@)[i as int] == ls@[i as int]@);
            out.push(copy_str(ls[i].as_str()));
        }
        i += 1;
    }
    assert(views(out@) =~= target);
    rejoin_lines(&out, original)
}

// ---------------------------------------------------------------------------
// Dockerfile EXPOSE
// ---------------------------------------------------------------------------
/// What `set_docker_expose` turns a Dockerfile into, when it has an `EXPOSE ` line.
pub open spec fn docker_expose_edit(text: Seq<char>, port: nat) -> Option<Seq<char>> {
    let ls = lines(text);
    match first_trimmed_prefix_line(ls, "EXPOSE "@, 0) {
        None => None,
        Some(e) => Some(rejoin(ls.update(e, "EXPOSE "@ + decimal(port)), text)),
    }
}

/// Rewrites the first `EXPOSE ` line of a Dockerfile to `EXPOSE <port>`.
pub fn set_docker_expose(text: &str, port: u16) -> (r: Result<String, ScaffoldError>)
    ensures
        match docker_expose_edit(text@, port as nat) {
            None => r matches Err(ScaffoldError::MissingDockerExpose),
            Some(t) => r matches Ok(out) && out@ == t,
        },
{
    let ls = text_lines(text);
    match find_trimmed_prefix_line(&ls, "EXPOSE ", 0) {
        None => Err(ScaffoldError::MissingDockerExpose),
        Some(e) => {
            proof {
                lemma_first_trimmed_prefix_line(views(ls@), "EXPOSE "@, 0);
            }
            let mut line = String::new();
            push_str(&mut line, "EXPOSE ");
            push_decimal(&mut line, port as u64);
            Ok(replace_line(&ls, e, line, text))
        },
    }
}

/// Points one microservice at `port`: its `application.yaml` server port and
/// its Dockerfile `EXPOSE` line. Returns the two edited texts.
pub fn configure_microservice_port(application_yaml: &str, dockerfile: &str, port: u16) -> (r:
    Result<(String, String), ScaffoldError>)
    ensures
        ({
            let ls = lines(application_yaml@);
            match first_top_key_line(ls, "server:"@, 0) {
                None => r matches Err(ScaffoldError::MissingTopLevelServer),
                Some(s) => match find_port_line(ls, s + 1) {
                    None => r matches Err(ScaffoldError::MissingServerPort),
                    Some(p) => match docker_expose_edit(dockerfile@, port as nat) {
                        None => r matches Err(ScaffoldError::MissingDockerExpose),
                        Some(d) => r matches Ok((y, o)) && y@ == rejoin(
                            server_port_lines(ls, p, port as nat),
                            application_yaml@,
                        ) && o@ == d,
                    },
                },
            }
        }),
{
    let yaml = set_top_level_server_port(application_yaml, port)?;
    let docker = set_docker_expose(dockerfile, port)?;
    Ok((yaml, docker))
}

// ---------------------------------------------------------------------------
// Tenant switch
// ---------------------------------------------------------------------------
/// A line inside the `yudao:` block before `tenant:`: blank, a comment, or indented.
pub open spec fn in_commented_block(l: Seq<char>) -> bool {
    trim(l).len() == 0 || starts_with(trim_start(l), "#"@) || starts_with_ws(l)
}

/// The `  tenant:` line of the block that continues at line `j`.
pub open spec fn find_tenant_line(ls: Seq<Seq<char>>, j: int) -> Option<int>
    decreases ls.len() - j,
{
    if j < 0 || j >= ls.len() || !in_commented_block(ls[j]) {
        None
    } else if starts_with(ls[j], "  tenant:"@) {
        Some(j)
    } else {
        find_tenant_line(ls, j + 1)
    }
}

/// A line inside a block indented deeper than `indent`, or blank.
pub open spec fn in_deeper_block(l: Seq<char>, indent: nat) -> bool {
    trim(l).len() == 0 || leading_ws(l).len() > indent
}

/// The `enable:` line of the block indented deeper than `indent` that continues at line `j`.
pub open spec fn find_enable_line(ls: Seq<Seq<char>>, j: int, indent: nat) -> Option<int>
    decreases ls.len() - j,
{
    if j < 0 || j >= ls.len() || !in_deeper_block(ls[j], indent) {
        None
    } else if starts_with(trim_start(ls[j]), "enable:"@) {
        Some(j)
    } else {
        find_enable_line(ls, j + 1, indent)
    }
}

/// `true` or `false`, as `format!("{b}")` writes a `bool`.
pub open spec fn bool_text(b: bool) -> Seq<char> {
    if b {
        "true"@
    } else {
        "false"@
    }
}

/// The comment that an `enable:` line keeps: from its first `#`, with a single space before it.
pub open spec fn kept_comment(l: Seq<char>) -> Seq<char> {
    match find(l, "#"@) {
        Some(i) => " "@ + trim_start(l.subrange(i, l.len() as int)),
        None => Seq::empty(),
    }
}

/// The `enable:` line rewritten to `enabled`, keeping indentation and comment.
pub open spec fn enable_line(l: Seq<char>, enabled: bool) -> Seq<char> {
    leading_ws(l) + "enable: "@ + bool_text(enabled) + kept_comment(l)
}

/// What `set_tenant_enabled_if_present` does to a YAML text: `None` when there
/// is no `yudao.tenant` section, `Some(None)` when the section has no
/// `enable:` line, `Some(Some(t))` for the edited text `t`.
pub open spec fn tenant_edit(text: Seq<char>, enabled: bool) -> Option<Option<Seq<char>>> {
    let ls = lines(text);
    match first_top_key_line(ls, "yudao:"@, 0) {
        None => None,
        Some(y) => match find_tenant_line(ls, y + 1) {
            None => None,
            Some(t) => match find_enable_line(ls, t + 1, leading_ws(ls[t]).len()) {
                None => Some(None),
                Some(e) => Some(Some(rejoin(ls.update(e, enable_line(ls[e], enabled)), text))),
            },
        },
    }
}

/// Sets `yudao.tenant.enable` of a YAML text. `Ok(None)` when the text has no
/// `yudao.tenant` section.
#[verifier::rlimit(40)]
pub fn set_tenant_enabled_if_present(text: &str, enabled: bool) -> (r: Result<
    Option<String>,
    ScaffoldError,
>)
    ensures
        match tenant_edit(text@, enabled) {
            None => r matches Ok(None),
            Some(None) => r matches Err(ScaffoldError::MissingTenantEnable),
            Some(Some(t)) => r matches Ok(Some(out)) && out@ == t,
        },
{
    let ls = text_lines(text);
    let ghost lv = views(ls@);
    let y = match find_top_key_line(&ls, "yudao:", 0) {
        None => return Ok(None),
        Some(y) => y,
    };
    proof {
        lemma_first_top_key_line(lv, "yudao:"@, 0);
        assert(lv.len() == ls@.len());
        assert(ls@.len() == ls.len());
    }
    let hash = chars_of("#");
    let tenant_key = chars_of("  tenant:");
    let mut j = y + 1;
    loop
        invariant_except_break
            y < j,
            views(ls@) == lv,
            lv == lines(text@),
            first_top_key_line(lv, "yudao:"@, 0) == Some(y as int),
            hash@ == "#"@,
            tenant_key@ == "  tenant:"@,
            find_tenant_line(lv, y + 1) == find_tenant_line(lv, j as int),
        ensures
            j < ls.len(),
            find_tenant_line(lv, y + 1) == Some(j as int),
        decreases ls.len() - j,
    {
        assert(lv.len() == ls@.len());
        if j >= ls.len() {
            return Ok(None);
        }
        assert(lv[j as int] == ls@[j as int]@);
        let sh = shape_of(ls[j].as_str());
        let cont = sh.hi == sh.lo || shape_trimmed_starts_with(&sh, &hash) || (sh.chars.len() > 0
            && is_whitespace(sh.chars[0]));
        if !cont {
            return Ok(None);
        }
        if matches_at(&sh.chars, 0, &tenant_key) {
            break;
        }
        j += 1;
    }
    let t = j;
    assert(lv[t as int] == ls@[t as int]@);
    let tsh = shape_of(ls[t].as_str());
    proof {
        lemma_leading_ws_len(tsh.chars@, tsh.lo as int);
    }
    let indent = tsh.lo;
    let enable_key = chars_of("enable:");
    let mut k = t + 1;
    loop
        invariant_except_break
            t < k,
            t < ls.len(),
            views(ls@) == lv,
            lv == lines(text@),
            first_top_key_line(lv, "yudao:"@, 0) == Some(y as int),
            find_tenant_line(lv, y + 1) == Some(t as int),
            indent == leading_ws(lv[t as int]).len(),
            enable_key@ == "enable:"@,
            find_enable_line(lv, t + 1, indent as nat) == find_enable_line(lv, k as int, indent as nat),
        ensures
            k < ls.len(),
            find_enable_line(lv, t + 1, indent as nat) == Some(k as int),
        decreases ls.len() - k,
    {
        assert(lv.len() == ls@.len());
        if k >= ls.len() {
            return Err(ScaffoldError::MissingTenantEnable);
        }
        assert(lv[k as int] == ls@[k as int]@);
        let sh = shape_of(ls[k].as_str());
        proof {
            lemma_leading_ws_len(sh.chars@, sh.lo as int);
        }
        if !(sh.hi == sh.lo || sh.lo > indent) {
            return Err(ScaffoldError::MissingTenantEnable);
        }
        if shape_trimmed_starts_with(&sh, &enable_key) {
            break;
        }
        k += 1;
    }
    let e = k;
    assert(lv[e as int] == ls@[e as int]@);
    let esh = shape_of(ls[e].as_str());
    proof {
        lemma_leading_ws_len(esh.chars@, esh.lo as int);
    }
    let mut line = string_from_chars(&esh.chars, 0, esh.lo);
    push_str(&mut line, "enable: ");
    if enabled {
        push_str(&mut line, "true");
    } else {
        push_str(&mut line, "false");
    }
    match vec_find_from(&esh.chars, &hash, 0) {
        Some(h) => {
            proof {
                lemma_find_from(esh.chars@, hash@, 0);
                assert(occurs_at(esh.chars@, hash@, h as int));
            }
            let (a, _b) = trim_bounds(&esh.chars, h, esh.chars.len());
            push_char(&mut line, ' ');
            push_chars(&mut line, &esh.chars, a, esh.chars.len());
            assert(seq![' '] =~= " "@) by {
                reveal_strlit(" ");
            }
        },
        None => {},
    }
    assert(line@ == enable_line(lv[e as int], enabled));
    Ok(Some(replace_line(&ls, e, line, text)))
}

/// Sets `yudao.tenant.enable` of a YAML text; the section must be there.
pub fn set_tenant_enabled(text: &str, enabled: bool) -> (r: Result<String, ScaffoldError>)
    ensures
        match tenant_edit(text@, enabled) {
            None => r matches Err(ScaffoldError::MissingTenantSection),
            Some(None) => r matches Err(ScaffoldError::MissingTenantEnable),
            Some(Some(t)) => r matches Ok(out) && out@ == t,
        },
{
    match set_tenant_enabled_if_present(text, enabled)? {
        Some(t) => Ok(t),
        None => Err(ScaffoldError::MissingTenantSection),
    }
}

} // verus!

verus! {

// ---------------------------------------------------------------------------
// Laws
// ---------------------------------------------------------------------------
/// The text of the first `<tag>` element: between the first `<tag>` and the
/// first `</tag>` after it.
pub open spec fn xml_tag_text(text: Seq<char>, tag: Seq<char>) -> Option<Seq<char>> {
    match find(text, open_tag(tag)) {
        None => None,
        Some(i) => {
            let start = i + open_tag(tag).len();
            match find_from(text, close_tag(tag), start) {
                None => None,
                Some(e) => Some(text.subrange(start, e)),
            }
        },
    }
}

/// `find_from` lands on a match with no match before it.
proof fn lemma_find_from_at(s: Seq<char>, p: Seq<char>, i: int, k: int)
    requires
        0 <= i <= k,
        occurs_at(s, p, k),
        forall|m: int| i <= m < k ==> !occurs_at(s, p, m),
    ensures
        find_from(s, p, i) == Some(k),
{
    crate::text::lemma_find_from_skip(s, p, i, k);
}

/// Setting a tag's value and reading it back gives the value, when the
/// value holds no `<`.
pub proof fn lemma_xml_tag_read_back(text: Seq<char>, tag: Seq<char>, value: Seq<char>)
    requires
        xml_tag_edit(text, tag, value) is Some,
        forall|k: int| 0 <= k < value.len() ==> value[k] != '<',
    ensures
        xml_tag_text(xml_tag_edit(text, tag, value).unwrap(), tag) == Some(value),
{
    let open = open_tag(tag);
    let close = close_tag(tag);
    let i = find(text, open).unwrap();
    let start = i + open.len();
    let e = find_from(text, close, start).unwrap();
    lemma_find_from(text, open, 0);
    lemma_find_from(text, close, start);
    let out = text.subrange(0, start) + value + text.subrange(e, text.len() as int);
    assert(out == xml_tag_edit(text, tag, value).unwrap());
    assert forall|m: int| 0 <= m < i implies !occurs_at(out, open, m) by {
        assert(!occurs_at(text, open, m));
        assert(m + open.len() <= start);
        if occurs_at(out, open, m) {
            assert(out.subrange(m, m + open.len()) =~= text.subrange(m, m + open.len()));
        }
    }
    assert(out.subrange(i, i + open.len()) =~= text.subrange(i, i + open.len()));
    lemma_find_from_at(out, open, 0, i);
    let w = start + value.len();
    assert forall|m: int| start <= m < w implies !occurs_at(out, close, m) by {
        if occurs_at(out, close, m) {
            assert(out.subrange(m, m + close.len())[0] == out[m]);
            assert(close[0] == '<');
            assert(out[m] == value[m - start]);
        }
    }
    assert(out.subrange(w, w + close.len()) =~= text.subrange(e, e + close.len()));
    lemma_find_from_at(out, close, start, w);
    assert(out.subrange(start, w) =~= value);
}

/// Joining one line before others.
proof fn lemma_join_lines_cons(a: Seq<char>, rest: Seq<Seq<char>>)
    ensures
        join_lines(seq![a] + rest) == if rest.len() == 0 {
            a
        } else {
            a + seq!['\n'] + join_lines(rest)
        },
    decreases rest.len(),
{
    let ls = seq![a] + rest;
    if rest.len() == 0 {
        assert(ls =~= seq![a]);
    } else if rest.len() == 1 {
        assert(ls.drop_last() =~= seq![a]);
        assert(ls.last() == rest[0]);
        assert(join_lines(rest) == rest[0]);
        assert(join_lines(seq![a]) == a);
        assert(join_lines(ls) == join_lines(ls.drop_last()) + seq!['\n'] + ls.last());
        assert(join_lines(ls) =~= a + seq!['\n'] + join_lines(rest));
    } else {
        assert(ls.drop_last() =~= seq![a] + rest.drop_last());
        lemma_join_lines_cons(a, rest.drop_last());
        assert(ls.last() == rest.last());
        assert(join_lines(ls) == join_lines(ls.drop_last()) + seq!['\n'] + ls.last());
        assert(join_lines(rest) == join_lines(rest.drop_last()) + seq!['\n'] + rest.last());
        assert(join_lines(ls) =~= a + seq!['\n'] + join_lines(rest));
    }
}

/// The lines from `i` on, joined, give the text from `i` on without its final newline.
proof fn lemma_join_lines_from(s: Seq<char>, i: int)
    requires
        0 <= i <= s.len(),
        forall|k: int| 0 <= k < s.len() ==> s[k] != '\r',
    ensures
        join_lines(lines_from(s, i)) == if s.len() > 0 && s.last() == '\n' && i < s.len() {
            s.subrange(i, s.len() - 1)
        } else {
            s.subrange(i, s.len() as int)
        },
    decreases s.len() - i,
{
    if i < s.len() {
        let e = next_newline(s, i);
        crate::text::lemma_next_newline(s, i);
        if e < s.len() {
            let head = s.subrange(i, e);
            assert(crate::text::strip_cr(head) == head) by {
                if head.len() > 0 {
                    assert(head.last() == s[e - 1]);
                }
            }
            lemma_join_lines_from(s, e + 1);
            lemma_join_lines_cons(head, lines_from(s, e + 1));
            if e + 1 < s.len() {
                assert(s.subrange(i, s.len() - 1) =~= head + seq!['\n'] + s.subrange(e + 1, s.len() - 1));
                assert(s.subrange(i, s.len() as int) =~= head + seq!['\n'] + s.subrange(e + 1, s.len() as int));
            }
        } else {
            assert(s.last() != '\n');
        }
    }
}

/// A text without carriage returns is given back by joining its lines again;
/// the edits rewrite a file that way, so a line left alone stays as it was
/// and the final newline is kept.
pub proof fn lemma_rejoin_lines(t: Seq<char>)
    requires
        forall|k: int| 0 <= k < t.len() ==> t[k] != '\r',
    ensures
        rejoin(lines(t), t) == t,
{
    lemma_join_lines_from(t, 0);
    if t.len() > 0 && t.last() == '\n' {
        assert(t.subrange(0, t.len() - 1) + seq!['\n'] =~= t);
    } else {
        assert(t.subrange(0, t.len() as int) =~= t);
    }
}

} // verus!

verus! {

/// The decimal notation holds only digits.
proof fn lemma_decimal_digits(n: nat)
    ensures
        forall|i: int| 0 <= i < decimal(n).len() ==> '0' <= #[trigger] decimal(n)[i] <= '9',
    decreases n,
{
    lemma_digit_char_range(n % 10);
    if n >= 10 {
        lemma_decimal_digits(n / 10);
        let a = decimal(n / 10);
        assert forall|i: int| 0 <= i < decimal(n).len() implies '0' <= #[trigger] decimal(n)[i] <= '9' by {
            if i < a.len() {
                assert(decimal(n)[i] == a[i]);
            } else {
                assert(decimal(n)[i] == crate::text::digit_char(n % 10));
            }
        }
    } else {
        assert(decimal(n) == seq![crate::text::digit_char(n)]);
    }
}

/// A decimal digit is between `0` and `9`.
proof fn lemma_digit_char_range(d: nat)
    ensures
        '0' <= crate::text::digit_char(d) <= '9',
{
}

/// The rewritten port line holds neither `l` nor `.`.
proof fn lemma_port_line_chars(l: Seq<char>, port: nat)
    ensures
        forall|i: int| 0 <= i < port_line(l, port).len() ==> #[trigger] port_line(l, port)[i] != 'l'
            && port_line(l, port)[i] != '.',
{
    crate::text::lemma_trim_start_suffix(l);
    lemma_decimal_digits(port);
    reveal_strlit("port: ");
    let ws = leading_ws(l);
    let pl = port_line(l, port);
    assert forall|i: int| 0 <= i < pl.len() implies #[trigger] pl[i] != 'l' && pl[i] != '.' by {
        if i < ws.len() {
            assert(pl[i] == l[i]);
            assert(crate::text::is_ws(l[i]));
        } else if i < ws.len() + 6 {
            assert(pl[i] == "port: "@[i - ws.len()]);
        } else {
            assert(pl[i] == decimal(port)[i - ws.len() - 6]);
        }
    }
}

/// Setting the server port writes the port line as `port: N` under its old
/// indentation, and leaves every other line that mentions neither
/// `localhost:48080` nor `127.0.0.1:48080` as it was.
pub proof fn lemma_server_port_lines(ls: Seq<Seq<char>>, p: int, port: u16, k: int)
    requires
        0 <= p < ls.len(),
        0 <= k < ls.len(),
    ensures
        server_port_lines(ls, p, port as nat)[p] == port_line(ls[p], port as nat),
        k != p && !crate::text::contains(ls[k], "localhost:48080"@) && !crate::text::contains(
            ls[k],
            "127.0.0.1:48080"@,
        ) ==> server_port_lines(ls, p, port as nat)[k] == ls[k],
{
    reveal_strlit("localhost:48080");
    reveal_strlit("127.0.0.1:48080");
    let pl = port_line(ls[p], port as nat);
    let local = "localhost:"@ + decimal(port as nat);
    let loopback = "127.0.0.1:"@ + decimal(port as nat);
    lemma_port_line_chars(ls[p], port as nat);
    crate::text::lemma_absent_char(pl, "localhost:48080"@, 0);
    crate::text::lemma_replace_all_absent(pl, "localhost:48080"@, local);
    crate::text::lemma_absent_char(pl, "127.0.0.1:48080"@, 3);
    crate::text::lemma_replace_all_absent(pl, "127.0.0.1:48080"@, loopback);
    if k != p && !crate::text::contains(ls[k], "localhost:48080"@) && !crate::text::contains(
        ls[k],
        "127.0.0.1:48080"@,
    ) {
        crate::text::lemma_replace_all_absent(ls[k], "localhost:48080"@, local);
        crate::text::lemma_replace_all_absent(ls[k], "127.0.0.1:48080"@, loopback);
    }
}

/// A rewritten port line holds no line break and is not empty.
proof fn lemma_port_line_plain(l: Seq<char>, port: nat)
    requires
        crate::text::plain_line(l),
    ensures
        crate::text::plain_line(port_line(l, port)),
        port_line(l, port).len() > 0,
{
    crate::text::lemma_trim_start_suffix(l);
    lemma_decimal_digits(port);
    reveal_strlit("port: ");
    let ws = leading_ws(l);
    let pl = port_line(l, port);
    assert forall|i: int| 0 <= i < pl.len() implies pl[i] != '\n' && pl[i] != '\r' by {
        if i < ws.len() {
            assert(pl[i] == l[i]);
        } else if i < ws.len() + 6 {
            assert(pl[i] == "port: "@[i - ws.len()]);
        } else {
            assert(pl[i] == decimal(port)[i - ws.len() - 6]);
        }
    }
}

/// Pointing the default addresses at another port keeps a line free of line
/// breaks, and a non-empty line non-empty.
proof fn lemma_retarget_plain(l: Seq<char>, port: nat)
    requires
        crate::text::plain_line(l),
    ensures
        crate::text::plain_line(retarget_default_port(l, port)),
        l.len() > 0 ==> retarget_default_port(l, port).len() > 0,
{
    lemma_decimal_digits(port);
    reveal_strlit("localhost:");
    reveal_strlit("127.0.0.1:");
    let local = "localhost:"@ + decimal(port);
    let loopback = "127.0.0.1:"@ + decimal(port);
    assert forall|i: int| 0 <= i < local.len() implies local[i] != '\n' && local[i] != '\r' by {
        if i >= 10 {
            assert(local[i] == decimal(port)[i - 10]);
        }
    }
    assert forall|i: int| 0 <= i < loopback.len() implies loopback[i] != '\n' && loopback[i] != '\r' by {
        if i >= 10 {
            assert(loopback[i] == decimal(port)[i - 10]);
        }
    }
    crate::text::lemma_replace_all_plain(l, "localhost:48080"@, local);
    let once = replace_all(l, "localhost:48080"@, local);
    crate::text::lemma_replace_all_plain(once, "127.0.0.1:48080"@, loopback);
}

/// The server port read back: for a text without carriage returns, the
/// lines of what `set_top_level_server_port` writes are exactly the edited
/// lines, so the port line of the result reads `port: N` and every line that
/// mentions neither default address is the line that was there before.
pub proof fn lemma_server_port_read_back(text: Seq<char>, p: int, port: u16)
    requires
        forall|k: int| 0 <= k < text.len() ==> text[k] != '\r',
        0 <= p < lines(text).len(),
    ensures
        lines(rejoin(server_port_lines(lines(text), p, port as nat), text)) == server_port_lines(
            lines(text),
            p,
            port as nat,
        ),
        lines(rejoin(server_port_lines(lines(text), p, port as nat), text))[p] == port_line(
            lines(text)[p],
            port as nat,
        ),
{
    let ls = lines(text);
    let out = server_port_lines(ls, p, port as nat);
    crate::text::lemma_lines_shape(text, 0);
    let updated = ls.update(p, port_line(ls[p], port as nat));
    lemma_port_line_plain(ls[p], port as nat);
    assert forall|k: int| 0 <= k < out.len() implies crate::text::plain_line(#[trigger] out[k]) by {
        assert(crate::text::plain_line(updated[k]));
        lemma_retarget_plain(updated[k], port as nat);
    }
    if !(text.len() > 0 && text.last() == '\n') {
        let last = ls.len() - 1;
        assert(updated[last].len() > 0);
        lemma_retarget_plain(updated[last], port as nat);
        assert(out.last() == retarget_default_port(updated[last], port as nat));
    }
    crate::text::lemma_lines_of_rejoin(out, text);
    lemma_server_port_lines(ls, p, port, p);
}

/// The Dockerfile port read back: for a text without carriage returns, the
/// edited Dockerfile has the same lines as before except the first `EXPOSE `
/// line, which now reads `EXPOSE N`.
pub proof fn lemma_docker_expose_read_back(text: Seq<char>, port: u16)
    requires
        forall|k: int| 0 <= k < text.len() ==> text[k] != '\r',
    ensures
        match first_trimmed_prefix_line(lines(text), "EXPOSE "@, 0) {
            None => docker_expose_edit(text, port as nat) is None,
            Some(e) => docker_expose_edit(text, port as nat) matches Some(t) && lines(t) == lines(
                text,
            ).update(e, "EXPOSE "@ + decimal(port as nat)),
        },
{
    let ls = lines(text);
    lemma_first_trimmed_prefix_line(ls, "EXPOSE "@, 0);
    match first_trimmed_prefix_line(ls, "EXPOSE "@, 0) {
        None => {},
        Some(e) => {
            reveal_strlit("EXPOSE ");
            lemma_decimal_digits(port as nat);
            let nl = "EXPOSE "@ + decimal(port as nat);
            assert forall|i: int| 0 <= i < nl.len() implies nl[i] != '\n' && nl[i] != '\r' by {
                if i >= 7 {
                    assert(nl[i] == decimal(port as nat)[i - 7]);
                }
            }
            crate::text::lemma_replaced_line_read_back(text, e, nl);
        },
    }
}

/// The tenant switch read back: for a text without carriage returns, the
/// edited YAML has the same lines as before except the `enable:` line, which
/// now reads `enable: true` or `enable: false` under its old indentation,
/// followed by the comment it carried.
pub proof fn lemma_tenant_read_back(text: Seq<char>, enabled: bool)
    requires
        forall|k: int| 0 <= k < text.len() ==> text[k] != '\r',
    ensures
        match tenant_edit(text, enabled) {
            Some(Some(t)) => exists|e: int|
                0 <= e < lines(text).len() && lines(t) == #[trigger] lines(text).update(
                    e,
                    enable_line(lines(text)[e], enabled),
                ),
            _ => true,
        },
{
    let ls = lines(text);
    match tenant_edit(text, enabled) {
        Some(Some(t)) => {
            let y = first_top_key_line(ls, "yudao:"@, 0)->0;
            let tl = find_tenant_line(ls, y + 1)->0;
            let e = find_enable_line(ls, tl + 1, leading_ws(ls[tl]).len())->0;
            lemma_find_enable_line(ls, tl + 1, leading_ws(ls[tl]).len());
            crate::text::lemma_lines_shape(text, 0);
            lemma_enable_line_plain(ls[e], enabled);
            crate::text::lemma_replaced_line_read_back(text, e, enable_line(ls[e], enabled));
            assert(lines(t) == ls.update(e, enable_line(ls[e], enabled)));
        },
        _ => {},
    }
}

/// The rewritten `enable:` line holds no line break and is not empty.
proof fn lemma_enable_line_plain(l: Seq<char>, enabled: bool)
    requires
        crate::text::plain_line(l),
    ensures
        crate::text::plain_line(enable_line(l, enabled)),
        enable_line(l, enabled).len() > 0,
{
    crate::text::lemma_trim_start_suffix(l);
    reveal_strlit("enable: ");
    reveal_strlit("true");
    reveal_strlit("false");
    reveal_strlit(" ");
    reveal_strlit("#");
    let ws = leading_ws(l);
    let head = ws + "enable: "@ + bool_text(enabled);
    let c = kept_comment(l);
    assert(crate::text::plain_line(c)) by {
        crate::text::lemma_find_from(l, "#"@, 0);
        match find(l, "#"@) {
            Some(i) => {
                let sub = l.subrange(i, l.len() as int);
                crate::text::lemma_trim_start_suffix(sub);
                let ts = trim_start(sub);
                assert forall|m: int| 0 <= m < c.len() implies c[m] != '\n' && c[m] != '\r' by {
                    if m >= 1 {
                        assert(c[m] == ts[m - 1]);
                        assert(ts[m - 1] == sub[sub.len() - ts.len() + m - 1]);
                    }
                }
            },
            None => {},
        }
    }
    let el = enable_line(l, enabled);
    assert forall|m: int| 0 <= m < el.len() implies el[m] != '\n' && el[m] != '\r' by {
        if m < ws.len() {
            assert(el[m] == l[m]);
        } else if m < ws.len() + 8 {
            assert(el[m] == "enable: "@[m - ws.len()]);
        } else if m < head.len() {
            assert(el[m] == bool_text(enabled)[m - ws.len() - 8]);
        } else {
            assert(el[m] == c[m - head.len()]);
        }
    }
}

/// Where `find_enable_line` can land.
proof fn lemma_find_enable_line(ls: Seq<Seq<char>>, j: int, indent: nat)
    ensures
        find_enable_line(ls, j, indent) matches Some(k) ==> 0 <= k < ls.len(),
    decreases ls.len() - j,
{
    if 0 <= j < ls.len() && in_deeper_block(ls[j], indent) && !starts_with(
        trim_start(ls[j]),
        "enable:"@,
    ) {
        lemma_find_enable_line(ls, j + 1, indent);
    }
}

} // verus!

verus! {

/// Whitespace before a text is dropped by `trim_start`.
proof fn lemma_trim_start_ws_prefix(a: Seq<char>, b: Seq<char>)
    requires
        forall|k: int| 0 <= k < a.len() ==> crate::text::is_ws(#[trigger] a[k]),
    ensures
        trim_start(a + b) == trim_start(b),
    decreases a.len(),
{
    if a.len() == 0 {
        assert(a + b =~= b);
    } else {
        assert((a + b)[0] == a[0]);
        assert((a + b).drop_first() =~= a.drop_first() + b);
        assert forall|k: int| 0 <= k < a.drop_first().len() implies crate::text::is_ws(
            #[trigger] a.drop_first()[k],
        ) by {
            assert(a.drop_first()[k] == a[k + 1]);
        }
        lemma_trim_start_ws_prefix(a.drop_first(), b);
    }
}

/// A text that starts with a character other than whitespace keeps it under `trim_end`.
proof fn lemma_trim_end_nonempty(s: Seq<char>)
    requires
        s.len() > 0,
        !crate::text::is_ws(s[0]),
    ensures
        crate::text::trim_end(s).len() > 0,
    decreases s.len(),
{
    if crate::text::is_ws(s.last()) {
        assert(s.len() > 1);
        assert(s.drop_last()[0] == s[0]);
        lemma_trim_end_nonempty(s.drop_last());
    }
}

/// `find(s, "#")` is the first `#` of `s`.
proof fn lemma_find_hash(s: Seq<char>, p: int)
    requires
        0 <= p < s.len(),
        s[p] == '#',
        forall|k: int| 0 <= k < p ==> s[k] != '#',
    ensures
        find(s, "#"@) == Some(p),
{
    reveal_strlit("#");
    assert forall|k: int| 0 <= k < p implies !occurs_at(s, "#"@, k) by {
        if occurs_at(s, "#"@, k) {
            assert(s.subrange(k, k + 1)[0] == s[k]);
        }
    }
    crate::text::lemma_find_from_skip(s, "#"@, 0, p);
    assert(s.subrange(p, p + 1) =~= "#"@);
}

/// A text without `#` has none to find.
proof fn lemma_find_hash_none(s: Seq<char>)
    requires
        forall|k: int| 0 <= k < s.len() ==> s[k] != '#',
    ensures
        find(s, "#"@) is None,
{
    reveal_strlit("#");
    lemma_find_from(s, "#"@, 0);
    if let Some(k) = find(s, "#"@) {
        assert(s.subrange(k, k + 1)[0] == s[k]);
    }
}

/// Rewriting an `enable:` line again with the same value gives it back, and
/// the rewritten line keeps the indentation and the `enable:` start.
proof fn lemma_enable_line_again(l: Seq<char>, enabled: bool, indent: nat)
    requires
        starts_with(trim_start(l), "enable:"@),
        in_deeper_block(l, indent),
    ensures
        leading_ws(enable_line(l, enabled)) == leading_ws(l),
        starts_with(trim_start(enable_line(l, enabled)), "enable:"@),
        in_deeper_block(enable_line(l, enabled), indent),
        enable_line(enable_line(l, enabled), enabled) == enable_line(l, enabled),
{
    reveal_strlit("enable:");
    reveal_strlit("enable: ");
    reveal_strlit("true");
    reveal_strlit("false");
    reveal_strlit(" ");
    reveal_strlit("#");
    crate::text::lemma_trim_start_suffix(l);
    let ts = trim_start(l);
    let ws = leading_ws(l);
    assert forall|k: int| 0 <= k < ws.len() implies crate::text::is_ws(#[trigger] ws[k]) by {
        assert(ws[k] == l[k]);
    }
    let en = "enable: "@;
    let b = bool_text(enabled);
    let c = kept_comment(l);
    let rest = en + b + c;
    let nl = enable_line(l, enabled);
    assert(nl =~= ws + rest);
    assert(rest[0] == 'e');
    assert(trim_start(rest) == rest);
    lemma_trim_start_ws_prefix(ws, rest);
    assert(trim_start(nl) == rest);
    assert(leading_ws(nl) =~= ws);
    assert(rest.subrange(0, 7) =~= "enable:"@);
    assert(ts[0] == 'e') by {
        assert(ts.subrange(0, 7)[0] == ts[0]);
    }
    if trim(l).len() == 0 {
        lemma_trim_end_nonempty(ts);
    }
    assert(in_deeper_block(nl, indent));
    let head = ws + en + b;
    assert forall|k: int| 0 <= k < head.len() implies head[k] != '#' by {
        if k < ws.len() {
            assert(head[k] == ws[k]);
        } else if k < ws.len() + 8 {
            assert(head[k] == en[k - ws.len()]);
        } else {
            assert(head[k] == b[k - ws.len() - 8]);
        }
    }
    assert(nl =~= head + c);
    lemma_find_from(l, "#"@, 0);
    match find(l, "#"@) {
        Some(i) => {
            assert(l.subrange(i, i + 1)[0] == l[i]);
            let sub = l.subrange(i, l.len() as int);
            assert(sub[0] == '#');
            assert(trim_start(sub) == sub);
            assert(c =~= " "@ + sub);
            let p = head.len() + 1int;
            assert(nl[p] == '#');
            assert forall|k: int| 0 <= k < p implies nl[k] != '#' by {
                if k < head.len() {
                    assert(nl[k] == head[k]);
                } else {
                    assert(nl[k] == c[0]);
                }
            }
            lemma_find_hash(nl, p);
            assert(nl.subrange(p, nl.len() as int) =~= sub);
            assert(kept_comment(nl) == c);
        },
        None => {
            assert(c.len() == 0);
            assert(nl =~= head);
            lemma_find_hash_none(nl);
            assert(kept_comment(nl) =~= c);
        },
    }
    assert(enable_line(nl, enabled) =~= nl);
}

/// The top-level line found in `ls` is found in `ls2` too when the lines up
/// to it are the same.
proof fn lemma_top_key_prefix(ls: Seq<Seq<char>>, ls2: Seq<Seq<char>>, key: Seq<char>, j: int, k: int)
    requires
        0 <= j,
        first_top_key_line(ls, key, j) == Some(k),
        ls2.len() == ls.len(),
        forall|m: int| j <= m <= k ==> ls2[m] == ls[m],
    ensures
        j <= k,
        first_top_key_line(ls2, key, j) == Some(k),
    decreases ls.len() - j,
{
    if j < ls.len() && !is_top_key_line(ls[j], key) {
        lemma_top_key_prefix(ls, ls2, key, j + 1, k);
        assert(ls2[j] == ls[j]);
    }
}

/// The `tenant:` line found in `ls` is found in `ls2` too when the lines up
/// to it are the same.
proof fn lemma_tenant_line_prefix(ls: Seq<Seq<char>>, ls2: Seq<Seq<char>>, j: int, k: int)
    requires
        0 <= j,
        find_tenant_line(ls, j) == Some(k),
        ls2.len() == ls.len(),
        forall|m: int| j <= m <= k ==> ls2[m] == ls[m],
    ensures
        j <= k < ls.len(),
        find_tenant_line(ls2, j) == Some(k),
    decreases ls.len() - j,
{
    if j < ls.len() && in_commented_block(ls[j]) && !starts_with(ls[j], "  tenant:"@) {
        lemma_tenant_line_prefix(ls, ls2, j + 1, k);
        assert(ls2[j] == ls[j]);
    }
}

/// The `enable:` line found in `ls`, its place and what makes it one.
proof fn lemma_enable_line_found(ls: Seq<Seq<char>>, j: int, indent: nat)
    requires
        0 <= j,
        find_enable_line(ls, j, indent) is Some,
    ensures
        ({
            let k = find_enable_line(ls, j, indent)->0;
            &&& j <= k < ls.len()
            &&& in_deeper_block(ls[k], indent)
            &&& starts_with(trim_start(ls[k]), "enable:"@)
        }),
    decreases ls.len() - j,
{
    if j < ls.len() && in_deeper_block(ls[j], indent) && !starts_with(trim_start(ls[j]), "enable:"@) {
        lemma_enable_line_found(ls, j + 1, indent);
    }
}

/// The `enable:` line found in `ls` is found in `ls2` too when the lines
/// before it are the same and the line in its place is an `enable:` line of
/// the block as well.
proof fn lemma_enable_line_prefix(ls: Seq<Seq<char>>, ls2: Seq<Seq<char>>, j: int, indent: nat, k: int)
    requires
        0 <= j <= k < ls.len(),
        find_enable_line(ls, j, indent) == Some(k),
        ls2.len() == ls.len(),
        forall|m: int| j <= m < k ==> ls2[m] == ls[m],
        in_deeper_block(ls2[k], indent),
        starts_with(trim_start(ls2[k]), "enable:"@),
    ensures
        find_enable_line(ls2, j, indent) == Some(k),
    decreases k - j,
{
    if j < k {
        assert(ls2[j] == ls[j]);
        if in_deeper_block(ls[j], indent) && starts_with(trim_start(ls[j]), "enable:"@) {
            assert(false);
        }
        lemma_enable_line_found(ls, j + 1, indent);
        lemma_enable_line_prefix(ls, ls2, j + 1, indent, k);
    }
}

/// Setting the tenant switch twice to the same value changes nothing the
/// second time: for a text without carriage returns, when the first call
/// edits the text, the second gives the edited text back unchanged.
pub proof fn lemma_tenant_idempotent(text: Seq<char>, enabled: bool)
    requires
        forall|k: int| 0 <= k < text.len() ==> text[k] != '\r',
        tenant_edit(text, enabled) matches Some(Some(t)),
    ensures
        tenant_edit(tenant_edit(text, enabled)->0->0, enabled) == tenant_edit(text, enabled),
{
    let ls = lines(text);
    let t = tenant_edit(text, enabled)->0->0;
    let y = first_top_key_line(ls, "yudao:"@, 0)->0;
    let tl = find_tenant_line(ls, y + 1)->0;
    let indent = leading_ws(ls[tl]).len();
    lemma_first_top_key_line(ls, "yudao:"@, 0);
    lemma_tenant_line_prefix(ls, ls, y + 1, tl);
    lemma_enable_line_found(ls, tl + 1, indent);
    let e = find_enable_line(ls, tl + 1, indent)->0;
    let nl = enable_line(ls[e], enabled);
    crate::text::lemma_lines_shape(text, 0);
    lemma_enable_line_plain(ls[e], enabled);
    crate::text::lemma_replaced_line_read_back(text, e, nl);
    let ls2 = ls.update(e, nl);
    assert(lines(t) == ls2);
    lemma_enable_line_again(ls[e], enabled, indent);
    lemma_top_key_prefix(ls, ls2, "yudao:"@, 0, y);
    lemma_tenant_line_prefix(ls, ls2, y + 1, tl);
    assert(ls2[tl] == ls[tl]);
    lemma_enable_line_prefix(ls, ls2, tl + 1, indent, e);
    assert(ls2.update(e, enable_line(ls2[e], enabled)) =~= ls2);
    let joined = join_lines(ls2);
    if text.len() > 0 && text.last() == '\n' {
        assert(t == joined + seq!['\n']);
        assert(t.last() == '\n');
    } else {
        assert(t == joined);
        assert(ls2.last().len() > 0) by {
            if e != ls.len() - 1 {
                assert(ls2.last() == ls.last());
            }
        }
        assert(crate::text::plain_line(ls2.last())) by {
            if e != ls.len() - 1 {
                assert(ls2.last() == ls.last());
            }
        }
        if ls2.len() == 1 {
            assert(joined == ls2[0]);
        } else {
            assert(joined == join_lines(ls2.drop_last()) + seq!['\n'] + ls2.last());
        }
        assert(joined.last() == ls2.last().last());
        assert(!(t.len() > 0 && t.last() == '\n'));
    }
    assert(rejoin(ls2, t) == t);
}

} // verus!
