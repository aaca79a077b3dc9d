//! Character-level text model and the string operations the scaffolder needs.
//!
//! Text is viewed as `Seq<char>`; the spec functions here state what the
//! usual `str` operations (`lines`, `trim`, `replace`, `find`, ...) compute,
//! and the executable functions are proved against them.
use vstd::prelude::*;

verus! {

// ---------------------------------------------------------------------------
// Specifications
// ---------------------------------------------------------------------------
/// Unicode `White_Space`, the set `char::is_whitespace` accepts.
pub open spec fn is_ws(c: char) -> bool {
    let u = c as u32;
    ||| 0x09 <= u <= 0x0D
    ||| u == 0x20
    ||| u == 0x85
    ||| u == 0xA0
    ||| u == 0x1680
    ||| 0x2000 <= u <= 0x200A
    ||| u == 0x2028
    ||| u == 0x2029
    ||| u == 0x202F
    ||| u == 0x205F
    ||| u == 0x3000
}

/// `s` begins with `p`.
pub open spec fn starts_with(s: Seq<char>, p: Seq<char>) -> bool {
    p.len() <= s.len() && s.subrange(0, p.len() as int) == p
}

/// `s` ends with `p`.
pub open spec fn ends_with(s: Seq<char>, p: Seq<char>) -> bool {
    p.len() <= s.len() && s.subrange(s.len() - p.len(), s.len() as int) == p
}

/// `p` occurs in `s` at position `i`.
pub open spec fn occurs_at(s: Seq<char>, p: Seq<char>, i: int) -> bool {
    0 <= i && i + p.len() <= s.len() && s.subrange(i, i + p.len()) == p
}

/// `p` occurs somewhere in `s`.
pub open spec fn contains(s: Seq<char>, p: Seq<char>) -> bool {
    exists|i: int| occurs_at(s, p, i)
}

/// The first position at or after `i` where `p` occurs (`str::find` from `i`).
pub open spec fn find_from(s: Seq<char>, p: Seq<char>, i: int) -> Option<int>
    decreases s.len() + 1 - i,
{
    if i < 0 || i + p.len() > s.len() {
        None
    } else if occurs_at(s, p, i) {
        Some(i)
    } else {
        find_from(s, p, i + 1)
    }
}

/// The first position where `p` occurs in `s` (`str::find`).
pub open spec fn find(s: Seq<char>, p: Seq<char>) -> Option<int> {
    find_from(s, p, 0)
}

/// `s` with its leading whitespace removed (`str::trim_start`).
pub open spec fn trim_start(s: Seq<char>) -> Seq<char>
    decreases s.len(),
{
    if s.len() > 0 && is_ws(s[0]) {
        trim_start(s.drop_first())
    } else {
        s
    }
}

/// `s` with its trailing whitespace removed (`str::trim_end`).
pub open spec fn trim_end(s: Seq<char>) -> Seq<char>
    decreases s.len(),
{
    if s.len() > 0 && is_ws(s.last()) {
        trim_end(s.drop_last())
    } else {
        s
    }
}

/// `s` without leading and trailing whitespace (`str::trim`).
pub open spec fn trim(s: Seq<char>) -> Seq<char> {
    trim_end(trim_start(s))
}

/// The leading whitespace of `s` (what `take_while(char::is_whitespace)` keeps).
pub open spec fn leading_ws(s: Seq<char>) -> Seq<char> {
    s.subrange(0, s.len() - trim_start(s).len())
}

/// `s` begins with a whitespace character.
pub open spec fn starts_with_ws(s: Seq<char>) -> bool {
    s.len() > 0 && is_ws(s[0])
}

/// Every non-overlapping occurrence of `p`, scanned from the left, replaced by
/// `r` (`str::replace` for a non-empty pattern).
pub open spec fn replace_all(s: Seq<char>, p: Seq<char>, r: Seq<char>) -> Seq<char>
    decreases s.len(),
{
    if s.len() == 0 || p.len() == 0 {
        s
    } else if starts_with(s, p) {
        r + replace_all(s.subrange(p.len() as int, s.len() as int), p, r)
    } else {
        seq![s[0]] + replace_all(s.drop_first(), p, r)
    }
}

/// Every occurrence of the character `c` replaced by `r` (`str::replace` with a `char`).
pub open spec fn replace_char(s: Seq<char>, c: char, r: Seq<char>) -> Seq<char>
    decreases s.len(),
{
    if s.len() == 0 {
        s
    } else if s[0] == c {
        r + replace_char(s.drop_first(), c, r)
    } else {
        seq![s[0]] + replace_char(s.drop_first(), c, r)
    }
}

/// The index of the first `'\n'` at or after `i`, or `s.len()` when there is none.
pub open spec fn next_newline(s: Seq<char>, i: int) -> int
    decreases s.len() - i,
{
    if i < 0 || i >= s.len() {
        s.len() as int
    } else if s[i] == '\n' {
        i
    } else {
        next_newline(s, i + 1)
    }
}

/// `l` without one trailing `'\r'`.
pub open spec fn strip_cr(l: Seq<char>) -> Seq<char> {
    if l.len() > 0 && l.last() == '\r' {
        l.drop_last()
    } else {
        l
    }
}

/// The lines of `s` that start at or after `i` (see `lines`).
pub open spec fn lines_from(s: Seq<char>, i: int) -> Seq<Seq<char>>
    decreases s.len() - i,
{
    if i < 0 || i >= s.len() {
        seq![]
    } else {
        let e = next_newline(s, i);
        proof {
            lemma_next_newline(s, i);
        }
        if e >= s.len() {
            seq![s.subrange(i, s.len() as int)]
        } else {
            seq![strip_cr(s.subrange(i, e))] + lines_from(s, e + 1)
        }
    }
}

/// The lines of `s` as `str::lines` yields them: split at `'\n'`, a `'\r'`
/// before the `'\n'` dropped, and no empty line after a final `'\n'`.
pub open spec fn lines(s: Seq<char>) -> Seq<Seq<char>> {
    lines_from(s, 0)
}

/// The lines joined with `'\n'` between them (`[..].join("\n")`).
pub open spec fn join_lines(ls: Seq<Seq<char>>) -> Seq<char>
    decreases ls.len(),
{
    if ls.len() == 0 {
        seq![]
    } else if ls.len() == 1 {
        ls[0]
    } else {
        join_lines(ls.drop_last()) + seq!['\n'] + ls.last()
    }
}

/// `ls` joined, followed by a `'\n'` exactly when `original` ends with one.
pub open spec fn rejoin(ls: Seq<Seq<char>>, original: Seq<char>) -> Seq<char> {
    if original.len() > 0 && original.last() == '\n' {
        join_lines(ls) + seq!['\n']
    } else {
        join_lines(ls)
    }
}

/// The views of a vector of strings.
pub open spec fn views(v: Seq<String>) -> Seq<Seq<char>> {
    v.map_values(|l: String| l@)
}

/// The decimal digit `d`.
pub open spec fn digit_char(d: nat) -> char {
    if d == 0 {
        '0'
    } else if d == 1 {
        '1'
    } else if d == 2 {
        '2'
    } else if d == 3 {
        '3'
    } else if d == 4 {
        '4'
    } else if d == 5 {
        '5'
    } else if d == 6 {
        '6'
    } else if d == 7 {
        '7'
    } else if d == 8 {
        '8'
    } else {
        '9'
    }
}

/// The decimal notation of `n`, as `format!("{n}")` writes it.
pub open spec fn decimal(n: nat) -> Seq<char>
    decreases n,
{
    if n < 10 {
        seq![digit_char(n)]
    } else {
        decimal(n / 10) + seq![digit_char(n % 10)]
    }
}

/// `s` with every ASCII upper-case letter lowered (`str::to_ascii_lowercase`).
pub open spec fn ascii_lower(s: Seq<char>) -> Seq<char> {
    Seq::new(s.len(), |i: int| lower_char(s[i]))
}

/// One character lowered as `char::to_ascii_lowercase` does.
pub open spec fn lower_char(c: char) -> char {
    if 'A' <= c <= 'Z' {
        ((c as u32) + 32) as char
    } else {
        c
    }
}

// ---------------------------------------------------------------------------
// Lemmas
// ---------------------------------------------------------------------------
/// Where the next newline after `i` lies.
pub proof fn lemma_next_newline(s: Seq<char>, i: int)
    requires
        0 <= i <= s.len(),
    ensures
        i <= next_newline(s, i) <= s.len(),
        next_newline(s, i) < s.len() ==> s[next_newline(s, i)] == '\n',
        forall|k: int| i <= k < next_newline(s, i) ==> s[k] != '\n',
    decreases s.len() - i,
{
    if i < s.len() && s[i] != '\n' {
        lemma_next_newline(s, i + 1);
    }
}

/// Skipping characters that are not newlines does not move the next newline.
pub proof fn lemma_next_newline_skip(s: Seq<char>, j: int, i: int)
    requires
        0 <= j <= i <= s.len(),
        forall|k: int| j <= k < i ==> s[k] != '\n',
    ensures
        next_newline(s, j) == next_newline(s, i),
    decreases i - j,
{
    if j < i {
        lemma_next_newline_skip(s, j + 1, i);
    }
}

/// Skipping positions where `p` does not occur does not move `find_from`.
pub proof fn lemma_find_from_skip(s: Seq<char>, p: Seq<char>, j: int, i: int)
    requires
        0 <= j <= i,
        forall|k: int| j <= k < i ==> !occurs_at(s, p, k),
    ensures
        find_from(s, p, j) == find_from(s, p, i),
    decreases i - j,
{
    if j < i {
        lemma_find_from_skip(s, p, j + 1, i);
    }
}

/// What `find_from` returns: the least match position at or after `i`.
pub proof fn lemma_find_from(s: Seq<char>, p: Seq<char>, i: int)
    requires
        0 <= i,
    ensures
        match find_from(s, p, i) {
            Some(k) => {
                &&& i <= k
                &&& occurs_at(s, p, k)
                &&& forall|m: int| i <= m < k ==> !occurs_at(s, p, m)
            },
            None => forall|m: int| i <= m ==> !occurs_at(s, p, m),
        },
    decreases s.len() + 1 - i,
{
    if i + p.len() <= s.len() && !occurs_at(s, p, i) {
        lemma_find_from(s, p, i + 1);
    }
}

/// Trimming the start of a suffix that begins with a whitespace character.
pub proof fn lemma_trim_start_step(s: Seq<char>, i: int)
    requires
        0 <= i < s.len(),
        is_ws(s[i]),
    ensures
        trim_start(s.subrange(i, s.len() as int)) == trim_start(s.subrange(i + 1, s.len() as int)),
{
    assert(s.subrange(i, s.len() as int).drop_first() =~= s.subrange(i + 1, s.len() as int));
}

/// `trim_start` yields a suffix of its argument.
pub proof fn lemma_trim_start_suffix(s: Seq<char>)
    ensures
        trim_start(s).len() <= s.len(),
        trim_start(s) == s.subrange(s.len() - trim_start(s).len(), s.len() as int),
        forall|k: int| 0 <= k < s.len() - trim_start(s).len() ==> is_ws(#[trigger] s[k]),
        trim_start(s).len() > 0 ==> !is_ws(trim_start(s)[0]),
    decreases s.len(),
{
    if s.len() > 0 && is_ws(s[0]) {
        lemma_trim_start_suffix(s.drop_first());
        let t = trim_start(s.drop_first());
        assert(s.drop_first().subrange(s.drop_first().len() - t.len(), s.drop_first().len() as int)
            =~= s.subrange(s.len() - t.len(), s.len() as int));
        assert forall|k: int| 0 <= k < s.len() - t.len() implies is_ws(#[trigger] s[k]) by {
            if k > 0 {
                assert(s[k] == s.drop_first()[k - 1]);
            }
        }
    } else {
        assert(s.subrange(0, s.len() as int) =~= s);
    }
}

// ---------------------------------------------------------------------------
// Executable operations
// ---------------------------------------------------------------------------
/// `String::push`: appends one character. The contract claims what the
/// standard library documents: the string's characters are the old ones
/// followed by `c`.
#[verifier::external_body]
pub(crate) fn push_char(s: &mut String, c: char)
    ensures
        final(s)@ == old(s)@.push(c),
{
    s.push(c);
}

/// Appends `t` to `s`.
pub fn push_str(s: &mut String, t: &str)
    ensures
        final(s)@ == old(s)@ + t@,
{
    let cs = chars_of(t);
    push_chars(s, &cs, 0, cs.len());
}

/// Appends `cs[from..to]` to `s`.
pub fn push_chars(s: &mut String, cs: &Vec<char>, from: usize, to: usize)
    requires
        from <= to <= cs.len(),
    ensures
        final(s)@ == old(s)@ + cs@.subrange(from as int, to as int),
{
    let ghost start = s@;
    let mut i = from;
    while i < to
        invariant
            from <= i <= to <= cs.len(),
            s@ == start + cs@.subrange(from as int, i as int),
        decreases to - i,
    {
        push_char(s, cs[i]);
        assert(cs@.subrange(from as int, i + 1) =~= cs@.subrange(from as int, i as int).push(
            cs@[i as int],
        ));
        i += 1;
    }
}

/// The characters of `s`, in order.
pub fn chars_of(s: &str) -> (v: Vec<char>)
    ensures
        v@ == s@,
{
    let mut v: Vec<char> = Vec::new();
    for c in it: s.chars()
        invariant
            v@ == it.seq().take(it.index()),
            it.seq() == s@,
    {
        v.push(c);
    }
    v
}

/// The string made of the characters `cs[from..to]`.
pub fn string_from_chars(cs: &Vec<char>, from: usize, to: usize) -> (s: String)
    requires
        from <= to <= cs.len(),
    ensures
        s@ == cs@.subrange(from as int, to as int),
{
    let mut s = String::new();
    push_chars(&mut s, cs, from, to);
    s
}

/// A copy of `s`.
pub fn copy_str(s: &str) -> (r: String)
    ensures
        r@ == s@,
{
    let mut r = String::new();
    push_str(&mut r, s);
    r
}

/// Whether two strings hold the same characters.
pub fn str_eq(a: &str, b: &str) -> (r: bool)
    ensures
        r == (a@ == b@),
{
    let ac = chars_of(a);
    let bc = chars_of(b);
    if ac.len() != bc.len() {
        return false;
    }
    let mut i: usize = 0;
    while i < ac.len()
        invariant
            ac@ == a@,
            bc@ == b@,
            ac.len() == bc.len(),
            i <= ac.len(),
            forall|k: int| 0 <= k < i ==> ac@[k] == bc@[k],
        decreases ac.len() - i,
    {
        if ac[i] != bc[i] {
            return false;
        }
        i += 1;
    }
    assert(ac@ =~= bc@);
    true
}

/// `char::is_whitespace`.
pub fn is_whitespace(c: char) -> (r: bool)
    ensures
        r == is_ws(c),
{
    let u = c as u32;
    (0x09 <= u && u <= 0x0D) || u == 0x20 || u == 0x85 || u == 0xA0 || u == 0x1680 || (0x2000
        <= u && u <= 0x200A) || u == 0x2028 || u == 0x2029 || u == 0x202F || u == 0x205F || u
        == 0x3000
}

/// Whether `p` occurs in `cs` at position `i`.
pub fn matches_at(cs: &Vec<char>, i: usize, p: &Vec<char>) -> (r: bool)
    ensures
        r == occurs_at(cs@, p@, i as int),
{
    if i > cs.len() || p.len() > cs.len() - i {
        return false;
    }
    let mut k: usize = 0;
    while k < p.len()
        invariant
            i + p.len() <= cs.len(),
            k <= p.len(),
            forall|m: int| 0 <= m < k ==> cs@[i + m] == p@[m],
        decreases p.len() - k,
    {
        if cs[i + k] != p[k] {
            assert(cs@.subrange(i as int, i + p.len())[k as int] != p@[k as int]);
            return false;
        }
        k += 1;
    }
    assert(cs@.subrange(i as int, i + p.len()) =~= p@);
    true
}

/// `str::starts_with` on character vectors.
pub fn vec_starts_with(cs: &Vec<char>, p: &Vec<char>) -> (r: bool)
    ensures
        r == starts_with(cs@, p@),
{
    matches_at(cs, 0, p)
}

/// `str::ends_with` on character vectors.
pub fn vec_ends_with(cs: &Vec<char>, p: &Vec<char>) -> (r: bool)
    ensures
        r == ends_with(cs@, p@),
{
    if p.len() > cs.len() {
        return false;
    }
    matches_at(cs, cs.len() - p.len(), p)
}

/// `str::ends_with`.
pub fn text_ends_with(s: &str, p: &str) -> (r: bool)
    ensures
        r == ends_with(s@, p@),
{
    vec_ends_with(&chars_of(s), &chars_of(p))
}

/// The first position at or after `from` where `p` occurs in `cs`.
pub fn vec_find_from(cs: &Vec<char>, p: &Vec<char>, from: usize) -> (r: Option<usize>)
    ensures
        r matches Some(k) ==> find_from(cs@, p@, from as int) == Some(k as int),
        r is None ==> find_from(cs@, p@, from as int) is None,
{
    let mut i = from;
    while i <= cs.len() && p.len() <= cs.len() - i
        invariant
            from <= i,
            find_from(cs@, p@, from as int) == find_from(cs@, p@, i as int),
        decreases cs.len() + 1 - i,
    {
        if matches_at(cs, i, p) {
            return Some(i);
        }
        assert(p@.len() > 0) by {
            if p@.len() == 0 {
                assert(cs@.subrange(i as int, i as int) =~= p@);
            }
        }
        i += 1;
    }
    None
}

/// `str::find`.
pub fn text_find(s: &str, p: &str) -> (r: Option<usize>)
    ensures
        r matches Some(k) ==> find(s@, p@) == Some(k as int),
        r is None ==> find(s@, p@) is None,
{
    vec_find_from(&chars_of(s), &chars_of(p), 0)
}

/// `str::contains`.
pub fn text_contains(s: &str, p: &str) -> (r: bool)
    ensures
        r == contains(s@, p@),
{
    let res = text_find(s, p);
    proof {
        lemma_find_from(s@, p@, 0);
    }
    res.is_some()
}

/// The bounds of `trim(cs[lo..hi])` within `cs`.
pub fn trim_bounds(cs: &Vec<char>, lo: usize, hi: usize) -> (r: (usize, usize))
    requires
        lo <= hi <= cs.len(),
    ensures
        lo <= r.0 <= r.1 <= hi,
        cs@.subrange(r.0 as int, r.1 as int) == trim(cs@.subrange(lo as int, hi as int)),
        cs@.subrange(r.0 as int, hi as int) == trim_start(cs@.subrange(lo as int, hi as int)),
{
    let mut i = lo;
    while i < hi && is_whitespace(cs[i])
        invariant
            lo <= i <= hi <= cs.len(),
            trim_start(cs@.subrange(lo as int, hi as int)) == trim_start(
                cs@.subrange(i as int, hi as int),
            ),
        decreases hi - i,
    {
        proof {
            lemma_trim_start_step(cs@.subrange(0, hi as int), i as int);
            assert(cs@.subrange(0, hi as int).subrange(i as int, hi as int) =~= cs@.subrange(
                i as int,
                hi as int,
            ));
            assert(cs@.subrange(0, hi as int).subrange(i + 1, hi as int) =~= cs@.subrange(
                i + 1,
                hi as int,
            ));
        }
        i += 1;
    }
    assert(trim_start(cs@.subrange(i as int, hi as int)) == cs@.subrange(i as int, hi as int));
    let mut j = hi;
    while j > i && is_whitespace(cs[j - 1])
        invariant
            i <= j <= hi <= cs.len(),
            trim_end(cs@.subrange(i as int, hi as int)) == trim_end(
                cs@.subrange(i as int, j as int),
            ),
        decreases j - i,
    {
        assert(cs@.subrange(i as int, j as int).drop_last() =~= cs@.subrange(i as int, j - 1));
        j -= 1;
    }
    (i, j)
}

/// `str::replace` with a non-empty pattern.
pub fn replace_all_exec(s: &str, p: &str, r: &str) -> (out: String)
    requires
        p@.len() > 0,
    ensures
        out@ == replace_all(s@, p@, r@),
{
    let cs = chars_of(s);
    let ps = chars_of(p);
    let rs = chars_of(r);
    let mut out = String::new();
    let mut i: usize = 0;
    assert(cs@.subrange(0, cs@.len() as int) =~= cs@);
    while i < cs.len()
        invariant
            cs@ == s@,
            ps@ == p@,
            rs@ == r@,
            ps@.len() > 0,
            i <= cs.len(),
            replace_all(s@, p@, r@) == out@ + replace_all(cs@.subrange(i as int, cs@.len() as int), p@, r@),
        decreases cs.len() - i,
    {
        let ghost rest = cs@.subrange(i as int, cs@.len() as int);
        if matches_at(&cs, i, &ps) {
            assert(starts_with(rest, p@)) by {
                assert(rest.subrange(0, p@.len() as int) =~= cs@.subrange(i as int, i + p@.len()));
            }
            assert(rest.subrange(p@.len() as int, rest.len() as int) =~= cs@.subrange(
                i + ps.len(),
                cs@.len() as int,
            ));
            push_chars(&mut out, &rs, 0, rs.len());
            assert(rs@.subrange(0, rs@.len() as int) =~= rs@);
            i += ps.len();
        } else {
            assert(!starts_with(rest, p@)) by {
                if starts_with(rest, p@) {
                    assert(rest.subrange(0, p@.len() as int) =~= cs@.subrange(
                        i as int,
                        i + p@.len(),
                    ));
                }
            }
            assert(rest.drop_first() =~= cs@.subrange(i + 1, cs@.len() as int));
            push_char(&mut out, cs[i]);
            i += 1;
        }
    }
    out
}

/// `str::replace` with a `char` pattern.
pub fn replace_char_exec(s: &str, c: char, r: &str) -> (out: String)
    ensures
        out@ == replace_char(s@, c, r@),
{
    let cs = chars_of(s);
    let rs = chars_of(r);
    let mut out = String::new();
    let mut i: usize = 0;
    assert(cs@.subrange(0, cs@.len() as int) =~= cs@);
    while i < cs.len()
        invariant
            cs@ == s@,
            rs@ == r@,
            i <= cs.len(),
            replace_char(s@, c, r@) == out@ + replace_char(cs@.subrange(i as int, cs@.len() as int), c, r@),
        decreases cs.len() - i,
    {
        let ghost rest = cs@.subrange(i as int, cs@.len() as int);
        assert(rest.drop_first() =~= cs@.subrange(i + 1, cs@.len() as int));
        if cs[i] == c {
            push_chars(&mut out, &rs, 0, rs.len());
            assert(rs@.subrange(0, rs@.len() as int) =~= rs@);
        } else {
            push_char(&mut out, cs[i]);
        }
        i += 1;
    }
    assert(cs@.subrange(cs@.len() as int, cs@.len() as int) =~= Seq::<char>::empty());
    out
}

/// `str::to_ascii_lowercase`.
pub fn ascii_lower_exec(s: &str) -> (out: String)
    ensures
        out@ == ascii_lower(s@),
{
    let cs = chars_of(s);
    let mut out = String::new();
    let mut i: usize = 0;
    while i < cs.len()
        invariant
            cs@ == s@,
            i <= cs.len(),
            out@ == ascii_lower(s@).subrange(0, i as int),
        decreases cs.len() - i,
    {
        let c = cs[i];
        let l = if 'A' <= c && c <= 'Z' {
            ((c as u8) + 32) as char
        } else {
            c
        };
        push_char(&mut out, l);
        assert(ascii_lower(s@).subrange(0, i + 1) =~= ascii_lower(s@).subrange(0, i as int).push(
            l,
        ));
        i += 1;
    }
    assert(ascii_lower(s@).subrange(0, cs.len() as int) =~= ascii_lower(s@));
    out
}

/// The lines of `s`, as `str::lines` yields them.
pub fn split_lines(s: &str) -> (out: Vec<String>)
    ensures
        views(out@) == lines(s@),
{
    let cs = chars_of(s);
    let mut out: Vec<String> = Vec::new();
    let mut start: usize = 0;
    let mut i: usize = 0;
    while i < cs.len()
        invariant
            cs@ == s@,
            start <= i <= cs.len(),
            lines(s@) == views(out@) + lines_from(s@, start as int),
            forall|k: int| start <= k < i ==> s@[k] != '\n',
        decreases cs.len() - i,
    {
        if cs[i] == '\n' {
            proof {
                lemma_next_newline_skip(s@, start as int, i as int);
            }
            let end = if i > start && cs[i - 1] == '\r' {
                i - 1
            } else {
                i
            };
            let line = string_from_chars(&cs, start, end);
            assert(line@ == strip_cr(s@.subrange(start as int, i as int)));
            let ghost old_out = out@;
            out.push(line);
            assert(views(out@) =~= views(old_out).push(line@));
            assert(lines_from(s@, start as int) =~= seq![line@] + lines_from(s@, i + 1));
            start = i + 1;
        }
        i += 1;
    }
    proof {
        lemma_next_newline_skip(s@, start as int, cs.len() as int);
    }
    if start < cs.len() {
        let line = string_from_chars(&cs, start, cs.len());
        let ghost old_out = out@;
        out.push(line);
        assert(views(out@) =~= views(old_out).push(line@));
    }
    assert(views(out@) =~= lines(s@));
    out
}

/// The lines joined with `'\n'`, followed by a `'\n'` exactly when `original`
/// ends with one.
pub fn rejoin_lines(ls: &Vec<String>, original: &str) -> (out: String)
    ensures
        out@ == rejoin(views(ls@), original@),
{
    let mut out = String::new();
    let mut i: usize = 0;
    while i < ls.len()
        invariant
            i <= ls.len(),
            out@ == join_lines(views(ls@).take(i as int)),
        decreases ls.len() - i,
    {
        if i > 0 {
            push_char(&mut out, '\n');
        }
        let line: &String = &ls[i];
        push_str(&mut out, line.as_str());
        assert(views(ls@).take(i + 1).drop_last() =~= views(ls@).take(i as int));
        i += 1;
    }
    assert(views(ls@).take(ls.len() as int) =~= views(ls@));
    let oc = chars_of(original);
    if oc.len() > 0 && oc[oc.len() - 1] == '\n' {
        push_char(&mut out, '\n');
    }
    out
}

/// One decimal digit.
pub fn digit(d: u64) -> (c: char)
    requires
        d < 10,
    ensures
        c == digit_char(d as nat),
{
    if d == 0 {
        '0'
    } else if d == 1 {
        '1'
    } else if d == 2 {
        '2'
    } else if d == 3 {
        '3'
    } else if d == 4 {
        '4'
    } else if d == 5 {
        '5'
    } else if d == 6 {
        '6'
    } else if d == 7 {
        '7'
    } else if d == 8 {
        '8'
    } else {
        '9'
    }
}

/// Appends the decimal notation of `n` to `s`.
pub fn push_decimal(s: &mut String, n: u64)
    ensures
        final(s)@ == old(s)@ + decimal(n as nat),
    decreases n,
{
    if n < 10 {
        push_char(s, digit(n));
    } else {
        push_decimal(s, n / 10);
        push_char(s, digit(n % 10));
    }
}

/// The decimal notation of `n`.
pub fn decimal_string(n: u64) -> (s: String)
    ensures
        s@ == decimal(n as nat),
{
    let mut s = String::new();
    push_decimal(&mut s, n);
    s
}

} // verus!

verus! {

/// Replacing a pattern that does not occur leaves the text as it was.
pub proof fn lemma_replace_all_absent(s: Seq<char>, p: Seq<char>, r: Seq<char>)
    requires
        !contains(s, p),
    ensures
        replace_all(s, p, r) == s,
    decreases s.len(),
{
    if s.len() > 0 && p.len() > 0 {
        if starts_with(s, p) {
            assert(occurs_at(s, p, 0));
        }
        assert forall|i: int| !occurs_at(s.drop_first(), p, i) by {
            if occurs_at(s.drop_first(), p, i) {
                assert(s.subrange(i + 1, i + 1 + p.len()) =~= s.drop_first().subrange(i, i + p.len()));
                assert(occurs_at(s, p, i + 1));
            }
        }
        lemma_replace_all_absent(s.drop_first(), p, r);
        assert(seq![s[0]] + s.drop_first() =~= s);
    }
}

/// A pattern with a character that the text lacks does not occur in it.
pub proof fn lemma_absent_char(s: Seq<char>, p: Seq<char>, j: int)
    requires
        0 <= j < p.len(),
        forall|i: int| 0 <= i < s.len() ==> s[i] != p[j],
    ensures
        !contains(s, p),
{
    assert forall|i: int| !occurs_at(s, p, i) by {
        if occurs_at(s, p, i) {
            assert(s.subrange(i, i + p.len())[j] == s[i + j]);
        }
    }
}

} // verus!

verus! {

/// A line holds no line break characters.
pub open spec fn plain_line(l: Seq<char>) -> bool {
    forall|i: int| 0 <= i < l.len() ==> l[i] != '\n' && l[i] != '\r'
}

/// The next newline of a text after a prefix is the next newline of the rest, shifted.
pub proof fn lemma_next_newline_shift(p: Seq<char>, y: Seq<char>, j: int)
    requires
        0 <= j <= y.len(),
    ensures
        next_newline(p + y, p.len() + j) == p.len() + next_newline(y, j),
    decreases y.len() - j,
{
    if j < y.len() {
        assert((p + y)[p.len() + j] == y[j]);
        if y[j] != '\n' {
            lemma_next_newline_shift(p, y, j + 1);
        }
    }
}

/// The lines of a text after a prefix are the lines of the rest.
pub proof fn lemma_lines_from_shift(p: Seq<char>, y: Seq<char>, j: int)
    requires
        0 <= j <= y.len(),
    ensures
        lines_from(p + y, p.len() + j) == lines_from(y, j),
    decreases y.len() - j,
{
    let s = p + y;
    if j < y.len() {
        lemma_next_newline_shift(p, y, j);
        lemma_next_newline(y, j);
        let e = next_newline(y, j);
        if e >= y.len() {
            assert(s.subrange(p.len() + j, s.len() as int) =~= y.subrange(j, y.len() as int));
        } else {
            assert(s.subrange(p.len() + j, p.len() + e) =~= y.subrange(j, e));
            lemma_lines_from_shift(p, y, e + 1);
        }
    }
}

/// Joining one line before others.
pub proof fn lemma_join_cons(a: Seq<char>, rest: Seq<Seq<char>>)
    ensures
        join_lines(seq![a] + rest) == if rest.len() == 0 {
            a
        } else {
            a + seq!['\n'] + join_lines(rest)
        },
    decreases rest.len(),
{
    let ls = seq![a] + rest;
    if rest.len() == 0 {
        assert(ls =~= seq![a]);
    } else if rest.len() == 1 {
        assert(ls.drop_last() =~= seq![a]);
        assert(join_lines(seq![a]) == a);
        assert(join_lines(ls) == join_lines(ls.drop_last()) + seq!['\n'] + ls.last());
        assert(join_lines(ls) =~= a + seq!['\n'] + join_lines(rest));
    } else {
        assert(ls.drop_last() =~= seq![a] + rest.drop_last());
        lemma_join_cons(a, rest.drop_last());
        assert(join_lines(ls) == join_lines(ls.drop_last()) + seq!['\n'] + ls.last());
        assert(join_lines(rest) == join_lines(rest.drop_last()) + seq!['\n'] + rest.last());
        assert(join_lines(ls) =~= a + seq!['\n'] + join_lines(rest));
    }
}

/// The lines of joined plain lines, with or without a final newline.
proof fn lemma_lines_of_join(ls: Seq<Seq<char>>, nl: bool)
    requires
        ls.len() > 0,
        forall|k: int| 0 <= k < ls.len() ==> plain_line(#[trigger] ls[k]),
        nl || ls.last().len() > 0,
    ensures
        lines(join_lines(ls) + if nl {
            seq!['\n']
        } else {
            Seq::<char>::empty()
        }) == ls,
    decreases ls.len(),
{
    let tail = if nl {
        seq!['\n']
    } else {
        Seq::<char>::empty()
    };
    let a = ls[0];
    let rest = ls.subrange(1, ls.len() as int);
    assert(ls =~= seq![a] + rest);
    lemma_join_cons(a, rest);
    assert(plain_line(a));
    if rest.len() == 0 {
        let s = a + tail;
        assert(forall|k: int| 0 <= k < a.len() ==> s[k] == a[k]);
        lemma_next_newline_skip(s, 0, a.len() as int);
        lemma_next_newline(s, a.len() as int);
        if nl {
            assert(s.subrange(0, a.len() as int) =~= a);
            assert(lines_from(s, (a.len() + 1) as int) == Seq::<Seq<char>>::empty());
            assert(lines(s) =~= seq![a]);
        } else {
            assert(s =~= a);
            assert(s.subrange(0, s.len() as int) =~= a);
            assert(lines(s) =~= seq![a]);
        }
        assert(ls =~= seq![a]);
    } else {
        assert(rest.last() == ls.last());
        assert forall|k: int| 0 <= k < rest.len() implies plain_line(#[trigger] rest[k]) by {
            assert(rest[k] == ls[k + 1]);
        }
        lemma_lines_of_join(rest, nl);
        let y = join_lines(rest) + tail;
        let p = a + seq!['\n'];
        let s = p + y;
        assert(join_lines(ls) + tail =~= s);
        assert(forall|k: int| 0 <= k < a.len() ==> s[k] == a[k]);
        lemma_next_newline_skip(s, 0, a.len() as int);
        assert(s[a.len() as int] == '\n');
        assert(s.subrange(0, a.len() as int) =~= a);
        lemma_lines_from_shift(p, y, 0);
        assert(lines(s) =~= seq![a] + lines(y));
    }
}

/// Rejoined plain lines read back as the same lines, provided a final empty
/// line is followed by the kept final newline.
pub proof fn lemma_lines_of_rejoin(ls: Seq<Seq<char>>, original: Seq<char>)
    requires
        ls.len() > 0,
        forall|k: int| 0 <= k < ls.len() ==> plain_line(#[trigger] ls[k]),
        (original.len() > 0 && original.last() == '\n') || ls.last().len() > 0,
    ensures
        lines(rejoin(ls, original)) == ls,
{
    let nl = original.len() > 0 && original.last() == '\n';
    lemma_lines_of_join(ls, nl);
    if !nl {
        assert(join_lines(ls) + Seq::<char>::empty() =~= join_lines(ls));
    }
}

/// The lines of a text hold no newline, and none of them ends a text that
/// lacks a final newline empty.
pub proof fn lemma_lines_shape(s: Seq<char>, i: int)
    requires
        0 <= i <= s.len(),
        forall|k: int| 0 <= k < s.len() ==> s[k] != '\r',
    ensures
        forall|k: int| 0 <= k < lines_from(s, i).len() ==> plain_line(#[trigger] lines_from(s, i)[k]),
        lines_from(s, i).len() > 0 && !(s.len() > 0 && s.last() == '\n') ==> lines_from(s, i).last().len() > 0,
    decreases s.len() - i,
{
    if i < s.len() {
        let e = next_newline(s, i);
        lemma_next_newline(s, i);
        if e < s.len() {
            lemma_lines_shape(s, e + 1);
            let head = s.subrange(i, e);
            assert(strip_cr(head) == head) by {
                if head.len() > 0 {
                    assert(head.last() == s[e - 1]);
                }
            }
            let rest = lines_from(s, e + 1);
            assert(lines_from(s, i) == seq![head] + rest);
            assert forall|k: int| 0 <= k < lines_from(s, i).len() implies plain_line(#[trigger] lines_from(s, i)[k]) by {
                if k > 0 {
                    assert(lines_from(s, i)[k] == rest[k - 1]);
                }
            }
            if rest.len() == 0 && !(s.len() > 0 && s.last() == '\n') {
                assert(e + 1 < s.len()) by {
                    if e + 1 >= s.len() {
                        assert(s.last() == s[e]);
                    }
                }
                assert(false);
            }
            if rest.len() > 0 {
                assert(lines_from(s, i).last() == rest.last());
            }
        } else {
            assert(lines_from(s, i) == seq![s.subrange(i, s.len() as int)]);
        }
    }
}

/// Replacing inside a line with a replacement free of line breaks keeps the
/// line free of them, and with a non-empty replacement a non-empty line
/// stays non-empty.
pub proof fn lemma_replace_all_plain(s: Seq<char>, p: Seq<char>, r: Seq<char>)
    requires
        plain_line(s),
        plain_line(r),
    ensures
        plain_line(replace_all(s, p, r)),
        s.len() > 0 && r.len() > 0 ==> replace_all(s, p, r).len() > 0,
    decreases s.len(),
{
    if s.len() == 0 || p.len() == 0 {
    } else if starts_with(s, p) {
        let t = s.subrange(p.len() as int, s.len() as int);
        lemma_replace_all_plain(t, p, r);
        let out = r + replace_all(t, p, r);
        assert forall|i: int| 0 <= i < out.len() implies out[i] != '\n' && out[i] != '\r' by {
            if i >= r.len() {
                assert(out[i] == replace_all(t, p, r)[i - r.len()]);
            }
        }
    } else {
        let t = s.drop_first();
        lemma_replace_all_plain(t, p, r);
        let out = seq![s[0]] + replace_all(t, p, r);
        assert forall|i: int| 0 <= i < out.len() implies out[i] != '\n' && out[i] != '\r' by {
            if i >= 1 {
                assert(out[i] == replace_all(t, p, r)[i - 1]);
            }
        }
    }
}

/// One line of a text without carriage returns replaced by a non-empty line
/// free of line breaks: the lines of the rejoined text are the edited lines.
pub proof fn lemma_replaced_line_read_back(text: Seq<char>, k: int, new_line: Seq<char>)
    requires
        forall|i: int| 0 <= i < text.len() ==> text[i] != '\r',
        0 <= k < lines(text).len(),
        plain_line(new_line),
        new_line.len() > 0,
    ensures
        lines(rejoin(lines(text).update(k, new_line), text)) == lines(text).update(k, new_line),
{
    let ls = lines(text);
    let out = ls.update(k, new_line);
    lemma_lines_shape(text, 0);
    assert forall|m: int| 0 <= m < out.len() implies plain_line(#[trigger] out[m]) by {
        if m != k {
            assert(out[m] == ls[m]);
        }
    }
    if !(text.len() > 0 && text.last() == '\n') {
        if k != ls.len() - 1 {
            assert(out.last() == ls.last());
        }
    }
    lemma_lines_of_rejoin(out, text);
}

/// `c` occurs in `s`.
pub open spec fn has_char(s: Seq<char>, c: char) -> bool {
    exists|i: int| 0 <= i < s.len() && s[i] == c
}

/// A character that the pattern does not hold survives the replacement.
pub proof fn lemma_replace_all_keeps_char(s: Seq<char>, p: Seq<char>, r: Seq<char>, c: char)
    requires
        has_char(s, c),
        !has_char(p, c),
    ensures
        has_char(replace_all(s, p, r), c),
    decreases s.len(),
{
    let k = choose|i: int| 0 <= i < s.len() && s[i] == c;
    if s.len() == 0 || p.len() == 0 {
    } else if starts_with(s, p) {
        if k < p.len() {
            assert(s.subrange(0, p.len() as int)[k] == s[k]);
            assert(p[k] == c);
            assert(false);
        }
        let t = s.subrange(p.len() as int, s.len() as int);
        assert(t[k - p.len()] == c);
        lemma_replace_all_keeps_char(t, p, r, c);
        let rt = replace_all(t, p, r);
        let k2 = choose|i: int| 0 <= i < rt.len() && rt[i] == c;
        assert((r + rt)[r.len() + k2] == c);
    } else {
        let t = s.drop_first();
        let out = seq![s[0]] + replace_all(t, p, r);
        if k == 0 {
            assert(out[0] == c);
        } else {
            assert(t[k - 1] == c);
            lemma_replace_all_keeps_char(t, p, r, c);
            let rt = replace_all(t, p, r);
            let k2 = choose|i: int| 0 <= i < rt.len() && rt[i] == c;
            assert(out[1 + k2] == c);
        }
    }
}

/// Replacing a character by a text free of line breaks keeps a line free of them.
pub proof fn lemma_replace_char_plain(s: Seq<char>, c: char, r: Seq<char>)
    requires
        plain_line(s),
        plain_line(r),
    ensures
        plain_line(replace_char(s, c, r)),
    decreases s.len(),
{
    if s.len() > 0 {
        let t = s.drop_first();
        lemma_replace_char_plain(t, c, r);
        let rt = replace_char(t, c, r);
        let out = replace_char(s, c, r);
        assert forall|i: int| 0 <= i < out.len() implies out[i] != '\n' && out[i] != '\r' by {
            if s[0] == c {
                if i >= r.len() {
                    assert(out[i] == rt[i - r.len()]);
                }
            } else {
                if i >= 1 {
                    assert(out[i] == rt[i - 1]);
                }
            }
        }
    }
}

/// `r` before every character of `s` and after the last one: what
/// `str::replace` makes of an empty pattern.
pub open spec fn interleave(s: Seq<char>, r: Seq<char>) -> Seq<char>
    decreases s.len(),
{
    if s.len() == 0 {
        r
    } else {
        interleave(s.drop_last(), r) + seq![s.last()] + r
    }
}

/// `str::replace`: every non-overlapping occurrence of `p`, from the left,
/// replaced by `r`; an empty pattern matches before every character and at
/// the end.
pub open spec fn replace_str(s: Seq<char>, p: Seq<char>, r: Seq<char>) -> Seq<char> {
    if p.len() == 0 {
        interleave(s, r)
    } else {
        replace_all(s, p, r)
    }
}

/// `str::replace`, for any pattern.
pub fn replace_str_exec(s: &str, p: &str, r: &str) -> (out: String)
    ensures
        out@ == replace_str(s@, p@, r@),
{
    let pc = chars_of(p);
    if pc.len() > 0 {
        return replace_all_exec(s, p, r);
    }
    let cs = chars_of(s);
    let mut out = copy_str(r);
    let mut i: usize = 0;
    while i < cs.len()
        invariant
            i <= cs.len(),
            out@ == interleave(cs@.take(i as int), r@),
        decreases cs.len() - i,
    {
        push_char(&mut out, cs[i]);
        push_str(&mut out, r);
        assert(cs@.take(i + 1).drop_last() =~= cs@.take(i as int));
        i += 1;
    }
    assert(cs@.take(cs.len() as int) =~= cs@);
    out
}

} // verus!
