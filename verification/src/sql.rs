//! The super administrator of the generated project: its user name and
//! password hash written into the `system_users` insert of the SQL scripts.
use vstd::prelude::*;
use vstd::string::StringSliceAdditionalSpecFns;
use vstd::utf8::is_char_boundary;
use crate::error::ScaffoldError;
use crate::text::{
    ascii_lower, ascii_lower_exec, chars_of, contains, digit_char, find, find_from, lemma_find_from,
    lines, occurs_at, push_chars, push_str, rejoin, rejoin_lines, replace_char, replace_char_exec,
    split_lines, string_from_chars, text_contains, vec_find_from, views,
};

verus! {

// ---------------------------------------------------------------------------
// SQL string literals
// ---------------------------------------------------------------------------
/// The position of the quote that closes a literal whose text starts at `i`;
/// a doubled quote `''` stands for one quote inside the literal.
pub open spec fn closing_quote(s: Seq<char>, i: int) -> Option<int>
    decreases s.len() - i,
{
    if i < 0 || i >= s.len() {
        None
    } else if s[i] == '\'' {
        if i + 1 < s.len() && s[i + 1] == '\'' {
            closing_quote(s, i + 2)
        } else {
            Some(i)
        }
    } else {
        closing_quote(s, i + 1)
    }
}

/// The bounds of the text of the first single-quoted SQL literal that starts
/// at or after `from`.
pub open spec fn sql_literal_range(s: Seq<char>, from: int) -> Option<(int, int)> {
    match find_from(s, seq!['\''], from) {
        None => None,
        Some(o) => match closing_quote(s, o + 1) {
            None => None,
            Some(e) => Some((o + 1, e)),
        },
    }
}

/// Where `closing_quote` can land.
pub proof fn lemma_closing_quote(s: Seq<char>, i: int)
    requires
        0 <= i,
    ensures
        match closing_quote(s, i) {
            Some(e) => i <= e < s.len() && s[e] == '\'' && !(e + 1 < s.len() && s[e + 1] == '\''),
            None => true,
        },
    decreases s.len() - i,
{
    if 0 <= i < s.len() {
        if s[i] == '\'' {
            if i + 1 < s.len() && s[i + 1] == '\'' {
                lemma_closing_quote(s, i + 2);
            }
        } else {
            lemma_closing_quote(s, i + 1);
        }
    }
}

/// An optional pair of indices as mathematical integers.
pub open spec fn range_as_int(o: Option<(usize, usize)>) -> Option<(int, int)> {
    match o {
        Some((a, b)) => Some((a as int, b as int)),
        None => None,
    }
}

/// The bounds, as character positions, of the text of the first
/// single-quoted SQL literal of `line` that starts at or after `search_from`.
fn literal_range(line: &str, search_from: usize) -> (r: Option<(usize, usize)>)
    requires
        search_from <= line@.len(),
    ensures
        range_as_int(r) == sql_literal_range(line@, search_from as int),
{
    let cs = chars_of(line);
    let quote = chars_of("'");
    proof {
        reveal_strlit("'");
        assert(quote@ =~= seq!['\'']);
    }
    let opening = match vec_find_from(&cs, &quote, search_from) {
        None => return None,
        Some(o) => o,
    };
    proof {
        lemma_find_from(cs@, quote@, search_from as int);
        assert(occurs_at(cs@, quote@, opening as int));
        assert(cs@.len() == cs.len());
    }
    let mut index = opening + 1;
    while index < cs.len()
        invariant
            cs@ == line@,
            opening < index <= cs.len() + 1,
            closing_quote(cs@, opening + 1) == closing_quote(cs@, index as int),
            sql_literal_range(line@, search_from as int) == match closing_quote(cs@, opening + 1) {
                None => None,
                Some(e) => Some((opening + 1, e)),
            },
        decreases cs.len() + 1 - index,
    {
        if cs[index] == '\'' {
            if index + 1 < cs.len() && cs[index + 1] == '\'' {
                index += 2;
                continue;
            }
            return Some((opening + 1, index));
        }
        index += 1;
    }
    None
}

// ---------------------------------------------------------------------------
// SQL string literals, by byte offsets
// ---------------------------------------------------------------------------
/// The first `'` byte at or after `i`.
pub open spec fn first_quote_byte(b: Seq<u8>, i: int) -> Option<int>
    decreases b.len() - i,
{
    if i < 0 || i >= b.len() {
        None
    } else if b[i] == 39u8 {
        Some(i)
    } else {
        first_quote_byte(b, i + 1)
    }
}

/// The byte offset of the quote that closes a literal whose text starts at
/// byte `i`; a doubled quote stands for one quote inside the literal.
pub open spec fn closing_quote_byte(b: Seq<u8>, i: int) -> Option<int>
    decreases b.len() - i,
{
    if i < 0 || i >= b.len() {
        None
    } else if b[i] == 39u8 {
        if i + 1 < b.len() && b[i + 1] == 39u8 {
            closing_quote_byte(b, i + 2)
        } else {
            Some(i)
        }
    } else {
        closing_quote_byte(b, i + 1)
    }
}

/// The byte bounds of the text of the first single-quoted SQL literal that
/// starts at or after byte `from`.
pub open spec fn sql_literal_byte_range(b: Seq<u8>, from: int) -> Option<(int, int)> {
    match first_quote_byte(b, from) {
        None => None,
        Some(o) => match closing_quote_byte(b, o + 1) {
            None => None,
            Some(e) => Some((o + 1, e)),
        },
    }
}

/// The first `'` byte at or after `from`.
fn find_quote_byte(bytes: &[u8], from: usize) -> (r: Option<usize>)
    requires
        from <= bytes@.len(),
    ensures
        match r {
            Some(k) => first_quote_byte(bytes@, from as int) == Some(k as int) && k < bytes@.len(),
            None => first_quote_byte(bytes@, from as int) is None,
        },
{
    let mut i = from;
    while i < bytes.len()
        invariant
            from <= i <= bytes@.len(),
            first_quote_byte(bytes@, from as int) == first_quote_byte(bytes@, i as int),
        decreases bytes.len() - i,
    {
        if bytes[i] == 39u8 {
            return Some(i);
        }
        i += 1;
    }
    None
}

/// The bounds, as byte offsets into `line`, of the text of the first
/// single-quoted SQL literal that starts at or after byte `search_from`,
/// which must fall on a character boundary.
pub fn sql_string_range(line: &str, search_from: usize) -> (r: Option<(usize, usize)>)
    requires
        search_from <= line.spec_bytes().len(),
        is_char_boundary(line.spec_bytes(), search_from as int),
    ensures
        range_as_int(r) == sql_literal_byte_range(line.spec_bytes(), search_from as int),
{
    let bytes = line.as_bytes();
    let n = bytes.len();
    let opening = match find_quote_byte(bytes, search_from) {
        None => return None,
        Some(o) => o,
    };
    assert(opening < n);
    let mut index = opening + 1;
    while index < bytes.len()
        invariant
            bytes@ == line.spec_bytes(),
            opening < index <= bytes@.len() + 1,
            closing_quote_byte(bytes@, opening + 1) == closing_quote_byte(bytes@, index as int),
            sql_literal_byte_range(line.spec_bytes(), search_from as int) == match closing_quote_byte(
                bytes@,
                opening + 1,
            ) {
                None => None,
                Some(e) => Some((opening + 1, e)),
            },
        decreases bytes.len() + 1 - index,
    {
        if bytes[index] == 39u8 {
            if index + 1 < bytes.len() && bytes[index + 1] == 39u8 {
                index += 2;
                continue;
            }
            return Some((opening + 1, index));
        }
        index += 1;
    }
    None
}

// ---------------------------------------------------------------------------
// The super administrator's insert statement
// ---------------------------------------------------------------------------
/// The line is an `INSERT INTO system_users` statement (case-insensitively).
pub open spec fn is_users_insert(lower: Seq<char>) -> bool {
    contains(lower, "insert into"@) && contains(lower, "system_users"@)
}

/// Where the values of the first row start: the first `values (1,`, else the
/// first `values(1,` of the lowered line.
pub open spec fn values_start(lower: Seq<char>) -> Option<int> {
    match find(lower, "values (1,"@) {
        Some(i) => Some(i),
        None => find(lower, "values(1,"@),
    }
}

/// What `replace_super_admin_insert` makes of a line.
pub open spec fn super_admin_insert_edit(line: Seq<char>, username: Seq<char>, hash: Seq<char>) -> Option<
    Seq<char>,
> {
    let lower = ascii_lower(line);
    if !is_users_insert(lower) {
        None
    } else {
        match values_start(lower) {
            None => None,
            Some(v) => match sql_literal_range(line, v) {
                None => None,
                Some((us, ue)) => match sql_literal_range(line, ue + 1) {
                    None => None,
                    Some((ps, pe)) => Some(
                        line.subrange(0, us) + username + line.subrange(ue, ps) + hash
                            + line.subrange(pe, line.len() as int),
                    ),
                },
            },
        }
    }
}

/// Where the literal bounds found by `sql_literal_range` lie.
pub proof fn lemma_sql_literal_range(s: Seq<char>, from: int)
    requires
        0 <= from,
    ensures
        match sql_literal_range(s, from) {
            Some((a, b)) => from < a <= b < s.len() && s[a - 1] == '\'' && s[b] == '\'',
            None => true,
        },
{
    lemma_find_from(s, seq!['\''], from);
    match find_from(s, seq!['\''], from) {
        Some(o) => {
            assert(s.subrange(o, o + 1)[0] == s[o]);
            lemma_closing_quote(s, o + 1);
        },
        None => {},
    }
}

/// Rewrites the first row of an `INSERT INTO system_users ... VALUES (1, ...)`
/// line: the first string literal becomes `username`, the second `password_hash`.
/// `None` when the line is not such an insert.
pub fn replace_super_admin_insert(line: &str, username: &str, password_hash: &str) -> (r: Option<
    String,
>)
    ensures
        match super_admin_insert_edit(line@, username@, password_hash@) {
            None => r is None,
            Some(t) => r matches Some(out) && out@ == t,
        },
{
    let lower = ascii_lower_exec(line);
    if !text_contains(lower.as_str(), "insert into") || !text_contains(
        lower.as_str(),
        "system_users",
    ) {
        return None;
    }
    let lc = chars_of(lower.as_str());
    let v = match vec_find_from(&lc, &chars_of("values (1,"), 0) {
        Some(i) => i,
        None => match vec_find_from(&lc, &chars_of("values(1,"), 0) {
            Some(i) => i,
            None => return None,
        },
    };
    proof {
        lemma_find_from(lc@, "values (1,"@, 0);
        lemma_find_from(lc@, "values(1,"@, 0);
    }
    assert(lc@.len() == line@.len());
    let (us, ue) = match literal_range(line, v) {
        Some(p) => p,
        None => return None,
    };
    proof {
        lemma_sql_literal_range(line@, v as int);
    }
    let cs = chars_of(line);
    assert(cs@.len() == cs.len());
    let (ps, pe) = match literal_range(line, ue + 1) {
        Some(p) => p,
        None => return None,
    };
    proof {
        lemma_sql_literal_range(line@, ue + 1);
    }
    let mut out = string_from_chars(&cs, 0, us);
    push_str(&mut out, username);
    push_chars(&mut out, &cs, ue, ps);
    push_str(&mut out, password_hash);
    push_chars(&mut out, &cs, pe, cs.len());
    Some(out)
}

/// What `rewrite_super_admin_sql_text` makes of one line.
pub open spec fn super_admin_line(l: Seq<char>, username: Seq<char>, hash: Seq<char>) -> Seq<char> {
    match super_admin_insert_edit(l, username, hash) {
        Some(t) => t,
        None => l,
    }
}

/// What `rewrite_super_admin_sql_text` makes of a SQL script: `None` when no
/// line is a super administrator insert.
pub open spec fn super_admin_sql_edit(text: Seq<char>, username: Seq<char>, hash: Seq<char>) -> Option<
    Seq<char>,
> {
    let ls = lines(text);
    if exists|k: int| 0 <= k < ls.len() && (#[trigger] super_admin_insert_edit(ls[k], username, hash)) is Some {
        Some(rejoin(Seq::new(ls.len(), |k: int| super_admin_line(ls[k], username, hash)), text))
    } else {
        None
    }
}

/// Rewrites every super administrator insert of a SQL script. `None` when the
/// script holds none.
pub fn rewrite_super_admin_sql_text(text: &str, username: &str, password_hash: &str) -> (r: Option<
    String,
>)
    ensures
        match super_admin_sql_edit(text@, username@, password_hash@) {
            None => r is None,
            Some(t) => r matches Some(out) && out@ == t,
        },
{
    let ls = split_lines(text);
    let ghost lv = views(ls@);
    let mut out: Vec<String> = Vec::new();
    let mut changed = false;
    let mut i: usize = 0;
    while i < ls.len()
        invariant
            lv == views(ls@),
            lv == lines(text@),
            i <= ls.len(),
            out@.len() == i,
            forall|k: int| 0 <= k < i ==> #[trigger] out@[k]@ == super_admin_line(lv[k], username@, password_hash@),
            changed == exists|k: int| 0 <= k < i && (#[trigger] super_admin_insert_edit(lv[k], username@, password_hash@)) is Some,
        decreases ls.len() - i,
    {
        assert(lv[i as int] == ls@[i as int]@);
        match replace_super_admin_insert(ls[i].as_str(), username, password_hash) {
            Some(updated) => {
                out.push(updated);
                changed = true;
            },
            None => {
                out.push(crate::text::copy_str(ls[i].as_str()));
            },
        }
        i += 1;
    }
    assert(lv.len() == ls@.len());
    if changed {
        assert(views(out@) =~= Seq::new(lv.len(), |k: int| super_admin_line(lv[k], username@, password_hash@)));
        Some(rejoin_lines(&out, text))
    } else {
        None
    }
}

// ---------------------------------------------------------------------------
// Credentials
// ---------------------------------------------------------------------------
/// The cost factor the password is hashed with.
pub const PASSWORD_HASH_COST: u32 = 10;

/// A character of bcrypt's base64 alphabet (`./A-Za-z0-9`).
pub open spec fn is_bcrypt_base64(c: char) -> bool {
    c == '.' || c == '/' || ('A' <= c <= 'Z') || ('a' <= c <= 'z') || ('0' <= c <= '9')
}

/// A bcrypt hash string in the `2b` format for `cost`: `$2b$`, the cost as
/// two digits, `$`, and 53 characters of bcrypt's base64 alphabet.
pub open spec fn is_bcrypt_hash(h: Seq<char>, cost: u32) -> bool {
    &&& h.len() == 60
    &&& h.subrange(0, 7) == seq![
        '$',
        '2',
        'b',
        '$',
        digit_char((cost / 10) as nat),
        digit_char((cost % 10) as nat),
        '$',
    ]
    &&& forall|i: int| 7 <= i < 60 ==> is_bcrypt_base64(#[trigger] h[i])
}

/// `bcrypt::BcryptError`, the error `bcrypt::hash` returns; carried opaque.
#[verifier::external_type_specification]
#[verifier::external_body]
pub struct ExBcryptError(bcrypt::BcryptError);

/// `bcrypt::hash`: hashes `password` with a salt drawn from the operating
/// system. The contract states the shape of every hash it can return (the
/// `2b` format for the given cost, see `is_bcrypt_hash`); which hash comes
/// back depends on the salt, and whether the salt could be drawn is not
/// stated. Costs outside `4..=31` are refused by bcrypt and left out here.
///
/// It also claims that `bcrypt::verify` accepts `password` against every hash
/// it returns (see `bcrypt_verifies`): `verify` parses the cost and salt out
/// of the hash and hashes the password again with them.
#[verifier::external_body]
fn bcrypt_hash(password: &str, cost: u32) -> (r: Result<String, bcrypt::BcryptError>)
    requires
        4 <= cost <= 31,
    ensures
        r matches Ok(h) ==> is_bcrypt_hash(h@, cost) && bcrypt_verifies(password@, h@),
{
    bcrypt::hash(password, cost)
}

/// What `bcrypt::verify(password, hash)` answers when it answers `Ok`: whether
/// hashing `password` with the cost and salt written in `hash` gives the hash
/// written in `hash`. It depends on the two texts alone.
pub uninterp spec fn bcrypt_verifies(password: Seq<char>, hash: Seq<char>) -> bool;

/// `bcrypt::verify`: checks `password` against a bcrypt hash string. The
/// contract claims that an `Ok` answer is `bcrypt_verifies` of the two
/// texts; when it fails (a malformed hash, a cost bcrypt refuses) is not
/// stated.
#[verifier::external_body]
fn bcrypt_verify(password: &str, hash: &str) -> (r: Result<bool, bcrypt::BcryptError>)
    ensures
        r matches Ok(b) ==> b == bcrypt_verifies(password@, hash@),
{
    bcrypt::verify(password, hash)
}

/// Checks a password against a bcrypt hash of the super administrator, as
/// `configure_super_admin` hands out: `Ok(b)` with `b` the answer of
/// `bcrypt::verify`, or `PasswordHash` with bcrypt's message when the hash
/// cannot be read.
pub fn verify_super_admin_password(password: &str, password_hash: &str) -> (r: Result<
    bool,
    ScaffoldError,
>)
    ensures
        match r {
            Ok(b) => b == bcrypt_verifies(password@, password_hash@),
            Err(e) => e is PasswordHash,
        },
{
    match bcrypt_verify(password, password_hash) {
        Ok(b) => Ok(b),
        Err(e) => Err(ScaffoldError::PasswordHash(bcrypt_error_message(&e))),
    }
}

/// `Display` of `bcrypt::BcryptError`: the error's message. Nothing is
/// stated of the text.
#[verifier::external_body]
fn bcrypt_error_message(e: &bcrypt::BcryptError) -> String {
    e.to_string()
}

/// The outcome of rewriting the SQL scripts: at least one script must have
/// held the super administrator's insert.
pub fn check_super_admin_sql_updated(updated_files: usize) -> (r: Result<(), ScaffoldError>)
    ensures
        updated_files > 0 ==> r is Ok,
        updated_files == 0 ==> r matches Err(ScaffoldError::MissingSuperAdminInsert),
{
    if updated_files == 0 {
        Err(ScaffoldError::MissingSuperAdminInsert)
    } else {
        Ok(())
    }
}

/// What the SQL scripts receive for the super administrator.
pub struct SuperAdminCredentials {
    /// The user name with every `'` doubled, ready to stand inside a SQL literal.
    pub escaped_username: String,
    /// The bcrypt hash of the password.
    pub password_hash: String,
}

/// A user name made safe for a SQL literal: every `'` doubled.
pub open spec fn escape_sql(s: Seq<char>) -> Seq<char> {
    replace_char(s, '\'', seq!['\'', '\''])
}

/// Prepares the super administrator's credentials: refuses a user name with
/// a line break, escapes it for SQL and hashes the password with cost 10.
pub fn configure_super_admin(username: &str, password: &str) -> (r: Result<
    SuperAdminCredentials,
    ScaffoldError,
>)
    ensures
        (username@.contains('\r') || username@.contains('\n')) ==> r matches Err(
            ScaffoldError::UsernameHasLineBreak,
        ),
        !(username@.contains('\r') || username@.contains('\n')) ==> match r {
            Ok(c) => c.escaped_username@ == escape_sql(username@) && is_bcrypt_hash(
                c.password_hash@,
                PASSWORD_HASH_COST,
            ) && bcrypt_verifies(password@, c.password_hash@),
            Err(e) => e is PasswordHash,
        },
{
    let cs = chars_of(username);
    let mut i: usize = 0;
    while i < cs.len()
        invariant
            cs@ == username@,
            i <= cs.len(),
            forall|k: int| 0 <= k < i ==> cs@[k] != '\r' && cs@[k] != '\n',
        decreases cs.len() - i,
    {
        if cs[i] == '\r' || cs[i] == '\n' {
            assert(username@[i as int] == cs@[i as int]);
            return Err(ScaffoldError::UsernameHasLineBreak);
        }
        i += 1;
    }
    let password_hash = match bcrypt_hash(password, PASSWORD_HASH_COST) {
        Ok(h) => h,
        Err(e) => return Err(ScaffoldError::PasswordHash(bcrypt_error_message(&e))),
    };
    proof {
        reveal_strlit("''");
    }
    let escaped_username = replace_char_exec(username, '\'', "''");
    assert(seq!['\'', '\''] =~= "''"@);
    Ok(SuperAdminCredentials { escaped_username, password_hash })
}

} // verus!

verus! {

// ---------------------------------------------------------------------------
// Laws of the insert rewrite
// ---------------------------------------------------------------------------
/// `s` holds no single quote.
pub open spec fn quote_free(s: Seq<char>) -> bool {
    forall|i: int| 0 <= i < s.len() ==> s[i] != '\''
}

/// The first quote at or after `i` is at `k` when nothing before it in between is a quote.
proof fn lemma_find_quote(s: Seq<char>, i: int, k: int)
    requires
        0 <= i <= k < s.len(),
        s[k] == '\'',
        forall|m: int| i <= m < k ==> s[m] != '\'',
    ensures
        find_from(s, seq!['\''], i) == Some(k),
{
    let q = seq!['\''];
    assert forall|m: int| i <= m < k implies !occurs_at(s, q, m) by {
        if occurs_at(s, q, m) {
            assert(s.subrange(m, m + 1)[0] == s[m]);
        }
    }
    crate::text::lemma_find_from_skip(s, q, i, k);
    assert(s.subrange(k, k + 1) =~= q);
}

/// Text without quotes does not move the closing quote.
proof fn lemma_closing_quote_free(s: Seq<char>, i: int, j: int)
    requires
        0 <= i <= j <= s.len(),
        forall|m: int| i <= m < j ==> s[m] != '\'',
    ensures
        closing_quote(s, i) == closing_quote(s, j),
    decreases j - i,
{
    if i < j {
        lemma_closing_quote_free(s, i + 1, j);
    }
}

/// The closing quote of a literal whose text is an escaped name is the quote
/// right after the escaped name.
proof fn lemma_closing_quote_escaped(s: Seq<char>, i: int, name: Seq<char>)
    requires
        0 <= i,
        i + escape_sql(name).len() < s.len(),
        s.subrange(i, i + escape_sql(name).len()) == escape_sql(name),
        s[i + escape_sql(name).len()] == '\'',
        !(i + escape_sql(name).len() + 1 < s.len() && s[i + escape_sql(name).len() + 1] == '\''),
    ensures
        closing_quote(s, i) == Some(i + escape_sql(name).len()),
    decreases name.len(),
{
    let e = escape_sql(name);
    if name.len() > 0 {
        let rest = escape_sql(name.drop_first());
        if name[0] == '\'' {
            assert(e == seq!['\'', '\''] + rest);
            assert(s[i] == e[0]);
            assert(s[i + 1] == e[1]);
            assert(s.subrange(i + 2, i + 2 + rest.len()) =~= s.subrange(i, i + e.len()).subrange(
                2,
                e.len() as int,
            ));
            assert(e.subrange(2, e.len() as int) =~= rest);
            lemma_closing_quote_escaped(s, i + 2, name.drop_first());
        } else {
            assert(e == seq![name[0]] + rest);
            assert(s[i] == e[0]);
            assert(s.subrange(i + 1, i + 1 + rest.len()) =~= s.subrange(i, i + e.len()).subrange(
                1,
                e.len() as int,
            ));
            assert(e.subrange(1, e.len() as int) =~= rest);
            lemma_closing_quote_escaped(s, i + 1, name.drop_first());
        }
    }
}

/// A bcrypt hash holds no quote.
pub proof fn lemma_bcrypt_hash_quote_free(h: Seq<char>, cost: u32)
    requires
        is_bcrypt_hash(h, cost),
    ensures
        quote_free(h),
{
    assert forall|i: int| 0 <= i < h.len() implies h[i] != '\'' by {
        if i < 7 {
            assert(h[i] == h.subrange(0, 7)[i]);
        }
    }
}

/// Reading back a rewritten insert: the first literal after the row start
/// holds the escaped user name, and the next literal the password hash.
/// The hash must hold no quote, as a bcrypt hash does.
pub proof fn lemma_super_admin_insert_read_back(line: Seq<char>, name: Seq<char>, hash: Seq<char>)
    requires
        super_admin_insert_edit(line, escape_sql(name), hash) is Some,
        quote_free(hash),
    ensures
        ({
            let out = super_admin_insert_edit(line, escape_sql(name), hash).unwrap();
            let v = values_start(ascii_lower(line)).unwrap();
            &&& sql_literal_range(out, v) matches Some((a, b))
            &&& out.subrange(a, b) == escape_sql(name)
            &&& sql_literal_range(out, b + 1) matches Some((c, d))
            &&& out.subrange(c, d) == hash
        }),
{
    let u = escape_sql(name);
    let lower = ascii_lower(line);
    let v = values_start(lower).unwrap();
    let q = seq!['\''];
    let n = line.len() as int;
    lemma_find_from(lower, "values (1,"@, 0);
    lemma_find_from(lower, "values(1,"@, 0);
    assert(0 <= v);
    let (us, ue) = sql_literal_range(line, v).unwrap();
    let (ps, pe) = sql_literal_range(line, ue + 1).unwrap();
    lemma_sql_literal_range(line, v);
    lemma_sql_literal_range(line, ue + 1);
    let o1 = find_from(line, q, v).unwrap();
    let o2 = find_from(line, q, ue + 1).unwrap();
    lemma_find_from(line, q, v);
    lemma_find_from(line, q, ue + 1);
    assert(o1 == us - 1);
    assert(o2 == ps - 1);
    lemma_closing_quote(line, us);
    lemma_closing_quote(line, ps);
    let out = line.subrange(0, us) + u + line.subrange(ue, ps) + hash + line.subrange(pe, n);
    assert(out == super_admin_insert_edit(line, u, hash).unwrap());
    let b = us + u.len();
    let c = b + (ps - ue);
    let d = c + hash.len();
    assert(out.len() == d + (n - pe));
    assert forall|x: int| 0 <= x < us implies out[x] == line[x] by {}
    assert forall|j: int| 0 <= j < u.len() implies out[us + j] == u[j] by {}
    assert forall|j: int| 0 <= j < ps - ue implies #[trigger] out[b + j] == line[ue + j] by {}
    assert forall|j: int| 0 <= j < hash.len() implies #[trigger] out[c + j] == hash[j] by {}
    assert forall|j: int| 0 <= j < n - pe implies #[trigger] out[d + j] == line[pe + j] by {}
    // The first literal.
    assert forall|m: int| v <= m < us - 1 implies out[m] != '\'' by {
        assert(!occurs_at(line, q, m));
        assert(line.subrange(m, m + 1) =~= seq![line[m]]);
    }
    assert(out[us - 1] == line[us - 1]);
    assert(line[o1] == line.subrange(o1, o1 + 1)[0]);
    lemma_find_quote(out, v, us - 1);
    // ue + 1 < ps: the second literal opens after the first closes.
    assert(ue + 1 <= o2);
    assert(out.subrange(us, b) =~= u);
    assert(out[b] == line[ue]) by {
        assert(out[b + 0] == line[ue + 0]);
    }
    assert(out[b + 1] == line[ue + 1]);
    lemma_closing_quote_escaped(out, us, name);
    assert(sql_literal_range(out, v) == Some((us, b)));
    // The second literal.
    assert forall|m: int| b + 1 <= m < c - 1 implies out[m] != '\'' by {
        let j = m - b;
        assert(out[b + j] == line[ue + j]);
        assert(!occurs_at(line, q, ue + j));
        assert(line.subrange(ue + j, ue + j + 1) =~= seq![line[ue + j]]);
    }
    assert(out[c - 1] == line[o2]) by {
        assert(out[b + (ps - ue - 1)] == line[ue + (ps - ue - 1)]);
    }
    assert(line[o2] == line.subrange(o2, o2 + 1)[0]);
    lemma_find_quote(out, b + 1, c - 1);
    assert forall|m: int| c <= m < d implies out[m] != '\'' by {
        assert(out[c + (m - c)] == hash[m - c]);
    }
    lemma_closing_quote_free(out, c, d);
    assert(out[d] == line[pe]) by {
        assert(out[d + 0] == line[pe + 0]);
    }
    if d + 1 < out.len() {
        assert(out[d + 1] == line[pe + 1]);
    }
    assert(closing_quote(out, d) == Some(d));
    assert(sql_literal_range(out, b + 1) == Some((c, d)));
    assert(out.subrange(c, d) =~= hash);
}

} // verus!

verus! {

/// A rewritten insert line holds no line break when the line, the user name
/// and the hash hold none, and it is never empty.
proof fn lemma_insert_edit_plain(line: Seq<char>, username: Seq<char>, hash: Seq<char>)
    requires
        crate::text::plain_line(line),
        crate::text::plain_line(username),
        crate::text::plain_line(hash),
        super_admin_insert_edit(line, username, hash) is Some,
    ensures
        crate::text::plain_line(super_admin_insert_edit(line, username, hash)->0),
        (super_admin_insert_edit(line, username, hash)->0).len() > 0,
{
    let lower = ascii_lower(line);
    let v = values_start(lower).unwrap();
    lemma_find_from(lower, "values (1,"@, 0);
    lemma_find_from(lower, "values(1,"@, 0);
    let (us, ue) = sql_literal_range(line, v).unwrap();
    lemma_sql_literal_range(line, v);
    let (ps, pe) = sql_literal_range(line, ue + 1).unwrap();
    lemma_sql_literal_range(line, ue + 1);
    let a = line.subrange(0, us);
    let b = line.subrange(ue, ps);
    let c = line.subrange(pe, line.len() as int);
    let out = a + username + b + hash + c;
    assert(super_admin_insert_edit(line, username, hash)->0 == out);
    assert forall|i: int| 0 <= i < out.len() implies out[i] != '\n' && out[i] != '\r' by {
        if i < a.len() {
            assert(out[i] == line[i]);
        } else if i < a.len() + username.len() {
            assert(out[i] == username[i - a.len()]);
        } else if i < a.len() + username.len() + b.len() {
            assert(out[i] == line[ue + (i - a.len() - username.len())]);
        } else if i < a.len() + username.len() + b.len() + hash.len() {
            assert(out[i] == hash[i - a.len() - username.len() - b.len()]);
        } else {
            assert(out[i] == line[pe + (i - a.len() - username.len() - b.len() - hash.len())]);
        }
    }
}

/// The SQL script read back: for a script without carriage returns, and a
/// user name and hash without line breaks, the lines of the rewritten script
/// are the old lines with every super administrator insert rewritten and
/// every other line exactly as it was.
pub proof fn lemma_super_admin_sql_read_back(text: Seq<char>, username: Seq<char>, hash: Seq<char>)
    requires
        forall|k: int| 0 <= k < text.len() ==> text[k] != '\r',
        crate::text::plain_line(username),
        crate::text::plain_line(hash),
        super_admin_sql_edit(text, username, hash) is Some,
    ensures
        lines(super_admin_sql_edit(text, username, hash)->0) == Seq::new(
            lines(text).len(),
            |k: int| super_admin_line(lines(text)[k], username, hash),
        ),
{
    let ls = lines(text);
    let out = Seq::new(ls.len(), |k: int| super_admin_line(ls[k], username, hash));
    crate::text::lemma_lines_shape(text, 0);
    assert(ls.len() > 0);
    assert forall|k: int| 0 <= k < out.len() implies crate::text::plain_line(#[trigger] out[k]) by {
        if super_admin_insert_edit(ls[k], username, hash) is Some {
            lemma_insert_edit_plain(ls[k], username, hash);
        }
    }
    if !(text.len() > 0 && text.last() == '\n') {
        let l = ls[ls.len() - 1];
        if super_admin_insert_edit(l, username, hash) is Some {
            lemma_insert_edit_plain(l, username, hash);
        }
        assert(out.last() == super_admin_line(l, username, hash));
    }
    crate::text::lemma_lines_of_rejoin(out, text);
}

} // verus!

verus! {

/// The credentials that `configure_super_admin` hands out hold no line
/// break: the escaped name of a name without one, and a bcrypt hash.
pub proof fn lemma_credentials_plain(name: Seq<char>, hash: Seq<char>, cost: u32)
    requires
        !(name.contains('\r') || name.contains('\n')),
        is_bcrypt_hash(hash, cost),
    ensures
        crate::text::plain_line(escape_sql(name)),
        crate::text::plain_line(hash),
{
    assert forall|i: int| 0 <= i < name.len() implies name[i] != '\n' && name[i] != '\r' by {
        if name[i] == '\n' {
            assert(name.contains('\n'));
        }
        if name[i] == '\r' {
            assert(name.contains('\r'));
        }
    }
    crate::text::lemma_replace_char_plain(name, '\'', seq!['\'', '\'']);
    assert forall|i: int| 0 <= i < hash.len() implies hash[i] != '\n' && hash[i] != '\r' by {
        if i < 7 {
            assert(hash[i] == hash.subrange(0, 7)[i]);
        } else {
            assert(is_bcrypt_base64(hash[i]));
        }
    }
}

} // verus!
