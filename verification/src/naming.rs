//! The naming resolver: reduces an uploaded file name to its last path
//! component, decomposes that component into stem and extension, and
//! composes a collision-resistant destination name from the stem, a
//! random disambiguation token and the extension. Because only the
//! last component is used and the token alphabet holds no separator,
//! a destination name never contains a path separator, so a write
//! joined under the upload root stays under the upload root.

use vstd::prelude::*;

verus! {

/// A lower-case hexadecimal digit, the alphabet that disambiguation
/// tokens are drawn from.
pub open spec fn is_hex_digit(c: char) -> bool {
    (48 <= c as u32 && c as u32 <= 57) || (97 <= c as u32 && c as u32 <= 102)
}

/// A disambiguation token: eight lower-case hexadecimal digits. The
/// alphabet contains no dash and no slash, so the token neither blurs
/// the dash that separates it from the stem nor adds a path
/// separator.
pub open spec fn is_token(t: Seq<char>) -> bool {
    &&& t.len() == 8
    &&& forall|i: int| 0 <= i < t.len() ==> is_hex_digit(#[trigger] t[i])
}

/// The index of the last `/` of `s` strictly before position `i`, or
/// -1 when there is none.
pub open spec fn last_slash_before(s: Seq<char>, i: int) -> int
    decreases i,
{
    if i <= 0 {
        -1
    } else if s[i - 1] == '/' {
        i - 1
    } else {
        last_slash_before(s, i - 1)
    }
}

/// The index of the last `/` of `s`, or -1 when `s` has none.
pub open spec fn last_slash(s: Seq<char>) -> int {
    last_slash_before(s, s.len() as int)
}

/// The last path component of a file name: what follows its last
/// slash; the whole name when it has no slash; empty when the name
/// ends with a slash.
pub open spec fn base_of(s: Seq<char>) -> Seq<char> {
    s.skip(last_slash(s) + 1)
}

/// The index of the last `.` of `s` that lies strictly before position
/// `i` and not at position 0, or -1 when there is none. A dot in first
/// position marks a hidden file, not an extension.
pub open spec fn last_dot_before(s: Seq<char>, i: int) -> int
    decreases i,
{
    if i <= 1 {
        -1
    } else if s[i - 1] == '.' {
        i - 1
    } else {
        last_dot_before(s, i - 1)
    }
}

/// The index of the dot that splits a path component `s` into stem and
/// extension, or -1 when `s` has no extension.
pub open spec fn last_dot(s: Seq<char>) -> int {
    last_dot_before(s, s.len() as int)
}

/// The stem of a single path component: the component minus its
/// trailing dot-suffix. A component without a dot past its first
/// character — a lone or leading dot included — is all stem.
pub open spec fn stem_of(s: Seq<char>) -> Seq<char> {
    if last_dot(s) >= 1 {
        s.take(last_dot(s))
    } else {
        s
    }
}

/// The trailing dot-suffix of a single path component, dot included;
/// empty when there is none.
pub open spec fn ext_of(s: Seq<char>) -> Seq<char> {
    if last_dot(s) >= 1 {
        s.skip(last_dot(s))
    } else {
        Seq::empty()
    }
}

/// `{stem}-{token}{ext}`: how a destination name is put together.
pub open spec fn composed(stem: Seq<char>, token: Seq<char>, ext: Seq<char>) -> Seq<char> {
    stem + seq!['-'] + token + ext
}

/// The destination name of an uploaded file name, for a given token:
/// stem and extension come from the name's last path component alone.
pub open spec fn dest_name(file_name: Seq<char>, token: Seq<char>) -> Seq<char> {
    composed(stem_of(base_of(file_name)), token, ext_of(base_of(file_name)))
}

/// The last path component of a file name, as an owned string.
pub fn base_name(name: &str) -> (r: String)
    ensures
        r@ == base_of(name@),
{
    let n = name.unicode_len();
    let mut i: usize = n;
    while i > 0
        invariant
            i <= n,
            n == name@.len(),
            last_slash(name@) == last_slash_before(name@, i as int),
        decreases i,
    {
        if name.get_char(i - 1) == '/' {
            assert(last_slash(name@) == i - 1);
            return String::from_str(name.substring_char(i, n));
        }
        i = i - 1;
    }
    assert(last_slash(name@) == -1);
    proof {
        assert(name@.skip(0) =~= name@);
    }
    String::from_str(name)
}

/// Splits a single path component into stem and extension at its last
/// dot; the extension keeps its leading dot.
fn split_component(comp: &str) -> (r: (String, String))
    ensures
        r.0@ == stem_of(comp@),
        r.1@ == ext_of(comp@),
{
    let n = comp.unicode_len();
    let mut i: usize = n;
    while i > 1
        invariant
            i <= n,
            n == comp@.len(),
            last_dot(comp@) == last_dot_before(comp@, i as int),
        decreases i,
    {
        if comp.get_char(i - 1) == '.' {
            assert(last_dot(comp@) == i - 1);
            let stem = String::from_str(comp.substring_char(0, i - 1));
            let ext = String::from_str(comp.substring_char(i - 1, n));
            return (stem, ext);
        }
        i = i - 1;
    }
    assert(last_dot(comp@) == -1);
    (String::from_str(comp), String::new())
}

/// Splits a file name into stem and extension: directories are
/// dropped first, then the last path component is split at its last
/// dot. A component without a dot past its first character is all
/// stem.
pub fn split_name(name: &str) -> (r: (String, String))
    ensures
        r.0@ == stem_of(base_of(name@)),
        r.1@ == ext_of(base_of(name@)),
{
    let base = base_name(name);
    split_component(base.as_str())
}

/// Composes `{stem}-{token}{ext}` as an owned string.
pub fn compose(stem: &str, token: &str, ext: &str) -> (r: String)
    ensures
        r@ == composed(stem@, token@, ext@),
{
    let mut r = String::from_str(stem);
    r.append("-");
    r.append(token);
    r.append(ext);
    proof {
        reveal_strlit("-");
        assert(r@ =~= composed(stem@, token@, ext@));
    }
    r
}

/// Relies on `uuid::Uuid::new_v4` and its `Display` form: a version-4
/// identifier prints as lower-case hexadecimal digits in five groups
/// separated by dashes, the first group eight digits long, so the first
/// eight characters are lower-case hexadecimal digits.
#[verifier::external_body]
fn fresh_token() -> (r: String)
    ensures
        is_token(r@),
{
    let s = uuid::Uuid::new_v4().to_string();
    s[..8].to_string()
}

/// The naming resolver: draws a fresh token and composes the
/// destination name `{stem}-{token}{ext}`. Safe to call concurrently;
/// no directory is consulted.
pub fn resolve(stem: &str, ext: &str) -> (r: String)
    ensures
        exists|t: Seq<char>| is_token(t) && r@ == composed(stem@, t, ext@),
{
    let token = fresh_token();
    let r = compose(stem, token.as_str(), ext);
    proof {
        assert(is_token(token@) && r@ == composed(stem@, token@, ext@));
    }
    r
}

/// Resolves a whole file name: drops any directories, splits the last
/// path component at its last dot, and places a fresh token between
/// stem and extension. The result holds no path separator, so joining
/// it under the upload root cannot leave the root.
pub fn resolve_name(file_name: &str) -> (r: String)
    ensures
        exists|t: Seq<char>| is_token(t) && r@ == dest_name(file_name@, t),
        forall|j: int| 0 <= j < r@.len() ==> r@[j] != '/',
{
    let (stem, ext) = split_name(file_name);
    let r = resolve(stem.as_str(), ext.as_str());
    proof {
        let t = choose|t: Seq<char>| is_token(t) && r@ == composed(stem@, t, ext@);
        assert(is_token(t) && r@ == dest_name(file_name@, t));
        lemma_dest_name_no_slash(file_name@, t);
    }
    r
}

proof fn lemma_last_slash_is_last(s: Seq<char>, i: int)
    requires
        0 <= i <= s.len(),
    ensures
        last_slash_before(s, i) == -1 || (0 <= last_slash_before(s, i) < i && s[last_slash_before(
            s,
            i,
        )] == '/'),
        forall|j: int| 0 <= j < i && s[j] == '/' ==> j <= last_slash_before(s, i),
    decreases i,
{
    if i > 0 && s[i - 1] != '/' {
        lemma_last_slash_is_last(s, i - 1);
    }
}

/// The last path component holds no slash.
proof fn lemma_base_no_slash(s: Seq<char>)
    ensures
        forall|j: int| 0 <= j < base_of(s).len() ==> base_of(s)[j] != '/',
{
    lemma_last_slash_is_last(s, s.len() as int);
    assert forall|j: int| 0 <= j < base_of(s).len() implies base_of(s)[j] != '/' by {
        assert(base_of(s)[j] == s[last_slash(s) + 1 + j]);
    }
}

/// A destination name holds no path separator: stem and extension
/// come from the slash-free last component, the dash is no slash, and
/// the hexadecimal token alphabet holds none either.
pub proof fn lemma_dest_name_no_slash(n: Seq<char>, t: Seq<char>)
    requires
        is_token(t),
    ensures
        forall|j: int| 0 <= j < dest_name(n, t).len() ==> dest_name(n, t)[j] != '/',
{
    let b = base_of(n);
    let s = stem_of(b);
    let e = ext_of(b);
    let c = dest_name(n, t);
    lemma_base_no_slash(n);
    lemma_last_dot_is_last(b, b.len() as int);
    assert forall|j: int| 0 <= j < c.len() implies c[j] != '/' by {
        if j < s.len() {
            if last_dot(b) >= 1 {
                assert(c[j] == s[j] && s[j] == b[j]);
            } else {
                assert(c[j] == s[j] && s == b);
            }
        } else if j == s.len() {
            assert(c[j] == '-');
        } else if j < s.len() + 9 {
            assert(c[j] == t[j - s.len() - 1]);
            assert(is_hex_digit(t[j - s.len() - 1]));
        } else {
            assert(c[j] == e[j - s.len() - 9]);
            assert(e[j - s.len() - 9] == b[last_dot(b) + (j - s.len() - 9)]);
        }
    }
}

proof fn lemma_last_dot_is_last(s: Seq<char>, i: int)
    requires
        0 <= i <= s.len(),
    ensures
        last_dot_before(s, i) == -1 || (1 <= last_dot_before(s, i) < i && s[last_dot_before(s, i)]
            == '.'),
        forall|j: int| 1 <= j < i && s[j] == '.' ==> j <= last_dot_before(s, i),
    decreases i,
{
    if i > 1 && s[i - 1] != '.' {
        lemma_last_dot_is_last(s, i - 1);
    }
}

proof fn lemma_last_dot_found(c: Seq<char>, d: int, i: int)
    requires
        1 <= d < i <= c.len(),
        c[d] == '.',
        forall|j: int| d < j < i ==> c[j] != '.',
    ensures
        last_dot_before(c, i) == d,
    decreases i,
{
    if c[i - 1] != '.' {
        lemma_last_dot_found(c, d, i - 1);
    }
}

/// Stem and extension together give the component back, the extension
/// is empty or starts with the component's last dot, and a component
/// without an extension has no dot past its first character.
proof fn lemma_split_shape(s: Seq<char>)
    ensures
        stem_of(s) + ext_of(s) == s,
        ext_of(s).len() == 0 ==> forall|j: int| 1 <= j < s.len() ==> s[j] != '.',
        ext_of(s).len() > 0 ==> ext_of(s)[0] == '.' && (forall|j: int|
            1 <= j < ext_of(s).len() ==> ext_of(s)[j] != '.'),
{
    lemma_last_dot_is_last(s, s.len() as int);
    assert(stem_of(s) + ext_of(s) =~= s);
    let ld = last_dot(s);
    if ld >= 1 {
        assert forall|j: int| 1 <= j < ext_of(s).len() implies ext_of(s)[j] != '.' by {
            assert(ext_of(s)[j] == s[ld + j]);
        }
    }
}

/// A destination name determines the token and the last path
/// component of the file name that composed it: two parts write to
/// one target only when their names share a last component and they
/// drew the same token. Tokens here need only their fixed width and a
/// dot-free alphabet, which the hexadecimal token alphabet satisfies.
pub proof fn lemma_dest_name_injective(
    n1: Seq<char>,
    t1: Seq<char>,
    n2: Seq<char>,
    t2: Seq<char>,
)
    requires
        t1.len() == 8,
        t2.len() == 8,
        forall|j: int| 0 <= j < 8 ==> t1[j] != '.',
        forall|j: int| 0 <= j < 8 ==> t2[j] != '.',
        dest_name(n1, t1) == dest_name(n2, t2),
    ensures
        base_of(n1) == base_of(n2),
        t1 == t2,
{
    let b1 = base_of(n1);
    let b2 = base_of(n2);
    let s1 = stem_of(b1);
    let e1 = ext_of(b1);
    let s2 = stem_of(b2);
    let e2 = ext_of(b2);
    let c = composed(s1, t1, e1);
    lemma_split_shape(b1);
    lemma_split_shape(b2);
    if e1.len() > 0 {
        assert(c[s1.len() as int + 9] == e1[0]);
        assert forall|j: int| s1.len() + 9 < j < c.len() implies c[j] != '.' by {
            assert(c[j] == e1[j - (s1.len() + 9)]);
        }
        lemma_last_dot_found(c, s1.len() as int + 9, c.len() as int);
        assert(last_dot(c) == s1.len() + 9);
    } else {
        assert forall|j: int| 1 <= j < c.len() implies c[j] != '.' by {
            if j < s1.len() {
                assert(c[j] == s1[j] && s1[j] == b1[j]);
            } else if j == s1.len() {
                assert(c[j] == '-');
            } else {
                assert(c[j] == t1[j - s1.len() - 1]);
            }
        }
        lemma_last_dot_is_last(c, c.len() as int);
        assert(last_dot(c) == -1);
    }
    if e2.len() > 0 {
        assert(c[s2.len() as int + 9] == e2[0]);
        assert forall|j: int| s2.len() + 9 < j < c.len() implies c[j] != '.' by {
            assert(c[j] == e2[j - (s2.len() + 9)]);
        }
        lemma_last_dot_found(c, s2.len() as int + 9, c.len() as int);
        assert(last_dot(c) == s2.len() + 9);
    } else {
        assert forall|j: int| 1 <= j < c.len() implies c[j] != '.' by {
            if j < s2.len() {
                assert(c[j] == s2[j] && s2[j] == b2[j]);
            } else if j == s2.len() {
                assert(c[j] == '-');
            } else {
                assert(c[j] == t2[j - s2.len() - 1]);
            }
        }
        lemma_last_dot_is_last(c, c.len() as int);
        assert(last_dot(c) == -1);
    }
    assert(s1.len() == s2.len());
    assert forall|j: int| 0 <= j < s1.len() implies s1[j] == s2[j] by {
        assert(c[j] == s1[j]);
        assert(c[j] == s2[j]);
    }
    assert(s1 =~= s2);
    assert forall|j: int| 0 <= j < 8 implies t1[j] == t2[j] by {
        assert(c[s1.len() + 1 + j] == t1[j]);
        assert(c[s2.len() + 1 + j] == t2[j]);
    }
    assert(t1 =~= t2);
    assert forall|j: int| 0 <= j < e1.len() implies e1[j] == e2[j] by {
        assert(c[s1.len() + 9 + j] == e1[j]);
        assert(c[s2.len() + 9 + j] == e2[j]);
    }
    assert(e1 =~= e2);
    assert(b1 == s1 + e1 && b2 == s2 + e2);
}

/// Distinct draws never collide a write target: for tokens from the
/// hexadecimal alphabet, two parts write to the same destination only
/// when their file names share a last path component and they drew
/// the same token.
pub proof fn lemma_distinct_tokens_distinct_targets(
    n1: Seq<char>,
    t1: Seq<char>,
    n2: Seq<char>,
    t2: Seq<char>,
)
    requires
        is_token(t1),
        is_token(t2),
        base_of(n1) != base_of(n2) || t1 != t2,
    ensures
        dest_name(n1, t1) != dest_name(n2, t2),
{
    assert forall|j: int| 0 <= j < 8 implies t1[j] != '.' by {
        assert(is_hex_digit(t1[j]));
    }
    assert forall|j: int| 0 <= j < 8 implies t2[j] != '.' by {
        assert(is_hex_digit(t2[j]));
    }
    if dest_name(n1, t1) == dest_name(n2, t2) {
        lemma_dest_name_injective(n1, t1, n2, t2);
    }
}

/// Names composed from the same stem and extension but different
/// tokens of one length differ: two uploads of the same file name in
/// one request, or in concurrent requests, land in distinct
/// destination files as long as their tokens differ.
pub proof fn lemma_distinct_tokens_distinct_names(
    stem: Seq<char>,
    ext: Seq<char>,
    t1: Seq<char>,
    t2: Seq<char>,
)
    requires
        t1.len() == t2.len(),
        t1 != t2,
    ensures
        composed(stem, t1, ext) != composed(stem, t2, ext),
{
    if composed(stem, t1, ext) == composed(stem, t2, ext) {
        assert forall|k: int| 0 <= k < t1.len() implies t1[k] == t2[k] by {
            assert(composed(stem, t1, ext)[stem.len() + 1 + k] == t1[k]);
            assert(composed(stem, t2, ext)[stem.len() + 1 + k] == t2[k]);
        }
        assert(t1 =~= t2);
    }
}

} // verus!
