//! Validation of untrusted path-like inputs: repository names, branch
//! names and object identifiers, plus safe construction of repository
//! paths under a fixed root.
//!
//! All functions here are pure string computations: they never touch the
//! filesystem and never run the external tool.  Containment of the
//! constructed repository path is established by a logical normalization
//! (resolving `.` and `..` segments) and proved, not just checked.

use vstd::prelude::*;
use vstd::string::*;

use crate::errors::GitApiError;
use crate::strutil::{
    contains_char, first_index_of, join_with, lemma_first_index_of, lemma_first_index_of_is,
    push_char, split_on, split_str, str_eq,
};

verus! {

/// Characters allowed in a repository name.
pub open spec fn is_repo_name_char(c: char) -> bool {
    ('a' <= c && c <= 'z') || ('A' <= c && c <= 'Z') || ('0' <= c && c <= '9') || c == '.' || c
        == '_' || c == '-'
}

/// Characters allowed in a branch name (repository charset plus `/`).
pub open spec fn is_branch_name_char(c: char) -> bool {
    is_repo_name_char(c) || c == '/'
}

/// Hexadecimal digit.
pub open spec fn is_hex_char(c: char) -> bool {
    ('0' <= c && c <= '9') || ('a' <= c && c <= 'f') || ('A' <= c && c <= 'F')
}

/// `s` contains two consecutive dots.
pub open spec fn has_dotdot(s: Seq<char>) -> bool {
    exists|i: int| 0 <= i && i + 1 < s.len() && #[trigger] s[i] == '.' && s[i + 1] == '.'
}

/// `s` contains two consecutive slashes.
pub open spec fn has_double_slash(s: Seq<char>) -> bool {
    exists|i: int| 0 <= i && i + 1 < s.len() && #[trigger] s[i] == '/' && s[i + 1] == '/'
}

/// A valid repository name: non-empty, at most 100 characters, drawn
/// from the allowed charset, with no `..` sequence.
pub open spec fn valid_repo_name(s: Seq<char>) -> bool {
    &&& 1 <= s.len() <= 100
    &&& forall|i: int| 0 <= i < s.len() ==> is_repo_name_char(#[trigger] s[i])
    &&& !has_dotdot(s)
}

/// A valid branch name: non-empty, at most 250 characters, drawn from
/// the branch charset, with no `..`, no leading `-`, and no `//`.
pub open spec fn valid_branch_name(s: Seq<char>) -> bool {
    &&& 1 <= s.len() <= 250
    &&& forall|i: int| 0 <= i < s.len() ==> is_branch_name_char(#[trigger] s[i])
    &&& !has_dotdot(s)
    &&& s[0] != '-'
    &&& !has_double_slash(s)
}

/// A valid object identifier: 6 to 40 hexadecimal digits.
pub open spec fn valid_hash(s: Seq<char>) -> bool {
    &&& 6 <= s.len() <= 40
    &&& forall|i: int| 0 <= i < s.len() ==> is_hex_char(#[trigger] s[i])
}

/// Whether `c` may appear in a repository name.
fn repo_name_char(c: char) -> (r: bool)
    ensures
        r == is_repo_name_char(c),
{
    ('a' <= c && c <= 'z') || ('A' <= c && c <= 'Z') || ('0' <= c && c <= '9') || c == '.' || c
        == '_' || c == '-'
}

/// Whether `c` may appear in a branch name.
fn branch_name_char(c: char) -> (r: bool)
    ensures
        r == is_branch_name_char(c),
{
    repo_name_char(c) || c == '/'
}

/// Whether `c` is a hexadecimal digit.
fn hex_char(c: char) -> (r: bool)
    ensures
        r == is_hex_char(c),
{
    ('0' <= c && c <= '9') || ('a' <= c && c <= 'f') || ('A' <= c && c <= 'F')
}

/// Whether `s` holds two consecutive occurrences of `d`.
fn has_double(s: &str, d: char) -> (r: bool)
    ensures
        r == exists|i: int| 0 <= i && i + 1 < s@.len() && #[trigger] s@[i] == d && s@[i + 1] == d,
{
    let n = s.unicode_len();
    if n < 2 {
        return false;
    }
    let mut i: usize = 0;
    while i + 1 < n
        invariant
            0 <= i < n,
            n == s@.len(),
            forall|k: int| 0 <= k && k + 1 < i + 1 ==> !(#[trigger] s@[k] == d && s@[k + 1] == d),
        decreases n - i,
    {
        if s.get_char(i) == d && s.get_char(i + 1) == d {
            return true;
        }
        i += 1;
    }
    false
}

/// Validate a repository name.
///
/// Accepts exactly the valid names and returns them unchanged; every
/// rejection is an `InvalidInput` error.  In particular any name holding
/// `..`, `/` or `\` is rejected.
pub fn validate_repo_name(repo_name: &str) -> (r: Result<&str, GitApiError>)
    ensures
        r is Ok <==> valid_repo_name(repo_name@),
        r matches Ok(v) ==> v@ == repo_name@,
        r matches Err(e) ==> e is InvalidInput,
{
    let n = repo_name.unicode_len();
    if n == 0 || n > 100 {
        return Err(GitApiError::InvalidInput);
    }
    let mut i: usize = 0;
    while i < n
        invariant
            0 <= i <= n,
            n == repo_name@.len(),
            forall|k: int| 0 <= k < i ==> is_repo_name_char(#[trigger] repo_name@[k]),
        decreases n - i,
    {
        if !repo_name_char(repo_name.get_char(i)) {
            return Err(GitApiError::InvalidInput);
        }
        i += 1;
    }
    if has_double(repo_name, '.') {
        return Err(GitApiError::InvalidInput);
    }
    Ok(repo_name)
}

/// Validate a branch name.
///
/// Accepts exactly the valid names and returns them unchanged; every
/// rejection is an `InvalidInput` error.
pub fn validate_branch_name(branch_name: &str) -> (r: Result<&str, GitApiError>)
    ensures
        r is Ok <==> valid_branch_name(branch_name@),
        r matches Ok(v) ==> v@ == branch_name@,
        r matches Err(e) ==> e is InvalidInput,
{
    let n = branch_name.unicode_len();
    if n == 0 || n > 250 {
        return Err(GitApiError::InvalidInput);
    }
    if branch_name.get_char(0) == '-' {
        return Err(GitApiError::InvalidInput);
    }
    let mut i: usize = 0;
    while i < n
        invariant
            0 <= i <= n,
            n == branch_name@.len(),
            forall|k: int| 0 <= k < i ==> is_branch_name_char(#[trigger] branch_name@[k]),
        decreases n - i,
    {
        if !branch_name_char(branch_name.get_char(i)) {
            return Err(GitApiError::InvalidInput);
        }
        i += 1;
    }
    if has_double(branch_name, '.') {
        return Err(GitApiError::InvalidInput);
    }
    if has_double(branch_name, '/') {
        return Err(GitApiError::InvalidInput);
    }
    Ok(branch_name)
}

/// Validate an object identifier (a content hash).
///
/// Accepts exactly the strings of 6 to 40 hexadecimal digits, unchanged;
/// every rejection is an `InvalidInput` error.
pub fn validate_hash(hash: &str) -> (r: Result<&str, GitApiError>)
    ensures
        r is Ok <==> valid_hash(hash@),
        r matches Ok(v) ==> v@ == hash@,
        r matches Err(e) ==> e is InvalidInput,
{
    let n = hash.unicode_len();
    if n < 6 || n > 40 {
        return Err(GitApiError::InvalidInput);
    }
    let mut i: usize = 0;
    while i < n
        invariant
            0 <= i <= n,
            n == hash@.len(),
            forall|k: int| 0 <= k < i ==> is_hex_char(#[trigger] hash@[k]),
        decreases n - i,
    {
        if !hex_char(hash.get_char(i)) {
            return Err(GitApiError::InvalidInput);
        }
        i += 1;
    }
    Ok(hash)
}

/// The `.git` suffix appended to a repository name to form its
/// directory name.
pub open spec fn git_suffix() -> Seq<char> {
    seq!['.', 'g', 'i', 't']
}

/// The path of the repository directory for `name` under `base`:
/// `base`, a single `/` separator, and `name` with `.git` appended.
pub open spec fn spec_join_repo(base: Seq<char>, name: Seq<char>) -> Seq<char> {
    if base.len() > 0 && base.last() == '/' {
        base + name + git_suffix()
    } else {
        base + seq!['/'] + name + git_suffix()
    }
}

/// Resolves a sequence of path segments: empty segments and `.` are
/// dropped, `..` removes the segment before it (if any), everything
/// else stays.
pub open spec fn norm_stack(ps: Seq<Seq<char>>) -> Seq<Seq<char>>
    decreases ps.len(),
{
    if ps.len() == 0 {
        Seq::empty()
    } else {
        let pre = norm_stack(ps.drop_last());
        let p = ps.last();
        if p.len() == 0 || p == seq!['.'] {
            pre
        } else if p == seq!['.', '.'] {
            if pre.len() > 0 {
                pre.drop_last()
            } else {
                pre
            }
        } else {
            pre.push(p)
        }
    }
}

/// The normalized segments of a path string: split on `/`, then resolve
/// `.` and `..` without touching the filesystem.
pub open spec fn normalize_spec(s: Seq<char>) -> Seq<Seq<char>> {
    norm_stack(split_on(s, '/'))
}

/// What `normalize_path` returns: the normalized segments joined with
/// `/`, with a leading `/` kept when the input was absolute.
pub open spec fn spec_normalize_path(s: Seq<char>) -> Seq<char> {
    if s.len() > 0 && s[0] == '/' {
        seq!['/'] + join_with(normalize_spec(s), '/')
    } else {
        join_with(normalize_spec(s), '/')
    }
}

/// `pre` is a segment-wise prefix of `full`.
pub open spec fn is_path_prefix(pre: Seq<Seq<char>>, full: Seq<Seq<char>>) -> bool {
    pre.len() <= full.len() && full.subrange(0, pre.len() as int) == pre
}

/// Splitting distributes over concatenation at a delimiter.
pub proof fn lemma_split_on_concat(a: Seq<char>, b: Seq<char>, d: char)
    ensures
        split_on(a + seq![d] + b, d) == split_on(a, d) + split_on(b, d),
    decreases a.len(),
{
    let s = a + seq![d] + b;
    let i = first_index_of(a, d);
    lemma_first_index_of(a, d);
    if i == a.len() {
        assert forall|k: int| 0 <= k < a.len() implies s[k] != d by {
            assert(s[k] == a[k]);
        }
        assert(s[a.len() as int] == d);
        lemma_first_index_of_is(s, d, a.len() as int);
        assert(s.subrange(0, a.len() as int) =~= a);
        assert(s.subrange(a.len() as int + 1, s.len() as int) =~= b);
        assert(split_on(s, d) =~= seq![a] + split_on(b, d));
        assert(split_on(a, d) =~= seq![a]);
        assert(seq![a] + split_on(b, d) =~= split_on(a, d) + split_on(b, d));
    } else {
        assert forall|k: int| 0 <= k < i implies s[k] != d by {
            assert(s[k] == a[k]);
        }
        assert(s[i] == a[i]);
        lemma_first_index_of_is(s, d, i);
        let a2 = a.subrange(i + 1, a.len() as int);
        assert(s.subrange(0, i) =~= a.subrange(0, i));
        assert(s.subrange(i + 1, s.len() as int) =~= a2 + seq![d] + b);
        lemma_split_on_concat(a2, b, d);
        assert(split_on(s, d) == seq![a.subrange(0, i)] + (split_on(a2, d) + split_on(b, d)));
        assert(split_on(a, d) == seq![a.subrange(0, i)] + split_on(a2, d));
        assert(seq![a.subrange(0, i)] + (split_on(a2, d) + split_on(b, d)) =~= (seq![
            a.subrange(0, i),
        ] + split_on(a2, d)) + split_on(b, d));
    }
}

/// A repository directory segment (`name` plus `.git`) survives
/// normalization: appending it to any base appends one segment.
pub proof fn lemma_join_repo_normalize(base: Seq<char>, name: Seq<char>)
    requires
        valid_repo_name(name),
    ensures
        normalize_spec(spec_join_repo(base, name)) == normalize_spec(base).push(
            name + git_suffix(),
        ),
{
    let p = name + git_suffix();
    assert(p.len() >= 5);
    assert forall|k: int| 0 <= k < p.len() implies p[k] != '/' by {
        if k < name.len() {
            assert(is_repo_name_char(name[k]));
        } else {
            assert(p[k] == git_suffix()[k - name.len()]);
        }
    }
    lemma_first_index_of_is(p, '/', p.len() as int);
    assert(split_on(p, '/') =~= seq![p]);
    if base.len() > 0 && base.last() == '/' {
        let bd = base.drop_last();
        assert(base =~= bd + seq!['/'] + Seq::<char>::empty());
        lemma_split_on_concat(bd, Seq::<char>::empty(), '/');
        lemma_first_index_of_is(Seq::<char>::empty(), '/', 0);
        assert(split_on(Seq::<char>::empty(), '/') =~= seq![Seq::<char>::empty()]);
        assert(split_on(base, '/') =~= split_on(bd, '/').push(Seq::<char>::empty()));
        assert(split_on(base, '/').drop_last() =~= split_on(bd, '/'));
        assert(norm_stack(split_on(base, '/')) == norm_stack(split_on(bd, '/')));
        assert(spec_join_repo(base, name) =~= bd + seq!['/'] + p);
        lemma_split_on_concat(bd, p, '/');
        assert(split_on(spec_join_repo(base, name), '/') =~= split_on(bd, '/').push(p));
        let ps = split_on(bd, '/').push(p);
        assert(ps.drop_last() =~= split_on(bd, '/'));
        assert(p != seq!['.'] && p != seq!['.', '.'] && p.len() != 0);
        assert(norm_stack(ps) == norm_stack(split_on(bd, '/')).push(p));
    } else {
        assert(spec_join_repo(base, name) == base + seq!['/'] + p);
        lemma_split_on_concat(base, p, '/');
        assert(split_on(spec_join_repo(base, name), '/') =~= split_on(base, '/').push(p));
        let ps = split_on(base, '/').push(p);
        assert(ps.drop_last() =~= split_on(base, '/'));
        assert(p != seq!['.'] && p != seq!['.', '.'] && p.len() != 0);
        assert(norm_stack(ps) == norm_stack(split_on(base, '/')).push(p));
    }
}

/// The resolved path of a valid repository name is always contained in
/// the base directory: its normalized form extends the normalized base.
pub proof fn lemma_repo_path_contained(base: Seq<char>, name: Seq<char>)
    requires
        valid_repo_name(name),
    ensures
        is_path_prefix(normalize_spec(base), normalize_spec(spec_join_repo(base, name))),
{
    lemma_join_repo_normalize(base, name);
    let nb = normalize_spec(base);
    assert(nb.push(name + git_suffix()).subrange(0, nb.len() as int) =~= nb);
}

/// The normalized segments of a path, with `.` and `..` resolved
/// without touching the filesystem.
pub fn normalize_components(s: &str) -> (r: Vec<String>)
    ensures
        r@.map_values(|p: String| p@) == normalize_spec(s@),
{
    let pieces = split_str(s, '/');
    let mut out: Vec<String> = Vec::new();
    let mut i: usize = 0;
    proof {
        assert(pieces@.map_values(|p: String| p@).take(0) =~= Seq::<Seq<char>>::empty());
        assert(out@.map_values(|p: String| p@) =~= Seq::<Seq<char>>::empty());
    }
    while i < pieces.len()
        invariant
            0 <= i <= pieces@.len(),
            pieces@.map_values(|p: String| p@) == split_on(s@, '/'),
            out@.map_values(|p: String| p@) == norm_stack(
                pieces@.map_values(|p: String| p@).take(i as int),
            ),
        decreases pieces@.len() - i,
    {
        let ghost pv = pieces@.map_values(|p: String| p@);
        let ghost old_out = out@;
        proof {
            assert(pv.take(i + 1).drop_last() =~= pv.take(i as int));
            assert(pv.take(i + 1).last() == pieces@[i as int]@);
            reveal_strlit(".");
            reveal_strlit("..");
            assert("."@ =~= seq!['.']);
            assert(".."@ =~= seq!['.', '.']);
        }
        let piece = &pieces[i];
        if piece.unicode_len() == 0 {
            // empty segment: dropped
        } else if str_eq(piece.as_str(), ".") {
            // current-directory segment: dropped
        } else if str_eq(piece.as_str(), "..") {
            if out.len() > 0 {
                out.pop();
                proof {
                    assert(out@.map_values(|p: String| p@) =~= old_out.map_values(
                        |p: String| p@,
                    ).drop_last());
                }
            }
        } else {
            out.push(piece.clone());
            proof {
                assert(out@.map_values(|p: String| p@) =~= old_out.map_values(|p: String| p@).push(
                    pieces@[i as int]@,
                ));
            }
        }
        i += 1;
    }
    proof {
        let pv = pieces@.map_values(|p: String| p@);
        assert(pv.take(pv.len() as int) =~= pv);
    }
    out
}

/// Normalize a path string by resolving `.` and `..` segments, without
/// requiring the path to exist.
pub fn normalize_path(s: &str) -> (r: String)
    ensures
        r@ == spec_normalize_path(s@),
{
    let comps = normalize_components(s);
    let mut out = String::new();
    let ghost cv = comps@.map_values(|p: String| p@);
    let ghost lead: Seq<char> = if s@.len() > 0 && s@[0] == '/' {
        seq!['/']
    } else {
        Seq::<char>::empty()
    };
    if s.unicode_len() > 0 && s.get_char(0) == '/' {
        push_char(&mut out, '/');
    }
    proof {
        assert(out@ =~= lead);
        assert(out@ =~= lead + join_with(cv.take(0), '/'));
    }
    let mut i: usize = 0;
    while i < comps.len()
        invariant
            0 <= i <= comps@.len(),
            cv == comps@.map_values(|p: String| p@),
            out@ == lead + join_with(cv.take(i as int), '/'),
            lead == if s@.len() > 0 && s@[0] == '/' {
                seq!['/']
            } else {
                Seq::<char>::empty()
            },
        decreases comps@.len() - i,
    {
        if i > 0 {
            push_char(&mut out, '/');
        }
        out.append(comps[i].as_str());
        proof {
            assert(cv.take(i + 1).drop_last() =~= cv.take(i as int));
            assert(cv.take(i + 1).last() == cv[i as int]);
            if i == 0 {
                assert(join_with(cv.take(1), '/') == cv[0]);
                assert(out@ =~= lead + join_with(cv.take(1), '/'));
            } else {
                assert(join_with(cv.take(i + 1), '/') == join_with(cv.take(i as int), '/')
                    + seq!['/'] + cv[i as int]);
                assert(out@ =~= lead + join_with(cv.take(i + 1), '/'));
            }
        }
        i += 1;
    }
    proof {
        assert(cv.take(cv.len() as int) =~= cv);
    }
    out
}

/// Validate a repository name and construct the repository's path under
/// `base_path`.
///
/// Succeeds exactly on valid repository names.  The returned path is
/// `base_path`, a `/` separator, and the name with `.git` appended, and
/// its normalized form always extends the normalized base: a valid name
/// cannot escape the base directory.
pub fn validate_repo_path(base_path: &str, repo_name: &str) -> (r: Result<String, GitApiError>)
    ensures
        r is Ok <==> valid_repo_name(repo_name@),
        r matches Ok(v) ==> v@ == spec_join_repo(base_path@, repo_name@) && is_path_prefix(
            normalize_spec(base_path@),
            normalize_spec(v@),
        ),
        r matches Err(e) ==> e is InvalidInput,
{
    let name = match validate_repo_name(repo_name) {
        Ok(n) => n,
        Err(e) => {
            return Err(e);
        },
    };
    let mut joined = String::new();
    joined.append(base_path);
    let bn = base_path.unicode_len();
    if bn == 0 || base_path.get_char(bn - 1) != '/' {
        push_char(&mut joined, '/');
    }
    joined.append(name);
    joined.append(".git");
    proof {
        reveal_strlit(".git");
        assert(".git"@ =~= git_suffix());
        assert(joined@ =~= spec_join_repo(base_path@, repo_name@));
        lemma_repo_path_contained(base_path@, repo_name@);
        lemma_join_repo_normalize(base_path@, repo_name@);
    }
    // Defensive containment check: compare the normalized path against
    // the normalized base, segment by segment.
    let norm_base = normalize_components(base_path);
    let norm_joined = normalize_components(joined.as_str());
    if norm_joined.len() < norm_base.len() {
        return Err(GitApiError::InvalidInput);
    }
    let mut i: usize = 0;
    while i < norm_base.len()
        invariant
            0 <= i <= norm_base@.len() <= norm_joined@.len(),
            norm_base@.map_values(|p: String| p@) == normalize_spec(base_path@),
            norm_joined@.map_values(|p: String| p@) == normalize_spec(base_path@).push(
                repo_name@ + git_suffix(),
            ),
        decreases norm_base@.len() - i,
    {
        if !str_eq(norm_base[i].as_str(), norm_joined[i].as_str()) {
            proof {
                assert(norm_joined@.map_values(|p: String| p@)[i as int] == norm_base@.map_values(
                    |p: String| p@,
                )[i as int]);
            }
            return Err(GitApiError::InvalidInput);
        }
        i += 1;
    }
    Ok(joined)
}

/// Any string holding `..`, `/` or `\` is rejected as a repository name.
pub proof fn lemma_repo_name_rejects_traversal(s: Seq<char>)
    requires
        has_dotdot(s) || contains_char(s, '/') || contains_char(s, '\\'),
    ensures
        !valid_repo_name(s),
{
    if has_dotdot(s) {
    } else if contains_char(s, '/') {
        let i = choose|i: int| 0 <= i < s.len() && s[i] == '/';
        assert(!is_repo_name_char(s[i]));
    } else {
        let i = choose|i: int| 0 <= i < s.len() && s[i] == '\\';
        assert(!is_repo_name_char(s[i]));
    }
}

} // verus!
