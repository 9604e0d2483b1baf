//! Repositories: tree listings parsed into entries, and the repository
//! list built from per-repository metadata.
//!
//! A tree listing line has the shape `<mode> <type> <hash>\t<name>`.
//! Parsing a listing is partial-success: a malformed line is skipped and
//! the rest of the listing still parses, so one bad line cannot hide a
//! repository's browsable content.  The commit attached to each entry
//! comes from a separate log stream supplied by the caller.

use vstd::multiset::Multiset;
use vstd::prelude::*;
use vstd::string::*;

use crate::commits::{
    lemma_last_commit_date_canonical, spec_last_commit, last_commit_of_log, Commit, CommitView,
};
use crate::dates::{parse_string_to_date, spec_parse_canonical, Date};
use crate::errors::GitApiError;
use crate::strutil::{push_char, split_on, split_str};

verus! {

/// One entry of a parsed tree listing line: display name (path-qualified
/// when the listing was reached by object id), type tag, and object
/// hash.
#[derive(Debug, Clone)]
pub struct ParsedObject {
    pub name: String,
    pub file_type: String,
    pub object_hash: String,
}

/// The mathematical value of a `ParsedObject`.
pub ghost struct ParsedObjectView {
    pub name: Seq<char>,
    pub file_type: Seq<char>,
    pub object_hash: Seq<char>,
}

impl View for ParsedObject {
    type V = ParsedObjectView;

    open spec fn view(&self) -> ParsedObjectView {
        ParsedObjectView {
            name: self.name@,
            file_type: self.file_type@,
            object_hash: self.object_hash@,
        }
    }
}

/// An entry of a repository tree: a file or subtree, with the most
/// recent commit touching it.
#[derive(Debug, Clone)]
pub struct RepoBranchFile {
    pub name: String,
    pub file_type: String,
    pub object_hash: String,
    pub last_commit: Commit,
}

/// The mathematical value of a `RepoBranchFile`.
pub ghost struct RepoBranchFileView {
    pub name: Seq<char>,
    pub file_type: Seq<char>,
    pub object_hash: Seq<char>,
    pub last_commit: CommitView,
}

impl View for RepoBranchFile {
    type V = RepoBranchFileView;

    open spec fn view(&self) -> RepoBranchFileView {
        RepoBranchFileView {
            name: self.name@,
            file_type: self.file_type@,
            object_hash: self.object_hash@,
            last_commit: self.last_commit@,
        }
    }
}

/// A repository at one state: its tree entries, and the content of
/// `README.md` when present and reached by branch.
#[derive(Debug)]
pub struct Repo {
    pub objects: Vec<RepoBranchFile>,
    pub read_me: Option<String>,
}

/// The mathematical value of a `Repo`.
pub ghost struct RepoView {
    pub objects: Seq<RepoBranchFileView>,
    pub read_me: Option<Seq<char>>,
}

impl View for Repo {
    type V = RepoView;

    open spec fn view(&self) -> RepoView {
        RepoView {
            objects: self.objects@.map_values(|o: RepoBranchFile| o@),
            read_me: match self.read_me {
                Some(ref s) => Some(s@),
                None => None,
            },
        }
    }
}

/// Metadata of one hosted repository: name, description and most recent
/// commit.
#[derive(Debug, Clone)]
pub struct RepoData {
    pub name: String,
    pub description: String,
    pub last_commit: Commit,
}

/// The mathematical value of a `RepoData`.
pub ghost struct RepoDataView {
    pub name: Seq<char>,
    pub description: Seq<char>,
    pub last_commit: CommitView,
}

impl View for RepoData {
    type V = RepoDataView;

    open spec fn view(&self) -> RepoDataView {
        RepoDataView {
            name: self.name@,
            description: self.description@,
            last_commit: self.last_commit@,
        }
    }
}

/// The raw material for one repository list entry: the repository's
/// directory name, its description file's text (empty if absent), and
/// the delimited log output of its default branch.
#[derive(Debug, Clone)]
pub struct RepoSource {
    pub dir_name: String,
    pub description: String,
    pub log_output: String,
}

/// The mathematical value of a `RepoSource`.
pub ghost struct RepoSourceView {
    pub dir_name: Seq<char>,
    pub description: Seq<char>,
    pub log_output: Seq<char>,
}

impl View for RepoSource {
    type V = RepoSourceView;

    open spec fn view(&self) -> RepoSourceView {
        RepoSourceView {
            dir_name: self.dir_name@,
            description: self.description@,
            log_output: self.log_output@,
        }
    }
}

/// The view of an optional path prefix argument.
pub open spec fn opt_str_view(o: Option<&str>) -> Option<Seq<char>> {
    match o {
        Some(p) => Some(p@),
        None => None,
    }
}

/// Parse of one tree listing line, split first on spaces and then on a
/// tab; with a parent path the display name is `parent/name`.
pub open spec fn spec_parse_object(line: Seq<char>, parent: Option<Seq<char>>) -> Result<
    ParsedObjectView,
    GitApiError,
> {
    let parts = split_on(line, ' ');
    if parts.len() < 3 {
        Err(GitApiError::ParseError)
    } else {
        let hash_and_name = split_on(parts[2], '\t');
        if hash_and_name.len() < 2 {
            Err(GitApiError::ParseError)
        } else {
            Ok(
                ParsedObjectView {
                    name: match parent {
                        Some(p) => p + seq!['/'] + hash_and_name[1],
                        None => hash_and_name[1],
                    },
                    file_type: parts[1],
                    object_hash: hash_and_name[0],
                },
            )
        }
    }
}

/// Parse of a whole tree listing: lines that fail to parse are skipped,
/// the rest keep their order.
pub open spec fn spec_parse_listing_lines(ls: Seq<Seq<char>>, parent: Option<Seq<char>>) -> Seq<
    ParsedObjectView,
>
    decreases ls.len(),
{
    if ls.len() == 0 {
        Seq::empty()
    } else {
        let pre = spec_parse_listing_lines(ls.drop_last(), parent);
        match spec_parse_object(ls.last(), parent) {
            Ok(o) => pre.push(o),
            Err(_) => pre,
        }
    }
}

/// The entries of a tree listing text, malformed lines skipped.
pub open spec fn spec_parse_listing(text: Seq<char>, parent: Option<Seq<char>>) -> Seq<
    ParsedObjectView,
> {
    spec_parse_listing_lines(split_on(text, '\n'), parent)
}

/// The entry name a listing is scanned for to surface its content.
pub open spec fn readme_name() -> Seq<char> {
    seq!['R', 'E', 'A', 'D', 'M', 'E', '.', 'm', 'd']
}

/// Some entry of the listing is literally named `README.md`.
pub open spec fn spec_has_readme(objs: Seq<ParsedObjectView>) -> bool {
    exists|i: int| 0 <= i < objs.len() && #[trigger] objs[i].name == readme_name()
}

impl Repo {
    /// Parse one tree listing line into an entry.
    ///
    /// The line is split on spaces into mode, type and the rest, and the
    /// rest on a tab into object hash and name; too few pieces on either
    /// split is a `ParseError`.  With a parent path (a listing reached
    /// by object id) the entry's name is qualified as `parent/name`.
    pub fn parse_object(unparsed_object: &str, parent_path: Option<&str>) -> (r: Result<
        ParsedObject,
        GitApiError,
    >)
        ensures
            r is Ok <==> spec_parse_object(unparsed_object@, opt_str_view(parent_path)) is Ok,
            r matches Ok(o) ==> Ok::<ParsedObjectView, GitApiError>(o@) == spec_parse_object(
                unparsed_object@,
                opt_str_view(parent_path),
            ),
            r matches Err(e) ==> Err::<ParsedObjectView, GitApiError>(e) == spec_parse_object(
                unparsed_object@,
                opt_str_view(parent_path),
            ),
    {
        let parts = split_str(unparsed_object, ' ');
        if parts.len() < 3 {
            return Err(GitApiError::ParseError);
        }
        let hash_and_name = split_str(parts[2].as_str(), '\t');
        if hash_and_name.len() < 2 {
            return Err(GitApiError::ParseError);
        }
        let name = match parent_path {
            Some(p) => {
                let mut qualified = String::new();
                qualified.append(p);
                push_char(&mut qualified, '/');
                qualified.append(hash_and_name[1].as_str());
                proof {
                    assert(qualified@ =~= p@ + seq!['/'] + hash_and_name@[1]@);
                }
                qualified
            },
            None => hash_and_name[1].clone(),
        };
        let file_type = parts[1].clone();
        let object_hash = hash_and_name[0].clone();
        Ok(ParsedObject { name, file_type, object_hash })
    }

    /// Parse a tree listing text into its entries.
    ///
    /// Partial success: each line that fails to parse is skipped, and
    /// every well-formed line yields an entry, in listing order.
    pub fn parse_listing(text: &str, parent_path: Option<&str>) -> (r: Vec<ParsedObject>)
        ensures
            r@.map_values(|o: ParsedObject| o@) == spec_parse_listing(
                text@,
                opt_str_view(parent_path),
            ),
    {
        let lines = split_str(text, '\n');
        let ghost lv = lines@.map_values(|p: String| p@);
        let ghost parent = opt_str_view(parent_path);
        let mut out: Vec<ParsedObject> = Vec::new();
        let mut i: usize = 0;
        proof {
            assert(lv.take(0) =~= Seq::<Seq<char>>::empty());
            assert(out@.map_values(|o: ParsedObject| o@) =~= spec_parse_listing_lines(
                lv.take(0),
                parent,
            ));
        }
        while i < lines.len()
            invariant
                0 <= i <= lines@.len(),
                lv == lines@.map_values(|p: String| p@),
                parent == opt_str_view(parent_path),
                out@.map_values(|o: ParsedObject| o@) == spec_parse_listing_lines(
                    lv.take(i as int),
                    parent,
                ),
            decreases lines@.len() - i,
        {
            let ghost old_out = out@;
            proof {
                assert(lv.take(i + 1).drop_last() =~= lv.take(i as int));
                assert(lv.take(i + 1).last() == lv[i as int]);
            }
            match Self::parse_object(lines[i].as_str(), parent_path) {
                Ok(o) => {
                    out.push(o);
                    proof {
                        assert(out@.map_values(|o: ParsedObject| o@) =~= old_out.map_values(
                            |o: ParsedObject| o@,
                        ).push(out@.last()@));
                    }
                },
                Err(_) => {
                    // malformed line: skipped, the rest of the listing
                    // still parses
                },
            }
            i += 1;
        }
        proof {
            assert(lv.take(lv.len() as int) =~= lv);
        }
        out
    }

    /// Whether a parsed listing holds an entry named `README.md`.
    pub fn has_readme(objects: &Vec<ParsedObject>) -> (r: bool)
        ensures
            r == spec_has_readme(objects@.map_values(|o: ParsedObject| o@)),
    {
        proof {
            reveal_strlit("README.md");
            assert("README.md"@ =~= readme_name());
        }
        let ghost ov = objects@.map_values(|o: ParsedObject| o@);
        let mut i: usize = 0;
        while i < objects.len()
            invariant
                0 <= i <= objects@.len(),
                ov == objects@.map_values(|o: ParsedObject| o@),
                forall|k: int| 0 <= k < i ==> #[trigger] ov[k].name != readme_name(),
            decreases objects@.len() - i,
        {
            if crate::strutil::str_eq(objects[i].name.as_str(), "README.md") {
                proof {
                    reveal_strlit("README.md");
                    assert(ov[i as int].name == readme_name());
                }
                return true;
            }
            proof {
                reveal_strlit("README.md");
                assert("README.md"@ =~= readme_name());
            }
            i += 1;
        }
        false
    }

    /// The argument handed to the tool to show a branch's `README.md`:
    /// `branch:README.md`.
    pub fn readme_show_arg(branch: &str) -> (r: String)
        ensures
            r@ == branch@ + seq![':'] + readme_name(),
    {
        let mut out = String::new();
        out.append(branch);
        push_char(&mut out, ':');
        out.append("README.md");
        proof {
            reveal_strlit("README.md");
            assert(out@ =~= branch@ + seq![':'] + readme_name());
        }
        out
    }

    /// Attach to each parsed entry the most recent commit from its own
    /// log stream, skipping entries whose stream yields no commit.
    ///
    /// `logs[i]` is the delimited log output fetched for `objects[i]`;
    /// an entry whose log is empty or malformed is dropped, as with
    /// malformed listing lines.
    pub fn assemble(objects: &Vec<ParsedObject>, logs: &Vec<String>, read_me: Option<String>) -> (r:
        Repo)
        requires
            objects@.len() == logs@.len(),
        ensures
            r@.objects == spec_assemble(
                objects@.map_values(|o: ParsedObject| o@),
                logs@.map_values(|l: String| l@),
            ),
            r@.read_me == match read_me {
                Some(s) => Some(s@),
                None => None::<Seq<char>>,
            },
    {
        let ghost ov = objects@.map_values(|o: ParsedObject| o@);
        let ghost gv = logs@.map_values(|l: String| l@);
        let mut files: Vec<RepoBranchFile> = Vec::new();
        let mut i: usize = 0;
        proof {
            assert(ov.take(0) =~= Seq::<ParsedObjectView>::empty());
            assert(gv.take(0) =~= Seq::<Seq<char>>::empty());
            assert(files@.map_values(|f: RepoBranchFile| f@) =~= spec_assemble(
                ov.take(0),
                gv.take(0),
            ));
        }
        while i < objects.len()
            invariant
                0 <= i <= objects@.len(),
                objects@.len() == logs@.len(),
                ov == objects@.map_values(|o: ParsedObject| o@),
                gv == logs@.map_values(|l: String| l@),
                files@.map_values(|f: RepoBranchFile| f@) == spec_assemble(
                    ov.take(i as int),
                    gv.take(i as int),
                ),
            decreases objects@.len() - i,
        {
            let ghost old_files = files@;
            proof {
                assert(ov.take(i + 1).drop_last() =~= ov.take(i as int));
                assert(gv.take(i + 1).drop_last() =~= gv.take(i as int));
                assert(ov.take(i + 1).last() == ov[i as int]);
                assert(gv.take(i + 1).last() == gv[i as int]);
            }
            match last_commit_of_log(logs[i].as_str()) {
                Ok(c) => {
                    let file = RepoBranchFile {
                        name: objects[i].name.clone(),
                        file_type: objects[i].file_type.clone(),
                        object_hash: objects[i].object_hash.clone(),
                        last_commit: c,
                    };
                    files.push(file);
                    proof {
                        assert(files@.map_values(|f: RepoBranchFile| f@) =~= old_files.map_values(
                            |f: RepoBranchFile| f@,
                        ).push(files@.last()@));
                    }
                },
                Err(_) => {
                    // no commit found for this entry: dropped
                },
            }
            i += 1;
        }
        proof {
            assert(ov.take(ov.len() as int) =~= ov);
            assert(gv.take(gv.len() as int) =~= gv);
        }
        Repo { objects: files, read_me }
    }
}

/// Index of the last occurrence of `c` in `s`, or `-1` if absent.
pub open spec fn last_index_of(s: Seq<char>, c: char) -> int
    decreases s.len(),
{
    if s.len() == 0 {
        -1
    } else if s.last() == c {
        s.len() - 1
    } else {
        last_index_of(s.drop_last(), c)
    }
}

/// The last index is determined by its two properties.
proof fn lemma_last_index_of_is(s: Seq<char>, c: char, i: int)
    requires
        -1 <= i < s.len(),
        forall|k: int| i < k < s.len() ==> s[k] != c,
        0 <= i ==> s[i] == c,
    ensures
        last_index_of(s, c) == i,
    decreases s.len(),
{
    if s.len() == 0 {
    } else if s.last() == c {
        assert(i == s.len() - 1);
    } else {
        assert(i < s.len() - 1);
        assert forall|k: int| i < k < s.drop_last().len() implies s.drop_last()[k] != c by {
            assert(s.drop_last()[k] == s[k]);
        }
        if 0 <= i {
            assert(s.drop_last()[i] == s[i]);
        }
        lemma_last_index_of_is(s.drop_last(), c, i);
    }
}

/// A repository's display name: its directory name with the extension
/// after the last dot removed, unless the dot leads the name.
pub open spec fn spec_display_name(dir: Seq<char>) -> Seq<char> {
    let i = last_index_of(dir, '.');
    if i > 0 {
        dir.subrange(0, i)
    } else {
        dir
    }
}

/// The display name of a repository directory (`demo.git` shows as
/// `demo`; a name without an extension, or a leading-dot name, stays
/// whole).
pub fn repo_display_name(dir_name: &str) -> (r: String)
    ensures
        r@ == spec_display_name(dir_name@),
{
    let n = dir_name.unicode_len();
    let mut i: usize = n;
    while i > 0
        invariant
            0 <= i <= n,
            n == dir_name@.len(),
            forall|k: int| i <= k < n ==> dir_name@[k] != '.',
        decreases i,
    {
        i -= 1;
        if dir_name.get_char(i) == '.' {
            proof {
                lemma_last_index_of_is(dir_name@, '.', i as int);
            }
            if i > 0 {
                return String::from_str(dir_name.substring_char(0, i));
            } else {
                return String::from_str(dir_name);
            }
        }
    }
    proof {
        lemma_last_index_of_is(dir_name@, '.', -1);
    }
    String::from_str(dir_name)
}

/// The metadata built for one repository source: an empty or malformed
/// log fails with that stream's error.
pub open spec fn spec_repo_data(src: RepoSourceView) -> Result<RepoDataView, GitApiError> {
    match spec_last_commit(src.log_output) {
        Err(e) => Err(e),
        Ok(c) => Ok(
            RepoDataView {
                name: spec_display_name(src.dir_name),
                description: src.description,
                last_commit: c,
            },
        ),
    }
}

/// The repository list before sorting: one entry per source, in order;
/// the first failing source's error is the list's error.
pub open spec fn spec_build_repo_list(srcs: Seq<RepoSourceView>) -> Result<
    Seq<RepoDataView>,
    GitApiError,
>
    decreases srcs.len(),
{
    if srcs.len() == 0 {
        Ok(Seq::empty())
    } else {
        match spec_repo_data(srcs[0]) {
            Err(e) => Err(e),
            Ok(d) => match spec_build_repo_list(srcs.drop_first()) {
                Err(e) => Err(e),
                Ok(rest) => Ok(seq![d] + rest),
            },
        }
    }
}

/// Entries already built, prepended to the outcome for the rest of the
/// sources.
pub open spec fn prepend_repos(pre: Seq<RepoDataView>, r: Result<Seq<RepoDataView>, GitApiError>)
    -> Result<Seq<RepoDataView>, GitApiError> {
    match r {
        Ok(ds) => Ok(pre + ds),
        Err(e) => Err(e),
    }
}

/// The entry's commit date parses as a canonical display date.
pub open spec fn date_sortable(rd: RepoDataView) -> bool {
    spec_parse_canonical(rd.last_commit.date) is Some
}

/// Every entry's commit date is canonical.
pub open spec fn all_sortable(s: Seq<RepoDataView>) -> bool {
    forall|k: int| 0 <= k < s.len() ==> date_sortable(#[trigger] s[k])
}

/// The date an entry sorts by.
pub open spec fn spec_date_of(rd: RepoDataView) -> Date {
    spec_parse_canonical(rd.last_commit.date)->0
}

/// Dates ordered by year, month, day, hour, minute.
pub open spec fn spec_date_le(a: Date, b: Date) -> bool {
    if a.year != b.year {
        a.year < b.year
    } else if a.month != b.month {
        a.month < b.month
    } else if a.day != b.day {
        a.day < b.day
    } else if a.hour != b.hour {
        a.hour < b.hour
    } else {
        a.minute <= b.minute
    }
}

/// The date order is total and transitive.
proof fn lemma_date_le_total(a: Date, b: Date)
    ensures
        spec_date_le(a, b) || spec_date_le(b, a),
{
}

/// Transitivity of the date order.
proof fn lemma_date_le_trans(a: Date, b: Date, c: Date)
    requires
        spec_date_le(a, b),
        spec_date_le(b, c),
    ensures
        spec_date_le(a, c),
{
}

/// Entries sorted by commit date, most recent first.
pub open spec fn sorted_by_date_desc(s: Seq<RepoDataView>) -> bool {
    forall|i: int, j: int|
        0 <= i < j < s.len() ==> spec_date_le(spec_date_of(#[trigger] s[j]), spec_date_of(
            #[trigger] s[i],
        ))
}

/// Dates ordered by year, month, day, hour, minute.
fn date_le(a: &Date, b: &Date) -> (r: bool)
    ensures
        r == spec_date_le(*a, *b),
{
    if a.year != b.year {
        a.year < b.year
    } else if a.month != b.month {
        a.month < b.month
    } else if a.day != b.day {
        a.day < b.day
    } else if a.hour != b.hour {
        a.hour < b.hour
    } else {
        a.minute <= b.minute
    }
}

/// The sort key of an entry whose date is canonical.
fn repo_date(rd: &RepoData) -> (r: Date)
    requires
        date_sortable(rd@),
    ensures
        r == spec_date_of(rd@),
{
    match parse_string_to_date(rd.last_commit.date.as_str()) {
        Ok(d) => d,
        Err(_) => {
            proof {
                assert(false);
            }
            Date { year: 0, month: 1, day: 1, hour: 0, minute: 0 }
        },
    }
}

/// The first position whose entry's date is at most `xd`, or the length
/// when every entry's date exceeds it.
fn find_insert_pos(out: &Vec<RepoData>, xd: &Date) -> (p: usize)
    requires
        all_sortable(out@.map_values(|r: RepoData| r@)),
    ensures
        0 <= p <= out@.len(),
        forall|k: int| 0 <= k < p ==> !spec_date_le(spec_date_of((#[trigger] out@[k])@), *xd),
        p < out@.len() ==> spec_date_le(spec_date_of(out@[p as int]@), *xd),
{
    let mut p: usize = 0;
    while p < out.len()
        invariant
            0 <= p <= out@.len(),
            all_sortable(out@.map_values(|r: RepoData| r@)),
            forall|k: int| 0 <= k < p ==> !spec_date_le(spec_date_of((#[trigger] out@[k])@), *xd),
        decreases out@.len() - p,
    {
        proof {
            assert(out@.map_values(|r: RepoData| r@)[p as int] == out@[p as int]@);
        }
        let od = repo_date(&out[p]);
        if date_le(&od, xd) {
            return p;
        }
        p += 1;
    }
    p
}

/// Insert an entry into a descending-sorted list, keeping it sorted.
fn insert_sorted(out: &mut Vec<RepoData>, x: RepoData)
    requires
        sorted_by_date_desc(old(out)@.map_values(|r: RepoData| r@)),
        all_sortable(old(out)@.map_values(|r: RepoData| r@)),
        date_sortable(x@),
    ensures
        sorted_by_date_desc(final(out)@.map_values(|r: RepoData| r@)),
        all_sortable(final(out)@.map_values(|r: RepoData| r@)),
        final(out)@.map_values(|r: RepoData| r@).to_multiset() == old(out)@.map_values(
            |r: RepoData| r@,
        ).to_multiset().insert(x@),
{
    broadcast use vstd::seq_lib::group_to_multiset_ensures;

    let ghost ov = old(out)@.map_values(|r: RepoData| r@);
    let xd = repo_date(&x);
    let p = find_insert_pos(out, &xd);
    let ghost pp = p as int;
    out.insert(p, x);
    proof {
        let nv = out@.map_values(|r: RepoData| r@);
        assert(nv =~= ov.insert(pp, x@));
        assert forall|i: int, j: int| 0 <= i < j < nv.len() implies spec_date_le(
            spec_date_of(nv[j]),
            spec_date_of(nv[i]),
        ) by {
            if j < pp {
                assert(nv[i] == ov[i] && nv[j] == ov[j]);
            } else if j == pp {
                assert(nv[i] == ov[i]);
                assert(!spec_date_le(spec_date_of(ov[i]), xd));
                lemma_date_le_total(spec_date_of(ov[i]), xd);
            } else {
                assert(nv[j] == ov[j - 1]);
                if i > pp {
                    assert(nv[i] == ov[i - 1]);
                } else if i == pp {
                    if pp < ov.len() {
                        assert(spec_date_le(spec_date_of(ov[pp]), xd));
                        if j - 1 > pp {
                            assert(spec_date_le(spec_date_of(ov[j - 1]), spec_date_of(ov[pp])));
                        }
                        lemma_date_le_trans(spec_date_of(ov[j - 1]), spec_date_of(ov[pp]), xd);
                    }
                } else {
                    assert(nv[i] == ov[i]);
                }
            }
        }
        assert forall|k: int| 0 <= k < nv.len() implies date_sortable(#[trigger] nv[k]) by {
            if k < pp {
                assert(nv[k] == ov[k]);
            } else if k > pp {
                assert(nv[k] == ov[k - 1]);
            }
        }
        vstd::seq_lib::to_multiset_insert(ov, pp, x@);
    }
}

/// Sort repository entries by commit date, most recent first.
///
/// The result is a permutation of the input: same entries, same
/// multiplicities, in descending date order.
fn sort_repos_by_date(list: Vec<RepoData>) -> (r: Vec<RepoData>)
    requires
        all_sortable(list@.map_values(|x: RepoData| x@)),
    ensures
        sorted_by_date_desc(r@.map_values(|x: RepoData| x@)),
        r@.map_values(|x: RepoData| x@).to_multiset() == list@.map_values(
            |x: RepoData| x@,
        ).to_multiset(),
{
    broadcast use vstd::seq_lib::group_to_multiset_ensures;
    broadcast use vstd::multiset::group_multiset_axioms;

    let ghost lv0 = list@.map_values(|x: RepoData| x@);
    let mut rest = list;
    let mut out: Vec<RepoData> = Vec::new();
    proof {
        assert(out@.map_values(|x: RepoData| x@) =~= Seq::<RepoDataView>::empty());
        assert(out@.map_values(|x: RepoData| x@).to_multiset().add(
            rest@.map_values(|x: RepoData| x@).to_multiset(),
        ) =~= lv0.to_multiset());
    }
    while rest.len() > 0
        invariant
            sorted_by_date_desc(out@.map_values(|x: RepoData| x@)),
            all_sortable(out@.map_values(|x: RepoData| x@)),
            all_sortable(rest@.map_values(|x: RepoData| x@)),
            out@.map_values(|x: RepoData| x@).to_multiset().add(
                rest@.map_values(|x: RepoData| x@).to_multiset(),
            ) == lv0.to_multiset(),
        decreases rest@.len(),
    {
        broadcast use vstd::seq_lib::group_to_multiset_ensures;
        broadcast use vstd::multiset::group_multiset_axioms;

        let ghost rv = rest@.map_values(|x: RepoData| x@);
        let ghost ov = out@.map_values(|x: RepoData| x@);
        let x = match rest.pop() {
            Some(x) => x,
            None => {
                proof {
                    assert(false);
                }
                continue ;
            },
        };
        proof {
            assert(rest@.map_values(|r: RepoData| r@) =~= rv.drop_last());
            assert(rv.drop_last() =~= rv.remove(rv.len() - 1));
            vstd::seq_lib::to_multiset_remove(rv, rv.len() - 1);
            assert(rv[rv.len() - 1] == x@);
        }
        insert_sorted(&mut out, x);
        proof {
            let nov = out@.map_values(|r: RepoData| r@);
            let nrv = rest@.map_values(|r: RepoData| r@);
            assert(rv.to_multiset().count(x@) > 0) by {
                assert(rv[rv.len() - 1] == x@);
                assert(rv.contains(x@));
            }
            assert(nov.to_multiset().add(nrv.to_multiset()) =~= ov.to_multiset().add(
                rv.to_multiset(),
            ));
        }
    }
    proof {
        assert(rest@.map_values(|x: RepoData| x@).to_multiset() =~= Multiset::<
            RepoDataView,
        >::empty());
        assert(out@.map_values(|x: RepoData| x@).to_multiset().add(Multiset::empty()) =~= out@
            .map_values(|x: RepoData| x@).to_multiset());
    }
    out
}

impl Repo {
    /// Build the repository list from per-repository sources and sort
    /// it by commit date, most recent first.
    ///
    /// Each source yields one entry: the directory name's stem as the
    /// repository name, the description text, and the most recent
    /// commit of its log stream.  A repository with no commits fails
    /// the whole list with `NoLastElement` (or the failing record's own
    /// parse error).  On success the result holds exactly the built
    /// entries, ordered by descending commit date.
    pub fn get_all(sources: Vec<RepoSource>) -> (r: Result<Vec<RepoData>, GitApiError>)
        ensures
            r is Ok <==> spec_build_repo_list(sources@.map_values(|s: RepoSource| s@)) is Ok,
            r matches Err(e) ==> Err::<Seq<RepoDataView>, GitApiError>(e) == spec_build_repo_list(
                sources@.map_values(|s: RepoSource| s@),
            ),
            r matches Ok(v) ==> spec_build_repo_list(sources@.map_values(|s: RepoSource| s@))
                matches Ok(ds) && v@.map_values(|x: RepoData| x@).to_multiset() == ds.to_multiset()
                && sorted_by_date_desc(v@.map_values(|x: RepoData| x@)),
    {
        let ghost sv = sources@.map_values(|s: RepoSource| s@);
        let mut built: Vec<RepoData> = Vec::new();
        let mut i: usize = 0;
        proof {
            assert(sv.subrange(0, sv.len() as int) =~= sv);
            assert(prepend_repos(
                built@.map_values(|x: RepoData| x@),
                spec_build_repo_list(sv.subrange(0, sv.len() as int)),
            ) == spec_build_repo_list(sv)) by {
                match spec_build_repo_list(sv) {
                    Ok(ds) => {
                        assert(Seq::<RepoDataView>::empty() + ds =~= ds);
                    },
                    Err(_) => {},
                }
            }
        }
        while i < sources.len()
            invariant
                0 <= i <= sources@.len(),
                sv == sources@.map_values(|s: RepoSource| s@),
                prepend_repos(
                    built@.map_values(|x: RepoData| x@),
                    spec_build_repo_list(sv.subrange(i as int, sv.len() as int)),
                ) == spec_build_repo_list(sv),
                all_sortable(built@.map_values(|x: RepoData| x@)),
            decreases sources@.len() - i,
        {
            let ghost old_built = built@;
            let ghost sub = sv.subrange(i as int, sv.len() as int);
            proof {
                assert(sub[0] == sv[i as int]);
                assert(sub.drop_first() =~= sv.subrange(i + 1, sv.len() as int));
            }
            let src = &sources[i];
            match last_commit_of_log(src.log_output.as_str()) {
                Err(e) => {
                    return Err(e);
                },
                Ok(c) => {
                    proof {
                        lemma_last_commit_date_canonical(src.log_output@);
                    }
                    let data = RepoData {
                        name: repo_display_name(src.dir_name.as_str()),
                        description: src.description.clone(),
                        last_commit: c,
                    };
                    built.push(data);
                    proof {
                        assert(built@.map_values(|x: RepoData| x@) =~= old_built.map_values(
                            |x: RepoData| x@,
                        ).push(built@.last()@));
                        let rest = spec_build_repo_list(sv.subrange(i + 1, sv.len() as int));
                        match rest {
                            Ok(ds) => {
                                assert(old_built.map_values(|x: RepoData| x@) + (seq![
                                    built@.last()@,
                                ] + ds) =~= built@.map_values(|x: RepoData| x@) + ds);
                            },
                            Err(_) => {},
                        }
                    }
                },
            }
            i += 1;
        }
        proof {
            assert(sv.subrange(sv.len() as int, sv.len() as int) =~= Seq::<RepoSourceView>::empty());
            assert(built@.map_values(|x: RepoData| x@) + Seq::<RepoDataView>::empty() =~= built@
                .map_values(|x: RepoData| x@));
        }
        let sorted = sort_repos_by_date(built);
        Ok(sorted)
    }
}

/// Entries paired with the most recent commit of their own log stream;
/// entries whose stream yields no commit are dropped.
pub open spec fn spec_assemble(objs: Seq<ParsedObjectView>, logs: Seq<Seq<char>>) -> Seq<
    RepoBranchFileView,
>
    decreases objs.len(),
{
    if objs.len() == 0 || objs.len() != logs.len() {
        Seq::empty()
    } else {
        let pre = spec_assemble(objs.drop_last(), logs.drop_last());
        match spec_last_commit(logs.last()) {
            Ok(c) => pre.push(
                RepoBranchFileView {
                    name: objs.last().name,
                    file_type: objs.last().file_type,
                    object_hash: objs.last().object_hash,
                    last_commit: c,
                },
            ),
            Err(_) => pre,
        }
    }
}

} // verus!
