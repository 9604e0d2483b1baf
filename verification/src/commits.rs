//! Commit records parsed from the external tool's log output.
//!
//! Two historical output encodings are supported.  In the delimited
//! format, records are separated by the byte `0x1E` and fields within a
//! record by `0x1F`, in the order hash, author name, author email, date,
//! parents, message.  In the block format each commit occupies exactly
//! six lines of conventional log output, with the date on the third or
//! fourth line depending on whether an extra header line (merge
//! parents) is present.

use vstd::prelude::*;
use vstd::string::*;

use crate::dates::{parse_date_to_string, spec_parse_date, spec_render_date};
use crate::errors::GitApiError;
use crate::strutil::{
    contains_seq, contains_sub, find_char, find_sub, first_index_of, first_match_of, is_ws_char,
    join_with, lemma_filter_first, lemma_first_index_of, lemma_first_match_of, push_char, split_on,
    split_str, starts_with, starts_with_str, trim_slice, trim_spec,
};

verus! {

/// A commit: short hash, author, author email, normalized date, and the
/// first line of the message.
#[derive(Debug, Clone)]
pub struct Commit {
    pub hash: String,
    pub author: String,
    pub author_email: String,
    pub date: String,
    pub msg: String,
}

/// The mathematical value of a commit: its five fields as character
/// sequences.
pub ghost struct CommitView {
    pub hash: Seq<char>,
    pub author: Seq<char>,
    pub author_email: Seq<char>,
    pub date: Seq<char>,
    pub msg: Seq<char>,
}

impl View for Commit {
    type V = CommitView;

    open spec fn view(&self) -> CommitView {
        CommitView {
            hash: self.hash@,
            author: self.author@,
            author_email: self.author_email@,
            date: self.date@,
            msg: self.msg@,
        }
    }
}

/// The two log output encodings the tool has used.
#[derive(Debug, Clone, Copy, PartialEq, Eq, Structural)]
pub enum LogFormat {
    /// Records separated by `0x1E`, fields separated by `0x1F`.
    Delimited,
    /// Six lines of conventional log output per commit.
    Block,
}

/// The field at index `i`, or empty when the record has too few fields.
pub open spec fn field_or_empty(fs: Seq<Seq<char>>, i: int) -> Seq<char> {
    if 0 <= i < fs.len() {
        fs[i]
    } else {
        Seq::empty()
    }
}

/// The prefix of `s` up to (not including) its first newline.
pub open spec fn first_line_of(s: Seq<char>) -> Seq<char> {
    s.subrange(0, first_index_of(s, '\n'))
}

/// The message carried by a delimited record: everything after the
/// parents field rejoined, first line only, trimmed.
pub open spec fn spec_record_msg(fs: Seq<Seq<char>>) -> Seq<char> {
    if fs.len() > 5 {
        trim_spec(first_line_of(join_with(fs.skip(5), '\x1f')))
    } else {
        Seq::empty()
    }
}

/// Parse of one delimited log record.
///
/// The hash field must hold at least six characters and the date field
/// must match one of the accepted date patterns; fields past the end
/// are read as empty.
pub open spec fn spec_parse_record(rec: Seq<char>) -> Result<CommitView, GitApiError> {
    let fs = split_on(rec, '\x1f');
    if fs[0].len() < 6 {
        Err(GitApiError::ParseError)
    } else if spec_parse_date(trim_spec(field_or_empty(fs, 3))) is None {
        Err(GitApiError::DateParseError)
    } else {
        Ok(
            CommitView {
                hash: trim_spec(fs[0].subrange(0, 6)),
                author: trim_spec(field_or_empty(fs, 1)),
                author_email: trim_spec(field_or_empty(fs, 2)),
                date: spec_render_date(spec_parse_date(trim_spec(field_or_empty(fs, 3)))->0),
                msg: spec_record_msg(fs),
            },
        )
    }
}

/// Parse one delimited log record into a commit.
pub fn parse_record(record: &str) -> (r: Result<Commit, GitApiError>)
    ensures
        r is Ok <==> spec_parse_record(record@) is Ok,
        r matches Ok(c) ==> Ok::<CommitView, GitApiError>(c@) == spec_parse_record(record@),
        r matches Err(e) ==> Err::<CommitView, GitApiError>(e) == spec_parse_record(record@),
{
    proof {
        reveal_strlit("");
        assert(""@ =~= Seq::<char>::empty());
    }
    let fields = split_str(record, '\x1f');
    let ghost fs = split_on(record@, '\x1f');
    let f0 = fields[0].as_str();
    if f0.unicode_len() < 6 {
        return Err(GitApiError::ParseError);
    }
    let hash = String::from_str(trim_slice(f0.substring_char(0, 6)));
    let author = String::from_str(
        trim_slice(if fields.len() > 1 {
            fields[1].as_str()
        } else {
            ""
        }),
    );
    let author_email = String::from_str(
        trim_slice(if fields.len() > 2 {
            fields[2].as_str()
        } else {
            ""
        }),
    );
    let date_raw = trim_slice(if fields.len() > 3 {
        fields[3].as_str()
    } else {
        ""
    });
    let date = match parse_date_to_string(date_raw) {
        Ok(v) => v,
        Err(e) => {
            return Err(e);
        },
    };
    // Rejoin everything after the parents field, as the message may
    // itself contain the field separator.
    let mut joined = String::new();
    let mut k: usize = 5;
    let ghost tail: Seq<Seq<char>> = if fs.len() >= 5 {
        fs.skip(5)
    } else {
        Seq::empty()
    };
    proof {
        assert(tail.take(0) =~= Seq::<Seq<char>>::empty());
        assert(joined@ =~= join_with(tail.take(0), '\x1f'));
    }
    while k < fields.len()
        invariant
            5 <= k,
            fs.len() >= 5 ==> k <= fs.len(),
            fs.len() < 5 ==> k == 5,
            fs == fields@.map_values(|p: String| p@),
            tail == if fs.len() >= 5 {
                fs.skip(5)
            } else {
                Seq::<Seq<char>>::empty()
            },
            k - 5 <= tail.len(),
            joined@ == join_with(tail.take(k - 5), '\x1f'),
        decreases fields@.len() - k,
    {
        if k > 5 {
            push_char(&mut joined, '\x1f');
        }
        joined.append(fields[k].as_str());
        proof {
            let i = k - 5;
            assert(tail.take(i + 1).drop_last() =~= tail.take(i));
            assert(tail.take(i + 1).last() == tail[i]);
            assert(tail[i] == fs[k as int]);
            if i == 0 {
                assert(join_with(tail.take(1), '\x1f') == tail[0]);
            }
        }
        k += 1;
    }
    proof {
        assert(tail.take(tail.len() as int) =~= tail);
        if fs.len() > 5 {
            assert(joined@ == join_with(fs.skip(5), '\x1f'));
        } else {
            assert(tail.len() == 0 || (fs.len() == 5 && fs.skip(5) =~= Seq::<Seq<char>>::empty()));
            assert(joined@ =~= Seq::<char>::empty());
        }
    }
    let nl = find_char(joined.as_str(), '\n');
    proof {
        lemma_first_index_of(joined@, '\n');
    }
    let msg = String::from_str(trim_slice(joined.as_str().substring_char(0, nl)));
    proof {
        if fs.len() <= 5 {
            assert(first_line_of(Seq::<char>::empty()) =~= Seq::<char>::empty());
            assert(msg@ =~= spec_record_msg(fs));
        }
    }
    Ok(Commit { hash, author, author_email, date, msg })
}

/// The `commit ` prefix of a block's first line.
pub open spec fn commit_prefix() -> Seq<char> {
    seq!['c', 'o', 'm', 'm', 'i', 't', ' ']
}

/// The `: ` delimiter before the author name.
pub open spec fn colon_space() -> Seq<char> {
    seq![':', ' ']
}

/// The `Date:` header marker.
pub open spec fn date_marker() -> Seq<char> {
    seq!['D', 'a', 't', 'e', ':']
}

/// An author line holds `: ` followed by a name, then an email between
/// `<` and `>`.
pub open spec fn author_line_ok(l: Seq<char>) -> bool {
    let i1 = first_match_of(l, colon_space());
    let i2 = first_index_of(l, '<');
    let i3 = first_index_of(l, '>');
    i1 < l.len() && i2 < l.len() && i3 < l.len() && i1 + 2 <= i2 && i2 + 1 <= i3
}

/// The author name: between the first `: ` and the first `<`, trimmed.
pub open spec fn spec_author_name(l: Seq<char>) -> Seq<char> {
    trim_spec(l.subrange(first_match_of(l, colon_space()) + 2, first_index_of(l, '<')))
}

/// The author email: between the first `<` and the first `>`.
pub open spec fn spec_author_email(l: Seq<char>) -> Seq<char> {
    l.subrange(first_index_of(l, '<') + 1, first_index_of(l, '>'))
}

/// The date text of a `Date:` line: everything after the marker,
/// trimmed.
pub open spec fn spec_date_raw(l: Seq<char>) -> Seq<char> {
    trim_spec(l.subrange(first_match_of(l, date_marker()) + date_marker().len(), l.len() as int))
}

/// Parse of one six-line block of conventional log output.
///
/// Line 0 must start with `commit ` and carry at least six hash
/// characters; line 1 is the author line; the date sits on line 2, or on
/// line 3 when an extra header line (merge parents) pushes it down, with
/// the message two lines below the date either way.
pub open spec fn spec_parse_block(ls: Seq<Seq<char>>) -> Result<CommitView, GitApiError> {
    if !(starts_with(ls[0], commit_prefix()) && ls[0].len() >= 13) {
        Err(GitApiError::ParseError)
    } else if !author_line_ok(ls[1]) {
        Err(GitApiError::AuthorParseError)
    } else {
        let di: int = if contains_seq(ls[2], date_marker()) {
            2
        } else if contains_seq(ls[3], date_marker()) {
            3
        } else {
            0
        };
        if di == 0 {
            Err(GitApiError::ParseError)
        } else if spec_parse_date(spec_date_raw(ls[di])) is None {
            Err(GitApiError::DateParseError)
        } else {
            Ok(
                CommitView {
                    hash: ls[0].subrange(7, 13),
                    author: spec_author_name(ls[1]),
                    author_email: spec_author_email(ls[1]),
                    date: spec_render_date(spec_parse_date(spec_date_raw(ls[di]))->0),
                    msg: trim_spec(ls[di + 2]),
                },
            )
        }
    }
}

/// Parse the six-line block of log output beginning at line `at`.
fn parse_block(lines: &Vec<String>, at: usize) -> (r: Result<Commit, GitApiError>)
    requires
        at + 6 <= lines@.len(),
    ensures
        ({
            let spec = spec_parse_block(
                lines@.map_values(|p: String| p@).subrange(at as int, at + 6),
            );
            &&& (r is Ok <==> spec is Ok)
            &&& (r matches Ok(c) ==> Ok::<CommitView, GitApiError>(c@) == spec)
            &&& (r matches Err(e) ==> Err::<CommitView, GitApiError>(e) == spec)
        }),
{
    let ghost ls = lines@.map_values(|p: String| p@).subrange(at as int, at + 6);
    proof {
        reveal_strlit("commit ");
        reveal_strlit("Date:");
        reveal_strlit(": ");
        assert("commit "@ =~= commit_prefix());
        assert("Date:"@ =~= date_marker());
        assert(": "@ =~= colon_space());
    }
    let n = lines.len();
    assert(at + 6 <= n);
    let l0 = lines[at].as_str();
    if !(starts_with_str(l0, "commit ") && l0.unicode_len() >= 13) {
        return Err(GitApiError::ParseError);
    }
    let hash = String::from_str(l0.substring_char(7, 13));
    let l1 = lines[at + 1].as_str();
    let n1 = l1.unicode_len();
    let i1 = find_sub(l1, ": ");
    let i2 = find_char(l1, '<');
    let i3 = find_char(l1, '>');
    proof {
        lemma_first_index_of(l1@, '<');
        lemma_first_index_of(l1@, '>');
        lemma_first_match_of(l1@, ": "@);
    }
    if !(i1 < n1 && i2 < n1 && i3 < n1 && i1 + 2 <= i2 && i2 + 1 <= i3) {
        return Err(GitApiError::AuthorParseError);
    }
    let author = String::from_str(trim_slice(l1.substring_char(i1 + 2, i2)));
    let author_email = String::from_str(l1.substring_char(i2 + 1, i3));
    let l2 = lines[at + 2].as_str();
    let l3 = lines[at + 3].as_str();
    let (dline, mindex): (&str, usize) = if contains_sub(l2, "Date:") {
        (l2, at + 4)
    } else if contains_sub(l3, "Date:") {
        (l3, at + 5)
    } else {
        return Err(GitApiError::ParseError);
    };
    let dm = find_sub(dline, "Date:");
    proof {
        lemma_first_match_of(dline@, "Date:"@);
        if first_match_of(dline@, date_marker()) >= dline@.len() {
            assert(!contains_seq(dline@, date_marker()));
        }
    }
    let dn = dline.unicode_len();
    let raw = trim_slice(dline.substring_char(dm + 5, dn));
    let date = match parse_date_to_string(raw) {
        Ok(v) => v,
        Err(e) => {
            return Err(e);
        },
    };
    let msg = String::from_str(trim_slice(lines[mindex].as_str()));
    Ok(Commit { hash, author, author_email, date, msg })
}

/// A line consisting only of whitespace (or nothing).
pub open spec fn is_blank(l: Seq<char>) -> bool {
    forall|k: int| 0 <= k < l.len() ==> is_ws_char(#[trigger] l[k])
}

/// Keep the pieces that are not whitespace-only.
pub open spec fn nonblank_pred() -> spec_fn(Seq<char>) -> bool {
    |r: Seq<char>| !is_blank(r)
}

/// The records of a delimited log stream: split on `0x1E`, blank pieces
/// dropped.
pub open spec fn nonblank_records(text: Seq<char>) -> Seq<Seq<char>> {
    split_on(text, '\x1e').filter(nonblank_pred())
}

/// Parse of a sequence of delimited records, in order; the first
/// failing record's error is the stream's error.
pub open spec fn spec_parse_records(rs: Seq<Seq<char>>) -> Result<Seq<CommitView>, GitApiError>
    decreases rs.len(),
{
    if rs.len() == 0 {
        Ok(Seq::empty())
    } else {
        match spec_parse_record(rs[0]) {
            Err(e) => Err(e),
            Ok(c) => match spec_parse_records(rs.drop_first()) {
                Err(e) => Err(e),
                Ok(rest) => Ok(seq![c] + rest),
            },
        }
    }
}

/// Every line is whitespace-only (or there are none).
pub open spec fn all_blank_lines(ls: Seq<Seq<char>>) -> bool {
    forall|k: int| 0 <= k < ls.len() ==> is_blank(#[trigger] ls[k])
}

/// Parse of a sequence of lines as consecutive six-line blocks.  Lines
/// left over at the end must all be blank (the trailing separator of
/// the last commit); leftover non-blank lines are a parse error.
pub open spec fn spec_parse_blocks(ls: Seq<Seq<char>>) -> Result<Seq<CommitView>, GitApiError>
    decreases ls.len(),
{
    if ls.len() < 6 {
        if all_blank_lines(ls) {
            Ok(Seq::empty())
        } else {
            Err(GitApiError::ParseError)
        }
    } else {
        match spec_parse_block(ls.subrange(0, 6)) {
            Err(e) => Err(e),
            Ok(c) => match spec_parse_blocks(ls.skip(6)) {
                Err(e) => Err(e),
                Ok(rest) => Ok(seq![c] + rest),
            },
        }
    }
}

/// What `parse_commit_stream` returns for each format.
pub open spec fn spec_parse_stream(text: Seq<char>, format: LogFormat) -> Result<
    Seq<CommitView>,
    GitApiError,
> {
    match format {
        LogFormat::Delimited => spec_parse_records(nonblank_records(text)),
        LogFormat::Block => spec_parse_blocks(split_on(text, '\n')),
    }
}

/// Commits already parsed, prepended to the outcome for the rest of the
/// stream.
pub open spec fn prepend_commits(pre: Seq<CommitView>, r: Result<Seq<CommitView>, GitApiError>)
    -> Result<Seq<CommitView>, GitApiError> {
    match r {
        Ok(cs) => Ok(pre + cs),
        Err(e) => Err(e),
    }
}

/// Parse a commit log stream into its ordered sequence of commits.
///
/// Commits come back in stream order (the tool emits newest first; no
/// re-sorting happens here).  The first record or block that fails to
/// parse fails the whole stream with its own error.
pub fn parse_commit_stream(text: &str, format: LogFormat) -> (r: Result<Vec<Commit>, GitApiError>)
    ensures
        r is Ok <==> spec_parse_stream(text@, format) is Ok,
        r matches Ok(v) ==> Ok::<Seq<CommitView>, GitApiError>(
            v@.map_values(|c: Commit| c@),
        ) == spec_parse_stream(text@, format),
        r matches Err(e) ==> Err::<Seq<CommitView>, GitApiError>(e) == spec_parse_stream(
            text@,
            format,
        ),
{
    match format {
        LogFormat::Delimited => parse_delimited_stream(text),
        LogFormat::Block => parse_block_stream(text),
    }
}

/// Parse a delimited-format stream.
fn parse_delimited_stream(text: &str) -> (r: Result<Vec<Commit>, GitApiError>)
    ensures
        r is Ok <==> spec_parse_records(nonblank_records(text@)) is Ok,
        r matches Ok(v) ==> Ok::<Seq<CommitView>, GitApiError>(
            v@.map_values(|c: Commit| c@),
        ) == spec_parse_records(nonblank_records(text@)),
        r matches Err(e) ==> Err::<Seq<CommitView>, GitApiError>(e) == spec_parse_records(
            nonblank_records(text@),
        ),
{
    let records = split_str(text, '\x1e');
    let ghost rv = records@.map_values(|p: String| p@);
    let ghost pred = nonblank_pred();
    let mut nonblank: Vec<String> = Vec::new();
    let mut i: usize = 0;
    proof {
        reveal(Seq::filter);
        assert(rv.take(0) =~= Seq::<Seq<char>>::empty());
        assert(nonblank@.map_values(|p: String| p@) =~= rv.take(0).filter(pred));
    }
    while i < records.len()
        invariant
            0 <= i <= records@.len(),
            rv == records@.map_values(|p: String| p@),
            pred == nonblank_pred(),
            nonblank@.map_values(|p: String| p@) == rv.take(i as int).filter(pred),
        decreases records@.len() - i,
    {
        let ghost old_nb = nonblank@;
        let rec = &records[i];
        if !is_blank_str(rec.as_str()) {
            nonblank.push(rec.clone());
        }
        proof {
            reveal(Seq::filter);
            assert(rv.take(i + 1).drop_last() =~= rv.take(i as int));
            assert(rv.take(i + 1).last() == rv[i as int]);
            if !is_blank(rec@) {
                assert(nonblank@.map_values(|p: String| p@) =~= old_nb.map_values(
                    |p: String| p@,
                ).push(rv[i as int]));
            }
        }
        i += 1;
    }
    proof {
        assert(rv.take(rv.len() as int) =~= rv);
        assert(nonblank@.map_values(|p: String| p@) == nonblank_records(text@));
    }
    let ghost fv = nonblank_records(text@);
    let mut out: Vec<Commit> = Vec::new();
    let mut j: usize = 0;
    proof {
        assert(fv.subrange(0, fv.len() as int) =~= fv);
        assert(out@.map_values(|c: Commit| c@) + Seq::<CommitView>::empty() =~= Seq::<
            CommitView,
        >::empty());
        assert(prepend_commits(
            out@.map_values(|c: Commit| c@),
            spec_parse_records(fv.subrange(0, fv.len() as int)),
        ) == spec_parse_records(fv)) by {
            match spec_parse_records(fv) {
                Ok(cs) => {
                    assert(Seq::<CommitView>::empty() + cs =~= cs);
                },
                Err(_) => {},
            }
        }
    }
    while j < nonblank.len()
        invariant
            0 <= j <= nonblank@.len(),
            fv == nonblank@.map_values(|p: String| p@),
            fv == nonblank_records(text@),
            prepend_commits(
                out@.map_values(|c: Commit| c@),
                spec_parse_records(fv.subrange(j as int, fv.len() as int)),
            ) == spec_parse_records(fv),
        decreases nonblank@.len() - j,
    {
        let ghost old_out = out@;
        let ghost sub = fv.subrange(j as int, fv.len() as int);
        proof {
            assert(sub[0] == fv[j as int]);
            assert(sub.drop_first() =~= fv.subrange(j + 1, fv.len() as int));
        }
        match parse_record(nonblank[j].as_str()) {
            Err(e) => {
                return Err(e);
            },
            Ok(c) => {
                out.push(c);
                proof {
                    assert(out@.map_values(|x: Commit| x@) =~= old_out.map_values(
                        |x: Commit| x@,
                    ).push(c@));
                    let rest = spec_parse_records(fv.subrange(j + 1, fv.len() as int));
                    match rest {
                        Ok(cs) => {
                            assert(old_out.map_values(|x: Commit| x@) + (seq![c@] + cs) =~= out@
                                .map_values(|x: Commit| x@) + cs);
                        },
                        Err(_) => {},
                    }
                }
            },
        }
        j += 1;
    }
    proof {
        assert(fv.subrange(fv.len() as int, fv.len() as int) =~= Seq::<Seq<char>>::empty());
        assert(out@.map_values(|c: Commit| c@) + Seq::<CommitView>::empty() =~= out@.map_values(
            |c: Commit| c@,
        ));
    }
    Ok(out)
}

/// Parse a block-format stream.
fn parse_block_stream(text: &str) -> (r: Result<Vec<Commit>, GitApiError>)
    ensures
        r is Ok <==> spec_parse_blocks(split_on(text@, '\n')) is Ok,
        r matches Ok(v) ==> Ok::<Seq<CommitView>, GitApiError>(
            v@.map_values(|c: Commit| c@),
        ) == spec_parse_blocks(split_on(text@, '\n')),
        r matches Err(e) ==> Err::<Seq<CommitView>, GitApiError>(e) == spec_parse_blocks(
            split_on(text@, '\n'),
        ),
{
    let lines = split_str(text, '\n');
    let ghost lv = lines@.map_values(|p: String| p@);
    let n = lines.len();
    let mut out: Vec<Commit> = Vec::new();
    let mut j: usize = 0;
    proof {
        assert(lv.subrange(0, n as int) =~= lv);
        assert(prepend_commits(
            out@.map_values(|c: Commit| c@),
            spec_parse_blocks(lv.subrange(0, n as int)),
        ) == spec_parse_blocks(lv)) by {
            match spec_parse_blocks(lv) {
                Ok(cs) => {
                    assert(Seq::<CommitView>::empty() + cs =~= cs);
                },
                Err(_) => {},
            }
        }
    }
    while n - j >= 6
        invariant
            0 <= j <= n,
            n == lv.len(),
            lv == lines@.map_values(|p: String| p@),
            lv == split_on(text@, '\n'),
            prepend_commits(
                out@.map_values(|c: Commit| c@),
                spec_parse_blocks(lv.subrange(j as int, n as int)),
            ) == spec_parse_blocks(lv),
        decreases n - j,
    {
        let ghost old_out = out@;
        let ghost sub = lv.subrange(j as int, n as int);
        proof {
            assert(sub.subrange(0, 6) =~= lv.subrange(j as int, j + 6));
            assert(sub.skip(6) =~= lv.subrange(j + 6, n as int));
        }
        match parse_block(&lines, j) {
            Err(e) => {
                return Err(e);
            },
            Ok(c) => {
                out.push(c);
                proof {
                    assert(out@.map_values(|x: Commit| x@) =~= old_out.map_values(
                        |x: Commit| x@,
                    ).push(c@));
                    let rest = spec_parse_blocks(lv.subrange(j + 6, n as int));
                    match rest {
                        Ok(cs) => {
                            assert(old_out.map_values(|x: Commit| x@) + (seq![c@] + cs) =~= out@
                                .map_values(|x: Commit| x@) + cs);
                        },
                        Err(_) => {},
                    }
                }
            },
        }
        j += 6;
    }
    let ghost tail = lv.subrange(j as int, n as int);
    let mut k: usize = j;
    while k < n
        invariant
            j <= k <= n,
            n == lv.len(),
            lv == lines@.map_values(|p: String| p@),
            tail == lv.subrange(j as int, n as int),
            lv == split_on(text@, '\n'),
            n - j < 6,
            prepend_commits(
                out@.map_values(|c: Commit| c@),
                spec_parse_blocks(lv.subrange(j as int, n as int)),
            ) == spec_parse_blocks(lv),
            forall|m: int| j <= m < k ==> is_blank(#[trigger] lv[m]),
        decreases n - k,
    {
        if !is_blank_str(lines[k].as_str()) {
            proof {
                assert(tail[k - j] == lv[k as int]);
                assert(!all_blank_lines(tail));
            }
            return Err(GitApiError::ParseError);
        }
        k += 1;
    }
    proof {
        assert forall|m: int| 0 <= m < tail.len() implies is_blank(#[trigger] tail[m]) by {
            assert(tail[m] == lv[j + m]);
        }
        assert(out@.map_values(|c: Commit| c@) + Seq::<CommitView>::empty() =~= out@.map_values(
            |c: Commit| c@,
        ));
    }
    Ok(out)
}

/// What `last_commit_of_log` returns: the first non-blank delimited
/// record, parsed; an empty log is `NoLastElement`.
pub open spec fn spec_last_commit(text: Seq<char>) -> Result<CommitView, GitApiError> {
    let rs = nonblank_records(text);
    if rs.len() == 0 {
        Err(GitApiError::NoLastElement)
    } else {
        spec_parse_record(rs[0])
    }
}

/// The most recent commit of a delimited log stream: its first
/// non-blank record.
///
/// An all-blank stream (a path or repository with no commits) is a
/// `NoLastElement` error; a malformed first record fails with that
/// record's parse error.
pub fn last_commit_of_log(log_output: &str) -> (r: Result<Commit, GitApiError>)
    ensures
        r is Ok <==> spec_last_commit(log_output@) is Ok,
        r matches Ok(c) ==> Ok::<CommitView, GitApiError>(c@) == spec_last_commit(log_output@),
        r matches Err(e) ==> Err::<CommitView, GitApiError>(e) == spec_last_commit(log_output@),
{
    let records = split_str(log_output, '\x1e');
    let ghost rv = records@.map_values(|p: String| p@);
    let ghost pred = nonblank_pred();
    let mut i: usize = 0;
    while i < records.len()
        invariant
            0 <= i <= records@.len(),
            rv == records@.map_values(|p: String| p@),
            rv == split_on(log_output@, '\x1e'),
            pred == nonblank_pred(),
            forall|k: int| 0 <= k < i ==> is_blank(#[trigger] rv[k]),
        decreases records@.len() - i,
    {
        let rec = &records[i];
        if !is_blank_str(rec.as_str()) {
            proof {
                assert(rv =~= split_on(log_output@, '\x1e'));
                assert(rv =~= rv.take(i as int) + rv.skip(i as int));
                Seq::filter_distributes_over_add(rv.take(i as int), rv.skip(i as int), pred);
                lemma_filter_all_blank(rv.take(i as int), pred);
                assert(rv.skip(i as int)[0] == rv[i as int]);
                lemma_filter_first(rv.skip(i as int), pred);
                assert(nonblank_records(log_output@) == rv.filter(pred));
                assert(rv.filter(pred)[0] == rv[i as int]);
                assert(rv.filter(pred).len() > 0);
            }
            return parse_record(rec.as_str());
        }
        i += 1;
    }
    proof {
        assert(rv.take(rv.len() as int) =~= rv);
        lemma_filter_all_blank(rv, pred);
    }
    Err(GitApiError::NoLastElement)
}

/// Every date a parsed record carries is a canonical display string:
/// it parses back as a canonical date.
pub proof fn lemma_record_date_canonical(rec: Seq<char>)
    requires
        spec_parse_record(rec) is Ok,
    ensures
        crate::dates::spec_parse_canonical(spec_parse_record(rec)->Ok_0.date) is Some,
{
    let raw = trim_spec(field_or_empty(split_on(rec, '\x1f'), 3));
    crate::dates::lemma_spec_parse_date_valid(raw);
    crate::dates::lemma_render_then_parse(spec_parse_date(raw)->0);
}

/// The date of the most recent commit of a log stream is canonical.
pub proof fn lemma_last_commit_date_canonical(text: Seq<char>)
    requires
        spec_last_commit(text) is Ok,
    ensures
        crate::dates::spec_parse_canonical(spec_last_commit(text)->Ok_0.date) is Some,
{
    lemma_record_date_canonical(nonblank_records(text)[0]);
}

/// Filtering for non-blank pieces yields nothing when every piece is
/// blank.
proof fn lemma_filter_all_blank(s: Seq<Seq<char>>, pred: spec_fn(Seq<char>) -> bool)
    requires
        pred == nonblank_pred(),
        forall|k: int| 0 <= k < s.len() ==> is_blank(#[trigger] s[k]),
    ensures
        s.filter(pred).len() == 0,
    decreases s.len(),
{
    reveal(Seq::filter);
    if s.len() > 0 {
        assert forall|k: int| 0 <= k < s.drop_last().len() implies is_blank(
            #[trigger] s.drop_last()[k],
        ) by {
            assert(s.drop_last()[k] == s[k]);
        }
        lemma_filter_all_blank(s.drop_last(), pred);
        assert(is_blank(s.last()));
    }
}

/// Whether a line consists only of whitespace.
pub fn is_blank_str(s: &str) -> (r: bool)
    ensures
        r == is_blank(s@),
{
    let n = s.unicode_len();
    let mut i: usize = 0;
    while i < n
        invariant
            0 <= i <= n,
            n == s@.len(),
            forall|k: int| 0 <= k < i ==> is_ws_char(#[trigger] s@[k]),
        decreases n - i,
    {
        let c = s.get_char(i);
        if !(c == ' ' || c == '\t' || c == '\n' || c == '\r') {
            return false;
        }
        i += 1;
    }
    true
}

} // verus!
