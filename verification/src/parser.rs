//! Parsing of the AGS text format.
//!
//! An AGS document is line oriented. A line starting with `# ` opens a
//! project; free text below it is the project's description. A line starting
//! with `## ` opens an access grant, which carries six fields in fixed order:
//! `grant`, `tags`, `description`, `notes`, `permissions` and `metadata`,
//! each written `name = value`. The last three may continue over further
//! lines indented with tabs or introduced with `- `; `tags` and
//! `permissions` values are comma-separated lists. Blank lines separate
//! sections and are never part of a value.
//!
//! The grammar is stated by the spec functions here ([`step`] over the lines
//! of the document); the executable parser is verified to decide exactly
//! that grammar.

use vstd::prelude::*;
use vstd::string::StrSliceExecFns;

use crate::error::Error;
use crate::store::filter::views_of;
use crate::store::{grant_views, AccessGrant, GrantModel};

verus! {

/// The pieces of `s` split at every occurrence of `c`: always at least one
/// piece, none containing `c`, and joining them with `c` gives back `s`.
pub open spec fn split_char(s: Seq<char>, c: char) -> Seq<Seq<char>>
    decreases s.len(),
{
    if s.len() == 0 {
        seq![Seq::<char>::empty()]
    } else if s[0] == c {
        seq![Seq::<char>::empty()] + split_char(s.drop_first(), c)
    } else {
        let rest = split_char(s.drop_first(), c);
        seq![seq![s[0]] + rest[0]] + rest.drop_first()
    }
}

/// The lines of a document: its text split at every newline.
pub open spec fn lines_of(s: Seq<char>) -> Seq<Seq<char>> {
    split_char(s, '\n')
}

/// Splitting yields at least one piece.
proof fn lemma_split_char_len(s: Seq<char>, c: char)
    ensures
        split_char(s, c).len() >= 1,
    decreases s.len(),
{
    if s.len() > 0 {
        lemma_split_char_len(s.drop_first(), c);
    }
}

/// If `s` holds no `c`, it is one piece.
proof fn lemma_split_char_none(s: Seq<char>, c: char)
    requires
        forall|k: int| 0 <= k < s.len() ==> s[k] != c,
    ensures
        split_char(s, c) == seq![s],
    decreases s.len(),
{
    if s.len() == 0 {
        assert(split_char(s, c) =~~= seq![s]);
    } else {
        lemma_split_char_none(s.drop_first(), c);
        assert(seq![s[0]] + s.drop_first() =~= s);
        assert(split_char(s, c) =~~= seq![s]);
    }
}

/// If the first `c` of `s` stands at `j`, the pieces are the part before `j`
/// followed by the pieces of the part after `j`.
proof fn lemma_split_char_first(s: Seq<char>, c: char, j: int)
    requires
        0 <= j < s.len(),
        s[j] == c,
        forall|k: int| 0 <= k < j ==> s[k] != c,
    ensures
        split_char(s, c) == seq![s.take(j)] + split_char(s.skip(j + 1), c),
    decreases j,
{
    if j == 0 {
        assert(s.take(0) =~= Seq::<char>::empty());
        assert(s.skip(1) =~= s.drop_first());
        assert(split_char(s, c) =~~= seq![s.take(0)] + split_char(s.skip(1), c));
    } else {
        let t = s.drop_first();
        lemma_split_char_first(t, c, j - 1);
        lemma_split_char_len(t.skip(j), c);
        assert(seq![s[0]] + t.take(j - 1) =~= s.take(j));
        assert(t.skip(j) =~= s.skip(j + 1));
        assert(split_char(t, c)[0] == t.take(j - 1));
        assert(split_char(t, c).drop_first() =~= split_char(t.skip(j), c));
        assert(split_char(s, c) =~~= seq![s.take(j)] + split_char(s.skip(j + 1), c));
    }
}

/// Splits `s` at every occurrence of `c`.
fn split_on_char(s: &str, c: char) -> (r: Vec<String>)
    ensures
        views_of(r@) == split_char(s@, c),
{
    let n = s.unicode_len();
    let mut r: Vec<String> = Vec::new();
    let mut start: usize = 0;
    let mut i: usize = 0;
    proof {
        assert(views_of(r@) =~= Seq::<Seq<char>>::empty());
        assert(s@.skip(0) =~= s@);
    }
    while i < n
        invariant
            0 <= start <= i <= n,
            n == s@.len(),
            forall|k: int| start <= k < i ==> s@[k] != c,
            split_char(s@, c) == views_of(r@) + split_char(s@.skip(start as int), c),
        decreases n - i,
    {
        if s.get_char(i) == c {
            let piece = s.substring_char(start, i).to_owned();
            proof {
                let suffix = s@.skip(start as int);
                lemma_split_char_first(suffix, c, i - start);
                assert(suffix.take(i - start) =~= s@.subrange(start as int, i as int));
                assert(suffix.skip(i - start + 1) =~= s@.skip(i + 1));
                let ghost old_views = views_of(r@);
                assert(views_of(r@.push(piece)) =~= old_views + seq![piece@]);
                assert((old_views + seq![piece@]) + split_char(s@.skip(i + 1), c) =~= old_views
                    + (seq![piece@] + split_char(s@.skip(i + 1), c)));
            }
            r.push(piece);
            start = i + 1;
        }
        i = i + 1;
    }
    let piece = s.substring_char(start, n).to_owned();
    proof {
        let suffix = s@.skip(start as int);
        lemma_split_char_none(suffix, c);
        assert(suffix =~= s@.subrange(start as int, n as int));
        let ghost old_views = views_of(r@);
        assert(views_of(r@.push(piece)) =~= old_views + seq![piece@]);
        assert(old_views + seq![piece@] =~= split_char(s@, c));
    }
    r.push(piece);
    r
}

/// `s` without leading spaces.
pub open spec fn trim_front(s: Seq<char>) -> Seq<char>
    decreases s.len(),
{
    if s.len() > 0 && s[0] == ' ' {
        trim_front(s.drop_first())
    } else {
        s
    }
}

/// `s` without trailing spaces.
pub open spec fn trim_back(s: Seq<char>) -> Seq<char>
    decreases s.len(),
{
    if s.len() > 0 && s.last() == ' ' {
        trim_back(s.drop_last())
    } else {
        s
    }
}

/// `s` without leading and trailing spaces.
pub open spec fn trim(s: Seq<char>) -> Seq<char> {
    trim_back(trim_front(s))
}

/// Dropping `a` leading spaces reaches the untrimmed front.
proof fn lemma_trim_front(s: Seq<char>, a: int)
    requires
        0 <= a <= s.len(),
        forall|k: int| 0 <= k < a ==> s[k] == ' ',
        a == s.len() || s[a] != ' ',
    ensures
        trim_front(s) == s.skip(a),
    decreases a,
{
    if a == 0 {
        assert(trim_front(s) =~= s.skip(0));
    } else {
        lemma_trim_front(s.drop_first(), a - 1);
        assert(s.drop_first().skip(a - 1) =~= s.skip(a));
    }
}

/// Dropping trailing spaces down to `b` reaches the untrimmed back.
proof fn lemma_trim_back(s: Seq<char>, b: int)
    requires
        0 <= b <= s.len(),
        forall|k: int| b <= k < s.len() ==> s[k] == ' ',
        b == 0 || s[b - 1] != ' ',
    ensures
        trim_back(s) == s.take(b),
    decreases s.len() - b,
{
    if b == s.len() {
        assert(trim_back(s) =~= s.take(b));
    } else {
        lemma_trim_back(s.drop_last(), b);
        assert(s.drop_last().take(b) =~= s.take(b));
    }
}

/// Removes leading and trailing spaces.
fn trim_str(s: &str) -> (r: String)
    ensures
        r@ == trim(s@),
{
    let n = s.unicode_len();
    let mut a: usize = 0;
    while a < n && s.get_char(a) == ' '
        invariant
            0 <= a <= n,
            n == s@.len(),
            forall|k: int| 0 <= k < a ==> s@[k] == ' ',
        decreases n - a,
    {
        a = a + 1;
    }
    let mut b: usize = n;
    while b > a && s.get_char(b - 1) == ' '
        invariant
            a <= b <= n,
            n == s@.len(),
            forall|k: int| b <= k < n ==> s@[k] == ' ',
        decreases b,
    {
        b = b - 1;
    }
    proof {
        lemma_trim_front(s@, a as int);
        let f = s@.skip(a as int);
        if b == a {
            lemma_trim_back(f, 0);
        } else {
            lemma_trim_back(f, b - a);
        }
        assert(f.take(b - a) =~= s@.subrange(a as int, b as int));
    }
    s.substring_char(a, b).to_owned()
}

/// The pieces kept from a split list: the non-empty ones, in order.
pub open spec fn drop_empty(pieces: Seq<Seq<char>>) -> Seq<Seq<char>>
    decreases pieces.len(),
{
    if pieces.len() == 0 {
        Seq::empty()
    } else {
        drop_empty(pieces.drop_last()) + (if pieces.last().len() > 0 {
            seq![pieces.last()]
        } else {
            Seq::<Seq<char>>::empty()
        })
    }
}

/// A comma-separated list's values: the pieces between commas, trimmed of
/// spaces, the empty ones dropped.
pub open spec fn csv(s: Seq<char>) -> Seq<Seq<char>> {
    drop_empty(split_char(s, ',').map_values(|p: Seq<char>| trim(p)))
}

/// Splits a comma-separated list into its trimmed, non-empty values.
fn split_csv(s: &str) -> (r: Vec<String>)
    ensures
        views_of(r@) == csv(s@),
{
    let pieces = split_on_char(s, ',');
    let ghost trimmed = split_char(s@, ',').map_values(|p: Seq<char>| trim(p));
    let mut r: Vec<String> = Vec::new();
    let mut i: usize = 0;
    proof {
        assert(views_of(r@) =~= Seq::<Seq<char>>::empty());
        assert(drop_empty(trimmed.take(0)) =~= Seq::<Seq<char>>::empty());
    }
    while i < pieces.len()
        invariant
            0 <= i <= pieces.len(),
            views_of(pieces@) == split_char(s@, ','),
            trimmed == split_char(s@, ',').map_values(|p: Seq<char>| trim(p)),
            views_of(r@) == drop_empty(trimmed.take(i as int)),
        decreases pieces.len() - i,
    {
        let t = trim_str(pieces[i].as_str());
        proof {
            assert(trimmed[i as int] == trim(pieces@[i as int]@));
            assert(trimmed.take(i + 1).drop_last() =~= trimmed.take(i as int));
            assert(trimmed.take(i + 1).last() == trimmed[i as int]);
        }
        if t.unicode_len() > 0 {
            proof {
                assert(views_of(r@.push(t)) =~= views_of(r@) + seq![t@]);
                assert(drop_empty(trimmed.take(i as int)) + seq![trimmed[i as int]]
                    =~= drop_empty(trimmed.take(i + 1)));
            }
            r.push(t);
        } else {
            proof {
                assert(drop_empty(trimmed.take(i + 1)) =~= drop_empty(trimmed.take(i as int)));
            }
        }
        i = i + 1;
    }
    proof {
        assert(trimmed.take(pieces@.len() as int) =~= trimmed);
    }
    r
}

/// Whether a line is blank.
pub open spec fn is_blank(line: Seq<char>) -> bool {
    line.len() == 0
}

/// Whether a line opens a project: `# ` followed by the project's name.
pub open spec fn is_project_header(line: Seq<char>) -> bool {
    line.len() >= 2 && line[0] == '#' && line[1] == ' '
}

/// Whether a line opens an access grant: `## ` followed by the grant's name.
pub open spec fn is_access_header(line: Seq<char>) -> bool {
    line.len() >= 3 && line[0] == '#' && line[1] == '#' && line[2] == ' '
}

/// Whether a line introduces a list item: `- ` followed by the item.
pub open spec fn is_list(line: Seq<char>) -> bool {
    line.len() >= 2 && line[0] == '-' && line[1] == ' '
}

/// Whether a line is indented by a tab.
pub open spec fn is_indent(line: Seq<char>) -> bool {
    line.len() >= 1 && line[0] == '\t'
}

/// Whether a line continues the multi-line field above it.
pub open spec fn is_continuation(line: Seq<char>) -> bool {
    is_indent(line) || is_list(line)
}

/// A continuation line's text: the line without its leading tabs, and
/// without its `- ` marker if one follows them.
pub open spec fn strip_indent(line: Seq<char>) -> Seq<char>
    decreases line.len(),
{
    if is_indent(line) {
        strip_indent(line.drop_first())
    } else if is_list(line) {
        line.skip(2)
    } else {
        line
    }
}

/// The value of a `key = value` field line: `key`, one space, `=`, and then
/// either nothing, or one space and the (possibly empty) value.
pub open spec fn field_value(key: Seq<char>, line: Seq<char>) -> Option<Seq<char>> {
    if line.len() < key.len() + 2 || line.subrange(0, key.len() as int) != key || line[key.len()
        as int] != ' ' || line[key.len() as int + 1] != '=' {
        None
    } else if line.len() == key.len() + 2 {
        Some(Seq::empty())
    } else if line[key.len() as int + 2] != ' ' {
        None
    } else {
        Some(line.skip(key.len() as int + 3))
    }
}

/// Which part of an access grant the parser stands at: the next expected
/// field line, or the multi-line field whose continuations it collects.
pub enum FieldAt {
    Grant,
    Tags,
    Description,
    Notes,
    CollectNotes,
    CollectPermissions,
    CollectMetadata,
}

/// The parser's position in the document.
pub enum Pos {
    /// Before the first project heading.
    Start,
    /// Inside a project, outside any access grant.
    InProject { project: Seq<char> },
    /// Inside an access grant whose fields are still being read.
    InGrant { grant: GrantModel, at: FieldAt },
    /// A line did not fit the grammar; absorbing.
    Failed,
}

/// The parser's state: the grants completed so far and its position.
pub struct ParseState {
    pub done: Seq<GrantModel>,
    pub pos: Pos,
}

/// The state a parse starts from.
pub open spec fn init_state() -> ParseState {
    ParseState { done: Seq::empty(), pos: Pos::Start }
}

/// How one line advances the parser. This spec function is the grammar.
pub open spec fn step(st: ParseState, line: Seq<char>) -> ParseState {
    match st.pos {
        Pos::Failed => st,
        Pos::Start => {
            if is_blank(line) {
                st
            } else if is_project_header(line) {
                ParseState { done: st.done, pos: Pos::InProject { project: line.skip(2) } }
            } else {
                ParseState { done: st.done, pos: Pos::Failed }
            }
        },
        Pos::InProject { project } => {
            if is_blank(line) {
                st
            } else if is_access_header(line) {
                ParseState {
                    done: st.done,
                    pos: Pos::InGrant {
                        grant: GrantModel::init(line.skip(3), project),
                        at: FieldAt::Grant,
                    },
                }
            } else if is_project_header(line) {
                ParseState { done: st.done, pos: Pos::InProject { project: line.skip(2) } }
            } else {
                // Free text inside a project is its description; it is not
                // part of any grant.
                st
            }
        },
        Pos::InGrant { grant, at } => {
            if is_blank(line) {
                st
            } else {
                step_in_grant(st.done, grant, at, line)
            }
        },
    }
}

/// How one non-blank line advances the parser inside an access grant.
pub open spec fn step_in_grant(
    done: Seq<GrantModel>,
    grant: GrantModel,
    at: FieldAt,
    line: Seq<char>,
) -> ParseState {
    match at {
        FieldAt::Grant => match field_value("grant"@, line) {
            Some(v) => ParseState {
                done,
                pos: Pos::InGrant {
                    grant: GrantModel { encrypted_grant: v, ..grant },
                    at: FieldAt::Tags,
                },
            },
            None => ParseState { done, pos: Pos::Failed },
        },
        FieldAt::Tags => match field_value("tags"@, line) {
            Some(v) => ParseState {
                done,
                pos: Pos::InGrant {
                    grant: GrantModel { tags: csv(v), ..grant },
                    at: FieldAt::Description,
                },
            },
            None => ParseState { done, pos: Pos::Failed },
        },
        FieldAt::Description => match field_value("description"@, line) {
            Some(v) => ParseState {
                done,
                pos: Pos::InGrant {
                    grant: GrantModel { description: v, ..grant },
                    at: FieldAt::Notes,
                },
            },
            None => ParseState { done, pos: Pos::Failed },
        },
        FieldAt::Notes => match field_value("notes"@, line) {
            Some(v) => ParseState {
                done,
                pos: Pos::InGrant {
                    grant: GrantModel { notes: inline_values(v), ..grant },
                    at: FieldAt::CollectNotes,
                },
            },
            None => ParseState { done, pos: Pos::Failed },
        },
        FieldAt::CollectNotes => {
            if is_continuation(line) {
                ParseState {
                    done,
                    pos: Pos::InGrant {
                        grant: GrantModel { notes: grant.notes.push(strip_indent(line)), ..grant },
                        at: FieldAt::CollectNotes,
                    },
                }
            } else {
                match field_value("permissions"@, line) {
                    Some(v) => ParseState {
                        done,
                        pos: Pos::InGrant {
                            grant: GrantModel { permissions: csv(v), ..grant },
                            at: FieldAt::CollectPermissions,
                        },
                    },
                    None => ParseState { done, pos: Pos::Failed },
                }
            }
        },
        FieldAt::CollectPermissions => {
            if is_continuation(line) {
                ParseState {
                    done,
                    pos: Pos::InGrant {
                        grant: GrantModel {
                            permissions: grant.permissions + csv(strip_indent(line)),
                            ..grant
                        },
                        at: FieldAt::CollectPermissions,
                    },
                }
            } else {
                match field_value("metadata"@, line) {
                    Some(v) => ParseState {
                        done,
                        pos: Pos::InGrant {
                            grant: GrantModel { metadata: inline_values(v), ..grant },
                            at: FieldAt::CollectMetadata,
                        },
                    },
                    None => ParseState { done, pos: Pos::Failed },
                }
            }
        },
        FieldAt::CollectMetadata => {
            if is_continuation(line) {
                ParseState {
                    done,
                    pos: Pos::InGrant {
                        grant: GrantModel {
                            metadata: grant.metadata.push(strip_indent(line)),
                            ..grant
                        },
                        at: FieldAt::CollectMetadata,
                    },
                }
            } else if is_access_header(line) {
                // The metadata block is the grant's last field: the grant is
                // complete when the next grant opens ...
                ParseState {
                    done: done.push(grant),
                    pos: Pos::InGrant {
                        grant: GrantModel::init(line.skip(3), grant.project),
                        at: FieldAt::Grant,
                    },
                }
            } else if is_project_header(line) {
                // ... or when the next project opens ...
                ParseState { done: done.push(grant), pos: Pos::InProject { project: line.skip(2) } }
            } else {
                // ... or when free project text follows.
                ParseState {
                    done: done.push(grant),
                    pos: Pos::InProject { project: grant.project },
                }
            }
        },
    }
}

/// An inline value of a multi-line field: one value if non-empty, else none.
pub open spec fn inline_values(v: Seq<char>) -> Seq<Seq<char>> {
    if v.len() > 0 {
        seq![v]
    } else {
        Seq::empty()
    }
}

/// The parser's state after reading `lines`, in order, from `st`.
pub open spec fn parse_from(st: ParseState, lines: Seq<Seq<char>>) -> ParseState
    decreases lines.len(),
{
    if lines.len() == 0 {
        st
    } else {
        step(parse_from(st, lines.drop_last()), lines.last())
    }
}

/// What a whole document yields: the completed grants, provided the document
/// does not end in the middle of a grant and no line fell outside the
/// grammar.
pub open spec fn finish(st: ParseState) -> Option<Seq<GrantModel>> {
    match st.pos {
        Pos::Start => Some(st.done),
        Pos::InProject { .. } => Some(st.done),
        Pos::InGrant { grant, at } => if at is CollectMetadata {
            Some(st.done.push(grant))
        } else {
            None
        },
        Pos::Failed => None,
    }
}

/// A failed parse stays failed whatever lines follow.
proof fn lemma_failed_absorbs(st: ParseState, lines: Seq<Seq<char>>)
    requires
        st.pos is Failed,
    ensures
        parse_from(st, lines) == st,
    decreases lines.len(),
{
    if lines.len() > 0 {
        lemma_failed_absorbs(st, lines.drop_last());
    }
}

/// Whether the line is blank.
fn line_blank(s: &str) -> (r: bool)
    ensures
        r == is_blank(s@),
{
    s.unicode_len() == 0
}

/// Whether the line opens a project.
fn line_project_header(s: &str) -> (r: bool)
    ensures
        r == is_project_header(s@),
{
    let n = s.unicode_len();
    n >= 2 && s.get_char(0) == '#' && s.get_char(1) == ' '
}

/// Whether the line opens an access grant.
fn line_access_header(s: &str) -> (r: bool)
    ensures
        r == is_access_header(s@),
{
    let n = s.unicode_len();
    n >= 3 && s.get_char(0) == '#' && s.get_char(1) == '#' && s.get_char(2) == ' '
}

/// Whether the line continues the multi-line field above it.
fn line_continuation(s: &str) -> (r: bool)
    ensures
        r == is_continuation(s@),
{
    let n = s.unicode_len();
    if n >= 1 && s.get_char(0) == '\t' {
        true
    } else {
        n >= 2 && s.get_char(0) == '-' && s.get_char(1) == ' '
    }
}

/// The line's text from character `k` on.
fn suffix_string(s: &str, k: usize) -> (r: String)
    requires
        k <= s@.len(),
    ensures
        r@ == s@.skip(k as int),
{
    let n = s.unicode_len();
    let r = s.substring_char(k, n).to_owned();
    proof {
        assert(s@.subrange(k as int, n as int) =~= s@.skip(k as int));
    }
    r
}

/// Stripping the tabs, and then a list marker, reaches the untrimmed text.
proof fn lemma_strip_indent(s: Seq<char>, t: int)
    requires
        0 <= t <= s.len(),
        forall|k: int| 0 <= k < t ==> s[k] == '\t',
        t == s.len() || s[t] != '\t',
    ensures
        strip_indent(s) == if is_list(s.skip(t)) {
            s.skip(t).skip(2)
        } else {
            s.skip(t)
        },
    decreases t,
{
    if t == 0 {
        assert(s.skip(0) =~= s);
        if is_list(s) {
            assert(s.skip(0).skip(2) =~= s.skip(2));
        }
    } else {
        lemma_strip_indent(s.drop_first(), t - 1);
        assert(s.drop_first().skip(t - 1) =~= s.skip(t));
    }
}

/// A continuation line's text, per [`strip_indent`].
fn strip_indent_str(s: &str) -> (r: String)
    ensures
        r@ == strip_indent(s@),
{
    let n = s.unicode_len();
    let mut t: usize = 0;
    while t < n && s.get_char(t) == '\t'
        invariant
            0 <= t <= n,
            n == s@.len(),
            forall|k: int| 0 <= k < t ==> s@[k] == '\t',
        decreases n - t,
    {
        t = t + 1;
    }
    proof {
        lemma_strip_indent(s@, t as int);
    }
    if n - t >= 2 && s.get_char(t) == '-' && s.get_char(t + 1) == ' ' {
        let r = s.substring_char(t + 2, n).to_owned();
        proof {
            assert(is_list(s@.skip(t as int)));
            assert(s@.skip(t as int).skip(2) =~= s@.subrange(t as int + 2, n as int));
        }
        r
    } else {
        let r = s.substring_char(t, n).to_owned();
        proof {
            assert(!is_list(s@.skip(t as int)));
            assert(s@.skip(t as int) =~= s@.subrange(t as int, n as int));
        }
        r
    }
}

/// Whether `p` is a prefix of `s`.
fn has_prefix(s: &str, p: &str) -> (r: bool)
    ensures
        r == (p@.len() <= s@.len() && s@.subrange(0, p@.len() as int) == p@),
{
    let n = s.unicode_len();
    let m = p.unicode_len();
    if m > n {
        return false;
    }
    let mut i: usize = 0;
    while i < m
        invariant
            0 <= i <= m <= n,
            m == p@.len(),
            n == s@.len(),
            forall|k: int| 0 <= k < i ==> s@[k] == p@[k],
        decreases m - i,
    {
        if s.get_char(i) != p.get_char(i) {
            proof {
                assert(s@.subrange(0, m as int)[i as int] != p@[i as int]);
            }
            return false;
        }
        i = i + 1;
    }
    proof {
        assert(s@.subrange(0, m as int) =~= p@);
    }
    true
}

/// The value of a `key = value` field line, per [`field_value`].
fn field_value_str(line: &str, key: &str) -> (r: Option<String>)
    ensures
        r is Some <==> field_value(key@, line@) is Some,
        r matches Some(v) ==> field_value(key@, line@) == Some(v@),
{
    let n = line.unicode_len();
    let klen = key.unicode_len();
    if n < klen || n - klen < 2 {
        return None;
    }
    if !has_prefix(line, key) {
        return None;
    }
    if line.get_char(klen) != ' ' || line.get_char(klen + 1) != '=' {
        return None;
    }
    if n == klen + 2 {
        return Some(String::new());
    }
    if line.get_char(klen + 2) != ' ' {
        return None;
    }
    Some(suffix_string(line, klen + 3))
}

/// The parser's position in the document, as the executable parser holds it.
enum Cursor {
    Start,
    InProject { project: String },
    InGrant { grant: AccessGrant, at: FieldAt },
}

impl Cursor {
    /// The position this cursor stands for.
    spec fn view(self) -> Pos {
        match self {
            Cursor::Start => Pos::Start,
            Cursor::InProject { project } => Pos::InProject { project: project@ },
            Cursor::InGrant { grant, at } => Pos::InGrant { grant: grant@, at },
        }
    }
}

/// An access grant with the given name and project and every other field
/// still empty.
fn fresh_grant(name: String, project: String) -> (r: AccessGrant)
    ensures
        r@ == GrantModel::init(name@, project@),
{
    let r = AccessGrant {
        name,
        project,
        encrypted_grant: String::new(),
        tags: Vec::new(),
        description: String::new(),
        notes: Vec::new(),
        permissions: Vec::new(),
        metadata: Vec::new(),
    };
    proof {
        assert(views_of(r.tags@) =~= Seq::<Seq<char>>::empty());
        assert(views_of(r.notes@) =~= Seq::<Seq<char>>::empty());
        assert(views_of(r.permissions@) =~= Seq::<Seq<char>>::empty());
        assert(views_of(r.metadata@) =~= Seq::<Seq<char>>::empty());
    }
    r
}

/// The values a multi-line field starts with, per [`inline_values`].
fn inline_values_vec(v: String) -> (r: Vec<String>)
    ensures
        views_of(r@) == inline_values(v@),
{
    let mut r: Vec<String> = Vec::new();
    if v.unicode_len() > 0 {
        r.push(v);
        proof {
            assert(views_of(r@) =~= inline_values(r@[0]@));
        }
    } else {
        proof {
            assert(views_of(r@) =~= inline_values(v@));
        }
    }
    r
}

/// Advances the parser by one line: the executable twin of [`step`]. Returns
/// the new cursor, or `None` where the grammar refuses the line.
fn step_line(cursor: Cursor, done: &mut Vec<AccessGrant>, line: &str) -> (r: Option<Cursor>)
    ensures
        ({
            let st1 = step(ParseState { done: grant_views(old(done)@), pos: cursor@ }, line@);
            match r {
                Some(c) => c@ == st1.pos && grant_views(final(done)@) == st1.done && !(st1.pos
                    is Failed),
                None => st1.pos is Failed,
            }
        }),
{
    match cursor {
        Cursor::Start => {
            if line_blank(line) {
                Some(Cursor::Start)
            } else if line_project_header(line) {
                Some(Cursor::InProject { project: suffix_string(line, 2) })
            } else {
                None
            }
        },
        Cursor::InProject { project } => {
            if line_blank(line) {
                Some(Cursor::InProject { project })
            } else if line_access_header(line) {
                let grant = fresh_grant(suffix_string(line, 3), project);
                Some(Cursor::InGrant { grant, at: FieldAt::Grant })
            } else if line_project_header(line) {
                Some(Cursor::InProject { project: suffix_string(line, 2) })
            } else {
                Some(Cursor::InProject { project })
            }
        },
        Cursor::InGrant { mut grant, at } => {
            if line_blank(line) {
                return Some(Cursor::InGrant { grant, at });
            }
            match at {
                FieldAt::Grant => match field_value_str(line, "grant") {
                    Some(v) => {
                        grant.encrypted_grant = v;
                        Some(Cursor::InGrant { grant, at: FieldAt::Tags })
                    },
                    None => None,
                },
                FieldAt::Tags => match field_value_str(line, "tags") {
                    Some(v) => {
                        grant.tags = split_csv(v.as_str());
                        Some(Cursor::InGrant { grant, at: FieldAt::Description })
                    },
                    None => None,
                },
                FieldAt::Description => match field_value_str(line, "description") {
                    Some(v) => {
                        grant.description = v;
                        Some(Cursor::InGrant { grant, at: FieldAt::Notes })
                    },
                    None => None,
                },
                FieldAt::Notes => match field_value_str(line, "notes") {
                    Some(v) => {
                        grant.notes = inline_values_vec(v);
                        Some(Cursor::InGrant { grant, at: FieldAt::CollectNotes })
                    },
                    None => None,
                },
                FieldAt::CollectNotes => {
                    if line_continuation(line) {
                        let ghost notes0 = grant.notes@;
                        grant.notes.push(strip_indent_str(line));
                        proof {
                            assert(views_of(grant.notes@) =~= views_of(notes0).push(
                                strip_indent(line@),
                            ));
                        }
                        Some(Cursor::InGrant { grant, at: FieldAt::CollectNotes })
                    } else {
                        match field_value_str(line, "permissions") {
                            Some(v) => {
                                grant.permissions = split_csv(v.as_str());
                                Some(Cursor::InGrant { grant, at: FieldAt::CollectPermissions })
                            },
                            None => None,
                        }
                    }
                },
                FieldAt::CollectPermissions => {
                    if line_continuation(line) {
                        let stripped = strip_indent_str(line);
                        let mut more = split_csv(stripped.as_str());
                        let ghost perms0 = grant.permissions@;
                        let ghost more0 = more@;
                        grant.permissions.append(&mut more);
                        proof {
                            assert(views_of(grant.permissions@) =~= views_of(perms0) + views_of(
                                more0,
                            ));
                        }
                        Some(Cursor::InGrant { grant, at: FieldAt::CollectPermissions })
                    } else {
                        match field_value_str(line, "metadata") {
                            Some(v) => {
                                grant.metadata = inline_values_vec(v);
                                Some(Cursor::InGrant { grant, at: FieldAt::CollectMetadata })
                            },
                            None => None,
                        }
                    }
                },
                FieldAt::CollectMetadata => {
                    if line_continuation(line) {
                        let ghost metadata0 = grant.metadata@;
                        grant.metadata.push(strip_indent_str(line));
                        proof {
                            assert(views_of(grant.metadata@) =~= views_of(metadata0).push(
                                strip_indent(line@),
                            ));
                        }
                        Some(Cursor::InGrant { grant, at: FieldAt::CollectMetadata })
                    } else if line_access_header(line) {
                        let name = suffix_string(line, 3);
                        let project = grant.project.clone();
                        let ghost done0 = done@;
                        let ghost finished = grant@;
                        done.push(grant);
                        proof {
                            assert(grant_views(done@) =~= grant_views(done0).push(finished));
                        }
                        let fresh = fresh_grant(name, project);
                        Some(Cursor::InGrant { grant: fresh, at: FieldAt::Grant })
                    } else if line_project_header(line) {
                        let ghost done0 = done@;
                        let ghost finished = grant@;
                        done.push(grant);
                        proof {
                            assert(grant_views(done@) =~= grant_views(done0).push(finished));
                        }
                        Some(Cursor::InProject { project: suffix_string(line, 2) })
                    } else {
                        let project = grant.project.clone();
                        let ghost done0 = done@;
                        let ghost finished = grant@;
                        done.push(grant);
                        proof {
                            assert(grant_views(done@) =~= grant_views(done0).push(finished));
                        }
                        Some(Cursor::InProject { project })
                    }
                },
            }
        },
    }
}

/// A parse distributes over splitting its lines anywhere.
proof fn lemma_parse_concat(st: ParseState, a: Seq<Seq<char>>, b: Seq<Seq<char>>)
    ensures
        parse_from(st, a + b) == parse_from(parse_from(st, a), b),
    decreases b.len(),
{
    if b.len() == 0 {
        assert(a + b =~= a);
    } else {
        lemma_parse_concat(st, a, b.drop_last());
        assert((a + b).drop_last() =~= a + b.drop_last());
        assert((a + b).last() == b.last());
    }
}

/// Parses a whole AGS document into its access grants, in document order.
///
/// Returns the grants exactly when the document fits the grammar ([`step`]
/// over its lines, see [`finish`]); rejects it as an invalid `content`
/// argument otherwise.
pub fn parse_document(content: &str) -> (r: Result<Vec<AccessGrant>, Error>)
    ensures
        ({
            let outcome = finish(parse_from(init_state(), lines_of(content@)));
            match r {
                Ok(grants) => outcome == Some(grant_views(grants@)),
                Err(e) => outcome is None && (e matches Error::InvalidArguments(a) && a.names@
                    == "content"@),
            }
        }),
{
    let lines = split_on_char(content, '\n');
    let ghost lseq = lines_of(content@);
    let mut done: Vec<AccessGrant> = Vec::new();
    let mut cursor = Cursor::Start;
    let mut i: usize = 0;
    proof {
        assert(grant_views(done@) =~= Seq::<GrantModel>::empty());
        assert(lseq.take(0) =~= Seq::<Seq<char>>::empty());
    }
    while i < lines.len()
        invariant
            0 <= i <= lines.len(),
            views_of(lines@) == lseq,
            lseq == lines_of(content@),
            parse_from(init_state(), lseq.take(i as int)) == (ParseState {
                done: grant_views(done@),
                pos: cursor@,
            }),
        decreases lines.len() - i,
    {
        let ghost st0 = ParseState { done: grant_views(done@), pos: cursor@ };
        proof {
            assert(lseq[i as int] == lines@[i as int]@);
            assert(lseq.take(i + 1).drop_last() =~= lseq.take(i as int));
            assert(lseq.take(i + 1).last() == lseq[i as int]);
        }
        match step_line(cursor, &mut done, lines[i].as_str()) {
            Some(c) => {
                cursor = c;
            },
            None => {
                proof {
                    let st1 = step(st0, lseq[i as int]);
                    assert(parse_from(init_state(), lseq.take(i + 1)) == st1);
                    assert(lseq.take(i + 1) + lseq.skip(i + 1) =~= lseq);
                    lemma_parse_concat(init_state(), lseq.take(i + 1), lseq.skip(i + 1));
                    lemma_failed_absorbs(st1, lseq.skip(i + 1));
                }
                return Err(
                    Error::new_invalid_arguments(
                        "content",
                        "the content isn't a well-formed AGS document",
                    ),
                );
            },
        }
        i = i + 1;
    }
    proof {
        assert(lseq.take(lines@.len() as int) =~= lseq);
    }
    match cursor {
        Cursor::Start => Ok(done),
        Cursor::InProject { .. } => Ok(done),
        Cursor::InGrant { grant, at } => match at {
            FieldAt::CollectMetadata => {
                let ghost done0 = done@;
                let ghost finished = grant@;
                done.push(grant);
                proof {
                    assert(grant_views(done@) =~= grant_views(done0).push(finished));
                }
                Ok(done)
            },
            _ => Err(
                Error::new_invalid_arguments(
                    "content",
                    "the content ends in the middle of an access grant",
                ),
            ),
        },
    }
}

} // verus!
