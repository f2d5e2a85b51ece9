//! Document metadata: front-matter records and the framing that locates a
//! front-matter block inside a file's lines.
//!
//! A document may open with a front-matter block: a first line consisting of
//! the delimiter `---` (surrounded by optional blanks), the block's lines,
//! and a closing delimiter line. The framing here finds that block and hands
//! its text out; turning the text into typed fields is the metadata
//! extractor's job, outside this library.

use vstd::prelude::*;
use vstd::string::StrSliceExecFns;
use vstd::string::StringExecFns;

verus! {

/// Structured metadata carried by a document's front-matter block.
/// Every field is optional by construction.
#[derive(Debug, Clone, PartialEq)]
pub struct FrontMatter {
    pub title: Option<String>,
    pub github: Option<String>,
    pub created: Option<Vec<String>>,
    pub tags: Option<Vec<String>>,
    pub authors: Option<Vec<String>>,
}

/// Mathematical image of a [`FrontMatter`] value.
pub struct FrontMatterView {
    pub title: Option<Seq<char>>,
    pub github: Option<Seq<char>>,
    pub created: Option<Seq<Seq<char>>>,
    pub tags: Option<Seq<Seq<char>>>,
    pub authors: Option<Seq<Seq<char>>>,
}

impl View for FrontMatter {
    type V = FrontMatterView;

    open spec fn view(&self) -> FrontMatterView {
        FrontMatterView {
            title: self.title.deep_view(),
            github: self.github.deep_view(),
            created: self.created.deep_view(),
            tags: self.tags.deep_view(),
            authors: self.authors.deep_view(),
        }
    }
}

/// A document node: its identity within the vault and its extracted
/// metadata, if any.
#[derive(Debug, Clone, PartialEq)]
pub struct NodeData {
    pub id: Option<String>,
    pub front_matter: Option<FrontMatter>,
}

/// Mathematical image of a [`NodeData`] value.
pub struct NodeDataView {
    pub id: Option<Seq<char>>,
    pub front_matter: Option<FrontMatterView>,
}

impl View for NodeData {
    type V = NodeDataView;

    open spec fn view(&self) -> NodeDataView {
        NodeDataView {
            id: self.id.deep_view(),
            front_matter: match self.front_matter {
                Some(ref fm) => Some(fm@),
                None => None,
            },
        }
    }
}

/// The blank characters the framing ignores around delimiters: ASCII
/// spaces, tabs, and line-break remnants.
pub open spec fn is_space(c: char) -> bool {
    c == ' ' || c == '\t' || c == '\r' || c == '\n'
}

/// A line is blank when it holds nothing but blank characters.
pub open spec fn is_blank(s: Seq<char>) -> bool {
    forall|i: int| 0 <= i < s.len() ==> is_space(#[trigger] s[i])
}

/// A line is a front-matter delimiter when it holds exactly `---`,
/// surrounded by optional blanks.
pub open spec fn is_delimiter(s: Seq<char>) -> bool {
    exists|a: int|
        {
            &&& 0 <= a && a + 3 <= s.len()
            &&& (forall|j: int| 0 <= j < a ==> is_space(#[trigger] s[j]))
            &&& #[trigger] s[a] == '-' && s[a + 1] == '-' && s[a + 2] == '-'
            &&& (forall|j: int| a + 3 <= j < s.len() ==> is_space(#[trigger] s[j]))
        }
}

/// `e` is the line index of the closing delimiter: the first delimiter
/// line after the opening one.
pub open spec fn front_matter_end(ls: Seq<Seq<char>>, e: int) -> bool {
    &&& 1 <= e < ls.len()
    &&& is_delimiter(ls[e])
    &&& forall|j: int| 1 <= j < e ==> !is_delimiter(#[trigger] ls[j])
}

/// The text of lines `from..to`, each with a line feed appended.
pub open spec fn joined_lines(ls: Seq<Seq<char>>, from: int, to: int) -> Seq<char>
    decreases to - from,
{
    if from >= to {
        Seq::empty()
    } else {
        ls[from].push('\n') + joined_lines(ls, from + 1, to)
    }
}

/// Why a front-matter block could not be framed.
#[derive(Clone, Copy, PartialEq, Eq, Structural, Debug)]
pub enum FrontMatterError {
    /// The document opens a block but never closes it.
    MissingClosingDelimiter,
}

/// True exactly when `line` is a front-matter delimiter.
pub fn line_is_delimiter(line: &str) -> (r: bool)
    ensures
        r == is_delimiter(line@),
{
    let n: usize = line.unicode_len();
    let mut a: usize = 0;
    while a < n && is_space_char(line.get_char(a))
        invariant
            0 <= a <= n,
            n == line@.len(),
            forall|j: int| 0 <= j < a ==> is_space(#[trigger] line@[j]),
        decreases n - a,
    {
        a = a + 1;
    }
    if n - a < 3 {
        proof {
            assert forall|x: int| 0 <= x && x + 3 <= line@.len() implies !(#[trigger] line@[x]
                == '-' && line@[x + 1] == '-' && line@[x + 2] == '-' && (forall|j: int|
                0 <= j < x ==> is_space(#[trigger] line@[j]))) by {
                if x >= a {
                    assert(x + 3 > line@.len());
                } else {
                    assert(is_space(line@[x]));
                }
            }
        }
        return false;
    }
    if !(line.get_char(a) == '-' && line.get_char(a + 1) == '-' && line.get_char(a + 2) == '-') {
        proof {
            assert forall|x: int| 0 <= x && x + 3 <= line@.len() && (forall|j: int|
                0 <= j < x ==> is_space(#[trigger] line@[j])) implies !(#[trigger] line@[x] == '-'
                && line@[x + 1] == '-' && line@[x + 2] == '-') by {
                if x < a {
                    assert(is_space(line@[x]));
                } else if x > a {
                    assert(is_space(line@[a as int]));
                }
            }
        }
        return false;
    }
    let mut b: usize = a + 3;
    while b < n
        invariant
            a + 3 <= b <= n,
            n == line@.len(),
            forall|j: int| 0 <= j < a ==> is_space(#[trigger] line@[j]),
            line@[a as int] == '-' && line@[a + 1] == '-' && line@[a + 2] == '-',
            forall|j: int| a + 3 <= j < b ==> is_space(#[trigger] line@[j]),
        decreases n - b,
    {
        if !is_space_char(line.get_char(b)) {
            proof {
                assert forall|x: int| 0 <= x && x + 3 <= line@.len() && (forall|j: int|
                    0 <= j < x ==> is_space(#[trigger] line@[j])) && #[trigger] line@[x] == '-'
                    && line@[x + 1] == '-' && line@[x + 2] == '-' implies !(forall|j: int|
                    x + 3 <= j < line@.len() ==> is_space(#[trigger] line@[j])) by {
                    if x < a {
                        assert(is_space(line@[x]));
                    } else if x > a {
                        assert(is_space(line@[a as int]));
                    } else {
                        assert(!is_space(line@[b as int]));
                    }
                }
            }
            return false;
        }
        b = b + 1;
    }
    true
}

/// True exactly when `line` is blank.
pub fn line_is_blank(line: &str) -> (r: bool)
    ensures
        r == is_blank(line@),
{
    let n: usize = line.unicode_len();
    let mut i: usize = 0;
    while i < n
        invariant
            0 <= i <= n,
            n == line@.len(),
            forall|j: int| 0 <= j < i ==> is_space(#[trigger] line@[j]),
        decreases n - i,
    {
        if !is_space_char(line.get_char(i)) {
            return false;
        }
        i = i + 1;
    }
    true
}

/// True exactly when `c` is one of the framing's blank characters.
pub fn is_space_char(c: char) -> (r: bool)
    ensures
        r == is_space(c),
{
    c == ' ' || c == '\t' || c == '\r' || c == '\n'
}

/// Frames the front-matter block within a document's lines.
///
/// Returns `Ok(None)` when the document opens with no delimiter line or
/// when the framed block is blank, `Ok(Some(text))` with the block's text
/// (its lines joined, each ending in a line feed) otherwise, and an error
/// when an opening delimiter is never closed.
pub fn split_front_matter(lines: &Vec<String>) -> (r: Result<Option<String>, FrontMatterError>)
    ensures
        match r {
            Ok(opt) => if lines.deep_view().len() == 0 || !is_delimiter(lines.deep_view()[0]) {
                opt is None
            } else {
                exists|e: int|
                    #[trigger] front_matter_end(lines.deep_view(), e) && (match opt {
                        None => is_blank(joined_lines(lines.deep_view(), 1, e)),
                        Some(s) => s@ == joined_lines(lines.deep_view(), 1, e) && !is_blank(
                            joined_lines(lines.deep_view(), 1, e)),
                    })
            },
            Err(FrontMatterError::MissingClosingDelimiter) => {
                &&& lines.deep_view().len() > 0
                &&& is_delimiter(lines.deep_view()[0])
                &&& forall|j: int|
                    1 <= j < lines.deep_view().len() ==> !is_delimiter(
                        #[trigger] lines.deep_view()[j],
                    )
            },
        },
{
    if lines.len() == 0 {
        return Ok(None);
    }
    if !line_is_delimiter(lines[0].as_str()) {
        proof {
            assert(lines.deep_view()[0] == lines@[0]@);
        }
        return Ok(None);
    }
    proof {
        assert(lines.deep_view()[0] == lines@[0]@);
    }
    let ghost ls = lines.deep_view();
    let mut content = String::new();
    let mut i: usize = 1;
    loop
        invariant
            1 <= i <= ls.len(),
            ls.len() == lines@.len(),
            ls == lines.deep_view(),
            is_delimiter(ls[0]),
            content@ == joined_lines(ls, 1, i as int),
            forall|j: int| 1 <= j < i ==> !is_delimiter(#[trigger] ls[j]),
        decreases ls.len() - i,
    {
        if i >= lines.len() {
            return Err(FrontMatterError::MissingClosingDelimiter);
        }
        proof {
            assert(ls[i as int] == lines@[i as int]@);
        }
        if line_is_delimiter(lines[i].as_str()) {
            proof {
                assert(front_matter_end(ls, i as int));
            }
            if line_is_blank(content.as_str()) {
                return Ok(None);
            }
            return Ok(Some(content));
        }
        proof {
            lemma_joined_lines_snoc(ls, 1, i as int);
        }
        content.append(lines[i].as_str());
        content.append("\n");
        proof {
            reveal_strlit("\n");
            assert(content@ =~= joined_lines(ls, 1, i + 1 as int));
        }
        i = i + 1;
    }
}

/// `p` with its trailing separators removed.
pub open spec fn strip_trailing_slashes(p: Seq<char>) -> Seq<char>
    decreases p.len(),
{
    if p.len() > 0 && p[p.len() - 1] == '/' {
        strip_trailing_slashes(p.drop_last())
    } else {
        p
    }
}

/// The suffix of `p` after its last separator; empty when `p` ends with
/// one or is empty.
pub open spec fn after_last_slash(p: Seq<char>) -> Seq<char>
    decreases p.len(),
{
    if p.len() == 0 {
        Seq::empty()
    } else if p[p.len() - 1] == '/' {
        Seq::empty()
    } else {
        after_last_slash(p.drop_last()).push(p[p.len() - 1])
    }
}

/// The final path component of `p`, trailing separators ignored; `None`
/// when there is none.
pub open spec fn spec_file_name(p: Seq<char>) -> Option<Seq<char>> {
    let n = after_last_slash(strip_trailing_slashes(p));
    if n.len() == 0 {
        None
    } else {
        Some(n)
    }
}

/// `d` is the index of the extension dot of `name`: the last dot, not in
/// first position.
pub open spec fn stem_end(name: Seq<char>, d: int) -> bool {
    &&& 1 <= d < name.len()
    &&& name[d] == '.'
    &&& forall|j: int| d < j < name.len() ==> name[j] != '.'
}

/// `name` with its extension removed; a name whose only dot leads it, or
/// that has none, is its own stem.
pub open spec fn spec_stem_of(name: Seq<char>) -> Seq<char> {
    if exists|d: int| stem_end(name, d) {
        name.subrange(0, choose|d: int| stem_end(name, d))
    } else {
        name
    }
}

/// The stem of the final path component of `p`.
pub open spec fn spec_file_stem(p: Seq<char>) -> Option<Seq<char>> {
    match spec_file_name(p) {
        Some(n) => Some(spec_stem_of(n)),
        None => None,
    }
}

/// When everything from `e` on is a separator and `e` does not end on
/// one, stripping cuts exactly at `e`.
proof fn lemma_strip_trailing(p: Seq<char>, e: int)
    requires
        0 <= e <= p.len(),
        forall|x: int| e <= x < p.len() ==> p[x] == '/',
        e == 0 || p[e - 1] != '/',
    ensures
        strip_trailing_slashes(p) == p.subrange(0, e),
    decreases p.len(),
{
    if p.len() > e {
        assert(p[p.len() - 1] == '/');
        lemma_strip_trailing(p.drop_last(), e);
        assert(p.drop_last().subrange(0, e) =~= p.subrange(0, e));
    } else {
        assert(p.subrange(0, e) =~= p);
    }
}

/// When everything from `s` on is no separator and `s` follows one or
/// starts the path, the suffix after the last separator starts at `s`.
proof fn lemma_after_last_slash(p: Seq<char>, s: int)
    requires
        0 <= s <= p.len(),
        forall|x: int| s <= x < p.len() ==> p[x] != '/',
        s == 0 || p[s - 1] == '/',
    ensures
        after_last_slash(p) == p.subrange(s, p.len() as int),
    decreases p.len(),
{
    if p.len() == 0 {
        assert(p.subrange(0, 0) =~= Seq::<char>::empty());
    } else if p[p.len() - 1] == '/' {
        assert(s == p.len());
        assert(p.subrange(s, p.len() as int) =~= Seq::<char>::empty());
    } else {
        assert(s < p.len());
        lemma_after_last_slash(p.drop_last(), s);
        assert(p.drop_last().subrange(s, p.len() - 1) =~= p.subrange(s, p.len() - 1));
        assert(p.subrange(s, p.len() as int) =~= p.subrange(s, p.len() - 1).push(p[p.len() - 1]));
    }
}

/// The final path component of `path`, trailing separators ignored.
pub fn file_name(path: &str) -> (r: Option<String>)
    ensures
        r.deep_view() == spec_file_name(path@),
{
    let n: usize = path.unicode_len();
    let mut e: usize = n;
    while e > 0 && path.get_char(e - 1) == '/'
        invariant
            0 <= e <= n,
            n == path@.len(),
            forall|x: int| e <= x < n ==> path@[x] == '/',
        decreases e,
    {
        e = e - 1;
    }
    proof {
        lemma_strip_trailing(path@, e as int);
    }
    if e == 0 {
        proof {
            assert(after_last_slash(strip_trailing_slashes(path@)).len() == 0);
        }
        return None;
    }
    let mut s: usize = e;
    while s > 0 && path.get_char(s - 1) != '/'
        invariant
            0 <= s <= e,
            e <= n,
            n == path@.len(),
            forall|x: int| s <= x < e ==> path@[x] != '/',
        decreases s,
    {
        s = s - 1;
    }
    let ghost q = path@.subrange(0, e as int);
    proof {
        assert forall|x: int| s <= x < q.len() implies q[x] != '/' by {
            assert(q[x] == path@[x]);
        }
        if s > 0 {
            assert(q[s - 1] == path@[s - 1]);
        }
        lemma_after_last_slash(q, s as int);
        assert(q.subrange(s as int, q.len() as int) =~= path@.subrange(s as int, e as int));
        assert(path@[e - 1] != '/');
        assert(after_last_slash(q).len() > 0);
    }
    Some(path.substring_char(s, e).to_owned())
}

/// The stem of `name`: everything before its extension dot, the whole
/// name when it has none.
pub fn stem_of(name: &str) -> (r: String)
    ensures
        r@ == spec_stem_of(name@),
{
    let n: usize = name.unicode_len();
    let mut i: usize = n;
    while i > 0
        invariant
            0 <= i <= n,
            n == name@.len(),
            forall|x: int| i <= x < n ==> name@[x] != '.',
        decreases i,
    {
        if name.get_char(i - 1) == '.' {
            if i - 1 >= 1 {
                proof {
                    let d: int = i - 1;
                    assert(stem_end(name@, d));
                    let d2 = choose|d2: int| stem_end(name@, d2);
                    assert(d2 == d) by {
                        if d2 < d {
                            assert(name@[d] == '.');
                        } else if d2 > d {
                            assert(name@[d2] != '.');
                        }
                    }
                }
                return name.substring_char(0, i - 1).to_owned();
            } else {
                proof {
                    assert forall|d: int| !stem_end(name@, d) by {
                        if 1 <= d < name@.len() {
                            assert(name@[d] != '.');
                        }
                    }
                }
                return name.to_owned();
            }
        }
        i = i - 1;
    }
    proof {
        assert forall|d: int| !stem_end(name@, d) by {
            if 1 <= d < name@.len() {
                assert(name@[d] != '.');
            }
        }
    }
    name.to_owned()
}

/// The stem of the final path component of `path`.
pub fn file_stem(path: &str) -> (r: Option<String>)
    ensures
        r.deep_view() == spec_file_stem(path@),
{
    match file_name(path) {
        Some(name) => Some(stem_of(name.as_str())),
        None => None,
    }
}

/// Fills a missing title from the file's stem: metadata without a title
/// takes the name of the file it came from, every other field is left as
/// it came. A path without a stem leaves the title missing.
pub fn apply_title_default(fm: FrontMatter, path: &str) -> (r: FrontMatter)
    ensures
        r@.github == fm@.github,
        r@.created == fm@.created,
        r@.tags == fm@.tags,
        r@.authors == fm@.authors,
        fm.title is Some ==> r@.title == fm@.title,
        fm.title is None ==> r.title.deep_view() == spec_file_stem(path@),
{
    if fm.title.is_some() {
        fm
    } else {
        let title = file_stem(path);
        FrontMatter {
            title,
            github: fm.github,
            created: fm.created,
            tags: fm.tags,
            authors: fm.authors,
        }
    }
}

/// The items joined with `sep` between neighbours.
pub open spec fn spec_join_list(items: Seq<Seq<char>>, sep: Seq<char>) -> Seq<char>
    decreases items.len(),
{
    if items.len() == 0 {
        Seq::empty()
    } else if items.len() == 1 {
        items[0]
    } else {
        spec_join_list(items.drop_last(), sep) + sep + items.last()
    }
}

/// Joins the items with `sep` between neighbours.
pub fn join_list(items: &Vec<String>, sep: &str) -> (r: String)
    ensures
        r@ == spec_join_list(items.deep_view(), sep@),
{
    let ghost ls = items.deep_view();
    let mut out = String::new();
    let n = items.len();
    let mut i: usize = 0;
    while i < n
        invariant
            0 <= i <= n,
            n == items@.len(),
            ls == items.deep_view(),
            out@ == spec_join_list(ls.subrange(0, i as int), sep@),
        decreases n - i,
    {
        proof {
            assert(ls.subrange(0, i + 1 as int).drop_last() =~= ls.subrange(0, i as int));
            assert(ls.subrange(0, i + 1 as int).last() == ls[i as int]);
            assert(items@[i as int]@ == ls[i as int]);
        }
        if i > 0 {
            out.append(sep);
        }
        out.append(items[i].as_str());
        proof {
            if i == 0 {
                assert(out@ =~= spec_join_list(ls.subrange(0, 1), sep@));
            } else {
                assert(out@ =~= spec_join_list(ls.subrange(0, i + 1 as int), sep@));
            }
        }
        i = i + 1;
    }
    proof {
        assert(ls.subrange(0, n as int) =~= ls);
    }
    out
}

/// Appends the item to the parts when there is one.
pub open spec fn push_opt(ps: Seq<Seq<char>>, item: Option<Seq<char>>) -> Seq<Seq<char>> {
    match item {
        Some(s) => ps.push(s),
        None => ps,
    }
}

/// The title line of the display form, when a title is present.
pub open spec fn title_part(fm: FrontMatterView) -> Option<Seq<char>> {
    match fm.title {
        Some(t) => Some("Title: "@ + t),
        None => None,
    }
}

/// The repository line of the display form, when one is present.
pub open spec fn github_part(fm: FrontMatterView) -> Option<Seq<char>> {
    match fm.github {
        Some(g) => Some("github: "@ + g),
        None => None,
    }
}

/// A labelled list line of the display form; absent and empty lists
/// contribute nothing.
pub open spec fn list_part(label: Seq<char>, v: Option<Seq<Seq<char>>>) -> Option<Seq<char>> {
    match v {
        Some(items) => if items.len() > 0 {
            Some(label + spec_join_list(items, ", "@))
        } else {
            None
        },
        None => None,
    }
}

/// The lines of the display form of a front-matter value, in order.
pub open spec fn spec_display_parts(fm: FrontMatterView) -> Seq<Seq<char>> {
    push_opt(
        push_opt(
            push_opt(
                push_opt(push_opt(Seq::empty(), title_part(fm)), github_part(fm)),
                list_part("Created: "@, fm.created),
            ),
            list_part("Tags: "@, fm.tags),
        ),
        list_part("Authors: "@, fm.authors),
    )
}

/// The display form of a front-matter value: its lines joined with line
/// feeds.
pub open spec fn spec_display(fm: FrontMatterView) -> Seq<char> {
    spec_join_list(spec_display_parts(fm), "\n"@)
}

impl FrontMatter {
    /// The human-readable form of this front matter: one labelled line
    /// per present, non-empty field.
    pub fn display_string(&self) -> (r: String)
        ensures
            r@ == spec_display(self@),
    {
        let mut parts: Vec<String> = Vec::new();
        if let Some(title) = &self.title {
            let mut part = String::from_str("Title: ");
            part.append(title.as_str());
            let ghost pv = part@;
            parts.push(part);
            proof {
                assert(parts.deep_view() =~= push_opt(Seq::empty(), title_part(self@)));
            }
        }
        let ghost p1 = push_opt(Seq::empty(), title_part(self@));
        proof {
            assert(parts.deep_view() =~= p1);
        }
        if let Some(github) = &self.github {
            let mut part = String::from_str("github: ");
            part.append(github.as_str());
            parts.push(part);
            proof {
                assert(parts.deep_view() =~= push_opt(p1, github_part(self@)));
            }
        }
        let ghost p2 = push_opt(p1, github_part(self@));
        proof {
            assert(parts.deep_view() =~= p2);
        }
        if let Some(created) = &self.created {
            if created.len() > 0 {
                let mut part = String::from_str("Created: ");
                let joined = join_list(created, ", ");
                part.append(joined.as_str());
                parts.push(part);
                proof {
                    assert(parts.deep_view() =~= push_opt(p2, list_part("Created: "@, self@.created)));
                }
            }
        }
        let ghost p3 = push_opt(p2, list_part("Created: "@, self@.created));
        proof {
            assert(parts.deep_view() =~= p3);
        }
        if let Some(tags) = &self.tags {
            if tags.len() > 0 {
                let mut part = String::from_str("Tags: ");
                let joined = join_list(tags, ", ");
                part.append(joined.as_str());
                parts.push(part);
                proof {
                    assert(parts.deep_view() =~= push_opt(p3, list_part("Tags: "@, self@.tags)));
                }
            }
        }
        let ghost p4 = push_opt(p3, list_part("Tags: "@, self@.tags));
        proof {
            assert(parts.deep_view() =~= p4);
        }
        if let Some(authors) = &self.authors {
            if authors.len() > 0 {
                let mut part = String::from_str("Authors: ");
                let joined = join_list(authors, ", ");
                part.append(joined.as_str());
                parts.push(part);
                proof {
                    assert(parts.deep_view() =~= push_opt(p4, list_part("Authors: "@, self@.authors)));
                }
            }
        }
        proof {
            assert(parts.deep_view() =~= spec_display_parts(self@));
        }
        join_list(&parts, "\n")
    }
}

/// The home-based fallback for the local data directory.
pub open spec fn spec_home_share(home: Option<Seq<char>>) -> Option<Seq<char>> {
    match home {
        Some(h) => Some(
            crate::util::spec_join_path(crate::util::spec_join_path(h, ".local"@), "share"@),
        ),
        None => None,
    }
}

/// The local data directory: the data-home override when it is set and
/// non-empty, else the conventional place under the home directory.
pub open spec fn spec_local_data_dir(xdg: Option<Seq<char>>, home: Option<Seq<char>>) -> Option<
    Seq<char>,
> {
    match xdg {
        Some(x) => if x.len() > 0 {
            Some(x)
        } else {
            spec_home_share(home)
        },
        None => spec_home_share(home),
    }
}

/// The local data directory, from the data-home override and the home
/// directory as the environment provided them.
pub fn get_local_data_dir(xdg_data_home: &Option<String>, home: &Option<String>) -> (r: Option<
    String,
>)
    ensures
        r.deep_view() == spec_local_data_dir(xdg_data_home.deep_view(), home.deep_view()),
{
    match xdg_data_home {
        Some(x) if x.as_str().unicode_len() > 0 => Some(x.clone()),
        _ => match home {
            Some(h) => {
                let base = crate::util::join_path(h.as_str(), ".local");
                Some(crate::util::join_path(base.as_str(), "share"))
            },
            None => None,
        },
    }
}

/// Why the data path could not be determined.
#[derive(Clone, Copy, PartialEq, Eq, Structural, Debug)]
pub enum DataPathError {
    /// No local data directory: neither the data-home override nor the
    /// home directory is available.
    LocalDataDirUnavailable,
    /// The workspace root needs tilde expansion but no home directory is
    /// available.
    WorkspaceRootUnavailable,
    /// The workspace root has no final component to name the vault by.
    MissingVaultName,
}

/// The configured workspace root, tilde-expanded against `home`.
pub open spec fn spec_root_path(root_cfg: Seq<char>, home: Option<Seq<char>>) -> Option<Seq<char>> {
    if crate::util::tilde_prefixed(root_cfg) {
        match home {
            Some(h) => Some(crate::util::spec_expand_tilde(root_cfg, h)),
            None => None,
        }
    } else {
        Some(root_cfg)
    }
}

/// Where the vault's data is kept: the local data directory, the
/// application's own directory, and the vault's name — the final
/// component of the workspace root.
pub open spec fn spec_data_path(
    root_cfg: Seq<char>,
    xdg: Option<Seq<char>>,
    home: Option<Seq<char>>,
) -> Result<Seq<char>, DataPathError> {
    match spec_local_data_dir(xdg, home) {
        Some(dir) => match spec_root_path(root_cfg, home) {
            Some(root) => match spec_file_name(root) {
                Some(name) => Ok(
                    crate::util::spec_join_path(
                        crate::util::spec_join_path(dir, "obsidian-rs"@),
                        name,
                    ),
                ),
                None => Err(DataPathError::MissingVaultName),
            },
            None => Err(DataPathError::WorkspaceRootUnavailable),
        },
        None => Err(DataPathError::LocalDataDirUnavailable),
    }
}

/// The directory the vault's data lives in, named after the vault: the
/// final component of the configured workspace root, under the
/// application's directory in the local data directory. The data-home
/// override and the home directory come in as the environment provided
/// them.
pub fn get_data_path(
    config: &crate::config::AppConfig,
    xdg_data_home: &Option<String>,
    home: &Option<String>,
) -> (r: Result<String, DataPathError>)
    ensures
        match r {
            Ok(p) => spec_data_path(
                config.workspace.root@,
                xdg_data_home.deep_view(),
                home.deep_view(),
            ) == Ok::<Seq<char>, DataPathError>(p@),
            Err(e) => spec_data_path(
                config.workspace.root@,
                xdg_data_home.deep_view(),
                home.deep_view(),
            ) == Err::<Seq<char>, DataPathError>(e),
        },
{
    let dir = match get_local_data_dir(xdg_data_home, home) {
        Some(d) => d,
        None => {
            return Err(DataPathError::LocalDataDirUnavailable);
        },
    };
    let root_cfg = &config.workspace.root;
    let n: usize = root_cfg.as_str().unicode_len();
    let tilde = (n == 1 && root_cfg.as_str().get_char(0) == '~') || (n >= 2
        && root_cfg.as_str().get_char(0) == '~' && root_cfg.as_str().get_char(1) == '/');
    proof {
        if n >= 1 && root_cfg@[0] == '~' && n == 1 {
            assert(root_cfg@ =~= seq!['~']);
        }
        if root_cfg@ == seq!['~'] {
            assert(n == 1 && root_cfg@[0] == '~');
        }
    }
    let root = if tilde {
        match home {
            Some(h) => crate::util::expand_tilde_with(root_cfg.as_str(), h.as_str()),
            None => {
                return Err(DataPathError::WorkspaceRootUnavailable);
            },
        }
    } else {
        root_cfg.clone()
    };
    let name = match file_name(root.as_str()) {
        Some(name) => name,
        None => {
            return Err(DataPathError::MissingVaultName);
        },
    };
    let base = crate::util::join_path(dir.as_str(), "obsidian-rs");
    Ok(crate::util::join_path(base.as_str(), name.as_str()))
}

/// The identity keys of the admissible paths, in traversal order: those
/// inside the root whose relative form is representable and not hidden.
pub open spec fn spec_selected(root: Seq<char>, ps: Seq<Seq<char>>) -> Seq<Seq<char>>
    decreases ps.len(),
{
    if ps.len() == 0 {
        Seq::empty()
    } else {
        let rest = spec_selected(root, ps.drop_last());
        if crate::fingerprint::admissible(root, ps.last()) {
            rest.push(crate::fingerprint::relative_key(ps.last(), root))
        } else {
            rest
        }
    }
}

/// Selects, from the absolute paths a traversal met, the identity keys
/// of the files the index covers.
pub fn select_vault_keys(root: &str, paths: &Vec<String>) -> (r: Vec<String>)
    requires
        crate::fingerprint::valid_root(root@),
    ensures
        r.deep_view() == spec_selected(root@, paths.deep_view()),
{
    let ghost ps = paths.deep_view();
    let mut keys: Vec<String> = Vec::new();
    let n = paths.len();
    let mut i: usize = 0;
    while i < n
        invariant
            crate::fingerprint::valid_root(root@),
            0 <= i <= n,
            n == paths@.len(),
            ps == paths.deep_view(),
            keys.deep_view() == spec_selected(root@, ps.subrange(0, i as int)),
        decreases n - i,
    {
        proof {
            assert(ps.subrange(0, i + 1 as int).drop_last() =~= ps.subrange(0, i as int));
            assert(ps.subrange(0, i + 1 as int).last() == ps[i as int]);
        }
        match crate::fingerprint::admissible_key(root, paths, i) {
            Some(k) => {
                let ghost prev = keys.deep_view();
                let ghost kv = k@;
                keys.push(k);
                proof {
                    assert(keys.deep_view() =~= prev.push(kv));
                }
            },
            None => {},
        }
        i = i + 1;
    }
    proof {
        assert(ps.subrange(0, n as int) =~= ps);
    }
    keys
}

/// Joining one more line appends that line and a line feed.
proof fn lemma_joined_lines_snoc(ls: Seq<Seq<char>>, from: int, to: int)
    requires
        from <= to < ls.len(),
    ensures
        joined_lines(ls, from, to + 1) =~= joined_lines(ls, from, to) + ls[to].push('\n'),
    decreases to - from,
{
    if from >= to {
        assert(joined_lines(ls, from + 1, to + 1) =~= Seq::empty());
        assert(joined_lines(ls, from, to + 1) =~= ls[from].push('\n') + joined_lines(
            ls,
            from + 1,
            to + 1,
        ));
        assert(joined_lines(ls, from, to) =~= Seq::empty());
    } else {
        lemma_joined_lines_snoc(ls, from + 1, to);
        assert(joined_lines(ls, from, to + 1) =~= ls[from].push('\n') + joined_lines(
            ls,
            from + 1,
            to + 1,
        ));
        assert(joined_lines(ls, from, to) =~= ls[from].push('\n') + joined_lines(ls, from + 1, to));
    }
}

} // verus!
