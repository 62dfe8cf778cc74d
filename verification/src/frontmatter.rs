use vstd::prelude::*;

use crate::errors::{AppError, Field};
use crate::text::{
    join_from, join_lines, lemma_split_join, lemma_split_lines_no_newline, line_to_pair,
    line_pair_exec, lines_view, lookup_exec, lookup_last, pairs_of_lines, pairs_view,
    split_lines, split_lines_exec,
};
use crate::time::{opt_int, opt_ts_in_range, parse_rfc3339_micros, rfc3339_micros_of};

verus! {

/// The delimiter line of a frontmatter block.
pub open spec fn marker() -> Seq<char> {
    "---"@
}

/// First index `k >= i` with `ls[k]` equal to the marker line, or
/// `ls.len()` if there is none.
pub open spec fn find_marker_from(ls: Seq<Seq<char>>, i: int) -> int
    decreases ls.len() - i,
{
    if i < 0 || i >= ls.len() {
        ls.len() as int
    } else if ls[i] == marker() {
        i
    } else {
        find_marker_from(ls, i + 1)
    }
}

pub proof fn lemma_find_marker_is(ls: Seq<Seq<char>>, i: int, k: int)
    requires
        0 <= i <= k <= ls.len(),
        forall|j: int| i <= j < k ==> ls[j] != marker(),
        k < ls.len() ==> ls[k] == marker(),
    ensures
        find_marker_from(ls, i) == k,
    decreases k - i,
{
    if i < k {
        assert(ls[i] != marker());
        lemma_find_marker_is(ls, i + 1, k);
    }
}

pub proof fn lemma_find_marker_bounds(ls: Seq<Seq<char>>, i: int)
    requires
        0 <= i <= ls.len(),
    ensures
        i <= find_marker_from(ls, i) <= ls.len(),
        find_marker_from(ls, i) < ls.len() ==> ls[find_marker_from(ls, i)] == marker(),
    decreases ls.len() - i,
{
    if i < ls.len() && ls[i] != marker() {
        lemma_find_marker_bounds(ls, i + 1);
    }
}

/// The index of the line closing a frontmatter block, if the document has
/// one: the first line must be the marker, and a later line must repeat
/// it.  Everything else is a document without a block.
pub open spec fn block_close_spec(ls: Seq<Seq<char>>) -> Option<int> {
    if ls.len() >= 2 && ls[0] == marker() && find_marker_from(ls, 1) < ls.len() {
        Some(find_marker_from(ls, 1))
    } else {
        None
    }
}

pub open spec fn has_block(doc: Seq<char>) -> bool {
    block_close_spec(split_lines(doc)) is Some
}

/// The lines strictly between the two marker lines; empty when the
/// document has no block.
pub open spec fn block_lines(doc: Seq<char>) -> Seq<Seq<char>> {
    match block_close_spec(split_lines(doc)) {
        Some(k) => split_lines(doc).subrange(1, k),
        None => Seq::empty(),
    }
}

/// The lines after the closing marker; the whole document when it has no
/// block.
pub open spec fn body_lines(doc: Seq<char>) -> Seq<Seq<char>> {
    match block_close_spec(split_lines(doc)) {
        Some(k) => split_lines(doc).skip(k + 1),
        None => split_lines(doc),
    }
}

/// The document with its frontmatter block removed.
pub open spec fn strip_frontmatter_spec(doc: Seq<char>) -> Seq<char> {
    join_lines(body_lines(doc))
}

/// The structured metadata carried by one content item.  A timestamp is
/// microseconds since the Unix epoch; an absent `published_at` marks a
/// draft.
#[derive(Debug, Clone)]
pub struct Frontmatter {
    pub description: String,
    pub preview: String,
    pub published_at: Option<i64>,
    pub revised_at: Option<i64>,
    pub slug: String,
    pub title: String,
}

pub struct FrontmatterView {
    pub description: Seq<char>,
    pub preview: Seq<char>,
    pub published_at: Option<int>,
    pub revised_at: Option<int>,
    pub slug: Seq<char>,
    pub title: Seq<char>,
}

impl View for Frontmatter {
    type V = FrontmatterView;

    open spec fn view(&self) -> FrontmatterView {
        FrontmatterView {
            description: self.description@,
            preview: self.preview@,
            published_at: opt_int(self.published_at),
            revised_at: opt_int(self.revised_at),
            slug: self.slug@,
            title: self.title@,
        }
    }
}

/// Both optional timestamps of a frontmatter are in formatting range.
pub open spec fn fm_wf(f: FrontmatterView) -> bool {
    opt_ts_in_range(f.published_at) && opt_ts_in_range(f.revised_at)
}

/// The timestamp denoted by an optional attribute value: absent or
/// unparsable becomes `None`, never an error.
pub open spec fn parse_opt_ts(o: Option<Seq<char>>) -> Option<int> {
    match o {
        Some(s) => rfc3339_micros_of(s),
        None => None,
    }
}

/// The frontmatter denoted by a sequence of key/value pairs, or the first
/// missing required field, checked in the order description, preview,
/// slug, title.
pub open spec fn fm_from_pairs(ps: Seq<(Seq<char>, Seq<char>)>) -> Result<FrontmatterView, Field> {
    if lookup_last(ps, "description"@) is None {
        Err(Field::Description)
    } else if lookup_last(ps, "preview"@) is None {
        Err(Field::Preview)
    } else if lookup_last(ps, "slug"@) is None {
        Err(Field::Slug)
    } else if lookup_last(ps, "title"@) is None {
        Err(Field::Title)
    } else {
        Ok(
            FrontmatterView {
                description: lookup_last(ps, "description"@)->0,
                preview: lookup_last(ps, "preview"@)->0,
                published_at: parse_opt_ts(lookup_last(ps, "published_at"@)),
                revised_at: parse_opt_ts(lookup_last(ps, "revised_at"@)),
                slug: lookup_last(ps, "slug"@)->0,
                title: lookup_last(ps, "title"@)->0,
            },
        )
    }
}

/// The frontmatter denoted by a whole document: the pairs of its block
/// lines, resolved to attributes.
pub open spec fn extract_spec(doc: Seq<char>) -> Result<FrontmatterView, Field> {
    fm_from_pairs(pairs_of_lines(block_lines(doc)))
}

impl Frontmatter {
    /// Resolves a pair list to the required and optional attributes; fails
    /// on the first missing required field.
    pub fn from_pairs(pairs: &Vec<(String, String)>) -> (r: Result<Self, AppError>)
        ensures
            match r {
                Ok(fm) => fm_from_pairs(pairs_view(pairs@)) == Ok::<FrontmatterView, Field>(fm@)
                    && fm_wf(fm@),
                Err(e) => fm_from_pairs(pairs_view(pairs@)) is Err && e == AppError::MissingField(
                    fm_from_pairs(pairs_view(pairs@))->Err_0,
                ),
            },
    {
        let description = match lookup_exec(pairs, &String::from_str("description")) {
            Some(v) => v,
            None => {
                return Err(AppError::MissingField(Field::Description));
            },
        };
        let preview = match lookup_exec(pairs, &String::from_str("preview")) {
            Some(v) => v,
            None => {
                return Err(AppError::MissingField(Field::Preview));
            },
        };
        let slug = match lookup_exec(pairs, &String::from_str("slug")) {
            Some(v) => v,
            None => {
                return Err(AppError::MissingField(Field::Slug));
            },
        };
        let title = match lookup_exec(pairs, &String::from_str("title")) {
            Some(v) => v,
            None => {
                return Err(AppError::MissingField(Field::Title));
            },
        };
        let published_at = match lookup_exec(pairs, &String::from_str("published_at")) {
            Some(v) => parse_rfc3339_micros(v.as_str()),
            None => None,
        };
        let revised_at = match lookup_exec(pairs, &String::from_str("revised_at")) {
            Some(v) => parse_rfc3339_micros(v.as_str()),
            None => None,
        };
        Ok(Frontmatter { description, preview, published_at, revised_at, slug, title })
    }
}

/// The key/value pairs of the given lines, in order.
fn pairs_of_lines_exec(lines: &Vec<String>) -> (r: Vec<(String, String)>)
    ensures
        pairs_view(r@) == pairs_of_lines(lines_view(lines@)),
{
    let mut pairs: Vec<(String, String)> = Vec::new();
    let mut i: usize = 0;
    proof {
        assert(pairs_view(pairs@) =~= pairs_of_lines(lines_view(lines@).take(0)));
    }
    while i < lines.len()
        invariant
            0 <= i <= lines@.len(),
            pairs_view(pairs@) == pairs_of_lines(lines_view(lines@).take(i as int)),
        decreases lines@.len() - i,
    {
        let ghost lv = lines_view(lines@);
        let ghost old_pairs = pairs@;
        match line_pair_exec(lines[i].as_str()) {
            Some(p) => {
                pairs.push(p);
            },
            None => {},
        }
        proof {
            crate::text::lemma_pairs_of_lines_push(lv.take(i as int), lv[i as int]);
            assert(lv.take(i as int).push(lv[i as int]) =~= lv.take(i + 1));
            match line_to_pair(lv[i as int]) {
                Some(q) => {
                    assert(pairs_view(pairs@) =~= pairs_view(old_pairs).push(q));
                },
                None => {
                    assert(pairs_view(pairs@) =~= pairs_view(old_pairs));
                },
            }
        }
        i += 1;
    }
    proof {
        assert(lines_view(lines@).take(i as int) =~= lines_view(lines@));
    }
    pairs
}

/// The key/value pairs of a frontmatter text, in order; the marker lines,
/// blank lines and other lines without a colon are skipped.
pub fn frontmatter_pairs(s: &str) -> (r: Vec<(String, String)>)
    ensures
        pairs_view(r@) == pairs_of_lines(split_lines(s@)),
{
    let lines = split_lines_exec(s);
    pairs_of_lines_exec(&lines)
}

/// The index of the closing marker line, where the document opens with a
/// block.
fn block_close_exec(lines: &Vec<String>) -> (r: Option<usize>)
    requires
        lines@.len() >= 1,
    ensures
        match r {
            Some(k) => block_close_spec(lines_view(lines@)) == Some(k as int) && 1 <= k
                < lines@.len(),
            None => block_close_spec(lines_view(lines@)) is None,
        },
{
    let marker_line = String::from_str("---");
    if lines.len() < 2 || !(lines[0] == marker_line) {
        return None;
    }
    let mut k: usize = 1;
    while k < lines.len()
        invariant
            1 <= k <= lines@.len(),
            lines@.len() >= 2,
            marker_line@ == marker(),
            lines_view(lines@)[0] == marker(),
            forall|j: int| 1 <= j < k ==> lines_view(lines@)[j] != marker(),
        decreases lines@.len() - k,
    {
        let hit = lines[k] == marker_line;
        proof {
            reveal_strlit("---");
            assert(marker_line@ == marker());
            assert(lines_view(lines@)[k as int] == lines@[k as int]@);
        }
        if hit {
            proof {
                lemma_find_marker_is(lines_view(lines@), 1, k as int);
            }
            return Some(k);
        }
        k += 1;
    }
    proof {
        lemma_find_marker_is(lines_view(lines@), 1, lines@.len() as int);
    }
    None
}

/// Extracts the frontmatter of one content item: the block delimited by a
/// leading marker line and the next line repeating it, its lines split
/// into pairs, the pairs resolved to attributes.
pub fn extract_frontmatter_from_content_file(content: &str) -> (r: Result<Frontmatter, AppError>)
    ensures
        match r {
            Ok(fm) => extract_spec(content@) == Ok::<FrontmatterView, Field>(fm@) && fm_wf(fm@),
            Err(e) => extract_spec(content@) is Err && e == AppError::MissingField(
                extract_spec(content@)->Err_0,
            ),
        },
{
    let lines = split_lines_exec(content);
    let mut block: Vec<String> = Vec::new();
    match block_close_exec(&lines) {
        Some(k) => {
            let mut j: usize = 1;
            proof {
                assert(lines_view(block@) =~= lines_view(lines@).subrange(1, 1));
            }
            while j < k
                invariant
                    1 <= j <= k < lines@.len(),
                    lines_view(block@) == lines_view(lines@).subrange(1, j as int),
                decreases k - j,
            {
                let ghost old_block = block@;
                block.push(lines[j].clone());
                proof {
                    assert(lines_view(block@) =~= lines_view(old_block).push(
                        lines_view(lines@)[j as int],
                    ));
                    assert(lines_view(lines@).subrange(1, j as int).push(
                        lines_view(lines@)[j as int],
                    ) =~= lines_view(lines@).subrange(1, j + 1));
                }
                j += 1;
            }
            proof {
                assert(lines_view(block@) == block_lines(content@));
            }
        },
        None => {
            proof {
                assert(lines_view(block@) =~= Seq::<Seq<char>>::empty());
                assert(lines_view(block@) == block_lines(content@));
            }
        },
    }
    let pairs = pairs_of_lines_exec(&block);
    Frontmatter::from_pairs(&pairs)
}

/// Removes the frontmatter block, leaving the body for rendering; a
/// document without a block is kept whole.
pub fn strip_frontmatter(content: &str) -> (r: String)
    ensures
        r@ == strip_frontmatter_spec(content@),
        !has_block(content@) ==> r@ == content@,
{
    proof {
        if !has_block(content@) {
            crate::text::lemma_join_split(content@);
        }
    }
    let lines = split_lines_exec(content);
    match block_close_exec(&lines) {
        Some(k) => {
            proof {
                broadcast use vstd::std_specs::vec::axiom_spec_len;

                assert(vstd::std_specs::vec::spec_vec_len(&lines) == lines@.len());
            }
            join_from(&lines, k + 1)
        },
        None => {
            proof {
                assert(lines_view(lines@).skip(0) =~= lines_view(lines@));
            }
            join_from(&lines, 0)
        },
    }
}

/// Stripping is idempotent: once the block is removed, stripping again
/// changes nothing.  The requires excludes the one family of inputs on
/// which this cannot hold: documents whose remaining body itself opens
/// with a complete marker block, which a second strip would remove too.
pub proof fn lemma_strip_idempotent(doc: Seq<char>)
    requires
        !has_block(strip_frontmatter_spec(doc)),
    ensures
        strip_frontmatter_spec(strip_frontmatter_spec(doc)) == strip_frontmatter_spec(doc),
{
    crate::text::lemma_join_split(strip_frontmatter_spec(doc));
}

/// Round-trip: extracting the frontmatter of a document gives the same
/// attributes as parsing the isolated frontmatter block taken from the
/// same document.
pub proof fn lemma_frontmatter_round_trip(doc: Seq<char>)
    ensures
        extract_spec(doc) == fm_from_pairs(
            pairs_of_lines(split_lines(join_lines(block_lines(doc)))),
        ),
{
    let bl = block_lines(doc);
    if bl.len() == 0 {
        assert(join_lines(bl) =~= Seq::<char>::empty());
        let ls = split_lines(Seq::<char>::empty());
        assert(crate::text::find_char(Seq::<char>::empty(), '\n') == 0);
        assert(ls =~= seq![Seq::<char>::empty()]);
        reveal_strlit("---");
        assert(marker().len() == 3);
        assert(crate::text::find_char(Seq::<char>::empty(), ':') == 0);
        assert(line_to_pair(Seq::<char>::empty()) is None);
        assert(ls.drop_first() =~= Seq::<Seq<char>>::empty());
        assert(pairs_of_lines(Seq::<Seq<char>>::empty()) =~= Seq::<(Seq<char>, Seq<char>)>::empty());
        assert(pairs_of_lines(ls) =~= Seq::<(Seq<char>, Seq<char>)>::empty());
        assert(pairs_of_lines(bl) =~= Seq::<(Seq<char>, Seq<char>)>::empty());
    } else {
        lemma_split_lines_no_newline(doc);
        let ls = split_lines(doc);
        let close = block_close_spec(ls)->0;
        lemma_find_marker_bounds(ls, 1);
        assert(1 <= close <= ls.len());
        assert forall|k: int, j: int| 0 <= k < bl.len() && 0 <= j < bl[k].len() implies bl[k][j]
            != '\n' by {
            assert(bl[k] == ls[k + 1]);
        }
        lemma_split_join(bl);
    }
}

} // verus!
