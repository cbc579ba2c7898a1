use crate::filetype::is_noop_profile;
use crate::filetype::profile_for_name;
use crate::filetype::FileType;
use crate::filetype::HighlightingOptions;
use crate::highlighter::config_of;
use crate::highlighter::scan_line_spec;
use crate::row::delete_cluster;
use crate::row::highlight_query_of;
use crate::row::insert_cluster;
use crate::row::row_find_spec;
use crate::row::split_head;
use crate::row::split_tail;
use crate::row::Row;
use crate::row::RowView;
use crate::row::SearchDirection;
use crate::text::graphemes_of;
use crate::text::split_graphemes;
use vstd::prelude::*;

verus! {

/// A position in a document: `x` is a grapheme index within line `y`.
#[derive(Clone, Copy, Debug, Default, PartialEq, Eq, Structural)]
pub struct Position {
    pub x: usize,
    pub y: usize,
}

/// The mathematical value of a `Document`: its rows and the dirty flag.
pub struct DocView {
    pub rows: Seq<RowView>,
    pub dirty: bool,
}

/// An ordered collection of rows with an optional file identity, the language
/// profile chosen from it, and a dirty flag that records unsaved changes.
pub struct Document {
    pub filename: Option<String>,
    pub file_type: FileType,
    pub rows: Vec<Row>,
    pub dirty: bool,
}

impl View for Document {
    type V = DocView;

    open spec fn view(&self) -> DocView {
        DocView { rows: self.rows@.map_values(|r: Row| r@), dirty: self.dirty }
    }
}

/// The cluster contents of each line, without the overlays.
pub open spec fn line_contents(rows: Seq<RowView>) -> Seq<Seq<Seq<char>>> {
    rows.map_values(|r: RowView| r.content)
}

/// A row whose overlay was just recomputed for its content, with no active
/// search term.
pub open spec fn rehighlighted(content: Seq<Seq<char>>, opts: HighlightingOptions) -> RowView {
    RowView {
        content,
        highlights: scan_line_spec(config_of(opts, Seq::<Seq<char>>::empty()), content),
    }
}

/// The rows after inserting the character `c` (not a newline) at `at`: a new
/// one-cluster row appended when `at.y` equals the line count, otherwise the
/// target row edited; the touched row is freshly highlighted.
pub open spec fn insert_rows_spec(
    rows: Seq<RowView>,
    at: Position,
    c: char,
    opts: HighlightingOptions,
) -> Seq<RowView> {
    if at.y == rows.len() {
        rows.push(rehighlighted(seq![seq![c]], opts))
    } else {
        rows.update(
            at.y as int,
            rehighlighted(insert_cluster(rows[at.y as int].content, at.x as int, c), opts),
        )
    }
}

/// The rows after a newline at `at`: an empty row appended when `at.y` equals
/// the line count; otherwise the target row truncated at `at.x` and the rest
/// inserted as a new row right after it, both halves freshly highlighted.
pub open spec fn insert_newline_rows_spec(
    rows: Seq<RowView>,
    at: Position,
    opts: HighlightingOptions,
) -> Seq<RowView> {
    if at.y == rows.len() {
        rows.push(RowView { content: Seq::empty(), highlights: Seq::empty() })
    } else {
        let content = rows[at.y as int].content;
        rows.update(at.y as int, rehighlighted(split_head(content, at.x as int), opts)).insert(
            at.y as int + 1,
            rehighlighted(split_tail(content, at.x as int), opts),
        )
    }
}

/// The rows after a delete at `at` (meaningful for `at.y` in range): deleting
/// at the end of a line that is not the last merges the next line into it;
/// otherwise the cluster at `at.x` is removed. The resulting row is freshly
/// highlighted.
pub open spec fn delete_rows_spec(
    rows: Seq<RowView>,
    at: Position,
    opts: HighlightingOptions,
) -> Seq<RowView> {
    let y = at.y as int;
    if at.x == rows[y].content.len() && at.y + 1 < rows.len() {
        rows.update(y, rehighlighted(rows[y].content + rows[y + 1].content, opts)).remove(y + 1)
    } else {
        rows.update(y, rehighlighted(delete_cluster(rows[y].content, at.x as int), opts))
    }
}

/// A forward document search: line `y` from column `x`, then every following
/// line from column 0; the position of the first match, if any.
pub open spec fn doc_find_forward(
    lines: Seq<Seq<Seq<char>>>,
    q: Seq<Seq<char>>,
    x: int,
    y: int,
) -> Option<Position>
    decreases lines.len() - y,
    when 0 <= y
{
    if y >= lines.len() {
        None
    } else {
        match row_find_spec(lines[y], q, x, SearchDirection::Forward) {
            Some(j) => Some(Position { x: j as usize, y: y as usize }),
            None => doc_find_forward(lines, q, 0, y + 1),
        }
    }
}

/// A backward document search: line `y` through column `x`, then every prior
/// line through its end, down to line 0; the position of the first match
/// found in that order, if any.
pub open spec fn doc_find_backward(
    lines: Seq<Seq<Seq<char>>>,
    q: Seq<Seq<char>>,
    x: int,
    y: int,
) -> Option<Position>
    decreases y,
    when 0 <= y < lines.len()
{
    match row_find_spec(lines[y], q, x, SearchDirection::Backward) {
        Some(j) => Some(Position { x: j as usize, y: y as usize }),
        None => if y == 0 {
            None
        } else {
            doc_find_backward(lines, q, lines[y - 1].len() as int, y - 1)
        },
    }
}

/// What a document search returns: nothing when the start line is out of
/// range or the query has no clusters; otherwise the first position found
/// scanning forward (wrapping to following lines) or backward (wrapping to
/// prior lines), never wrapping past the document's ends.
pub open spec fn doc_find_spec(
    lines: Seq<Seq<Seq<char>>>,
    q: Seq<Seq<char>>,
    at: Position,
    direction: SearchDirection,
) -> Option<Position> {
    if at.y >= lines.len() || q.len() == 0 {
        None
    } else {
        match direction {
            SearchDirection::Forward => doc_find_forward(lines, q, at.x as int, at.y as int),
            SearchDirection::Backward => doc_find_backward(lines, q, at.x as int, at.y as int),
        }
    }
}

/// The document's full text: every line's clusters joined back together, each
/// line closed by one newline, the last included.
pub open spec fn doc_contents_spec(rows: Seq<RowView>) -> Seq<char>
    decreases rows.len(),
{
    if rows.len() == 0 {
        Seq::empty()
    } else {
        rows.first().content.flatten() + seq!['\n'] + doc_contents_spec(rows.drop_first())
    }
}

impl Document {
    pub fn len(&self) -> (r: usize)
        ensures
            r == self@.rows.len(),
    {
        self.rows.len()
    }

    pub fn is_empty(&self) -> (r: bool)
        ensures
            r == (self@.rows.len() == 0),
    {
        self.rows.is_empty()
    }

    pub fn is_dirty(&self) -> (r: bool)
        ensures
            r == self@.dirty,
    {
        self.dirty
    }

    /// Read-only access to the row at `index`, if it exists.
    pub fn row(&self, index: usize) -> (r: Option<&Row>)
        ensures
            match r {
                Some(row) => index < self@.rows.len() && row@ == self@.rows[index as int],
                None => index >= self@.rows.len(),
            },
    {
        if index < self.rows.len() {
            Some(&self.rows[index])
        } else {
            None
        }
    }

    /// Records a successful save: the buffer no longer differs from disk.
    pub fn mark_saved(&mut self)
        ensures
            final(self)@.rows == old(self)@.rows,
            final(self)@.dirty == false,
            final(self).filename == old(self).filename,
            final(self).file_type == old(self).file_type,
    {
        self.dirty = false;
    }
}

impl Default for Document {
    /// A new, unsaved, empty buffer with the no-op profile.
    fn default() -> (r: Self)
        ensures
            r@.rows == Seq::<RowView>::empty(),
            r@.dirty == false,
            r.filename is None,
            is_noop_profile(r.file_type),
    {
        let r = Document {
            filename: None,
            file_type: FileType::default(),
            rows: Vec::new(),
            dirty: false,
        };
        proof {
            assert(r@.rows =~= Seq::<RowView>::empty());
        }
        r
    }
}


impl Document {
    /// Inserts `c` at `at`: a no-op beyond the line count; a newline splits
    /// the line (see `insert_newline`); otherwise the character lands in the
    /// target line, or opens a new last line. Any real edit marks the buffer
    /// dirty and re-highlights exactly the touched line(s).
    pub fn insert(&mut self, at: &Position, c: char)
        ensures
            final(self).filename == old(self).filename,
            final(self).file_type == old(self).file_type,
            at.y > old(self)@.rows.len() ==> final(self)@ == old(self)@,
            at.y <= old(self)@.rows.len() && c == '\n' ==> final(self)@.rows
                == insert_newline_rows_spec(old(self)@.rows, *at, old(self).file_type.hl_opts)
                && final(self)@.dirty,
            at.y <= old(self)@.rows.len() && c != '\n' ==> final(self)@.rows == insert_rows_spec(
                old(self)@.rows,
                *at,
                c,
                old(self).file_type.hl_opts,
            ) && final(self)@.dirty,
    {
        if at.y > self.rows.len() {
            return ;
        }
        self.dirty = true;
        if c == '\n' {
            self.insert_newline(at);
            return ;
        }
        if at.y == self.rows.len() {
            let mut row = Row::default();
            row.insert(0, c);
            row.highlight(&self.file_type.hl_opts, None);
            proof {
                assert(row@.content =~= seq![seq![c]]);
            }
            self.rows.push(row);
            proof {
                assert(self@.rows =~= insert_rows_spec(
                    old(self)@.rows,
                    *at,
                    c,
                    old(self).file_type.hl_opts,
                ));
            }
        } else {
            let mut row = self.rows.remove(at.y);
            row.insert(at.x, c);
            row.highlight(&self.file_type.hl_opts, None);
            self.rows.insert(at.y, row);
            proof {
                assert(self@.rows =~= insert_rows_spec(
                    old(self)@.rows,
                    *at,
                    c,
                    old(self).file_type.hl_opts,
                ));
            }
        }
    }

    /// Splits the line at `at` in two: the clusters before `at.x` stay, the
    /// rest become a new line right after, both freshly highlighted. At the
    /// append point (`at.y` equal to the line count) a new empty line is
    /// added instead.
    pub fn insert_newline(&mut self, at: &Position)
        requires
            at.y <= old(self)@.rows.len(),
        ensures
            final(self)@.rows == insert_newline_rows_spec(
                old(self)@.rows,
                *at,
                old(self).file_type.hl_opts,
            ),
            final(self)@.dirty == old(self)@.dirty,
            final(self).filename == old(self).filename,
            final(self).file_type == old(self).file_type,
    {
        if at.y == self.rows.len() {
            self.rows.push(Row::default());
            proof {
                assert(self@.rows =~= insert_newline_rows_spec(
                    old(self)@.rows,
                    *at,
                    old(self).file_type.hl_opts,
                ));
            }
            return ;
        }
        let mut row = self.rows.remove(at.y);
        let mut tail = row.split(at.x);
        row.highlight(&self.file_type.hl_opts, None);
        tail.highlight(&self.file_type.hl_opts, None);
        self.rows.insert(at.y, row);
        self.rows.insert(at.y + 1, tail);
        proof {
            assert(self@.rows =~= insert_newline_rows_spec(
                old(self)@.rows,
                *at,
                old(self).file_type.hl_opts,
            ));
        }
    }

    /// Deletes at `at`: a no-op beyond the last line. At the end of a line
    /// that is not the last, the next line is merged into it; otherwise the
    /// cluster at `at.x` is removed (a no-op past the end of the last line's
    /// content, though the buffer is still marked dirty). The resulting line
    /// is re-highlighted.
    pub fn delete(&mut self, at: &Position)
        ensures
            final(self).filename == old(self).filename,
            final(self).file_type == old(self).file_type,
            at.y >= old(self)@.rows.len() ==> final(self)@ == old(self)@,
            at.y < old(self)@.rows.len() ==> final(self)@.rows == delete_rows_spec(
                old(self)@.rows,
                *at,
                old(self).file_type.hl_opts,
            ) && final(self)@.dirty,
    {
        let len = self.rows.len();
        if at.y >= len {
            return ;
        }
        self.dirty = true;
        let row_len = self.rows[at.y].len();
        if at.x == row_len && at.y + 1 < len {
            let next = self.rows.remove(at.y + 1);
            let mut row = self.rows.remove(at.y);
            row.append(&next);
            row.highlight(&self.file_type.hl_opts, None);
            self.rows.insert(at.y, row);
            proof {
                assert(self@.rows =~= delete_rows_spec(
                    old(self)@.rows,
                    *at,
                    old(self).file_type.hl_opts,
                ));
            }
        } else {
            let mut row = self.rows.remove(at.y);
            row.delete(at.x);
            row.highlight(&self.file_type.hl_opts, None);
            self.rows.insert(at.y, row);
            proof {
                assert(self@.rows =~= delete_rows_spec(
                    old(self)@.rows,
                    *at,
                    old(self).file_type.hl_opts,
                ));
            }
        }
    }

    /// Re-runs the highlighter on every line with the document's profile and
    /// the given search term; no content changes.
    #[verifier::loop_isolation(false)]
    pub fn highlight(&mut self, word: Option<&str>)
        ensures
            final(self)@.rows.len() == old(self)@.rows.len(),
            forall|i: int|
                0 <= i < old(self)@.rows.len() ==> (#[trigger] final(self)@.rows[i].content == old(
                    self,
                )@.rows[i].content),
            forall|i: int|
                0 <= i < old(self)@.rows.len() ==> (#[trigger] final(self)@.rows[i].highlights
                    == scan_line_spec(
                    config_of(old(self).file_type.hl_opts, highlight_query_of(word)),
                    old(self)@.rows[i].content,
                )),
            final(self)@.dirty == old(self)@.dirty,
            final(self).filename == old(self).filename,
            final(self).file_type == old(self).file_type,
    {
        let mut k: usize = 0;
        while k < self.rows.len()
            invariant
                k <= self.rows@.len(),
                self.rows@.len() == old(self).rows@.len(),
                self.dirty == old(self).dirty,
                self.filename == old(self).filename,
                self.file_type == old(self).file_type,
                forall|i: int|
                    0 <= i < k ==> (#[trigger] self@.rows[i].content == old(self)@.rows[i].content),
                forall|i: int|
                    0 <= i < k ==> (#[trigger] self@.rows[i].highlights == scan_line_spec(
                        config_of(old(self).file_type.hl_opts, highlight_query_of(word)),
                        old(self)@.rows[i].content,
                    )),
                forall|i: int|
                    k <= i < self.rows@.len() ==> (#[trigger] self@.rows[i] == old(self)@.rows[i]),
            decreases self.rows@.len() - k,
        {
            let ghost pre = self@.rows;
            let mut row = self.rows.remove(k);
            row.highlight(&self.file_type.hl_opts, word);
            self.rows.insert(k, row);
            proof {
                assert(self@.rows =~= pre.update(k as int, row@));
                let cfg = config_of(old(self).file_type.hl_opts, highlight_query_of(word));
                assert forall|i: int| 0 <= i <= k as int implies (#[trigger] self@.rows[i].content
                    == old(self)@.rows[i].content) by {
                    if i < k as int {
                        assert(self@.rows[i] == pre[i]);
                    } else {
                        assert(self@.rows[i] == row@);
                        assert(pre[k as int] == old(self)@.rows[k as int]);
                    }
                }
                assert forall|i: int| 0 <= i <= k as int implies (
                #[trigger] self@.rows[i].highlights == scan_line_spec(
                    cfg,
                    old(self)@.rows[i].content,
                )) by {
                    if i < k as int {
                        assert(self@.rows[i] == pre[i]);
                    } else {
                        assert(self@.rows[i] == row@);
                        assert(pre[k as int] == old(self)@.rows[k as int]);
                    }
                }
                assert forall|i: int|
                    k as int + 1 <= i < self.rows@.len() implies (#[trigger] self@.rows[i] == old(
                    self,
                )@.rows[i]) by {
                    assert(self@.rows[i] == pre[i]);
                }
            }
            k = k + 1;
        }
    }

    /// Searches the document for `query` from `at`, forward toward the last
    /// line or backward toward line 0, wrapping line to line but never past
    /// either end; the first absolute position found, or nothing. An empty
    /// query never matches.
    pub fn find(&self, query: &str, at: &Position, direction: SearchDirection) -> (r: Option<
        Position,
    >)
        ensures
            match r {
                Some(p) => doc_find_spec(
                    line_contents(self@.rows),
                    graphemes_of(query@),
                    *at,
                    direction,
                ) == Some(p),
                None => doc_find_spec(
                    line_contents(self@.rows),
                    graphemes_of(query@),
                    *at,
                    direction,
                ) is None,
            },
            query@.len() == 0 ==> r is None,
    {
        let ghost lines = line_contents(self@.rows);
        if at.y >= self.rows.len() {
            return None;
        }
        let q = split_graphemes(query);
        let ghost qv = q.deep_view();
        if q.is_empty() {
            proof {
                assert(qv.len() == 0);
            }
            return None;
        }
        proof {
            if query@.len() == 0 && qv.len() > 0 {
                assert(qv.flatten() == qv.first() + qv.drop_first().flatten());
            }
        }
        match direction {
            SearchDirection::Forward => self.find_forward(&q, at),
            SearchDirection::Backward => self.find_backward(&q, at),
        }
    }

    #[verifier::loop_isolation(false)]
    fn find_forward(&self, q: &Vec<String>, at: &Position) -> (r: Option<Position>)
        requires
            at.y < self@.rows.len(),
            q.deep_view().len() > 0,
        ensures
            match r {
                Some(p) => doc_find_forward(
                    line_contents(self@.rows),
                    q.deep_view(),
                    at.x as int,
                    at.y as int,
                ) == Some(p),
                None => doc_find_forward(
                    line_contents(self@.rows),
                    q.deep_view(),
                    at.x as int,
                    at.y as int,
                ) is None,
            },
    {
        let ghost lines = line_contents(self@.rows);
        let ghost qv = q.deep_view();
        let mut y = at.y;
        let mut x = at.x;
        while y < self.rows.len()
            invariant
                at.y <= y <= self.rows@.len(),
                doc_find_forward(lines, qv, at.x as int, at.y as int) == doc_find_forward(
                    lines,
                    qv,
                    x as int,
                    y as int,
                ),
            decreases self.rows@.len() - y,
        {
            proof {
                assert(lines[y as int] == self@.rows[y as int].content);
            }
            let rf = self.rows[y].find_clusters(q, x, SearchDirection::Forward);
            if let Some(jx) = rf {
                return Some(Position { x: jx, y });
            }
            y = y + 1;
            x = 0;
        }
        None
    }

    #[verifier::loop_isolation(false)]
    fn find_backward(&self, q: &Vec<String>, at: &Position) -> (r: Option<Position>)
        requires
            at.y < self@.rows.len(),
            q.deep_view().len() > 0,
        ensures
            match r {
                Some(p) => doc_find_backward(
                    line_contents(self@.rows),
                    q.deep_view(),
                    at.x as int,
                    at.y as int,
                ) == Some(p),
                None => doc_find_backward(
                    line_contents(self@.rows),
                    q.deep_view(),
                    at.x as int,
                    at.y as int,
                ) is None,
            },
    {
        let ghost lines = line_contents(self@.rows);
        let ghost qv = q.deep_view();
        let mut y = at.y;
        let mut x = at.x;
        loop
            invariant
                y < self.rows@.len(),
                doc_find_backward(lines, qv, at.x as int, at.y as int) == doc_find_backward(
                    lines,
                    qv,
                    x as int,
                    y as int,
                ),
            decreases y,
        {
            proof {
                assert(lines[y as int] == self@.rows[y as int].content);
            }
            let rf = self.rows[y].find_clusters(q, x, SearchDirection::Backward);
            if let Some(jx) = rf {
                return Some(Position { x: jx, y });
            }
            if y == 0 {
                return None;
            }
            y = y - 1;
            x = self.rows[y].len();
            proof {
                assert(lines[y as int].len() == x as int);
            }
        }
    }

    /// A document built from its lines of text: one row per line, each
    /// highlighted with the profile chosen from the file name; the buffer
    /// starts clean.
    #[verifier::loop_isolation(false)]
    pub fn from_lines(filename: Option<String>, lines: &Vec<String>) -> (r: Document)
        ensures
            r@.dirty == false,
            r@.rows.len() == lines@.len(),
            forall|i: int|
                0 <= i < lines@.len() ==> (#[trigger] r@.rows[i].content == graphemes_of(
                    lines@[i]@,
                )),
            forall|i: int|
                0 <= i < lines@.len() ==> (#[trigger] r@.rows[i].highlights == scan_line_spec(
                    config_of(r.file_type.hl_opts, Seq::<Seq<char>>::empty()),
                    r@.rows[i].content,
                )),
            r.filename == filename,
            match filename {
                Some(n) => profile_for_name(n@, r.file_type),
                None => is_noop_profile(r.file_type),
            },
    {
        let file_type = match &filename {
            Some(n) => FileType::from_file_name(n.as_str()),
            None => FileType::default(),
        };
        let mut rows: Vec<Row> = Vec::new();
        let mut k: usize = 0;
        while k < lines.len()
            invariant
                k <= lines@.len(),
                rows@.len() == k,
                forall|i: int|
                    0 <= i < k ==> (#[trigger] rows@[i]@.content == graphemes_of(lines@[i]@)),
                forall|i: int|
                    0 <= i < k ==> (#[trigger] rows@[i]@.highlights == scan_line_spec(
                        config_of(file_type.hl_opts, Seq::<Seq<char>>::empty()),
                        rows@[i]@.content,
                    )),
            decreases lines@.len() - k,
        {
            let mut row = Row::from_text(lines[k].as_str());
            row.highlight(&file_type.hl_opts, None);
            rows.push(row);
            k = k + 1;
        }
        Document { filename, file_type, rows, dirty: false }
    }

    /// The document's full text, as written on save: each line's content
    /// followed by one newline, the final line included.
    #[verifier::loop_isolation(false)]
    pub fn contents(&self) -> (r: String)
        ensures
            r@ == doc_contents_spec(self@.rows),
    {
        let mut r = String::new();
        let mut k: usize = 0;
        while k < self.rows.len()
            invariant
                k <= self.rows@.len(),
                r@ == doc_contents_spec(self@.rows.take(k as int)),
            decreases self.rows@.len() - k,
        {
            let t = self.rows[k].text();
            r.append(t.as_str());
            r.append("\n");
            proof {
                reveal_strlit("\n");
                assert("\n"@ =~= seq!['\n']);
                lemma_doc_contents_take_step(self@.rows, k as int);
                assert(r@ =~= doc_contents_spec(self@.rows.take(k + 1)));
            }
            k = k + 1;
        }
        proof {
            assert(self@.rows.take(self.rows@.len() as int) =~= self@.rows);
        }
        r
    }
}

proof fn lemma_doc_contents_take_step(rows: Seq<RowView>, k: int)
    requires
        0 <= k < rows.len(),
    ensures
        doc_contents_spec(rows.take(k + 1)) == doc_contents_spec(rows.take(k)) + (
        rows[k].content.flatten() + seq!['\n']),
    decreases k,
{
    let pre = rows.take(k + 1);
    if k == 0 {
        assert(pre.drop_first() =~= rows.take(0));
        assert(doc_contents_spec(rows.take(0)) == Seq::<char>::empty());
        assert(pre.first() == rows[0]);
        assert(pre.first().content.flatten() + seq!['\n'] + Seq::<char>::empty() =~= Seq::<
            char,
        >::empty() + (rows[0].content.flatten() + seq!['\n']));
    } else {
        lemma_doc_contents_take_step(rows.drop_first(), k - 1);
        assert(pre.drop_first() =~= rows.drop_first().take(k));
        assert(rows.take(k).drop_first() =~= rows.drop_first().take(k - 1));
        assert(rows.drop_first()[k - 1] == rows[k]);
        let a = rows.take(k).first().content.flatten() + seq!['\n'];
        let b = doc_contents_spec(rows.drop_first().take(k - 1));
        let c = rows[k].content.flatten() + seq!['\n'];
        assert(pre.first() == rows.take(k).first());
        assert(a + (b + c) =~= (a + b) + c);
    }
}


/// Searching for the empty string finds nothing: for any content, any start
/// and either direction, a query with no clusters yields no match, in one row
/// and in a whole document.
pub proof fn lemma_empty_query_finds_nothing(
    content: Seq<Seq<char>>,
    lines: Seq<Seq<Seq<char>>>,
    at: int,
    pos: Position,
    direction: SearchDirection,
)
    ensures
        row_find_spec(content, Seq::<Seq<char>>::empty(), at, direction) is None,
        doc_find_spec(lines, Seq::<Seq<char>>::empty(), pos, direction) is None,
{
}


/// Inserting a newline at the end of the last line appends one empty line:
/// a document of N lines has N + 1 afterwards, every existing line keeps its
/// content, and the new last line is empty.
pub proof fn lemma_newline_at_end_appends_empty_line(
    rows: Seq<RowView>,
    at: Position,
    opts: HighlightingOptions,
)
    requires
        rows.len() > 0,
        at.y == rows.len() - 1,
        at.x == rows[at.y as int].content.len(),
    ensures
        insert_newline_rows_spec(rows, at, opts).len() == rows.len() + 1,
        insert_newline_rows_spec(rows, at, opts).last().content == Seq::<Seq<char>>::empty(),
        forall|i: int|
            0 <= i < rows.len() ==> insert_newline_rows_spec(rows, at, opts)[i].content
                == rows[i].content,
{
    let out = insert_newline_rows_spec(rows, at, opts);
    let y = at.y as int;
    let content = rows[y].content;
    assert(split_head(content, at.x as int) == content);
    assert(split_tail(content, at.x as int) == Seq::<Seq<char>>::empty());
    assert(out.last().content =~= Seq::<Seq<char>>::empty());
    assert forall|i: int| 0 <= i < rows.len() implies out[i].content == rows[i].content by {
        assert(out[i] == rows.update(y, rehighlighted(content, opts))[i]);
    }
}

} // verus!
