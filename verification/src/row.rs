use crate::ansi::fg_escape_of;
use crate::ansi::reset_escape;
use crate::filetype::HighlightingOptions;
use crate::highlighter::config_of;
use crate::highlighter::is_match_at;
use crate::highlighter::scan_line_spec;
use crate::highlighting::Type;
use crate::text::char_to_string;
use crate::text::cluster_is;
use crate::text::graphemes_of;
use crate::text::split_graphemes;
use vstd::prelude::*;

verus! {

/// The mathematical value of a `Row`: its grapheme clusters and its
/// classification overlay.
pub struct RowView {
    pub content: Seq<Seq<char>>,
    pub highlights: Seq<Type>,
}

/// One line of text. `content` holds the line's grapheme clusters, one
/// cluster per element; `highlights` is the parallel classification overlay.
/// The overlay may be stale after a structural edit until `highlight` runs
/// again; structural edits leave it untouched.
pub struct Row {
    pub content: Vec<String>,
    pub highlights: Vec<Type>,
}

impl View for Row {
    type V = RowView;

    open spec fn view(&self) -> RowView {
        RowView { content: self.content.deep_view(), highlights: self.highlights@ }
    }
}

/// The clusters after inserting the character `c` as a new cluster at index
/// `at`; an index at or beyond the end appends.
pub open spec fn insert_cluster(content: Seq<Seq<char>>, at: int, c: char) -> Seq<Seq<char>> {
    if at >= content.len() {
        content.push(seq![c])
    } else {
        content.insert(at, seq![c])
    }
}

/// The clusters after deleting the cluster at index `at`; an index at or
/// beyond the end changes nothing.
pub open spec fn delete_cluster(content: Seq<Seq<char>>, at: int) -> Seq<Seq<char>> {
    if at < content.len() {
        content.remove(at)
    } else {
        content
    }
}

/// The clusters a row keeps when split at index `at`: those before `at`.
pub open spec fn split_head(content: Seq<Seq<char>>, at: int) -> Seq<Seq<char>> {
    if at < content.len() {
        content.subrange(0, at)
    } else {
        content
    }
}

/// The clusters split off a row at index `at`: those from `at` on.
pub open spec fn split_tail(content: Seq<Seq<char>>, at: int) -> Seq<Seq<char>> {
    if at < content.len() {
        content.subrange(at, content.len() as int)
    } else {
        Seq::empty()
    }
}

/// The display width of one cluster: a lone tab shows as two spaces, any
/// other cluster as one column.
pub open spec fn cluster_width(cl: Seq<char>) -> nat {
    if cluster_is(cl, '\t') {
        2
    } else {
        1
    }
}

/// The display length of a line: one column per cluster, two per tab.
pub open spec fn display_width(content: Seq<Seq<char>>) -> nat
    decreases content.len(),
{
    if content.len() == 0 {
        0
    } else {
        cluster_width(content.first()) + display_width(content.drop_first())
    }
}

impl Row {
    /// A row holding the grapheme clusters of `s`, with an empty (stale)
    /// overlay.
    pub fn from_text(s: &str) -> (r: Row)
        ensures
            r@.content == graphemes_of(s@),
            r@.content.flatten() == s@,
            forall|i: int| 0 <= i < r@.content.len() ==> r@.content[i].len() > 0,
            r@.highlights == Seq::<Type>::empty(),
    {
        let content = split_graphemes(s);
        Row { content, highlights: Vec::new() }
    }

    /// The number of grapheme clusters in the row.
    pub fn len(&self) -> (r: usize)
        ensures
            r == self@.content.len(),
    {
        self.content.len()
    }

    pub fn is_empty(&self) -> (r: bool)
        ensures
            r == (self@.content.len() == 0),
    {
        self.content.len() == 0
    }

    /// The display length of the row, tabs counted as two columns.
    pub fn display_length(&self) -> (r: usize)
        requires
            display_width(self@.content) <= usize::MAX,
        ensures
            r == display_width(self@.content),
    {
        let mut total: usize = 0;
        let mut k: usize = 0;
        while k < self.content.len()
            invariant
                k <= self.content.len(),
                total == display_width(self@.content.take(k as int)),
                display_width(self@.content) <= usize::MAX,
            decreases self.content.len() - k,
        {
            proof {
                lemma_display_width_take_step(self@.content, k as int);
                lemma_display_width_take_bound(self@.content, k + 1);
            }
            let w: usize = if crate::text::cluster_is_char(&self.content[k], '\t') {
                2
            } else {
                1
            };
            total = total + w;
            k = k + 1;
        }
        proof {
            assert(self@.content.take(self.content.len() as int) =~= self@.content);
        }
        total
    }

    /// Inserts `c` as a new cluster before index `at`; an index at or beyond
    /// the end appends. The overlay is left stale.
    pub fn insert(&mut self, at: usize, c: char)
        ensures
            final(self)@.content == insert_cluster(old(self)@.content, at as int, c),
            final(self)@.highlights == old(self)@.highlights,
    {
        let cl = char_to_string(c);
        if at >= self.content.len() {
            self.content.push(cl);
        } else {
            self.content.insert(at, cl);
        }
        proof {
            assert(self@.content =~= insert_cluster(old(self)@.content, at as int, c));
        }
    }

    /// Deletes the cluster at index `at`; a no-op at or beyond the end. The
    /// overlay is left stale.
    pub fn delete(&mut self, at: usize)
        ensures
            final(self)@.content == delete_cluster(old(self)@.content, at as int),
            final(self)@.highlights == old(self)@.highlights,
    {
        if at >= self.content.len() {
            return ;
        }
        self.content.remove(at);
        proof {
            assert(self@.content =~= delete_cluster(old(self)@.content, at as int));
        }
    }

    /// Concatenates `other`'s clusters onto the end of this row. The overlay
    /// is left stale.
    pub fn append(&mut self, other: &Row)
        ensures
            final(self)@.content == old(self)@.content + other@.content,
            final(self)@.highlights == old(self)@.highlights,
    {
        let ghost orig = self.content@;
        let mut k: usize = 0;
        while k < other.content.len()
            invariant
                k <= other.content.len(),
                self.content@ =~= orig + other.content@.take(k as int),
                self@.highlights == old(self)@.highlights,
            decreases other.content.len() - k,
        {
            self.content.push(other.content[k].clone());
            k = k + 1;
            proof {
                assert(self.content@ =~= orig + other.content@.take(k as int));
            }
        }
        proof {
            assert(other.content@.take(other.content.len() as int) =~= other.content@);
            assert(self@.content =~= old(self)@.content + other@.content);
        }
    }

    /// Truncates this row to the clusters before `at` and returns a new row
    /// holding the rest; splitting at or beyond the end returns an empty row.
    /// Both overlays end stale: this row keeps its old overlay, the new row's
    /// is empty.
    pub fn split(&mut self, at: usize) -> (r: Row)
        ensures
            final(self)@.content == split_head(old(self)@.content, at as int),
            final(self)@.highlights == old(self)@.highlights,
            r@.content == split_tail(old(self)@.content, at as int),
            r@.highlights == Seq::<Type>::empty(),
    {
        let k = if at >= self.content.len() {
            self.content.len()
        } else {
            at
        };
        let tail = self.content.split_off(k);
        proof {
            assert(self@.content =~= split_head(old(self)@.content, at as int));
            assert(tail.deep_view() =~= split_tail(old(self)@.content, at as int));
        }
        Row { content: tail, highlights: Vec::new() }
    }

    /// The row's text: its clusters joined back into one string.
    pub fn text(&self) -> (r: String)
        ensures
            r@ == self@.content.flatten(),
    {
        broadcast use vstd::seq_lib::group_seq_lib_default;

        let mut r = String::new();
        let mut k: usize = 0;
        while k < self.content.len()
            invariant
                k <= self.content.len(),
                r@ == self@.content.take(k as int).flatten(),
            decreases self.content.len() - k,
        {
            r.append(self.content[k].as_str());
            k = k + 1;
            proof {
                Seq::lemma_flatten_push(
                    self@.content.take(k - 1),
                    self@.content[k - 1],
                );
                assert(self@.content.take(k - 1).push(self@.content[k - 1]) =~= self@.content.take(
                    k as int,
                ));
            }
        }
        proof {
            assert(self@.content.take(self.content.len() as int) =~= self@.content);
        }
        r
    }

    /// The UTF-8 bytes of the row's text.
    pub fn as_bytes(&self) -> (r: Vec<u8>)
        ensures
            r@ == vstd::utf8::encode_utf8(self@.content.flatten()),
    {
        let s = self.text();
        s.as_str().as_bytes_vec()
    }
}

impl Default for Row {
    /// An empty row.
    fn default() -> (r: Self)
        ensures
            r@.content == Seq::<Seq<char>>::empty(),
            r@.highlights == Seq::<Type>::empty(),
    {
        let r = Row { content: Vec::new(), highlights: Vec::new() };
        proof {
            assert(r@.content =~= Seq::<Seq<char>>::empty());
        }
        r
    }
}

proof fn lemma_display_width_take_step(content: Seq<Seq<char>>, k: int)
    requires
        0 <= k < content.len(),
    ensures
        display_width(content.take(k + 1)) == display_width(content.take(k)) + cluster_width(
            content[k],
        ),
    decreases k,
{
    let pre = content.take(k + 1);
    if k == 0 {
        assert(pre.drop_first() =~= content.take(0));
        assert(display_width(content.take(0)) == 0);
    } else {
        assert(pre.drop_first() =~= content.drop_first().take(k));
        assert(content.take(k).drop_first() =~= content.drop_first().take(k - 1));
        lemma_display_width_take_step(content.drop_first(), k - 1);
    }
}

/// The display width of a prefix never exceeds that of the whole line.
pub proof fn lemma_display_width_take_bound(content: Seq<Seq<char>>, k: int)
    requires
        0 <= k <= content.len(),
    ensures
        display_width(content.take(k)) <= display_width(content),
    decreases content.len() - k,
{
    if k < content.len() {
        lemma_display_width_take_step(content, k);
        lemma_display_width_take_bound(content, k + 1);
    } else {
        assert(content.take(k) =~= content);
    }
}

/// Inserting a cluster and deleting at the same index restores the content,
/// for any index up to the length.
pub proof fn lemma_insert_then_delete(content: Seq<Seq<char>>, at: int, c: char)
    requires
        0 <= at <= content.len(),
    ensures
        delete_cluster(insert_cluster(content, at, c), at) == content,
{
    assert(delete_cluster(insert_cluster(content, at, c), at) =~= content);
}

/// Splitting at any index and appending the returned remainder reconstructs
/// the original content, and with it the original length.
pub proof fn lemma_split_then_append(content: Seq<Seq<char>>, at: int)
    requires
        0 <= at,
    ensures
        split_head(content, at) + split_tail(content, at) == content,
        (split_head(content, at) + split_tail(content, at)).len() == content.len(),
{
    assert(split_head(content, at) + split_tail(content, at) =~= content);
}


/// The direction of a search.
#[derive(Clone, Copy, Debug, PartialEq, Eq, Structural)]
pub enum SearchDirection {
    Forward,
    Backward,
}

/// The first occurrence of the query at or after `from` that lies entirely
/// within the content.
pub open spec fn first_match_from(content: Seq<Seq<char>>, q: Seq<Seq<char>>, from: int) -> Option<
    int,
>
    decreases content.len() - from,
    when 0 <= from
{
    if q.len() == 0 || from + q.len() > content.len() {
        None
    } else if is_match_at(content, q, from) {
        Some(from)
    } else {
        first_match_from(content, q, from + 1)
    }
}

/// The last occurrence of the query that ends at or before index `end`.
pub open spec fn last_match_before(content: Seq<Seq<char>>, q: Seq<Seq<char>>, end: int) -> Option<
    int,
>
    decreases end,
{
    if q.len() == 0 || end < q.len() {
        None
    } else if is_match_at(content, q, end - q.len()) {
        Some(end - q.len())
    } else {
        last_match_before(content, q, end - 1)
    }
}

/// What a row search returns: nothing for an empty query or a start beyond
/// the row; otherwise the first occurrence at or after `at` (forward), or the
/// last occurrence ending at or before `at` (backward).
pub open spec fn row_find_spec(
    content: Seq<Seq<char>>,
    q: Seq<Seq<char>>,
    at: int,
    direction: SearchDirection,
) -> Option<int> {
    if at > content.len() || q.len() == 0 {
        None
    } else {
        match direction {
            SearchDirection::Forward => first_match_from(content, q, at),
            SearchDirection::Backward => last_match_before(content, q, at),
        }
    }
}

impl Row {
    /// Searches this row for the cluster sequence `query`: forward from `at`,
    /// or backward through the clusters before `at`.
    #[verifier::loop_isolation(false)]
    pub fn find_clusters(&self, query: &Vec<String>, at: usize, direction: SearchDirection) -> (r:
        Option<usize>)
        ensures
            match r {
                Some(x) => row_find_spec(self@.content, query.deep_view(), at as int, direction)
                    == Some(x as int),
                None => row_find_spec(self@.content, query.deep_view(), at as int, direction)
                    is None,
            },
    {
        let ghost cv = self@.content;
        let ghost qv = query.deep_view();
        let n = self.content.len();
        let m = query.len();
        if at > n || m == 0 {
            return None;
        }
        match direction {
            SearchDirection::Forward => {
                let mut j = at;
                while j <= n && m <= n - j
                    invariant
                        at <= j <= n,
                        first_match_from(cv, qv, at as int) == first_match_from(cv, qv, j as int),
                    decreases n - j,
                {
                    if crate::highlighter::is_match_at_exec(&self.content, query, j) {
                        return Some(j);
                    }
                    j = j + 1;
                }
                proof {
                    assert(first_match_from(cv, qv, j as int) is None);
                }
                None
            },
            SearchDirection::Backward => {
                let mut e = at;
                while e >= m
                    invariant
                        e <= at,
                        last_match_before(cv, qv, at as int) == last_match_before(cv, qv, e as int),
                    decreases e,
                {
                    let j = e - m;
                    if crate::highlighter::is_match_at_exec(&self.content, query, j) {
                        return Some(j);
                    }
                    e = e - 1;
                }
                proof {
                    assert(last_match_before(cv, qv, e as int) is None);
                }
                None
            },
        }
    }

    /// Grapheme-accurate search for `query` within this row only. The query
    /// is matched cluster by cluster, so a match always starts and ends on a
    /// cluster boundary. An empty query never matches.
    pub fn find(&self, query: &str, at: usize, direction: SearchDirection) -> (r: Option<usize>)
        ensures
            match r {
                Some(x) => row_find_spec(
                    self@.content,
                    graphemes_of(query@),
                    at as int,
                    direction,
                ) == Some(x as int),
                None => row_find_spec(self@.content, graphemes_of(query@), at as int, direction)
                    is None,
            },
            query@.len() == 0 ==> r is None,
    {
        let q = split_graphemes(query);
        proof {
            if query@.len() == 0 && q.deep_view().len() > 0 {
                assert(q.deep_view().flatten() == q.deep_view().first() + q.deep_view()
                    .drop_first().flatten());
            }
        }
        self.find_clusters(&q, at, direction)
    }

    /// Recomputes the classification overlay from the row's content, the
    /// profile options and an optional active search term. The content is
    /// untouched, and the fresh overlay classifies every cluster.
    pub fn highlight(&mut self, opts: &HighlightingOptions, word: Option<&str>)
        ensures
            final(self)@.content == old(self)@.content,
            final(self)@.highlights == scan_line_spec(
                config_of(*opts, highlight_query_of(word)),
                old(self)@.content,
            ),
            final(self)@.highlights.len() == old(self)@.content.len(),
    {
        let q: Vec<String> = match word {
            Some(w) => split_graphemes(w),
            None => Vec::new(),
        };
        proof {
            if word is None {
                assert(q.deep_view() =~= Seq::<Seq<char>>::empty());
            }
        }
        let hl = crate::highlighter::scan_line(&self.content, opts, &q);
        self.highlights = hl;
    }
}

/// The cluster sequence of an optional search term: the term's grapheme
/// clusters, or no clusters at all.
pub open spec fn highlight_query_of(word: Option<&str>) -> Seq<Seq<char>> {
    match word {
        Some(w) => graphemes_of(w@),
        None => Seq::<Seq<char>>::empty(),
    }
}


/// One piece of render output: a color marker for a classification, or the
/// displayed text of one cluster.
pub enum RenderItem {
    Marker(Type),
    Text(Seq<char>),
}

/// The color marker emitted for a classification: the ANSI foreground escape
/// for its color.
pub open spec fn marker_chars(t: Type) -> Seq<char> {
    fg_escape_of(t.spec_rgb().0, t.spec_rgb().1, t.spec_rgb().2)
}

pub open spec fn item_chars(it: RenderItem) -> Seq<char> {
    match it {
        RenderItem::Marker(t) => marker_chars(t),
        RenderItem::Text(s) => s,
    }
}

/// An item's visible part: markers show nothing, text shows itself.
pub open spec fn item_visible(it: RenderItem) -> Seq<char> {
    match it {
        RenderItem::Marker(t) => Seq::empty(),
        RenderItem::Text(s) => s,
    }
}

pub open spec fn items_chars(items: Seq<RenderItem>) -> Seq<char>
    decreases items.len(),
{
    if items.len() == 0 {
        Seq::empty()
    } else {
        item_chars(items.first()) + items_chars(items.drop_first())
    }
}

pub open spec fn items_visible(items: Seq<RenderItem>) -> Seq<char>
    decreases items.len(),
{
    if items.len() == 0 {
        Seq::empty()
    } else {
        item_visible(items.first()) + items_visible(items.drop_first())
    }
}

/// The displayed text of one cluster: a lone tab becomes two spaces, any
/// other cluster shows its own characters.
pub open spec fn expand_cluster(cl: Seq<char>) -> Seq<char> {
    if cluster_is(cl, '\t') {
        seq![' ', ' ']
    } else {
        cl
    }
}

/// The classification used for cluster `i` when rendering: the overlay's
/// entry, or the default where the overlay is stale or short.
pub open spec fn hl_at(highlights: Seq<Type>, i: int) -> Type {
    if 0 <= i < highlights.len() {
        highlights[i]
    } else {
        Type::Normal
    }
}

/// The render items for clusters `[i, end)`: a marker wherever the
/// classification changes from the current one, then each cluster's
/// displayed text.
pub open spec fn render_items(
    content: Seq<Seq<char>>,
    highlights: Seq<Type>,
    i: int,
    end: int,
    cur: Type,
) -> Seq<RenderItem>
    decreases end - i,
{
    if i >= end {
        Seq::empty()
    } else {
        let t = hl_at(highlights, i);
        let tail = render_items(content, highlights, i + 1, end, t);
        if t != cur {
            seq![RenderItem::Marker(t), RenderItem::Text(expand_cluster(content[i]))] + tail
        } else {
            seq![RenderItem::Text(expand_cluster(content[i]))] + tail
        }
    }
}

/// The clamped window rendered for a request `[start, end)`: `end` clamped to
/// the cluster count, and `start` clamped to the clamped end.
pub open spec fn render_clamp(content: Seq<Seq<char>>, start: int, end: int) -> (int, int) {
    let e = if end <= content.len() {
        end
    } else {
        content.len() as int
    };
    let s = if start <= e {
        start
    } else {
        e
    };
    (s, e)
}

/// Everything `render` produces for the window `[start, end)`: the default
/// color marker, the items of the clamped range scanned with the default as
/// the current color, and the reset marker.
pub open spec fn render_spec(
    content: Seq<Seq<char>>,
    highlights: Seq<Type>,
    start: int,
    end: int,
) -> Seq<char> {
    let se = render_clamp(content, start, end);
    marker_chars(Type::Normal) + items_chars(
        render_items(content, highlights, se.0, se.1, Type::Normal),
    ) + reset_escape()
}

proof fn lemma_items_chars_cons(it: RenderItem, rest: Seq<RenderItem>)
    ensures
        items_chars(seq![it] + rest) == item_chars(it) + items_chars(rest),
{
    assert((seq![it] + rest).first() == it);
    assert((seq![it] + rest).drop_first() =~= rest);
}

proof fn lemma_items_visible_cons(it: RenderItem, rest: Seq<RenderItem>)
    ensures
        items_visible(seq![it] + rest) == item_visible(it) + items_visible(rest),
{
    assert((seq![it] + rest).first() == it);
    assert((seq![it] + rest).drop_first() =~= rest);
}

impl Row {
    /// The displayable text for the half-open cluster window `[start, end)`,
    /// clamped to the row's bounds: every cluster's displayed text, a color
    /// marker wherever the classification changes (starting from the default
    /// color, whose marker opens the output), and a reset marker at the end.
    /// Rendering reads only; it never fails, whatever the window.
    #[verifier::loop_isolation(false)]
    #[verifier::rlimit(60)]
    pub fn render(&self, start: usize, end: usize) -> (r: String)
        ensures
            r@ == render_spec(self@.content, self@.highlights, start as int, end as int),
    {
        let ghost cv = self@.content;
        let ghost hv = self@.highlights;
        let n = self.content.len();
        let e = if end <= n {
            end
        } else {
            n
        };
        let s = if start <= e {
            start
        } else {
            e
        };
        let mut r: String = String::new();
        let (r0, g0, b0) = Type::Normal.rgb();
        let m0 = crate::ansi::rgb_fg_string(r0, g0, b0);
        r.append(m0.as_str());
        let mut cur = Type::Normal;
        let mut i = s;
        proof {
            assert(r@ =~= marker_chars(Type::Normal));
            assert(r@ + items_chars(render_items(cv, hv, i as int, e as int, cur)) =~= marker_chars(
                Type::Normal,
            ) + items_chars(render_items(cv, hv, s as int, e as int, Type::Normal)));
        }
        while i < e
            invariant
                s <= i <= e,
                r@ + items_chars(render_items(cv, hv, i as int, e as int, cur)) == marker_chars(
                    Type::Normal,
                ) + items_chars(render_items(cv, hv, s as int, e as int, Type::Normal)),
            decreases e - i,
        {
            let ghost old_i = i as int;
            let ghost old_cur = cur;
            let ghost old_r = r@;
            let t = if i < self.highlights.len() {
                self.highlights[i]
            } else {
                Type::Normal
            };
            if !(t == cur) {
                let (cr, cg, cb) = t.rgb();
                let mk = crate::ansi::rgb_fg_string(cr, cg, cb);
                r.append(mk.as_str());
                cur = t;
            }
            let is_tab = crate::text::cluster_is_char(&self.content[i], '\t');
            if is_tab {
                r.append("  ");
                proof {
                    reveal_strlit("  ");
                    assert("  "@ =~= seq![' ', ' ']);
                }
            } else {
                r.append(self.content[i].as_str());
            }
            i = i + 1;
            proof {
                let tail = render_items(cv, hv, i as int, e as int, t);
                let tx = RenderItem::Text(expand_cluster(cv[old_i]));
                assert(t == hl_at(hv, old_i));
                if t != old_cur {
                    assert(render_items(cv, hv, old_i, e as int, old_cur) == seq![
                        RenderItem::Marker(t),
                        tx,
                    ] + tail);
                    assert(seq![RenderItem::Marker(t), tx] + tail =~= seq![RenderItem::Marker(t)]
                        + (seq![tx] + tail));
                    lemma_items_chars_cons(RenderItem::Marker(t), seq![tx] + tail);
                    lemma_items_chars_cons(tx, tail);
                    assert(r@ =~= old_r + marker_chars(t) + expand_cluster(cv[old_i]));
                    assert(r@ + items_chars(tail) =~= old_r + items_chars(
                        render_items(cv, hv, old_i, e as int, old_cur),
                    ));
                } else {
                    assert(render_items(cv, hv, old_i, e as int, old_cur) == seq![tx] + tail);
                    lemma_items_chars_cons(tx, tail);
                    assert(r@ =~= old_r + expand_cluster(cv[old_i]));
                    assert(r@ + items_chars(tail) =~= old_r + items_chars(
                        render_items(cv, hv, old_i, e as int, old_cur),
                    ));
                }
            }
        }
        let reset = crate::ansi::reset_fg_str();
        r.append(reset);
        proof {
            assert(items_chars(render_items(cv, hv, i as int, e as int, cur))
                =~= Seq::<char>::empty());
            assert(r@ =~= marker_chars(Type::Normal) + items_chars(
                render_items(cv, hv, s as int, e as int, Type::Normal),
            ) + reset_escape());
        }
        r
    }
}

/// The displayed text of the clusters `[i, end)`, each expanded.
pub open spec fn expanded_range(content: Seq<Seq<char>>, i: int, end: int) -> Seq<char>
    decreases end - i,
{
    if i >= end {
        Seq::empty()
    } else {
        expand_cluster(content[i]) + expanded_range(content, i + 1, end)
    }
}

proof fn lemma_expanded_range_split(content: Seq<Seq<char>>, i: int, mid: int, end: int)
    requires
        i <= mid <= end,
    ensures
        expanded_range(content, i, end) == expanded_range(content, i, mid) + expanded_range(
            content,
            mid,
            end,
        ),
    decreases mid - i,
{
    if i < mid {
        lemma_expanded_range_split(content, i + 1, mid, end);
        assert(expand_cluster(content[i]) + (expanded_range(content, i + 1, mid) + expanded_range(
            content,
            mid,
            end,
        )) =~= (expand_cluster(content[i]) + expanded_range(content, i + 1, mid)) + expanded_range(
            content,
            mid,
            end,
        ));
    } else {
        assert(expanded_range(content, i, mid) =~= Seq::<char>::empty());
        assert(expanded_range(content, i, end) =~= Seq::<char>::empty() + expanded_range(
            content,
            mid,
            end,
        ));
    }
}

/// What a render window shows, markers aside, is exactly the displayed text
/// of its clamped cluster range.
pub proof fn lemma_render_items_visible(
    content: Seq<Seq<char>>,
    highlights: Seq<Type>,
    i: int,
    end: int,
    cur: Type,
)
    ensures
        items_visible(render_items(content, highlights, i, end, cur)) == expanded_range(
            content,
            i,
            end,
        ),
    decreases end - i,
{
    if i < end {
        let t = hl_at(highlights, i);
        let tail = render_items(content, highlights, i + 1, end, t);
        let tx = RenderItem::Text(expand_cluster(content[i]));
        lemma_render_items_visible(content, highlights, i + 1, end, t);
        if t != cur {
            assert(seq![RenderItem::Marker(t), tx] + tail =~= seq![RenderItem::Marker(t)] + (
            seq![tx] + tail));
            lemma_items_visible_cons(RenderItem::Marker(t), seq![tx] + tail);
            lemma_items_visible_cons(tx, tail);
            assert(items_visible(render_items(content, highlights, i, end, cur)) =~= expand_cluster(
                content[i],
            ) + expanded_range(content, i + 1, end));
        } else {
            lemma_items_visible_cons(tx, tail);
        }
    }
}

/// Rendering never shows more than the whole line: for any requested window,
/// the visible characters are the displayed text of the clamped range, and
/// never outnumber the displayed text of the full line. With every cluster a
/// single character, that full displayed text is exactly `display_width`
/// characters, so no window shows more than the line's display length.
pub proof fn lemma_render_visible_bound(
    content: Seq<Seq<char>>,
    highlights: Seq<Type>,
    start: int,
    end: int,
)
    requires
        0 <= start,
        0 <= end,
    ensures
        ({
            let se = render_clamp(content, start, end);
            items_visible(render_items(content, highlights, se.0, se.1, Type::Normal))
                == expanded_range(content, se.0, se.1)
        }),
        ({
            let se = render_clamp(content, start, end);
            expanded_range(content, se.0, se.1).len() <= expanded_range(
                content,
                0,
                content.len() as int,
            ).len()
        }),
{
    let se = render_clamp(content, start, end);
    lemma_render_items_visible(content, highlights, se.0, se.1, Type::Normal);
    lemma_expanded_range_split(content, 0, se.0, content.len() as int);
    lemma_expanded_range_split(content, se.0, se.1, content.len() as int);
}

/// On a line of single-character clusters the displayed text of the whole
/// line has exactly `display_width` characters.
pub proof fn lemma_expanded_len_is_display_width(content: Seq<Seq<char>>)
    requires
        forall|i: int| 0 <= i < content.len() ==> #[trigger] content[i].len() == 1,
    ensures
        expanded_range(content, 0, content.len() as int).len() == display_width(content),
    decreases content.len(),
{
    if content.len() > 0 {
        lemma_expanded_len_is_display_width(content.drop_first());
        assert(expanded_range(content.drop_first(), 0, content.drop_first().len() as int)
            =~= expanded_range(content, 1, content.len() as int)) by {
            lemma_expanded_range_shift(content, 1, content.len() as int);
        }
    }
}

proof fn lemma_expanded_range_shift(content: Seq<Seq<char>>, i: int, end: int)
    requires
        1 <= i <= end <= content.len(),
    ensures
        expanded_range(content, i, end) == expanded_range(content.drop_first(), i - 1, end - 1),
    decreases end - i,
{
    if i < end {
        lemma_expanded_range_shift(content, i + 1, end);
        assert(content.drop_first()[i - 1] == content[i]);
    }
}

} // verus!
