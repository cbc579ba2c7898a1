use crate::filetype::HighlightingOptions;
use crate::highlighting::Type;
use crate::text::alnum_cluster;
use crate::text::boundary_cluster;
use crate::text::cluster_is;
use crate::text::digit_cluster;
use crate::text::sep_cluster;
use vstd::prelude::*;

verus! {

/// Everything one scan of a line depends on: which categories are active,
/// the keyword lists, and the active search query, all as cluster sequences.
pub struct ScanConfig {
    pub numbers: bool,
    pub strings: bool,
    pub characters: bool,
    pub comments: bool,
    pub primary_keywords: Seq<Seq<char>>,
    pub secondary_keywords: Seq<Seq<char>>,
    pub query: Seq<Seq<char>>,
}

/// The scan configuration drawn from a profile's options and a search query.
pub open spec fn config_of(opts: HighlightingOptions, query: Seq<Seq<char>>) -> ScanConfig {
    ScanConfig {
        numbers: opts.numbers,
        strings: opts.strings,
        characters: opts.characters,
        comments: opts.comments,
        primary_keywords: opts.primary_keywords.deep_view(),
        secondary_keywords: opts.secondary_keywords.deep_view(),
        query,
    }
}

/// The query occurs at cluster index `i` of the content.
pub open spec fn is_match_at(content: Seq<Seq<char>>, query: Seq<Seq<char>>, i: int) -> bool {
    query.len() > 0 && 0 <= i && i + query.len() <= content.len() && content.subrange(
        i,
        i + query.len(),
    ) == query
}

/// The start indices of the non-overlapping occurrences of the query, found
/// left to right from index `i`.
pub open spec fn match_starts_from(content: Seq<Seq<char>>, query: Seq<Seq<char>>, i: int) -> Seq<
    int,
>
    decreases content.len() - i,
    when 0 <= i
{
    if i >= content.len() || query.len() == 0 {
        Seq::empty()
    } else if is_match_at(content, query, i) {
        seq![i] + match_starts_from(content, query, i + query.len() as int)
    } else {
        match_starts_from(content, query, i + 1)
    }
}

/// Every recorded match start from `s` on is a real occurrence at or after `s`.
pub proof fn lemma_match_starts_valid(content: Seq<Seq<char>>, query: Seq<Seq<char>>, s: int)
    requires
        0 <= s,
    ensures
        forall|j: int| #[trigger]
            match_starts_from(content, query, s).contains(j) ==> is_match_at(content, query, j)
                && j >= s,
    decreases content.len() - s,
{
    if s >= content.len() || query.len() == 0 {
    } else if is_match_at(content, query, s) {
        lemma_match_starts_valid(content, query, s + query.len() as int);
        assert forall|j: int| #[trigger]
            match_starts_from(content, query, s).contains(j) implies is_match_at(content, query, j)
            && j >= s by {
            let ms = match_starts_from(content, query, s);
            let rest = match_starts_from(content, query, s + query.len() as int);
            assert(ms == seq![s] + rest);
            assert(exists|k: int| 0 <= k < ms.len() && ms[k] == j);
            let k = choose|k: int| 0 <= k < ms.len() && ms[k] == j;
            if k == 0 {
                assert(j == s);
                assert(is_match_at(content, query, j) && j >= s);
            } else {
                assert(rest[k - 1] == j);
                assert(rest.contains(j));
                assert(is_match_at(content, query, j) && j >= s);
            }
        }
    } else {
        lemma_match_starts_valid(content, query, s + 1);
        assert forall|j: int| #[trigger]
            match_starts_from(content, query, s).contains(j) implies is_match_at(content, query, j)
            && j >= s by {
            assert(match_starts_from(content, query, s + 1).contains(j));
        }
    }
}

/// The keyword occurs at cluster index `i`, one single-character cluster per
/// keyword character, and the cluster after it (if any) does not continue a
/// word.
pub open spec fn keyword_match_at(content: Seq<Seq<char>>, kw: Seq<char>, i: int) -> bool {
    kw.len() > 0 && 0 <= i && i + kw.len() <= content.len() && (forall|k: int|
        0 <= k < kw.len() ==> cluster_is(content[i + k], kw[k])) && (i + kw.len() == content.len()
        || !alnum_cluster(content[i + kw.len()]))
}

/// The first keyword of the list, in list order, that occurs at `i`.
pub open spec fn first_keyword_at(
    list: Seq<Seq<char>>,
    content: Seq<Seq<char>>,
    i: int,
) -> Option<Seq<char>>
    decreases list.len(),
{
    if list.len() == 0 {
        None
    } else if keyword_match_at(content, list.first(), i) {
        Some(list.first())
    } else {
        first_keyword_at(list.drop_first(), content, i)
    }
}

/// A found first keyword really occurs at `i`.
pub proof fn lemma_first_keyword_at_matches(list: Seq<Seq<char>>, content: Seq<Seq<char>>, i: int)
    ensures
        first_keyword_at(list, content, i) is Some ==> keyword_match_at(
            content,
            first_keyword_at(list, content, i).unwrap(),
            i,
        ),
    decreases list.len(),
{
    if list.len() > 0 && !keyword_match_at(content, list.first(), i) {
        lemma_first_keyword_at_matches(list.drop_first(), content, i);
    }
}

/// Keyword matching starts only at a word boundary: the start of the line,
/// or after whitespace or punctuation other than underscore.
pub open spec fn at_word_boundary(content: Seq<Seq<char>>, i: int) -> bool {
    i == 0 || boundary_cluster(content[i - 1])
}

/// The index of the closing quote of a character literal opened at `i`, if
/// the lookahead finds one: at offset 2, or at offset 3 when a backslash
/// follows the opening quote.
pub open spec fn char_literal_close(content: Seq<Seq<char>>, i: int) -> Option<int> {
    let close = if i + 1 < content.len() && cluster_is(content[i + 1], '\\') {
        i + 3
    } else {
        i + 2
    };
    if close < content.len() && cluster_is(content[close], '\'') {
        Some(close)
    } else {
        None
    }
}

/// The number rule: a digit after a separator or continuing a number, or a
/// dot or underscore continuing a number, when numbers are active.
pub open spec fn number_continues(
    cfg: ScanConfig,
    content: Seq<Seq<char>>,
    i: int,
    prev_sep: bool,
    prev_hl: Type,
) -> bool {
    cfg.numbers && ((digit_cluster(content[i]) && (prev_sep || prev_hl == Type::Number)) || ((
    cluster_is(content[i], '.') || cluster_is(content[i], '_')) && prev_hl == Type::Number))
}

/// The classifications of the clusters from index `i` on: one scan step per
/// rule, first matching rule wins, in this precedence order: search match,
/// string literal, character literal, line comment, primary keyword,
/// secondary keyword, number, default. `in_string` is the open-string flag,
/// `prev_sep` whether the previous cluster was whitespace or punctuation,
/// `prev_hl` the previous cluster's classification.
///
/// Choices this scanner fixes: classification is per grapheme cluster, so the
/// overlay always parallels the content; inside a string a backslash consumes
/// the next cluster too, so an escaped quote never closes the string; both
/// keyword lists use one boundary rule (the keyword must be followed by a
/// non-alphanumeric cluster or the end of the line); and separator tracking
/// is updated after every consumed cluster, from the last cluster consumed.
pub open spec fn scan_from(
    cfg: ScanConfig,
    content: Seq<Seq<char>>,
    i: int,
    in_string: bool,
    prev_sep: bool,
    prev_hl: Type,
) -> Seq<Type>
    decreases content.len() - i,
    when 0 <= i via scan_from_decreases
{
    if i >= content.len() {
        Seq::empty()
    } else if is_match_at(content, cfg.query, i) && match_starts_from(content, cfg.query, 0)
        .contains(i) {
        let n = cfg.query.len() as int;
        Seq::new(n as nat, |k: int| Type::SearchMatch) + scan_from(
            cfg,
            content,
            i + n,
            in_string,
            sep_cluster(content[i + n - 1]),
            Type::SearchMatch,
        )
    } else if cfg.strings && in_string && cluster_is(content[i], '\\') && i + 1 < content.len() {
        seq![Type::String, Type::String] + scan_from(
            cfg,
            content,
            i + 2,
            true,
            sep_cluster(content[i + 1]),
            Type::String,
        )
    } else if cfg.strings && (in_string || cluster_is(content[i], '"')) {
        let now_in = if cluster_is(content[i], '"') {
            !in_string
        } else {
            in_string
        };
        seq![Type::String] + scan_from(
            cfg,
            content,
            i + 1,
            now_in,
            sep_cluster(content[i]),
            Type::String,
        )
    } else if cfg.characters && !in_string && cluster_is(content[i], '\'') && char_literal_close(
        content,
        i,
    ) is Some {
        let close = char_literal_close(content, i).unwrap();
        Seq::new((close + 1 - i) as nat, |k: int| Type::Character) + scan_from(
            cfg,
            content,
            close + 1,
            in_string,
            sep_cluster(content[close]),
            Type::Character,
        )
    } else if cfg.comments && cluster_is(content[i], '/') && i + 1 < content.len() && cluster_is(
        content[i + 1],
        '/',
    ) {
        Seq::new((content.len() - i) as nat, |k: int| Type::Comment)
    } else if at_word_boundary(content, i) && first_keyword_at(
        cfg.primary_keywords,
        content,
        i,
    ) is Some {
        let kw = first_keyword_at(cfg.primary_keywords, content, i).unwrap();
        let n = kw.len() as int;
        Seq::new(n as nat, |k: int| Type::PrimaryKeyword) + scan_from(
            cfg,
            content,
            i + n,
            in_string,
            sep_cluster(content[i + n - 1]),
            Type::PrimaryKeyword,
        )
    } else if at_word_boundary(content, i) && first_keyword_at(
        cfg.secondary_keywords,
        content,
        i,
    ) is Some {
        let kw = first_keyword_at(cfg.secondary_keywords, content, i).unwrap();
        let n = kw.len() as int;
        Seq::new(n as nat, |k: int| Type::SecondaryKeyword) + scan_from(
            cfg,
            content,
            i + n,
            in_string,
            sep_cluster(content[i + n - 1]),
            Type::SecondaryKeyword,
        )
    } else {
        let t = if number_continues(cfg, content, i, prev_sep, prev_hl) {
            Type::Number
        } else {
            Type::Normal
        };
        seq![t] + scan_from(cfg, content, i + 1, in_string, sep_cluster(content[i]), t)
    }
}

#[via_fn]
proof fn scan_from_decreases(
    cfg: ScanConfig,
    content: Seq<Seq<char>>,
    i: int,
    in_string: bool,
    prev_sep: bool,
    prev_hl: Type,
) {
    if 0 <= i && i < content.len() {
        lemma_first_keyword_at_matches(cfg.primary_keywords, content, i);
        lemma_first_keyword_at_matches(cfg.secondary_keywords, content, i);
    }
}

/// The full classification overlay of a line: the scan started at the first
/// cluster, outside any string, after a notional separator.
pub open spec fn scan_line_spec(cfg: ScanConfig, content: Seq<Seq<char>>) -> Seq<Type> {
    scan_from(cfg, content, 0, false, true, Type::Normal)
}

/// The scan classifies every cluster from `i` on: one classification each.
pub proof fn lemma_scan_from_len(
    cfg: ScanConfig,
    content: Seq<Seq<char>>,
    i: int,
    in_string: bool,
    prev_sep: bool,
    prev_hl: Type,
)
    requires
        0 <= i <= content.len(),
    ensures
        scan_from(cfg, content, i, in_string, prev_sep, prev_hl).len() == content.len() - i,
    decreases content.len() - i,
{
    if i >= content.len() {
    } else if is_match_at(content, cfg.query, i) && match_starts_from(content, cfg.query, 0)
        .contains(i) {
        let n = cfg.query.len() as int;
        lemma_scan_from_len(
            cfg,
            content,
            i + n,
            in_string,
            sep_cluster(content[i + n - 1]),
            Type::SearchMatch,
        );
    } else if cfg.strings && in_string && cluster_is(content[i], '\\') && i + 1 < content.len() {
        lemma_scan_from_len(cfg, content, i + 2, true, sep_cluster(content[i + 1]), Type::String);
    } else if cfg.strings && (in_string || cluster_is(content[i], '"')) {
        let now_in = if cluster_is(content[i], '"') {
            !in_string
        } else {
            in_string
        };
        lemma_scan_from_len(cfg, content, i + 1, now_in, sep_cluster(content[i]), Type::String);
    } else if cfg.characters && !in_string && cluster_is(content[i], '\'') && char_literal_close(
        content,
        i,
    ) is Some {
        let close = char_literal_close(content, i).unwrap();
        lemma_scan_from_len(
            cfg,
            content,
            close + 1,
            in_string,
            sep_cluster(content[close]),
            Type::Character,
        );
    } else if cfg.comments && cluster_is(content[i], '/') && i + 1 < content.len() && cluster_is(
        content[i + 1],
        '/',
    ) {
    } else if at_word_boundary(content, i) && first_keyword_at(
        cfg.primary_keywords,
        content,
        i,
    ) is Some {
        let kw = first_keyword_at(cfg.primary_keywords, content, i).unwrap();
        let n = kw.len() as int;
        lemma_first_keyword_at_matches(cfg.primary_keywords, content, i);
        lemma_scan_from_len(
            cfg,
            content,
            i + n,
            in_string,
            sep_cluster(content[i + n - 1]),
            Type::PrimaryKeyword,
        );
    } else if at_word_boundary(content, i) && first_keyword_at(
        cfg.secondary_keywords,
        content,
        i,
    ) is Some {
        let kw = first_keyword_at(cfg.secondary_keywords, content, i).unwrap();
        let n = kw.len() as int;
        lemma_first_keyword_at_matches(cfg.secondary_keywords, content, i);
        lemma_scan_from_len(
            cfg,
            content,
            i + n,
            in_string,
            sep_cluster(content[i + n - 1]),
            Type::SecondaryKeyword,
        );
    } else {
        let t = if number_continues(cfg, content, i, prev_sep, prev_hl) {
            Type::Number
        } else {
            Type::Normal
        };
        lemma_scan_from_len(cfg, content, i + 1, in_string, sep_cluster(content[i]), t);
    }
}


proof fn lemma_concat_assoc<T>(a: Seq<T>, b: Seq<T>, c: Seq<T>)
    ensures
        (a + b) + c == a + (b + c),
{
    assert((a + b) + c =~= a + (b + c));
}

fn push_n(v: &mut Vec<Type>, t: Type, n: usize)
    ensures
        final(v)@ == old(v)@ + Seq::new(n as nat, |k: int| t),
{
    let mut k: usize = 0;
    while k < n
        invariant
            k <= n,
            v@ =~= old(v)@ + Seq::new(k as nat, |j: int| t),
        decreases n - k,
    {
        v.push(t);
        k = k + 1;
        proof {
            assert(v@ =~= old(v)@ + Seq::new(k as nat, |j: int| t));
        }
    }
}

#[verifier::loop_isolation(false)]
pub(crate) fn is_match_at_exec(content: &Vec<String>, query: &Vec<String>, i: usize) -> (r: bool)
    ensures
        r == is_match_at(content.deep_view(), query.deep_view(), i as int),
{
    let n = content.len();
    let m = query.len();
    if m == 0 || i > n || m > n - i {
        return false;
    }
    let mut k: usize = 0;
    while k < m
        invariant
            k <= m,
            forall|t: int| 0 <= t < k ==> content.deep_view()[i + t] == query.deep_view()[t],
        decreases m - k,
    {
        if !(content[i + k] == query[k]) {
            proof {
                assert(content.deep_view()[i + k] != query.deep_view()[k as int]);
                if is_match_at(content.deep_view(), query.deep_view(), i as int) {
                    assert(content.deep_view().subrange(i as int, i + m)[k as int]
                        == query.deep_view()[k as int]);
                }
            }
            return false;
        }
        k = k + 1;
    }
    proof {
        assert(content.deep_view().subrange(i as int, i + m) =~= query.deep_view());
    }
    true
}

#[verifier::loop_isolation(false)]
fn compute_match_starts(content: &Vec<String>, query: &Vec<String>) -> (r: Vec<usize>)
    ensures
        r@.map_values(|u: usize| u as int) == match_starts_from(
            content.deep_view(),
            query.deep_view(),
            0,
        ),
{
    let ghost cv = content.deep_view();
    let ghost qv = query.deep_view();
    let mut r: Vec<usize> = Vec::new();
    let mut i: usize = 0;
    proof {
        assert(r@.map_values(|u: usize| u as int) + match_starts_from(cv, qv, 0)
            =~= match_starts_from(cv, qv, 0));
    }
    while i < content.len()
        invariant
            i <= content.len(),
            match_starts_from(cv, qv, 0) == r@.map_values(|u: usize| u as int)
                + match_starts_from(cv, qv, i as int),
        decreases content.len() - i,
    {
        let ghost old_map = r@.map_values(|u: usize| u as int);
        if is_match_at_exec(content, query, i) {
            r.push(i);
            proof {
                assert(r@.map_values(|u: usize| u as int) =~= old_map.push(i as int));
                assert(match_starts_from(cv, qv, i as int) == seq![i as int]
                    + match_starts_from(cv, qv, i + query.deep_view().len()));
                lemma_concat_assoc(old_map, seq![i as int],
                    match_starts_from(cv, qv, i + query.deep_view().len()));
                assert(old_map.push(i as int) =~= old_map + seq![i as int]);
            }
            i = i + query.len();
        } else {
            proof {
                assert(match_starts_from(cv, qv, i as int)
                    == match_starts_from(cv, qv, i + 1));
            }
            i = i + 1;
        }
    }
    proof {
        assert(match_starts_from(cv, qv, i as int) =~= Seq::<int>::empty());
        assert(r@.map_values(|u: usize| u as int) + Seq::<int>::empty()
            =~= r@.map_values(|u: usize| u as int));
    }
    r
}

#[verifier::loop_isolation(false)]
fn contains_usize(v: &Vec<usize>, x: usize) -> (r: bool)
    ensures
        r == v@.contains(x),
{
    let mut k: usize = 0;
    while k < v.len()
        invariant
            k <= v@.len(),
            forall|t: int| 0 <= t < k ==> v@[t] != x,
        decreases v@.len() - k,
    {
        if v[k] == x {
            return true;
        }
        k = k + 1;
    }
    false
}

#[verifier::loop_isolation(false)]
fn keyword_match_exec(content: &Vec<String>, kw: &String, i: usize) -> (r: bool)
    ensures
        r == keyword_match_at(content.deep_view(), kw@, i as int),
{
    let m = kw.as_str().unicode_len();
    let n = content.len();
    if m == 0 || i > n || m > n - i {
        return false;
    }
    let mut k: usize = 0;
    while k < m
        invariant
            k <= m,
            forall|t: int| 0 <= t < k ==> cluster_is(#[trigger] content.deep_view()[i + t], kw@[t]),
        decreases m - k,
    {
        let c = kw.as_str().get_char(k);
        if !crate::text::cluster_is_char(&content[i + k], c) {
            proof {
                if keyword_match_at(content.deep_view(), kw@, i as int) {
                    assert(cluster_is(content.deep_view()[i + k], kw@[k as int]));
                }
            }
            return false;
        }
        k = k + 1;
    }
    if i + m == n {
        true
    } else {
        !crate::text::is_alnum_cluster(&content[i + m])
    }
}

proof fn lemma_first_keyword_skip(list: Seq<Seq<char>>, content: Seq<Seq<char>>, i: int, j: int)
    requires
        0 <= j <= list.len(),
        forall|t: int| 0 <= t < j ==> !keyword_match_at(content, #[trigger] list[t], i),
    ensures
        first_keyword_at(list, content, i) == first_keyword_at(list.skip(j), content, i),
    decreases j,
{
    if j > 0 {
        lemma_first_keyword_skip(list, content, i, j - 1);
        assert(list.skip(j - 1).first() == list[j - 1]);
        assert(list.skip(j - 1).drop_first() =~= list.skip(j));
    } else {
        assert(list.skip(0) =~= list);
    }
}

#[verifier::loop_isolation(false)]
fn first_keyword_exec(list: &Vec<String>, content: &Vec<String>, i: usize) -> (r: Option<usize>)
    ensures
        match r {
            Some(l) => first_keyword_at(list.deep_view(), content.deep_view(), i as int) is Some
                && first_keyword_at(
                list.deep_view(),
                content.deep_view(),
                i as int,
            ).unwrap().len() == l,
            None => first_keyword_at(list.deep_view(), content.deep_view(), i as int) is None,
        },
{
    let ghost lv = list.deep_view();
    let ghost cv = content.deep_view();
    let mut j: usize = 0;
    while j < list.len()
        invariant
            j <= list@.len(),
            forall|t: int| 0 <= t < j ==> !keyword_match_at(cv, #[trigger] lv[t], i as int),
        decreases list@.len() - j,
    {
        if keyword_match_exec(content, &list[j], i) {
            proof {
                lemma_first_keyword_skip(lv, cv, i as int, j as int);
                assert(lv.skip(j as int).first() == lv[j as int]);
            }
            return Some(list[j].as_str().unicode_len());
        }
        j = j + 1;
    }
    proof {
        lemma_first_keyword_skip(lv, cv, i as int, j as int);
        assert(lv.skip(j as int) =~= Seq::<Seq<char>>::empty());
    }
    None
}

fn char_literal_close_exec(content: &Vec<String>, i: usize) -> (r: Option<usize>)
    requires
        i < content@.len(),
    ensures
        match r {
            Some(c) => char_literal_close(content.deep_view(), i as int) == Some(c as int),
            None => char_literal_close(content.deep_view(), i as int) is None,
        },
{
    let n = content.len();
    let off3 = i + 1 < n && crate::text::cluster_is_char(&content[i + 1], '\\');
    if off3 {
        if n - i > 3 && crate::text::cluster_is_char(&content[i + 3], '\'') {
            Some(i + 3)
        } else {
            None
        }
    } else {
        if n - i > 2 && crate::text::cluster_is_char(&content[i + 2], '\'') {
            Some(i + 2)
        } else {
            None
        }
    }
}

/// The classification overlay of a line's clusters under the given options
/// and search query (an empty query means no active search).
#[verifier::loop_isolation(false)]
pub(crate) fn scan_line(content: &Vec<String>, opts: &HighlightingOptions, query: &Vec<String>) -> (r:
    Vec<Type>)
    ensures
        r@ == scan_line_spec(config_of(*opts, query.deep_view()), content.deep_view()),
        r@.len() == content.deep_view().len(),
{
    let ghost cfg = config_of(*opts, query.deep_view());
    let ghost cv = content.deep_view();
    let matches = compute_match_starts(content, query);
    let mut r: Vec<Type> = Vec::new();
    let mut i: usize = 0;
    let mut in_string = false;
    let mut prev_sep = true;
    let mut prev_hl = Type::Normal;
    let n = content.len();
    proof {
        assert(r@ + scan_from(cfg, cv, 0, false, true, Type::Normal) =~= scan_from(
            cfg,
            cv,
            0,
            false,
            true,
            Type::Normal,
        ));
    }
    while i < n
        invariant
            i <= n,
            scan_line_spec(cfg, cv) == r@ + scan_from(
                cfg,
                cv,
                i as int,
                in_string,
                prev_sep,
                prev_hl,
            ),
        decreases n - i,
    {
        let ghost old_i = i as int;
        let ghost old_in = in_string;
        let ghost old_ps = prev_sep;
        let ghost old_ph = prev_hl;
        let ghost old_r = r@;
        let ghost tail0 = scan_from(cfg, cv, old_i, old_in, old_ps, old_ph);
        let is_search = contains_usize(&matches, i);
        proof {
            let ms = match_starts_from(cv, cfg.query, 0);
            let mapped = matches@.map_values(|u: usize| u as int);
            if matches@.contains(i) {
                let k = choose|k: int| 0 <= k < matches@.len() && matches@[k] == i;
                assert(mapped[k] == i as int);
                assert(ms.contains(i as int));
                lemma_match_starts_valid(cv, cfg.query, 0);
            }
            if ms.contains(i as int) {
                let k = choose|k: int| 0 <= k < ms.len() && ms[k] == i as int;
                assert(matches@[k] == i);
                assert(matches@.contains(i));
            }
            assert(is_search == (is_match_at(cv, cfg.query, i as int) && ms.contains(i as int)));
        }
        let cur_is_backslash = crate::text::cluster_is_char(&content[i], '\\');
        let cur_is_quote = crate::text::cluster_is_char(&content[i], '"');
        let cur_is_squote = crate::text::cluster_is_char(&content[i], '\'');
        let char_close: Option<usize> = if opts.characters && !in_string && cur_is_squote {
            char_literal_close_exec(content, i)
        } else {
            None
        };
        let at_boundary = i == 0 || crate::text::is_boundary_cluster(&content[i - 1]);
        let pk: Option<usize> = if at_boundary {
            first_keyword_exec(&opts.primary_keywords, content, i)
        } else {
            None
        };
        let sk: Option<usize> = if at_boundary && pk.is_none() {
            first_keyword_exec(&opts.secondary_keywords, content, i)
        } else {
            None
        };
        if is_search {
            let m = query.len();
            push_n(&mut r, Type::SearchMatch, m);
            prev_sep = crate::text::is_sep_cluster(&content[i + m - 1]);
            prev_hl = Type::SearchMatch;
            i = i + m;
            proof {
                let rest = scan_from(cfg, cv, i as int, in_string, prev_sep, prev_hl);
                let emitted = Seq::new(cfg.query.len(), |k: int| Type::SearchMatch);
                assert(r@ =~= old_r + emitted);
                assert(tail0 == emitted + rest);
                lemma_concat_assoc(old_r, emitted, rest);
            }
        } else if opts.strings && in_string && cur_is_backslash && i + 1 < n {
            push_n(&mut r, Type::String, 2);
            prev_sep = crate::text::is_sep_cluster(&content[i + 1]);
            prev_hl = Type::String;
            in_string = true;
            i = i + 2;
            proof {
                let rest = scan_from(cfg, cv, i as int, in_string, prev_sep, prev_hl);
                let emitted = seq![Type::String, Type::String];
                assert(r@ =~= old_r + emitted);
                assert(tail0 == emitted + rest);
                lemma_concat_assoc(old_r, emitted, rest);
            }
        } else if opts.strings && (in_string || cur_is_quote) {
            r.push(Type::String);
            if cur_is_quote {
                in_string = !in_string;
            }
            prev_sep = crate::text::is_sep_cluster(&content[i]);
            prev_hl = Type::String;
            i = i + 1;
            proof {
                let rest = scan_from(cfg, cv, i as int, in_string, prev_sep, prev_hl);
                let emitted = seq![Type::String];
                assert(r@ =~= old_r + emitted);
                assert(tail0 == emitted + rest);
                lemma_concat_assoc(old_r, emitted, rest);
            }
        } else if char_close.is_some() {
            let close = char_close.unwrap();
            let count = close + 1 - i;
            push_n(&mut r, Type::Character, count);
            prev_sep = crate::text::is_sep_cluster(&content[close]);
            prev_hl = Type::Character;
            i = close + 1;
            proof {
                let rest = scan_from(cfg, cv, i as int, in_string, prev_sep, prev_hl);
                let emitted = Seq::new(count as nat, |k: int| Type::Character);
                assert(r@ =~= old_r + emitted);
                assert(tail0 == emitted + rest);
                lemma_concat_assoc(old_r, emitted, rest);
            }
        } else if opts.comments && crate::text::cluster_is_char(&content[i], '/') && i + 1 < n
            && crate::text::cluster_is_char(&content[i + 1], '/') {
            let count = n - i;
            push_n(&mut r, Type::Comment, count);
            i = n;
            proof {
                let emitted = Seq::new(count as nat, |k: int| Type::Comment);
                assert(r@ =~= old_r + emitted);
                assert(tail0 == emitted);
                assert(scan_from(cfg, cv, i as int, in_string, prev_sep, prev_hl)
                    =~= Seq::<Type>::empty());
                assert(r@ + scan_from(cfg, cv, i as int, in_string, prev_sep, prev_hl) =~= old_r
                    + tail0);
            }
        } else if pk.is_some() {
            let l = pk.unwrap();
            proof {
                lemma_first_keyword_at_matches(cfg.primary_keywords, cv, i as int);
            }
            push_n(&mut r, Type::PrimaryKeyword, l);
            prev_sep = crate::text::is_sep_cluster(&content[i + l - 1]);
            prev_hl = Type::PrimaryKeyword;
            i = i + l;
            proof {
                let rest = scan_from(cfg, cv, i as int, in_string, prev_sep, prev_hl);
                let emitted = Seq::new(l as nat, |k: int| Type::PrimaryKeyword);
                assert(r@ =~= old_r + emitted);
                assert(tail0 == emitted + rest);
                lemma_concat_assoc(old_r, emitted, rest);
            }
        } else if sk.is_some() {
            let l = sk.unwrap();
            proof {
                lemma_first_keyword_at_matches(cfg.secondary_keywords, cv, i as int);
            }
            push_n(&mut r, Type::SecondaryKeyword, l);
            prev_sep = crate::text::is_sep_cluster(&content[i + l - 1]);
            prev_hl = Type::SecondaryKeyword;
            i = i + l;
            proof {
                let rest = scan_from(cfg, cv, i as int, in_string, prev_sep, prev_hl);
                let emitted = Seq::new(l as nat, |k: int| Type::SecondaryKeyword);
                assert(r@ =~= old_r + emitted);
                assert(tail0 == emitted + rest);
                lemma_concat_assoc(old_r, emitted, rest);
            }
        } else {
            let is_digit = crate::text::is_digit_cluster(&content[i]);
            let is_dot = crate::text::cluster_is_char(&content[i], '.');
            let is_us = crate::text::cluster_is_char(&content[i], '_');
            let t = if opts.numbers && ((is_digit && (prev_sep || prev_hl == Type::Number)) || ((
            is_dot || is_us) && prev_hl == Type::Number)) {
                Type::Number
            } else {
                Type::Normal
            };
            r.push(t);
            prev_sep = crate::text::is_sep_cluster(&content[i]);
            prev_hl = t;
            i = i + 1;
            proof {
                let rest = scan_from(cfg, cv, i as int, in_string, prev_sep, prev_hl);
                let emitted = seq![t];
                assert(r@ =~= old_r + emitted);
                assert(tail0 == emitted + rest);
                lemma_concat_assoc(old_r, emitted, rest);
            }
        }
    }
    proof {
        assert(scan_from(cfg, cv, i as int, in_string, prev_sep, prev_hl) =~= Seq::<Type>::empty());
        assert(r@ + scan_from(cfg, cv, i as int, in_string, prev_sep, prev_hl) =~= r@);
        lemma_scan_from_len(cfg, cv, 0, false, true, Type::Normal);
    }
    r
}

} // verus!
