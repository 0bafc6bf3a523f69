//! Fuzzy search over the names of the tracks.
//!
//! A name matches a query if the characters of the query that are not white space
//! occur in it in the same order, upper and lower case of ASCII letters being the
//! same. Each of them is looked for behind the one before, at its first
//! occurrence, and adds to the score.
use vstd::prelude::*;
use vstd::utf8::{encode_scalar, encode_utf8};
use crate::text::{
    comes_before, is_whitespace, lex_less, lower, lower_chars, lowered, same_text, whitespace,
};
use crate::track::{display_name, names_of, TrackFile};

verus! {

/// Whether a text holds nothing but white space.
pub open spec fn blank(s: Seq<char>) -> bool {
    forall|i: int| 0 <= i < s.len() ==> whitespace(#[trigger] s[i])
}

/// The characters of a query that are looked for.
pub open spec fn sought(query: Seq<char>) -> Seq<char> {
    lowered(query).filter(|c: char| !whitespace(c))
}

/// The position of the first `c` in `s` from `start` on.
pub open spec fn first_from(s: Seq<char>, c: char, start: int) -> Option<int>
    decreases s.len() - start,
{
    if start < 0 || start >= s.len() {
        None
    } else if s[start] == c {
        Some(start)
    } else {
        first_from(s, c, start + 1)
    }
}

/// The number of bytes before position `i` of `s`.
pub open spec fn byte_offset(s: Seq<char>, i: int) -> nat {
    encode_utf8(s.take(i)).len()
}

/// Whether a word may start behind `c`.
pub open spec fn separator(c: char) -> bool {
    c == ' ' || c == '-' || c == '_' || c == '.' || c == '/'
}

/// What a match at position `at` of `s` adds to the score, the match before being
/// at position `last`: more at the start of the text, behind a separator, and one
/// byte behind the match before.
pub open spec fn match_points(s: Seq<char>, at: int, last: Option<int>) -> nat {
    10 + (if at == 0 {
        8nat
    } else {
        0
    }) + (if at > 0 && separator(s[at - 1]) {
        6nat
    } else {
        0
    }) + (match last {
        Some(p) => if byte_offset(s, at) == byte_offset(s, p) + 1 {
            4nat
        } else {
            0
        },
        None => 0,
    })
}

/// The points for finding the characters `wanted` in `s`, one behind the other
/// from position `start` on; `None` where one of them is not found.
pub open spec fn points_from(s: Seq<char>, wanted: Seq<char>, start: int, last: Option<int>) -> Option<
    nat,
>
    decreases wanted.len(),
{
    if wanted.len() == 0 {
        Some(0)
    } else {
        match first_from(s, wanted[0], start) {
            None => None,
            Some(at) => match points_from(s, wanted.drop_first(), at + 1, Some(at)) {
                None => None,
                Some(rest) => Some(match_points(s, at, last) + rest),
            },
        }
    }
}

/// The points of `candidate` for `query`; `None` where it does not match.
pub open spec fn points(candidate: Seq<char>, query: Seq<char>) -> Option<nat> {
    points_from(lowered(candidate), sought(query), 0, None)
}

/// A number of points as a score: the number itself, or the largest score there is.
pub open spec fn as_score(points: nat) -> usize {
    if points <= usize::MAX {
        points as usize
    } else {
        usize::MAX
    }
}

/// The score of `candidate` for `query`; `None` where it does not match.
pub open spec fn score_of(candidate: Seq<char>, query: Seq<char>) -> Option<usize> {
    match points(candidate, query) {
        Some(p) => Some(as_score(p)),
        None => None,
    }
}

/// Passing one character adds its bytes to the offset.
proof fn lemma_byte_offset_step(s: Seq<char>, i: int)
    requires
        0 <= i < s.len(),
    ensures
        byte_offset(s, i + 1) == byte_offset(s, i) + encode_scalar(s[i] as u32).len(),
        encode_scalar(s[i] as u32).len() >= 1,
        encode_scalar(s[i] as u32).len() == 1 <==> s[i] as u32 <= 0x7F,
{
    crate::text::lemma_encode_push(s.take(i), s[i]);
    assert(s.take(i + 1) =~= s.take(i).push(s[i]));
    vstd::utf8::char_is_scalar(s[i]);
}

/// Offsets grow with the positions.
proof fn lemma_byte_offset_grows(s: Seq<char>, i: int, j: int)
    requires
        0 <= i <= j <= s.len(),
    ensures
        byte_offset(s, j) >= byte_offset(s, i) + (j - i),
    decreases j - i,
{
    if i < j {
        lemma_byte_offset_step(s, j - 1);
        lemma_byte_offset_grows(s, i, j - 1);
    }
}

/// One position lies one byte behind an earlier one if it is the next and the
/// character between is an ASCII one.
proof fn lemma_next_byte(s: Seq<char>, p: int, at: int)
    requires
        0 <= p < at <= s.len(),
    ensures
        byte_offset(s, at) == byte_offset(s, p) + 1 <==> at == p + 1 && s[p] as u32 <= 0x7F,
{
    lemma_byte_offset_step(s, p);
    lemma_byte_offset_grows(s, p + 1, at);
}

/// What `first_from` finds lies within the text, at or behind `start`, and holds
/// the character.
pub proof fn lemma_first_from(s: Seq<char>, c: char, start: int)
    ensures
        first_from(s, c, start) matches Some(at) ==> start <= at < s.len() && 0 <= at && s[at] == c
            && forall|i: int| start <= i < at ==> s[i] != c,
        first_from(s, c, start) is None && start >= 0 ==> forall|i: int|
            start <= i < s.len() ==> s[i] != c,
    decreases s.len() - start,
{
    if 0 <= start < s.len() && s[start] != c {
        lemma_first_from(s, c, start + 1);
    }
}

/// The position of the first `c` in `s` from `start` on.
fn find_from(s: &[char], c: char, start: usize) -> (at: Option<usize>)
    ensures
        match at {
            Some(at) => first_from(s@, c, start as int) == Some(at as int),
            None => first_from(s@, c, start as int) is None,
        },
{
    let mut i: usize = start;
    while i < s.len()
        invariant
            start <= i,
            first_from(s@, c, start as int) == first_from(s@, c, i as int),
        decreases s@.len() - i,
    {
        if s[i] == c {
            return Some(i);
        }
        i = i + 1;
    }
    None
}

/// The characters of a query that are looked for.
fn sought_chars(query: &str) -> (wanted: Vec<char>)
    ensures
        wanted@ == sought(query@),
{
    let low = lower_chars(query);
    let ghost keep = |c: char| !whitespace(c);
    let mut wanted: Vec<char> = Vec::new();
    assert(low@.take(0).filter(keep) =~= Seq::<char>::empty()) by {
        reveal(Seq::filter);
    }
    for i in 0..low.len()
        invariant
            keep == (|c: char| !whitespace(c)),
            wanted@ == low@.take(i as int).filter(keep),
    {
        proof {
            reveal(Seq::filter);
            assert(low@.take(i + 1).drop_last() =~= low@.take(i as int));
        }
        if !is_whitespace(low[i]) {
            wanted.push(low[i]);
        }
    }
    assert(low@.take(low@.len() as int) =~= low@);
    wanted
}

/// The score of the match of `wanted` in `s`.
fn score_match(s: &[char], wanted: &[char]) -> (score: Option<usize>)
    ensures
        score == (match points_from(s@, wanted@, 0, None) {
            Some(p) => Some(as_score(p)),
            None => None,
        }),
{
    let mut score: usize = 0;
    let mut start: usize = 0;
    let mut last: Option<usize> = None;
    let ghost mut sum: nat = 0;
    let ghost total = points_from(s@, wanted@, 0, None);
    assert(wanted@.skip(0) =~= wanted@);
    for i in 0..wanted.len()
        invariant
            start <= s@.len(),
            last matches Some(p) ==> p < start,
            score == as_score(sum),
            total == (match points_from(
                s@,
                wanted@.skip(i as int),
                start as int,
                (match last {
                    Some(p) => Some(p as int),
                    None => None,
                }),
            ) {
                Some(rest) => Some(sum + rest),
                None => None,
            }),
            total == points_from(s@, wanted@, 0, None),
    {
        let ghost rest = wanted@.skip(i as int);
        proof {
            assert(rest[0] == wanted@[i as int]);
            assert(rest.drop_first() =~= wanted@.skip(i + 1));
            lemma_first_from(s@, wanted@[i as int], start as int);
        }
        let at: usize = match find_from(s, wanted[i], start) {
            Some(at) => at,
            None => {
                return None;
            },
        };
        let ghost gained = match_points(
            s@,
            at as int,
            (match last {
                Some(p) => Some(p as int),
                None => None,
            }),
        );
        let mut gain: usize = 10;
        if at == 0 {
            gain = gain + 8;
        }
        if at > 0 {
            let c: char = s[at - 1];
            if c == ' ' || c == '-' || c == '_' || c == '.' || c == '/' {
                gain = gain + 6;
            }
        }
        if let Some(p) = last {
            proof {
                lemma_next_byte(s@, p as int, at as int);
            }
            let code: u32 = s[p] as u32;
            if at == p + 1 && code <= 0x7F {
                gain = gain + 4;
            }
        }
        assert(gain == gained);
        score = score.saturating_add(gain);
        proof {
            sum = sum + gained;
        }
        last = Some(at);
        start = at + 1;
    }
    Some(score)
}

/// The score of `candidate` for `query`, `None` where it does not match: the sum of
/// the points of its matches, or the largest `usize` where that is more.
pub fn fuzzy_score(candidate: &str, query: &str) -> (score: Option<usize>)
    ensures
        score == score_of(candidate@, query@),
{
    let low = lower_chars(candidate);
    let wanted = sought_chars(query);
    score_match(&low, &wanted)
}

/// Whether track `i` stands before track `j` in the result of a search: by
/// descending score, then by name, then by position.
pub open spec fn precedes(names: Seq<Seq<char>>, query: Seq<char>, i: int, j: int) -> bool {
    let a = score_of(names[i], query)->0;
    let b = score_of(names[j], query)->0;
    ||| a > b
    ||| a == b && lex_less(names[i], names[j])
    ||| a == b && names[i] == names[j] && i < j
}

/// Whether `order` lists the tracks among the first `count` that match `query`,
/// each once, the best first.
pub open spec fn ranks_first(
    names: Seq<Seq<char>>,
    query: Seq<char>,
    count: int,
    order: Seq<usize>,
) -> bool {
    &&& forall|a: int, b: int|
        0 <= a < b < order.len() ==> precedes(names, query, #[trigger] order[a] as int, #[trigger] order[b] as int)
    &&& forall|a: int|
        0 <= a < order.len() ==> #[trigger] order[a] < count && score_of(
            names[order[a] as int],
            query,
        ) is Some
    &&& forall|i: int|
        0 <= i < count && score_of(#[trigger] names[i], query) is Some ==> order.contains(i as usize)
}

/// Whether `order` is the result of a search for `query` among `names`: every
/// track in its place for a blank query, else the matching tracks, best first.
pub open spec fn is_playlist(names: Seq<Seq<char>>, query: Seq<char>, order: Seq<usize>) -> bool {
    if blank(query) {
        order == Seq::new(names.len(), |i: int| i as usize)
    } else {
        ranks_first(names, query, names.len() as int, order)
    }
}

/// The result of a search for `query` among `names`.
pub open spec fn playlist(names: Seq<Seq<char>>, query: Seq<char>) -> Seq<usize> {
    choose|order: Seq<usize>| is_playlist(names, query, order)
}

/// The order of results is transitive.
pub proof fn lemma_precedes_transitive(
    names: Seq<Seq<char>>,
    query: Seq<char>,
    i: int,
    j: int,
    k: int,
)
    requires
        precedes(names, query, i, j),
        precedes(names, query, j, k),
    ensures
        precedes(names, query, i, k),
{
    if lex_less(names[i], names[j]) && lex_less(names[j], names[k]) {
        crate::text::lemma_lex_transitive(names[i], names[j], names[k]);
    }
}

/// No track stands before another that stands before it.
pub proof fn lemma_precedes_asymmetric(names: Seq<Seq<char>>, query: Seq<char>, i: int, j: int)
    requires
        precedes(names, query, i, j),
    ensures
        !precedes(names, query, j, i),
{
    if precedes(names, query, j, i) {
        lemma_precedes_transitive(names, query, i, j, i);
        crate::text::lemma_lex_irreflexive(names[i]);
    }
}

/// Of two different tracks one stands before the other.
pub proof fn lemma_precedes_total(names: Seq<Seq<char>>, query: Seq<char>, i: int, j: int)
    requires
        i != j,
    ensures
        precedes(names, query, i, j) || precedes(names, query, j, i),
{
    crate::text::lemma_lex_total(names[i], names[j]);
}

/// Two rankings agree up to every position of the first.
proof fn lemma_ranking_prefix(
    names: Seq<Seq<char>>,
    query: Seq<char>,
    count: int,
    a: Seq<usize>,
    b: Seq<usize>,
    n: int,
)
    requires
        count <= usize::MAX + 1,
        ranks_first(names, query, count, a),
        ranks_first(names, query, count, b),
        0 <= n <= a.len(),
    ensures
        n <= b.len(),
        forall|k: int| 0 <= k < n ==> a[k] == b[k],
    decreases n,
{
    if n > 0 {
        let k = n - 1;
        lemma_ranking_prefix(names, query, count, a, b, k);
        assert(a[k] < count);
        assert(score_of(names[a[k] as int], query) is Some);
        assert(b.contains(a[k]));
        let m = choose|m: int| 0 <= m < b.len() && b[m] == a[k];
        if m < k {
            assert(a[m] == a[k]);
            lemma_precedes_asymmetric(names, query, a[m] as int, a[k] as int);
        }
        if b[k] != a[k] {
            assert(m > k);
            assert(b[k] < count);
            assert(score_of(names[b[k] as int], query) is Some);
            assert(a.contains(b[k]));
            let w = choose|w: int| 0 <= w < a.len() && a[w] == b[k];
            if w < k {
                assert(b[w] == b[k]);
                lemma_precedes_asymmetric(names, query, b[w] as int, b[k] as int);
            }
            assert(w > k);
            assert(precedes(names, query, b[k] as int, b[m] as int));
            assert(precedes(names, query, a[k] as int, a[w] as int));
            lemma_precedes_asymmetric(names, query, a[k] as int, b[k] as int);
        }
    }
}

/// A search has one result: two sequences that are both the result of the same
/// search are the same.
pub proof fn playlist_unique(
    names: Seq<Seq<char>>,
    query: Seq<char>,
    a: Seq<usize>,
    b: Seq<usize>,
)
    requires
        names.len() <= usize::MAX,
        is_playlist(names, query, a),
        is_playlist(names, query, b),
    ensures
        a == b,
{
    if !blank(query) {
        lemma_ranking_prefix(names, query, names.len() as int, a, b, a.len() as int);
        lemma_ranking_prefix(names, query, names.len() as int, b, a, b.len() as int);
        assert(a =~= b);
    }
}

/// Where a track goes in a ranking of the tracks before it.
proof fn lemma_insertion_point(
    names: Seq<Seq<char>>,
    query: Seq<char>,
    count: int,
    order: Seq<usize>,
    upto: int,
) -> (at: int)
    requires
        ranks_first(names, query, count, order),
        0 <= upto <= order.len(),
        forall|k: int| upto <= k < order.len() ==> precedes(names, query, count, #[trigger] order[k] as int),
    ensures
        0 <= at <= order.len(),
        forall|k: int| 0 <= k < at ==> !precedes(names, query, count, #[trigger] order[k] as int),
        forall|k: int| at <= k < order.len() ==> precedes(names, query, count, #[trigger] order[k] as int),
    decreases upto,
{
    if upto == 0 {
        0
    } else if precedes(names, query, count, order[upto - 1] as int) {
        lemma_insertion_point(names, query, count, order, upto - 1)
    } else {
        assert forall|k: int| 0 <= k < upto implies !precedes(
            names,
            query,
            count,
            #[trigger] order[k] as int,
        ) by {
            if k < upto - 1 && precedes(names, query, count, order[k] as int) {
                lemma_precedes_transitive(
                    names,
                    query,
                    count,
                    order[k] as int,
                    order[upto - 1] as int,
                );
            }
        }
        upto
    }
}

/// The first `count` tracks can be ranked.
proof fn lemma_ranking_exists(names: Seq<Seq<char>>, query: Seq<char>, count: int) -> (order: Seq<
    usize,
>)
    requires
        0 <= count <= names.len() <= usize::MAX,
    ensures
        ranks_first(names, query, count, order),
    decreases count,
{
    if count == 0 {
        Seq::empty()
    } else {
        let last = count - 1;
        let order = lemma_ranking_exists(names, query, last);
        if score_of(names[last], query) is Some {
            let at = lemma_insertion_point(names, query, last, order, order.len() as int);
            lemma_ranking_insert(names, query, last, order, at);
            order.insert(at, last as usize)
        } else {
            order
        }
    }
}

/// Every search has a result.
pub proof fn playlist_exists(names: Seq<Seq<char>>, query: Seq<char>)
    requires
        names.len() <= usize::MAX,
    ensures
        is_playlist(names, query, playlist(names, query)),
{
    let order = if blank(query) {
        Seq::new(names.len(), |i: int| i as usize)
    } else {
        lemma_ranking_exists(names, query, names.len() as int)
    };
    assert(is_playlist(names, query, order));
}

/// A search lists only tracks that there are, each at most once, and exactly those
/// that match, all of them for a blank query.
pub proof fn playlist_members(names: Seq<Seq<char>>, query: Seq<char>)
    requires
        names.len() <= usize::MAX,
    ensures
        playlist(names, query).no_duplicates(),
        forall|i: usize| #[trigger]
            playlist(names, query).contains(i) <==> i < names.len() && (blank(query) || score_of(
                names[i as int],
                query,
            ) is Some),
{
    let order = playlist(names, query);
    playlist_exists(names, query);
    assert forall|a: int, b: int| 0 <= a < b < order.len() implies order[a] != order[b] by {
        if !blank(query) && order[a] == order[b] {
            lemma_precedes_asymmetric(names, query, order[a] as int, order[b] as int);
        }
    }
    assert forall|i: usize| #[trigger] order.contains(i) <==> i < names.len() && (blank(query)
        || score_of(names[i as int], query) is Some) by {
        if order.contains(i) {
            let k = choose|k: int| 0 <= k < order.len() && order[k] == i;
            assert(order[k] < names.len());
        }
        if i < names.len() && blank(query) {
            assert(order[i as int] == i);
        }
    }
}

/// Whether the positions `at` spell out `wanted` in `s`, one behind the other.
pub open spec fn spells(s: Seq<char>, wanted: Seq<char>, at: Seq<int>) -> bool {
    &&& at.len() == wanted.len()
    &&& forall|i: int| 0 <= i < at.len() ==> 0 <= #[trigger] at[i] < s.len() && s[at[i]] == wanted[i]
    &&& forall|i: int, j: int| 0 <= i < j < at.len() ==> at[i] < at[j]
}

/// What the search finds from `start` on it spells out from there on.
proof fn lemma_found_spells(s: Seq<char>, wanted: Seq<char>, start: int, last: Option<int>) -> (at: Seq<
    int,
>)
    requires
        points_from(s, wanted, start, last) is Some,
        start >= 0,
    ensures
        spells(s, wanted, at),
        at.len() > 0 ==> at[0] >= start,
    decreases wanted.len(),
{
    if wanted.len() == 0 {
        Seq::empty()
    } else {
        lemma_first_from(s, wanted[0], start);
        let first = first_from(s, wanted[0], start)->0;
        let rest = lemma_found_spells(s, wanted.drop_first(), first + 1, Some(first));
        let at = seq![first] + rest;
        assert forall|i: int| 0 <= i < at.len() implies 0 <= #[trigger] at[i] < s.len() && s[at[i]]
            == wanted[i] by {
            if i > 0 {
                assert(at[i] == rest[i - 1]);
                assert(wanted.drop_first()[i - 1] == wanted[i]);
            }
        }
        at
    }
}

/// What can be spelled out from `start` on the search finds.
proof fn lemma_spelled_found(
    s: Seq<char>,
    wanted: Seq<char>,
    start: int,
    last: Option<int>,
    at: Seq<int>,
)
    requires
        spells(s, wanted, at),
        at.len() > 0 ==> at[0] >= start,
        start >= 0,
    ensures
        points_from(s, wanted, start, last) is Some,
    decreases wanted.len(),
{
    if wanted.len() > 0 {
        lemma_first_from(s, wanted[0], start);
        assert(s[at[0]] == wanted[0]);
        let first = first_from(s, wanted[0], start)->0;
        let rest = at.drop_first();
        assert forall|i: int| 0 <= i < rest.len() implies 0 <= #[trigger] rest[i] < s.len()
            && s[rest[i]] == wanted.drop_first()[i] by {
            assert(rest[i] == at[i + 1]);
        }
        lemma_spelled_found(s, wanted.drop_first(), first + 1, Some(first), rest);
    }
}

/// A name matches a query if and only if the characters of the query that are not
/// white space can be picked out of the name in their order, in any case of the
/// ASCII letters.
pub proof fn match_is_subsequence(candidate: Seq<char>, query: Seq<char>)
    ensures
        score_of(candidate, query) is Some <==> exists|at: Seq<int>|
            spells(lowered(candidate), sought(query), at),
{
    let s = lowered(candidate);
    let wanted = sought(query);
    if points(candidate, query) is Some {
        let at = lemma_found_spells(s, wanted, 0, None);
        assert(spells(s, wanted, at));
    }
    if exists|at: Seq<int>| spells(s, wanted, at) {
        let at = choose|at: Seq<int>| spells(s, wanted, at);
        lemma_spelled_found(s, wanted, 0, None, at);
    }
}

/// The case of ASCII letters makes no difference to a score.
pub proof fn score_ignores_case(candidate: Seq<char>, query: Seq<char>)
    ensures
        score_of(lowered(candidate), lowered(query)) == score_of(candidate, query),
{
    assert(lowered(lowered(candidate)) =~= lowered(candidate));
    assert(lowered(lowered(query)) =~= lowered(query));
}

/// A blank query matches every name, with no points.
pub proof fn blank_query_scores_nothing(candidate: Seq<char>, query: Seq<char>)
    requires
        blank(query),
    ensures
        score_of(candidate, query) == Some(0usize),
{
    let low = lowered(query);
    assert forall|i: int| 0 <= i < low.len() implies whitespace(#[trigger] low[i]) by {
        assert(whitespace(query[i]));
    }
    lemma_filter_none(low);
}

/// Nothing of a blank text is looked for.
proof fn lemma_filter_none(s: Seq<char>)
    requires
        blank(s),
    ensures
        s.filter(|c: char| !whitespace(c)).len() == 0,
    decreases s.len(),
{
    reveal(Seq::filter);
    if s.len() > 0 {
        assert(whitespace(s[s.len() - 1]));
        assert forall|i: int| 0 <= i < s.drop_last().len() implies whitespace(
            #[trigger] s.drop_last()[i],
        ) by {
            assert(whitespace(s[i]));
        }
        lemma_filter_none(s.drop_last());
    }
}

/// Whether one track stands before another, by their scores and names.
fn stands_before(
    names: &Vec<Vec<char>>,
    scores: &Vec<usize>,
    i: usize,
    j: usize,
    Ghost(all): Ghost<Seq<Seq<char>>>,
    Ghost(query): Ghost<Seq<char>>,
) -> (yes: bool)
    requires
        i < names@.len(),
        j < names@.len(),
        names@.len() == scores@.len(),
        names@.len() <= all.len(),
        forall|k: int| 0 <= k < names@.len() ==> (#[trigger] names@[k])@ == all[k],
        score_of(all[i as int], query) == Some(scores@[i as int]),
        score_of(all[j as int], query) == Some(scores@[j as int]),
    ensures
        yes == precedes(all, query, i as int, j as int),
{
    assert(names@[i as int]@ == all[i as int]);
    assert(names@[j as int]@ == all[j as int]);
    if scores[i] != scores[j] {
        scores[i] > scores[j]
    } else if comes_before(&names[i], &names[j]) {
        true
    } else {
        i < j && same_text(&names[i], &names[j])
    }
}

/// Inserting the next track into a ranking before the tracks that it precedes and
/// behind the others gives a ranking.
proof fn lemma_ranking_insert(
    names: Seq<Seq<char>>,
    query: Seq<char>,
    count: int,
    order: Seq<usize>,
    at: int,
)
    requires
        0 <= count < names.len(),
        count <= usize::MAX,
        ranks_first(names, query, count, order),
        score_of(names[count], query) is Some,
        0 <= at <= order.len(),
        forall|k: int| 0 <= k < at ==> !precedes(names, query, count, #[trigger] order[k] as int),
        forall|k: int| at <= k < order.len() ==> precedes(names, query, count, #[trigger] order[k] as int),
    ensures
        ranks_first(names, query, count + 1, order.insert(at, count as usize)),
{
    let next = order.insert(at, count as usize);
    assert forall|a: int, b: int| 0 <= a < b < next.len() implies precedes(
        names,
        query,
        #[trigger] next[a] as int,
        #[trigger] next[b] as int,
    ) by {
        let pa = if a < at { a } else { a - 1 };
        let pb = if b < at { b } else { b - 1 };
        if a == at {
            assert(next[b] == order[pb]);
        } else if b == at {
            assert(next[a] == order[pa]);
            assert(order[pa] < count);
            lemma_precedes_total(names, query, order[pa] as int, count);
        } else {
            assert(next[a] == order[pa]);
            assert(next[b] == order[pb]);
        }
    }
    assert forall|a: int| 0 <= a < next.len() implies #[trigger] next[a] < count + 1 && score_of(
        names[next[a] as int],
        query,
    ) is Some by {
        if a != at {
            let pa = if a < at { a } else { a - 1 };
            assert(next[a] == order[pa]);
        }
    }
    assert forall|i: int|
        0 <= i < count + 1 && score_of(#[trigger] names[i], query) is Some implies next.contains(
        i as usize,
    ) by {
        if i == count {
            assert(next[at] == count as usize);
        } else {
            assert(order.contains(i as usize));
            let k = choose|k: int| 0 <= k < order.len() && order[k] == i as usize;
            if k < at {
                assert(next[k] == i as usize);
            } else {
                assert(next[k + 1] == i as usize);
            }
        }
    }
}

/// Whether `query` holds nothing but white space.
fn is_blank(query: &str) -> (yes: bool)
    ensures
        yes == blank(query@),
{
    for c in it: query.chars()
        invariant
            it.seq() == query@,
            forall|i: int| 0 <= i < it.index() ==> whitespace(#[trigger] query@[i]),
    {
        if !is_whitespace(c) {
            assert(!whitespace(query@[it.index() as int]));
            return false;
        }
    }
    true
}

/// The positions of the tracks that match `query`, best first: by descending score,
/// then by name, then by position. A blank query gives every track in its place.
pub fn fuzzy_track_indices(audio_files: &[TrackFile], query: &str) -> (order: Vec<usize>)
    ensures
        is_playlist(names_of(audio_files@), query@, order@),
        order@ == playlist(names_of(audio_files@), query@),
{
    let ghost all = names_of(audio_files@);
    let mut order: Vec<usize> = Vec::new();
    if is_blank(query) {
        for i in 0..audio_files.len()
            invariant
                order@ == Seq::new(i as nat, |k: int| k as usize),
        {
            order.push(i);
            assert(order@ =~= Seq::new((i + 1) as nat, |k: int| k as usize));
        }
        assert(is_playlist(all, query@, order@));
        proof {
            playlist_unique(all, query@, order@, playlist(all, query@));
        }
        return order;
    }
    let wanted = sought_chars(query);
    let mut names: Vec<Vec<char>> = Vec::new();
    let mut scores: Vec<usize> = Vec::new();
    for i in 0..audio_files.len()
        invariant
            all == names_of(audio_files@),
            wanted@ == sought(query@),
            names@.len() == i,
            scores@.len() == i,
            forall|k: int| 0 <= k < i ==> (#[trigger] names@[k])@ == all[k],
            forall|k: int|
                0 <= k < i && score_of(all[k], query@) is Some ==> score_of(all[k], query@) == Some(
                    #[trigger] scores@[k],
                ),
            ranks_first(all, query@, i as int, order@),
    {
        let name = display_name(&audio_files[i]);
        assert(name@ == all[i as int]);
        names.push(crate::text::chars_of(name.as_str()));
        let low = lower_chars(name.as_str());
        match score_match(&low, &wanted) {
            None => {
                scores.push(0);
            },
            Some(score) => {
                scores.push(score);
                assert forall|k: int| 0 <= k < order@.len() implies score_of(
                    all[#[trigger] order@[k] as int],
                    query@,
                ) == Some(scores@[order@[k] as int]) by {
                    assert(order@[k] < i);
                    let t = order@[k] as int;
                    assert(score_of(all[t], query@) is Some);
                }
                let mut low_end: usize = 0;
                let mut high_end: usize = order.len();
                while low_end < high_end
                    invariant
                        i < audio_files@.len(),
                        all == names_of(audio_files@),
                        names@.len() == i + 1,
                        scores@.len() == i + 1,
                        forall|k: int| 0 <= k <= i ==> (#[trigger] names@[k])@ == all[k],
                        score_of(all[i as int], query@) == Some(scores@[i as int]),
                        forall|k: int|
                            0 <= k < order@.len() ==> score_of(all[#[trigger] order@[k] as int], query@)
                                == Some(scores@[order@[k] as int]),
                        ranks_first(all, query@, i as int, order@),
                        low_end <= high_end <= order@.len(),
                        forall|k: int|
                            0 <= k < low_end ==> !precedes(
                                all,
                                query@,
                                i as int,
                                #[trigger] order@[k] as int,
                            ),
                        forall|k: int|
                            high_end <= k < order@.len() ==> precedes(
                                all,
                                query@,
                                i as int,
                                #[trigger] order@[k] as int,
                            ),
                    decreases high_end - low_end,
                {
                    let middle: usize = low_end + (high_end - low_end) / 2;
                    assert(order@[middle as int] < i);
                    if stands_before(&names, &scores, i, order[middle], Ghost(all), Ghost(query@)) {
                        assert forall|k: int| middle <= k < order@.len() implies precedes(
                            all,
                            query@,
                            i as int,
                            #[trigger] order@[k] as int,
                        ) by {
                            if k > middle {
                                lemma_precedes_transitive(
                                    all,
                                    query@,
                                    i as int,
                                    order@[middle as int] as int,
                                    order@[k] as int,
                                );
                            }
                        }
                        high_end = middle;
                    } else {
                        assert forall|k: int| 0 <= k <= middle implies !precedes(
                            all,
                            query@,
                            i as int,
                            #[trigger] order@[k] as int,
                        ) by {
                            if k < middle && precedes(all, query@, i as int, order@[k] as int) {
                                lemma_precedes_transitive(
                                    all,
                                    query@,
                                    i as int,
                                    order@[k] as int,
                                    order@[middle as int] as int,
                                );
                            }
                        }
                        low_end = middle + 1;
                    }
                }
                proof {
                    lemma_ranking_insert(all, query@, i as int, order@, low_end as int);
                }
                order.insert(low_end, i);
            },
        }
    }
    assert(is_playlist(all, query@, order@));
    proof {
        playlist_unique(all, query@, order@, playlist(all, query@));
    }
    order
}

/// A text is blank if and only if each of its characters is white space.
pub proof fn blank_is_white_space_only(s: Seq<char>, c: char)
    ensures
        blank(Seq::empty()),
        blank(s.push(c)) <==> blank(s) && whitespace(c),
{
    if blank(s.push(c)) {
        assert(s.push(c)[s.len() as int] == c);
        assert forall|i: int| 0 <= i < s.len() implies whitespace(#[trigger] s[i]) by {
            assert(s.push(c)[i] == s[i]);
        }
    }
}

/// Every character of a query that is not white space is looked for, lowered and in its
/// place; white space is not.
pub proof fn every_character_is_sought(query: Seq<char>, c: char)
    ensures
        sought(Seq::empty()) == Seq::<char>::empty(),
        whitespace(c) ==> sought(query.push(c)) == sought(query),
        !whitespace(c) ==> sought(query.push(c)) == sought(query).push(lower(c)),
{
    reveal(Seq::filter);
    let keep = |x: char| !whitespace(x);
    assert(lowered(Seq::empty()) =~= Seq::<char>::empty());
    assert(lowered(query.push(c)) =~= lowered(query).push(lower(c)));
    assert(lowered(query.push(c)).drop_last() =~= lowered(query));
    assert(whitespace(lower(c)) == whitespace(c));
}

/// A query finds what it found with more white space in it.
pub proof fn white_space_finds_the_same(candidate: Seq<char>, query: Seq<char>, c: char)
    requires
        whitespace(c),
    ensures
        score_of(candidate, query.push(c)) == score_of(candidate, query),
{
    every_character_is_sought(query, c);
}

/// A name that matches a longer query matches the query that it begins with.
pub proof fn longer_queries_match_less(candidate: Seq<char>, query: Seq<char>, c: char)
    requires
        score_of(candidate, query.push(c)) is Some,
    ensures
        score_of(candidate, query) is Some,
        whitespace(c) || lowered(candidate).contains(lower(c)),
{
    let s = lowered(candidate);
    every_character_is_sought(query, c);
    match_is_subsequence(candidate, query.push(c));
    match_is_subsequence(candidate, query);
    if !whitespace(c) {
        let at = choose|at: Seq<int>| spells(s, sought(query.push(c)), at);
        let init = at.drop_last();
        assert forall|i: int| 0 <= i < init.len() implies 0 <= #[trigger] init[i] < s.len()
            && s[init[i]] == sought(query)[i] by {
            assert(init[i] == at[i]);
            assert(sought(query.push(c))[i] == sought(query)[i]);
        }
        assert(spells(s, sought(query), init));
        assert(s[at[at.len() - 1]] == lower(c));
    }
}

/// A match is a separate word's beginning behind a space, a hyphen, an underscore, a full
/// stop or a slash, and behind nothing else.
pub proof fn words_begin_behind_separators(c: char)
    ensures
        separator(c) <==> (c == ' ' || c == '-' || c == '_' || c == '.' || c == '/'),
{
}

/// What a match is worth: ten points, eight more at the start, six more behind a
/// separator, and four more right behind the match before, if that is an ASCII character.
pub proof fn points_of_a_match(s: Seq<char>, at: int, last: Option<int>)
    requires
        0 <= at < s.len(),
        last matches Some(p) ==> 0 <= p < at,
    ensures
        match_points(s, at, last) == 10 + (if at == 0 {
            8int
        } else {
            0
        }) + (if at > 0 && separator(s[at - 1]) {
            6int
        } else {
            0
        }) + (if last == Some(at - 1) && s[at - 1] as u32 <= 0x7F {
            4int
        } else {
            0
        }),
{
    if let Some(p) = last {
        lemma_next_byte(s, p, at);
    }
}

/// Whether the positions `at` spell out `wanted` in `s`, each character at its first
/// occurrence behind the one before.
pub open spec fn spells_first(s: Seq<char>, wanted: Seq<char>, at: Seq<int>) -> bool {
    &&& spells(s, wanted, at)
    &&& forall|i: int, j: int|
        0 <= i < at.len() && 0 <= j < at[i] && (i > 0 ==> at[i - 1] < j) ==> #[trigger] s[j]
            != #[trigger] wanted[i]
}

/// What matches at the positions `at` are worth together.
pub open spec fn worth(s: Seq<char>, at: Seq<int>) -> nat
    decreases at.len(),
{
    if at.len() == 0 {
        0
    } else {
        worth(s, at.drop_last()) + match_points(
            s,
            at.last(),
            if at.len() > 1 {
                Some(at[at.len() - 2])
            } else {
                None
            },
        )
    }
}

/// What matches are worth that come behind `last`.
spec fn worth_behind(s: Seq<char>, at: Seq<int>, last: Option<int>) -> nat
    decreases at.len(),
{
    if at.len() == 0 {
        0
    } else {
        match_points(s, at[0], last) + worth_behind(s, at.drop_first(), Some(at[0]))
    }
}

/// One more match adds what it is worth.
proof fn lemma_worth_push(s: Seq<char>, at: Seq<int>, x: int, last: Option<int>)
    ensures
        worth_behind(s, at.push(x), last) == worth_behind(s, at, last) + match_points(
            s,
            x,
            if at.len() > 0 {
                Some(at.last())
            } else {
                last
            },
        ),
    decreases at.len(),
{
    if at.len() == 0 {
        assert(at.push(x).drop_first() =~= Seq::<int>::empty());
        assert(worth_behind(s, at.push(x).drop_first(), Some(x)) == 0);
    } else {
        assert(at.push(x).drop_first() =~= at.drop_first().push(x));
        lemma_worth_push(s, at.drop_first(), x, Some(at[0]));
    }
}

/// Matches are worth the same, counted from the front or from the back.
proof fn lemma_worth(s: Seq<char>, at: Seq<int>)
    ensures
        worth_behind(s, at, None) == worth(s, at),
    decreases at.len(),
{
    if at.len() > 0 {
        lemma_worth(s, at.drop_last());
        lemma_worth_push(s, at.drop_last(), at.last(), None);
        assert(at.drop_last().push(at.last()) =~= at);
    }
}

/// What is found from `start` on is what `at` says.
proof fn lemma_found_at(
    s: Seq<char>,
    wanted: Seq<char>,
    start: int,
    last: Option<int>,
    at: Seq<int>,
)
    requires
        0 <= start,
        spells(s, wanted, at),
        at.len() > 0 ==> at[0] >= start,
        forall|i: int, j: int|
            0 <= i < at.len() && (if i > 0 {
                at[i - 1] < j
            } else {
                start <= j
            }) && j < at[i] ==> #[trigger] s[j] != #[trigger] wanted[i],
    ensures
        points_from(s, wanted, start, last) == Some(worth_behind(s, at, last)),
    decreases wanted.len(),
{
    if wanted.len() > 0 {
        let first = at[0];
        let rest = at.drop_first();
        lemma_first_from(s, wanted[0], start);
        assert(s[first] == wanted[0]);
        let found = first_from(s, wanted[0], start);
        assert(found is Some);
        if found->0 < first {
            assert(s[found->0] != wanted[0]);
        }
        assert(found == Some(first));
        assert forall|i: int| 0 <= i < rest.len() implies 0 <= #[trigger] rest[i] < s.len()
            && s[rest[i]] == wanted.drop_first()[i] by {
            assert(rest[i] == at[i + 1]);
        }
        assert forall|i: int, j: int|
            0 <= i < rest.len() && (if i > 0 {
                rest[i - 1] < j
            } else {
                first + 1 <= j
            }) && j < rest[i] implies #[trigger] s[j] != #[trigger] wanted.drop_first()[i] by {
            assert(rest[i] == at[i + 1]);
            assert(wanted.drop_first()[i] == wanted[i + 1]);
            assert(at[(i + 1) - 1] < j);
        }
        lemma_found_at(s, wanted.drop_first(), first + 1, Some(first), rest);
    }
}

/// The score of a match is what the first occurrences of its characters, each behind the
/// one before, are worth together.
pub proof fn score_is_worth_of_first_matches(candidate: Seq<char>, query: Seq<char>, at: Seq<int>)
    requires
        spells_first(lowered(candidate), sought(query), at),
    ensures
        score_of(candidate, query) is Some,
        score_of(candidate, query)->0 == (if worth(lowered(candidate), at) <= usize::MAX {
            worth(lowered(candidate), at)
        } else {
            usize::MAX as nat
        }),
{
    let s = lowered(candidate);
    let wanted = sought(query);
    assert forall|i: int, j: int|
        0 <= i < at.len() && (if i > 0 {
            at[i - 1] < j
        } else {
            0 <= j
        }) && j < at[i] implies #[trigger] s[j] != #[trigger] wanted[i] by {
        assert(s[at[i]] == wanted[i]);
        if i > 0 {
            assert(0 <= at[i - 1]);
        }
    }
    lemma_found_at(s, wanted, 0, None, at);
    lemma_worth(s, at);
}

/// For a blank query every track is listed in its place.
pub proof fn blank_query_lists_everything(names: Seq<Seq<char>>, query: Seq<char>)
    requires
        names.len() <= usize::MAX,
        blank(query),
    ensures
        playlist(names, query).len() == names.len(),
        forall|i: int| 0 <= i < names.len() ==> #[trigger] playlist(names, query)[i] == i,
{
    playlist_exists(names, query);
}

/// What a search finds is ranked: a higher score comes first, with equal scores the name
/// that comes first in the order of strings, and with equal names too the track that
/// stands first.
pub proof fn better_matches_come_first(names: Seq<Seq<char>>, query: Seq<char>, a: int, b: int)
    requires
        names.len() <= usize::MAX,
        !blank(query),
        0 <= a < b < playlist(names, query).len(),
    ensures
        ({
            let i = playlist(names, query)[a] as int;
            let j = playlist(names, query)[b] as int;
            let x = score_of(names[i], query);
            let y = score_of(names[j], query);
            &&& x is Some && y is Some
            &&& x->0 >= y->0
            &&& x == y ==> names[i] == names[j] || lex_less(names[i], names[j])
            &&& x == y && names[i] == names[j] ==> i < j
        }),
{
    let order = playlist(names, query);
    playlist_exists(names, query);
    assert(precedes(names, query, order[a] as int, order[b] as int));
    assert(order[a] < names.len() && order[b] < names.len());
    crate::text::lemma_lex_irreflexive(names[order[a] as int]);
}

} // verus!
