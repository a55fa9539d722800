//! Track identifiers: the validity predicate and the two ways of dropping
//! duplicates.

use vstd::prelude::*;

verus! {

/// The namespace token that opens every track identifier.
pub const NAMESPACE: &'static str = "spotify";

/// The kind token of a track identifier.
pub const TRACK_KIND: &'static str = "track";

/// The text of [`NAMESPACE`].
pub open spec fn namespace_token() -> Seq<char> {
    NAMESPACE@
}

/// The text of [`TRACK_KIND`].
pub open spec fn kind_token() -> Seq<char> {
    TRACK_KIND@
}

/// Whether `c` carries the Unicode `White_Space` property.
pub open spec fn is_whitespace_char(c: char) -> bool {
    let n = c as u32;
    ||| 0x09 <= n <= 0x0D
    ||| n == 0x20
    ||| n == 0x85
    ||| n == 0xA0
    ||| n == 0x1680
    ||| 0x2000 <= n <= 0x200A
    ||| n == 0x2028
    ||| n == 0x2029
    ||| n == 0x202F
    ||| n == 0x205F
    ||| n == 0x3000
}

/// Position of the first `:` in `s`, or `s.len()` when there is none.
pub open spec fn first_colon(s: Seq<char>) -> nat
    decreases s.len(),
{
    if s.len() == 0 || s[0] == ':' {
        0
    } else {
        1 + first_colon(s.drop_first())
    }
}

/// The pieces of `s` between its colons, in order. A text with `n` colons has
/// `n + 1` pieces, some of which may be empty.
pub open spec fn segments(s: Seq<char>) -> Seq<Seq<char>>
    decreases s.len(),
{
    let k = first_colon(s) as int;
    if k >= s.len() {
        seq![s]
    } else {
        seq![s.take(k)] + segments(s.skip(k + 1))
    }
}

/// The pieces put together again, with a `:` between neighbours.
pub open spec fn joined(parts: Seq<Seq<char>>) -> Seq<char>
    decreases parts.len(),
{
    if parts.len() == 0 {
        Seq::empty()
    } else if parts.len() == 1 {
        parts[0]
    } else {
        parts[0] + seq![':'] + joined(parts.drop_first())
    }
}

/// `s` without its leading whitespace.
pub open spec fn trim_start(s: Seq<char>) -> Seq<char>
    decreases s.len(),
{
    if s.len() > 0 && is_whitespace_char(s[0]) {
        trim_start(s.drop_first())
    } else {
        s
    }
}

/// `s` without its trailing whitespace.
pub open spec fn trim_end(s: Seq<char>) -> Seq<char>
    decreases s.len(),
{
    if s.len() > 0 && is_whitespace_char(s.last()) {
        trim_end(s.drop_last())
    } else {
        s
    }
}

/// `s` without leading and trailing whitespace.
pub open spec fn trimmed(s: Seq<char>) -> Seq<char> {
    trim_end(trim_start(s))
}

/// Whether every character of `s` is whitespace.
pub open spec fn is_blank(s: Seq<char>) -> bool {
    forall|i: int| 0 <= i < s.len() ==> is_whitespace_char(#[trigger] s[i])
}

/// A well-formed track identifier: exactly three colon-separated pieces, the
/// namespace token, the kind token, and a local id that is not blank.
pub open spec fn is_track_uri(s: Seq<char>) -> bool {
    let parts = segments(s);
    &&& parts.len() == 3
    &&& parts[0] == namespace_token()
    &&& parts[1] == kind_token()
    &&& trimmed(parts[2]).len() > 0
}

/// The well-formed identifiers of `s`, in their order in `s`.
pub open spec fn valid_only(s: Seq<Seq<char>>) -> Seq<Seq<char>> {
    s.filter(|t: Seq<char>| is_track_uri(t))
}

/// `s` with every value kept at its first position and dropped at each later
/// one.
pub open spec fn first_occurrences<A>(s: Seq<A>) -> Seq<A>
    decreases s.len(),
{
    if s.len() == 0 {
        s
    } else {
        let kept = first_occurrences(s.drop_last());
        if s.drop_last().contains(s.last()) {
            kept
        } else {
            kept.push(s.last())
        }
    }
}

/// Position at which `x` first occurs in `s`, or `s.len()` when it does not
/// occur.
pub open spec fn first_index<A>(s: Seq<A>, x: A) -> nat
    decreases s.len(),
{
    if s.len() == 0 || s[0] == x {
        0
    } else {
        1 + first_index(s.drop_first(), x)
    }
}

/// Whether `c` is Unicode whitespace.
pub fn is_whitespace(c: char) -> (b: bool)
    ensures
        b == is_whitespace_char(c),
{
    let n: u32 = c as u32;
    (0x09 <= n && n <= 0x0D) || n == 0x20 || n == 0x85 || n == 0xA0 || n == 0x1680 || (0x2000 <= n
        && n <= 0x200A) || n == 0x2028 || n == 0x2029 || n == 0x202F || n == 0x205F || n == 0x3000
}

/// A colon-free `head` in front of `tail` moves the first colon by the length
/// of `head`.
proof fn lemma_first_colon_skips(head: Seq<char>, tail: Seq<char>)
    requires
        !head.contains(':'),
    ensures
        first_colon(head + tail) == head.len() + first_colon(tail),
    decreases head.len(),
{
    if head.len() > 0 {
        assert((head + tail).drop_first() =~= head.drop_first() + tail);
        lemma_first_colon_skips(head.drop_first(), tail);
    }
}

/// A text without a colon is its own single piece.
proof fn lemma_segments_plain(s: Seq<char>)
    requires
        !s.contains(':'),
    ensures
        segments(s) == seq![s],
{
    lemma_first_colon_skips(s, Seq::empty());
}

/// A colon right after a colon-free `head` closes the piece `head`.
proof fn lemma_segments_cut(head: Seq<char>, tail: Seq<char>)
    requires
        !head.contains(':'),
        tail.len() > 0,
        tail[0] == ':',
    ensures
        segments(head + tail) == seq![head] + segments(tail.drop_first()),
{
    lemma_first_colon_skips(head, tail);
    let k = head.len() as int;
    assert((head + tail).take(k) =~= head);
    assert((head + tail).skip(k + 1) =~= tail.drop_first());
}

/// Up to the position found there is no colon, and at it there is one.
proof fn lemma_first_colon(s: Seq<char>)
    ensures
        first_colon(s) <= s.len(),
        !s.take(first_colon(s) as int).contains(':'),
        first_colon(s) < s.len() ==> s[first_colon(s) as int] == ':',
    decreases s.len(),
{
    if s.len() > 0 && s[0] != ':' {
        let rest = s.drop_first();
        lemma_first_colon(rest);
        let k = first_colon(rest) as int;
        let head = s.take(k + 1);
        assert forall|i: int| 0 <= i < head.len() implies #[trigger] head[i] != ':' by {
            if i > 0 {
                assert(rest.take(k)[i - 1] == s[i]);
            }
        }
    }
}

/// Splitting loses nothing: there is at least one piece, no piece holds a
/// colon, and the pieces joined by colons are the text again.
pub proof fn lemma_segments_rejoin(s: Seq<char>)
    ensures
        segments(s).len() >= 1,
        forall|k: int| 0 <= k < segments(s).len() ==> !(#[trigger] segments(s)[k]).contains(':'),
        joined(segments(s)) == s,
    decreases s.len(),
{
    lemma_first_colon(s);
    let k = first_colon(s) as int;
    if k >= s.len() {
        assert(s.take(k) =~= s);
    } else {
        let rest = s.skip(k + 1);
        let parts = segments(s);
        lemma_segments_rejoin(rest);
        assert(parts.drop_first() =~= segments(rest));
    }
}

/// Splitting undoes joining: colon-free pieces that are joined and split again
/// come back as they were. With the law above, the pieces of a text are the
/// only colon-free pieces that join to it.
pub proof fn lemma_segments_of_joined(parts: Seq<Seq<char>>)
    requires
        parts.len() >= 1,
        forall|k: int| 0 <= k < parts.len() ==> !(#[trigger] parts[k]).contains(':'),
    ensures
        segments(joined(parts)) == parts,
    decreases parts.len(),
{
    if parts.len() == 1 {
        lemma_segments_plain(parts[0]);
    } else {
        let rest = parts.drop_first();
        lemma_segments_of_joined(rest);
        let tail = seq![':'] + joined(rest);
        lemma_segments_cut(parts[0], tail);
        assert(tail.drop_first() =~= joined(rest));
        assert(parts[0] + tail =~= joined(parts));
    }
}

/// Splits `uri` at every `:` and returns the pieces in order.
pub fn split_segments(uri: &str) -> (parts: Vec<Vec<char>>)
    ensures
        parts.deep_view() == segments(uri@),
{
    let mut done: Vec<Vec<char>> = Vec::new();
    let mut current: Vec<char> = Vec::new();
    assert(current@ + uri@.skip(0) =~= uri@);
    for c in it: uri.chars()
        invariant
            it.seq() == uri@,
            !current@.contains(':'),
            segments(uri@) == done.deep_view() + segments(current@ + uri@.skip(it.index() as int)),
    {
        let ghost at = it.index() as int;
        let ghost rest = uri@.skip(at);
        let ghost piece = current@;
        assert(rest.drop_first() =~= uri@.skip(at + 1));
        if c == ':' {
            proof {
                lemma_segments_cut(piece, rest);
                assert(current.deep_view() =~= piece);
            }
            done.push(current);
            current = Vec::new();
        } else {
            current.push(c);
            proof {
                assert(current@ + uri@.skip(at + 1) =~= piece + rest);
            }
        }
    }
    proof {
        lemma_segments_plain(current@);
        assert(current.deep_view() =~= current@);
    }
    done.push(current);
    done
}

proof fn lemma_trim_start_blank(s: Seq<char>)
    requires
        is_blank(s),
    ensures
        trim_start(s).len() == 0,
    decreases s.len(),
{
    if s.len() > 0 {
        lemma_trim_start_blank(s.drop_first());
    }
}

proof fn lemma_trim_start_visible(s: Seq<char>)
    requires
        !is_blank(s),
    ensures
        trim_start(s).len() > 0,
        !is_whitespace_char(trim_start(s)[0]),
    decreases s.len(),
{
    let i = choose|i: int| 0 <= i < s.len() && !is_whitespace_char(#[trigger] s[i]);
    if is_whitespace_char(s[0]) {
        assert(s.drop_first()[i - 1] == s[i]);
        lemma_trim_start_visible(s.drop_first());
    }
}

proof fn lemma_trim_end_visible(s: Seq<char>)
    requires
        s.len() > 0,
        !is_whitespace_char(s[0]),
    ensures
        trim_end(s).len() > 0,
    decreases s.len(),
{
    if is_whitespace_char(s.last()) {
        lemma_trim_end_visible(s.drop_last());
    }
}

/// Trimming leaves nothing exactly when the text is blank.
pub proof fn lemma_trimmed_empty_iff_blank(s: Seq<char>)
    ensures
        trimmed(s).len() == 0 <==> is_blank(s),
{
    if is_blank(s) {
        lemma_trim_start_blank(s);
    } else {
        lemma_trim_start_visible(s);
        lemma_trim_end_visible(trim_start(s));
    }
}

/// Whether `piece` spells exactly `word`.
fn piece_is(piece: &Vec<char>, word: &str) -> (same: bool)
    ensures
        same == (piece@ == word@),
{
    let mut at: usize = 0;
    for c in it: word.chars()
        invariant
            it.seq() == word@,
            at == it.index(),
            at <= piece@.len(),
            piece@.take(at as int) == word@.take(at as int),
    {
        if at >= piece.len() || piece[at] != c {
            return false;
        }
        at += 1;
    }
    assert(word@.take(at as int) =~= word@);
    assert(piece@.len() == at ==> piece@.take(at as int) =~= piece@);
    at == piece.len()
}

/// Whether trimming `piece` leaves at least one character.
fn has_visible_char(piece: &Vec<char>) -> (visible: bool)
    ensures
        visible == (trimmed(piece@).len() > 0),
{
    let mut at: usize = 0;
    while at < piece.len()
        invariant
            at <= piece@.len(),
            is_blank(piece@.take(at as int)),
        decreases piece@.len() - at,
    {
        if !is_whitespace(piece[at]) {
            proof {
                lemma_trimmed_empty_iff_blank(piece@);
            }
            return true;
        }
        at += 1;
    }
    proof {
        assert(piece@.take(at as int) =~= piece@);
        lemma_trimmed_empty_iff_blank(piece@);
    }
    false
}

/// Checks that `uri` is a well-formed track identifier.
///
/// The text is split at every `:`. It is accepted when there are exactly three
/// pieces, the first is `spotify`, the second is `track`, and the third still
/// has a character after leading and trailing whitespace is removed. The
/// comparison of the two tokens is exact, so another letter case is rejected.
pub fn is_valid_spotify_track_uri(uri: &str) -> (valid: bool)
    ensures
        valid == is_track_uri(uri@),
{
    let parts = split_segments(uri);
    if parts.len() != 3 {
        return false;
    }
    assert(parts.deep_view()[0] =~= parts[0]@);
    assert(parts.deep_view()[1] =~= parts[1]@);
    assert(parts.deep_view()[2] =~= parts[2]@);
    piece_is(&parts[0], NAMESPACE) && piece_is(&parts[1], TRACK_KIND) && has_visible_char(&parts[2])
}

/// Dropping later occurrences neither adds nor loses a value.
pub proof fn lemma_first_occurrences_same_values<A>(s: Seq<A>)
    ensures
        forall|x: A| first_occurrences(s).contains(x) <==> s.contains(x),
        first_occurrences(s).len() <= s.len(),
    decreases s.len(),
{
    if s.len() > 0 {
        let front = s.drop_last();
        let kept = first_occurrences(front);
        lemma_first_occurrences_same_values(front);
        assert forall|x: A| first_occurrences(s).contains(x) <==> s.contains(x) by {
            if s.contains(x) {
                let i = choose|i: int| 0 <= i < s.len() && s[i] == x;
                if i < front.len() {
                    assert(front[i] == x);
                    assert(front.contains(x));
                } else {
                    assert(x == s.last());
                }
            }
            if front.contains(x) {
                let i = choose|i: int| 0 <= i < front.len() && front[i] == x;
                assert(s[i] == x);
            }
            if kept.contains(x) && !front.contains(s.last()) {
                let i = choose|i: int| 0 <= i < kept.len() && kept[i] == x;
                assert(kept.push(s.last())[i] == x);
            }
            if !front.contains(s.last()) {
                assert(kept.push(s.last())[kept.len() as int] == s.last());
                if first_occurrences(s).contains(x) {
                    let i = choose|i: int|
                        0 <= i < first_occurrences(s).len() && first_occurrences(s)[i] == x;
                    if i < kept.len() {
                        assert(kept[i] == x);
                    }
                }
            }
        }
    }
}

/// What is left holds no value twice.
pub proof fn lemma_first_occurrences_no_duplicates<A>(s: Seq<A>)
    ensures
        first_occurrences(s).no_duplicates(),
    decreases s.len(),
{
    if s.len() > 0 {
        lemma_first_occurrences_no_duplicates(s.drop_last());
        lemma_first_occurrences_same_values(s.drop_last());
    }
}

/// A sequence that holds no value twice is left as it is.
pub proof fn lemma_first_occurrences_of_distinct<A>(s: Seq<A>)
    requires
        s.no_duplicates(),
    ensures
        first_occurrences(s) == s,
    decreases s.len(),
{
    if s.len() > 0 {
        let front = s.drop_last();
        lemma_first_occurrences_of_distinct(front);
    }
}

/// Dropping duplicates a second time changes nothing.
pub proof fn lemma_first_occurrences_idempotent<A>(s: Seq<A>)
    ensures
        first_occurrences(first_occurrences(s)) == first_occurrences(s),
{
    lemma_first_occurrences_no_duplicates(s);
    lemma_first_occurrences_of_distinct(first_occurrences(s));
}

/// How the first position of `x` changes when `y` is appended to `s`.
proof fn lemma_first_index_push<A>(s: Seq<A>, y: A, x: A)
    ensures
        s.contains(x) ==> first_index(s, x) < s.len() && first_index(s.push(y), x) == first_index(
            s,
            x,
        ),
        !s.contains(x) ==> first_index(s, x) == s.len(),
        !s.contains(x) && y == x ==> first_index(s.push(y), x) == s.len(),
    decreases s.len(),
{
    if s.len() > 0 {
        let rest = s.drop_first();
        assert(s.push(y).drop_first() =~= rest.push(y));
        lemma_first_index_push(rest, y, x);
        if s[0] != x && s.contains(x) {
            let i = choose|i: int| 0 <= i < s.len() && s[i] == x;
            assert(rest[i - 1] == x);
        }
    }
}

/// What is left stands in the order in which the values first occur: of two
/// kept values, the one kept earlier also occurs earlier in `s`.
pub proof fn lemma_first_occurrences_order<A>(s: Seq<A>, a: int, b: int)
    requires
        0 <= a < b < first_occurrences(s).len(),
    ensures
        first_index(s, first_occurrences(s)[a]) < first_index(s, first_occurrences(s)[b]),
    decreases s.len(),
{
    let front = s.drop_last();
    let kept = first_occurrences(front);
    assert(front.push(s.last()) =~= s);
    lemma_first_occurrences_same_values(front);
    lemma_first_index_push(front, s.last(), kept[a]);
    if b < kept.len() {
        lemma_first_index_push(front, s.last(), kept[b]);
        lemma_first_occurrences_order(front, a, b);
    } else {
        lemma_first_index_push(front, s.last(), s.last());
    }
}

/// Whether one of `items` has the text `wanted`.
fn holds_text(items: &Vec<String>, wanted: &String) -> (found: bool)
    ensures
        found == items.deep_view().contains(wanted@),
{
    let mut at: usize = 0;
    while at < items.len()
        invariant
            at <= items.len(),
            forall|i: int| 0 <= i < at ==> items.deep_view()[i] != wanted@,
        decreases items.len() - at,
    {
        if items[at] == *wanted {
            assert(items.deep_view()[at as int] == wanted@);
            return true;
        }
        at += 1;
    }
    false
}

/// Keeps the well-formed track identifiers of `tracks`, in their order.
pub fn filter_valid_track_uris(tracks: &[String]) -> (valid: Vec<String>)
    ensures
        valid.deep_view() == valid_only(tracks.deep_view()),
{
    let mut valid: Vec<String> = Vec::new();
    let ghost all = tracks.deep_view();
    let ghost accept = |t: Seq<char>| is_track_uri(t);
    for at in 0..tracks.len()
        invariant
            all == tracks.deep_view(),
            accept == (|t: Seq<char>| is_track_uri(t)),
            valid.deep_view() == all.take(at as int).filter(accept),
    {
        proof {
            assert(all.take(at + 1) =~= all.take(at as int).push(all[at as int]));
            Seq::lemma_filter_push(all.take(at as int), all[at as int], accept);
        }
        if is_valid_spotify_track_uri(tracks[at].as_str()) {
            valid.push(tracks[at].clone());
        }
    }
    assert(all.take(tracks.len() as int) =~= all);
    valid
}

/// Drops every later occurrence of a track, keeping the first ones in their
/// order.
pub fn deduplicate_tracks(tracks: Vec<String>) -> (unique: Vec<String>)
    ensures
        unique.deep_view() == first_occurrences(tracks.deep_view()),
        unique.deep_view().no_duplicates(),
        unique.deep_view().to_set() == tracks.deep_view().to_set(),
{
    let mut unique: Vec<String> = Vec::new();
    let ghost all = tracks.deep_view();
    for at in 0..tracks.len()
        invariant
            all == tracks.deep_view(),
            unique.deep_view() == first_occurrences(all.take(at as int)),
    {
        proof {
            assert(all.take(at + 1).drop_last() =~= all.take(at as int));
            lemma_first_occurrences_same_values(all.take(at as int));
        }
        if !holds_text(&unique, &tracks[at]) {
            unique.push(tracks[at].clone());
        }
    }
    proof {
        assert(all.take(tracks.len() as int) =~= all);
        lemma_first_occurrences_no_duplicates(all);
        lemma_first_occurrences_same_values(all);
        assert(unique.deep_view().to_set() =~= all.to_set());
    }
    unique
}

/// Keeps each track of `tracks` once. The order of the result is not part of
/// the contract.
pub fn deduplicate_unordered(tracks: Vec<String>) -> (unique: Vec<String>)
    ensures
        unique.deep_view().no_duplicates(),
        unique.deep_view().to_set() == tracks.deep_view().to_set(),
{
    deduplicate_tracks(tracks)
}

/// Keeps the well-formed track identifiers of `tracks`, each one once. The
/// order of the result is not part of the contract.
pub fn validate_and_deduplicate_tracks(tracks: Vec<String>) -> (unique: Vec<String>)
    ensures
        unique.deep_view().no_duplicates(),
        unique.deep_view().to_set() == valid_only(tracks.deep_view()).to_set(),
{
    let all = tracks.as_slice();
    let valid = filter_valid_track_uris(all);
    deduplicate_unordered(valid)
}

/// Every identifier that passes the filter is well formed.
pub proof fn lemma_valid_only_is_valid(s: Seq<Seq<char>>)
    ensures
        forall|i: int|
            0 <= i < valid_only(s).len() ==> is_track_uri(#[trigger] valid_only(s)[i]),
{
    let accept = |t: Seq<char>| is_track_uri(t);
    assert forall|i: int| 0 <= i < valid_only(s).len() implies is_track_uri(
        #[trigger] valid_only(s)[i],
    ) by {
        s.lemma_filter_pred(accept, i);
    }
}

/// A sequence of well-formed identifiers passes the filter whole.
pub proof fn lemma_valid_only_of_valid(s: Seq<Seq<char>>)
    requires
        forall|i: int| 0 <= i < s.len() ==> is_track_uri(#[trigger] s[i]),
    ensures
        valid_only(s) == s,
    decreases s.len(),
{
    let accept = |t: Seq<char>| is_track_uri(t);
    if s.len() == 0 {
        assert(s.filter(accept) =~= s) by {
            s.lemma_filter_len(accept);
        }
    } else {
        let front = s.drop_last();
        lemma_valid_only_of_valid(front);
        Seq::lemma_filter_push(front, s.last(), accept);
        assert(front.push(s.last()) =~= s);
    }
}

} // verus!
