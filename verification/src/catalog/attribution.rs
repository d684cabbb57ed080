use vstd::prelude::*;

use crate::text::{
    ascii_lowercase, chars_of, contains_seq, find_chars, is_first_of, parse_u32_chars, parse_u32_text,
    to_ascii_lowercase,
};

verus! {

/// The pieces of `s` between the separators `c`, as `str::split(c)` gives them.
pub open spec fn split_pieces(s: Seq<char>, c: char) -> Seq<Seq<char>>
    decreases s.len(),
{
    if exists|k: int| is_first_of(s, c, k) {
        let k = choose|k: int| is_first_of(s, c, k);
        seq![s.subrange(0, k)] + split_pieces(s.subrange(k + 1, s.len() as int), c)
    } else {
        seq![s]
    }
}

/// Splitting at the first separator takes the piece before it.
pub proof fn lemma_split_at(s: Seq<char>, c: char, k: int)
    requires
        is_first_of(s, c, k),
    ensures
        split_pieces(s, c) == seq![s.subrange(0, k)] + split_pieces(s.subrange(k + 1, s.len() as int), c),
{
    let j = choose|j: int| is_first_of(s, c, j);
    assert(j == k) by {
        if j < k {
            assert(s[j] == c);
        } else if j > k {
            assert(s[k] == c);
        }
    }
}

/// A text without the separator is one piece.
pub proof fn lemma_split_none(s: Seq<char>, c: char)
    requires
        forall|j: int| 0 <= j < s.len() ==> s[j] != c,
    ensures
        split_pieces(s, c) == seq![s],
{
    assert forall|j: int| !is_first_of(s, c, j) by {
        if 0 <= j < s.len() {
            assert(s[j] != c);
        }
    }
}

/// The number of bytes UTF-8 takes for `c`.
pub open spec fn utf8_width(c: char) -> nat {
    if (c as u32) < 0x80 {
        1
    } else if (c as u32) < 0x800 {
        2
    } else if (c as u32) < 0x10000 {
        3
    } else {
        4
    }
}

/// The number of bytes UTF-8 takes for `s`, as `str::len` counts them.
pub open spec fn utf8_len(s: Seq<char>) -> nat
    decreases s.len(),
{
    if s.len() == 0 {
        0
    } else {
        utf8_len(s.drop_last()) + utf8_width(s.last())
    }
}

/// How many of the id's '_'-separated tokens of at least four bytes occur in the summary.
pub open spec fn token_hits(tokens: Seq<Seq<char>>, summary: Seq<char>) -> nat
    decreases tokens.len(),
{
    if tokens.len() == 0 {
        0
    } else {
        token_hits(tokens.drop_last(), summary) + (if utf8_len(tokens.last()) >= 4 && contains_seq(summary, tokens.last()) {
            1nat
        } else {
            0nat
        })
    }
}

/// How well a capability id matches a (lower-case) journey summary: one point per token of the
/// id of at least four bytes found in the summary, and two more each for a firmware capability
/// with "firmware" in the summary and a flash capability with "install" in the summary.
pub open spec fn overlap_score(capability: Seq<char>, summary: Seq<char>) -> nat {
    token_hits(split_pieces(capability, '_'), summary) + (if contains_seq(summary, "firmware"@) && contains_seq(
        capability,
        "firmware"@,
    ) {
        2nat
    } else {
        0nat
    }) + (if contains_seq(summary, "install"@) && contains_seq(capability, "flash"@) {
        2nat
    } else {
        0nat
    })
}

/// Whether `hay[lo..hi]` is found in `text`.
fn range_in(text: &[char], hay: &[char], lo: usize, hi: usize) -> (found: bool)
    requires
        lo <= hi <= hay@.len(),
    ensures
        found == contains_seq(text@, hay@.subrange(lo as int, hi as int)),
{
    let mut piece: Vec<char> = Vec::new();
    let mut k: usize = lo;
    while k < hi
        invariant
            lo <= k <= hi <= hay@.len(),
            piece@ == hay@.subrange(lo as int, k as int),
        decreases hi - k,
    {
        piece.push(hay[k]);
        assert(piece@ =~= hay@.subrange(lo as int, k + 1));
        k += 1;
    }
    find_chars(text, &piece).is_some()
}

/// Whether `s[lo..hi]` takes at least four bytes in UTF-8.
fn utf8_at_least_four(s: &[char], lo: usize, hi: usize) -> (long: bool)
    requires
        lo <= hi <= s@.len(),
    ensures
        long == (utf8_len(s@.subrange(lo as int, hi as int)) >= 4),
{
    let mut n: usize = 0;
    let mut k: usize = lo;
    while k < hi
        invariant
            lo <= k <= hi <= s@.len(),
            n <= 4,
            n == (if utf8_len(s@.subrange(lo as int, k as int)) >= 4 { 4 } else { utf8_len(s@.subrange(lo as int, k as int)) }),
        decreases hi - k,
    {
        let c = s[k];
        let w: usize = if (c as u32) < 0x80 {
            1
        } else if (c as u32) < 0x800 {
            2
        } else if (c as u32) < 0x10000 {
            3
        } else {
            4
        };
        proof {
            assert(s@.subrange(lo as int, k + 1).drop_last() =~= s@.subrange(lo as int, k as int));
            assert(s@.subrange(lo as int, k + 1).last() == c);
        }
        n = if n + w >= 4 {
            4
        } else {
            n + w
        };
        k += 1;
    }
    n >= 4
}

/// Counts the token hit of `id[start..k]` and returns the score with it.
fn token_score(id: &[char], text: &[char], start: usize, k: usize) -> (hit: bool)
    requires
        start <= k <= id@.len(),
    ensures
        hit == (utf8_len(id@.subrange(start as int, k as int)) >= 4 && contains_seq(
            text@,
            id@.subrange(start as int, k as int),
        )),
{
    utf8_at_least_four(id, start, k) && range_in(text, id, start, k)
}

/// The overlap score of the id `id` with the summary `text`.
fn overlap_chars(id: &[char], text: &[char]) -> (score: usize)
    ensures
        score == overlap_score(id@, text@),
{
    let n = id.len();
    let mut score: usize = 0;
    let mut start: usize = 0;
    let mut k: usize = 0;
    let ghost mut done: Seq<Seq<char>> = Seq::empty();
    assert(id@.subrange(0, n as int) =~= id@);
    while k < n
        invariant
            start <= k <= n == id@.len(),
            split_pieces(id@, '_') == done + split_pieces(id@.subrange(start as int, n as int), '_'),
            forall|j: int| start <= j < k ==> id@[j] != '_',
            score == token_hits(done, text@),
            2 * score <= start,
        decreases n - k,
    {
        if id[k] == '_' {
            let ghost rest = id@.subrange(start as int, n as int);
            let ghost tok = id@.subrange(start as int, k as int);
            let hit = token_score(id, text, start, k);
            proof {
                if k == start {
                    assert(tok =~= Seq::<char>::empty());
                }
                assert(rest[k - start] == '_');
                assert forall|c: int| 0 <= c < k - start implies rest[c] != '_' by {
                    assert(rest[c] == id@[start + c]);
                }
                assert(is_first_of(rest, '_', k - start));
                lemma_split_at(rest, '_', k - start);
                assert(rest.subrange(0, k - start) =~= tok);
                assert(rest.subrange(k - start + 1, rest.len() as int) =~= id@.subrange(k + 1, n as int));
                assert(split_pieces(rest, '_') == seq![tok] + split_pieces(id@.subrange(k + 1, n as int), '_'));
                assert(done + split_pieces(rest, '_') =~= done.push(tok) + split_pieces(id@.subrange(k + 1, n as int), '_'));
                assert(done.push(tok).drop_last() =~= done);
            }
            if hit {
                score = score + 1;
            }
            proof {
                done = done.push(tok);
            }
            start = k + 1;
        }
        k += 1;
    }
    let ghost rest = id@.subrange(start as int, n as int);
    let ghost tok = id@.subrange(start as int, n as int);
    let hit = token_score(id, text, start, n);
    proof {
        if n == start {
            assert(tok =~= Seq::<char>::empty());
        }
        assert forall|c: int| 0 <= c < rest.len() implies rest[c] != '_' by {
            assert(rest[c] == id@[start + c]);
        }
        lemma_split_none(rest, '_');
        assert(done + seq![tok] =~= done.push(tok));
        assert(done.push(tok).drop_last() =~= done);
    }
    if hit {
        score = score + 1;
    }
    let summary_firmware = text_has(text, "firmware");
    let id_firmware = text_has(id, "firmware");
    let summary_install = text_has(text, "install");
    let id_flash = text_has(id, "flash");
    if summary_firmware && id_firmware {
        score = score + 2;
    }
    if summary_install && id_flash {
        score = score + 2;
    }
    score
}

/// How well a capability id matches a lower-case journey summary.
pub fn capability_summary_overlap(capability: &str, summary: &str) -> (score: usize)
    ensures
        score == overlap_score(capability@, summary@),
{
    let id = chars_of(capability);
    let text = chars_of(summary);
    overlap_chars(&id, &text)
}

/// Whether `text` contains `word`.
fn text_has(text: &[char], word: &str) -> (found: bool)
    ensures
        found == contains_seq(text@, word@),
{
    let w = chars_of(word);
    find_chars(text, &w).is_some()
}

/// Whether a (lower-case) journey summary fits a capability: the mDNS and flight-controller
/// detection capabilities by their own keywords, any other by a positive overlap score.
pub open spec fn summary_fits(capability: Seq<char>, summary: Seq<char>) -> bool {
    if capability == "advertise_mdns_domains"@ {
        contains_seq(summary, "mdns"@) || contains_seq(summary, "advertis"@) || contains_seq(summary, "hostname"@)
            || contains_seq(summary, "discover"@)
    } else if capability == "detect_flight_controllers"@ {
        contains_seq(summary, "detect"@) || contains_seq(summary, "discover"@) || contains_seq(
            summary,
            "connected board"@,
        )
    } else {
        overlap_score(capability, summary) > 0
    }
}

/// Whether a journey's summary fits a capability, the summary compared in ASCII lower case.
pub fn journey_summary_fits_capability(summary: &str, capability: &str) -> (fits: bool)
    ensures
        fits == summary_fits(capability@, ascii_lowercase(summary@)),
{
    let chars = chars_of(summary);
    let lower = to_ascii_lowercase(&chars);
    if crate::text::str_eq(capability, "advertise_mdns_domains") {
        text_has(&lower, "mdns") || text_has(&lower, "advertis") || text_has(&lower, "hostname") || text_has(&lower, "discover")
    } else if crate::text::str_eq(capability, "detect_flight_controllers") {
        text_has(&lower, "detect") || text_has(&lower, "discover") || text_has(&lower, "connected board")
    } else {
        let id = chars_of(capability);
        overlap_chars(&id, &lower) > 0
    }
}

/// `k` is the last candidate with the highest score (as `Iterator::max_by_key` picks it).
pub open spec fn is_last_max(scores: Seq<nat>, k: int) -> bool {
    &&& 0 <= k < scores.len()
    &&& forall|j: int| 0 <= j < scores.len() ==> #[trigger] scores[j] <= scores[k]
    &&& forall|j: int| k < j < scores.len() ==> #[trigger] scores[j] < scores[k]
}

/// The overlap scores of the candidates against a lower-case summary.
pub open spec fn candidate_scores(candidates: Seq<Seq<char>>, summary: Seq<char>) -> Seq<nat> {
    candidates.map_values(|c: Seq<char>| overlap_score(c, summary))
}

/// The views of a list of strings.
pub open spec fn string_views(v: Seq<String>) -> Seq<Seq<char>> {
    v.map_values(|s: String| s@)
}

/// The candidate with the best overlap with the summary (the last of equals), when its score is
/// positive.
pub open spec fn primary_of(candidates: Seq<Seq<char>>, summary: Seq<char>) -> Option<Seq<char>> {
    let scores = candidate_scores(candidates, ascii_lowercase(summary));
    if exists|k: int| is_last_max(scores, k) {
        let k = choose|k: int| is_last_max(scores, k);
        if scores[k] > 0 {
            Some(candidates[k])
        } else {
            None
        }
    } else {
        None
    }
}

/// The candidate capability that best overlaps the journey's summary, when any does.
pub fn select_primary_capability(summary: &str, candidates: &[String]) -> (primary: Option<String>)
    ensures
        match primary {
            Some(p) => primary_of(string_views(candidates@), summary@) == Some(p@),
            None => primary_of(string_views(candidates@), summary@) is None,
        },
{
    let ghost views = string_views(candidates@);
    let ghost lower_view = ascii_lowercase(summary@);
    let ghost scores = candidate_scores(views, lower_view);
    let chars = chars_of(summary);
    let lower = to_ascii_lowercase(&chars);
    if candidates.len() == 0 {
        proof {
            assert forall|k: int| !is_last_max(scores, k) by {}
        }
        return None;
    }
    let mut best: usize = 0;
    let first = chars_of(candidates[0].as_str());
    let mut best_score: usize = overlap_chars(&first, &lower);
    assert(scores[0] == best_score);
    let mut k: usize = 1;
    while k < candidates.len()
        invariant
            1 <= k <= candidates@.len(),
            best < k,
            views == string_views(candidates@),
            scores == candidate_scores(views, lower_view),
            lower@ == lower_view,
            best_score == scores[best as int],
            forall|j: int| 0 <= j < k ==> #[trigger] scores[j] <= best_score,
            forall|j: int| best < j < k ==> #[trigger] scores[j] < best_score,
        decreases candidates@.len() - k,
    {
        let candidate = chars_of(candidates[k].as_str());
        let score = overlap_chars(&candidate, &lower);
        assert(scores[k as int] == score);
        if score >= best_score {
            best = k;
            best_score = score;
        }
        k += 1;
    }
    proof {
        assert(is_last_max(scores, best as int));
        let c = choose|c: int| is_last_max(scores, c);
        assert(c == best) by {
            if c < best {
                assert(scores[best as int] < scores[c]);
            } else if c > best {
                assert(scores[c] < scores[best as int]);
            }
        }
    }
    if best_score > 0 {
        Some(candidates[best].clone())
    } else {
        None
    }
}

/// The capabilities a journey is attributed to: none when its references are unknown or empty;
/// its only reference when the summary fits it; else the primary candidate when the summary
/// fits it.
pub open spec fn attributions(summary: Seq<char>, refs: Option<Seq<Seq<char>>>) -> Seq<Seq<char>> {
    match refs {
        None => seq![],
        Some(items) => if items.len() == 0 {
            seq![]
        } else if items.len() == 1 {
            if summary_fits(items[0], ascii_lowercase(summary)) {
                seq![items[0]]
            } else {
                seq![]
            }
        } else {
            match primary_of(items, summary) {
                None => seq![],
                Some(p) => if summary_fits(p, ascii_lowercase(summary)) {
                    seq![p]
                } else {
                    seq![]
                },
            }
        },
    }
}

/// The capabilities a journey is attributed to, from its summary and its capability references
/// (`None` when they are not known).
pub fn capability_attributions_for_journey(summary: &str, refs: Option<&[String]>) -> (out: Vec<String>)
    ensures
        string_views(out@) == attributions(
            summary@,
            match refs {
                Some(r) => Some(string_views(r@)),
                None => None,
            },
        ),
{
    match refs {
        None => Vec::new(),
        Some(items) => {
            if items.len() == 0 {
                return Vec::new();
            }
            if items.len() == 1 {
                let mut out: Vec<String> = Vec::new();
                if journey_summary_fits_capability(summary, items[0].as_str()) {
                    out.push(items[0].clone());
                }
                assert(string_views(out@) =~= attributions(summary@, Some(string_views(items@))));
                return out;
            }
            let mut out: Vec<String> = Vec::new();
            if let Some(primary) = select_primary_capability(summary, items) {
                if journey_summary_fits_capability(summary, primary.as_str()) {
                    out.push(primary);
                }
            }
            assert(string_views(out@) =~= attributions(summary@, Some(string_views(items@))));
            out
        },
    }
}

/// The first capability a journey is attributed to.
pub fn primary_capability_for_journey(summary: &str, refs: Option<&[String]>) -> (primary: Option<String>)
    ensures
        ({
            let a = attributions(
                summary@,
                match refs {
                    Some(r) => Some(string_views(r@)),
                    None => None,
                },
            );
            match primary {
                Some(p) => a.len() > 0 && a[0] == p@,
                None => a.len() == 0,
            }
        }),
{
    let mut all = capability_attributions_for_journey(summary, refs);
    if all.len() == 0 {
        None
    } else {
        let first = all.remove(0);
        Some(first)
    }
}

/// The value of one '.'-separated part of a version tag, or `u32::MAX` when the part is missing
/// or is not a number.
pub open spec fn part_value(parts: Seq<Seq<char>>, i: int) -> u32 {
    if i < parts.len() && parse_u32_text(parts[i]) is Some {
        parse_u32_text(parts[i])->0
    } else {
        u32::MAX
    }
}

/// The sort key of an availability's first tag: major, minor, patch (each `u32::MAX` when
/// missing or not a number) and 0, after one leading 'v'; all `u32::MAX` without a tag.
pub open spec fn tag_key(first_tag: Option<Seq<char>>) -> (u32, u32, u32, u32) {
    match first_tag {
        None => (u32::MAX, u32::MAX, u32::MAX, u32::MAX),
        Some(tag) => {
            let base = if tag.len() > 0 && tag[0] == 'v' {
                tag.drop_first()
            } else {
                tag
            };
            let parts = split_pieces(base, '.');
            (part_value(parts, 0), part_value(parts, 1), part_value(parts, 2), 0)
        },
    }
}

/// The sort key of an availability, from its first tag.
pub fn availability_first_tag_key(first_tag: Option<&str>) -> (key: (u32, u32, u32, u32))
    ensures
        key == tag_key(
            match first_tag {
                Some(t) => Some(t@),
                None => None,
            },
        ),
{
    let tag = match first_tag {
        None => {
            return (u32::MAX, u32::MAX, u32::MAX, u32::MAX);
        },
        Some(t) => t,
    };
    let chars = chars_of(tag);
    let n = chars.len();
    let start: usize = if n > 0 && chars[0] == 'v' {
        1
    } else {
        0
    };
    let ghost base = chars@.subrange(start as int, n as int);
    proof {
        if start == 1 {
            assert(tag@.drop_first() =~= base);
        } else {
            assert(tag@ =~= base);
        }
    }
    let mut values: Vec<u32> = Vec::new();
    let mut lo: usize = start;
    let mut more = true;
    let ghost mut rest_parts: Seq<Seq<char>> = split_pieces(base, '.');
    let ghost mut seen: Seq<Seq<char>> = Seq::empty();
    while values.len() < 3 && more
        invariant
            start <= lo <= n == chars@.len(),
            values@.len() <= 3,
            base == chars@.subrange(start as int, n as int),
            more ==> rest_parts == split_pieces(chars@.subrange(lo as int, n as int), '.'),
            !more ==> rest_parts.len() == 0 && values@.len() >= 1,
            split_pieces(base, '.') == seen + rest_parts,
            seen.len() == values@.len(),
            forall|i: int| 0 <= i < values@.len() ==> #[trigger] values@[i] == part_value(split_pieces(base, '.'), i),
        decreases 3 - values@.len(),
    {
        let ghost rest = chars@.subrange(lo as int, n as int);
        let mut hi: usize = lo;
        while hi < n && chars[hi] != '.'
            invariant
                lo <= hi <= n == chars@.len(),
                forall|j: int| lo <= j < hi ==> chars@[j] != '.',
            decreases n - hi,
        {
            hi += 1;
        }
        let ghost piece = chars@.subrange(lo as int, hi as int);
        proof {
            if hi < n {
                assert(is_first_of(rest, '.', hi - lo));
                let c = choose|c: int| is_first_of(rest, '.', c);
                assert(c == hi - lo) by {
                    if c < hi - lo {
                        assert(rest[c] == chars@[lo + c]);
                    }
                }
                assert(rest.subrange(0, hi - lo) =~= piece);
                assert(rest.subrange(hi - lo + 1, rest.len() as int) =~= chars@.subrange(hi + 1, n as int));
            } else {
                assert forall|c: int| !is_first_of(rest, '.', c) by {
                    if 0 <= c < rest.len() {
                        assert(rest[c] == chars@[lo + c]);
                    }
                }
                assert(rest =~= piece);
            }
            assert(rest_parts[0] == piece);
            assert(split_pieces(base, '.')[seen.len() as int] == piece);
        }
        let value = match parse_u32_chars(&chars, lo, hi) {
            Some(v) => v,
            None => u32::MAX,
        };
        values.push(value);
        proof {
            seen = seen.push(piece);
            if hi < n {
                assert(rest_parts == seq![piece] + split_pieces(chars@.subrange(hi + 1, n as int), '.'));
                rest_parts = rest_parts.drop_first();
                assert(rest_parts =~= split_pieces(chars@.subrange(hi + 1, n as int), '.'));
            } else {
                assert(rest_parts =~= seq![piece]);
                rest_parts = rest_parts.drop_first();
                assert(rest_parts.len() == 0);
            }
            assert(split_pieces(base, '.') =~= seen + rest_parts);
        }
        if hi < n {
            lo = hi + 1;
        } else {
            lo = n;
            more = false;
        }
    }
    proof {
        let parts = split_pieces(base, '.');
        assert forall|i: int| values@.len() <= i < 3 implies part_value(parts, i) == u32::MAX by {
            assert(i >= parts.len());
        }
    }
    let major = values[0];
    let minor = if values.len() > 1 {
        values[1]
    } else {
        u32::MAX
    };
    let patch = if values.len() > 2 {
        values[2]
    } else {
        u32::MAX
    };
    (major, minor, patch, 0)
}

} // verus!
