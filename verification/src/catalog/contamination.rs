use vstd::prelude::*;

use crate::text::{
    CharClass, all_digits, ascii_lowercase, chars_of, contains_seq, digits_value, find_chars,
    first_run_text, is_alnum, range_eq, is_white_space, is_whitespace, lemma_first_run_absent,
    lemma_first_run_found, list_position, is_run_list, read_digits, occurs_at, runs, to_ascii_lowercase,
};

verus! {

/// The HTTP verbs that betray an implementation note.
pub open spec fn http_verbs() -> Seq<Seq<char>> {
    seq!["GET"@, "POST"@, "PUT"@, "DELETE"@, "PATCH"@, "HEAD"@, "OPTIONS"@]
}

/// Service ids made of several tokens, checked as substrings.
pub open spec fn multi_token_service_ids() -> Seq<Seq<char>> {
    seq![
        "ardupilot_manager"@,
        "bag_of_holding"@,
        "cable_guy"@,
        "disk_usage"@,
        "mavlink-camera-manager"@,
        "nmea_injector"@,
        "recorder_extractor"@,
        "user_terminal"@,
    ]
}

/// Service ids made of one token, checked as whole words.
pub open spec fn single_token_service_ids() -> Seq<Seq<char>> {
    seq![
        "bridget"@,
        "commander"@,
        "filebrowser"@,
        "iperf3"@,
        "kraken"@,
        "linux2rest"@,
        "mavlink2rest"@,
        "nginx"@,
        "pardal"@,
        "ttyd"@,
        "versionchooser"@,
        "zenohd"@,
    ]
}

/// The HTTP status codes that betray an implementation note.
pub open spec fn is_status_code(v: int) -> bool {
    v == 400 || v == 401 || v == 403 || v == 404 || v == 405 || v == 409 || v == 422 || v == 500
        || v == 502 || v == 503
}

fn http_verb_list() -> (list: Vec<&'static str>)
    ensures
        list@.len() == http_verbs().len(),
        forall|k: int| 0 <= k < list@.len() ==> #[trigger] list@[k]@ == http_verbs()[k],
{
    vec!["GET", "POST", "PUT", "DELETE", "PATCH", "HEAD", "OPTIONS"]
}

fn multi_token_list() -> (list: Vec<&'static str>)
    ensures
        list@.len() == multi_token_service_ids().len(),
        forall|k: int| 0 <= k < list@.len() ==> #[trigger] list@[k]@ == multi_token_service_ids()[k],
{
    vec![
        "ardupilot_manager",
        "bag_of_holding",
        "cable_guy",
        "disk_usage",
        "mavlink-camera-manager",
        "nmea_injector",
        "recorder_extractor",
        "user_terminal",
    ]
}

fn single_token_list() -> (list: Vec<&'static str>)
    ensures
        list@.len() == single_token_service_ids().len(),
        forall|k: int| 0 <= k < list@.len() ==> #[trigger] list@[k]@ == single_token_service_ids()[k],
{
    vec![
        "bridget",
        "commander",
        "filebrowser",
        "iperf3",
        "kraken",
        "linux2rest",
        "mavlink2rest",
        "nginx",
        "pardal",
        "ttyd",
        "versionchooser",
        "zenohd",
    ]
}

/// A token that is one of the HTTP verbs.
pub open spec fn is_http_verb(token: Seq<char>) -> bool {
    http_verbs().contains(token)
}

/// A token that is one of the single-token service ids.
pub open spec fn is_single_token_id(token: Seq<char>) -> bool {
    single_token_service_ids().contains(token)
}

/// A digit token that looks like a network port: four or five digits, in 1024..=65535, and not a
/// four-digit year between 1900 and 2100.
pub open spec fn is_likely_port(token: Seq<char>) -> bool {
    &&& 4 <= token.len() <= 5
    &&& all_digits(token)
    &&& 1024 <= digits_value(token) <= 65535
    &&& !(token.len() == 4 && 1900 <= digits_value(token) <= 2100)
}

/// A digit token that is an HTTP error status code.
pub open spec fn is_status_token(token: Seq<char>) -> bool {
    token.len() == 3 && all_digits(token) && is_status_code(digits_value(token))
}

/// The first word made of ASCII letters that is an HTTP verb.
pub open spec fn verb_contamination(text: Seq<char>) -> Option<Seq<char>> {
    first_run_text(text, CharClass::Alpha, |t: Seq<char>| is_http_verb(t))
}

/// The first ASCII-alphanumeric word of the lower-cased text that is a single-token service id.
pub open spec fn single_token_contamination(text: Seq<char>) -> Option<Seq<char>> {
    first_run_text(ascii_lowercase(text), CharClass::Alnum, |t: Seq<char>| is_single_token_id(t))
}

/// The first run of digits that looks like a port.
pub open spec fn port_contamination(text: Seq<char>) -> Option<Seq<char>> {
    first_run_text(text, CharClass::Digit, digit_pred(DigitCheck::Port))
}

/// The first run of digits that is an HTTP error status.
pub open spec fn status_contamination(text: Seq<char>) -> Option<Seq<char>> {
    first_run_text(text, CharClass::Digit, digit_pred(DigitCheck::Status))
}

/// The first word made of ASCII letters that is an HTTP verb, as `text.split(not ASCII letter)`
/// meets it.
fn find_http_verb_token(chars: &[char]) -> (found: Option<String>)
    ensures
        match verb_contamination(chars@) {
            Some(t) => found matches Some(f) && f@ == t,
            None => found is None,
        },
{
    let list = runs(chars, CharClass::Alpha);
    let verbs = http_verb_list();
    let ghost p = |t: Seq<char>| is_http_verb(t);
    let mut k: usize = 0;
    while k < list.len()
        invariant
            k <= list@.len(),
            p == (|t: Seq<char>| is_http_verb(t)),
            verbs@.len() == http_verbs().len(),
            forall|m: int| 0 <= m < verbs@.len() ==> #[trigger] verbs@[m]@ == http_verbs()[m],
            is_run_list(chars@, CharClass::Alpha, list@),
            forall|m: int| 0 <= m < k ==> !p(chars@.subrange(#[trigger] list@[m].0 as int, list@[m].1 as int)),
        decreases list@.len() - k,
    {
        let (lo, hi) = list[k];
        let ghost t = chars@.subrange(lo as int, hi as int);
        match list_position(chars, lo, hi, verbs.as_slice()) {
            Some(m) => {
                proof {
                    assert(http_verbs()[m as int] == t);
                    assert(p(t));
                    lemma_first_run_found(chars@, CharClass::Alpha, p, list@, k as int);
                }
                return Some(String::from_str(verbs[m]));
            },
            None => {
                proof {
                    if http_verbs().contains(t) {
                        let m = choose|m: int| 0 <= m < http_verbs().len() && http_verbs()[m] == t;
                        assert(verbs@[m]@ == t);
                    }
                }
            },
        }
        k += 1;
    }
    proof {
        lemma_first_run_absent(chars@, CharClass::Alpha, p, list@);
    }
    None
}

/// The first ASCII-alphanumeric word of the lower-cased text that is a single-token service id.
fn find_single_token_service_id(chars: &[char]) -> (found: Option<String>)
    ensures
        match single_token_contamination(chars@) {
            Some(t) => found matches Some(f) && f@ == t,
            None => found is None,
        },
{
    let lower = to_ascii_lowercase(chars);
    let list = runs(&lower, CharClass::Alnum);
    let ids = single_token_list();
    let ghost p = |t: Seq<char>| is_single_token_id(t);
    let mut k: usize = 0;
    while k < list.len()
        invariant
            k <= list@.len(),
            p == (|t: Seq<char>| is_single_token_id(t)),
            lower@ == ascii_lowercase(chars@),
            ids@.len() == single_token_service_ids().len(),
            forall|m: int| 0 <= m < ids@.len() ==> #[trigger] ids@[m]@ == single_token_service_ids()[m],
            is_run_list(lower@, CharClass::Alnum, list@),
            forall|m: int| 0 <= m < k ==> !p(lower@.subrange(#[trigger] list@[m].0 as int, list@[m].1 as int)),
        decreases list@.len() - k,
    {
        let (lo, hi) = list[k];
        let ghost t = lower@.subrange(lo as int, hi as int);
        match list_position(&lower, lo, hi, ids.as_slice()) {
            Some(m) => {
                proof {
                    assert(single_token_service_ids()[m as int] == t);
                    assert(p(t));
                    lemma_first_run_found(lower@, CharClass::Alnum, p, list@, k as int);
                }
                return Some(String::from_str(ids[m]));
            },
            None => {
                proof {
                    if single_token_service_ids().contains(t) {
                        let m = choose|m: int| 0 <= m < single_token_service_ids().len() && single_token_service_ids()[m] == t;
                        assert(ids@[m]@ == t);
                    }
                }
            },
        }
        k += 1;
    }
    proof {
        lemma_first_run_absent(lower@, CharClass::Alnum, p, list@);
    }
    None
}

/// The two kinds of digit tokens the lint looks for.
#[derive(Clone, Copy, Debug, PartialEq, Eq, Structural)]
pub enum DigitCheck {
    Port,
    Status,
}

pub open spec fn digit_pred(check: DigitCheck) -> spec_fn(Seq<char>) -> bool {
    match check {
        DigitCheck::Port => |t: Seq<char>| is_likely_port(t),
        DigitCheck::Status => |t: Seq<char>| is_status_token(t),
    }
}

pub fn is_likely_port_token(chars: &[char], lo: usize, hi: usize) -> (port: bool)
    requires
        lo <= hi <= chars@.len(),
    ensures
        port == is_likely_port(chars@.subrange(lo as int, hi as int)),
{
    let len = hi - lo;
    if len < 4 || len > 5 {
        return false;
    }
    match read_digits(chars, lo, hi) {
        None => false,
        Some(None) => false,
        Some(Some(port)) => {
            if !(1024 <= port && port <= 65535) {
                return false;
            }
            !(len == 4 && 1900 <= port && port <= 2100)
        },
    }
}

fn is_status_code_token(chars: &[char], lo: usize, hi: usize) -> (status: bool)
    requires
        lo <= hi <= chars@.len(),
    ensures
        status == is_status_token(chars@.subrange(lo as int, hi as int)),
{
    if hi - lo != 3 {
        return false;
    }
    match read_digits(chars, lo, hi) {
        None => false,
        Some(None) => false,
        Some(Some(v)) => v == 400 || v == 401 || v == 403 || v == 404 || v == 405 || v == 409 || v
            == 422 || v == 500 || v == 502 || v == 503,
    }
}

/// The first run of digits that `check` accepts.
fn find_digit_token(text: &str, chars: &[char], check: DigitCheck) -> (found: Option<String>)
    requires
        chars@ == text@,
    ensures
        match first_run_text(chars@, CharClass::Digit, digit_pred(check)) {
            Some(t) => found matches Some(f) && f@ == t,
            None => found is None,
        },
{
    let list = runs(chars, CharClass::Digit);
    let ghost p = digit_pred(check);
    let mut k: usize = 0;
    while k < list.len()
        invariant
            k <= list@.len(),
            p == digit_pred(check),
            chars@ == text@,
            is_run_list(chars@, CharClass::Digit, list@),
            forall|m: int| 0 <= m < k ==> !p(chars@.subrange(#[trigger] list@[m].0 as int, list@[m].1 as int)),
        decreases list@.len() - k,
    {
        let (lo, hi) = list[k];
        proof {
            assert(crate::text::is_run(chars@, CharClass::Digit, list@[k as int].0 as int, list@[k as int].1 as int));
        }
        let accepted = match check {
            DigitCheck::Port => is_likely_port_token(chars, lo, hi),
            DigitCheck::Status => is_status_code_token(chars, lo, hi),
        };
        if accepted {
            proof {
                lemma_first_run_found(chars@, CharClass::Digit, p, list@, k as int);
            }
            return Some(String::from_str(text.substring_char(lo, hi)));
        }
        k += 1;
    }
    proof {
        lemma_first_run_absent(chars@, CharClass::Digit, p, list@);
    }
    None
}

/// A character that can continue a service id.
pub open spec fn is_service_id_char(c: char) -> bool {
    is_alnum(c) || c == '_' || c == '-'
}

/// `p` is the first position at which `needle` occurs in `hay`.
pub open spec fn is_first_occurrence(hay: Seq<char>, needle: Seq<char>, p: int) -> bool {
    occurs_at(hay, needle, p) && forall|j: int| 0 <= j < p ==> !occurs_at(hay, needle, j)
}

/// The first occurrence of a multi-token id in the lower-cased text stands as a whole word: the
/// characters around it cannot continue a service id. Later occurrences are not looked at.
pub open spec fn multi_token_hit(lower: Seq<char>, id: Seq<char>) -> bool {
    exists|p: int| #[trigger] is_first_occurrence(lower, id, p) && (p == 0 || !is_service_id_char(lower[p - 1]))
        && (p + id.len() == lower.len() || !is_service_id_char(lower[p + id.len()]))
}

/// `k` is the first multi-token id, in list order, that hits.
pub open spec fn is_first_multi_hit(lower: Seq<char>, k: int) -> bool {
    &&& 0 <= k < multi_token_service_ids().len()
    &&& multi_token_hit(lower, multi_token_service_ids()[k])
    &&& forall|j: int| 0 <= j < k ==> !multi_token_hit(lower, multi_token_service_ids()[j])
}

/// The first multi-token service id, in list order, that stands as a whole word in the text.
pub open spec fn multi_token_contamination(text: Seq<char>) -> Option<Seq<char>> {
    let lower = ascii_lowercase(text);
    if exists|k: int| is_first_multi_hit(lower, k) {
        Some(multi_token_service_ids()[choose|k: int| is_first_multi_hit(lower, k)])
    } else {
        None
    }
}

fn service_id_char(c: char) -> (b: bool)
    ensures
        b == is_service_id_char(c),
{
    ('a' <= c && c <= 'z') || ('A' <= c && c <= 'Z') || ('0' <= c && c <= '9') || c == '_' || c == '-'
}

fn find_multi_token_service_id(chars: &[char]) -> (found: Option<String>)
    ensures
        match multi_token_contamination(chars@) {
            Some(t) => found matches Some(f) && f@ == t,
            None => found is None,
        },
{
    let lower = to_ascii_lowercase(chars);
    let ids = multi_token_list();
    let n = lower.len();
    let mut k: usize = 0;
    while k < ids.len()
        invariant
            k <= ids@.len(),
            n == lower@.len(),
            lower@ == ascii_lowercase(chars@),
            ids@.len() == multi_token_service_ids().len(),
            forall|m: int| 0 <= m < ids@.len() ==> #[trigger] ids@[m]@ == multi_token_service_ids()[m],
            forall|m: int| 0 <= m < k ==> !multi_token_hit(lower@, #[trigger] multi_token_service_ids()[m]),
        decreases ids@.len() - k,
    {
        let id = chars_of(ids[k]);
        let ghost idv = multi_token_service_ids()[k as int];
        assert(id@ == idv);
        match find_chars(&lower, &id) {
            Some(p) => {
                let end = p + id.len();
                let before_ok = p == 0 || !service_id_char(lower[p - 1]);
                let after_ok = end == n || !service_id_char(lower[end]);
                if before_ok && after_ok {
                    proof {
                        assert(is_first_occurrence(lower@, idv, p as int));
                        assert(multi_token_hit(lower@, idv));
                        assert(is_first_multi_hit(lower@, k as int));
                        let c = choose|c: int| is_first_multi_hit(lower@, c);
                        assert(c == k);
                    }
                    return Some(String::from_str(ids[k]));
                }
                proof {
                    assert forall|q: int| #[trigger] is_first_occurrence(lower@, idv, q) implies q == p by {
                        if q < p {
                            assert(!occurs_at(lower@, id@, q));
                        } else if q > p {
                            assert(occurs_at(lower@, id@, p as int));
                        }
                    }
                }
            },
            None => {
                proof {
                    assert forall|q: int| !(#[trigger] is_first_occurrence(lower@, idv, q)) by {
                        if occurs_at(lower@, idv, q) {
                            assert(contains_seq(lower@, id@));
                        }
                    }
                }
            },
        }
        k += 1;
    }
    proof {
        assert forall|c: int| !is_first_multi_hit(lower@, c) by {
            if 0 <= c < multi_token_service_ids().len() {
                assert(!multi_token_hit(lower@, multi_token_service_ids()[c]));
            }
        }
    }
    None
}

/// A character that ends a route path in prose.
pub open spec fn is_path_terminator(c: char) -> bool {
    is_white_space(c) || c == ',' || c == ';' || c == ')'
}

/// `e` is the first path terminator at or after `idx`.
pub open spec fn is_first_terminator(s: Seq<char>, idx: int, e: int) -> bool {
    &&& idx <= e < s.len()
    &&& is_path_terminator(s[e])
    &&& forall|j: int| idx <= j < e ==> !is_path_terminator(s[j])
}

/// Where the path starting at `idx` ends: at the first terminator, or at the end of the text.
pub open spec fn path_end(s: Seq<char>, idx: int) -> int {
    if exists|e: int| is_first_terminator(s, idx, e) {
        choose|e: int| is_first_terminator(s, idx, e)
    } else {
        s.len() as int
    }
}

/// The path that starts at `idx`.
pub open spec fn path_at(s: Seq<char>, idx: int) -> Seq<char> {
    s.subrange(idx, path_end(s, idx))
}

/// `s` starts with `prefix`.
pub open spec fn starts_with(s: Seq<char>, prefix: Seq<char>) -> bool {
    prefix.len() <= s.len() && s.subrange(0, prefix.len() as int) == prefix
}

/// A path on the host's file system rather than an HTTP route.
pub open spec fn is_host_filesystem_path(path: Seq<char>) -> bool {
    ||| starts_with(path, "/etc/"@)
    ||| starts_with(path, "/home/"@)
    ||| starts_with(path, "/usr/"@)
    ||| starts_with(path, "/root/"@)
    ||| starts_with(path, "/dev/"@)
    ||| starts_with(path, "/var/"@)
}

/// A '/' at `idx` that starts a word and begins a route path: longer than "/" and not a host path.
pub open spec fn route_hit(s: Seq<char>, idx: int) -> bool {
    &&& 0 <= idx < s.len()
    &&& s[idx] == '/'
    &&& (idx == 0 || !is_alnum(s[idx - 1]))
    &&& path_at(s, idx).len() > 1
    &&& !is_host_filesystem_path(path_at(s, idx))
}

/// `idx` is the first route hit.
pub open spec fn is_first_route_hit(s: Seq<char>, idx: int) -> bool {
    route_hit(s, idx) && forall|j: int| 0 <= j < idx ==> !route_hit(s, j)
}

/// The first route path in the text.
pub open spec fn route_contamination(s: Seq<char>) -> Option<Seq<char>> {
    if exists|idx: int| is_first_route_hit(s, idx) {
        Some(path_at(s, choose|idx: int| is_first_route_hit(s, idx)))
    } else {
        None
    }
}

fn prefix_at(chars: &[char], lo: usize, hi: usize, prefix: &str) -> (found: bool)
    requires
        lo <= hi <= chars@.len(),
    ensures
        found == starts_with(chars@.subrange(lo as int, hi as int), prefix@),
{
    let p = chars_of(prefix);
    if p.len() > hi - lo {
        return false;
    }
    let r = range_eq(chars, lo, lo + p.len(), &p);
    proof {
        assert(chars@.subrange(lo as int, hi as int).subrange(0, p@.len() as int) =~= chars@.subrange(
            lo as int,
            lo + p@.len(),
        ));
    }
    r
}

pub fn is_host_path(chars: &[char], lo: usize, hi: usize) -> (host: bool)
    requires
        lo <= hi <= chars@.len(),
    ensures
        host == is_host_filesystem_path(chars@.subrange(lo as int, hi as int)),
{
    prefix_at(chars, lo, hi, "/etc/") || prefix_at(chars, lo, hi, "/home/") || prefix_at(chars, lo, hi, "/usr/")
        || prefix_at(chars, lo, hi, "/root/") || prefix_at(chars, lo, hi, "/dev/") || prefix_at(
        chars,
        lo,
        hi,
        "/var/",
    )
}

/// The end of the path starting at `idx`.
fn find_path_end(chars: &[char], idx: usize) -> (end: usize)
    requires
        idx < chars@.len(),
    ensures
        end == path_end(chars@, idx as int),
        idx <= end <= chars@.len(),
{
    let n = chars.len();
    let mut e: usize = idx;
    while e < n
        invariant
            n == chars@.len(),
            idx <= e <= n,
            forall|j: int| idx <= j < e ==> !is_path_terminator(chars@[j]),
        decreases n - e,
    {
        let c = chars[e];
        if is_whitespace(c) || c == ',' || c == ';' || c == ')' {
            proof {
                assert(is_first_terminator(chars@, idx as int, e as int));
                let f = choose|f: int| is_first_terminator(chars@, idx as int, f);
                assert(f == e) by {
                    if f < e {
                        assert(!is_path_terminator(chars@[f]));
                    } else if f > e {
                        assert(is_path_terminator(chars@[e as int]));
                    }
                }
            }
            return e;
        }
        e += 1;
    }
    proof {
        assert forall|f: int| !is_first_terminator(chars@, idx as int, f) by {
            if idx <= f < n {
                assert(!is_path_terminator(chars@[f]));
            }
        }
    }
    n
}

fn find_route_path_contamination(text: &str, chars: &[char]) -> (found: Option<String>)
    requires
        chars@ == text@,
    ensures
        match route_contamination(chars@) {
            Some(t) => found matches Some(f) && f@ == t,
            None => found is None,
        },
{
    let n = chars.len();
    let mut idx: usize = 0;
    while idx < n
        invariant
            n == chars@.len(),
            chars@ == text@,
            idx <= n,
            forall|j: int| 0 <= j < idx ==> !route_hit(chars@, j),
        decreases n - idx,
    {
        if chars[idx] == '/' && (idx == 0 || !(('a' <= chars[idx - 1] && chars[idx - 1] <= 'z') || ('A'
            <= chars[idx - 1] && chars[idx - 1] <= 'Z') || ('0' <= chars[idx - 1] && chars[idx - 1]
            <= '9'))) {
            let end = find_path_end(chars, idx);
            if end - idx > 1 && !is_host_path(chars, idx, end) {
                proof {
                    assert(route_hit(chars@, idx as int));
                    assert(is_first_route_hit(chars@, idx as int));
                    let f = choose|f: int| is_first_route_hit(chars@, f);
                    assert(f == idx) by {
                        if f > idx {
                            assert(!route_hit(chars@, idx as int));
                        }
                    }
                }
                return Some(String::from_str(text.substring_char(idx, end)));
            }
        }
        idx += 1;
    }
    proof {
        assert forall|f: int| !is_first_route_hit(chars@, f) by {
            if 0 <= f < n {
                assert(!route_hit(chars@, f));
            }
        }
    }
    None
}

/// What betrays an implementation note in a statement, checked in this order: an HTTP verb, a
/// route path, a multi-token service id, a single-token service id, a port, an HTTP error status.
pub open spec fn contamination(text: Seq<char>) -> Option<Seq<char>> {
    if verb_contamination(text) is Some {
        verb_contamination(text)
    } else if route_contamination(text) is Some {
        route_contamination(text)
    } else if multi_token_contamination(text) is Some {
        multi_token_contamination(text)
    } else if single_token_contamination(text) is Some {
        single_token_contamination(text)
    } else if port_contamination(text) is Some {
        port_contamination(text)
    } else {
        status_contamination(text)
    }
}

/// The first piece of text that betrays an implementation note, if any.
pub fn find_contamination(text: &str) -> (found: Option<String>)
    ensures
        match contamination(text@) {
            Some(t) => found matches Some(f) && f@ == t,
            None => found is None,
        },
{
    let chars = chars_of(text);
    if let Some(verb) = find_http_verb_token(&chars) {
        return Some(verb);
    }
    if let Some(path) = find_route_path_contamination(text, &chars) {
        return Some(path);
    }
    if let Some(service) = find_multi_token_service_id(&chars) {
        return Some(service);
    }
    if let Some(service) = find_single_token_service_id(&chars) {
        return Some(service);
    }
    if let Some(port) = find_digit_token(text, &chars, DigitCheck::Port) {
        return Some(port);
    }
    find_digit_token(text, &chars, DigitCheck::Status)
}

} // verus!
