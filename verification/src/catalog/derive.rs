use vstd::prelude::*;

use crate::text::chars_of;

verus! {

/// The character an id keeps for a path character: '/', '?', '&' and '=' become '_'.
pub open spec fn id_char(c: char) -> char {
    if c == '/' || c == '?' || c == '&' || c == '=' {
        '_'
    } else {
        c
    }
}

/// `s` without its leading `c` characters, as `str::trim_start_matches(c)` gives it.
pub open spec fn strip_leading(s: Seq<char>, c: char) -> Seq<char>
    decreases s.len(),
{
    if s.len() > 0 && s[0] == c {
        strip_leading(s.drop_first(), c)
    } else {
        s
    }
}

/// A route path as it stands in a requirement id: leading slashes dropped, and each '/', '?',
/// '&' and '=' turned into '_'.
pub open spec fn sanitized_path(path: Seq<char>) -> Seq<char> {
    strip_leading(path, '/').map_values(|c: char| id_char(c))
}

proof fn lemma_strip_leading_at(s: Seq<char>, c: char, k: int)
    requires
        0 <= k <= s.len(),
        forall|j: int| 0 <= j < k ==> s[j] == c,
        k == s.len() || s[k] != c,
    ensures
        strip_leading(s, c) == s.subrange(k, s.len() as int),
    decreases k,
{
    if k == 0 {
        assert(s.subrange(0, s.len() as int) =~= s);
    } else {
        lemma_strip_leading_at(s.drop_first(), c, k - 1);
        assert(s.drop_first().subrange(k - 1, s.len() - 1) =~= s.subrange(k, s.len() as int));
    }
}

/// A route path as it stands in a requirement id.
pub fn sanitize_path_for_id(path: &str) -> (id: String)
    ensures
        id@ == sanitized_path(path@),
{
    let chars = chars_of(path);
    let n = chars.len();
    let mut start: usize = 0;
    while start < n && chars[start] == '/'
        invariant
            start <= n == chars@.len(),
            forall|j: int| 0 <= j < start ==> chars@[j] == '/',
        decreases n - start,
    {
        start += 1;
    }
    proof {
        lemma_strip_leading_at(chars@, '/', start as int);
    }
    let ghost rest = chars@.subrange(start as int, n as int);
    let ghost target = rest.map_values(|c: char| id_char(c));
    let mut out = String::new();
    let mut run: usize = start;
    let mut k: usize = start;
    proof {
        reveal_strlit("_");
    }
    while k < n
        invariant
            start <= run <= k <= n == chars@.len(),
            chars@ == path@,
            rest == chars@.subrange(start as int, n as int),
            target == rest.map_values(|c: char| id_char(c)),
            out@ + chars@.subrange(run as int, k as int) == target.take(k - start),
            forall|j: int| run <= j < k ==> id_char(#[trigger] chars@[j]) == chars@[j],
        decreases n - k,
    {
        let c = chars[k];
        let ghost before = out@ + chars@.subrange(run as int, k as int);
        proof {
            assert(target.take(k + 1 - start) =~= target.take(k - start).push(id_char(c)));
        }
        if c == '/' || c == '?' || c == '&' || c == '=' {
            out.append(path.substring_char(run, k));
            out.append("_");
            run = k + 1;
            proof {
                reveal_strlit("_");
                assert(chars@.subrange(run as int, (k + 1) as int) =~= Seq::<char>::empty());
                assert(out@ + chars@.subrange(run as int, (k + 1) as int) =~= before.push('_'));
            }
        } else {
            proof {
                assert(chars@.subrange(run as int, k + 1) =~= chars@.subrange(run as int, k as int).push(c));
            }
        }
        k += 1;
    }
    out.append(path.substring_char(run, n));
    proof {
        assert(target.take(n - start) =~= target);
    }
    out
}

/// `REQ/<domain>/<aggregate>/<kind>/<name>`.
pub open spec fn requirement_id_text(domain: Seq<char>, aggregate: Seq<char>, kind: Seq<char>, name: Seq<char>) -> Seq<char> {
    "REQ/"@ + domain + "/"@ + aggregate + "/"@ + kind + "/"@ + name
}

fn requirement_id_string(domain: &str, aggregate: &str, kind: &str, name: &str) -> (id: String)
    ensures
        id@ == requirement_id_text(domain@, aggregate@, kind@, name@),
{
    let mut id = String::from_str("REQ/");
    id.append(domain);
    id.append("/");
    id.append(aggregate);
    id.append("/");
    id.append(kind);
    id.append("/");
    id.append(name);
    id
}

/// The id of the system requirement of a capability.
pub fn system_requirement_id(domain: &str, aggregate: &str, capability: &str) -> (id: crate::catalog::requirement::RequirementId)
    ensures
        id.0@ == requirement_id_text(domain@, aggregate@, "SYS"@, capability@),
{
    crate::catalog::requirement::RequirementId(requirement_id_string(domain, aggregate, "SYS", capability))
}

/// The id of the functional requirement of a function.
pub fn functional_requirement_id_for_function(domain: &str, aggregate: &str, function_id: &str) -> (id: crate::catalog::requirement::RequirementId)
    ensures
        id.0@ == requirement_id_text(domain@, aggregate@, "FUN"@, function_id@),
{
    crate::catalog::requirement::RequirementId(requirement_id_string(domain, aggregate, "FUN", function_id))
}

/// The id of the interface requirement of a route: its method label, then its sanitized path.
pub fn interface_requirement_id(domain: &str, aggregate: &str, method: &str, resolved: &str) -> (id: crate::catalog::requirement::RequirementId)
    ensures
        id.0@ == requirement_id_text(domain@, aggregate@, "IF"@, method@ + "/"@ + sanitized_path(resolved@)),
{
    let mut name = String::from_str(method);
    name.append("/");
    let path = sanitize_path_for_id(resolved);
    name.append(path.as_str());
    crate::catalog::requirement::RequirementId(requirement_id_string(domain, aggregate, "IF", name.as_str()))
}

/// The id of the performance requirement of a route.
pub fn performance_requirement_id(domain: &str, aggregate: &str, method: &str, resolved: &str) -> (id: crate::catalog::requirement::RequirementId)
    ensures
        id.0@ == requirement_id_text(domain@, aggregate@, "PERF"@, method@ + "/"@ + sanitized_path(resolved@)),
{
    let mut name = String::from_str(method);
    name.append("/");
    let path = sanitize_path_for_id(resolved);
    name.append(path.as_str());
    crate::catalog::requirement::RequirementId(requirement_id_string(domain, aggregate, "PERF", name.as_str()))
}

/// The id of the robustness requirement of a negative probe.
pub fn robustness_requirement_id(domain: &str, aggregate: &str, probe_id: &str) -> (id: crate::catalog::requirement::RequirementId)
    ensures
        id.0@ == requirement_id_text(domain@, aggregate@, "ROB"@, probe_id@),
{
    crate::catalog::requirement::RequirementId(requirement_id_string(domain, aggregate, "ROB", probe_id))
}

/// The id of an overlay system requirement.
pub fn overlay_requirement_id(domain: &str, aggregate: &str, suffix: &str) -> (id: crate::catalog::requirement::RequirementId)
    ensures
        id.0@ == requirement_id_text(domain@, aggregate@, "SYS-OVR"@, suffix@),
{
    crate::catalog::requirement::RequirementId(requirement_id_string(domain, aggregate, "SYS-OVR", suffix))
}

/// `s` with each '_' turned into a space.
pub open spec fn spaced(s: Seq<char>) -> Seq<char> {
    s.map_values(|c: char| if c == '_' { ' ' } else { c })
}

/// `s` with each '_' turned into a space, as `str::replace('_', " ")` gives it.
pub fn spaced_words(s: &str) -> (out: String)
    ensures
        out@ == spaced(s@),
{
    let chars = chars_of(s);
    let n = chars.len();
    let mut out = String::new();
    let mut run: usize = 0;
    let mut k: usize = 0;
    let ghost target = spaced(s@);
    while k < n
        invariant
            run <= k <= n == chars@.len(),
            chars@ == s@,
            target == spaced(s@),
            out@ + chars@.subrange(run as int, k as int) == target.take(k as int),
            forall|j: int| run <= j < k ==> chars@[j] != '_',
        decreases n - k,
    {
        let c = chars[k];
        let ghost before = out@ + chars@.subrange(run as int, k as int);
        proof {
            assert(target.take(k + 1) =~= target.take(k as int).push(if c == '_' { ' ' } else { c }));
        }
        if c == '_' {
            out.append(s.substring_char(run, k));
            out.append(" ");
            run = k + 1;
            proof {
                reveal_strlit(" ");
                assert(out@ + chars@.subrange(run as int, (k + 1) as int) =~= before.push(' '));
            }
        } else {
            proof {
                assert(chars@.subrange(run as int, k + 1) =~= chars@.subrange(run as int, k as int).push(c));
            }
        }
        k += 1;
    }
    out.append(s.substring_char(run, n));
    proof {
        assert(target.take(n as int) =~= target);
    }
    out
}

/// The statement of a robustness requirement: the rejected request named by the journey's
/// primary capability, words spaced.
pub open spec fn robustness_text(capability: Option<Seq<char>>) -> Seq<char> {
    match capability {
        Some(c) => "Invalid or unsafe "@ + spaced(c) + " request is rejected safely"@,
        None => "Invalid or unsafe request is rejected safely"@,
    }
}

/// The statement of a robustness requirement.
pub fn robustness_statement(capability: Option<&str>) -> (text: String)
    ensures
        text@ == robustness_text(
            match capability {
                Some(c) => Some(c@),
                None => None,
            },
        ),
{
    match capability {
        Some(c) => {
            let mut text = String::from_str("Invalid or unsafe ");
            let words = spaced_words(c);
            text.append(words.as_str());
            text.append(" request is rejected safely");
            text
        },
        None => String::from_str("Invalid or unsafe request is rejected safely"),
    }
}

/// The statement of a performance requirement: the service's capability phrase, when it has
/// one.
pub open spec fn performance_text(phrase: Option<Seq<char>>) -> Seq<char> {
    match phrase {
        Some(p) => "Captured "@ + p + " endpoint latency stays within measured baseline"@,
        None => "Captured endpoint latency stays within measured baseline"@,
    }
}

/// The statement of a performance requirement.
pub fn performance_statement(phrase: Option<&str>) -> (text: String)
    ensures
        text@ == performance_text(
            match phrase {
                Some(p) => Some(p@),
                None => None,
            },
        ),
{
    match phrase {
        Some(p) => {
            let mut text = String::from_str("Captured ");
            text.append(p);
            text.append(" endpoint latency stays within measured baseline");
            text
        },
        None => String::from_str("Captured endpoint latency stays within measured baseline"),
    }
}

/// The phrase of a service's first established capability, words spaced.
pub fn capability_phrase_for_service(capabilities: Option<&[String]>) -> (phrase: Option<String>)
    ensures
        match capabilities {
            Some(c) => if c@.len() > 0 {
                phrase matches Some(p) && p@ == spaced(c@[0]@)
            } else {
                phrase is None
            },
            None => phrase is None,
        },
{
    match capabilities {
        Some(c) => {
            if c.len() > 0 {
                Some(spaced_words(c[0].as_str()))
            } else {
                None
            }
        },
        None => None,
    }
}

/// The criterion text of an interface requirement: method and path, then the capture in
/// parentheses when there is one.
pub open spec fn interface_text(method: Seq<char>, resolved: Seq<char>, capture: Option<Seq<char>>) -> Seq<char> {
    method + " "@ + resolved + match capture {
        Some(c) => " ("@ + c + ")"@,
        None => seq![],
    }
}

/// The acceptance criteria of an interface requirement: one HTTP criterion.
pub fn interface_criteria(method: &str, resolved: &str, capture: Option<String>) -> (criteria: crate::catalog::requirement::RequirementCriteria)
    ensures
        criteria@ == (crate::catalog::requirement::CriteriaView::Known {
            items: seq![
                interface_text(
                    method@,
                    resolved@,
                    match capture {
                        Some(c) => Some(c@),
                        None => None,
                    },
                ),
            ],
        }),
{
    let mut text = String::from_str(method);
    text.append(" ");
    text.append(resolved);
    let ghost head = text@;
    if let Some(c) = &capture {
        text.append(" (");
        text.append(c.as_str());
        text.append(")");
    } else {
        assert(head + Seq::<char>::empty() =~= head);
    }
    let ghost t = text@;
    assert(t =~= interface_text(
        method@,
        resolved@,
        match capture {
            Some(c) => Some(c@),
            None => None,
        },
    ));
    let items = vec![crate::catalog::requirement::AcceptanceCriterion { text }];
    assert(crate::catalog::requirement::criteria_texts(items@) =~= seq![t]);
    crate::catalog::requirement::RequirementCriteria::Known { items }
}

/// `s` without its trailing `c` characters, as `str::trim_end_matches(c)` gives it.
pub open spec fn strip_trailing(s: Seq<char>, c: char) -> Seq<char>
    decreases s.len(),
{
    if s.len() > 0 && s.last() == c {
        strip_trailing(s.drop_last(), c)
    } else {
        s
    }
}

/// The texts of a list of strings.
pub open spec fn string_seq(v: Seq<String>) -> Seq<Seq<char>> {
    v.map_values(|s: String| s@)
}

/// `s` starts with `prefix`.
pub open spec fn has_prefix(s: Seq<char>, prefix: Seq<char>) -> bool {
    prefix.len() <= s.len() && s.subrange(0, prefix.len() as int) == prefix
}

/// The path falls under one of the service's nginx prefixes (other than "/"), with or without
/// the prefix's trailing slashes; never when the prefixes are not known.
pub open spec fn under_service_prefix(prefixes: Option<Seq<Seq<char>>>, path: Seq<char>) -> bool {
    match prefixes {
        None => false,
        Some(ps) => covered_by_any(ps, path),
    }
}

/// One of the prefixes covers the path.
pub open spec fn covered_by_any(prefixes: Seq<Seq<char>>, path: Seq<char>) -> bool {
    exists|k: int| 0 <= k < prefixes.len() && #[trigger] prefix_covers(prefixes[k], path)
}

/// The prefix is not "/" and the path starts with it, or with it less its trailing slashes.
pub open spec fn prefix_covers(prefix: Seq<char>, path: Seq<char>) -> bool {
    prefix != "/"@ && (has_prefix(path, prefix) || has_prefix(path, strip_trailing(prefix, '/')))
}

fn starts_with_chars(path: &[char], prefix: &[char], end: usize) -> (found: bool)
    requires
        end <= prefix@.len(),
    ensures
        found == has_prefix(path@, prefix@.subrange(0, end as int)),
{
    if end > path.len() {
        return false;
    }
    let mut k: usize = 0;
    while k < end
        invariant
            k <= end <= prefix@.len(),
            end <= path@.len(),
            forall|j: int| 0 <= j < k ==> path@[j] == prefix@[j],
        decreases end - k,
    {
        if path[k] != prefix[k] {
            assert(path@.subrange(0, end as int)[k as int] != prefix@.subrange(0, end as int)[k as int]);
            return false;
        }
        k += 1;
    }
    assert(path@.subrange(0, end as int) =~= prefix@.subrange(0, end as int));
    true
}

proof fn lemma_strip_trailing_at(s: Seq<char>, c: char, k: int)
    requires
        0 <= k <= s.len(),
        forall|j: int| k <= j < s.len() ==> s[j] == c,
        k == 0 || s[k - 1] != c,
    ensures
        strip_trailing(s, c) == s.subrange(0, k),
    decreases s.len() - k,
{
    if k == s.len() {
        assert(s.subrange(0, k) =~= s);
    } else {
        lemma_strip_trailing_at(s.drop_last(), c, k);
        assert(s.drop_last().subrange(0, k) =~= s.subrange(0, k));
    }
}

/// Whether the path falls under one of the service's nginx prefixes (`None` when the service's
/// prefixes are not known).
pub fn path_starts_with_service_prefix(prefixes: Option<&[String]>, path: &str) -> (under: bool)
    ensures
        under == under_service_prefix(
            match prefixes {
                Some(p) => Some(string_seq(p@)),
                None => None,
            },
            path@,
        ),
{
    let ps = match prefixes {
        None => {
            return false;
        },
        Some(ps) => ps,
    };
    let ghost views = string_seq(ps@);
    let chars = chars_of(path);
    let mut k: usize = 0;
    while k < ps.len()
        invariant
            k <= ps@.len(),
            prefixes == Some(ps),
            views == string_seq(ps@),
            chars@ == path@,
            forall|j: int| 0 <= j < k ==> !#[trigger] prefix_covers(views[j], path@),
        decreases ps@.len() - k,
    {
        let prefix = chars_of(ps[k].as_str());
        assert(views[k as int] == prefix@);
        let root = crate::text::str_eq(ps[k].as_str(), "/");
        let mut end: usize = prefix.len();
        while end > 0 && prefix[end - 1] == '/'
            invariant
                end <= prefix@.len(),
                forall|j: int| end <= j < prefix@.len() ==> prefix@[j] == '/',
            decreases end,
        {
            end -= 1;
        }
        proof {
            lemma_strip_trailing_at(prefix@, '/', end as int);
            assert(prefix@.subrange(0, prefix@.len() as int) =~= prefix@);
        }
        let whole = starts_with_chars(&chars, &prefix, prefix.len());
        let trimmed = starts_with_chars(&chars, &prefix, end);
        if !root && (whole || trimmed) {
            assert(prefix_covers(views[k as int], path@));
            assert(covered_by_any(views, path@));
            return true;
        }
        k += 1;
    }
    false
}

} // verus!
