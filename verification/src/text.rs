use vstd::prelude::*;
use vstd::utf8::{decode_utf8, valid_utf8};

verus! {

/// The characters of `s`, in order.
pub fn chars_of(s: &str) -> (out: Vec<char>)
    ensures
        out@ == s@,
{
    let mut out: Vec<char> = Vec::new();
    for c in it: s.chars()
        invariant
            out@ == it.seq().take(it.index() as int),
            it.seq() == s@,
    {
        out.push(c);
    }
    out
}

/// Whether two strings hold the same characters.
pub fn str_eq(a: &str, b: &str) -> (same: bool)
    ensures
        same == (a@ == b@),
{
    let x = chars_of(a);
    let y = chars_of(b);
    chars_eq(&x, &y)
}

/// Whether some string in `list` reads as `s`.
pub fn holds_str(list: &Vec<String>, s: &str) -> (found: bool)
    ensures
        found <==> exists|k: int| 0 <= k < list@.len() && (#[trigger] list@[k])@ == s@,
{
    let mut k: usize = 0;
    while k < list.len()
        invariant
            k <= list@.len(),
            forall|j: int| 0 <= j < k ==> (#[trigger] list@[j])@ != s@,
        decreases list@.len() - k,
    {
        if str_eq(list[k].as_str(), s) {
            return true;
        }
        k += 1;
    }
    false
}

/// Whether two character slices are equal.
pub fn chars_eq(x: &[char], y: &[char]) -> (same: bool)
    ensures
        same == (x@ == y@),
{
    if x.len() != y.len() {
        return false;
    }
    let mut i: usize = 0;
    while i < x.len()
        invariant
            x@.len() == y@.len(),
            i <= x@.len(),
            forall|k: int| 0 <= k < i ==> x@[k] == y@[k],
        decreases x@.len() - i,
    {
        if x[i] != y[i] {
            return false;
        }
        i += 1;
    }
    assert(x@ =~= y@);
    true
}

/// Whether two byte slices are equal.
pub fn bytes_eq(x: &[u8], y: &[u8]) -> (same: bool)
    ensures
        same == (x@ == y@),
{
    if x.len() != y.len() {
        return false;
    }
    let mut i: usize = 0;
    while i < x.len()
        invariant
            x@.len() == y@.len(),
            i <= x@.len(),
            forall|k: int| 0 <= k < i ==> x@[k] == y@[k],
        decreases x@.len() - i,
    {
        if x[i] != y[i] {
            return false;
        }
        i += 1;
    }
    assert(x@ =~= y@);
    true
}

/// Whether `v[lo..hi]` equals `w`.
pub fn range_eq(v: &[char], lo: usize, hi: usize, w: &[char]) -> (same: bool)
    requires
        lo <= hi <= v@.len(),
    ensures
        same == (v@.subrange(lo as int, hi as int) == w@),
{
    if hi - lo != w.len() {
        return false;
    }
    let mut i: usize = 0;
    while i < w.len()
        invariant
            lo <= hi <= v@.len(),
            hi - lo == w@.len(),
            i <= w@.len(),
            forall|k: int| 0 <= k < i ==> v@[lo + k] == w@[k],
        decreases w@.len() - i,
    {
        if v[lo + i] != w[i] {
            assert(v@.subrange(lo as int, hi as int)[i as int] != w@[i as int]);
            return false;
        }
        i += 1;
    }
    assert(v@.subrange(lo as int, hi as int) =~= w@);
    true
}

/// `k` is the first position of `c` in `s`.
pub open spec fn is_first_of(s: Seq<char>, c: char, k: int) -> bool {
    &&& 0 <= k < s.len()
    &&& s[k] == c
    &&& forall|j: int| 0 <= j < k ==> s[j] != c
}

/// The parts of `s` before and after the first `c`, as `str::split_once` gives them.
pub open spec fn split_once(s: Seq<char>, c: char) -> Option<(Seq<char>, Seq<char>)> {
    if exists|k: int| is_first_of(s, c, k) {
        let k = choose|k: int| is_first_of(s, c, k);
        Some((s.subrange(0, k), s.subrange(k + 1, s.len() as int)))
    } else {
        None
    }
}

/// The first position of `c` in `v[lo..hi]`, counted from the start of `v`.
pub fn find_char(v: &[char], lo: usize, hi: usize, c: char) -> (pos: Option<usize>)
    requires
        lo <= hi <= v@.len(),
    ensures
        match pos {
            Some(p) => lo <= p < hi && is_first_of(v@.subrange(lo as int, hi as int), c, p - lo),
            None => forall|j: int| lo <= j < hi ==> v@[j] != c,
        },
{
    let mut i: usize = lo;
    while i < hi
        invariant
            lo <= i <= hi <= v@.len(),
            forall|j: int| lo <= j < i ==> v@[j] != c,
        decreases hi - i,
    {
        if v[i] == c {
            return Some(i);
        }
        i += 1;
    }
    None
}

/// Splits `v[lo..hi]` at its first `c`: the end of the part before it and the start of the part
/// after it.
pub fn split_once_range(v: &[char], lo: usize, hi: usize, c: char) -> (parts: Option<(usize, usize)>)
    requires
        lo <= hi <= v@.len(),
    ensures
        match split_once(v@.subrange(lo as int, hi as int), c) {
            Some((before, after)) => parts matches Some((end, start)) && lo <= end && end + 1 == start
                && start <= hi && v@.subrange(lo as int, end as int) == before && v@.subrange(
                start as int,
                hi as int,
            ) == after,
            None => parts is None,
        },
{
    let ghost s = v@.subrange(lo as int, hi as int);
    match find_char(v, lo, hi, c) {
        Some(p) => {
            proof {
                let k = choose|k: int| is_first_of(s, c, k);
                if k < p - lo {
                    assert(s[k] == v@[lo + k]);
                } else if k > p - lo {
                    assert(s[p - lo] == c);
                }
                assert(k == p - lo);
                assert(s.subrange(0, k) =~= v@.subrange(lo as int, p as int));
                assert(s.subrange(k + 1, s.len() as int) =~= v@.subrange(p + 1, hi as int));
            }
            Some((p, p + 1))
        },
        None => {
            proof {
                assert forall|k: int| !is_first_of(s, c, k) by {
                    if 0 <= k < s.len() {
                        assert(s[k] == v@[lo + k]);
                    }
                }
            }
            None
        },
    }
}

/// Trimming the end of `p + q` only touches `q` when `p` ends with a non-space character.
pub proof fn lemma_trim_end_concat(p: Seq<char>, q: Seq<char>)
    requires
        p.len() > 0,
        !is_white_space(p.last()),
    ensures
        trim_end(p + q) == p + trim_end(q),
    decreases q.len(),
{
    if q.len() == 0 {
        assert(p + q =~= p);
        assert(p + trim_end(q) =~= p);
    } else if is_white_space(q.last()) {
        assert((p + q).drop_last() =~= p + q.drop_last());
        lemma_trim_end_concat(p, q.drop_last());
    } else {
    }
}

/// The ASCII digit character for `d` (0 to 9).
pub open spec fn digit_char(d: int) -> char {
    ((d + 48) as u32) as char
}

/// The decimal digits of a natural number, most significant first.
pub open spec fn nat_digits(n: nat) -> Seq<char>
    decreases n,
{
    if n < 10 {
        seq![digit_char(n as int)]
    } else {
        nat_digits(n / 10).push(digit_char((n % 10) as int))
    }
}

/// The decimal text of an integer, with a leading '-' when it is negative.
pub open spec fn decimal(v: int) -> Seq<char> {
    if v < 0 {
        seq!['-'] + nat_digits((-v) as nat)
    } else {
        nat_digits(v as nat)
    }
}

/// The one-character string for the digit `d`.
fn digit_str(d: u32) -> (s: &'static str)
    requires
        d < 10,
    ensures
        s@ == seq![digit_char(d as int)],
{
    proof {
        reveal_strlit("0");
        reveal_strlit("1");
        reveal_strlit("2");
        reveal_strlit("3");
        reveal_strlit("4");
        reveal_strlit("5");
        reveal_strlit("6");
        reveal_strlit("7");
        reveal_strlit("8");
        reveal_strlit("9");
    }
    let s = if d == 0 {
        "0"
    } else if d == 1 {
        "1"
    } else if d == 2 {
        "2"
    } else if d == 3 {
        "3"
    } else if d == 4 {
        "4"
    } else if d == 5 {
        "5"
    } else if d == 6 {
        "6"
    } else if d == 7 {
        "7"
    } else if d == 8 {
        "8"
    } else {
        "9"
    };
    assert(s@ =~= seq![digit_char(d as int)]);
    s
}

/// Appends the decimal digits of `n` to `out`.
fn append_nat_digits(out: &mut String, n: u64)
    ensures
        final(out)@ == old(out)@ + nat_digits(n as nat),
    decreases n,
{
    if n < 10 {
        out.append(digit_str(n as u32));
    } else {
        append_nat_digits(out, n / 10);
        out.append(digit_str((n % 10) as u32));
        assert(nat_digits(n as nat) == nat_digits((n / 10) as nat).push(digit_char((n % 10) as int)));
    }
}

/// The decimal text of `v`, as `i32::to_string` writes it.
pub fn format_i32(v: i32) -> (text: String)
    ensures
        text@ == decimal(v as int),
{
    let mut out = String::new();
    if v < 0 {
        proof {
            reveal_strlit("-");
        }
        out.append("-");
        let magnitude: i64 = -(v as i64);
        append_nat_digits(&mut out, magnitude as u64);
    } else {
        append_nat_digits(&mut out, v as u64);
    }
    out
}

/// The digits of a natural number are ASCII digits and spell it.
pub proof fn lemma_nat_digits(n: nat)
    ensures
        all_digits(nat_digits(n)),
        digits_value(nat_digits(n)) == n,
        nat_digits(n)[0] != '-' && nat_digits(n)[0] != '+',
        !is_white_space(nat_digits(n)[0]),
        !is_white_space(nat_digits(n).last()),
    decreases n,
{
    let d = nat_digits(n);
    if n >= 10 {
        lemma_nat_digits(n / 10);
        assert(d.drop_last() =~= nat_digits(n / 10));
        assert(d.last() == digit_char((n % 10) as int));
        assert(digit_char((n % 10) as int) as int == (n % 10) + 48);
        assert((n / 10) * 10 + n % 10 == n);
        assert(digits_value(d) == digits_value(d.drop_last()) * 10 + (d.last() as int - 48));
        assert forall|i: int| 0 <= i < d.len() implies is_digit(#[trigger] d[i]) by {
            if i < d.len() - 1 {
                assert(d[i] == nat_digits(n / 10)[i]);
            }
        }
        assert(d[0] == nat_digits(n / 10)[0]);
    } else {
        assert(d.drop_last() =~= Seq::<char>::empty());
        assert(digit_char(n as int) as int == n + 48);
        assert(digits_value(d) == digits_value(d.drop_last()) * 10 + (d.last() as int - 48));
    }
}

/// The decimal text of an `i32` reads back as that `i32`.
pub proof fn lemma_decimal_parses(v: i32)
    ensures
        parse_i32_text(decimal(v as int)) == Some(v),
        decimal(v as int).len() > 0,
        !is_white_space(decimal(v as int)[0]),
        !is_white_space(decimal(v as int).last()),
{
    if v < 0 {
        let n = (-(v as int)) as nat;
        lemma_nat_digits(n);
        let t = decimal(v as int);
        assert(t.drop_first() =~= nat_digits(n));
    } else {
        lemma_nat_digits(v as nat);
    }
}

/// Whether a character is an ASCII letter.
pub open spec fn is_alpha(c: char) -> bool {
    ('a' <= c && c <= 'z') || ('A' <= c && c <= 'Z')
}

/// Whether a character is an ASCII letter or digit.
pub open spec fn is_alnum(c: char) -> bool {
    is_alpha(c) || is_digit(c)
}

/// The ASCII lower-case form of a character.
pub open spec fn ascii_lower(c: char) -> char {
    if 'A' <= c && c <= 'Z' {
        (((c as u32) + 32) as u8) as char
    } else {
        c
    }
}

/// The ASCII lower-case form of a text, as `str::to_ascii_lowercase` gives it.
pub open spec fn ascii_lowercase(s: Seq<char>) -> Seq<char> {
    s.map_values(|c: char| ascii_lower(c))
}

pub fn to_ascii_lower(c: char) -> (l: char)
    ensures
        l == ascii_lower(c),
{
    if 'A' <= c && c <= 'Z' {
        (((c as u32) + 32) as u8) as char
    } else {
        c
    }
}

/// The ASCII lower-case form of `chars`.
pub fn to_ascii_lowercase(chars: &[char]) -> (out: Vec<char>)
    ensures
        out@ == ascii_lowercase(chars@),
{
    let mut out: Vec<char> = Vec::new();
    let mut i: usize = 0;
    while i < chars.len()
        invariant
            i <= chars@.len(),
            out@ =~= ascii_lowercase(chars@.take(i as int)),
        decreases chars@.len() - i,
    {
        out.push(to_ascii_lower(chars[i]));
        i += 1;
        assert(ascii_lowercase(chars@.take(i as int)) =~= ascii_lowercase(chars@.take(i - 1)).push(
            ascii_lower(chars@[i - 1]),
        ));
    }
    assert(chars@.take(chars@.len() as int) =~= chars@);
    out
}

/// A class of ASCII characters that splits a text into tokens.
#[derive(Clone, Copy, Debug, PartialEq, Eq, Structural)]
pub enum CharClass {
    Alpha,
    Alnum,
    Digit,
}

/// Whether a character belongs to a class.
pub open spec fn in_class(c: char, class: CharClass) -> bool {
    match class {
        CharClass::Alpha => is_alpha(c),
        CharClass::Alnum => is_alnum(c),
        CharClass::Digit => is_digit(c),
    }
}

pub fn class_has(c: char, class: CharClass) -> (inside: bool)
    ensures
        inside == in_class(c, class),
{
    match class {
        CharClass::Alpha => ('a' <= c && c <= 'z') || ('A' <= c && c <= 'Z'),
        CharClass::Alnum => ('a' <= c && c <= 'z') || ('A' <= c && c <= 'Z') || ('0' <= c && c <= '9'),
        CharClass::Digit => '0' <= c && c <= '9',
    }
}

/// `s[i..j]` is a non-empty maximal run of characters of `class`: one of the non-empty pieces
/// that splitting `s` at every character outside `class` yields.
pub open spec fn is_run(s: Seq<char>, class: CharClass, i: int, j: int) -> bool {
    &&& 0 <= i < j <= s.len()
    &&& (i == 0 || !in_class(s[i - 1], class))
    &&& (j == s.len() || !in_class(s[j], class))
    &&& forall|k: int| i <= k < j ==> in_class(#[trigger] s[k], class)
}

/// `list` holds, in order, every non-empty maximal run of `class` in `s` and nothing else.
pub open spec fn is_run_list(s: Seq<char>, class: CharClass, list: Seq<(usize, usize)>) -> bool {
    &&& s.len() <= usize::MAX
    &&& forall|k: int| 0 <= k < list.len() ==> is_run(s, class, #[trigger] list[k].0 as int, list[k].1 as int)
    &&& forall|k1: int, k2: int| 0 <= k1 < k2 < list.len() ==> list[k1].1 < list[k2].0
    &&& forall|i: int, j: int| is_run(s, class, i, j) ==> exists|k: int|
        0 <= k < list.len() && list[k] == (i as usize, j as usize)
}

/// The non-empty maximal runs of `class` in `chars`, in order.
pub fn runs(chars: &[char], class: CharClass) -> (out: Vec<(usize, usize)>)
    ensures
        is_run_list(chars@, class, out@),
{
    let n = chars.len();
    let mut out: Vec<(usize, usize)> = Vec::new();
    let mut i: usize = 0;
    while i < n
        invariant
            n == chars@.len(),
            i <= n,
            forall|k: int| 0 <= k < out@.len() ==> is_run(chars@, class, #[trigger] out@[k].0 as int, out@[k].1 as int),
            forall|k1: int, k2: int| 0 <= k1 < k2 < out@.len() ==> out@[k1].1 < out@[k2].0,
            forall|k: int| 0 <= k < out@.len() ==> #[trigger] out@[k].1 <= i,
            forall|a: int, b: int| is_run(chars@, class, a, b) && a < i ==> exists|k: int|
                0 <= k < out@.len() && out@[k] == (a as usize, b as usize),
            i > 0 && in_class(chars@[i - 1], class) ==> out@.len() > 0 && out@.last().1 == i,
        decreases n - i,
    {
        if class_has(chars[i], class) {
            let start = i;
            while i < n && class_has(chars[i], class)
                invariant
                    n == chars@.len(),
                    start < i <= n || (start == i && i < n && in_class(chars@[i as int], class)),
                    forall|k: int| start <= k < i ==> in_class(#[trigger] chars@[k], class),
                decreases n - i,
            {
                i += 1;
            }
            proof {
                if start > 0 && in_class(chars@[start - 1], class) {
                    let k = out@.len() - 1;
                    assert(is_run(chars@, class, out@[k].0 as int, out@[k].1 as int));
                    assert(false);
                }
                assert forall|k: int| 0 <= k < out@.len() implies #[trigger] out@[k].1 < start by {
                    assert(is_run(chars@, class, out@[k].0 as int, out@[k].1 as int));
                    if out@[k].1 == start {
                        assert(in_class(chars@[start - 1], class));
                    }
                }
                assert(is_run(chars@, class, start as int, i as int));
                assert forall|a: int, b: int| is_run(chars@, class, a, b) && a == start implies b == i by {
                    if b < i {
                        assert(in_class(chars@[b], class));
                    } else if b > i {
                        assert(in_class(chars@[i as int], class));
                    }
                }
            }
            let ghost old_out = out@;
            out.push((start, i));
            proof {
                assert forall|a: int, b: int| is_run(chars@, class, a, b) && a < i implies exists|k: int|
                    0 <= k < out@.len() && out@[k] == (a as usize, b as usize) by {
                    if a < start {
                        let k = choose|k: int| 0 <= k < old_out.len() && old_out[k] == (a as usize, b as usize);
                        assert(out@[k] == old_out[k]);
                    } else if a == start {
                        assert(out@[old_out.len() as int] == (a as usize, b as usize));
                    } else {
                        assert(in_class(chars@[a - 1], class));
                    }
                }
            }
        } else {
            proof {
                assert forall|a: int, b: int| is_run(chars@, class, a, b) && a < i + 1 implies exists|k: int|
                    0 <= k < out@.len() && out@[k] == (a as usize, b as usize) by {
                    if a == i {
                        assert(in_class(chars@[a], class));
                    }
                }
            }
            i += 1;
        }
    }
    out
}

/// Two runs of a class that start at the same place end at the same place.
pub proof fn lemma_run_unique(s: Seq<char>, class: CharClass, i: int, j1: int, j2: int)
    requires
        is_run(s, class, i, j1),
        is_run(s, class, i, j2),
    ensures
        j1 == j2,
{
    if j1 < j2 {
        assert(in_class(s[j1], class));
    } else if j2 < j1 {
        assert(in_class(s[j2], class));
    }
}

/// `(i, j)` is the earliest run of `class` in `s` whose text satisfies `p`.
pub open spec fn is_first_run_with(s: Seq<char>, class: CharClass, p: spec_fn(Seq<char>) -> bool, i: int, j: int) -> bool {
    &&& is_run(s, class, i, j)
    &&& p(s.subrange(i, j))
    &&& forall|a: int, b: int| is_run(s, class, a, b) && p(s.subrange(a, b)) ==> i <= a
}

/// The text of the earliest run of `class` in `s` that satisfies `p`: the first piece that
/// splitting `s` at every character outside `class` yields and `p` accepts.
pub open spec fn first_run_text(s: Seq<char>, class: CharClass, p: spec_fn(Seq<char>) -> bool) -> Option<Seq<char>> {
    if exists|i: int, j: int| is_first_run_with(s, class, p, i, j) {
        let (i, j) = choose|i: int, j: int| is_first_run_with(s, class, p, i, j);
        Some(s.subrange(i, j))
    } else {
        None
    }
}

/// A run of `class` whose text satisfies `p` makes the earliest such run exist.
pub proof fn lemma_first_run_exists(s: Seq<char>, class: CharClass, p: spec_fn(Seq<char>) -> bool, i: int, j: int)
    requires
        is_run(s, class, i, j),
        p(s.subrange(i, j)),
    ensures
        first_run_text(s, class, p) is Some,
    decreases i,
{
    if forall|a: int, b: int| is_run(s, class, a, b) && p(s.subrange(a, b)) ==> i <= a {
        assert(is_first_run_with(s, class, p, i, j));
    } else {
        let (a, b) = choose|a: int, b: int| is_run(s, class, a, b) && p(s.subrange(a, b)) && !(i <= a);
        lemma_first_run_exists(s, class, p, a, b);
    }
}

/// Once the run at position `k` of a complete run list is the first one `p` accepts, it is the
/// earliest such run of the text.
pub proof fn lemma_first_run_found(
    s: Seq<char>,
    class: CharClass,
    p: spec_fn(Seq<char>) -> bool,
    list: Seq<(usize, usize)>,
    k: int,
)
    requires
        is_run_list(s, class, list),
        0 <= k < list.len(),
        p(s.subrange(list[k].0 as int, list[k].1 as int)),
        forall|m: int| 0 <= m < k ==> !p(s.subrange(#[trigger] list[m].0 as int, list[m].1 as int)),
    ensures
        first_run_text(s, class, p) == Some(s.subrange(list[k].0 as int, list[k].1 as int)),
{
    let i = list[k].0 as int;
    let j = list[k].1 as int;
    assert(is_run(s, class, i, j));
    assert forall|a: int, b: int| is_run(s, class, a, b) && p(s.subrange(a, b)) implies i <= a by {
        let m = choose|m: int| 0 <= m < list.len() && list[m] == (a as usize, b as usize);
        if m < k {
            assert(!p(s.subrange(list[m].0 as int, list[m].1 as int)));
        } else if m > k {
            assert(list[k].1 < list[m].0);
        }
    }
    assert(is_first_run_with(s, class, p, i, j));
    let (i2, j2) = choose|i2: int, j2: int| is_first_run_with(s, class, p, i2, j2);
    assert(i2 <= i && i <= i2);
    lemma_run_unique(s, class, i, j, j2);
}

/// When no run of a complete run list satisfies `p`, no run of the text does.
pub proof fn lemma_first_run_absent(
    s: Seq<char>,
    class: CharClass,
    p: spec_fn(Seq<char>) -> bool,
    list: Seq<(usize, usize)>,
)
    requires
        is_run_list(s, class, list),
        forall|m: int| 0 <= m < list.len() ==> !p(s.subrange(#[trigger] list[m].0 as int, list[m].1 as int)),
    ensures
        first_run_text(s, class, p) is None,
{
    assert forall|i: int, j: int| !is_first_run_with(s, class, p, i, j) by {
        if is_run(s, class, i, j) {
            let m = choose|m: int| 0 <= m < list.len() && list[m] == (i as usize, j as usize);
            assert(!p(s.subrange(list[m].0 as int, list[m].1 as int)));
        }
    }
}

/// The position in `list` of the text `v[lo..hi]`, if it is there.
pub fn list_position(v: &[char], lo: usize, hi: usize, list: &[&str]) -> (pos: Option<usize>)
    requires
        lo <= hi <= v@.len(),
    ensures
        match pos {
            Some(k) => k < list@.len() && list@[k as int]@ == v@.subrange(lo as int, hi as int),
            None => forall|k: int| 0 <= k < list@.len() ==> list@[k]@ != v@.subrange(lo as int, hi as int),
        },
{
    let mut k: usize = 0;
    while k < list.len()
        invariant
            lo <= hi <= v@.len(),
            k <= list@.len(),
            forall|m: int| 0 <= m < k ==> list@[m]@ != v@.subrange(lo as int, hi as int),
        decreases list@.len() - k,
    {
        let entry = chars_of(list[k]);
        if range_eq(v, lo, hi, &entry) {
            return Some(k);
        }
        k += 1;
    }
    None
}

/// A sequence with repeated elements dropped, keeping each first occurrence in order.
pub open spec fn dedup<A>(s: Seq<A>) -> Seq<A>
    decreases s.len(),
{
    if s.len() == 0 {
        s
    } else {
        let d = dedup(s.drop_last());
        if d.contains(s.last()) {
            d
        } else {
            d.push(s.last())
        }
    }
}

/// Texts joined with a separator, as `[String]::join` does.
pub open spec fn join(parts: Seq<Seq<char>>, sep: Seq<char>) -> Seq<char>
    decreases parts.len(),
{
    if parts.len() == 0 {
        Seq::empty()
    } else if parts.len() == 1 {
        parts[0]
    } else {
        join(parts.drop_last(), sep) + sep + parts.last()
    }
}

/// Joins strings with a separator.
pub fn join_strings(parts: &[String], sep: &str) -> (out: String)
    ensures
        out@ == join(parts@.map_values(|p: String| p@), sep@),
{
    let ghost views = parts@.map_values(|p: String| p@);
    let mut out = String::new();
    let mut i: usize = 0;
    while i < parts.len()
        invariant
            i <= parts@.len(),
            views == parts@.map_values(|p: String| p@),
            out@ == join(views.take(i as int), sep@),
        decreases parts@.len() - i,
    {
        proof {
            assert(views.take(i + 1).drop_last() =~= views.take(i as int));
        }
        if i > 0 {
            out.append(sep);
        } else {
            assert(views.take(1) =~= seq![views[0]]);
        }
        out.append(parts[i].as_str());
        i += 1;
    }
    assert(views.take(parts@.len() as int) =~= views);
    out
}

/// The ASCII upper-case form of a character.
pub open spec fn ascii_upper(c: char) -> char {
    if 'a' <= c && c <= 'z' {
        (((c as u32) - 32) as u8) as char
    } else {
        c
    }
}

/// The ASCII upper-case form of a text, as `str::to_ascii_uppercase` gives it.
pub open spec fn ascii_uppercase(s: Seq<char>) -> Seq<char> {
    s.map_values(|c: char| ascii_upper(c))
}

pub fn to_ascii_upper(c: char) -> (u: char)
    ensures
        u == ascii_upper(c),
{
    if 'a' <= c && c <= 'z' {
        (((c as u32) - 32) as u8) as char
    } else {
        c
    }
}

/// The ASCII upper-case form of `chars`.
pub fn to_ascii_uppercase(chars: &[char]) -> (out: Vec<char>)
    ensures
        out@ == ascii_uppercase(chars@),
{
    let mut out: Vec<char> = Vec::new();
    let mut i: usize = 0;
    while i < chars.len()
        invariant
            i <= chars@.len(),
            out@ =~= ascii_uppercase(chars@.take(i as int)),
        decreases chars@.len() - i,
    {
        out.push(to_ascii_upper(chars[i]));
        i += 1;
        assert(ascii_uppercase(chars@.take(i as int)) =~= ascii_uppercase(chars@.take(i - 1)).push(
            ascii_upper(chars@[i - 1]),
        ));
    }
    assert(chars@.take(chars@.len() as int) =~= chars@);
    out
}

/// `needle` occurs in `hay` starting at position `i`.
pub open spec fn occurs_at<T>(hay: Seq<T>, needle: Seq<T>, i: int) -> bool {
    0 <= i && i + needle.len() <= hay.len() && hay.subrange(i, i + needle.len()) == needle
}

/// `needle` occurs somewhere in `hay`, as `str::contains` tests.
pub open spec fn contains_seq<T>(hay: Seq<T>, needle: Seq<T>) -> bool {
    exists|i: int| occurs_at(hay, needle, i)
}

/// Whether `needle` occurs at position `i` of `hay`.
pub fn chars_occur_at(hay: &[char], needle: &[char], i: usize) -> (found: bool)
    ensures
        found == occurs_at(hay@, needle@, i as int),
{
    let n = hay.len();
    if i > n || needle.len() > n - i {
        return false;
    }
    let mut k: usize = 0;
    while k < needle.len()
        invariant
            n == hay@.len(),
            i + needle@.len() <= n,
            k <= needle@.len(),
            forall|j: int| 0 <= j < k ==> hay@[i + j] == needle@[j],
        decreases needle@.len() - k,
    {
        if hay[i + k] != needle[k] {
            assert(hay@.subrange(i as int, i + needle@.len())[k as int] != needle@[k as int]);
            return false;
        }
        k += 1;
    }
    assert(hay@.subrange(i as int, i + needle@.len()) =~= needle@);
    true
}

/// The first position at which `needle` occurs in `hay`, as `str::find` gives it.
pub fn find_chars(hay: &[char], needle: &[char]) -> (pos: Option<usize>)
    ensures
        pos is None <==> !contains_seq(hay@, needle@),
        pos matches Some(p) ==> occurs_at(hay@, needle@, p as int) && forall|j: int|
            0 <= j < p ==> !occurs_at(hay@, needle@, j),
{
    let mut i: usize = 0;
    while i < hay.len()
        invariant
            i <= hay@.len(),
            forall|j: int| 0 <= j < i ==> !occurs_at(hay@, needle@, j),
        decreases hay@.len() - i,
    {
        if chars_occur_at(hay, needle, i) {
            return Some(i);
        }
        i += 1;
    }
    if chars_occur_at(hay, needle, i) {
        return Some(i);
    }
    assert forall|j: int| !occurs_at(hay@, needle@, j) by {
        if 0 <= j && j + needle@.len() <= hay@.len() {
            assert(j <= i);
        }
    }
    None
}

/// Unicode `White_Space`, the set `char::is_whitespace` tests for.
pub open spec fn is_white_space(c: char) -> bool {
    ||| ('\u{9}' <= c && c <= '\u{d}')
    ||| c == ' '
    ||| c == '\u{85}'
    ||| c == '\u{a0}'
    ||| c == '\u{1680}'
    ||| ('\u{2000}' <= c && c <= '\u{200a}')
    ||| c == '\u{2028}'
    ||| c == '\u{2029}'
    ||| c == '\u{202f}'
    ||| c == '\u{205f}'
    ||| c == '\u{3000}'
}

pub fn is_whitespace(c: char) -> (ws: bool)
    ensures
        ws == is_white_space(c),
{
    ('\u{9}' <= c && c <= '\u{d}') || c == ' ' || c == '\u{85}' || c == '\u{a0}' || c == '\u{1680}'
        || ('\u{2000}' <= c && c <= '\u{200a}') || c == '\u{2028}' || c == '\u{2029}' || c
        == '\u{202f}' || c == '\u{205f}' || c == '\u{3000}'
}

/// A text without its leading white space.
pub open spec fn trim_start(s: Seq<char>) -> Seq<char>
    decreases s.len(),
{
    if s.len() > 0 && is_white_space(s[0]) {
        trim_start(s.drop_first())
    } else {
        s
    }
}

/// A text without its trailing white space.
pub open spec fn trim_end(s: Seq<char>) -> Seq<char>
    decreases s.len(),
{
    if s.len() > 0 && is_white_space(s.last()) {
        trim_end(s.drop_last())
    } else {
        s
    }
}

/// A text without leading and trailing white space, as `str::trim` gives it.
pub open spec fn trim(s: Seq<char>) -> Seq<char> {
    trim_end(trim_start(s))
}

proof fn lemma_trim_start_at(s: Seq<char>, k: int)
    requires
        0 <= k <= s.len(),
        forall|j: int| 0 <= j < k ==> is_white_space(s[j]),
        k == s.len() || !is_white_space(s[k]),
    ensures
        trim_start(s) == s.subrange(k, s.len() as int),
    decreases k,
{
    if k == 0 {
        assert(s.subrange(0, s.len() as int) =~= s);
    } else {
        lemma_trim_start_at(s.drop_first(), k - 1);
        assert(s.drop_first().subrange(k - 1, s.len() - 1) =~= s.subrange(k, s.len() as int));
    }
}

proof fn lemma_trim_end_at(s: Seq<char>, k: int)
    requires
        0 <= k <= s.len(),
        forall|j: int| k <= j < s.len() ==> is_white_space(s[j]),
        k == 0 || !is_white_space(s[k - 1]),
    ensures
        trim_end(s) == s.subrange(0, k),
    decreases s.len() - k,
{
    if k == s.len() {
        assert(s.subrange(0, k) =~= s);
    } else {
        lemma_trim_end_at(s.drop_last(), k);
        assert(s.drop_last().subrange(0, k) =~= s.subrange(0, k));
    }
}

/// The bounds `(lo, hi)` of the trimmed part of `chars`.
pub fn trim_bounds(chars: &[char]) -> (bounds: (usize, usize))
    ensures
        bounds.0 <= bounds.1 <= chars@.len(),
        chars@.subrange(bounds.0 as int, bounds.1 as int) == trim(chars@),
{
    let n = chars.len();
    let mut lo: usize = 0;
    while lo < n && is_whitespace(chars[lo])
        invariant
            n == chars@.len(),
            lo <= n,
            forall|j: int| 0 <= j < lo ==> is_white_space(chars@[j]),
        decreases n - lo,
    {
        lo += 1;
    }
    proof {
        lemma_trim_start_at(chars@, lo as int);
    }
    let mut hi: usize = n;
    while hi > lo && is_whitespace(chars[hi - 1])
        invariant
            n == chars@.len(),
            lo <= hi <= n,
            forall|j: int| hi <= j < n ==> is_white_space(chars@[j]),
        decreases hi - lo,
    {
        hi -= 1;
    }
    proof {
        let rest = chars@.subrange(lo as int, n as int);
        lemma_trim_end_at(rest, hi - lo);
        assert(rest.subrange(0, hi - lo) =~= chars@.subrange(lo as int, hi as int));
    }
    (lo, hi)
}

/// The start of the text `chars[lo..hi]` once its leading white space is skipped.
pub fn skip_white_space(chars: &[char], lo: usize, hi: usize) -> (p: usize)
    requires
        lo <= hi <= chars@.len(),
    ensures
        lo <= p <= hi,
        chars@.subrange(p as int, hi as int) == trim_start(chars@.subrange(lo as int, hi as int)),
{
    let ghost s = chars@.subrange(lo as int, hi as int);
    let mut p: usize = lo;
    while p < hi && is_whitespace(chars[p])
        invariant
            lo <= p <= hi <= chars@.len(),
            s == chars@.subrange(lo as int, hi as int),
            forall|j: int| 0 <= j < p - lo ==> is_white_space(#[trigger] s[j]),
        decreases hi - p,
    {
        assert(s[p - lo] == chars@[p as int]);
        p += 1;
    }
    proof {
        if p < hi {
            assert(s[p - lo] == chars@[p as int]);
        }
        lemma_trim_start_at(s, p - lo);
        assert(s.subrange(p - lo, s.len() as int) =~= chars@.subrange(p as int, hi as int));
    }
    p
}

/// The bounds of the trimmed text `chars[lo..hi]`.
pub fn trim_range(chars: &[char], lo: usize, hi: usize) -> (bounds: (usize, usize))
    requires
        lo <= hi <= chars@.len(),
    ensures
        lo <= bounds.0 <= bounds.1 <= hi,
        chars@.subrange(bounds.0 as int, bounds.1 as int) == trim(chars@.subrange(lo as int, hi as int)),
{
    let ghost s = chars@.subrange(lo as int, hi as int);
    let a = skip_white_space(chars, lo, hi);
    let mut b: usize = hi;
    while b > a && is_whitespace(chars[b - 1])
        invariant
            lo <= a <= b <= hi <= chars@.len(),
            forall|j: int| b <= j < hi ==> is_white_space(#[trigger] chars@[j]),
        decreases b - a,
    {
        b -= 1;
    }
    proof {
        let rest = chars@.subrange(a as int, hi as int);
        assert forall|j: int| b - a <= j < rest.len() implies is_white_space(#[trigger] rest[j]) by {
            assert(rest[j] == chars@[a + j]);
        }
        if b > a {
            assert(rest[b - a - 1] == chars@[b - 1]);
        }
        lemma_trim_end_at(rest, b - a);
        assert(rest.subrange(0, b - a) =~= chars@.subrange(a as int, b as int));
    }
    (a, b)
}

/// The decimal text of `n`, as `u64::to_string` writes it.
pub fn format_u64(n: u64) -> (text: String)
    ensures
        text@ == nat_digits(n as nat),
{
    let mut out = String::new();
    append_nat_digits(&mut out, n);
    out
}

/// Whether a character is an ASCII decimal digit.
pub open spec fn is_digit(c: char) -> bool {
    '0' <= c && c <= '9'
}

/// The value of a run of ASCII decimal digits.
pub open spec fn digits_value(s: Seq<char>) -> int
    decreases s.len(),
{
    if s.len() == 0 {
        0
    } else {
        digits_value(s.drop_last()) * 10 + (s.last() as int - 48)
    }
}

/// A non-empty run of ASCII decimal digits.
pub open spec fn all_digits(s: Seq<char>) -> bool {
    s.len() > 0 && forall|i: int| 0 <= i < s.len() ==> is_digit(#[trigger] s[i])
}

/// The `i32` that a text spells, as `str::parse::<i32>` reads it: an optional sign, then
/// ASCII digits, in range.
pub open spec fn parse_i32_text(s: Seq<char>) -> Option<i32> {
    let negative = s.len() > 0 && s[0] == '-';
    let body = if s.len() > 0 && (s[0] == '-' || s[0] == '+') {
        s.drop_first()
    } else {
        s
    };
    let value = if negative {
        -digits_value(body)
    } else {
        digits_value(body)
    };
    if all_digits(body) && i32::MIN <= value <= i32::MAX {
        Some(value as i32)
    } else {
        None
    }
}

/// The `u32` that a text spells, as `str::parse::<u32>` reads it: an optional '+', then ASCII
/// digits, in range.
pub open spec fn parse_u32_text(s: Seq<char>) -> Option<u32> {
    let body = if s.len() > 0 && s[0] == '+' {
        s.drop_first()
    } else {
        s
    };
    if all_digits(body) && digits_value(body) <= u32::MAX {
        Some(digits_value(body) as u32)
    } else {
        None
    }
}

proof fn lemma_digits_value_nonneg(s: Seq<char>)
    requires
        forall|i: int| 0 <= i < s.len() ==> is_digit(#[trigger] s[i]),
    ensures
        digits_value(s) >= 0,
    decreases s.len(),
{
    if s.len() > 0 {
        lemma_digits_value_nonneg(s.drop_last());
    }
}

/// Reads the digits of `body[lo..hi]`: `None` when one is not a digit or there are none; else
/// the value, or `None` for the value when it exceeds `2^32`.
pub fn read_digits(body: &[char], lo: usize, hi: usize) -> (out: Option<Option<u64>>)
    requires
        lo <= hi <= body@.len(),
    ensures
        out is None <==> !all_digits(body@.subrange(lo as int, hi as int)),
        out matches Some(v) ==> (v matches Some(x) ==> x == digits_value(
            body@.subrange(lo as int, hi as int),
        ) && x <= 0x1_0000_0000) && (v is None ==> digits_value(body@.subrange(lo as int, hi as int))
            > 0x1_0000_0000),
{
    let ghost s = body@.subrange(lo as int, hi as int);
    if lo == hi {
        return None;
    }
    let mut acc: u64 = 0;
    let mut big = false;
    let mut k: usize = lo;
    while k < hi
        invariant
            lo <= k <= hi <= body@.len(),
            s == body@.subrange(lo as int, hi as int),
            forall|j: int| 0 <= j < k - lo ==> is_digit(#[trigger] s[j]),
            !big ==> acc == digits_value(s.take(k - lo)) && acc <= 0x1_0000_0000,
            big ==> digits_value(s.take(k - lo)) > 0x1_0000_0000,
        decreases hi - k,
    {
        let c = body[k];
        if !('0' <= c && c <= '9') {
            assert(s[k - lo] == c);
            return None;
        }
        proof {
            assert(s.take(k - lo + 1).drop_last() =~= s.take(k - lo));
            assert(s.take(k - lo + 1).last() == c);
            lemma_digits_value_nonneg(s.take(k - lo));
        }
        if !big {
            let next = acc * 10 + ((c as u32) - 48) as u64;
            if next > 0x1_0000_0000 {
                big = true;
            } else {
                acc = next;
            }
        }
        k += 1;
    }
    assert(s.take(hi - lo) =~= s);
    if big {
        Some(None)
    } else {
        Some(Some(acc))
    }
}

/// Parses `chars[lo..hi]` as `str::parse::<i32>` does.
pub fn parse_i32_chars(chars: &[char], lo: usize, hi: usize) -> (value: Option<i32>)
    requires
        lo <= hi <= chars@.len(),
    ensures
        value == parse_i32_text(chars@.subrange(lo as int, hi as int)),
{
    let ghost s = chars@.subrange(lo as int, hi as int);
    let negative = lo < hi && chars[lo] == '-';
    let start = if lo < hi && (chars[lo] == '-' || chars[lo] == '+') {
        lo + 1
    } else {
        lo
    };
    proof {
        if lo < hi && (chars@[lo as int] == '-' || chars@[lo as int] == '+') {
            assert(s.drop_first() =~= chars@.subrange(start as int, hi as int));
        } else {
            assert(s =~= chars@.subrange(start as int, hi as int));
        }
    }
    match read_digits(chars, start, hi) {
        None => None,
        Some(None) => None,
        Some(Some(magnitude)) => {
            if negative {
                if magnitude <= 2147483648 {
                    Some((-(magnitude as i64)) as i32)
                } else {
                    None
                }
            } else {
                if magnitude <= 2147483647 {
                    Some(magnitude as i32)
                } else {
                    None
                }
            }
        },
    }
}

/// Parses `chars[lo..hi]` as `str::parse::<u32>` does.
pub fn parse_u32_chars(chars: &[char], lo: usize, hi: usize) -> (value: Option<u32>)
    requires
        lo <= hi <= chars@.len(),
    ensures
        value == parse_u32_text(chars@.subrange(lo as int, hi as int)),
{
    let ghost s = chars@.subrange(lo as int, hi as int);
    let start = if lo < hi && chars[lo] == '+' {
        lo + 1
    } else {
        lo
    };
    proof {
        if lo < hi && chars@[lo as int] == '+' {
            assert(s.drop_first() =~= chars@.subrange(start as int, hi as int));
        } else {
            assert(s =~= chars@.subrange(start as int, hi as int));
        }
    }
    match read_digits(chars, start, hi) {
        None => None,
        Some(None) => None,
        Some(Some(magnitude)) => {
            if magnitude <= 4294967295 {
                Some(magnitude as u32)
            } else {
                None
            }
        },
    }
}

/// The text that `bytes` encode in UTF-8, if they are valid UTF-8.
pub open spec fn utf8_text(bytes: Seq<u8>) -> Option<Seq<char>> {
    if valid_utf8(bytes) {
        Some(decode_utf8(bytes))
    } else {
        None
    }
}

/// `core::str::from_utf8`: the text that `bytes` encode when they are valid UTF-8, as the
/// standard library documents it; `None` otherwise.
#[verifier::external_body]
pub fn str_from_utf8(bytes: &[u8]) -> (text: Option<&str>)
    ensures
        text is Some <==> valid_utf8(bytes@),
        text matches Some(t) ==> t@ == decode_utf8(bytes@),
{
    core::str::from_utf8(bytes).ok()
}

/// The `i32` that a UTF-8 payload spells once trimmed, as
/// `str::from_utf8(payload).ok()?.trim().parse().ok()` reads it.
pub open spec fn parse_i32_payload(payload: Seq<u8>) -> Option<i32> {
    match utf8_text(payload) {
        Some(text) => parse_i32_text(trim(text)),
        None => None,
    }
}

pub fn parse_i32(payload: &[u8]) -> (value: Option<i32>)
    ensures
        value == parse_i32_payload(payload@),
{
    match str_from_utf8(payload) {
        None => None,
        Some(text) => {
            let chars = chars_of(text);
            let (lo, hi) = trim_bounds(&chars);
            parse_i32_chars(&chars, lo, hi)
        },
    }
}

} // verus!
