use vstd::prelude::*;

use crate::text::{
    chars_of, find_chars, is_first_of, chars_occur_at, occurs_at, parse_u32_chars, parse_u32_text,
    find_char, nat_digits, skip_white_space, split_once, split_once_range, trim, trim_range, trim_start,
};
use crate::catalog::contamination::is_first_occurrence;

verus! {

/// When a service starts: with the priority services, or with the others.
#[derive(Clone, Copy, Debug, PartialEq, Eq, Structural)]
pub enum StartupTier {
    Priority,
    Normal,
}

/// A service launched by the core startup script.
#[derive(Debug)]
pub struct ExtractedService {
    pub tmux_name: String,
    pub service_dir: Option<String>,
    pub startup_tier: StartupTier,
    pub memory_mb: Option<u32>,
    pub cpu_percent: Option<u32>,
    pub command: String,
}

/// The value of an extracted service.
pub struct ServiceView {
    pub tmux_name: Seq<char>,
    pub service_dir: Option<Seq<char>>,
    pub startup_tier: StartupTier,
    pub memory_mb: Option<u32>,
    pub cpu_percent: Option<u32>,
    pub command: Seq<char>,
}

/// The value of an optional text.
pub open spec fn opt_text(s: Option<String>) -> Option<Seq<char>> {
    match s {
        Some(t) => Some(t@),
        None => None,
    }
}

impl View for ExtractedService {
    type V = ServiceView;

    open spec fn view(&self) -> ServiceView {
        ServiceView {
            tmux_name: self.tmux_name@,
            service_dir: opt_text(self.service_dir),
            startup_tier: self.startup_tier,
            memory_mb: self.memory_mb,
            cpu_percent: self.cpu_percent,
            command: self.command@,
        }
    }
}

/// Why the startup script could not be read.
#[derive(Debug)]
pub enum ExtractError {
    Io(String),
    Parse(String),
}

/// A message that quotes `text` between backticks after `prefix`.
pub open spec fn quoting(prefix: Seq<char>, text: Seq<char>) -> Seq<char> {
    prefix + text + "`"@
}

fn quote_message(prefix: &str, text: &str) -> (message: String)
    ensures
        message@ == quoting(prefix@, text@),
{
    let mut message = String::from_str(prefix);
    message.append(text);
    proof {
        reveal_strlit("`");
    }
    message.append("`");
    message
}

/// The service name between the opening quote of `line` and the next quote.
pub open spec fn quoted_name(line: Seq<char>) -> Result<Seq<char>, Seq<char>> {
    if !(line.len() > 0 && line[0] == '\'') {
        Err(quoting("tuple line must start with quoted name: `"@, line))
    } else {
        match split_once(line.drop_first(), '\'') {
            Some((name, _)) => Ok(name),
            None => Err(quoting("unterminated service name in `"@, line)),
        }
    }
}

/// The quoted name at the start of a tuple line.
pub fn parse_quoted_name(line: &str) -> (name: Result<String, String>)
    ensures
        match quoted_name(line@) {
            Ok(n) => name matches Ok(s) && s@ == n,
            Err(m) => name matches Err(e) && e@ == m,
        },
{
    let chars = chars_of(line);
    if chars.len() == 0 || chars[0] != '\'' {
        return Err(quote_message("tuple line must start with quoted name: `", line));
    }
    assert(line@.drop_first() =~= chars@.subrange(1, chars@.len() as int));
    match split_once_range(&chars, 1, chars.len(), '\'') {
        None => Err(quote_message("unterminated service name in `", line)),
        Some((end, _)) => Ok(String::from_str(line.substring_char(1, end))),
    }
}

/// One comma-terminated integer field at the start of `rest`, and what follows its comma.
pub open spec fn next_u32_field(rest: Seq<char>) -> Result<(u32, Seq<char>), Seq<char>> {
    let trimmed = trim_start(rest);
    match split_once(trimmed, ',') {
        None => Err(quoting("expected comma-separated integer field in `"@, trimmed)),
        Some((head, tail)) => match parse_u32_text(trim(head)) {
            Some(v) => Ok((v, tail)),
            None => Err(quoting("invalid integer field `"@, trim(head))),
        },
    }
}

/// Reads the comma-terminated integer field at the start of `rest` and moves `rest` past its
/// comma; on an error `rest` is left as it was.
pub fn parse_next_u32_field(rest: &mut &str) -> (value: Result<u32, String>)
    ensures
        match next_u32_field(old(rest)@) {
            Ok((v, tail)) => value == Ok::<u32, String>(v) && final(rest)@ == tail,
            Err(m) => value matches Err(e) && e@ == m && final(rest)@ == old(rest)@,
        },
{
    let text: &str = *rest;
    let chars = chars_of(text);
    let n = chars.len();
    let start = skip_white_space(&chars, 0, n);
    assert(chars@.subrange(0, n as int) =~= chars@);
    match split_once_range(&chars, start, n, ',') {
        None => Err(quote_message("expected comma-separated integer field in `", text.substring_char(start, n))),
        Some((comma, after)) => {
            let (a, b) = trim_range(&chars, start, comma);
            match parse_u32_chars(&chars, a, b) {
                None => Err(quote_message("invalid integer field `", text.substring_char(a, b))),
                Some(v) => {
                    *rest = text.substring_char(after, n);
                    Ok(v)
                },
            }
        },
    }
}

/// `k` is the last position of `c` in `s`.
pub open spec fn is_last_of(s: Seq<char>, c: char, k: int) -> bool {
    &&& 0 <= k < s.len()
    &&& s[k] == c
    &&& forall|j: int| k < j < s.len() ==> s[j] != c
}

/// The command between the opening quote of `input` and the last matching quote.
pub open spec fn quoted_command(input: Seq<char>) -> Result<Seq<char>, Seq<char>> {
    if !(input.len() > 0 && (input[0] == '"' || input[0] == '\'')) {
        Err(quoting("expected quoted command in `"@, input))
    } else {
        let inner = input.drop_first();
        if exists|k: int| is_last_of(inner, input[0], k) {
            Ok(inner.subrange(0, choose|k: int| is_last_of(inner, input[0], k)))
        } else {
            Err(quoting("unterminated command quote in `"@, input))
        }
    }
}

/// The quoted command at the end of a tuple line.
pub fn parse_quoted_command(input: &str) -> (command: Result<String, String>)
    ensures
        match quoted_command(input@) {
            Ok(c) => command matches Ok(s) && s@ == c,
            Err(m) => command matches Err(e) && e@ == m,
        },
{
    let chars = chars_of(input);
    let n = chars.len();
    if n == 0 || !(chars[0] == '"' || chars[0] == '\'') {
        return Err(quote_message("expected quoted command in `", input));
    }
    let quote = chars[0];
    let ghost inner = input@.drop_first();
    let mut p: usize = n;
    while p > 1 && chars[p - 1] != quote
        invariant
            1 <= p <= n == chars@.len(),
            chars@ == input@,
            inner == input@.drop_first(),
            forall|j: int| p <= j < n ==> #[trigger] chars@[j] != quote,
        decreases p,
    {
        p -= 1;
    }
    if p == 1 {
        proof {
            assert forall|k: int| !is_last_of(inner, quote, k) by {
                if 0 <= k < inner.len() {
                    assert(inner[k] == chars@[k + 1]);
                }
            }
        }
        return Err(quote_message("unterminated command quote in `", input));
    }
    proof {
        let k = p - 2;
        assert(is_last_of(inner, quote, k)) by {
            assert(inner[k] == chars@[p - 1]);
            assert forall|j: int| k < j < inner.len() implies inner[j] != quote by {
                assert(inner[j] == chars@[j + 1]);
            }
        }
        let c = choose|c: int| is_last_of(inner, quote, c);
        assert(c == k);
        assert(inner.subrange(0, k) =~= input@.subrange(1, p - 1));
    }
    Ok(String::from_str(input.substring_char(1, p - 1)))
}

/// The four integer fields and the command of a tuple line, after its name.
pub open spec fn fields_and_command(input: Seq<char>) -> Result<(u32, u32, u32, u32, Seq<char>), Seq<char>> {
    match next_u32_field(input) {
        Err(m) => Err(m),
        Ok((memory, r1)) => match next_u32_field(r1) {
            Err(m) => Err(m),
            Ok((cpu, r2)) => match next_u32_field(r2) {
                Err(m) => Err(m),
                Ok((io_read, r3)) => match next_u32_field(r3) {
                    Err(m) => Err(m),
                    Ok((io_write, r4)) => match quoted_command(trim(r4)) {
                        Err(m) => Err(m),
                        Ok(command) => Ok((memory, cpu, io_read, io_write, command)),
                    },
                },
            },
        },
    }
}

/// The trimmed text of `s`.
fn trim_str(s: &str) -> (t: &str)
    ensures
        t@ == trim(s@),
{
    let chars = chars_of(s);
    let (a, b) = trim_range(&chars, 0, chars.len());
    assert(chars@.subrange(0, chars@.len() as int) =~= chars@);
    s.substring_char(a, b)
}

/// Reads the memory, CPU, IO-read and IO-write limits and the command of a tuple line.
pub fn parse_fields_and_command(input: &str) -> (parsed: Result<(u32, u32, u32, u32, String), String>)
    ensures
        match fields_and_command(input@) {
            Ok((m, c, r, w, cmd)) => parsed matches Ok((m2, c2, r2, w2, cmd2)) && m2 == m && c2 == c
                && r2 == r && w2 == w && cmd2@ == cmd,
            Err(msg) => parsed matches Err(e) && e@ == msg,
        },
{
    let mut rest: &str = input;
    let memory_mb = match parse_next_u32_field(&mut rest) {
        Ok(v) => v,
        Err(e) => return Err(e),
    };
    let cpu_percent = match parse_next_u32_field(&mut rest) {
        Ok(v) => v,
        Err(e) => return Err(e),
    };
    let io_read = match parse_next_u32_field(&mut rest) {
        Ok(v) => v,
        Err(e) => return Err(e),
    };
    let io_write = match parse_next_u32_field(&mut rest) {
        Ok(v) => v,
        Err(e) => return Err(e),
    };
    let command = match parse_quoted_command(trim_str(rest)) {
        Ok(c) => c,
        Err(e) => return Err(e),
    };
    Ok((memory_mb, cpu_percent, io_read, io_write, command))
}

/// The directory of a Python service launched as `$SERVICES_PATH/<dir>/main.py`.
pub open spec fn service_dir_of(command: Seq<char>) -> Option<Seq<char>> {
    let prefix = "$SERVICES_PATH/"@;
    if exists|p: int| is_first_occurrence(command, prefix, p) {
        let p = choose|p: int| is_first_occurrence(command, prefix, p);
        let remainder = command.subrange(p + prefix.len(), command.len() as int);
        match split_once(remainder, '/') {
            Some((dir, _)) => if occurs_at(remainder, "/main.py"@, dir.len() as int) {
                Some(dir)
            } else {
                None
            },
            None => None,
        }
    } else {
        None
    }
}

/// The service directory of a launch command, when it runs `$SERVICES_PATH/<dir>/main.py`.
pub fn service_dir_from_command(command: &str) -> (dir: Option<String>)
    ensures
        opt_text(dir) == service_dir_of(command@),
{
    let chars = chars_of(command);
    let n = chars.len();
    let prefix = chars_of("$SERVICES_PATH/");
    proof {
        reveal_strlit("$SERVICES_PATH/");
    }
    match find_chars(&chars, &prefix) {
        None => {
            proof {
                assert forall|p: int| !is_first_occurrence(command@, "$SERVICES_PATH/"@, p) by {
                    if is_first_occurrence(command@, "$SERVICES_PATH/"@, p) {
                        assert(occurs_at(chars@, prefix@, p));
                    }
                }
            }
            None
        },
        Some(p) => {
            let start = p + prefix.len();
            proof {
                assert(is_first_occurrence(command@, "$SERVICES_PATH/"@, p as int));
                let q = choose|q: int| is_first_occurrence(command@, "$SERVICES_PATH/"@, q);
                if q < p {
                    assert(!occurs_at(chars@, prefix@, q));
                } else if q > p {
                    assert(!occurs_at(command@, "$SERVICES_PATH/"@, p as int));
                }
                assert(q == p);
            }
            match split_once_range(&chars, start, n, '/') {
                None => None,
                Some((slash, _)) => {
                    let main = chars_of("/main.py");
                    let ghost remainder = chars@.subrange(start as int, n as int);
                    let found = chars_occur_at(&chars, &main, slash);
                    proof {
                        reveal_strlit("/main.py");
                        let d = slash - start;
                        assert(occurs_at(chars@, main@, slash as int) == occurs_at(remainder, "/main.py"@, d)) by {
                            if slash + main@.len() <= n {
                                assert(chars@.subrange(slash as int, slash + main@.len()) =~= remainder.subrange(
                                    d,
                                    d + main@.len(),
                                ));
                            }
                        }
                    }
                    if found {
                        Some(String::from_str(command.substring_char(start, slash)))
                    } else {
                        None
                    }
                },
            }
        },
    }
}

/// A tuple line of the startup script, parsed: `'<name>', <memory>, <cpu>, <io read>, <io
/// write>, "<command>"`.
pub open spec fn tuple_line(line: Seq<char>, tier: StartupTier) -> Result<ServiceView, Seq<char>> {
    let trimmed = trim(line);
    match quoted_name(trimmed) {
        Err(m) => Err(m),
        Ok(name) => {
            let after_name = trim_start(trimmed.subrange(name.len() + 2int, trimmed.len() as int));
            if !(after_name.len() > 0 && after_name[0] == ',') {
                Err(quoting("expected comma after name in `"@, trimmed))
            } else {
                match fields_and_command(trim_start(after_name.drop_first())) {
                    Err(m) => Err(m),
                    Ok((memory, cpu, _, _, command)) => Ok(
                        ServiceView {
                            tmux_name: name,
                            service_dir: service_dir_of(command),
                            startup_tier: tier,
                            memory_mb: Some(memory),
                            cpu_percent: Some(cpu),
                            command,
                        },
                    ),
                }
            }
        },
    }
}

/// Parses one tuple line of the startup script into the service it launches.
pub fn parse_tuple_line(line: &str, tier: StartupTier) -> (service: Result<ExtractedService, String>)
    ensures
        match tuple_line(line@, tier) {
            Ok(v) => service matches Ok(s) && s@ == v,
            Err(m) => service matches Err(e) && e@ == m,
        },
{
    let trimmed = trim_str(line);
    let name = match parse_quoted_name(trimmed) {
        Ok(name) => name,
        Err(e) => return Err(e),
    };
    let chars = chars_of(trimmed);
    let n = chars.len();
    let ghost t = trimmed@;
    let name_len = name.as_str().unicode_len();
    proof {
        let k = choose|k: int| is_first_of(t.drop_first(), '\'', k);
        assert(name@ == t.drop_first().subrange(0, k));
        assert(name_len == k);
    }
    let start = skip_white_space(&chars, name_len + 2, n);
    if start == n || chars[start] != ',' {
        return Err(quote_message("expected comma after name in `", trimmed));
    }
    let fields_start = skip_white_space(&chars, start + 1, n);
    proof {
        let after = chars@.subrange(start as int, n as int);
        assert(after.drop_first() =~= chars@.subrange(start + 1, n as int));
    }
    let fields = trimmed.substring_char(fields_start, n);
    let (memory_mb, cpu_percent, _io_read, _io_write, command) = match parse_fields_and_command(fields) {
        Ok(parsed) => parsed,
        Err(e) => return Err(e),
    };
    let service_dir = service_dir_from_command(command.as_str());
    Ok(
        ExtractedService {
            tmux_name: name,
            service_dir,
            startup_tier: tier,
            memory_mb: Some(memory_mb),
            cpu_percent: Some(cpu_percent),
            command,
        },
    )
}

/// A line without the carriage return of a CRLF ending.
pub open spec fn strip_cr(line: Seq<char>) -> Seq<char> {
    if line.len() > 0 && line.last() == '\r' {
        line.drop_last()
    } else {
        line
    }
}

/// The lines of a text, as `str::lines` gives them: split at each '\n', a '\r' before it dropped,
/// and no empty line after a final line ending.
pub open spec fn text_lines(s: Seq<char>) -> Seq<Seq<char>>
    decreases s.len(),
{
    if s.len() == 0 {
        seq![]
    } else if exists|k: int| is_first_of(s, '\n', k) {
        let k = choose|k: int| is_first_of(s, '\n', k);
        seq![strip_cr(s.subrange(0, k))] + text_lines(s.subrange(k + 1, s.len() as int))
    } else {
        seq![s]
    }
}

/// The array the scan is in after a line whose trimmed text is `trimmed`.
pub open spec fn context_after(context: Option<StartupTier>, trimmed: Seq<char>) -> Option<StartupTier> {
    if trimmed == "PRIORITY_SERVICES=("@ {
        Some(StartupTier::Priority)
    } else if trimmed == "SERVICES=("@ {
        Some(StartupTier::Normal)
    } else if trimmed == ")"@ {
        None
    } else {
        context
    }
}

/// `line`, inside an array, starts a service tuple: its first non-blank character is a quote.
pub open spec fn is_tuple_line(context: Option<StartupTier>, line: Seq<char>) -> bool {
    let t = trim(line);
    &&& context is Some
    &&& t.len() > 0
    &&& t[0] == '\''
}

/// The services that the lines launch, scanning from line number `number` in array `context`;
/// or the message of the first tuple line that does not parse.
pub open spec fn scan_lines(lines: Seq<Seq<char>>, number: nat, context: Option<StartupTier>) -> Result<
    Seq<ServiceView>,
    Seq<char>,
>
    decreases lines.len(),
{
    if lines.len() == 0 {
        Ok(seq![])
    } else {
        let line = lines[0];
        let next = context_after(context, trim(line));
        if is_tuple_line(context, line) {
            match tuple_line(line, context->0) {
                Err(m) => Err("line "@ + nat_digits(number) + ": "@ + m),
                Ok(service) => match scan_lines(lines.drop_first(), number + 1, next) {
                    Ok(rest) => Ok(seq![service] + rest),
                    Err(m) => Err(m),
                },
            }
        } else {
            scan_lines(lines.drop_first(), number + 1, next)
        }
    }
}

/// `prefix` followed by what a scan of the rest gives.
pub open spec fn after_prefix(prefix: Seq<ServiceView>, rest: Result<Seq<ServiceView>, Seq<char>>) -> Result<
    Seq<ServiceView>,
    Seq<char>,
> {
    match rest {
        Ok(r) => Ok(prefix + r),
        Err(m) => Err(m),
    }
}

/// The views of a list of services.
pub open spec fn services_view(services: Seq<ExtractedService>) -> Seq<ServiceView> {
    services.map_values(|s: ExtractedService| s@)
}

/// Whether `chars[lo..hi]` spells `word`.
fn range_is(chars: &[char], lo: usize, hi: usize, word: &str) -> (same: bool)
    requires
        lo <= hi <= chars@.len(),
    ensures
        same == (chars@.subrange(lo as int, hi as int) == word@),
{
    let w = chars_of(word);
    crate::text::range_eq(chars, lo, hi, &w)
}

/// The end of the line that starts at `pos`, before its "\r\n" or "\n", and the start of the
/// next line.
fn line_bounds(chars: &[char], pos: usize) -> (bounds: (usize, usize))
    requires
        pos < chars@.len(),
    ensures
        pos <= bounds.0 <= bounds.1 <= chars@.len(),
        pos < bounds.1,
        text_lines(chars@.subrange(pos as int, chars@.len() as int)) == seq![
            chars@.subrange(pos as int, bounds.0 as int),
        ] + text_lines(chars@.subrange(bounds.1 as int, chars@.len() as int)),
{
    let n = chars.len();
    let ghost rest = chars@.subrange(pos as int, n as int);
    let (line_end, next_pos) = match find_char(chars, pos, n, '\n') {
        Some(k) => (k, k + 1),
        None => (n, n),
    };
    let line_stop = if line_end < n && line_end > pos && chars[line_end - 1] == '\r' {
        line_end - 1
    } else {
        line_end
    };
    proof {
        let line = chars@.subrange(pos as int, line_stop as int);
        if line_end < n {
            let k = line_end - pos;
            assert(is_first_of(rest, '\n', k));
            let c = choose|c: int| is_first_of(rest, '\n', c);
            assert(c == k);
            assert(rest.subrange(0, k) =~= chars@.subrange(pos as int, line_end as int));
            assert(rest.subrange(k + 1, rest.len() as int) =~= chars@.subrange(next_pos as int, n as int));
            assert(strip_cr(rest.subrange(0, k)) =~= line);
        } else {
            assert forall|c: int| !is_first_of(rest, '\n', c) by {
                if 0 <= c < rest.len() {
                    assert(rest[c] == chars@[pos + c]);
                }
            }
            assert(rest =~= line);
            assert(chars@.subrange(next_pos as int, n as int) =~= Seq::<char>::empty());
            assert(text_lines(chars@.subrange(next_pos as int, n as int)) =~= Seq::<Seq<char>>::empty());
            assert(seq![line] + Seq::<Seq<char>>::empty() =~= seq![line]);
        }
    }
    (line_stop, next_pos)
}

/// A scan over a first line and the lines after it takes that line first.
proof fn lemma_scan_first(line: Seq<char>, later: Seq<Seq<char>>, number: nat, context: Option<StartupTier>)
    ensures
        ({
            let lines = seq![line] + later;
            let next = context_after(context, trim(line));
            scan_lines(lines, number, context) == if is_tuple_line(context, line) {
                match tuple_line(line, context->0) {
                    Err(m) => Err("line "@ + nat_digits(number) + ": "@ + m),
                    Ok(service) => match scan_lines(later, number + 1, next) {
                        Ok(rest) => Ok(seq![service] + rest),
                        Err(m) => Err(m),
                    },
                }
            } else {
                scan_lines(later, number + 1, next)
            }
        }),
{
    let lines = seq![line] + later;
    assert(lines[0] == line);
    assert(lines.drop_first() =~= later);
}

/// Pushing a parsed service moves it from the scan of the rest into the prefix.
proof fn lemma_after_prefix_push(before: Seq<ExtractedService>, service: ExtractedService, tail: Result<Seq<ServiceView>, Seq<char>>)
    ensures
        after_prefix(
            services_view(before),
            match tail {
                Ok(rest) => Ok(seq![service@] + rest),
                Err(m) => Err(m),
            },
        ) == after_prefix(services_view(before.push(service)), tail),
{
    assert(services_view(before.push(service)) =~= services_view(before).push(service@));
    match tail {
        Ok(r) => {
            assert(services_view(before) + (seq![service@] + r) =~= services_view(before).push(service@) + r);
        },
        Err(_) => {},
    }
}

/// The message for a tuple line that does not parse: "line <number>: <message>".
fn line_message(number: usize, message: String) -> (text: String)
    ensures
        text@ == "line "@ + nat_digits(number as nat) + ": "@ + message@,
{
    let mut text = String::from_str("line ");
    let digits = crate::text::format_u64(number as u64);
    text.append(digits.as_str());
    text.append(": ");
    text.append(message.as_str());
    text
}

/// The services that the core startup script `contents` launches, in order: each quoted tuple
/// line inside the `PRIORITY_SERVICES=(` or `SERVICES=(` array is one service; a tuple line that
/// does not parse fails the whole extraction with its line number.
pub fn extract_services(contents: &str) -> (services: Result<Vec<ExtractedService>, ExtractError>)
    requires
        contents@.len() < usize::MAX,
    ensures
        match scan_lines(text_lines(contents@), 1, None) {
            Ok(v) => services matches Ok(list) && services_view(list@) == v,
            Err(m) => services matches Err(ExtractError::Parse(e)) && e@ == m,
        },
{
    let chars = chars_of(contents);
    let n = chars.len();
    let mut services: Vec<ExtractedService> = Vec::new();
    let mut context: Option<StartupTier> = None;
    let mut pos: usize = 0;
    let mut number: usize = 1;
    assert(chars@.subrange(0, n as int) =~= contents@);
    while pos < n
        invariant
            pos <= n == chars@.len(),
            n < usize::MAX,
            chars@ == contents@,
            1 <= number <= pos + 1,
            scan_lines(text_lines(contents@), 1, None) == after_prefix(
                services_view(services@),
                scan_lines(text_lines(chars@.subrange(pos as int, n as int)), number as nat, context),
            ),
        decreases n - pos,
    {
        let (line_stop, next_pos) = line_bounds(&chars, pos);
        let ghost line = chars@.subrange(pos as int, line_stop as int);
        let ghost later = text_lines(chars@.subrange(next_pos as int, n as int));
        let (a, b) = trim_range(&chars, pos, line_stop);
        let next_context = if range_is(&chars, a, b, "PRIORITY_SERVICES=(") {
            Some(StartupTier::Priority)
        } else if range_is(&chars, a, b, "SERVICES=(") {
            Some(StartupTier::Normal)
        } else if range_is(&chars, a, b, ")") {
            None
        } else {
            context
        };
        proof {
            lemma_scan_first(line, later, number as nat, context);
        }
        if context.is_some() && a < b && chars[a] == '\'' {
            let tier = match context {
                Some(t) => t,
                None => StartupTier::Normal,
            };
            let text = contents.substring_char(pos, line_stop);
            match parse_tuple_line(text, tier) {
                Ok(service) => {
                    let ghost before = services@;
                    services.push(service);
                    proof {
                        lemma_after_prefix_push(before, service, scan_lines(later, (number + 1) as nat, next_context));
                    }
                },
                Err(message) => {
                    return Err(ExtractError::Parse(line_message(number, message)));
                },
            }
        }
        context = next_context;
        pos = next_pos;
        number = number + 1;
    }
    proof {
        assert(chars@.subrange(pos as int, n as int) =~= Seq::<char>::empty());
        assert(services_view(services@) + Seq::<ServiceView>::empty() =~= services_view(services@));
    }
    Ok(services)
}

/// The resource limits observed for a service.
#[derive(Clone, Copy, Debug, PartialEq, Eq, Structural)]
pub struct ResourceLimits {
    pub memory_mb: Option<u32>,
    pub cpu_percent: Option<u32>,
}

/// What was observed of a service on a running vehicle; `None` where nothing was observed.
#[derive(Debug)]
pub struct ObservedFacts {
    pub id: String,
    pub tmux_name: Option<String>,
    pub startup_tier: Option<StartupTier>,
    pub resource_limits: Option<ResourceLimits>,
}

/// The value of observed facts.
pub struct FactsView {
    pub id: Seq<char>,
    pub tmux_name: Option<Seq<char>>,
    pub startup_tier: Option<StartupTier>,
    pub resource_limits: Option<ResourceLimits>,
}

impl View for ObservedFacts {
    type V = FactsView;

    open spec fn view(&self) -> FactsView {
        FactsView {
            id: self.id@,
            tmux_name: opt_text(self.tmux_name),
            startup_tier: self.startup_tier,
            resource_limits: self.resource_limits,
        }
    }
}

/// A field on which the startup script and the observation disagree.
#[derive(Debug)]
pub struct DriftFinding {
    pub field: String,
    pub message: String,
}

/// The disagreements between the startup script and the observations.
#[derive(Debug)]
pub struct DriftReport {
    pub findings: Vec<DriftFinding>,
}

impl DriftReport {
    /// Whether any field disagrees.
    pub fn has_drift(&self) -> (drift: bool)
        ensures
            drift == (self.findings@.len() > 0),
    {
        self.findings.len() > 0
    }
}

/// `k` is the first service that `p` accepts.
pub open spec fn first_where(s: Seq<ServiceView>, k: int, p: spec_fn(ServiceView) -> bool) -> bool {
    &&& 0 <= k < s.len()
    &&& p(s[k])
    &&& forall|j: int| 0 <= j < k ==> !p(#[trigger] s[j])
}

/// No service is accepted by `p`.
pub open spec fn none_where(s: Seq<ServiceView>, p: spec_fn(ServiceView) -> bool) -> bool {
    forall|j: int| 0 <= j < s.len() ==> !p(#[trigger] s[j])
}

/// Services whose directory is `id`.
pub open spec fn dir_is(id: Seq<char>) -> spec_fn(ServiceView) -> bool {
    |v: ServiceView| v.service_dir == Some(id)
}

/// Services whose tmux session is named `name`.
pub open spec fn tmux_is(name: Seq<char>) -> spec_fn(ServiceView) -> bool {
    |v: ServiceView| v.tmux_name == name
}

/// `k` is the extracted service that the observation refers to: the first whose directory is
/// the observed id; else the first whose tmux name is the id; else the first whose tmux name is
/// the observed tmux name.
pub open spec fn matched_at(s: Seq<ServiceView>, f: FactsView, k: int) -> bool {
    ||| first_where(s, k, dir_is(f.id))
    ||| none_where(s, dir_is(f.id)) && first_where(s, k, tmux_is(f.id))
    ||| none_where(s, dir_is(f.id)) && none_where(s, tmux_is(f.id)) && (f.tmux_name matches Some(t) && first_where(
        s,
        k,
        tmux_is(t),
    ))
}

/// No extracted service matches the observation.
pub open spec fn unmatched(s: Seq<ServiceView>, f: FactsView) -> bool {
    &&& none_where(s, dir_is(f.id))
    &&& none_where(s, tmux_is(f.id))
    &&& (f.tmux_name matches Some(t) ==> none_where(s, tmux_is(t)))
}

/// The first service accepted by `p`, as a position.
fn position_where_dir(extracted: &[ExtractedService], id: &str) -> (pos: Option<usize>)
    ensures
        match pos {
            Some(k) => first_where(services_view(extracted@), k as int, dir_is(id@)),
            None => none_where(services_view(extracted@), dir_is(id@)),
        },
{
    let ghost sv = services_view(extracted@);
    let mut k: usize = 0;
    while k < extracted.len()
        invariant
            k <= extracted@.len(),
            sv == services_view(extracted@),
            forall|j: int| 0 <= j < k ==> !dir_is(id@)(#[trigger] sv[j]),
        decreases extracted@.len() - k,
    {
        assert(sv[k as int] == extracted@[k as int]@);
        let hit = match &extracted[k].service_dir {
            Some(dir) => crate::text::str_eq(dir.as_str(), id),
            None => false,
        };
        if hit {
            return Some(k);
        }
        k += 1;
    }
    None
}

fn position_where_tmux(extracted: &[ExtractedService], name: &str) -> (pos: Option<usize>)
    ensures
        match pos {
            Some(k) => first_where(services_view(extracted@), k as int, tmux_is(name@)),
            None => none_where(services_view(extracted@), tmux_is(name@)),
        },
{
    let ghost sv = services_view(extracted@);
    let mut k: usize = 0;
    while k < extracted.len()
        invariant
            k <= extracted@.len(),
            sv == services_view(extracted@),
            forall|j: int| 0 <= j < k ==> !tmux_is(name@)(#[trigger] sv[j]),
        decreases extracted@.len() - k,
    {
        assert(sv[k as int] == extracted@[k as int]@);
        if crate::text::str_eq(extracted[k].tmux_name.as_str(), name) {
            return Some(k);
        }
        k += 1;
    }
    None
}

/// The extracted service that an observation refers to.
pub fn find_extracted<'a>(extracted: &'a [ExtractedService], facts: &ObservedFacts) -> (found: Option<&'a ExtractedService>)
    ensures
        match found {
            Some(s) => exists|k: int| matched_at(services_view(extracted@), facts@, k) && extracted@[k] == *s,
            None => unmatched(services_view(extracted@), facts@),
        },
{
    let id = facts.id.as_str();
    if let Some(k) = position_where_dir(extracted, id) {
        return Some(&extracted[k]);
    }
    if let Some(k) = position_where_tmux(extracted, id) {
        return Some(&extracted[k]);
    }
    match &facts.tmux_name {
        Some(tmux) => match position_where_tmux(extracted, tmux.as_str()) {
            Some(k) => Some(&extracted[k]),
            None => None,
        },
        None => None,
    }
}

/// The extracted service that an observation refers to, for verification runs.
pub fn find_extracted_for_verification<'a>(extracted: &'a [ExtractedService], facts: &ObservedFacts) -> (found: Option<&'a ExtractedService>)
    ensures
        match found {
            Some(s) => exists|k: int| matched_at(services_view(extracted@), facts@, k) && extracted@[k] == *s,
            None => unmatched(services_view(extracted@), facts@),
        },
{
    find_extracted(extracted, facts)
}

/// The `Debug` text of a startup tier.
pub open spec fn tier_text(t: StartupTier) -> Seq<char> {
    match t {
        StartupTier::Priority => "Priority"@,
        StartupTier::Normal => "Normal"@,
    }
}

/// The `Debug` text of an optional limit.
pub open spec fn limit_text(v: Option<u32>) -> Seq<char> {
    match v {
        Some(x) => "Some("@ + nat_digits(x as nat) + ")"@,
        None => "None"@,
    }
}

fn format_tier(t: StartupTier) -> (text: String)
    ensures
        text@ == tier_text(t),
{
    match t {
        StartupTier::Priority => String::from_str("Priority"),
        StartupTier::Normal => String::from_str("Normal"),
    }
}

fn format_limit(v: Option<u32>) -> (text: String)
    ensures
        text@ == limit_text(v),
{
    match v {
        Some(x) => {
            let mut text = String::from_str("Some(");
            let digits = crate::text::format_u64(x as u64);
            text.append(digits.as_str());
            text.append(")");
            text
        },
        None => String::from_str("None"),
    }
}

/// A drift finding, as field and message.
pub type FindingView = (Seq<char>, Seq<char>);

/// The finding for field `field` of service `id`, observed `observed` and extracted `extracted`.
pub open spec fn finding(id: Seq<char>, field: Seq<char>, observed: Seq<char>, extracted: Seq<char>) -> FindingView {
    (id + "."@ + field, "observed "@ + observed + ", extracted "@ + extracted)
}

/// The findings for one matched service: startup tier, then memory, then CPU, each where the
/// observation is known and disagrees.
pub open spec fn service_findings(s: ServiceView, f: FactsView) -> Seq<FindingView> {
    let tier: Seq<FindingView> = match f.startup_tier {
        Some(v) => if v != s.startup_tier {
            seq![finding(f.id, "startup_tier"@, tier_text(v), tier_text(s.startup_tier))]
        } else {
            seq![]
        },
        None => seq![],
    };
    let limits: Seq<FindingView> = match f.resource_limits {
        Some(l) => (if l.memory_mb != s.memory_mb {
            seq![finding(f.id, "memory_mb"@, limit_text(l.memory_mb), limit_text(s.memory_mb))]
        } else {
            seq![]
        }) + (if l.cpu_percent != s.cpu_percent {
            seq![finding(f.id, "cpu_percent"@, limit_text(l.cpu_percent), limit_text(s.cpu_percent))]
        } else {
            seq![]
        }),
        None => seq![],
    };
    tier + limits
}

/// The findings for every observed service that matches an extracted one, in the order of the
/// observations.
pub open spec fn drift_findings(s: Seq<ServiceView>, facts: Seq<FactsView>) -> Seq<FindingView>
    decreases facts.len(),
{
    if facts.len() == 0 {
        seq![]
    } else {
        let f = facts.last();
        let here = if unmatched(s, f) {
            seq![]
        } else {
            service_findings(s[choose|k: int| matched_at(s, f, k)], f)
        };
        drift_findings(s, facts.drop_last()) + here
    }
}

/// The values of a list of observations.
pub open spec fn facts_view(facts: Seq<ObservedFacts>) -> Seq<FactsView> {
    facts.map_values(|f: ObservedFacts| f@)
}

/// The values of a list of findings.
pub open spec fn findings_view(findings: Seq<DriftFinding>) -> Seq<FindingView> {
    findings.map_values(|d: DriftFinding| (d.field@, d.message@))
}

/// A matched service is the one `matched_at` names, whichever witness is taken.
pub proof fn lemma_matched_unique(s: Seq<ServiceView>, f: FactsView, k1: int, k2: int)
    requires
        matched_at(s, f, k1),
        matched_at(s, f, k2),
    ensures
        k1 == k2,
{
    if k1 < k2 {
        assert(!matched_at(s, f, k2) || k1 == k2) by {
            if first_where(s, k1, dir_is(f.id)) {
                assert(dir_is(f.id)(s[k1]));
            } else if none_where(s, dir_is(f.id)) && first_where(s, k1, tmux_is(f.id)) {
                assert(tmux_is(f.id)(s[k1]));
                assert(!dir_is(f.id)(s[k2]));
            } else {
                assert(!dir_is(f.id)(s[k2]));
                assert(!tmux_is(f.id)(s[k2]));
            }
        }
    } else if k2 < k1 {
        assert(!matched_at(s, f, k1) || k1 == k2) by {
            if first_where(s, k2, dir_is(f.id)) {
                assert(dir_is(f.id)(s[k2]));
            } else if none_where(s, dir_is(f.id)) && first_where(s, k2, tmux_is(f.id)) {
                assert(tmux_is(f.id)(s[k2]));
                assert(!dir_is(f.id)(s[k1]));
            } else {
                assert(!dir_is(f.id)(s[k1]));
                assert(!tmux_is(f.id)(s[k1]));
            }
        }
    }
}

/// Appends `field` and `message` as a finding.
fn push_finding(findings: &mut Vec<DriftFinding>, id: &str, field: &str, observed: String, extracted: String)
    ensures
        findings_view(final(findings)@) == findings_view(old(findings)@).push(
            finding(id@, field@, observed@, extracted@),
        ),
{
    let mut name = String::from_str(id);
    name.append(".");
    name.append(field);
    let mut message = String::from_str("observed ");
    message.append(observed.as_str());
    message.append(", extracted ");
    message.append(extracted.as_str());
    let ghost before = findings@;
    findings.push(DriftFinding { field: name, message });
    proof {
        assert(findings_view(findings@) =~= findings_view(before).push(finding(id@, field@, observed@, extracted@)));
    }
}

/// Compares the services that the startup script launches with what was observed of them: each
/// known startup tier, memory limit and CPU limit that disagrees is a finding.
pub fn check_against_observed(extracted: &[ExtractedService], services: &[ObservedFacts]) -> (report: DriftReport)
    ensures
        findings_view(report.findings@) == drift_findings(services_view(extracted@), facts_view(services@)),
{
    let ghost sv = services_view(extracted@);
    let mut findings: Vec<DriftFinding> = Vec::new();
    let mut i: usize = 0;
    assert(facts_view(services@).take(0) =~= Seq::<FactsView>::empty());
    while i < services.len()
        invariant
            i <= services@.len(),
            sv == services_view(extracted@),
            findings_view(findings@) == drift_findings(sv, facts_view(services@).take(i as int)),
        decreases services@.len() - i,
    {
        let facts = &services[i];
        let ghost fv = facts@;
        let ghost before = findings_view(findings@);
        proof {
            let all = facts_view(services@);
            assert(all.take(i + 1).drop_last() =~= all.take(i as int));
            assert(all.take(i + 1).last() == fv);
        }
        match find_extracted(extracted, facts) {
            None => {
                assert(before + Seq::<FindingView>::empty() =~= before);
            },
            Some(service) => {
                let ghost found = choose|k: int| matched_at(sv, fv, k) && extracted@[k] == *service;
                proof {
                    let c = choose|k: int| matched_at(sv, fv, k);
                    lemma_matched_unique(sv, fv, c, found);
                    assert(sv[found] == service@);
                    if unmatched(sv, fv) {
                        assert(!matched_at(sv, fv, found)) by {
                            assert(!dir_is(fv.id)(sv[found]));
                            assert(!tmux_is(fv.id)(sv[found]));
                        }
                    }
                }
                let id = facts.id.as_str();
                if let Some(value) = facts.startup_tier {
                    if value != service.startup_tier {
                        push_finding(&mut findings, id, "startup_tier", format_tier(value), format_tier(service.startup_tier));
                    }
                }
                if let Some(limits) = facts.resource_limits {
                    if limits.memory_mb != service.memory_mb {
                        push_finding(&mut findings, id, "memory_mb", format_limit(limits.memory_mb), format_limit(service.memory_mb));
                    }
                    if limits.cpu_percent != service.cpu_percent {
                        push_finding(&mut findings, id, "cpu_percent", format_limit(limits.cpu_percent), format_limit(service.cpu_percent));
                    }
                }
                proof {
                    assert(findings_view(findings@) =~= before + service_findings(service@, fv));
                }
            },
        }
        i += 1;
    }
    assert(facts_view(services@).take(services@.len() as int) =~= facts_view(services@));
    DriftReport { findings }
}

} // verus!
