use vstd::prelude::*;

use crate::catalog::extract::opt_text;
use crate::text::{chars_of, nat_digits, occurs_at, range_eq, str_eq, trim, trim_range};

verus! {

/// The outcome of verifying a journey.
#[derive(Debug)]
pub enum Verdict {
    Pass,
    Fail(String),
    Inconclusive(String),
    Error,
}

/// The value of a verdict.
pub enum VerdictView {
    Pass,
    Fail(Seq<char>),
    Inconclusive(Seq<char>),
    Error,
}

impl View for Verdict {
    type V = VerdictView;

    open spec fn view(&self) -> VerdictView {
        match self {
            Verdict::Pass => VerdictView::Pass,
            Verdict::Fail(s) => VerdictView::Fail(s@),
            Verdict::Inconclusive(s) => VerdictView::Inconclusive(s@),
            Verdict::Error => VerdictView::Error,
        }
    }
}

/// One cell of the coverage matrix: the state of a journey on one side (backend or UI).
#[derive(Debug)]
pub struct Cell {
    pub state: Verdict,
    pub reason: Option<String>,
    pub dut: Option<String>,
    pub report_path: Option<String>,
    pub utc: Option<String>,
}

/// The value of a cell.
pub struct CellView {
    pub state: VerdictView,
    pub reason: Option<Seq<char>>,
    pub dut: Option<Seq<char>>,
    pub report_path: Option<Seq<char>>,
    pub utc: Option<Seq<char>>,
}

impl View for Cell {
    type V = CellView;

    open spec fn view(&self) -> CellView {
        CellView {
            state: self.state@,
            reason: opt_text(self.reason),
            dut: opt_text(self.dut),
            report_path: opt_text(self.report_path),
            utc: opt_text(self.utc),
        }
    }
}

/// `a` comes no later than `b` in the lexicographic order of their characters (the order of
/// their UTF-8 bytes).
pub open spec fn text_le(a: Seq<char>, b: Seq<char>) -> bool
    decreases a.len(),
{
    if a.len() == 0 {
        true
    } else if b.len() == 0 {
        false
    } else if a[0] != b[0] {
        a[0] < b[0]
    } else {
        text_le(a.drop_first(), b.drop_first())
    }
}

/// Whether `old <= new` in the lexicographic order of their characters.
pub fn text_at_least(new: &str, old: &str) -> (later: bool)
    ensures
        later == text_le(old@, new@),
{
    let a = chars_of(old);
    let b = chars_of(new);
    let mut k: usize = 0;
    assert(a@.subrange(0, a@.len() as int) =~= a@);
    assert(b@.subrange(0, b@.len() as int) =~= b@);
    while k < a.len() && k < b.len() && a[k] == b[k]
        invariant
            k <= a@.len(),
            k <= b@.len(),
            a@.subrange(0, k as int) == b@.subrange(0, k as int),
            text_le(a@, b@) == text_le(a@.subrange(k as int, a@.len() as int), b@.subrange(k as int, b@.len() as int)),
        decreases a@.len() - k,
    {
        proof {
            let x = a@.subrange(k as int, a@.len() as int);
            let y = b@.subrange(k as int, b@.len() as int);
            assert(x.drop_first() =~= a@.subrange(k + 1, a@.len() as int));
            assert(y.drop_first() =~= b@.subrange(k + 1, b@.len() as int));
            assert(a@.subrange(0, k + 1) =~= b@.subrange(0, k + 1)) by {
                assert(a@.subrange(0, k + 1) =~= a@.subrange(0, k as int).push(a@[k as int]));
                assert(b@.subrange(0, k + 1) =~= b@.subrange(0, k as int).push(b@[k as int]));
            }
        }
        k += 1;
    }
    proof {
        let x = a@.subrange(k as int, a@.len() as int);
        let y = b@.subrange(k as int, b@.len() as int);
        if k < a@.len() && k < b@.len() {
            assert(x[0] == a@[k as int]);
            assert(y[0] == b@[k as int]);
        }
    }
    if k == a.len() {
        true
    } else if k == b.len() {
        false
    } else {
        a[k] < b[k]
    }
}

/// The cell that an overlay leaves, given the ranks of the incoming and the current cell: a
/// hard exclusion stays; a higher rank wins; between equal ranks of at least 3 the later (or the
/// only) timestamp wins; between equal ranks of 1 a cell with a report wins over one without.
pub open spec fn overlay_replaces(current: CellView, incoming: CellView, incoming_rank: u32, current_rank: u32) -> bool {
    if current.reason == Some("hard_exclude"@) {
        false
    } else if incoming_rank > current_rank {
        true
    } else if incoming_rank == current_rank && incoming_rank >= 3 {
        match (incoming.utc, current.utc) {
            (Some(new), Some(old)) => text_le(old, new),
            (Some(_), None) => true,
            _ => false,
        }
    } else {
        incoming_rank == current_rank && incoming_rank == 1 && incoming.report_path is Some
            && current.report_path is None
    }
}

fn opt_is(s: &Option<String>, word: &str) -> (same: bool)
    ensures
        same == (opt_text(*s) == Some(word@)),
{
    match s {
        Some(t) => str_eq(t.as_str(), word),
        None => false,
    }
}

impl Cell {
    /// A cell with nothing recorded.
    pub fn empty() -> (cell: Cell)
        ensures
            cell@.state is Error,
            cell@.reason is None && cell@.dut is None && cell@.report_path is None && cell@.utc is None,
    {
        Cell { state: Verdict::Error, reason: None, dut: None, report_path: None, utc: None }
    }

    /// A cell planned for a measurement.
    pub fn planned() -> (cell: Cell)
        ensures
            cell@.state == VerdictView::Inconclusive(Seq::<char>::empty()),
            cell@.reason is None && cell@.dut is None && cell@.report_path is None && cell@.utc is None,
    {
        Cell { state: Verdict::Inconclusive(String::new()), reason: None, dut: None, report_path: None, utc: None }
    }

    /// A cell skipped for `reason`.
    pub fn skip(reason: &str) -> (cell: Cell)
        ensures
            cell@.state == VerdictView::Inconclusive(Seq::<char>::empty()),
            cell@.reason == Some(reason@),
            cell@.dut is None && cell@.report_path is None && cell@.utc is None,
    {
        Cell {
            state: Verdict::Inconclusive(String::new()),
            reason: Some(String::from_str(reason)),
            dut: None,
            report_path: None,
            utc: None,
        }
    }

    /// Lays a measured cell over this one; `incoming_rank` and `current_rank` are the matrix
    /// ranks of the two cells' states and reasons.
    pub fn overlay(&mut self, incoming: Cell, incoming_rank: u32, current_rank: u32)
        ensures
            final(self)@ == (if overlay_replaces(old(self)@, incoming@, incoming_rank, current_rank) {
                incoming@
            } else {
                old(self)@
            }),
    {
        if opt_is(&self.reason, "hard_exclude") {
            return;
        }
        if incoming_rank > current_rank {
            *self = incoming;
            return;
        }
        if incoming_rank == current_rank && incoming_rank >= 3 {
            let replace = match (&incoming.utc, &self.utc) {
                (Some(new), Some(old)) => text_at_least(new.as_str(), old.as_str()),
                (Some(_), None) => true,
                _ => false,
            };
            if replace {
                *self = incoming;
            }
            return;
        }
        if incoming_rank == current_rank && incoming_rank == 1 && incoming.report_path.is_some()
            && self.report_path.is_none() {
            *self = incoming;
        }
    }
}

/// One verification entry of a report.
#[derive(Debug)]
pub struct RawVerification {
    pub id: String,
    pub use_case: String,
    pub result: String,
    pub verdict: String,
    pub skip_reason: Option<String>,
}

impl RawVerification {
    /// The journey an entry is about: its use case, or its id when the use case is empty.
    pub fn journey_key(&self) -> (key: &str)
        ensures
            key@ == (if self.use_case@.len() > 0 { self.use_case@ } else { self.id@ }),
    {
        if self.use_case.as_str().unicode_len() > 0 {
            self.use_case.as_str()
        } else {
            self.id.as_str()
        }
    }

    /// The verdict text of an entry: its verdict, or its result when the verdict is empty.
    pub fn verdict_key(&self) -> (key: &str)
        ensures
            key@ == (if self.verdict@.len() > 0 { self.verdict@ } else { self.result@ }),
    {
        if self.verdict.as_str().unicode_len() > 0 {
            self.verdict.as_str()
        } else {
            self.result.as_str()
        }
    }
}

/// The device under test named by a report.
#[derive(Debug)]
pub struct RawDut {
    pub tag: String,
}

/// `s` with every leading repetition of `prefix` removed, as `str::trim_start_matches` does.
pub open spec fn strip_prefixes(s: Seq<char>, prefix: Seq<char>) -> Seq<char>
    decreases s.len(),
{
    if prefix.len() > 0 && occurs_at(s, prefix, 0) {
        strip_prefixes(s.subrange(prefix.len() as int, s.len() as int), prefix)
    } else {
        s
    }
}

/// The text before the first '/' or ':' (all of it when there is neither).
pub open spec fn host_part(s: Seq<char>) -> Seq<char> {
    if exists|k: int| 0 <= k < s.len() && (s[k] == '/' || s[k] == ':') {
        s.subrange(0, choose|k: int| is_first_separator(s, k))
    } else {
        s
    }
}

/// `k` is the first '/' or ':' of `s`.
pub open spec fn is_first_separator(s: Seq<char>, k: int) -> bool {
    &&& 0 <= k < s.len()
    &&& (s[k] == '/' || s[k] == ':')
    &&& forall|j: int| 0 <= j < k ==> s[j] != '/' && s[j] != ':'
}

/// The host of a report's base URL: trimmed, without leading "http://" and then "https://"
/// prefixes, up to the first '/' or ':'.
pub open spec fn base_host(base: Seq<char>) -> Seq<char> {
    host_part(strip_prefixes(strip_prefixes(trim(base), "http://"@), "https://"@))
}

/// The label of the device a report ran against: the host of its base URL, else the tag of its
/// device when that is not empty.
pub open spec fn dut_label_of(base: Seq<char>, dut_tag: Option<Seq<char>>) -> Option<Seq<char>> {
    if base_host(base).len() > 0 {
        Some(base_host(base))
    } else {
        match dut_tag {
            Some(tag) => if tag.len() > 0 {
                Some(tag)
            } else {
                None
            },
            None => None,
        }
    }
}

/// The start of `chars[lo..hi]` once every leading repetition of `prefix` is skipped.
fn skip_prefixes(chars: &[char], lo: usize, hi: usize, prefix: &str) -> (p: usize)
    requires
        lo <= hi <= chars@.len(),
    ensures
        lo <= p <= hi,
        chars@.subrange(p as int, hi as int) == strip_prefixes(chars@.subrange(lo as int, hi as int), prefix@),
{
    let pre = chars_of(prefix);
    let mut p: usize = lo;
    while pre.len() > 0 && pre.len() <= hi - p && range_eq(chars, p, p + pre.len(), &pre)
        invariant
            lo <= p <= hi <= chars@.len(),
            pre@ == prefix@,
            strip_prefixes(chars@.subrange(lo as int, hi as int), prefix@) == strip_prefixes(
                chars@.subrange(p as int, hi as int),
                prefix@,
            ),
        decreases hi - p,
    {
        proof {
            let s = chars@.subrange(p as int, hi as int);
            assert(s.subrange(0, pre@.len() as int) =~= chars@.subrange(p as int, p + pre@.len()));
            assert(s.subrange(pre@.len() as int, s.len() as int) =~= chars@.subrange(p + pre@.len(), hi as int));
        }
        p = p + pre.len();
    }
    proof {
        let s = chars@.subrange(p as int, hi as int);
        if pre@.len() > 0 && pre@.len() <= hi - p {
            assert(s.subrange(0, pre@.len() as int) =~= chars@.subrange(p as int, p + pre@.len()));
        }
    }
    p
}

/// The label of the device a report ran against.
pub fn dut_label(base: &str, dut: Option<&RawDut>) -> (label: Option<String>)
    ensures
        opt_text(label) == dut_label_of(
            base@,
            match dut {
                Some(d) => Some(d.tag@),
                None => None,
            },
        ),
{
    let chars = chars_of(base);
    let n = chars.len();
    let (a, b) = trim_range(&chars, 0, n);
    assert(chars@.subrange(0, n as int) =~= base@);
    let p1 = skip_prefixes(&chars, a, b, "http://");
    let p2 = skip_prefixes(&chars, p1, b, "https://");
    let ghost rest = chars@.subrange(p2 as int, b as int);
    let mut k: usize = p2;
    while k < b && chars[k] != '/' && chars[k] != ':'
        invariant
            p2 <= k <= b <= n == chars@.len(),
            rest == chars@.subrange(p2 as int, b as int),
            forall|j: int| 0 <= j < k - p2 ==> rest[j] != '/' && rest[j] != ':',
        decreases b - k,
    {
        assert(rest[k - p2] == chars@[k as int]);
        k += 1;
    }
    proof {
        if k < b {
            assert(rest[k - p2] == chars@[k as int]);
            assert(is_first_separator(rest, k - p2));
            let c = choose|c: int| is_first_separator(rest, c);
            assert(c == k - p2);
        } else {
            assert forall|j: int| !(0 <= j < rest.len() && (rest[j] == '/' || rest[j] == ':')) by {}
            assert(rest.subrange(0, rest.len() as int) =~= rest);
        }
        assert(rest.subrange(0, k - p2) =~= chars@.subrange(p2 as int, k as int));
    }
    if k > p2 {
        return Some(String::from_str(base.substring_char(p2, k)));
    }
    match dut {
        Some(d) => {
            if d.tag.as_str().unicode_len() == 0 {
                None
            } else {
                Some(d.tag.clone())
            }
        },
        None => None,
    }
}

/// The mark of a flag in the matrix table: "y" or ".".
pub open spec fn flag_text(value: bool) -> Seq<char> {
    if value {
        "y"@
    } else {
        "."@
    }
}

/// The mark of a flag in the matrix table.
pub fn yn(value: bool) -> (mark: &'static str)
    ensures
        mark@ == flag_text(value),
{
    if value {
        "y"
    } else {
        "."
    }
}

/// Who acts in a journey step.
#[derive(Debug)]
pub enum Actor {
    Operator,
    Frontend(String),
    Service(String),
}

/// One step of a journey, as far as the matrix reads it.
#[derive(Debug)]
pub struct JourneyStep {
    /// The step's HTTP route is known.
    pub route_known: bool,
    pub actor: Actor,
}

/// A journey, as far as the matrix reads it; `steps` is `None` when they are not known.
#[derive(Debug)]
pub struct Journey {
    pub id: String,
    pub present_on_1_4_dev: bool,
    pub steps: Option<Vec<JourneyStep>>,
}

/// The journey's steps are known and one of them has a known route.
pub open spec fn known_route(journey: Journey) -> bool {
    journey.steps matches Some(steps) && exists|k: int| 0 <= k < steps@.len() && (#[trigger] steps@[k]).route_known
}

/// The journey's steps are known and one of them is acted by the frontend.
pub open spec fn frontend_step(journey: Journey) -> bool {
    journey.steps matches Some(steps) && exists|k: int| 0 <= k < steps@.len() && (#[trigger] steps@[k]).actor is Frontend
}

/// The journey's steps are known and one of them is acted by the operator or the frontend.
pub open spec fn operator_ui(journey: Journey) -> bool {
    journey.steps matches Some(steps) && exists|k: int|
        0 <= k < steps@.len() && ((#[trigger] steps@[k]).actor is Operator || steps@[k].actor is Frontend)
}

/// Whether the journey has a step with a known route.
pub fn has_known_route(journey: &Journey) -> (found: bool)
    ensures
        found == known_route(*journey),
{
    match &journey.steps {
        None => false,
        Some(steps) => {
            let mut k: usize = 0;
            while k < steps.len()
                invariant
                    k <= steps@.len(),
                    journey.steps == Some(*steps),
                    forall|j: int| 0 <= j < k ==> !(#[trigger] steps@[j]).route_known,
                decreases steps@.len() - k,
            {
                if steps[k].route_known {
                    assert(steps@[k as int].route_known);
                    return true;
                }
                k += 1;
            }
            false
        },
    }
}

/// Whether the journey has a step acted by the frontend.
pub fn has_frontend_step(journey: &Journey) -> (found: bool)
    ensures
        found == frontend_step(*journey),
{
    match &journey.steps {
        None => false,
        Some(steps) => {
            let mut k: usize = 0;
            while k < steps.len()
                invariant
                    k <= steps@.len(),
                    journey.steps == Some(*steps),
                    forall|j: int| 0 <= j < k ==> !((#[trigger] steps@[j]).actor is Frontend),
                decreases steps@.len() - k,
            {
                if let Actor::Frontend(_) = &steps[k].actor {
                    assert(steps@[k as int].actor is Frontend);
                    return true;
                }
                k += 1;
            }
            false
        },
    }
}

fn has_operator_ui(journey: &Journey) -> (found: bool)
    ensures
        found == operator_ui(*journey),
{
    match &journey.steps {
        None => false,
        Some(steps) => {
            let mut k: usize = 0;
            while k < steps.len()
                invariant
                    k <= steps@.len(),
                    journey.steps == Some(*steps),
                    forall|j: int| 0 <= j < k ==> !((#[trigger] steps@[j]).actor is Operator || steps@[j].actor is Frontend),
                decreases steps@.len() - k,
            {
                match &steps[k].actor {
                    Actor::Operator => {
                        assert(steps@[k as int].actor is Operator);
                        return true;
                    },
                    Actor::Frontend(_) => {
                        assert(steps@[k as int].actor is Frontend);
                        return true;
                    },
                    Actor::Service(_) => {},
                }
                k += 1;
            }
            false
        },
    }
}

/// The journeys the matrix never measures.
pub open spec fn hard_excluded() -> Seq<Seq<char>> {
    seq!["deploy"@, "shutdown_onboard_computer"@]
}

/// The journeys whose UI cell a page load may satisfy: their summary is "open/view this page".
pub open spec fn page_load_ui() -> Seq<Seq<char>> {
    seq!["browse_available_web_services"@, "view_configured_serial_bridges"@, "view_system_information"@]
}

/// Backend journeys that need hardware the bench lacks, with the typed reason.
pub open spec fn backend_typed_skips() -> Seq<(Seq<char>, Seq<char>)> {
    seq![("create_serial_to_udp_bridge"@, "usb_serial_device"@), ("enable_ping1d_rangefinder_mavlink"@, "no_sonar"@)]
}

/// Whether `s` is one of `list`.
fn listed(list: &[&str], s: &str) -> (found: bool)
    ensures
        found == exists|k: int| 0 <= k < list@.len() && (#[trigger] list@[k])@ == s@,
{
    let mut k: usize = 0;
    while k < list.len()
        invariant
            k <= list@.len(),
            forall|j: int| 0 <= j < k ==> (#[trigger] list@[j])@ != s@,
        decreases list@.len() - k,
    {
        if str_eq(list[k], s) {
            return true;
        }
        k += 1;
    }
    false
}

/// Whether the journey is never measured.
pub fn is_hard_excluded(id: &str) -> (excluded: bool)
    ensures
        excluded == hard_excluded().contains(id@),
{
    let list: Vec<&str> = vec!["deploy", "shutdown_onboard_computer"];
    let found = listed(list.as_slice(), id);
    proof {
        if found {
            let k = choose|k: int| 0 <= k < list@.len() && (#[trigger] list@[k])@ == id@;
            assert(hard_excluded()[k] == id@);
        } else {
            assert forall|k: int| 0 <= k < hard_excluded().len() implies hard_excluded()[k] != id@ by {
                assert(list@[k]@ == hard_excluded()[k]);
            }
        }
    }
    found
}

fn is_page_load_ui(id: &str) -> (page: bool)
    ensures
        page == page_load_ui().contains(id@),
{
    let list: Vec<&str> = vec!["browse_available_web_services", "view_configured_serial_bridges", "view_system_information"];
    let found = listed(list.as_slice(), id);
    proof {
        if found {
            let k = choose|k: int| 0 <= k < list@.len() && (#[trigger] list@[k])@ == id@;
            assert(page_load_ui()[k] == id@);
        } else {
            assert forall|k: int| 0 <= k < page_load_ui().len() implies page_load_ui()[k] != id@ by {
                assert(list@[k]@ == page_load_ui()[k]);
            }
        }
    }
    found
}

/// The typed reason a backend journey is skipped, when it needs hardware the bench lacks.
pub open spec fn typed_skip_of(id: Seq<char>) -> Option<Seq<char>> {
    if id == backend_typed_skips()[0].0 {
        Some(backend_typed_skips()[0].1)
    } else if id == backend_typed_skips()[1].0 {
        Some(backend_typed_skips()[1].1)
    } else {
        None
    }
}

/// The typed reason a backend journey is skipped.
pub fn backend_typed_skip_reason(id: &str) -> (reason: Option<&'static str>)
    ensures
        match reason {
            Some(r) => typed_skip_of(id@) == Some(r@),
            None => typed_skip_of(id@) is None,
        },
{
    if str_eq(id, "create_serial_to_udp_bridge") {
        Some("usb_serial_device")
    } else if str_eq(id, "enable_ping1d_rangefinder_mavlink") {
        Some("no_sonar")
    } else {
        None
    }
}

/// A planned cell's value.
pub open spec fn planned_cell() -> CellView {
    CellView {
        state: VerdictView::Inconclusive(Seq::empty()),
        reason: None,
        dut: None,
        report_path: None,
        utc: None,
    }
}

/// A skipped cell's value.
pub open spec fn skip_cell(reason: Seq<char>) -> CellView {
    CellView { reason: Some(reason), ..planned_cell() }
}

/// An empty cell's value.
pub open spec fn empty_cell() -> CellView {
    CellView { state: VerdictView::Error, ..planned_cell() }
}

/// The backend cell a journey starts with.
pub open spec fn initial_backend(journey: Journey) -> CellView {
    if hard_excluded().contains(journey.id@) {
        skip_cell("hard_exclude"@)
    } else if !journey.present_on_1_4_dev {
        skip_cell("not_on_1.4-dev"@)
    } else if typed_skip_of(journey.id@) is Some {
        skip_cell(typed_skip_of(journey.id@)->0)
    } else if known_route(journey) {
        planned_cell()
    } else {
        skip_cell("no_route"@)
    }
}

/// The UI cell a journey starts with, given whether it has a UI plan and the typed reason its UI
/// is skipped.
pub open spec fn initial_ui(journey: Journey, has_ui_plan: bool, ui_skip: Option<Seq<char>>) -> CellView {
    if hard_excluded().contains(journey.id@) {
        skip_cell("hard_exclude"@)
    } else if !journey.present_on_1_4_dev {
        skip_cell("not_on_1.4-dev"@)
    } else if has_ui_plan || page_load_ui().contains(journey.id@) {
        planned_cell()
    } else if ui_skip is Some {
        skip_cell(ui_skip->0)
    } else if operator_ui(journey) {
        empty_cell()
    } else {
        skip_cell("no_operator_ui"@)
    }
}

/// One journey's row of the coverage matrix.
#[derive(Debug)]
pub struct JourneyMatrixRow {
    pub journey_id: String,
    pub present_on_1_4_dev: bool,
    pub has_known_route: bool,
    pub has_frontend_step: bool,
    pub has_ui_plan: bool,
    pub page_load_ui: bool,
    pub presence_contradiction: bool,
    pub backend: Cell,
    pub ui: Cell,
}

/// The coverage matrix.
#[derive(Debug)]
pub struct JourneyMatrix {
    pub rows: Vec<JourneyMatrixRow>,
}

/// The row a catalog journey starts with; `has_ui_plan` and `ui_skip` are what the UI harness
/// has for the journey.
pub fn catalog_row(journey: &Journey, has_ui_plan: bool, ui_skip: Option<&str>) -> (row: JourneyMatrixRow)
    ensures
        row.journey_id@ == journey.id@,
        row.present_on_1_4_dev == journey.present_on_1_4_dev,
        row.has_known_route == known_route(*journey),
        row.has_frontend_step == frontend_step(*journey),
        row.has_ui_plan == has_ui_plan,
        row.page_load_ui == page_load_ui().contains(journey.id@),
        !row.presence_contradiction,
        row.backend@ == initial_backend(*journey),
        row.ui@ == initial_ui(
            *journey,
            has_ui_plan,
            match ui_skip {
                Some(r) => Some(r@),
                None => None,
            },
        ),
{
    let id = journey.id.as_str();
    let present = journey.present_on_1_4_dev;
    let excluded = is_hard_excluded(id);
    let route = has_known_route(journey);
    let frontend = has_frontend_step(journey);
    let page_load = is_page_load_ui(id);
    let operator = has_operator_ui(journey);
    let backend = if excluded {
        Cell::skip("hard_exclude")
    } else if !present {
        Cell::skip("not_on_1.4-dev")
    } else if let Some(reason) = backend_typed_skip_reason(id) {
        Cell::skip(reason)
    } else if route {
        Cell::planned()
    } else {
        Cell::skip("no_route")
    };
    let ui = if excluded {
        Cell::skip("hard_exclude")
    } else if !present {
        Cell::skip("not_on_1.4-dev")
    } else if has_ui_plan || page_load {
        Cell::planned()
    } else if let Some(reason) = ui_skip {
        Cell::skip(reason)
    } else if operator {
        Cell::empty()
    } else {
        Cell::skip("no_operator_ui")
    };
    JourneyMatrixRow {
        journey_id: journey.id.clone(),
        present_on_1_4_dev: present,
        has_known_route: route,
        has_frontend_step: frontend,
        has_ui_plan,
        page_load_ui: page_load,
        presence_contradiction: false,
        backend,
        ui,
    }
}

/// The value of a matrix row.
pub struct RowView {
    pub journey_id: Seq<char>,
    pub present: bool,
    pub route: bool,
    pub frontend: bool,
    pub plan: bool,
    pub page_load: bool,
    pub contradiction: bool,
    pub backend: CellView,
    pub ui: CellView,
}

impl View for JourneyMatrixRow {
    type V = RowView;

    open spec fn view(&self) -> RowView {
        RowView {
            journey_id: self.journey_id@,
            present: self.present_on_1_4_dev,
            route: self.has_known_route,
            frontend: self.has_frontend_step,
            plan: self.has_ui_plan,
            page_load: self.page_load_ui,
            contradiction: self.presence_contradiction,
            backend: self.backend@,
            ui: self.ui@,
        }
    }
}

/// The values of the matrix rows.
pub open spec fn rows_view(rows: Seq<JourneyMatrixRow>) -> Seq<RowView> {
    rows.map_values(|r: JourneyMatrixRow| r@)
}

/// The label of a cell's state and reason.
pub open spec fn cell_label(c: CellView) -> Seq<char> {
    match c.state {
        VerdictView::Error => "empty"@,
        VerdictView::Inconclusive(_) => match c.reason {
            None => "planned"@,
            Some(r) => "skip:"@ + r,
        },
        VerdictView::Pass => match c.reason {
            Some(r) => if r.len() > 0 {
                "pass+"@ + r
            } else {
                "pass"@
            },
            None => "pass"@,
        },
        VerdictView::Fail(_) => "fail"@,
    }
}

/// A cell as the matrix prints it: its label, then "@" and the device for a measured pass or
/// fail.
pub open spec fn cell_text(c: CellView) -> Seq<char> {
    match c.dut {
        Some(d) => if c.state is Pass || c.state is Fail {
            cell_label(c) + "@"@ + d
        } else {
            cell_label(c)
        },
        None => cell_label(c),
    }
}

/// A cell as the matrix prints it.
pub fn format_cell(cell: &Cell) -> (text: String)
    ensures
        text@ == cell_text(cell@),
{
    let mut label = match &cell.state {
        Verdict::Error => String::from_str("empty"),
        Verdict::Inconclusive(_) => match &cell.reason {
            None => String::from_str("planned"),
            Some(reason) => {
                let mut t = String::from_str("skip:");
                t.append(reason.as_str());
                t
            },
        },
        Verdict::Pass => match &cell.reason {
            Some(reason) => {
                if reason.as_str().unicode_len() > 0 {
                    let mut t = String::from_str("pass+");
                    t.append(reason.as_str());
                    t
                } else {
                    String::from_str("pass")
                }
            },
            None => String::from_str("pass"),
        },
        Verdict::Fail(_) => String::from_str("fail"),
    };
    if let Some(dut) = &cell.dut {
        let measured = match &cell.state {
            Verdict::Pass => true,
            Verdict::Fail(_) => true,
            _ => false,
        };
        if measured {
            label.append("@");
            label.append(dut.as_str());
        }
    }
    label
}

/// How many rows pass on the backend side (or on the UI side).
pub open spec fn passing(rows: Seq<RowView>, backend: bool) -> nat
    decreases rows.len(),
{
    if rows.len() == 0 {
        0
    } else {
        let r = rows.last();
        let cell = if backend {
            r.backend
        } else {
            r.ui
        };
        passing(rows.drop_last(), backend) + (if cell.state is Pass { 1nat } else { 0nat })
    }
}

/// How many rows pass on the backend side (or the UI side).
pub fn count_pass(matrix: &JourneyMatrix, backend: bool) -> (count: usize)
    ensures
        count == passing(rows_view(matrix.rows@), backend),
{
    let ghost rv = rows_view(matrix.rows@);
    let mut count: usize = 0;
    let mut k: usize = 0;
    assert(rv.take(0) =~= Seq::<RowView>::empty());
    while k < matrix.rows.len()
        invariant
            k <= matrix.rows@.len(),
            rv == rows_view(matrix.rows@),
            count == passing(rv.take(k as int), backend),
            count <= k,
        decreases matrix.rows@.len() - k,
    {
        let row = &matrix.rows[k];
        let cell = if backend {
            &row.backend
        } else {
            &row.ui
        };
        if let Verdict::Pass = cell.state {
            count += 1;
        }
        proof {
            assert(rv.take(k + 1).drop_last() =~= rv.take(k as int));
            assert(rv.take(k + 1).last() == row@);
        }
        k += 1;
    }
    assert(rv.take(rv.len() as int) =~= rv);
    count
}

/// The ids of the rows that `keep` accepts, in order.
pub open spec fn ids_where(rows: Seq<RowView>, keep: spec_fn(RowView) -> bool) -> Seq<Seq<char>>
    decreases rows.len(),
{
    if rows.len() == 0 {
        seq![]
    } else if keep(rows.last()) {
        ids_where(rows.drop_last(), keep).push(rows.last().journey_id)
    } else {
        ids_where(rows.drop_last(), keep)
    }
}

/// A present journey, not excluded, with both cells empty.
pub open spec fn blank_both(r: RowView) -> bool {
    r.present && !hard_excluded().contains(r.journey_id) && r.backend.state is Error && r.ui.state is Error
}

/// A present journey with an empty UI cell.
pub open spec fn ui_empty(r: RowView) -> bool {
    r.present && r.ui.state is Error
}

/// A journey whose measurement contradicts its presence map.
pub open spec fn contradicted(r: RowView) -> bool {
    r.contradiction
}

/// A present journey.
pub open spec fn is_present(r: RowView) -> bool {
    r.present
}

/// The views of a list of strings.
pub open spec fn texts(v: Seq<String>) -> Seq<Seq<char>> {
    v.map_values(|s: String| s@)
}

/// Which of the three lists a row test picks.
pub enum RowTest {
    BlankBoth,
    UiEmpty,
    Contradicted,
}

pub open spec fn row_test(t: RowTest) -> spec_fn(RowView) -> bool {
    match t {
        RowTest::BlankBoth => |r: RowView| blank_both(r),
        RowTest::UiEmpty => |r: RowView| ui_empty(r),
        RowTest::Contradicted => |r: RowView| contradicted(r),
    }
}

fn row_passes(row: &JourneyMatrixRow, test: &RowTest) -> (keep: bool)
    ensures
        keep == row_test(*test)(row@),
{
    match test {
        RowTest::BlankBoth => {
            let backend_empty = match &row.backend.state {
                Verdict::Error => true,
                _ => false,
            };
            let ui_empty = match &row.ui.state {
                Verdict::Error => true,
                _ => false,
            };
            row.present_on_1_4_dev && !is_hard_excluded(row.journey_id.as_str()) && backend_empty && ui_empty
        },
        RowTest::UiEmpty => {
            let ui_empty = match &row.ui.state {
                Verdict::Error => true,
                _ => false,
            };
            row.present_on_1_4_dev && ui_empty
        },
        RowTest::Contradicted => row.presence_contradiction,
    }
}

fn ids_of(matrix: &JourneyMatrix, test: RowTest) -> (ids: Vec<String>)
    ensures
        texts(ids@) == ids_where(rows_view(matrix.rows@), row_test(test)),
{
    let ghost rv = rows_view(matrix.rows@);
    let mut ids: Vec<String> = Vec::new();
    let mut k: usize = 0;
    assert(rv.take(0) =~= Seq::<RowView>::empty());
    while k < matrix.rows.len()
        invariant
            k <= matrix.rows@.len(),
            rv == rows_view(matrix.rows@),
            texts(ids@) == ids_where(rv.take(k as int), row_test(test)),
        decreases matrix.rows@.len() - k,
    {
        let row = &matrix.rows[k];
        let ghost before = ids@;
        if row_passes(row, &test) {
            ids.push(row.journey_id.clone());
            assert(texts(ids@) =~= texts(before).push(row@.journey_id));
        }
        proof {
            assert(rv.take(k + 1).drop_last() =~= rv.take(k as int));
            assert(rv.take(k + 1).last() == row@);
        }
        k += 1;
    }
    assert(rv.take(rv.len() as int) =~= rv);
    ids
}

/// The present journeys (not excluded) whose backend and UI cells are both empty.
pub fn blank_both_violations(matrix: &JourneyMatrix) -> (ids: Vec<String>)
    ensures
        texts(ids@) == ids_where(rows_view(matrix.rows@), |r: RowView| blank_both(r)),
{
    ids_of(matrix, RowTest::BlankBoth)
}

/// `k` spaces.
pub open spec fn spaces(k: nat) -> Seq<char> {
    Seq::new(k, |i: int| ' ')
}

/// `s` padded with spaces to at least `w` characters, as `{:<w}` writes it.
pub open spec fn pad(s: Seq<char>, w: nat) -> Seq<char> {
    if s.len() >= w {
        s
    } else {
        s + spaces((w - s.len()) as nat)
    }
}

/// One line of the matrix table.
pub open spec fn table_line(
    id: Seq<char>,
    present: Seq<char>,
    route: Seq<char>,
    fe: Seq<char>,
    plan: Seq<char>,
    backend: Seq<char>,
    ui: Seq<char>,
) -> Seq<char> {
    pad(id, 42) + " "@ + pad(present, 4) + " "@ + pad(route, 5) + " "@ + pad(fe, 3) + " "@ + pad(plan, 5) + " "@
        + pad(backend, 22) + " "@ + ui + "\n"@
}

/// The table line of a row.
pub open spec fn row_line(r: RowView) -> Seq<char> {
    table_line(
        r.journey_id,
        flag_text(r.present),
        flag_text(r.route),
        flag_text(r.frontend),
        flag_text(r.plan || r.page_load),
        cell_text(r.backend),
        cell_text(r.ui),
    )
}

/// The table lines of the rows, in order.
pub open spec fn row_lines(rows: Seq<RowView>) -> Seq<char>
    decreases rows.len(),
{
    if rows.len() == 0 {
        seq![]
    } else {
        row_lines(rows.drop_last()) + row_line(rows.last())
    }
}

/// An indented line per id.
pub open spec fn id_lines(ids: Seq<Seq<char>>) -> Seq<char>
    decreases ids.len(),
{
    if ids.len() == 0 {
        seq![]
    } else {
        id_lines(ids.drop_last()) + "  "@ + ids.last() + "\n"@
    }
}

/// A titled list of ids followed by a blank line, or nothing when there are no ids.
pub open spec fn id_block(title: Seq<char>, ids: Seq<Seq<char>>) -> Seq<char> {
    if ids.len() == 0 {
        seq![]
    } else {
        title + id_lines(ids) + "\n"@
    }
}

/// How many rows `keep` accepts.
pub open spec fn rows_where(rows: Seq<RowView>, keep: spec_fn(RowView) -> bool) -> nat {
    ids_where(rows, keep).len()
}

/// The coverage matrix as text: the summary counts, the lists of blank, contradicted and
/// UI-empty journeys, then one table line per row.
pub open spec fn matrix_text(rows: Seq<RowView>) -> Seq<char> {
    let blanks = ids_where(rows, |r: RowView| blank_both(r));
    let contradictions = ids_where(rows, |r: RowView| contradicted(r));
    let ui_empties = ids_where(rows, |r: RowView| ui_empty(r));
    "BlueOS catalog \u{2014} journey coverage matrix (1.4-dev)\n"@
        + "Oracle: per-step route/frontend detection. derive_automatable is a hint only.\n\n"@ + "Journeys: "@
        + nat_digits(rows.len()) + " (present on 1.4-dev: "@ + nat_digits(rows_where(rows, |r: RowView| is_present(r)))
        + ")\n"@ + "Backend measured pass: "@ + nat_digits(passing(rows, true)) + "   UI measured pass: "@
        + nat_digits(passing(rows, false)) + "\n"@ + "UI empty (needs plan): "@ + nat_digits(ui_empties.len())
        + "   presence contradictions: "@ + nat_digits(contradictions.len()) + "\n"@ + "Both cells empty (gate): "@
        + nat_digits(blanks.len()) + "\n\n"@ + id_block("Both cells empty:\n"@, blanks) + id_block(
        "Presence map vs live report:\n"@,
        contradictions,
    ) + id_block("UI cell empty (operator/frontend, no ui_plan, not page-load):\n"@, ui_empties) + table_line(
        "id"@,
        "1.4"@,
        "route"@,
        "fe"@,
        "plan"@,
        "backend"@,
        "ui"@,
    ) + row_lines(rows)
}

/// Appends `s` padded with spaces to at least `w` characters.
fn push_padded(out: &mut String, s: &str, w: usize)
    ensures
        final(out)@ == old(out)@ + pad(s@, w as nat),
{
    let ghost start = out@;
    out.append(s);
    let len = s.unicode_len();
    let mut count: usize = len;
    proof {
        assert(spaces(0) =~= Seq::<char>::empty());
        assert(out@ =~= start + s@ + spaces(0));
    }
    while count < w
        invariant
            len == s@.len(),
            len <= count,
            count <= w || len > w,
            count == len || count <= w,
            out@ == start + s@ + spaces((count - len) as nat),
        decreases w - count,
    {
        let ghost before = out@;
        out.append(" ");
        proof {
            reveal_strlit(" ");
            assert(spaces((count + 1 - len) as nat) =~= spaces((count - len) as nat).push(' '));
            assert(out@ =~= start + s@ + spaces((count + 1 - len) as nat));
        }
        count += 1;
    }
    proof {
        if len >= w {
            assert(out@ =~= start + s@);
        } else {
            assert(count == w);
        }
    }
}

/// Appends one line of the matrix table.
#[verifier::spinoff_prover]
#[verifier::rlimit(40)]
fn push_table_line(out: &mut String, id: &str, present: &str, route: &str, fe: &str, plan: &str, backend: &str, ui: &str)
    ensures
        final(out)@ == old(out)@ + table_line(id@, present@, route@, fe@, plan@, backend@, ui@),
{
    let ghost start = out@;
    push_padded(out, id, 42);
    out.append(" ");
    push_padded(out, present, 4);
    out.append(" ");
    push_padded(out, route, 5);
    out.append(" ");
    push_padded(out, fe, 3);
    out.append(" ");
    push_padded(out, plan, 5);
    out.append(" ");
    push_padded(out, backend, 22);
    out.append(" ");
    out.append(ui);
    out.append("\n");
    assert(out@ =~= start + table_line(id@, present@, route@, fe@, plan@, backend@, ui@));
}

/// Appends a titled list of ids, or nothing when there are none.
fn push_id_block(out: &mut String, title: &str, ids: &[String])
    ensures
        final(out)@ == old(out)@ + id_block(title@, texts(ids@)),
{
    let ghost start = out@;
    if ids.len() == 0 {
        assert(out@ =~= start + id_block(title@, texts(ids@)));
        return;
    }
    out.append(title);
    let ghost tv = texts(ids@);
    let mut k: usize = 0;
    assert(tv.take(0) =~= Seq::<Seq<char>>::empty());
    assert(out@ =~= start + title@ + id_lines(tv.take(0)));
    while k < ids.len()
        invariant
            k <= ids@.len(),
            tv == texts(ids@),
            out@ == start + title@ + id_lines(tv.take(k as int)),
        decreases ids@.len() - k,
    {
        out.append("  ");
        out.append(ids[k].as_str());
        out.append("\n");
        proof {
            assert(tv.take(k + 1).drop_last() =~= tv.take(k as int));
            assert(tv.take(k + 1).last() == ids@[k as int]@);
            assert(out@ =~= start + title@ + id_lines(tv.take(k + 1)));
        }
        k += 1;
    }
    out.append("\n");
    assert(tv.take(tv.len() as int) =~= tv);
    assert(out@ =~= start + id_block(title@, tv));
}

/// Appends the decimal text of `n`.
fn push_count(out: &mut String, n: usize)
    ensures
        final(out)@ == old(out)@ + nat_digits(n as nat),
{
    let digits = crate::text::format_u64(n as u64);
    out.append(digits.as_str());
}

/// The coverage matrix as text.
pub fn format_matrix(matrix: &JourneyMatrix) -> (text: String)
    ensures
        text@ == matrix_text(rows_view(matrix.rows@)),
{
    let ghost rv = rows_view(matrix.rows@);
    let mut present: usize = 0;
    let mut k: usize = 0;
    assert(rv.take(0) =~= Seq::<RowView>::empty());
    while k < matrix.rows.len()
        invariant
            k <= matrix.rows@.len(),
            rv == rows_view(matrix.rows@),
            present == ids_where(rv.take(k as int), |r: RowView| is_present(r)).len(),
            present <= k,
        decreases matrix.rows@.len() - k,
    {
        if matrix.rows[k].present_on_1_4_dev {
            present += 1;
        }
        proof {
            assert(rv.take(k + 1).drop_last() =~= rv.take(k as int));
            assert(rv.take(k + 1).last() == matrix.rows@[k as int]@);
        }
        k += 1;
    }
    assert(rv.take(rv.len() as int) =~= rv);
    let backend_pass = count_pass(matrix, true);
    let ui_pass = count_pass(matrix, false);
    let ui_empties = ids_of(matrix, RowTest::UiEmpty);
    let contradictions = ids_of(matrix, RowTest::Contradicted);
    let blanks = blank_both_violations(matrix);
    proof {
        assert(row_test(RowTest::UiEmpty) == (|r: RowView| ui_empty(r)));
        assert(row_test(RowTest::Contradicted) == (|r: RowView| contradicted(r)));
    }
    let mut out = String::new();
    out.append("BlueOS catalog \u{2014} journey coverage matrix (1.4-dev)\n");
    out.append("Oracle: per-step route/frontend detection. derive_automatable is a hint only.\n\n");
    out.append("Journeys: ");
    push_count(&mut out, matrix.rows.len());
    out.append(" (present on 1.4-dev: ");
    push_count(&mut out, present);
    out.append(")\n");
    out.append("Backend measured pass: ");
    push_count(&mut out, backend_pass);
    out.append("   UI measured pass: ");
    push_count(&mut out, ui_pass);
    out.append("\n");
    out.append("UI empty (needs plan): ");
    push_count(&mut out, ui_empties.len());
    out.append("   presence contradictions: ");
    push_count(&mut out, contradictions.len());
    out.append("\n");
    out.append("Both cells empty (gate): ");
    push_count(&mut out, blanks.len());
    out.append("\n\n");
    push_id_block(&mut out, "Both cells empty:\n", blanks.as_slice());
    push_id_block(&mut out, "Presence map vs live report:\n", contradictions.as_slice());
    push_id_block(&mut out, "UI cell empty (operator/frontend, no ui_plan, not page-load):\n", ui_empties.as_slice());
    push_table_line(&mut out, "id", "1.4", "route", "fe", "plan", "backend", "ui");
    let ghost head = out@;
    let mut k: usize = 0;
    assert(row_lines(rv.take(0)) =~= Seq::<char>::empty());
    assert(out@ =~= head + row_lines(rv.take(0)));
    while k < matrix.rows.len()
        invariant
            k <= matrix.rows@.len(),
            rv == rows_view(matrix.rows@),
            out@ == head + row_lines(rv.take(k as int)),
        decreases matrix.rows@.len() - k,
    {
        let row = &matrix.rows[k];
        let backend = format_cell(&row.backend);
        let ui = format_cell(&row.ui);
        push_table_line(
            &mut out,
            row.journey_id.as_str(),
            yn(row.present_on_1_4_dev),
            yn(row.has_known_route),
            yn(row.has_frontend_step),
            yn(row.has_ui_plan || row.page_load_ui),
            backend.as_str(),
            ui.as_str(),
        );
        proof {
            assert(rv.take(k + 1).drop_last() =~= rv.take(k as int));
            assert(rv.take(k + 1).last() == row@);
            assert(out@ =~= head + row_lines(rv.take(k + 1)));
        }
        k += 1;
    }
    out
}

impl Verdict {
    /// A copy of this verdict.
    pub fn duplicate(&self) -> (out: Verdict)
        ensures
            out@ == self@,
    {
        match self {
            Verdict::Pass => Verdict::Pass,
            Verdict::Fail(s) => Verdict::Fail(s.clone()),
            Verdict::Inconclusive(s) => Verdict::Inconclusive(s.clone()),
            Verdict::Error => Verdict::Error,
        }
    }
}

/// A measurement of one journey found in a report.
#[derive(Debug)]
pub struct ReportHit {
    pub journey_id: String,
    pub suite_is_ui: bool,
    pub state: Verdict,
    pub reason: Option<String>,
    pub dut: Option<String>,
    pub report_path: String,
    pub utc: Option<String>,
}

/// The value of a report hit.
pub struct HitView {
    pub journey_id: Seq<char>,
    pub suite_is_ui: bool,
    pub state: VerdictView,
    pub reason: Option<Seq<char>>,
    pub dut: Option<Seq<char>>,
    pub report_path: Seq<char>,
    pub utc: Option<Seq<char>>,
}

impl View for ReportHit {
    type V = HitView;

    open spec fn view(&self) -> HitView {
        HitView {
            journey_id: self.journey_id@,
            suite_is_ui: self.suite_is_ui,
            state: self.state@,
            reason: opt_text(self.reason),
            dut: opt_text(self.dut),
            report_path: self.report_path@,
            utc: opt_text(self.utc),
        }
    }
}

/// A verification report, as read from its JSON file.
#[derive(Debug)]
pub struct RawReport {
    pub suite: String,
    pub base: String,
    pub dut: Option<RawDut>,
    pub finished_at: String,
    pub journeys: Vec<RawVerification>,
    pub verifications: Vec<RawVerification>,
}

/// The entries a report lists: its verifications, or its journeys when it has no verifications.
pub open spec fn report_entries(report: RawReport) -> Seq<RawVerification> {
    if report.verifications@.len() == 0 {
        report.journeys@
    } else {
        report.verifications@
    }
}

/// A report of the UI suites.
pub open spec fn ui_suite(suite: Seq<char>) -> bool {
    suite == "ui"@ || suite == "page_load"@
}

/// The finding recorded for a compass calibration that passes in the UI.
pub open spec fn compass_finding() -> Seq<char> {
    "F-068"@
}

/// The hit an entry of a report gives, given what the catalog resolved of it (the journey id of
/// its key and the verdict of its verdict text, `None` when either is unknown); no hit for an
/// entry with an empty key.
pub open spec fn entry_hit(
    report: RawReport,
    path: Seq<char>,
    entry: RawVerification,
    resolved: Option<(Seq<char>, VerdictView)>,
) -> Option<HitView> {
    let key = if entry.use_case@.len() > 0 {
        entry.use_case@
    } else {
        entry.id@
    };
    if key.len() == 0 || resolved is None {
        None
    } else {
        let (id, state) = resolved->0;
        let ui = ui_suite(report.suite@);
        Some(
            HitView {
                journey_id: id,
                suite_is_ui: ui,
                state,
                reason: if ui && id == "calibrate_compass"@ && state is Pass {
                    Some(compass_finding())
                } else {
                    opt_text(entry.skip_reason)
                },
                dut: dut_label_of(
                    report.base@,
                    match report.dut {
                        Some(d) => Some(d.tag@),
                        None => None,
                    },
                ),
                report_path: path,
                utc: if report.finished_at@.len() == 0 {
                    None
                } else {
                    Some(report.finished_at@)
                },
            },
        )
    }
}

/// The value of a resolution.
pub open spec fn resolution_view(r: Option<(String, Verdict)>) -> Option<(Seq<char>, VerdictView)> {
    match r {
        Some((id, v)) => Some((id@, v@)),
        None => None,
    }
}

/// The hits of the first `n` entries of a report, in order.
pub open spec fn report_hits_spec(
    report: RawReport,
    path: Seq<char>,
    resolved: Seq<Option<(String, Verdict)>>,
    n: int,
) -> Seq<HitView>
    decreases n,
{
    if n <= 0 {
        seq![]
    } else {
        let before = report_hits_spec(report, path, resolved, n - 1);
        match entry_hit(report, path, report_entries(report)[n - 1], resolution_view(resolved[n - 1])) {
            Some(hit) => before.push(hit),
            None => before,
        }
    }
}

/// The values of a list of hits.
pub open spec fn hits_view(hits: Seq<ReportHit>) -> Seq<HitView> {
    hits.map_values(|h: ReportHit| h@)
}

/// The hits a report gives, found at `path`; `resolved[k]` is what the catalog resolved of the
/// k-th entry: the journey id its key names and the verdict its verdict text names, or `None`
/// when the catalog knows either not.
pub fn report_hits(report: &RawReport, path: &str, resolved: &[Option<(String, Verdict)>]) -> (hits: Vec<ReportHit>)
    requires
        resolved@.len() == report_entries(*report).len(),
    ensures
        hits_view(hits@) == report_hits_spec(*report, path@, resolved@, resolved@.len() as int),
{
    let entries = if report.verifications.len() == 0 {
        &report.journeys
    } else {
        &report.verifications
    };
    let suite_is_ui = str_eq(report.suite.as_str(), "ui") || str_eq(report.suite.as_str(), "page_load");
    let dut = dut_label(report.base.as_str(), match &report.dut {
        Some(d) => Some(d),
        None => None,
    });
    let mut hits: Vec<ReportHit> = Vec::new();
    let mut k: usize = 0;
    while k < entries.len()
        invariant
            k <= entries@.len(),
            entries@ == report_entries(*report),
            resolved@.len() == entries@.len(),
            suite_is_ui == ui_suite(report.suite@),
            opt_text(dut) == dut_label_of(
                report.base@,
                match report.dut {
                    Some(d) => Some(d.tag@),
                    None => None,
                },
            ),
            hits_view(hits@) == report_hits_spec(*report, path@, resolved@, k as int),
        decreases entries@.len() - k,
    {
        let entry = &entries[k];
        let key = entry.journey_key();
        if key.unicode_len() > 0 {
            if let Some((id, verdict)) = &resolved[k] {
                let is_pass = match verdict {
                    Verdict::Pass => true,
                    _ => false,
                };
                let reason = if suite_is_ui && str_eq(id.as_str(), "calibrate_compass") && is_pass {
                    Some(String::from_str("F-068"))
                } else {
                    entry.skip_reason.clone()
                };
                let utc = if report.finished_at.as_str().unicode_len() == 0 {
                    None
                } else {
                    Some(report.finished_at.clone())
                };
                let ghost before = hits@;
                hits.push(
                    ReportHit {
                        journey_id: id.clone(),
                        suite_is_ui,
                        state: verdict.duplicate(),
                        reason,
                        dut: dut.clone(),
                        report_path: String::from_str(path),
                        utc,
                    },
                );
                proof {
                    assert(hits_view(hits@) =~= hits_view(before).push(hits@[before.len() as int]@)) by {
                        assert(hits@ == before.push(hits@[before.len() as int]));
                    }
                }
            }
        }
        k += 1;
    }
    hits
}

/// `r` placed into rows sorted by journey id: after every row whose id sorts no later.
pub open spec fn insert_by_id(sorted: Seq<RowView>, r: RowView) -> Seq<RowView>
    decreases sorted.len(),
{
    if sorted.len() == 0 {
        seq![r]
    } else if text_le(sorted.last().journey_id, r.journey_id) {
        sorted.push(r)
    } else {
        insert_by_id(sorted.drop_last(), r).push(sorted.last())
    }
}

/// Rows in the order of their journey ids, rows with equal ids kept in their first order (a
/// stable sort by id).
pub open spec fn sort_by_id(rows: Seq<RowView>) -> Seq<RowView>
    decreases rows.len(),
{
    if rows.len() == 0 {
        seq![]
    } else {
        insert_by_id(sort_by_id(rows.drop_last()), rows.last())
    }
}

proof fn lemma_insert_at(s: Seq<RowView>, r: RowView, j: int)
    requires
        0 <= j <= s.len(),
        forall|k: int| j <= k < s.len() ==> !text_le(#[trigger] s[k].journey_id, r.journey_id),
        j > 0 ==> text_le(s[j - 1].journey_id, r.journey_id),
    ensures
        insert_by_id(s, r) == s.take(j) + seq![r] + s.skip(j),
    decreases s.len(),
{
    if s.len() == 0 {
        assert(s.take(j) + seq![r] + s.skip(j) =~= seq![r]);
    } else if j == s.len() {
        assert(s.take(j) + seq![r] + s.skip(j) =~= s.push(r));
    } else {
        let t = s.drop_last();
        assert forall|k: int| j <= k < t.len() implies !text_le(#[trigger] t[k].journey_id, r.journey_id) by {
            assert(t[k] == s[k]);
        }
        if j > 0 {
            assert(t[j - 1] == s[j - 1]);
        }
        assert(!text_le(s[s.len() - 1].journey_id, r.journey_id));
        lemma_insert_at(t, r, j);
        assert((t.take(j) + seq![r] + t.skip(j)).push(s.last()) =~= s.take(j) + seq![r] + s.skip(j));
    }
}

/// The matrix of the rows built from the catalog's journeys, sorted by journey id (rows with the
/// same id keep their order). Report hits are then laid over it one at a time with
/// `apply_hit`.
pub fn build_journey_matrix(rows: Vec<JourneyMatrixRow>) -> (matrix: JourneyMatrix)
    ensures
        rows_view(matrix.rows@) == sort_by_id(rows_view(rows@)),
{
    let ghost all = rows_view(rows@);
    let mut input = rows;
    let mut out: Vec<JourneyMatrixRow> = Vec::new();
    let ghost mut i: int = 0;
    while input.len() > 0
        invariant
            0 <= i <= all.len(),
            input@.len() + i == all.len(),
            rows_view(input@) == all.skip(i),
            rows_view(out@) == sort_by_id(all.take(i)),
        decreases input@.len(),
    {
        let ghost old_in = input@;
        let r = input.remove(0);
        proof {
            assert(input@ =~= old_in.subrange(1, old_in.len() as int));
            assert forall|k: int| 0 <= k < input@.len() implies #[trigger] rows_view(input@)[k] == all.skip(i + 1)[k] by {
                assert(rows_view(old_in)[k + 1] == old_in[k + 1]@);
                assert(all.skip(i)[k + 1] == all.skip(i + 1)[k]);
            }
            assert(rows_view(old_in)[0] == r@);
            assert(all.take(i + 1).drop_last() =~= all.take(i));
            assert(all.skip(i)[0] == r@);
            assert(all.take(i + 1).last() == r@);
            assert(rows_view(input@) =~= all.skip(i + 1));
        }
        let ghost before = rows_view(out@);
        let mut j: usize = out.len();
        while j > 0 && !text_at_least(r.journey_id.as_str(), out[j - 1].journey_id.as_str())
            invariant
                j <= out@.len(),
                before == rows_view(out@),
                forall|k: int| j <= k < before.len() ==> !text_le(#[trigger] before[k].journey_id, r@.journey_id),
            decreases j,
        {
            j -= 1;
        }
        proof {
            lemma_insert_at(before, r@, j as int);
        }
        out.insert(j, r);
        proof {
            assert(rows_view(out@) =~= before.take(j as int) + seq![r@] + before.skip(j as int));
            i = i + 1;
        }
    }
    proof {
        assert(all.skip(i).len() == 0);
        assert(all.take(i) =~= all);
    }
    JourneyMatrix { rows: out }
}

/// The cell a report hit lays over a row.
pub open spec fn hit_cell(h: HitView) -> CellView {
    CellView { state: h.state, reason: h.reason, dut: h.dut, report_path: Some(h.report_path), utc: h.utc }
}

/// Row `k` is the first with journey id `id`.
pub open spec fn is_first_row_for(rows: Seq<RowView>, id: Seq<char>, k: int) -> bool {
    &&& 0 <= k < rows.len()
    &&& rows[k].journey_id == id
    &&& forall|j: int| 0 <= j < k ==> rows[j].journey_id != id
}

/// A row after a hit: the hit's cell laid over the UI cell for a UI suite, else over the backend
/// cell (`incoming_rank` and `current_rank` being the matrix ranks of the hit's cell and of the
/// cell it lands on); a pass or a failure on a journey absent from 1.4-dev marks a contradiction.
pub open spec fn with_hit(row: RowView, h: HitView, incoming_rank: u32, current_rank: u32) -> RowView {
    let incoming = hit_cell(h);
    RowView {
        journey_id: row.journey_id,
        present: row.present,
        route: row.route,
        frontend: row.frontend,
        plan: row.plan,
        page_load: row.page_load,
        contradiction: row.contradiction || (!row.present && (h.state is Pass || h.state is Fail)),
        backend: if !h.suite_is_ui && overlay_replaces(row.backend, incoming, incoming_rank, current_rank) {
            incoming
        } else {
            row.backend
        },
        ui: if h.suite_is_ui && overlay_replaces(row.ui, incoming, incoming_rank, current_rank) {
            incoming
        } else {
            row.ui
        },
    }
}

impl JourneyMatrix {
    /// Lays a report hit over the first row of its journey; a hit on no row changes nothing.
    pub fn apply_hit(&mut self, hit: ReportHit, incoming_rank: u32, current_rank: u32)
        ensures
            (exists|k: int| is_first_row_for(rows_view(old(self).rows@), hit@.journey_id, k)) ==> {
                let k = choose|k: int| is_first_row_for(rows_view(old(self).rows@), hit@.journey_id, k);
                rows_view(final(self).rows@) == rows_view(old(self).rows@).update(
                    k,
                    with_hit(rows_view(old(self).rows@)[k], hit@, incoming_rank, current_rank),
                )
            },
            !(exists|k: int| is_first_row_for(rows_view(old(self).rows@), hit@.journey_id, k)) ==> rows_view(
                final(self).rows@,
            ) == rows_view(old(self).rows@),
    {
        let ghost start = rows_view(self.rows@);
        let ghost h = hit@;
        let mut k: usize = 0;
        while k < self.rows.len() && !str_eq(self.rows[k].journey_id.as_str(), hit.journey_id.as_str())
            invariant
                k <= self.rows@.len(),
                start == rows_view(self.rows@),
                h == hit@,
                forall|j: int| 0 <= j < k ==> start[j].journey_id != h.journey_id,
            decreases self.rows@.len() - k,
        {
            k += 1;
        }
        if k == self.rows.len() {
            assert(!exists|c: int| is_first_row_for(start, h.journey_id, c));
            return;
        }
        proof {
            assert(is_first_row_for(start, h.journey_id, k as int));
            let c = choose|c: int| is_first_row_for(start, h.journey_id, c);
            assert(c == k) by {
                if c < k {
                    assert(start[c].journey_id != h.journey_id);
                } else if k < c {
                    assert(start[k as int].journey_id != h.journey_id);
                }
            }
        }
        let counts = match hit.state {
            Verdict::Pass => true,
            Verdict::Fail(_) => true,
            _ => false,
        };
        let suite_is_ui = hit.suite_is_ui;
        let incoming = Cell {
            state: hit.state,
            reason: hit.reason,
            dut: hit.dut,
            report_path: Some(hit.report_path),
            utc: hit.utc,
        };
        assert(incoming@ == hit_cell(h));
        let mut row = self.rows.remove(k);
        if suite_is_ui {
            row.ui.overlay(incoming, incoming_rank, current_rank);
        } else {
            row.backend.overlay(incoming, incoming_rank, current_rank);
        }
        if !row.present_on_1_4_dev && counts {
            row.presence_contradiction = true;
        }
        let ghost rv = row@;
        self.rows.insert(k, row);
        proof {
            assert(rv == with_hit(start[k as int], h, incoming_rank, current_rank));
            assert(rows_view(self.rows@) =~= start.update(k as int, rv));
        }
    }
}

} // verus!
