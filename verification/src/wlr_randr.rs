//! Reading what `wlr-randr` prints, as JSON or as text.
use vstd::prelude::*;

use crate::decimal;
use crate::float;
use crate::float::{Double, Single};
use crate::models;
use crate::models::{DisplayMode, DisplayOutput, OutputView};
use crate::text;
use crate::text_spec as spec;

pub mod laws;

verus! {

/// A mode of a head, as the JSON report has it.
#[derive(Clone, Copy, Debug, Default)]
pub struct WlrRandrJsonMode {
    pub width: Option<u32>,
    pub height: Option<u32>,
    pub refresh: Option<Double>,
    pub preferred: bool,
    pub current: bool,
}

/// A head, as the JSON report has it.
#[derive(Clone, Debug, Default)]
pub struct WlrRandrJsonHead {
    pub name: Option<String>,
    pub description: Option<String>,
    pub make: Option<String>,
    pub model: Option<String>,
    pub enabled: bool,
    pub modes: Vec<WlrRandrJsonMode>,
    pub scale: Option<Double>,
}

/// A mode with what the report says of it.
#[derive(Clone, Copy, Debug)]
pub struct FlaggedMode {
    pub mode: DisplayMode,
    pub current: bool,
    pub preferred: bool,
}

/// The modes without their marks.
pub open spec fn modes_of(s: Seq<FlaggedMode>) -> Seq<DisplayMode> {
    Seq::new(s.len(), |i: int| s[i].mode)
}

/// The last mode that is marked as current.
pub open spec fn last_current(s: Seq<FlaggedMode>) -> Option<DisplayMode>
    decreases s.len(),
{
    if s.len() == 0 {
        None
    } else if s.last().current {
        Some(s.last().mode)
    } else {
        last_current(s.drop_last())
    }
}

/// The first mode that is marked as preferred.
pub open spec fn first_preferred(s: Seq<FlaggedMode>) -> Option<DisplayMode>
    decreases s.len(),
{
    if s.len() == 0 {
        None
    } else if first_preferred(s.drop_last()) is Some {
        first_preferred(s.drop_last())
    } else if s.last().preferred {
        Some(s.last().mode)
    } else {
        None
    }
}

/// The mode that an output is in: the current one, else the preferred one, and none where the
/// output is disabled.
pub open spec fn mode_in_use(enabled: bool, s: Seq<FlaggedMode>) -> Option<DisplayMode> {
    if !enabled {
        None
    } else if last_current(s) is Some {
        last_current(s)
    } else {
        first_preferred(s)
    }
}

/// The output that a head describes.
pub open spec fn head_output(
    id: int,
    name: Seq<char>,
    description: Option<Seq<char>>,
    enabled: bool,
    scale: Option<Double>,
    modes: Seq<FlaggedMode>,
) -> OutputView {
    OutputView {
        enabled,
        scale,
        available_modes: modes_of(modes),
        current_mode: mode_in_use(enabled, modes),
        ..models::simple_view(id, name, description)
    }
}

fn make_output(
    id: usize,
    name: String,
    description: Option<String>,
    enabled: bool,
    scale: Option<Double>,
    modes: &Vec<FlaggedMode>,
) -> (r: DisplayOutput)
    ensures
        r@ == head_output(id as int, name@, spec::opt(description), enabled, scale, modes@),
{
    let mut all: Vec<DisplayMode> = Vec::new();
    let mut current: Option<DisplayMode> = None;
    let mut preferred: Option<DisplayMode> = None;
    let mut i: usize = 0;
    while i < modes.len()
        invariant
            i <= modes@.len(),
            all@ == modes_of(modes@.take(i as int)),
            current == last_current(modes@.take(i as int)),
            preferred == first_preferred(modes@.take(i as int)),
        decreases modes.len() - i,
    {
        let m = modes[i];
        if m.current {
            current = Some(m.mode);
        }
        if m.preferred && preferred.is_none() {
            preferred = Some(m.mode);
        }
        all.push(m.mode);
        i = i + 1;
        let ghost now = modes@.take(i as int);
        assert(now.drop_last() == modes@.take(i - 1));
        assert(all@ =~= modes_of(now));
    }
    assert(modes@.take(modes@.len() as int) == modes@);
    let mut r = DisplayOutput::simple(id, name, description);
    r.enabled = enabled;
    r.scale = scale;
    r.available_modes = all;
    r.current_mode = if !enabled {
        None
    } else if current.is_some() {
        current
    } else {
        preferred
    };
    r
}

/// The mode that an entry of the JSON report stands for: it needs a width and a height, and a
/// refresh rate counts where it is positive.
pub open spec fn json_mode(m: WlrRandrJsonMode) -> Option<FlaggedMode> {
    match (m.width, m.height) {
        (Some(width), Some(height)) => Some(
            FlaggedMode {
                mode: DisplayMode {
                    width,
                    height,
                    refresh_hz: match m.refresh {
                        Some(hz) => if float::less_double(float::double(float::ZERO_DOUBLE), hz) {
                            Some(float::narrowed(hz))
                        } else {
                            None
                        },
                        None => None,
                    },
                },
                current: m.current,
                preferred: m.preferred,
            },
        ),
        _ => None,
    }
}

/// The modes of a head of the JSON report.
pub open spec fn json_modes(s: Seq<WlrRandrJsonMode>) -> Seq<FlaggedMode>
    decreases s.len(),
{
    if s.len() == 0 {
        seq![]
    } else {
        match json_mode(s.last()) {
            Some(m) => json_modes(s.drop_last()).push(m),
            None => json_modes(s.drop_last()),
        }
    }
}

/// The description of a head: its own, else what is known of make and model.
pub open spec fn json_description(head: WlrRandrJsonHead) -> Option<Seq<char>> {
    match (head.description, head.make, head.model) {
        (Some(d), _, _) => Some(d@),
        (None, Some(make), Some(model)) => Some(make@ + " "@ + model@),
        (None, Some(make), None) => Some(make@),
        (None, None, Some(model)) => Some(model@),
        (None, None, None) => None,
    }
}

/// The output of the head at a place of the JSON report, where the head has a name.
pub open spec fn json_output(id: int, head: WlrRandrJsonHead) -> Option<OutputView> {
    match head.name {
        Some(name) => if name@.len() > 0 {
            Some(
                head_output(
                    id,
                    name@,
                    json_description(head),
                    head.enabled,
                    head.scale,
                    json_modes(head.modes@),
                ),
            )
        } else {
            None
        },
        None => None,
    }
}

/// The outputs of the JSON report.
pub open spec fn json_outputs(heads: Seq<WlrRandrJsonHead>) -> Seq<OutputView>
    decreases heads.len(),
{
    if heads.len() == 0 {
        seq![]
    } else {
        match json_output(heads.len() - 1, heads.last()) {
            Some(o) => json_outputs(heads.drop_last()).push(o),
            None => json_outputs(heads.drop_last()),
        }
    }
}

fn json_modes_of(modes: &Vec<WlrRandrJsonMode>) -> (r: Vec<FlaggedMode>)
    ensures
        r@ == json_modes(modes@),
{
    let mut r: Vec<FlaggedMode> = Vec::new();
    let mut i: usize = 0;
    while i < modes.len()
        invariant
            i <= modes@.len(),
            r@ == json_modes(modes@.take(i as int)),
        decreases modes.len() - i,
    {
        let m = modes[i];
        if let (Some(width), Some(height)) = (m.width, m.height) {
            let refresh_hz = match m.refresh {
                Some(hz) => if hz.is_positive() {
                    Some(hz.narrowed())
                } else {
                    None
                },
                None => None,
            };
            r.push(
                FlaggedMode {
                    mode: DisplayMode { width, height, refresh_hz },
                    current: m.current,
                    preferred: m.preferred,
                },
            );
        }
        i = i + 1;
        assert(modes@.take(i as int).drop_last() == modes@.take(i - 1));
    }
    assert(modes@.take(modes@.len() as int) == modes@);
    r
}

fn json_description_of(head: &WlrRandrJsonHead) -> (r: Option<String>)
    ensures
        spec::opt(r) == json_description(*head),
{
    match (&head.description, &head.make, &head.model) {
        (Some(d), _, _) => Some(d.clone()),
        (None, Some(make), Some(model)) => {
            let mut s = make.clone();
            s.append(" ");
            s.append(model.as_str());
            Some(s)
        },
        (None, Some(make), None) => Some(make.clone()),
        (None, None, Some(model)) => Some(model.clone()),
        (None, None, None) => None,
    }
}

/// The outputs of a report as JSON: `heads` is what the text read as, where it could be read. An
/// empty report has no outputs.
pub fn parse_wlr_randr_json(stdout: &str, heads: Option<Vec<WlrRandrJsonHead>>) -> (r: Option<
    Vec<DisplayOutput>,
>)
    ensures
        r is Some == (spec::is_blank(stdout@) || heads is Some),
        r matches Some(v) ==> models::views(v@) == if spec::is_blank(stdout@) {
            seq![]
        } else {
            json_outputs(heads->Some_0@)
        },
{
    let all = text::chars_of(stdout);
    if text::trim(all.as_slice()).len() == 0 {
        let r: Vec<DisplayOutput> = Vec::new();
        assert(models::views(r@) =~= seq![]);
        return Some(r);
    }
    let heads = match heads {
        Some(heads) => heads,
        None => return None,
    };
    let mut r: Vec<DisplayOutput> = Vec::new();
    let mut i: usize = 0;
    assert(models::views(r@) =~= json_outputs(heads@.take(0)));
    while i < heads.len()
        invariant
            i <= heads@.len(),
            models::views(r@) == json_outputs(heads@.take(i as int)),
        decreases heads.len() - i,
    {
        let head = &heads[i];
        let ghost before = r@;
        if let Some(name) = &head.name {
            if !text::is_empty(name.as_str()) {
                let description = json_description_of(head);
                let modes = json_modes_of(&head.modes);
                let o = make_output(
                    i,
                    name.clone(),
                    description,
                    head.enabled,
                    head.scale,
                    &modes,
                );
                r.push(o);
                assert(models::views(r@) =~= models::views(before).push(o@));
            }
        }
        proof {
            assert(heads@.take(i + 1).drop_last() == heads@.take(i as int));
        }
        i = i + 1;
    }
    assert(heads@.take(heads@.len() as int) == heads@);
    Some(r)
}

/// The name and the description in the first line of an output: what follows the name, without
/// the quotes that may stand round it.
pub open spec fn header(line: Seq<char>) -> (Seq<char>, Option<Seq<char>>) {
    match spec::split_once(line, " "@) {
        Some(t) => {
            let rest = spec::trim(t.1);
            if rest.len() >= 2 && spec::starts_with(rest, "\""@) && spec::ends_with(rest, "\""@) {
                let inner = rest.subrange(1, rest.len() - 1);
                (
                    t.0,
                    if inner.len() == 0 {
                        None
                    } else {
                        Some(inner)
                    },
                )
            } else if rest.len() == 0 {
                (t.0, None)
            } else {
                (t.0, Some(rest))
            }
        },
        None => (line, None),
    }
}

/// Whether an `Enabled:` line says yes.
pub open spec fn enabled_line(line: Seq<char>) -> Option<bool> {
    match spec::strip_prefix(line, "Enabled:"@) {
        Some(rest) => Some(spec::lower(spec::trim(rest)) == spec::lower("yes"@)),
        None => None,
    }
}

/// The number in a `Scale:` line.
pub open spec fn scale_line(line: Seq<char>) -> Option<Double> {
    match spec::strip_prefix(line, "Scale:"@) {
        Some(rest) => float::double_value(spec::trim(rest)),
        None => None,
    }
}

/// The refresh rate in `, R Hz`.
pub open spec fn rate(s: Seq<char>) -> Option<Single> {
    match spec::strip_prefix(s, ","@) {
        Some(t) => match spec::find(spec::trim(t), " Hz"@) {
            Some(i) => float::single_value(spec::trim(spec::trim(t).take(i))),
            None => None,
        },
        None => None,
    }
}

/// The mode in `WxH px, R Hz (marks)`; rate and marks may be missing.
pub open spec fn mode_line(line: Seq<char>) -> Option<FlaggedMode> {
    let s = spec::trim(line);
    if s.len() == 0 || !spec::is_digit(s[0]) {
        None
    } else {
        match spec::split_once(s, " px"@) {
            None => None,
            Some(t) => match spec::split_once(t.0, "x"@) {
                None => None,
                Some(d) => match (decimal::u32_value(d.0), decimal::u32_value(d.1)) {
                    (Some(width), Some(height)) => {
                        let rest = spec::trim(t.1);
                        let (body, marks) = match spec::find(rest, "("@) {
                            Some(i) => (spec::trim(rest.take(i)), rest.skip(i)),
                            None => (rest, seq![]),
                        };
                        Some(
                            FlaggedMode {
                                mode: DisplayMode { width, height, refresh_hz: rate(body) },
                                current: spec::contains(marks, "current"@),
                                preferred: spec::contains(marks, "preferred"@),
                            },
                        )
                    },
                    _ => None,
                },
            },
        }
    }
}

fn header_of(line: &[char]) -> (r: (String, Option<String>))
    ensures
        (r.0@, spec::opt(r.1)) == header(line@),
{
    match text::split_once(line, " ") {
        Some((name, rest)) => {
            let rest = text::trim(rest);
            let n = rest.len();
            if n >= 2 && text::starts_with(rest, "\"") && text::ends_with(rest, "\"") {
                let inner = vstd::slice::slice_subrange(rest, 1, n - 1);
                if inner.len() == 0 {
                    (text::string_of(name), None)
                } else {
                    (text::string_of(name), Some(text::string_of(inner)))
                }
            } else if n == 0 {
                (text::string_of(name), None)
            } else {
                (text::string_of(name), Some(text::string_of(rest)))
            }
        },
        None => (text::string_of(line), None),
    }
}

fn enabled_of(line: &[char]) -> (r: Option<bool>)
    ensures
        r == enabled_line(line@),
{
    match text::strip_prefix(line, "Enabled:") {
        Some(rest) => Some(text::is_ignoring_case(text::trim(rest), "yes")),
        None => None,
    }
}

fn scale_of(line: &[char]) -> (r: Option<Double>)
    ensures
        r == scale_line(line@),
{
    match text::strip_prefix(line, "Scale:") {
        Some(rest) => Double::parse(text::trim(rest)),
        None => None,
    }
}

fn rate_of(s: &[char]) -> (r: Option<Single>)
    ensures
        r == rate(s@),
{
    match text::strip_prefix(s, ",") {
        Some(t) => {
            let t = text::trim(t);
            match text::find(t, " Hz") {
                Some(i) => Single::parse(text::trim(text::take(t, i))),
                None => None,
            }
        },
        None => None,
    }
}

fn mode_of(line: &[char]) -> (r: Option<FlaggedMode>)
    ensures
        r == mode_line(line@),
{
    let s = text::trim(line);
    if s.len() == 0 || !text::is_digit(s[0]) {
        return None;
    }
    let (resolution, remainder) = match text::split_once(s, " px") {
        Some(t) => t,
        None => return None,
    };
    let (width_text, height_text) = match text::split_once(resolution, "x") {
        Some(t) => t,
        None => return None,
    };
    let width = match decimal::read_u32(width_text) {
        Some(n) => n,
        None => return None,
    };
    let height = match decimal::read_u32(height_text) {
        Some(n) => n,
        None => return None,
    };
    let rest = text::trim(remainder);
    let refresh_hz: Option<Single>;
    let current: bool;
    let preferred: bool;
    match text::find(rest, "(") {
        Some(i) => {
            let marks = text::skip(rest, i);
            refresh_hz = rate_of(text::trim(text::take(rest, i)));
            current = text::contains(marks, "current");
            preferred = text::contains(marks, "preferred");
        },
        None => {
            refresh_hz = rate_of(rest);
            current = false;
            preferred = false;
            proof {
                reveal_strlit("current");
                reveal_strlit("preferred");
            }
        },
    }
    Some(FlaggedMode { mode: DisplayMode { width, height, refresh_hz }, current, preferred })
}

/// What the lines of an output read so far have said.
#[verifier::ext_equal]
pub struct Details {
    pub enabled: bool,
    pub scale: Option<Double>,
    pub modes: Seq<FlaggedMode>,
    /// Whether the lines that follow list modes, as long as they are indented deeply enough.
    pub in_modes: bool,
}

pub open spec fn indented(line: Seq<char>) -> bool {
    spec::starts_with(line, " "@) || spec::starts_with(line, "\t"@)
}

/// Whether a line stands inside the list of modes, once that has begun.
pub open spec fn deep(line: Seq<char>) -> bool {
    spec::starts_with(line, "    "@) || spec::starts_with(line, "\t"@)
}

/// What one more line says.
pub open spec fn detail(d: Details, line: Seq<char>) -> Details {
    let s = spec::trim_start(line);
    if d.in_modes && deep(line) {
        match mode_line(line) {
            Some(m) => Details { modes: d.modes.push(m), ..d },
            None => d,
        }
    } else if spec::is_blank(line) {
        Details { in_modes: false, ..d }
    } else if enabled_line(s) is Some {
        Details { enabled: enabled_line(s)->Some_0, in_modes: false, ..d }
    } else if scale_line(s) is Some {
        Details { scale: scale_line(s), in_modes: false, ..d }
    } else {
        Details { in_modes: spec::starts_with(s, "Modes:"@), ..d }
    }
}

/// What the lines say together.
pub open spec fn details(lines: Seq<Seq<char>>) -> Details
    decreases lines.len(),
{
    if lines.len() == 0 {
        Details { enabled: true, scale: None, modes: seq![], in_modes: false }
    } else {
        detail(details(lines.drop_last()), lines.last())
    }
}

/// Where the lines of an output end: at the first line from `i` on that is neither blank nor
/// indented.
pub open spec fn block_end(lines: Seq<Seq<char>>, i: int) -> int
    decreases lines.len() - i,
{
    if i >= lines.len() {
        lines.len() as int
    } else if spec::is_blank(lines[i]) || indented(lines[i]) {
        block_end(lines, i + 1)
    } else {
        i
    }
}

/// The output that a first line and the lines after it describe.
pub open spec fn block_output(id: int, first: Seq<char>, rest: Seq<Seq<char>>) -> OutputView {
    let (name, description) = header(spec::trim_end(first));
    let d = details(rest);
    head_output(id, name, description, d.enabled, d.scale, d.modes)
}

/// The outputs that the lines from `i` on describe, numbered from `id` on.
pub open spec fn text_outputs(lines: Seq<Seq<char>>, i: int, id: int) -> Seq<OutputView>
    decreases lines.len() - i,
    via text_outputs_decreases
{
    if i >= lines.len() {
        seq![]
    } else if spec::trim_end(lines[i]).len() == 0 {
        text_outputs(lines, i + 1, id)
    } else {
        let end = block_end(lines, i + 1);
        seq![block_output(id, lines[i], lines.subrange(i + 1, end))] + text_outputs(
            lines,
            end,
            id + 1,
        )
    }
}

#[via_fn]
proof fn text_outputs_decreases(lines: Seq<Seq<char>>, i: int, id: int) {
    lemma_block_end(lines, i + 1);
}

pub(crate) proof fn lemma_block_end(lines: Seq<Seq<char>>, i: int)
    ensures
        i <= lines.len() ==> i <= block_end(lines, i) <= lines.len(),
    decreases lines.len() - i,
{
    if i < lines.len() && (spec::is_blank(lines[i]) || indented(lines[i])) {
        lemma_block_end(lines, i + 1);
    }
}

/// Details as they are collected.
struct DetailLines {
    enabled: bool,
    scale: Option<Double>,
    modes: Vec<FlaggedMode>,
    in_modes: bool,
}

impl View for DetailLines {
    type V = Details;

    closed spec fn view(&self) -> Details {
        Details {
            enabled: self.enabled,
            scale: self.scale,
            modes: self.modes@,
            in_modes: self.in_modes,
        }
    }
}

pub(crate) fn is_indented(line: &[char]) -> (r: bool)
    ensures
        r == indented(line@),
{
    text::starts_with(line, " ") || text::starts_with(line, "\t")
}

fn take_detail(d: &mut DetailLines, line: &[char])
    ensures
        final(d)@ == detail(old(d)@, line@),
{
    if d.in_modes && (text::starts_with(line, "    ") || text::starts_with(line, "\t")) {
        if let Some(m) = mode_of(line) {
            d.modes.push(m);
        }
        return ;
    }
    d.in_modes = false;
    if text::trim(line).len() == 0 {
        return ;
    }
    let s = text::trim_start(line);
    if let Some(enabled) = enabled_of(s) {
        d.enabled = enabled;
    } else if let Some(scale) = scale_of(s) {
        d.scale = Some(scale);
    } else if text::starts_with(s, "Modes:") {
        d.in_modes = true;
    }
}

/// The outputs of a report as text.
pub fn parse_wlr_randr_text(stdout: &str) -> (r: Vec<DisplayOutput>)
    ensures
        models::views(r@) == text_outputs(spec::lines(stdout@), 0, 0),
{
    let all = text::chars_of(stdout);
    let lines = text::lines(all.as_slice());
    let ghost ls = spec::lines(stdout@);
    let mut r: Vec<DisplayOutput> = Vec::new();
    let mut i: usize = 0;
    assert(models::views(r@) + text_outputs(ls, 0, 0) =~= text_outputs(ls, 0, 0));
    while i < lines.len()
        invariant
            i <= lines@.len(),
            ls == spec::pieces(lines@),
            r@.len() <= i,
            models::views(r@) + text_outputs(ls, i as int, r@.len() as int) == text_outputs(
                ls,
                0,
                0,
            ),
        decreases lines.len() - i,
    {
        let ghost start = i as int;
        let ghost before = r@;
        let first = text::trim_end(lines[i]);
        i = i + 1;
        if first.len() > 0 {
            let id = r.len();
            let (name, description) = header_of(first);
            let mut d = DetailLines { enabled: true, scale: None, modes: Vec::new(), in_modes: false };
            proof {
                lemma_block_end(ls, start + 1);
                assert(ls.subrange(start + 1, start + 1) =~= seq![]);
                assert(d@ =~= details(ls.subrange(start + 1, start + 1)));
            }
            while i < lines.len() && (text::trim(lines[i]).len() == 0 || is_indented(lines[i]))
                invariant
                    0 <= start < i <= lines@.len(),
                    ls == spec::pieces(lines@),
                    d@ == details(ls.subrange(start + 1, i as int)),
                    block_end(ls, i as int) == block_end(ls, start + 1),
                decreases lines.len() - i,
            {
                take_detail(&mut d, lines[i]);
                i = i + 1;
                assert(ls.subrange(start + 1, i as int).drop_last() == ls.subrange(
                    start + 1,
                    i - 1,
                ));
            }
            let o = make_output(id, name, description, d.enabled, d.scale, &d.modes);
            r.push(o);
            proof {
                assert(block_end(ls, i as int) == i);
                assert(models::views(r@) =~= models::views(before).push(o@));
                assert(o@ == block_output(id as int, ls[start], ls.subrange(start + 1, i as int)));
                assert(text_outputs(ls, start, id as int) == seq![o@] + text_outputs(
                    ls,
                    i as int,
                    id + 1,
                ));
                assert(models::views(r@) + text_outputs(ls, i as int, id + 1) =~= models::views(
                    before,
                ) + text_outputs(ls, start, id as int));
            }
        }
    }
    assert(models::views(r@) + text_outputs(ls, i as int, r@.len() as int) =~= models::views(r@));
    r
}

/// The outputs of a report: as JSON where it is blank or could be read so, else as text.
pub open spec fn wlr_outputs(stdout: Seq<char>, heads: Option<Seq<WlrRandrJsonHead>>) -> Seq<
    OutputView,
> {
    if spec::is_blank(stdout) {
        seq![]
    } else {
        match heads {
            Some(heads) => json_outputs(heads),
            None => text_outputs(spec::lines(stdout), 0, 0),
        }
    }
}

impl DisplayOutput {
    /// The outputs that `wlr-randr` reports. `heads` is what the report read as JSON, where it
    /// could be read.
    pub fn parse_from_wlr_randr(stdout: &str, heads: Option<Vec<WlrRandrJsonHead>>) -> (r: Vec<
        DisplayOutput,
    >)
        ensures
            models::views(r@) == wlr_outputs(
                stdout@,
                match heads {
                    Some(h) => Some(h@),
                    None => None,
                },
            ),
    {
        if let Some(outputs) = parse_wlr_randr_json(stdout, heads) {
            return outputs;
        }
        parse_wlr_randr_text(stdout)
    }
}

/// An output is in a mode only while it is enabled, and the mode is one that it offers.
pub open spec fn consistent(o: OutputView) -> bool {
    o.current_mode matches Some(m) ==> o.enabled && o.available_modes.contains(m)
}

proof fn lemma_marked_modes(s: Seq<FlaggedMode>)
    ensures
        last_current(s) matches Some(m) ==> modes_of(s).contains(m),
        first_preferred(s) matches Some(m) ==> modes_of(s).contains(m),
    decreases s.len(),
{
    if s.len() > 0 {
        lemma_marked_modes(s.drop_last());
        let all = modes_of(s);
        let before = modes_of(s.drop_last());
        assert(all[s.len() - 1] == s.last().mode);
        assert forall|m: DisplayMode| before.contains(m) implies all.contains(m) by {
            let i = choose|i: int| 0 <= i < before.len() && before[i] == m;
            assert(all[i] == m);
        }
    }
}

proof fn lemma_json_outputs_consistent(heads: Seq<WlrRandrJsonHead>, k: int)
    requires
        0 <= k < json_outputs(heads).len(),
    ensures
        consistent(json_outputs(heads)[k]),
        0 <= json_outputs(heads)[k].id < heads.len(),
        json_outputs(heads)[k].name.len() > 0,
    decreases heads.len(),
{
    lemma_marked_modes(json_modes(heads.last().modes@));
    if k < json_outputs(heads.drop_last()).len() {
        lemma_json_outputs_consistent(heads.drop_last(), k);
    }
}

proof fn lemma_text_outputs_consistent(lines: Seq<Seq<char>>, i: int, id: int, k: int)
    requires
        0 <= k < text_outputs(lines, i, id).len(),
    ensures
        consistent(text_outputs(lines, i, id)[k]),
        text_outputs(lines, i, id)[k].id == id + k,
    decreases lines.len() - i,
{
    if spec::trim_end(lines[i]).len() == 0 {
        lemma_text_outputs_consistent(lines, i + 1, id, k);
    } else {
        lemma_block_end(lines, i + 1);
        let end = block_end(lines, i + 1);
        lemma_marked_modes(details(lines.subrange(i + 1, end)).modes);
        if k > 0 {
            lemma_text_outputs_consistent(lines, end, id + 1, k - 1);
        }
    }
}

/// Every output of a report is in a mode only while it is enabled, and then in one of its own
/// modes.
pub proof fn reported_outputs_are_consistent(
    stdout: Seq<char>,
    heads: Option<Seq<WlrRandrJsonHead>>,
    k: int,
)
    requires
        0 <= k < wlr_outputs(stdout, heads).len(),
    ensures
        consistent(wlr_outputs(stdout, heads)[k]),
{
    match heads {
        Some(h) => lemma_json_outputs_consistent(h, k),
        None => lemma_text_outputs_consistent(spec::lines(stdout), 0, 0, k),
    }
}

/// The outputs of a report as text are numbered from zero on.
pub proof fn text_outputs_are_numbered(lines: Seq<Seq<char>>, k: int)
    requires
        0 <= k < text_outputs(lines, 0, 0).len(),
    ensures
        text_outputs(lines, 0, 0)[k].id == k,
{
    lemma_text_outputs_consistent(lines, 0, 0, k);
}

/// No two outputs of a report as JSON have the same number: the numbers rise.
pub proof fn json_outputs_are_numbered(heads: Seq<WlrRandrJsonHead>, j: int, k: int)
    requires
        0 <= j < k < json_outputs(heads).len(),
    ensures
        json_outputs(heads)[j].id < json_outputs(heads)[k].id < heads.len(),
    decreases heads.len(),
{
    lemma_json_outputs_consistent(heads, k);
    if k < json_outputs(heads.drop_last()).len() {
        json_outputs_are_numbered(heads.drop_last(), j, k);
    } else {
        lemma_json_outputs_consistent(heads.drop_last(), j);
    }
}

} // verus!
