//! Reading what `xrandr --query --verbose` prints.
use vstd::prelude::*;

use crate::decimal;
use crate::float;
use crate::float::Single;
use crate::models;
use crate::models::{DisplayColorCapabilities, DisplayColorSettings, DisplayMode, DisplayOutput, OutputView};
use crate::text;
use crate::text_spec as spec;
use crate::wlr_randr;
use crate::x11::X11Backend;

pub mod laws;

verus! {

/// The token without the marks `*` and `+` at its end.
pub open spec fn unmarked(s: Seq<char>) -> Seq<char>
    decreases s.len(),
{
    if s.len() > 0 && (s.last() == '*' || s.last() == '+') {
        unmarked(s.drop_last())
    } else {
        s
    }
}

/// Whether the text is made of digits and points, with a digit among them.
pub open spec fn plain_number(s: Seq<char>) -> bool {
    &&& forall|i: int| 0 <= i < s.len() ==> spec::is_digit(s[i]) || s[i] == '.'
    &&& exists|i: int| 0 <= i < s.len() && spec::is_digit(s[i])
}

/// The refresh rate in a token: a plain number, with or without marks.
pub open spec fn token_rate(s: Seq<char>) -> Option<Single> {
    if plain_number(unmarked(s)) {
        float::single_value(unmarked(s))
    } else {
        None
    }
}

/// The first refresh rate among the tokens.
pub open spec fn first_rate(tokens: Seq<Seq<char>>) -> Option<Single>
    decreases tokens.len(),
{
    if tokens.len() == 0 {
        None
    } else if first_rate(tokens.drop_last()) is Some {
        first_rate(tokens.drop_last())
    } else {
        token_rate(tokens.last())
    }
}

/// Whether a token marks its mode, by a sign or by a word in any case.
pub open spec fn is_mark(s: Seq<char>, sign: Seq<char>, word: Seq<char>) -> bool {
    spec::contains(s, sign) || spec::contains(spec::lower(s), word)
}

/// Whether any of the tokens marks the mode.
pub open spec fn marked(tokens: Seq<Seq<char>>, sign: Seq<char>, word: Seq<char>) -> bool {
    exists|i: int| 0 <= i < tokens.len() && is_mark(#[trigger] tokens[i], sign, word)
}

/// The size in `WxH`.
pub open spec fn size(s: Seq<char>) -> Option<(u32, u32)> {
    match spec::split_once(s, "x"@) {
        Some(t) => match (decimal::u32_value(t.0), decimal::u32_value(t.1)) {
            (Some(w), Some(h)) => Some((w, h)),
            _ => None,
        },
        None => None,
    }
}

/// A line that lists a mode: its size, then tokens with rates and marks. The result is the mode
/// with its first rate, whether it is current, and whether it is preferred.
pub open spec fn mode_line(line: Seq<char>) -> Option<(DisplayMode, bool, bool)> {
    let words = spec::words(line);
    if words.len() == 0 || !spec::is_digit(spec::trim_start(line)[0]) {
        None
    } else {
        match size(words[0]) {
            Some((width, height)) => {
                let tokens = words.skip(1);
                Some(
                    (
                        DisplayMode { width, height, refresh_hz: first_rate(tokens) },
                        marked(tokens, "*"@, "current"@),
                        marked(tokens, "+"@, "preferred"@),
                    ),
                )
            },
            None => None,
        }
    }
}

/// The refresh rate in a line `v: .. clock RHz`.
pub open spec fn clock_line(line: Seq<char>) -> Option<Single> {
    let s = spec::trim(line);
    if !spec::starts_with(s, "v:"@) {
        None
    } else {
        match spec::rsplit_once(s, "clock"@) {
            Some(t) => match spec::strip_suffix(spec::trim(t.1), "Hz"@) {
                Some(hz) => float::single_value(spec::trim(hz)),
                None => None,
            },
            None => None,
        }
    }
}

/// The size in a token `WxH+X+Y` of a first line.
pub open spec fn geometry(token: Seq<char>) -> Option<DisplayMode> {
    if token.len() > 0 && spec::is_digit(token[0]) {
        match spec::split_once(token, "+"@) {
            Some(t) => match size(t.0) {
                Some((width, height)) => Some(DisplayMode { width, height, refresh_hz: None }),
                None => None,
            },
            None => None,
        }
    } else {
        None
    }
}

/// The last size among the tokens of a first line.
pub open spec fn last_geometry(tokens: Seq<Seq<char>>) -> Option<DisplayMode>
    decreases tokens.len(),
{
    if tokens.len() == 0 {
        None
    } else if geometry(tokens.last()) is Some {
        geometry(tokens.last())
    } else {
        last_geometry(tokens.drop_last())
    }
}

/// What the lines of an output read so far have said.
#[verifier::ext_equal]
pub struct Block {
    pub modes: Seq<DisplayMode>,
    /// The place of the last mode that was marked as current.
    pub current: Option<int>,
    pub brightness: Option<Single>,
    pub gamma: Option<Single>,
}

/// What one more line says. A vertical clock gives the rate of the last mode listed before it.
pub open spec fn block_line(b: Block, line: Seq<char>) -> Block {
    let s = spec::trim(line);
    match (spec::strip_prefix(s, "Brightness:"@), spec::strip_prefix(s, "Gamma:"@)) {
        (Some(rest), _) => match float::single_value(spec::trim(rest)) {
            Some(x) => Block { brightness: Some(x), ..b },
            None => b,
        },
        (None, Some(rest)) => match float::single_value(spec::until(spec::trim(rest), ":"@)) {
            Some(x) => Block { gamma: Some(x), ..b },
            None => b,
        },
        (None, None) => match (mode_line(s), clock_line(s)) {
            (Some((mode, current, _)), _) => Block {
                modes: b.modes.push(mode),
                current: if current {
                    Some(b.modes.len() as int)
                } else {
                    b.current
                },
                ..b
            },
            (None, Some(hz)) => if b.modes.len() > 0 {
                Block {
                    modes: b.modes.update(
                        b.modes.len() - 1,
                        DisplayMode { refresh_hz: Some(hz), ..b.modes.last() },
                    ),
                    ..b
                }
            } else {
                b
            },
            (None, None) => b,
        },
    }
}

/// What the lines say together; blank ones say nothing.
pub open spec fn block(lines: Seq<Seq<char>>) -> Block
    decreases lines.len(),
{
    if lines.len() == 0 {
        Block { modes: seq![], current: None, brightness: None, gamma: None }
    } else if spec::is_blank(lines.last()) {
        block(lines.drop_last())
    } else {
        block_line(block(lines.drop_last()), lines.last())
    }
}

/// Whether the mode is listed, by the equality of modes.
pub open spec fn listed(modes: Seq<DisplayMode>, mode: DisplayMode) -> bool {
    exists|i: int| 0 <= i < modes.len() && models::same_mode(#[trigger] modes[i], mode)
}

/// The modes, each where it comes first.
pub open spec fn distinct(modes: Seq<DisplayMode>) -> Seq<DisplayMode>
    decreases modes.len(),
{
    if modes.len() == 0 {
        seq![]
    } else if listed(distinct(modes.drop_last()), modes.last()) {
        distinct(modes.drop_last())
    } else {
        distinct(modes.drop_last()).push(modes.last())
    }
}

/// Whether a line is the first one of an output: not blank, not indented, not about the screen.
pub open spec fn starts_output(line: Seq<char>) -> bool {
    spec::words(line).len() > 0 && !spec::starts_with(line, "Screen"@) && !wlr_randr::indented(line)
}

/// The mode that an output is in: the one marked as current, else the size in the first line.
pub open spec fn current_mode(first: Seq<char>, b: Block) -> Option<DisplayMode> {
    match b.current {
        Some(i) => Some(b.modes[i]),
        None => last_geometry(
            if spec::words(first).len() >= 2 {
                spec::words(first).skip(2)
            } else {
                seq![]
            },
        ),
    }
}

/// The output that a first line and the lines after it describe. It counts as enabled where it
/// is connected and in a mode.
pub open spec fn block_output(id: int, first: Seq<char>, rest: Seq<Seq<char>>) -> OutputView {
    let words = spec::words(first);
    let b = block(rest);
    let mode = current_mode(first, b);
    let enabled = words.len() >= 2 && words[1] == "connected"@ && mode is Some;
    OutputView {
        primary: words.len() >= 2 && words.skip(2).contains("primary"@),
        available_modes: distinct(b.modes),
        enabled,
        current_mode: if enabled {
            mode
        } else {
            None
        },
        color: DisplayColorSettings { brightness: b.brightness, gamma: b.gamma, temperature: None },
        color_caps: models::caps(true),
        ..models::simple_view(id, words[0], None)
    }
}

/// The outputs that the lines from `i` on describe, numbered from `id` on.
pub open spec fn xrandr_outputs(lines: Seq<Seq<char>>, i: int, id: int) -> Seq<OutputView>
    decreases lines.len() - i,
    via xrandr_outputs_decreases
{
    if i >= lines.len() {
        seq![]
    } else if !starts_output(lines[i]) {
        xrandr_outputs(lines, i + 1, id)
    } else {
        let end = wlr_randr::block_end(lines, i + 1);
        seq![block_output(id, lines[i], lines.subrange(i + 1, end))] + xrandr_outputs(
            lines,
            end,
            id + 1,
        )
    }
}

#[via_fn]
proof fn xrandr_outputs_decreases(lines: Seq<Seq<char>>, i: int, id: int) {
    wlr_randr::lemma_block_end(lines, i + 1);
}

fn unmark<'a>(s: &'a [char]) -> (r: &'a [char])
    ensures
        r@ == unmarked(s@),
{
    let mut i: usize = s.len();
    assert(s@.take(i as int) == s@);
    while i > 0 && (s[i - 1] == '*' || s[i - 1] == '+')
        invariant
            i <= s@.len(),
            unmarked(s@.take(i as int)) == unmarked(s@),
        decreases i,
    {
        assert(s@.take(i as int).drop_last() == s@.take(i - 1));
        i = i - 1;
    }
    text::take(s, i)
}

fn is_plain_number(s: &[char]) -> (r: bool)
    ensures
        r == plain_number(s@),
{
    let mut any = false;
    let mut i: usize = 0;
    while i < s.len()
        invariant
            i <= s@.len(),
            forall|j: int| 0 <= j < i ==> spec::is_digit(s@[j]) || s@[j] == '.',
            any == exists|j: int| 0 <= j < i && spec::is_digit(s@[j]),
        decreases s.len() - i,
    {
        if text::is_digit(s[i]) {
            any = true;
        } else if s[i] != '.' {
            return false;
        }
        i = i + 1;
    }
    any
}

fn rate_in(s: &[char]) -> (r: Option<Single>)
    ensures
        r == token_rate(s@),
{
    let t = unmark(s);
    if is_plain_number(t) {
        Single::parse(t)
    } else {
        None
    }
}

fn is_marked(s: &[char], sign: &str, word: &str) -> (r: bool)
    ensures
        r == is_mark(s@, sign@, word@),
{
    if text::contains(s, sign) {
        return true;
    }
    let t = text::lower(s);
    text::contains(t.as_slice(), word)
}

fn size_in(s: &[char]) -> (r: Option<(u32, u32)>)
    ensures
        r == size(s@),
{
    match text::split_once(s, "x") {
        Some((w, h)) => match (decimal::read_u32(w), decimal::read_u32(h)) {
            (Some(w), Some(h)) => Some((w, h)),
            _ => None,
        },
        None => None,
    }
}

fn geometry_in(token: &[char]) -> (r: Option<DisplayMode>)
    ensures
        r == geometry(token@),
{
    if token.len() > 0 && text::is_digit(token[0]) {
        match text::split_once(token, "+") {
            Some((res, _)) => match size_in(res) {
                Some((width, height)) => Some(DisplayMode { width, height, refresh_hz: None }),
                None => None,
            },
            None => None,
        }
    } else {
        None
    }
}

/// What the lines of an output have said, as it is collected.
struct BlockLines {
    modes: Vec<DisplayMode>,
    current: Option<usize>,
    brightness: Option<Single>,
    gamma: Option<Single>,
}

impl View for BlockLines {
    type V = Block;

    closed spec fn view(&self) -> Block {
        Block {
            modes: self.modes@,
            current: match self.current {
                Some(i) => Some(i as int),
                None => None,
            },
            brightness: self.brightness,
            gamma: self.gamma,
        }
    }
}

fn take_line(b: &mut BlockLines, line: &[char])
    requires
        old(b)@.current matches Some(i) ==> 0 <= i < old(b)@.modes.len(),
    ensures
        final(b)@ == block_line(old(b)@, line@),
        final(b)@.current matches Some(i) ==> 0 <= i < final(b)@.modes.len(),
{
    let s = text::trim(line);
    if let Some(rest) = text::strip_prefix(s, "Brightness:") {
        if let Some(x) = Single::parse(text::trim(rest)) {
            b.brightness = Some(x);
        }
        return ;
    }
    if let Some(rest) = text::strip_prefix(s, "Gamma:") {
        if let Some(x) = Single::parse(text::until(text::trim(rest), ":")) {
            b.gamma = Some(x);
        }
        return ;
    }
    if let Some((mode, current, _)) = X11Backend::parse_mode_chars(s) {
        if current {
            b.current = Some(b.modes.len());
        }
        b.modes.push(mode);
        return ;
    }
    if let Some(hz) = X11Backend::parse_clock_chars(s) {
        let n = b.modes.len();
        if n > 0 {
            let last = b.modes[n - 1];
            b.modes.set(
                n - 1,
                DisplayMode { width: last.width, height: last.height, refresh_hz: Some(hz) },
            );
        }
    }
}

fn distinct_of(modes: &Vec<DisplayMode>) -> (r: Vec<DisplayMode>)
    ensures
        r@ == distinct(modes@),
{
    let mut r: Vec<DisplayMode> = Vec::new();
    let mut i: usize = 0;
    while i < modes.len()
        invariant
            i <= modes@.len(),
            r@ == distinct(modes@.take(i as int)),
        decreases modes.len() - i,
    {
        let m = modes[i];
        let mut found = false;
        let mut j: usize = 0;
        while j < r.len() && !found
            invariant
                j <= r@.len(),
                found == exists|k: int| 0 <= k < j && models::same_mode(#[trigger] r@[k], m),
            decreases r.len() - j,
        {
            if r[j] == m {
                found = true;
            }
            j = j + 1;
        }
        if !found {
            r.push(m);
        }
        i = i + 1;
        assert(modes@.take(i as int).drop_last() == modes@.take(i - 1));
    }
    assert(modes@.take(modes@.len() as int) == modes@);
    r
}

/// What the first line of an output says.
struct FirstLine {
    name: String,
    connected: bool,
    primary: bool,
    geometry: Option<DisplayMode>,
}

fn first_line_of(words: &Vec<&[char]>) -> (r: FirstLine)
    requires
        words@.len() > 0,
    ensures
        ({
            let w = spec::pieces(words@);
            let tokens = if w.len() >= 2 {
                w.skip(2)
            } else {
                seq![]
            };
            &&& r.name@ == w[0]
            &&& r.connected == (w.len() >= 2 && w[1] == "connected"@)
            &&& r.primary == tokens.contains("primary"@)
            &&& r.geometry == last_geometry(tokens)
        }),
{
    let ghost w = spec::pieces(words@);
    let ghost tokens: Seq<Seq<char>> = if w.len() >= 2 {
        w.skip(2)
    } else {
        seq![]
    };
    let name = text::string_of(words[0]);
    if words.len() < 2 {
        return FirstLine { name, connected: false, primary: false, geometry: None };
    }
    let connected = text::is(words[1], "connected");
    let mut primary = false;
    let mut geometry: Option<DisplayMode> = None;
    let mut i: usize = 2;
    while i < words.len()
        invariant
            2 <= i <= words@.len(),
            w == spec::pieces(words@),
            tokens == w.skip(2),
            primary == tokens.take(i - 2).contains("primary"@),
            geometry == last_geometry(tokens.take(i - 2)),
        decreases words.len() - i,
    {
        let ghost before = tokens.take(i - 2);
        let ghost now = tokens.take(i - 1);
        let is_primary = text::is(words[i], "primary");
        proof {
            assert(now =~= before.push(tokens[i - 2]));
            assert(now.drop_last() =~= before);
            assert(now.last() == words@[i as int]@);
            assert forall|x: Seq<char>| now.contains(x) == (before.contains(x) || x == now.last()) by {
                if before.contains(x) {
                    let k = choose|k: int| 0 <= k < before.len() && before[k] == x;
                    assert(now[k] == x);
                }
                if x == now.last() {
                    assert(now[now.len() - 1] == x);
                }
            }
        }
        if is_primary {
            primary = true;
        }
        if let Some(mode) = geometry_in(words[i]) {
            geometry = Some(mode);
        }
        i = i + 1;
    }
    assert(tokens.take(tokens.len() as int) == tokens);
    FirstLine { name, connected, primary, geometry }
}

impl X11Backend {
    fn parse_mode_chars(line: &[char]) -> (r: Option<(DisplayMode, bool, bool)>)
        ensures
            r == mode_line(line@),
    {
        let t = text::trim_start(line);
        let words = text::words(line);
        let ghost w = spec::pieces(words@);
        if words.len() == 0 {
            return None;
        }
        if !text::is_digit(t[0]) {
            return None;
        }
        let (width, height) = match size_in(words[0]) {
            Some(s) => s,
            None => return None,
        };
        let ghost tokens = w.skip(1);
        let mut refresh_hz: Option<Single> = None;
        let mut current = false;
        let mut preferred = false;
        let mut i: usize = 1;
        while i < words.len()
            invariant
                1 <= i <= words@.len(),
                w == spec::pieces(words@),
                tokens == w.skip(1),
                refresh_hz == first_rate(tokens.take(i - 1)),
                current == marked(tokens.take(i - 1), "*"@, "current"@),
                preferred == marked(tokens.take(i - 1), "+"@, "preferred"@),
            decreases words.len() - i,
        {
            let token = words[i];
            let is_current = is_marked(token, "*", "current");
            let is_preferred = is_marked(token, "+", "preferred");
            proof {
                let before = tokens.take(i - 1);
                let now = tokens.take(i as int);
                assert(now.drop_last() =~= before);
                assert(now.last() == token@);
                lemma_marked(now, "*"@, "current"@);
                lemma_marked(now, "+"@, "preferred"@);
            }
            current = current || is_current;
            preferred = preferred || is_preferred;
            if refresh_hz.is_none() {
                refresh_hz = rate_in(token);
            }
            i = i + 1;
        }
        assert(tokens.take(tokens.len() as int) == tokens);
        Some((DisplayMode { width, height, refresh_hz }, current, preferred))
    }

    fn parse_clock_chars(line: &[char]) -> (r: Option<Single>)
        ensures
            r == clock_line(line@),
    {
        let s = text::trim(line);
        if !text::starts_with(s, "v:") {
            return None;
        }
        match text::rsplit_once(s, "clock") {
            Some((_, tail)) => match text::strip_suffix(text::trim(tail), "Hz") {
                Some(hz) => Single::parse(text::trim(hz)),
                None => None,
            },
            None => None,
        }
    }

    /// The mode in a line of the report, whether it is current, and whether it is preferred.
    pub fn parse_mode_line(line: &str) -> (r: Option<(DisplayMode, bool, bool)>)
        ensures
            r == mode_line(line@),
    {
        let s = text::chars_of(line);
        Self::parse_mode_chars(s.as_slice())
    }

    /// The vertical refresh rate in a line of the report.
    pub fn parse_vertical_clock_line(line: &str) -> (r: Option<Single>)
        ensures
            r == clock_line(line@),
    {
        let s = text::chars_of(line);
        Self::parse_clock_chars(s.as_slice())
    }

    /// The outputs in the report.
    pub fn parse_xrandr(stdout: &str) -> (r: Vec<DisplayOutput>)
        ensures
            models::views(r@) == xrandr_outputs(spec::lines(stdout@), 0, 0),
    {
        let all = text::chars_of(stdout);
        let lines = text::lines(all.as_slice());
        let ghost ls = spec::lines(stdout@);
        let mut r: Vec<DisplayOutput> = Vec::new();
        let mut i: usize = 0;
        assert(models::views(r@) + xrandr_outputs(ls, 0, 0) =~= xrandr_outputs(ls, 0, 0));
        while i < lines.len()
            invariant
                i <= lines@.len(),
                ls == spec::pieces(lines@),
                r@.len() <= i,
                models::views(r@) + xrandr_outputs(ls, i as int, r@.len() as int)
                    == xrandr_outputs(ls, 0, 0),
            decreases lines.len() - i,
        {
            let ghost start = i as int;
            let ghost before = r@;
            let first = lines[i];
            i = i + 1;
            let words = text::words(first);
            if words.len() > 0 && !text::starts_with(first, "Screen") && !wlr_randr::is_indented(
                first,
            ) {
                let id = r.len();
                let head = first_line_of(&words);
                let mut b = BlockLines {
                    modes: Vec::new(),
                    current: None,
                    brightness: None,
                    gamma: None,
                };
                proof {
                    wlr_randr::lemma_block_end(ls, start + 1);
                    assert(ls.subrange(start + 1, start + 1) =~= seq![]);
                    assert(b@ =~= block(ls.subrange(start + 1, start + 1)));
                }
                while i < lines.len() && (text::trim(lines[i]).len() == 0
                    || wlr_randr::is_indented(lines[i]))
                    invariant
                        0 <= start < i <= lines@.len(),
                        ls == spec::pieces(lines@),
                        b@ == block(ls.subrange(start + 1, i as int)),
                        b@.current matches Some(k) ==> 0 <= k < b@.modes.len(),
                        wlr_randr::block_end(ls, i as int) == wlr_randr::block_end(ls, start + 1),
                    decreases lines.len() - i,
                {
                    if text::trim(lines[i]).len() > 0 {
                        take_line(&mut b, lines[i]);
                    }
                    i = i + 1;
                    assert(ls.subrange(start + 1, i as int).drop_last() == ls.subrange(
                        start + 1,
                        i - 1,
                    ));
                }
                let mode = match b.current {
                    Some(k) => Some(b.modes[k]),
                    None => head.geometry,
                };
                let enabled = head.connected && mode.is_some();
                let mut o = DisplayOutput::simple(id, head.name, None);
                o.primary = head.primary;
                o.available_modes = distinct_of(&b.modes);
                o.enabled = enabled;
                o.current_mode = if enabled {
                    mode
                } else {
                    None
                };
                o.color = DisplayColorSettings {
                    brightness: b.brightness,
                    gamma: b.gamma,
                    temperature: None,
                };
                o.color_caps = DisplayColorCapabilities {
                    brightness: true,
                    gamma: true,
                    temperature: true,
                };
                r.push(o);
                proof {
                    assert(wlr_randr::block_end(ls, i as int) == i);
                    assert(models::views(r@) =~= models::views(before).push(o@));
                    assert(o@ =~= block_output(
                        id as int,
                        ls[start],
                        ls.subrange(start + 1, i as int),
                    ));
                    assert(xrandr_outputs(ls, start, id as int) == seq![o@] + xrandr_outputs(
                        ls,
                        i as int,
                        id + 1,
                    ));
                    assert(models::views(r@) + xrandr_outputs(ls, i as int, id + 1)
                        =~= models::views(before) + xrandr_outputs(ls, start, id as int));
                }
            }
        }
        assert(models::views(r@) + xrandr_outputs(ls, i as int, r@.len() as int)
            =~= models::views(r@));
        r
    }
}

proof fn lemma_marked(tokens: Seq<Seq<char>>, sign: Seq<char>, word: Seq<char>)
    requires
        tokens.len() > 0,
    ensures
        marked(tokens, sign, word) == (marked(tokens.drop_last(), sign, word) || is_mark(
            tokens.last(),
            sign,
            word,
        )),
{
    let before = tokens.drop_last();
    if marked(before, sign, word) {
        let i = choose|i: int| 0 <= i < before.len() && is_mark(#[trigger] before[i], sign, word);
        assert(is_mark(tokens[i], sign, word));
    }
    if marked(tokens, sign, word) {
        let i = choose|i: int| 0 <= i < tokens.len() && is_mark(#[trigger] tokens[i], sign, word);
        if i < before.len() {
            assert(is_mark(before[i], sign, word));
        }
    }
    if is_mark(tokens.last(), sign, word) {
        assert(is_mark(tokens[tokens.len() - 1], sign, word));
    }
}

/// Whether no two modes of the list are equal.
pub open spec fn no_repeats(modes: Seq<DisplayMode>) -> bool {
    forall|i: int, j: int|
        0 <= i < j < modes.len() ==> !models::same_mode(#[trigger] modes[i], #[trigger] modes[j])
}

/// Listing modes once leaves no two equal ones, and adds none.
pub proof fn distinct_modes_do_not_repeat(modes: Seq<DisplayMode>)
    ensures
        no_repeats(distinct(modes)),
        forall|m: DisplayMode| #[trigger] distinct(modes).contains(m) ==> modes.contains(m),
    decreases modes.len(),
{
    if modes.len() > 0 {
        let before = modes.drop_last();
        distinct_modes_do_not_repeat(before);
        assert(modes[modes.len() - 1] == modes.last());
        assert forall|m: DisplayMode| #[trigger] distinct(modes).contains(m) implies modes.contains(
            m,
        ) by {
            if m != modes.last() {
                let i = choose|i: int| 0 <= i < distinct(modes).len() && distinct(modes)[i] == m;
                assert(distinct(before)[i] == m);
                assert(distinct(before).contains(m));
                let k = choose|k: int| 0 <= k < before.len() && before[k] == m;
                assert(modes[k] == m);
            }
        }
    }
}

/// Listing modes once loses none that equals itself, which all but those do whose rate is not a
/// number.
pub proof fn distinct_modes_are_complete(modes: Seq<DisplayMode>, k: int)
    requires
        0 <= k < modes.len(),
        models::same_mode(modes[k], modes[k]),
    ensures
        listed(distinct(modes), modes[k]),
    decreases modes.len(),
{
    let before = modes.drop_last();
    let d = distinct(before);
    let all = distinct(modes);
    if k < before.len() {
        distinct_modes_are_complete(before, k);
        let i = choose|i: int| 0 <= i < d.len() && models::same_mode(#[trigger] d[i], modes[k]);
        assert(models::same_mode(all[i], modes[k]));
    } else if !listed(d, modes.last()) {
        assert(models::same_mode(all[all.len() - 1], modes[k]));
    }
}

proof fn lemma_xrandr_output(lines: Seq<Seq<char>>, i: int, id: int, k: int)
    requires
        0 <= k < xrandr_outputs(lines, i, id).len(),
    ensures
        ({
            let o = xrandr_outputs(lines, i, id)[k];
            &&& o.id == id + k
            &&& o.enabled == (o.current_mode is Some)
            &&& no_repeats(o.available_modes)
            &&& o.color_caps == models::caps(true)
        }),
    decreases lines.len() - i,
{
    if !starts_output(lines[i]) {
        lemma_xrandr_output(lines, i + 1, id, k);
    } else {
        wlr_randr::lemma_block_end(lines, i + 1);
        let end = wlr_randr::block_end(lines, i + 1);
        distinct_modes_do_not_repeat(block(lines.subrange(i + 1, end)).modes);
        if k > 0 {
            lemma_xrandr_output(lines, end, id + 1, k - 1);
        }
    }
}

/// The outputs of a report are numbered from zero on; each is enabled exactly while it is in a
/// mode, lists no mode twice, and lets all its color settings be changed.
pub proof fn reported_outputs_are_consistent(lines: Seq<Seq<char>>, k: int)
    requires
        0 <= k < xrandr_outputs(lines, 0, 0).len(),
    ensures
        ({
            let o = xrandr_outputs(lines, 0, 0)[k];
            &&& o.id == k
            &&& o.enabled == (o.current_mode is Some)
            &&& no_repeats(o.available_modes)
            &&& o.color_caps == models::caps(true)
        }),
{
    lemma_xrandr_output(lines, 0, 0, k);
}

} // verus!
