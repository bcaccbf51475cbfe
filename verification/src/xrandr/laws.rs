//! What holds of everything that is read from a report of `xrandr`.
use vstd::prelude::*;

use crate::decimal;
use crate::float;
use crate::models;
use crate::models::DisplayMode;
use crate::text_spec as spec;
use crate::wlr_randr;
use crate::xrandr::{
    block, block_output, clock_line, distinct, first_rate, geometry, last_geometry, listed,
    mode_line, no_repeats, plain_number, size, starts_output, token_rate, unmarked, xrandr_outputs,
};

verus! {

/// How many of the lines list a mode.
pub open spec fn modes_listed(lines: Seq<Seq<char>>) -> nat
    decreases lines.len(),
{
    if lines.len() == 0 {
        0
    } else {
        modes_listed(lines.drop_last()) + if mode_line(spec::trim(lines.last())) is Some {
            1nat
        } else {
            0
        }
    }
}

proof fn lemma_kinds(line: Seq<char>)
    ensures
        ({
            let s = spec::trim(line);
            let other = spec::strip_prefix(s, "Brightness:"@) is Some || spec::strip_prefix(
                s,
                "Gamma:"@,
            ) is Some;
            &&& mode_line(s) is Some ==> !spec::is_blank(line) && !other && clock_line(s) is None
            &&& clock_line(s) is Some ==> !spec::is_blank(line) && !other
            &&& other ==> !spec::is_blank(line)
            &&& !(spec::strip_prefix(s, "Brightness:"@) is Some && spec::strip_prefix(s, "Gamma:"@) is Some)
        }),
{
    let s = spec::trim(line);
    reveal_strlit("Brightness:");
    reveal_strlit("Gamma:");
    reveal_strlit("v:");
    spec::trimmed_texts_are_solid(line);
    assert(s.len() == 0 ==> spec::words(s).len() == 0);
    if spec::starts_with(s, "Brightness:"@) {
        assert(s.take("Brightness:"@.len() as int)[0] == s[0]);
    }
    if spec::starts_with(s, "Gamma:"@) {
        assert(s.take("Gamma:"@.len() as int)[0] == s[0]);
    }
    if spec::starts_with(s, "v:"@) {
        assert(s.take("v:"@.len() as int)[0] == s[0]);
    }
}

proof fn lemma_last_line(lines: Seq<Seq<char>>)
    requires
        lines.len() > 0,
    ensures
        ({
            let before = block(lines.drop_last());
            let now = block(lines);
            let s = spec::trim(lines.last());
            &&& mode_line(s) matches Some((m, c, _)) ==> now.modes == before.modes.push(m)
                && now.current == if c {
                Some(before.modes.len() as int)
            } else {
                before.current
            }
            &&& mode_line(s) is None ==> now.current == before.current
            &&& mode_line(s) is None && clock_line(s) is None ==> now.modes == before.modes
            &&& clock_line(s) is Some && before.modes.len() > 0 ==> now.modes
                == before.modes.drop_last().push(
                DisplayMode { refresh_hz: clock_line(s), ..before.modes.last() },
            )
            &&& before.modes.len() == 0 && mode_line(s) is None ==> now.modes.len() == 0
            &&& mode_line(s) is None ==> now.modes.len() == before.modes.len()
        }),
{
    lemma_kinds(lines.last());
    let before = block(lines.drop_last());
    let now = block(lines);
    let s = spec::trim(lines.last());
    if let Some(hz) = clock_line(s) {
        if before.modes.len() > 0 {
            assert(now.modes =~= before.modes.drop_last().push(
                DisplayMode { refresh_hz: Some(hz), ..before.modes.last() },
            ));
        }
    }
}

/// Every line that lists a mode adds one mode, and no other line adds or removes any.
pub proof fn every_mode_is_listed_once(lines: Seq<Seq<char>>)
    ensures
        block(lines).modes.len() == modes_listed(lines),
    decreases lines.len(),
{
    if lines.len() > 0 {
        every_mode_is_listed_once(lines.drop_last());
        lemma_last_line(lines);
    }
}

proof fn lemma_earlier_modes_stay(lines: Seq<Seq<char>>, i: int, k: int)
    requires
        0 <= i <= lines.len(),
        0 <= k < block(lines.take(i)).modes.len() - 1,
    ensures
        k < block(lines).modes.len() - 1,
        block(lines).modes[k] == block(lines.take(i)).modes[k],
    decreases lines.len() - i,
{
    if i < lines.len() {
        let next = lines.take(i + 1);
        assert(next.drop_last() == lines.take(i));
        lemma_last_line(next);
        lemma_earlier_modes_stay(lines, i + 1, k);
    } else {
        assert(lines.take(i) == lines);
    }
}

proof fn lemma_mode_stays(lines: Seq<Seq<char>>, i: int, e: int)
    requires
        0 <= i <= e <= lines.len(),
        forall|l: int|
            i <= l < e ==> mode_line(spec::trim(#[trigger] lines[l])) is None && clock_line(
                spec::trim(lines[l]),
            ) is None,
    ensures
        block(lines.take(e)).modes == block(lines.take(i)).modes,
    decreases e - i,
{
    if i < e {
        lemma_mode_stays(lines, i, e - 1);
        assert(lines.take(e).drop_last() == lines.take(e - 1));
        assert(lines.take(e).last() == lines[e - 1]);
        lemma_last_line(lines.take(e));
    }
}

proof fn lemma_length_stays(lines: Seq<Seq<char>>, i: int, e: int)
    requires
        0 <= i <= e <= lines.len(),
        forall|l: int| i <= l < e ==> mode_line(spec::trim(#[trigger] lines[l])) is None,
    ensures
        block(lines.take(e)).modes.len() == block(lines.take(i)).modes.len(),
        block(lines.take(i)).modes.len() > 0 ==> block(lines.take(e)).modes.last().width == block(
            lines.take(i),
        ).modes.last().width,
        block(lines.take(i)).modes.len() > 0 ==> block(lines.take(e)).modes.last().height == block(
            lines.take(i),
        ).modes.last().height,
    decreases e - i,
{
    if i < e {
        lemma_length_stays(lines, i, e - 1);
        assert(lines.take(e).drop_last() == lines.take(e - 1));
        assert(lines.take(e).last() == lines[e - 1]);
        lemma_last_line(lines.take(e));
    }
}

proof fn lemma_to_the_end(lines: Seq<Seq<char>>, e: int)
    requires
        0 <= e <= lines.len(),
        block(lines.take(e)).modes.len() > 0,
        e < lines.len() ==> mode_line(spec::trim(lines[e])) is Some,
    ensures
        ({
            let k = block(lines.take(e)).modes.len() - 1;
            &&& k < block(lines).modes.len()
            &&& block(lines).modes[k] == block(lines.take(e)).modes[k]
        }),
{
    let k = block(lines.take(e)).modes.len() - 1;
    if e < lines.len() {
        let next = lines.take(e + 1);
        assert(next.drop_last() == lines.take(e));
        assert(next.last() == lines[e]);
        lemma_last_line(next);
        lemma_earlier_modes_stay(lines, e + 1, k);
    } else {
        assert(lines.take(e) == lines);
    }
}

/// A vertical clock is the rate of the mode that is listed last before it, and of no other mode:
/// the mode of line `j` has the rate in line `c`, the last one before the next mode is listed in
/// line `e` or the output ends.
pub proof fn clocks_belong_to_the_modes_before_them(
    lines: Seq<Seq<char>>,
    j: int,
    c: int,
    e: int,
)
    requires
        0 <= j < c < e <= lines.len(),
        mode_line(spec::trim(lines[j])) is Some,
        clock_line(spec::trim(lines[c])) is Some,
        forall|i: int| j < i < e ==> mode_line(spec::trim(#[trigger] lines[i])) is None,
        forall|i: int| c < i < e ==> clock_line(spec::trim(#[trigger] lines[i])) is None,
        e < lines.len() ==> mode_line(spec::trim(lines[e])) is Some,
    ensures
        ({
            let (listed, _, _) = mode_line(spec::trim(lines[j]))->Some_0;
            let k = modes_listed(lines.take(j)) as int;
            let mode = block(lines).modes[k];
            &&& k < block(lines).modes.len()
            &&& mode.width == listed.width
            &&& mode.height == listed.height
            &&& mode.refresh_hz == clock_line(spec::trim(lines[c]))
        }),
{
    every_mode_is_listed_once(lines.take(j));
    assert(lines.take(j + 1).drop_last() == lines.take(j));
    assert(lines.take(j + 1).last() == lines[j]);
    lemma_last_line(lines.take(j + 1));
    lemma_length_stays(lines, j + 1, c);
    assert(lines.take(c + 1).drop_last() == lines.take(c));
    assert(lines.take(c + 1).last() == lines[c]);
    lemma_last_line(lines.take(c + 1));
    lemma_mode_stays(lines, c + 1, e);
    lemma_to_the_end(lines, e);
}

/// A mode after which no clock is given, before the next mode is listed in line `e` or the output
/// ends, is as its line has it.
pub proof fn modes_without_clocks_are_as_listed(lines: Seq<Seq<char>>, j: int, e: int)
    requires
        0 <= j < e <= lines.len(),
        mode_line(spec::trim(lines[j])) is Some,
        forall|i: int|
            j < i < e ==> mode_line(spec::trim(#[trigger] lines[i])) is None && clock_line(
                spec::trim(lines[i]),
            ) is None,
        e < lines.len() ==> mode_line(spec::trim(lines[e])) is Some,
    ensures
        ({
            let k = modes_listed(lines.take(j)) as int;
            &&& k < block(lines).modes.len()
            &&& block(lines).modes[k] == mode_line(spec::trim(lines[j]))->Some_0.0
        }),
{
    every_mode_is_listed_once(lines.take(j));
    assert(lines.take(j + 1).drop_last() == lines.take(j));
    assert(lines.take(j + 1).last() == lines[j]);
    lemma_last_line(lines.take(j + 1));
    lemma_mode_stays(lines, j + 1, e);
    lemma_to_the_end(lines, e);
}

/// Where every mode is followed by its clock, the modes are the listed ones, each with the rate
/// that follows it.
pub proof fn modes_and_clocks_in_turn(lines: Seq<Seq<char>>, n: nat)
    requires
        lines.len() == 2 * n,
        forall|k: int| 0 <= k < n ==> mode_line(spec::trim(#[trigger] lines[2 * k])) is Some,
        forall|k: int| 0 <= k < n ==> clock_line(spec::trim(#[trigger] lines[2 * k + 1])) is Some,
    ensures
        block(lines).modes.len() == n,
        forall|k: int|
            0 <= k < n ==> {
                let (listed, _, _) = mode_line(spec::trim(#[trigger] lines[2 * k]))->Some_0;
                &&& block(lines).modes[k].width == listed.width
                &&& block(lines).modes[k].height == listed.height
                &&& block(lines).modes[k].refresh_hz == clock_line(spec::trim(lines[2 * k + 1]))
            },
    decreases n,
{
    if n > 0 {
        let m = (n - 1) as nat;
        let first = lines.take(2 * m as int);
        assert forall|k: int| 0 <= k < m implies mode_line(spec::trim(#[trigger] first[2 * k])) is Some by {
            assert(first[2 * k] == lines[2 * k]);
        }
        assert forall|k: int| 0 <= k < m implies clock_line(
            spec::trim(#[trigger] first[2 * k + 1]),
        ) is Some by {
            assert(first[2 * k + 1] == lines[2 * k + 1]);
        }
        modes_and_clocks_in_turn(first, m);
        let next = lines.take(2 * m as int + 1);
        assert(next.drop_last() == first);
        assert(next.last() == lines[2 * m as int]);
        lemma_last_line(next);
        assert(lines.drop_last() == next);
        assert(lines.last() == lines[2 * m as int + 1]);
        lemma_last_line(lines);
        assert forall|k: int| 0 <= k < n implies {
            let (listed, _, _) = mode_line(spec::trim(#[trigger] lines[2 * k]))->Some_0;
            &&& block(lines).modes[k].width == listed.width
            &&& block(lines).modes[k].height == listed.height
            &&& block(lines).modes[k].refresh_hz == clock_line(spec::trim(lines[2 * k + 1]))
        } by {
            if k < m {
                assert(first[2 * k] == lines[2 * k]);
                assert(first[2 * k + 1] == lines[2 * k + 1]);
            }
        }
    }
}

proof fn lemma_marked_stays(lines: Seq<Seq<char>>, i: int)
    requires
        0 <= i <= lines.len(),
        forall|l: int|
            i <= l < lines.len() ==> !(mode_line(spec::trim(#[trigger] lines[l])) matches Some(m)
                && m.1),
    ensures
        block(lines).current == block(lines.take(i)).current,
    decreases lines.len() - i,
{
    if i < lines.len() {
        let next = lines.take(i + 1);
        assert(next.drop_last() == lines.take(i));
        assert(next.last() == lines[i]);
        lemma_last_line(next);
        lemma_marked_stays(lines, i + 1);
    } else {
        assert(lines.take(i) == lines);
    }
}

/// A connected output is in the mode that is marked as current, the last one where several are;
/// and then it is enabled.
pub proof fn marked_mode_is_in_use(id: int, first: Seq<char>, lines: Seq<Seq<char>>, j: int)
    requires
        spec::words(first).len() >= 2,
        spec::words(first)[1] == "connected"@,
        0 <= j < lines.len(),
        mode_line(spec::trim(lines[j])) matches Some(m) && m.1,
        forall|i: int|
            j < i < lines.len() ==> !(mode_line(spec::trim(#[trigger] lines[i])) matches Some(m)
                && m.1),
    ensures
        block_output(id, first, lines).enabled,
        block_output(id, first, lines).current_mode == Some(
            block(lines).modes[modes_listed(lines.take(j)) as int],
        ),
        modes_listed(lines.take(j)) < block(lines).modes.len(),
{
    every_mode_is_listed_once(lines.take(j));
    assert(lines.take(j + 1).drop_last() == lines.take(j));
    assert(lines.take(j + 1).last() == lines[j]);
    lemma_last_line(lines.take(j + 1));
    lemma_marked_stays(lines, j + 1);
    every_mode_is_listed_once(lines);
    lemma_more_lines(lines, j + 1);
}

proof fn lemma_more_lines(lines: Seq<Seq<char>>, i: int)
    requires
        0 <= i <= lines.len(),
    ensures
        block(lines.take(i)).modes.len() <= block(lines).modes.len(),
    decreases lines.len() - i,
{
    if i < lines.len() {
        let next = lines.take(i + 1);
        assert(next.drop_last() == lines.take(i));
        lemma_last_line(next);
        lemma_more_lines(lines, i + 1);
    } else {
        assert(lines.take(i) == lines);
    }
}

pub(crate) proof fn lemma_size(width: u32, height: u32)
    ensures
        size(models::size_text(width, height)) == Some((width, height)),
        models::size_text(width, height).len() > 0,
        spec::is_digit(models::size_text(width, height)[0]),
        spec::is_word(models::size_text(width, height)),
        !models::size_text(width, height).contains('+'),
{
    let w = decimal::decimal(width as nat);
    let h = decimal::decimal(height as nat);
    reveal_strlit("x");
    assert("x"@ =~= seq!['x']);
    decimal::lemma_decimal(width as nat);
    decimal::lemma_decimal(height as nat);
    decimal::u32_read_after_write(width);
    decimal::u32_read_after_write(height);
    assert forall|i: int| 0 <= i < w.len() implies w[i] != 'x' by {
        assert(spec::is_digit(w[i]));
    }
    assert(!w.contains('x'));
    spec::lemma_split_at(w, 'x', h);
    let s = models::size_text(width, height);
    assert(s =~= w + seq!['x'] + h);
    assert(s[0] == w[0]);
    assert(spec::is_digit(w[0]));
    assert forall|i: int| 0 <= i < s.len() implies !spec::is_space(#[trigger] s[i]) && s[i] != '+' by {
        if i < w.len() {
            assert(s[i] == w[i]);
            assert(spec::is_digit(w[i]));
        } else if i > w.len() {
            assert(s[i] == h[i - w.len() - 1]);
            assert(spec::is_digit(h[i - w.len() - 1]));
        }
    }
}

/// A token that starts with a size and a plus sign stands for that size.
pub proof fn geometries_are_read(width: u32, height: u32, tail: Seq<char>)
    ensures
        geometry(models::size_text(width, height) + "+"@ + tail) == Some(
            DisplayMode { width, height, refresh_hz: None },
        ),
{
    lemma_size(width, height);
    let s = models::size_text(width, height);
    reveal_strlit("+");
    assert("+"@ =~= seq!['+']);
    spec::lemma_split_at(s, '+', tail);
    let token = s + "+"@ + tail;
    assert(token[0] == s[0]);
}

proof fn lemma_last_geometry(tokens: Seq<Seq<char>>, g: int)
    requires
        0 <= g < tokens.len(),
        geometry(tokens[g]) is Some,
        forall|i: int| g < i < tokens.len() ==> geometry(#[trigger] tokens[i]) is None,
    ensures
        last_geometry(tokens) == geometry(tokens[g]),
    decreases tokens.len(),
{
    if g < tokens.len() - 1 {
        let t = tokens.drop_last();
        assert forall|i: int| g < i < t.len() implies geometry(#[trigger] t[i]) is None by {
            assert(t[i] == tokens[i]);
        }
        lemma_last_geometry(t, g);
    }
}

/// A connected output with no mode marked as current has the size that its first line gives, and
/// is enabled; the rate is not known then.
pub proof fn first_line_gives_the_size(
    id: int,
    first: Seq<char>,
    lines: Seq<Seq<char>>,
    g: int,
    width: u32,
    height: u32,
    tail: Seq<char>,
)
    requires
        2 <= g < spec::words(first).len(),
        spec::words(first)[1] == "connected"@,
        spec::words(first)[g] == models::size_text(width, height) + "+"@ + tail,
        forall|i: int| g < i < spec::words(first).len() ==> geometry(#[trigger] spec::words(first)[i]) is None,
        forall|i: int|
            0 <= i < lines.len() ==> !(mode_line(spec::trim(#[trigger] lines[i])) matches Some(m)
                && m.1),
    ensures
        block_output(id, first, lines).enabled,
        block_output(id, first, lines).current_mode == Some(
            DisplayMode { width, height, refresh_hz: None },
        ),
{
    lemma_marked_stays(lines, 0);
    assert(lines.take(0) =~= seq![]);
    geometries_are_read(width, height, tail);
    let tokens = spec::words(first).skip(2);
    assert(tokens[g - 2] == spec::words(first)[g]);
    assert forall|i: int| g - 2 < i < tokens.len() implies geometry(#[trigger] tokens[i]) is None by {
        assert(tokens[i] == spec::words(first)[i + 2]);
    }
    lemma_last_geometry(tokens, g - 2);
}

proof fn lemma_no_geometry(tokens: Seq<Seq<char>>)
    requires
        forall|i: int| 0 <= i < tokens.len() ==> geometry(#[trigger] tokens[i]) is None,
    ensures
        last_geometry(tokens) is None,
    decreases tokens.len(),
{
    if tokens.len() > 0 {
        let t = tokens.drop_last();
        assert forall|i: int| 0 <= i < t.len() implies geometry(#[trigger] t[i]) is None by {
            assert(t[i] == tokens[i]);
        }
        lemma_no_geometry(t);
    }
}

/// An output is disabled and in no mode where it is not connected, and where neither a mode is
/// marked as current nor the first line gives a size.
pub proof fn other_outputs_are_disabled(id: int, first: Seq<char>, lines: Seq<Seq<char>>)
    requires
        spec::words(first).len() < 2 || spec::words(first)[1] != "connected"@ || {
            &&& forall|i: int|
                2 <= i < spec::words(first).len() ==> geometry(#[trigger] spec::words(first)[i]) is None
            &&& forall|i: int|
                0 <= i < lines.len() ==> !(mode_line(spec::trim(#[trigger] lines[i])) matches Some(
                    m,
                ) && m.1)
        },
    ensures
        !block_output(id, first, lines).enabled,
        block_output(id, first, lines).current_mode is None,
{
    if spec::words(first).len() >= 2 && spec::words(first)[1] == "connected"@ {
        lemma_marked_stays(lines, 0);
        assert(lines.take(0) =~= seq![]);
        let tokens = spec::words(first).skip(2);
        assert forall|i: int| 0 <= i < tokens.len() implies geometry(#[trigger] tokens[i]) is None by {
            assert(tokens[i] == spec::words(first)[i + 2]);
        }
        lemma_no_geometry(tokens);
    }
}

/// The first line of an output starts with its name, and says `primary` of a primary one.
pub proof fn first_line_names_the_output(id: int, first: Seq<char>, lines: Seq<Seq<char>>)
    requires
        spec::words(first).len() > 0,
    ensures
        ({
            let o = block_output(id, first, lines);
            &&& o.id == id
            &&& o.name == spec::words(first)[0]
            &&& o.primary <==> exists|i: int|
                2 <= i < spec::words(first).len() && #[trigger] spec::words(first)[i] == "primary"@
            &&& o.description is None
            &&& o.color.temperature is None
        }),
{
    let words = spec::words(first);
    if words.len() >= 2 {
        if exists|i: int| 2 <= i < words.len() && #[trigger] words[i] == "primary"@ {
            let i = choose|i: int| 2 <= i < words.len() && #[trigger] words[i] == "primary"@;
            assert(words.skip(2)[i - 2] == "primary"@);
        }
        if words.skip(2).contains("primary"@) {
            let i = choose|i: int| 0 <= i < words.skip(2).len() && words.skip(2)[i] == "primary"@;
            assert(words[i + 2] == "primary"@);
        }
    }
}

proof fn lemma_brightness_stays(lines: Seq<Seq<char>>, i: int)
    requires
        0 <= i <= lines.len(),
        forall|l: int|
            i <= l < lines.len() ==> !spec::starts_with(
                spec::trim(#[trigger] lines[l]),
                "Brightness:"@,
            ),
    ensures
        block(lines).brightness == block(lines.take(i)).brightness,
    decreases lines.len() - i,
{
    if i < lines.len() {
        let next = lines.take(i + 1);
        assert(next.drop_last() == lines.take(i));
        assert(next.last() == lines[i]);
        lemma_brightness_stays(lines, i + 1);
    } else {
        assert(lines.take(i) == lines);
    }
}

proof fn lemma_gamma_stays(lines: Seq<Seq<char>>, i: int)
    requires
        0 <= i <= lines.len(),
        forall|l: int|
            i <= l < lines.len() ==> !spec::starts_with(spec::trim(#[trigger] lines[l]), "Gamma:"@),
    ensures
        block(lines).gamma == block(lines.take(i)).gamma,
    decreases lines.len() - i,
{
    if i < lines.len() {
        let next = lines.take(i + 1);
        assert(next.drop_last() == lines.take(i));
        assert(next.last() == lines[i]);
        lemma_gamma_stays(lines, i + 1);
    } else {
        assert(lines.take(i) == lines);
    }
}

/// The brightness of an output is the number after `Brightness:`, where it can be read, and the
/// last one where there are several.
pub proof fn brightness_lines_are_read(
    id: int,
    first: Seq<char>,
    lines: Seq<Seq<char>>,
    j: int,
    space: Seq<char>,
    number: Seq<char>,
)
    requires
        0 <= j < lines.len(),
        spec::all_space(space),
        spec::is_solid(number),
        spec::trim(lines[j]) == "Brightness:"@ + space + number,
        float::single_value(number) is Some,
        forall|l: int|
            j < l < lines.len() ==> !spec::starts_with(
                spec::trim(#[trigger] lines[l]),
                "Brightness:"@,
            ),
    ensures
        block_output(id, first, lines).color.brightness == float::single_value(number),
{
    lemma_brightness_stays(lines, j + 1);
    let next = lines.take(j + 1);
    assert(next.drop_last() == lines.take(j));
    assert(next.last() == lines[j]);
    let s = spec::trim(lines[j]);
    assert(s =~= "Brightness:"@ + (space + number));
    assert(s.take("Brightness:"@.len() as int) =~= "Brightness:"@);
    assert(s.skip("Brightness:"@.len() as int) =~= space + number);
    spec::trimming_takes_off_white_space(space, number, seq![]);
    assert(space + number + Seq::<char>::empty() =~= space + number);
    lemma_kinds(lines[j]);
}

/// The gamma of an output is the first number after `Gamma:`, that of red, where it can be read,
/// and the last one where there are several lines of it.
pub proof fn gamma_lines_are_read(
    id: int,
    first: Seq<char>,
    lines: Seq<Seq<char>>,
    j: int,
    space: Seq<char>,
    number: Seq<char>,
    others: Seq<char>,
)
    requires
        0 <= j < lines.len(),
        spec::all_space(space),
        number.len() > 0,
        spec::is_solid(number + ":"@ + others),
        !number.contains(':'),
        spec::trim(lines[j]) == "Gamma:"@ + space + (number + ":"@ + others),
        float::single_value(number) is Some,
        forall|l: int|
            j < l < lines.len() ==> !spec::starts_with(spec::trim(#[trigger] lines[l]), "Gamma:"@),
    ensures
        block_output(id, first, lines).color.gamma == float::single_value(number),
{
    lemma_gamma_stays(lines, j + 1);
    let next = lines.take(j + 1);
    assert(next.drop_last() == lines.take(j));
    assert(next.last() == lines[j]);
    let s = spec::trim(lines[j]);
    let all = number + ":"@ + others;
    assert(s =~= "Gamma:"@ + (space + all));
    assert(s.take("Gamma:"@.len() as int) =~= "Gamma:"@);
    assert(s.skip("Gamma:"@.len() as int) =~= space + all);
    spec::trimming_takes_off_white_space(space, all, seq![]);
    assert(space + all + Seq::<char>::empty() =~= space + all);
    reveal_strlit(":");
    assert(":"@ =~= seq![':']);
    spec::lemma_split_at(number, ':', others);
    lemma_kinds(lines[j]);
}

proof fn lemma_first_rate(tokens: Seq<Seq<char>>, r: int)
    requires
        0 <= r <= tokens.len(),
        forall|i: int| 0 <= i < r ==> token_rate(#[trigger] tokens[i]) is None,
        r < tokens.len() ==> token_rate(tokens[r]) is Some,
    ensures
        first_rate(tokens) == if r < tokens.len() {
            token_rate(tokens[r])
        } else {
            None
        },
    decreases tokens.len(),
{
    if tokens.len() > 0 {
        let t = tokens.drop_last();
        assert forall|i: int| 0 <= i < r && i < t.len() implies token_rate(#[trigger] t[i]) is None by {
            assert(t[i] == tokens[i]);
        }
        if r < t.len() {
            assert(t[r] == tokens[r]);
            lemma_first_rate(t, r);
        } else {
            lemma_first_rate(t, t.len() as int);
            assert(tokens.last() == tokens[tokens.len() - 1]);
        }
    }
}

/// A line with a size, and white space and words after it, lists a mode of that size. Its rate is
/// the first word that is one, at `r`; it is current where a word has a star or says `current`,
/// and preferred where a word has a plus sign or says `preferred`.
pub proof fn mode_lines_are_read(
    before: Seq<char>,
    width: u32,
    height: u32,
    rest: Seq<char>,
    r: int,
)
    requires
        spec::all_space(before),
        rest.len() == 0 || spec::is_space(rest[0]),
        0 <= r <= spec::words(rest).len(),
        forall|i: int| 0 <= i < r ==> token_rate(#[trigger] spec::words(rest)[i]) is None,
        r < spec::words(rest).len() ==> token_rate(spec::words(rest)[r]) is Some,
    ensures
        mode_line(before + models::size_text(width, height) + rest) matches Some((mode, current, preferred))
            && {
            &&& mode.width == width
            &&& mode.height == height
            &&& mode.refresh_hz == if r < spec::words(rest).len() {
                token_rate(spec::words(rest)[r])
            } else {
                None
            }
            &&& current <==> exists|i: int|
                0 <= i < spec::words(rest).len() && (spec::contains(
                    #[trigger] spec::words(rest)[i],
                    "*"@,
                ) || spec::contains(spec::lower(spec::words(rest)[i]), "current"@))
            &&& preferred <==> exists|i: int|
                0 <= i < spec::words(rest).len() && (spec::contains(
                    #[trigger] spec::words(rest)[i],
                    "+"@,
                ) || spec::contains(spec::lower(spec::words(rest)[i]), "preferred"@))
        },
{
    let s = models::size_text(width, height);
    let line = before + s + rest;
    lemma_size(width, height);
    spec::words_stand_between_white_space(before, s, rest);
    assert(spec::words(line).skip(1) =~= spec::words(rest));
    assert(line =~= before + (s + rest));
    lemma_lead(before, s + rest);
    assert((s + rest)[0] == s[0]);
    lemma_first_rate(spec::words(rest), r);
}

pub(crate) proof fn lemma_lead(a: Seq<char>, s: Seq<char>)
    requires
        spec::all_space(a),
        s.len() > 0,
        !spec::is_space(s[0]),
    ensures
        spec::trim_start(a + s) == s,
    decreases a.len(),
{
    if a.len() > 0 {
        assert((a + s)[0] == a[0]);
        assert((a + s).skip(1) =~= a.skip(1) + s);
        assert forall|i: int| 0 <= i < a.skip(1).len() implies spec::is_space(
            #[trigger] a.skip(1)[i],
        ) by {
            assert(a.skip(1)[i] == a[i + 1]);
        }
        lemma_lead(a.skip(1), s);
    } else {
        assert(a + s =~= s);
    }
}

/// A line that does not start with a digit lists no mode, and neither does one whose first word
/// is no size.
pub proof fn other_lines_list_no_mode(line: Seq<char>)
    requires
        spec::trim(line).len() == 0 || !spec::is_digit(spec::trim(line)[0]) || size(
            spec::words(line)[0],
        ) is None,
    ensures
        mode_line(spec::trim(line)) is None,
{
    spec::trimmed_texts_are_solid(line);
    spec::words_of_trimmed(line);
    let s = spec::trim(line);
    if s.len() == 0 {
        assert(spec::words(s).len() == 0);
    }
}

/// Whether the text is made of the two marks alone.
pub open spec fn all_marks(s: Seq<char>) -> bool {
    forall|i: int| 0 <= i < s.len() ==> #[trigger] s[i] == '*' || s[i] == '+'
}

proof fn lemma_unmarked(s: Seq<char>, marks: Seq<char>)
    requires
        all_marks(marks),
        s.len() > 0 ==> s.last() != '*' && s.last() != '+',
    ensures
        unmarked(s + marks) == s,
    decreases marks.len(),
{
    if marks.len() > 0 {
        assert((s + marks).last() == marks.last());
        assert((s + marks).drop_last() =~= s + marks.drop_last());
        assert forall|i: int| 0 <= i < marks.drop_last().len() implies #[trigger] marks.drop_last()[i]
            == '*' || marks.drop_last()[i] == '+' by {
            assert(marks.drop_last()[i] == marks[i]);
        }
        assert(marks.last() == marks[marks.len() - 1]);
        lemma_unmarked(s, marks.drop_last());
    } else {
        assert(s + marks =~= s);
    }
}

/// A rate is a number of digits and points, with any marks after it; a word with any other
/// character before its marks is none.
pub proof fn rates_are_numbers_with_marks(s: Seq<char>, marks: Seq<char>)
    requires
        all_marks(marks),
        s.len() > 0 ==> s.last() != '*' && s.last() != '+',
    ensures
        (forall|i: int| 0 <= i < s.len() ==> spec::is_digit(#[trigger] s[i]) || s[i] == '.') && (exists|
            i: int,
        |
            0 <= i < s.len() && spec::is_digit(#[trigger] s[i])) ==> token_rate(s + marks)
            == float::single_value(s),
        (exists|i: int| 0 <= i < s.len() && !spec::is_digit(#[trigger] s[i]) && s[i] != '.')
            ==> token_rate(s + marks) is None,
{
    lemma_unmarked(s, marks);
    if exists|i: int| 0 <= i < s.len() && spec::is_digit(#[trigger] s[i]) {
        let i = choose|i: int| 0 <= i < s.len() && spec::is_digit(#[trigger] s[i]);
        assert(spec::is_digit(s[i]));
    }
    if exists|i: int| 0 <= i < s.len() && !spec::is_digit(#[trigger] s[i]) && s[i] != '.' {
        let i = choose|i: int| 0 <= i < s.len() && !spec::is_digit(#[trigger] s[i]) && s[i] != '.';
        assert(!plain_number(s));
    }
}

/// A line `v: .. clock R Hz` gives the rate `R`: what stands between the last `clock` and the
/// unit.
pub proof fn clock_lines_are_read(
    middle: Seq<char>,
    before: Seq<char>,
    number: Seq<char>,
    after: Seq<char>,
)
    requires
        spec::all_space(before),
        spec::all_space(after),
        spec::is_solid(number),
        forall|i: int|
            ("v:"@ + middle).len() < i ==> !#[trigger] spec::occurs_at(
                "v:"@ + middle + "clock"@ + (before + number + after + "Hz"@),
                "clock"@,
                i,
            ),
    ensures
        clock_line("v:"@ + middle + "clock"@ + (before + number + after + "Hz"@))
            == float::single_value(number),
{
    reveal_strlit("v:");
    reveal_strlit("clock");
    reveal_strlit("Hz");
    let head = "v:"@ + middle;
    let tail = before + number + after + "Hz"@;
    let s = head + "clock"@ + tail;
    assert(s[0] == 'v');
    assert(s.last() == 'z');
    spec::lemma_trim_solid(s);
    assert(s.take(2) =~= "v:"@);
    spec::last_occurrence_splits(head, "clock"@, tail);
    let inner = if number.len() > 0 {
        number + after + "Hz"@
    } else {
        "Hz"@
    };
    let lead = if number.len() > 0 {
        before
    } else {
        before + after
    };
    assert(tail =~= lead + inner + Seq::<char>::empty());
    assert forall|i: int| 0 <= i < lead.len() implies spec::is_space(#[trigger] lead[i]) by {
        if i >= before.len() {
            assert(lead[i] == after[i - before.len()]);
        }
    }
    assert(inner.last() == 'z');
    if number.len() > 0 {
        assert(inner[0] == number[0]);
    }
    spec::trimming_takes_off_white_space(lead, inner, seq![]);
    let bare = if number.len() > 0 {
        number + after
    } else {
        seq![]
    };
    assert(inner =~= bare + "Hz"@);
    assert(inner.skip(inner.len() - 2) =~= "Hz"@);
    assert(inner.take(inner.len() - 2) =~= bare);
    assert(spec::strip_suffix(inner, "Hz"@) == Some(bare));
    if number.len() > 0 {
        spec::trimming_takes_off_white_space(seq![], number, after);
        assert(Seq::<char>::empty() + number + after =~= bare);
    } else {
        assert(number =~= bare);
        spec::lemma_trim_solid(bare);
    }
}

/// A line that is not about the vertical timing gives no rate.
pub proof fn other_lines_give_no_rate(line: Seq<char>)
    requires
        !spec::starts_with(spec::trim(line), "v:"@),
    ensures
        clock_line(line) is None,
{
}

/// Listing modes once keeps their order: what comes later changes nothing of what is listed
/// before, and a list without repeats stays as it is.
pub proof fn distinct_modes_keep_their_order(modes: Seq<DisplayMode>, more: Seq<DisplayMode>)
    ensures
        distinct(modes).is_prefix_of(distinct(modes + more)),
        no_repeats(modes) ==> distinct(modes) == modes,
    decreases modes.len() + 2 * more.len(),
{
    if more.len() > 0 {
        let all = modes + more;
        assert(all.drop_last() =~= modes + more.drop_last());
        distinct_modes_keep_their_order(modes, more.drop_last());
        assert(distinct(modes).is_prefix_of(distinct(all)));
    } else {
        assert(modes + more =~= modes);
        if modes.len() > 0 && no_repeats(modes) {
            let t = modes.drop_last();
            assert forall|i: int, j: int| 0 <= i < j < t.len() implies !models::same_mode(
                #[trigger] t[i],
                #[trigger] t[j],
            ) by {
                assert(t[i] == modes[i] && t[j] == modes[j]);
            }
            distinct_modes_keep_their_order(t, seq![]);
            assert(!listed(t, modes.last())) by {
                if listed(t, modes.last()) {
                    let i = choose|i: int| 0 <= i < t.len() && models::same_mode(#[trigger] t[i], modes.last());
                    assert(models::same_mode(modes[i], modes[modes.len() - 1]));
                }
            }
            assert(distinct(modes) =~= modes);
        }
    }
    if more.len() > 0 && no_repeats(modes) {
        distinct_modes_keep_their_order(modes, seq![]);
    }
}

/// Whether the line goes on with the output before it.
pub open spec fn goes_on(line: Seq<char>) -> bool {
    spec::is_blank(line) || wlr_randr::indented(line)
}

pub(crate) proof fn lemma_block_ends(lines: Seq<Seq<char>>, i: int, e: int)
    requires
        0 <= i <= e <= lines.len(),
        forall|l: int| i <= l < e ==> goes_on(#[trigger] lines[l]),
        e < lines.len() ==> !goes_on(lines[e]),
    ensures
        wlr_randr::block_end(lines, i) == e,
    decreases e - i,
{
    if i < e {
        lemma_block_ends(lines, i + 1, e);
    }
}

/// The first line of an output and the lines that go on with it give one output, numbered in
/// turn, whatever comes after it; and lines that neither start an output nor follow one that does
/// give none.
pub proof fn outputs_come_block_by_block(lines: Seq<Seq<char>>, i: int, e: int, id: int)
    requires
        0 <= i < e <= lines.len(),
    ensures
        starts_output(lines[i]) && (forall|l: int| i < l < e ==> goes_on(#[trigger] lines[l])) && (e
            < lines.len() ==> !goes_on(lines[e])) ==> xrandr_outputs(lines, i, id) == seq![
            block_output(id, lines[i], lines.subrange(i + 1, e)),
        ] + xrandr_outputs(lines, e, id + 1),
        (forall|l: int| i <= l < e ==> !starts_output(#[trigger] lines[l])) ==> xrandr_outputs(
            lines,
            i,
            id,
        ) == xrandr_outputs(lines, e, id),
        xrandr_outputs(lines, lines.len() as int, id).len() == 0,
    decreases e - i,
{
    if starts_output(lines[i]) && (forall|l: int| i < l < e ==> goes_on(#[trigger] lines[l])) && (e
        < lines.len() ==> !goes_on(lines[e])) {
        lemma_block_ends(lines, i + 1, e);
    }
    if forall|l: int| i <= l < e ==> !starts_output(#[trigger] lines[l]) {
        assert(!starts_output(lines[i]));
        if i + 1 < e {
            outputs_come_block_by_block(lines, i + 1, e, id);
        }
    }
}

/// A line that starts with a word starts an output, unless it is about the screen; a blank or an
/// indented one does not.
pub proof fn outputs_start_with_their_names(name: Seq<char>, rest: Seq<char>)
    requires
        spec::is_word(name),
        rest.len() == 0 || spec::is_space(rest[0]),
    ensures
        !spec::starts_with(name + rest, "Screen"@) ==> starts_output(name + rest),
        spec::starts_with(name + rest, "Screen"@) ==> !starts_output(name + rest),
        !starts_output(" "@ + name + rest),
        !starts_output("\t"@ + name + rest),
        !starts_output(seq![]),
{
    let line = name + rest;
    reveal_strlit(" ");
    reveal_strlit("\t");
    spec::words_stand_between_white_space(seq![], name, rest);
    assert(Seq::<char>::empty() + name + rest =~= line);
    assert(line[0] == name[0]);
    if spec::starts_with(line, " "@) {
        assert(line.take(1)[0] == line[0]);
    }
    if spec::starts_with(line, "\t"@) {
        assert(line.take(1)[0] == line[0]);
    }
    assert((" "@ + name + rest).take(1) =~= " "@);
    assert(("\t"@ + name + rest).take(1) =~= "\t"@);
    assert(spec::words(Seq::<char>::empty()).len() == 0);
}

} // verus!
