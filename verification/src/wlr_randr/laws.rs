//! What holds of everything that is read from a report of `wlr-randr`.
use vstd::prelude::*;

use crate::float;
use crate::models;
use crate::text_spec as spec;
use crate::wlr_randr::{
    block_output, deep, details, enabled_line, first_preferred, head_output, header, json_mode,
    json_modes, json_output, json_outputs, last_current, mode_line, rate, scale_line, text_outputs,
    wlr_outputs, FlaggedMode, WlrRandrJsonHead, WlrRandrJsonMode,
};
use crate::float::Double;
use crate::xrandr::laws::{goes_on, lemma_block_ends, lemma_lead, lemma_size};

verus! {

// ---- the mode that an output is in ----

proof fn lemma_last_current(s: Seq<FlaggedMode>, j: int)
    requires
        -1 <= j < s.len(),
        j >= 0 ==> s[j].current,
        forall|i: int| j < i < s.len() ==> !(#[trigger] s[i]).current,
    ensures
        last_current(s) == if j >= 0 {
            Some(s[j].mode)
        } else {
            None
        },
    decreases s.len(),
{
    if s.len() > 0 && j < s.len() - 1 {
        let t = s.drop_last();
        assert(!s[s.len() - 1].current);
        assert forall|i: int| j < i < t.len() implies !(#[trigger] t[i]).current by {
            assert(t[i] == s[i]);
        }
        lemma_last_current(t, j);
    }
}

proof fn lemma_first_preferred(s: Seq<FlaggedMode>, j: int)
    requires
        0 <= j <= s.len(),
        j < s.len() ==> s[j].preferred,
        forall|i: int| 0 <= i < j ==> !(#[trigger] s[i]).preferred,
    ensures
        first_preferred(s) == if j < s.len() {
            Some(s[j].mode)
        } else {
            None
        },
    decreases s.len(),
{
    if s.len() > 0 {
        let t = s.drop_last();
        assert(s.last() == s[s.len() - 1]);
        assert forall|i: int| 0 <= i < j && i < t.len() implies !(#[trigger] t[i]).preferred by {
            assert(t[i] == s[i]);
        }
        if j < t.len() {
            assert(t[j] == s[j]);
            lemma_first_preferred(t, j);
        } else {
            lemma_first_preferred(t, t.len() as int);
        }
    }
}

/// An enabled output is in the mode that is marked as current, whatever modes are marked as
/// preferred; where several are marked, in the last of them.
pub proof fn current_mode_is_in_use(
    id: int,
    name: Seq<char>,
    description: Option<Seq<char>>,
    scale: Option<Double>,
    modes: Seq<FlaggedMode>,
    j: int,
)
    requires
        0 <= j < modes.len(),
        modes[j].current,
        forall|i: int| j < i < modes.len() ==> !(#[trigger] modes[i]).current,
    ensures
        head_output(id, name, description, true, scale, modes).current_mode == Some(modes[j].mode),
{
    lemma_last_current(modes, j);
}

/// Only where no mode is marked as current, an enabled output is in the one that is marked as
/// preferred, the first of them where there are several.
pub proof fn preferred_mode_is_in_use_without_a_current_one(
    id: int,
    name: Seq<char>,
    description: Option<Seq<char>>,
    scale: Option<Double>,
    modes: Seq<FlaggedMode>,
    j: int,
)
    requires
        forall|i: int| 0 <= i < modes.len() ==> !(#[trigger] modes[i]).current,
        0 <= j < modes.len(),
        modes[j].preferred,
        forall|i: int| 0 <= i < j ==> !(#[trigger] modes[i]).preferred,
    ensures
        head_output(id, name, description, true, scale, modes).current_mode == Some(modes[j].mode),
{
    lemma_last_current(modes, -1);
    lemma_first_preferred(modes, j);
}

/// An output is in no mode where it is disabled, and where no mode is marked.
pub proof fn unmarked_modes_are_not_in_use(
    id: int,
    name: Seq<char>,
    description: Option<Seq<char>>,
    enabled: bool,
    scale: Option<Double>,
    modes: Seq<FlaggedMode>,
)
    requires
        !enabled || forall|i: int|
            0 <= i < modes.len() ==> !(#[trigger] modes[i]).current && !modes[i].preferred,
    ensures
        head_output(id, name, description, enabled, scale, modes).current_mode is None,
{
    if enabled {
        lemma_last_current(modes, -1);
        lemma_first_preferred(modes, modes.len() as int);
    }
}

/// An output has the name, the description, the state and the scale of its head, and offers its
/// modes in their order; nothing else is known of it.
pub proof fn heads_are_described(
    id: int,
    name: Seq<char>,
    description: Option<Seq<char>>,
    enabled: bool,
    scale: Option<Double>,
    modes: Seq<FlaggedMode>,
)
    ensures
        ({
            let o = head_output(id, name, description, enabled, scale, modes);
            &&& o.id == id && o.name == name && o.description == description
            &&& o.enabled == enabled && o.scale == scale
            &&& o.available_modes.len() == modes.len()
            &&& forall|i: int|
                0 <= i < modes.len() ==> #[trigger] o.available_modes[i] == modes[i].mode
            &&& !o.primary && o.position is None && o.transform is None
            &&& o.color.brightness is None && o.color.gamma is None && o.color.temperature is None
            &&& !o.color_caps.brightness && !o.color_caps.gamma && !o.color_caps.temperature
        }),
{
}

// ---- the report as JSON ----

/// Whether an entry of the JSON report is a mode: it has a width and a height.
pub open spec fn is_mode(m: WlrRandrJsonMode) -> bool {
    m.width is Some && m.height is Some
}

/// How many of the entries are modes.
pub open spec fn modes_counted(s: Seq<WlrRandrJsonMode>) -> nat
    decreases s.len(),
{
    if s.len() == 0 {
        0
    } else {
        modes_counted(s.drop_last()) + if is_mode(s.last()) {
            1nat
        } else {
            0
        }
    }
}

/// Every entry with a width and a height is a mode with that size and those marks, in the order
/// of the report, and no other entry is one. A rate counts where it is positive.
pub proof fn json_modes_are_read(s: Seq<WlrRandrJsonMode>, i: int)
    requires
        0 <= i < s.len(),
    ensures
        json_modes(s).len() == modes_counted(s),
        is_mode(s[i]) ==> {
            let k = modes_counted(s.take(i)) as int;
            let m = json_modes(s)[k];
            &&& k < json_modes(s).len()
            &&& m.mode.width == s[i].width->Some_0
            &&& m.mode.height == s[i].height->Some_0
            &&& m.current == s[i].current
            &&& m.preferred == s[i].preferred
            &&& m.mode.refresh_hz is Some <==> (s[i].refresh matches Some(hz) && float::less_double(
                float::double(float::ZERO_DOUBLE),
                hz,
            ))
            &&& m.mode.refresh_hz matches Some(hz) ==> hz == float::narrowed(s[i].refresh->Some_0)
        },
    decreases s.len(),
{
    lemma_json_modes_counted(s);
    let t = s.drop_last();
    if i < t.len() {
        json_modes_are_read(t, i);
        assert(t.take(i) =~= s.take(i));
        assert(t[i] == s[i]);
        lemma_json_modes_counted(t);
        if is_mode(s[i]) {
            assert(json_modes(s)[modes_counted(s.take(i)) as int] == json_modes(t)[modes_counted(
                s.take(i),
            ) as int]);
        }
    } else {
        assert(s.take(i) =~= t);
        lemma_json_modes_counted(t);
    }
}

proof fn lemma_json_modes_counted(s: Seq<WlrRandrJsonMode>)
    ensures
        json_modes(s).len() == modes_counted(s),
    decreases s.len(),
{
    if s.len() > 0 {
        lemma_json_modes_counted(s.drop_last());
    }
}

/// Whether a head has a name.
pub open spec fn is_named(head: WlrRandrJsonHead) -> bool {
    head.name matches Some(name) && name@.len() > 0
}

/// How many of the heads have a name.
pub open spec fn heads_counted(s: Seq<WlrRandrJsonHead>) -> nat
    decreases s.len(),
{
    if s.len() == 0 {
        0
    } else {
        heads_counted(s.drop_last()) + if is_named(s.last()) {
            1nat
        } else {
            0
        }
    }
}

proof fn lemma_heads_counted(s: Seq<WlrRandrJsonHead>)
    ensures
        json_outputs(s).len() == heads_counted(s),
    decreases s.len(),
{
    if s.len() > 0 {
        lemma_heads_counted(s.drop_last());
    }
}

/// Every head with a name is an output, in the order of the report, and no other head is one. Its
/// number is the place of the head; its description is its own, else its make and model as far as
/// they are known.
pub proof fn json_heads_are_read(heads: Seq<WlrRandrJsonHead>, j: int)
    requires
        0 <= j < heads.len(),
    ensures
        json_outputs(heads).len() == heads_counted(heads),
        is_named(heads[j]) ==> {
            let k = heads_counted(heads.take(j)) as int;
            let o = json_outputs(heads)[k];
            let h = heads[j];
            &&& k < json_outputs(heads).len()
            &&& o.id == j
            &&& o.name == h.name->Some_0@
            &&& o.enabled == h.enabled
            &&& o.scale == h.scale
            &&& h.description matches Some(d) ==> o.description == Some(d@)
            &&& h.description is None && h.make is None && h.model is None ==> o.description is None
            &&& h.description is None && h.make is Some && h.model is None ==> o.description == Some(
                h.make->Some_0@,
            )
            &&& h.description is None && h.make is None && h.model is Some ==> o.description == Some(
                h.model->Some_0@,
            )
            &&& h.description is None && h.make is Some && h.model is Some ==> o.description == Some(
                h.make->Some_0@ + " "@ + h.model->Some_0@,
            )
            &&& o.available_modes.len() == json_modes(h.modes@).len()
            &&& forall|i: int|
                0 <= i < o.available_modes.len() ==> #[trigger] o.available_modes[i] == json_modes(
                    h.modes@,
                )[i].mode
        },
    decreases heads.len(),
{
    lemma_heads_counted(heads);
    let t = heads.drop_last();
    if j < t.len() {
        json_heads_are_read(t, j);
        assert(t.take(j) =~= heads.take(j));
        assert(t[j] == heads[j]);
        lemma_heads_counted(t);
        if is_named(heads[j]) {
            let k = heads_counted(heads.take(j)) as int;
            assert(json_outputs(heads)[k] == json_outputs(t)[k]);
        }
    } else {
        assert(heads.take(j) =~= t);
        lemma_heads_counted(t);
    }
}

proof fn lemma_json_head(heads: Seq<WlrRandrJsonHead>, j: int)
    requires
        0 <= j < heads.len(),
        is_named(heads[j]),
    ensures
        heads_counted(heads.take(j)) < json_outputs(heads).len(),
        json_output(j, heads[j]) == Some(json_outputs(heads)[heads_counted(heads.take(j)) as int]),
    decreases heads.len(),
{
    lemma_heads_counted(heads);
    let t = heads.drop_last();
    lemma_heads_counted(t);
    if j < t.len() {
        lemma_json_head(t, j);
        assert(t.take(j) =~= heads.take(j));
        assert(t[j] == heads[j]);
    } else {
        assert(heads.take(j) =~= t);
    }
}

proof fn lemma_same_marks(s: Seq<WlrRandrJsonMode>, i: int)
    requires
        0 <= i < s.len(),
        is_mode(s[i]),
        forall|l: int| i < l < s.len() && is_mode(s[l]) ==> !(#[trigger] s[l]).current,
    ensures
        ({
            let k = modes_counted(s.take(i)) as int;
            &&& k < json_modes(s).len()
            &&& Some(json_modes(s)[k]) == json_mode(s[i])
            &&& forall|l: int| k < l < json_modes(s).len() ==> !(#[trigger] json_modes(s)[l]).current
        }),
    decreases s.len(),
{
    let t = s.drop_last();
    lemma_json_modes_counted(s);
    lemma_json_modes_counted(t);
    if i < t.len() {
        assert forall|l: int| i < l < t.len() && is_mode(t[l]) implies !(#[trigger] t[l]).current by {
            assert(t[l] == s[l]);
        }
        assert(t[i] == s[i]);
        lemma_same_marks(t, i);
        assert(t.take(i) =~= s.take(i));
        assert(s.last() == s[s.len() - 1]);
        let k = modes_counted(s.take(i)) as int;
        assert forall|l: int| k < l < json_modes(s).len() implies !(#[trigger] json_modes(s)[l]).current by {
            if l < json_modes(t).len() {
                assert(json_modes(s)[l] == json_modes(t)[l]);
            }
        }
    } else {
        assert(s.take(i) =~= t);
    }
}

/// An enabled head is in the mode that the JSON report marks as current, whatever it marks as
/// preferred.
pub proof fn json_current_mode_is_in_use(heads: Seq<WlrRandrJsonHead>, j: int, i: int)
    requires
        0 <= j < heads.len(),
        is_named(heads[j]),
        heads[j].enabled,
        0 <= i < heads[j].modes@.len(),
        is_mode(heads[j].modes@[i]),
        heads[j].modes@[i].current,
        forall|l: int|
            i < l < heads[j].modes@.len() && is_mode(heads[j].modes@[l]) ==> !(
            #[trigger] heads[j].modes@[l]).current,
    ensures
        json_outputs(heads)[heads_counted(heads.take(j)) as int].current_mode matches Some(m)
            && m.width == heads[j].modes@[i].width->Some_0 && m.height
            == heads[j].modes@[i].height->Some_0,
{
    lemma_json_head(heads, j);
    let s = heads[j].modes@;
    lemma_same_marks(s, i);
    lemma_last_current(json_modes(s), modes_counted(s.take(i)) as int);
}

// ---- the report as text ----

/// The first line of an output is its name, and its description, with or without quotes.
pub proof fn headers_are_read(name: Seq<char>, space: Seq<char>, description: Seq<char>)
    requires
        !name.contains(' '),
        spec::all_space(space),
        spec::is_solid(description),
    ensures
        header(name) == (name, None::<Seq<char>>),
        description.len() > 0 ==> header(name + " "@ + (space + "\""@ + description + "\""@)) == (
            name,
            Some(description),
        ),
        description.len() > 0 && description[0] != '"' ==> header(
            name + " "@ + (space + description),
        ) == (name, Some(description)),
        header(name + " "@ + (space + "\"\""@)) == (name, None::<Seq<char>>),
        header(name + " "@ + space) == (name, None::<Seq<char>>),
{
    reveal_strlit(" ");
    reveal_strlit("\"");
    reveal_strlit("\"\"");
    assert(" "@ =~= seq![' ']);
    spec::lemma_no_split(name, ' ');
    let quoted = "\""@ + description + "\""@;
    assert(space + "\""@ + description + "\""@ =~= space + quoted);
    spec::lemma_split_at(name, ' ', space + quoted);
    spec::lemma_split_at(name, ' ', space + description);
    spec::lemma_split_at(name, ' ', space + "\"\""@);
    spec::lemma_split_at(name, ' ', space);
    let e = Seq::<char>::empty();
    assert(quoted[0] == '"' && quoted.last() == '"');
    spec::trimming_takes_off_white_space(space, quoted, e);
    assert(space + quoted + e =~= space + quoted);
    assert(quoted.take(1) =~= "\""@);
    assert(quoted.skip(quoted.len() - 1) =~= "\""@);
    assert(quoted.subrange(1, quoted.len() - 1) =~= description);
    spec::trimming_takes_off_white_space(space, description, e);
    assert(space + description + e =~= space + description);
    if description.len() > 0 {
        assert(description.take(1)[0] == description[0]);
    }
    spec::trimming_takes_off_white_space(space, "\"\""@, e);
    assert(space + "\"\""@ + e =~= space + "\"\""@);
    assert("\"\""@.take(1) =~= "\""@);
    assert("\"\""@.skip(1) =~= "\""@);
    spec::trimming_takes_off_white_space(space, e, e);
    assert(space + e + e =~= space);
}

/// A line `Enabled: yes` says that the output is enabled, in any case of its letters, and one
/// with any other word says that it is not; a line `Scale: X` gives the scale.
pub proof fn settings_are_read(space: Seq<char>, word: Seq<char>)
    requires
        spec::all_space(space),
        spec::is_solid(word),
    ensures
        enabled_line("Enabled:"@ + (space + word)) == Some(spec::lower(word) == "yes"@),
        scale_line("Scale:"@ + (space + word)) == float::double_value(word),
        scale_line("Enabled:"@ + (space + word)) is None,
        enabled_line("Scale:"@ + (space + word)) is None,
{
    reveal_strlit("Enabled:");
    reveal_strlit("Scale:");
    reveal_strlit("yes");
    let e = Seq::<char>::empty();
    spec::trimming_takes_off_white_space(space, word, e);
    assert(space + word + e =~= space + word);
    let a = "Enabled:"@ + (space + word);
    let b = "Scale:"@ + (space + word);
    assert(a.take("Enabled:"@.len() as int) =~= "Enabled:"@);
    assert(a.skip("Enabled:"@.len() as int) =~= space + word);
    assert(b.take("Scale:"@.len() as int) =~= "Scale:"@);
    assert(b.skip("Scale:"@.len() as int) =~= space + word);
    assert(spec::lower("yes"@) =~= "yes"@);
    if spec::starts_with(a, "Scale:"@) {
        assert(a.take("Scale:"@.len() as int)[0] == a[0]);
    }
    if spec::starts_with(b, "Enabled:"@) {
        assert(b.take("Enabled:"@.len() as int)[0] == b[0]);
    }
}

proof fn lemma_px(pad: Seq<char>, width: u32, height: u32, tail: Seq<char>)
    requires
        spec::all_space(pad),
        tail.len() > 0 ==> !spec::is_space(tail.last()),
    ensures
        ({
            let size = models::size_text(width, height);
            let s = size + " px"@ + tail;
            &&& spec::trim(pad + s) == s
            &&& spec::is_digit(s[0])
            &&& spec::split_once(s, " px"@) == Some((size, tail))
        }),
{
    reveal_strlit(" px");
    lemma_size(width, height);
    let size = models::size_text(width, height);
    let s = size + " px"@ + tail;
    assert(s[0] == size[0]);
    if tail.len() > 0 {
        assert(s.last() == tail.last());
    } else {
        assert(s.last() == 'x');
    }
    spec::trimming_takes_off_white_space(pad, s, seq![]);
    assert(pad + s + Seq::<char>::empty() =~= pad + s);
    assert forall|i: int| 0 <= i < size.len() implies !#[trigger] spec::occurs_at(s, " px"@, i) by {
        if spec::occurs_at(s, " px"@, i) {
            assert(s.subrange(i, i + 3)[0] == s[i]);
            assert(s[i] == size[i]);
        }
    }
    spec::first_occurrence_splits(size, " px"@, tail);
}

proof fn lemma_rate(number: Seq<char>)
    requires
        spec::is_word(number),
    ensures
        rate(", "@ + number + " Hz"@) == float::single_value(number),
{
    reveal_strlit(", ");
    reveal_strlit(",");
    reveal_strlit(" ");
    reveal_strlit(" Hz");
    let s = ", "@ + number + " Hz"@;
    let t = number + " Hz"@;
    assert(s.take(1) =~= ","@);
    assert(s.skip(1) =~= " "@ + t + Seq::<char>::empty());
    assert(t[0] == number[0]);
    assert(t.last() == 'z');
    spec::trimming_takes_off_white_space(" "@, t, seq![]);
    assert(t =~= number + " Hz"@ + Seq::<char>::empty());
    assert forall|i: int| 0 <= i < number.len() implies !#[trigger] spec::occurs_at(t, " Hz"@, i) by {
        if spec::occurs_at(t, " Hz"@, i) {
            assert(t.subrange(i, i + 3)[0] == t[i]);
            assert(t[i] == number[i]);
        }
    }
    spec::first_occurrence_splits(number, " Hz"@, seq![]);
    assert(t.take(number.len() as int) =~= number);
    spec::lemma_trim_solid(number);
}

/// A line `WxH px, R Hz (marks)` lists a mode of that size and rate, with the marks that stand
/// after the bracket.
pub proof fn mode_lines_are_read(
    pad: Seq<char>,
    width: u32,
    height: u32,
    number: Seq<char>,
    marks: Seq<char>,
)
    requires
        spec::all_space(pad),
        spec::is_word(number),
        !number.contains('('),
        marks.len() > 0 && !spec::is_space(marks.last()),
    ensures
        mode_line(
            pad + (models::size_text(width, height) + " px"@ + (", "@ + number + " Hz"@ + " ("@ + marks)),
        ) matches Some(m) && {
            &&& m.mode.width == width
            &&& m.mode.height == height
            &&& m.mode.refresh_hz == float::single_value(number)
            &&& m.current == spec::contains("("@ + marks, "current"@)
            &&& m.preferred == spec::contains("("@ + marks, "preferred"@)
        },
{
    reveal_strlit(", ");
    reveal_strlit(" (");
    reveal_strlit("(");
    reveal_strlit(" Hz");
    let body = ", "@ + number + " Hz"@;
    let tail = body + " ("@ + marks;
    assert(tail.last() == marks.last());
    assert(tail[0] == ',');
    lemma_px(pad, width, height, tail);
    lemma_size(width, height);
    spec::lemma_trim_solid(tail);
    let head = body + seq![' '];
    assert("("@ =~= seq!['(']);
    assert(tail =~= head + "("@ + marks);
    assert forall|i: int| 0 <= i < head.len() implies !#[trigger] spec::occurs_at(tail, "("@, i) by {
        if spec::occurs_at(tail, "("@, i) {
            assert(tail.subrange(i, i + 1)[0] == tail[i]);
            assert(tail[i] == head[i]);
            if 2 <= i < 2 + number.len() {
                assert(head[i] == number[i - 2]);
                assert(number.contains(number[i - 2]));
            }
        }
    }
    spec::first_occurrence_splits(head, "("@, marks);
    assert(tail.take(head.len() as int) =~= head);
    assert(tail.skip(head.len() as int) =~= "("@ + marks);
    assert(body[0] == ',' && body.last() == 'z');
    spec::trimming_takes_off_white_space(seq![], body, seq![' ']);
    assert(Seq::<char>::empty() + body + seq![' '] =~= head);
    lemma_rate(number);
}

/// A line `WxH px, R Hz` lists a mode of that size and rate, and `WxH px` one of that size, both
/// without marks.
pub proof fn unmarked_mode_lines_are_read(
    pad: Seq<char>,
    width: u32,
    height: u32,
    number: Seq<char>,
)
    requires
        spec::all_space(pad),
        spec::is_word(number),
        !number.contains('('),
    ensures
        mode_line(pad + (models::size_text(width, height) + " px"@ + (", "@ + number + " Hz"@))) matches Some(m)
            && m.mode.width == width && m.mode.height == height && m.mode.refresh_hz
            == float::single_value(number) && !m.current && !m.preferred,
        mode_line(pad + (models::size_text(width, height) + " px"@ + Seq::<char>::empty())) matches Some(m)
            && m.mode.width == width && m.mode.height == height && m.mode.refresh_hz is None
            && !m.current && !m.preferred,
{
    reveal_strlit(", ");
    reveal_strlit("(");
    reveal_strlit(",");
    reveal_strlit(" Hz");
    reveal_strlit("current");
    reveal_strlit("preferred");
    let body = ", "@ + number + " Hz"@;
    assert(body[0] == ',' && body.last() == 'z');
    lemma_px(pad, width, height, body);
    lemma_px(pad, width, height, seq![]);
    lemma_size(width, height);
    spec::lemma_trim_solid(body);
    spec::lemma_trim_solid(seq![]);
    assert("("@ =~= seq!['(']);
    assert(!body.contains('(')) by {
        if body.contains('(') {
            let i = choose|i: int| 0 <= i < body.len() && body[i] == '(';
            if 2 <= i < 2 + number.len() {
                assert(body[i] == number[i - 2]);
            }
        }
    }
    spec::lemma_no_split(body, '(');
    spec::lemma_no_split(seq![], '(');
    spec::lemma_find_from(seq![], "current"@, 0);
    spec::lemma_find_from(seq![], "preferred"@, 0);
    lemma_rate(number);
    assert(!spec::starts_with(Seq::<char>::empty(), ","@));
}

/// The modes of an output are what its lines after `Modes:` list, in their order, as far as they
/// are indented deeply enough: line `m` starts the list, which goes on up to line `e`.
pub proof fn modes_are_listed_after_their_heading(lines: Seq<Seq<char>>, m: int, e: int)
    requires
        0 <= m < e <= lines.len(),
        !deep(lines[m]),
        spec::starts_with(spec::trim_start(lines[m]), "Modes:"@),
        forall|i: int| m < i < e ==> deep(#[trigger] lines[i]) && mode_line(lines[i]) is Some,
    ensures
        ({
            let before = details(lines.take(m));
            let now = details(lines.take(e));
            &&& now.in_modes
            &&& now.enabled == before.enabled
            &&& now.scale == before.scale
            &&& now.modes.len() == before.modes.len() + (e - m - 1)
            &&& forall|i: int|
                0 <= i < before.modes.len() ==> #[trigger] now.modes[i] == before.modes[i]
            &&& forall|i: int|
                m < i < e ==> Some(now.modes[before.modes.len() + i - m - 1]) == mode_line(
                    #[trigger] lines[i],
                )
        }),
    decreases e - m,
{
    assert(lines.take(e).drop_last() == lines.take(e - 1));
    assert(lines.take(e).last() == lines[e - 1]);
    if e == m + 1 {
        lemma_heading(lines[m]);
    } else {
        modes_are_listed_after_their_heading(lines, m, e - 1);
        let before = details(lines.take(m));
        let was = details(lines.take(e - 1));
        let now = details(lines.take(e));
        assert(now.modes == was.modes.push(mode_line(lines[e - 1])->Some_0));
        assert forall|i: int| m < i < e implies Some(now.modes[before.modes.len() + i - m - 1])
            == mode_line(#[trigger] lines[i]) by {
            if i < e - 1 {
                assert(Some(was.modes[before.modes.len() + i - m - 1]) == mode_line(lines[i]));
            }
        }
    }
}

proof fn lemma_heading(line: Seq<char>)
    requires
        spec::starts_with(spec::trim_start(line), "Modes:"@),
    ensures
        !spec::is_blank(line),
        enabled_line(spec::trim_start(line)) is None,
        scale_line(spec::trim_start(line)) is None,
{
    reveal_strlit("Modes:");
    reveal_strlit("Enabled:");
    reveal_strlit("Scale:");
    let s = spec::trim_start(line);
    assert(s.take("Modes:"@.len() as int)[0] == s[0]);
    if spec::starts_with(s, "Enabled:"@) {
        assert(s.take("Enabled:"@.len() as int)[0] == s[0]);
    }
    if spec::starts_with(s, "Scale:"@) {
        assert(s.take("Scale:"@.len() as int)[0] == s[0]);
    }
    lemma_not_blank(s);
}

proof fn lemma_not_blank(s: Seq<char>)
    requires
        s.len() > 0,
        !spec::is_space(s[0]),
    ensures
        spec::trim_end(s).len() > 0,
    decreases s.len(),
{
    if spec::is_space(s.last()) {
        assert(s.len() > 1);
        lemma_not_blank(s.drop_last());
    }
}

/// Lines outside a list of modes add none.
pub proof fn other_lines_list_no_modes(lines: Seq<Seq<char>>, line: Seq<char>)
    requires
        !deep(line) || !details(lines).in_modes,
    ensures
        details(lines.push(line)).modes == details(lines).modes,
{
    assert(lines.push(line).drop_last() == lines);
}

/// An output is enabled unless a line outside the modes says otherwise: a line `Enabled: yes`, and
/// only such a line, changes that, and a line `Scale: X` changes the scale alone.
pub proof fn settings_are_kept(
    lines: Seq<Seq<char>>,
    pad: Seq<char>,
    space: Seq<char>,
    word: Seq<char>,
)
    requires
        spec::all_space(pad),
        spec::all_space(space),
        spec::is_solid(word),
        !deep(pad + ("Enabled:"@ + (space + word))) || !details(lines).in_modes,
        !deep(pad + ("Scale:"@ + (space + word))) || !details(lines).in_modes,
        float::double_value(word) is Some,
    ensures
        details(Seq::<Seq<char>>::empty()).enabled,
        details(Seq::<Seq<char>>::empty()).scale is None,
        ({
            let d = details(lines);
            let e = details(lines.push(pad + ("Enabled:"@ + (space + word))));
            let s = details(lines.push(pad + ("Scale:"@ + (space + word))));
            &&& e.enabled == (spec::lower(word) == "yes"@)
            &&& e.scale == d.scale
            &&& s.scale == float::double_value(word)
            &&& s.enabled == d.enabled
        }),
{
    reveal_strlit("Enabled:");
    reveal_strlit("Scale:");
    let a = "Enabled:"@ + (space + word);
    let b = "Scale:"@ + (space + word);
    settings_are_read(space, word);
    lemma_lead(pad, a);
    lemma_lead(pad, b);
    lemma_not_blank(a);
    lemma_not_blank(b);
    assert(lines.push(pad + a).drop_last() == lines);
    assert(lines.push(pad + b).drop_last() == lines);
}

/// A line that says nothing of the kind leaves the state and the scale of an output as they are.
pub proof fn other_lines_keep_the_settings(lines: Seq<Seq<char>>, line: Seq<char>)
    requires
        !spec::starts_with(spec::trim_start(line), "Enabled:"@),
        !spec::starts_with(spec::trim_start(line), "Scale:"@),
    ensures
        details(lines.push(line)).enabled == details(lines).enabled,
        details(lines.push(line)).scale == details(lines).scale,
{
    assert(lines.push(line).drop_last() == lines);
}

/// The first line of an output and the lines that go on with it give one output, numbered in
/// turn, whatever comes after it; blank lines between outputs give none.
pub proof fn outputs_come_block_by_block(lines: Seq<Seq<char>>, i: int, e: int, id: int)
    requires
        0 <= i < e <= lines.len(),
    ensures
        spec::trim_end(lines[i]).len() > 0 && (forall|l: int|
            i < l < e ==> goes_on(#[trigger] lines[l])) && (e < lines.len() ==> !goes_on(lines[e]))
            ==> text_outputs(lines, i, id) == seq![
            block_output(id, lines[i], lines.subrange(i + 1, e)),
        ] + text_outputs(lines, e, id + 1),
        spec::trim_end(lines[i]).len() == 0 ==> text_outputs(lines, i, id) == text_outputs(
            lines,
            i + 1,
            id,
        ),
        text_outputs(lines, lines.len() as int, id).len() == 0,
{
    if spec::trim_end(lines[i]).len() > 0 && (forall|l: int|
        i < l < e ==> goes_on(#[trigger] lines[l])) && (e < lines.len() ==> !goes_on(lines[e])) {
        lemma_block_ends(lines, i + 1, e);
    }
}

/// An output of a report as text has the name and the description of its first line, and the
/// modes, state and scale of the others.
pub proof fn blocks_are_described(id: int, first: Seq<char>, rest: Seq<Seq<char>>)
    ensures
        ({
            let o = block_output(id, first, rest);
            let d = details(rest);
            &&& o.id == id
            &&& (o.name, o.description) == header(spec::trim_end(first))
            &&& o.enabled == d.enabled
            &&& o.scale == d.scale
            &&& o.available_modes.len() == d.modes.len()
            &&& forall|i: int|
                0 <= i < d.modes.len() ==> #[trigger] o.available_modes[i] == d.modes[i].mode
        }),
{
}

/// An enabled output of a report as text is in the mode that the report marks as current,
/// whatever it marks as preferred; only where it marks none, in the first preferred one.
pub proof fn text_current_mode_is_in_use(id: int, first: Seq<char>, rest: Seq<Seq<char>>, j: int)
    requires
        details(rest).enabled,
        0 <= j < details(rest).modes.len(),
    ensures
        details(rest).modes[j].current && (forall|i: int|
            j < i < details(rest).modes.len() ==> !(#[trigger] details(rest).modes[i]).current)
            ==> block_output(id, first, rest).current_mode == Some(details(rest).modes[j].mode),
        (forall|i: int|
            0 <= i < details(rest).modes.len() ==> !(#[trigger] details(rest).modes[i]).current)
            && details(rest).modes[j].preferred && (forall|i: int|
            0 <= i < j ==> !(#[trigger] details(rest).modes[i]).preferred) ==> block_output(
            id,
            first,
            rest,
        ).current_mode == Some(details(rest).modes[j].mode),
{
    let modes = details(rest).modes;
    if modes[j].current && (forall|i: int| j < i < modes.len() ==> !(#[trigger] modes[i]).current) {
        lemma_last_current(modes, j);
    }
    if (forall|i: int| 0 <= i < modes.len() ==> !(#[trigger] modes[i]).current) && modes[j].preferred
        && (forall|i: int| 0 <= i < j ==> !(#[trigger] modes[i]).preferred) {
        lemma_last_current(modes, -1);
        lemma_first_preferred(modes, j);
    }
}

/// A report that could be read as JSON is read so, any other one as text; and a blank one has no
/// outputs.
pub proof fn reports_are_json_or_text(
    stdout: Seq<char>,
    heads: Seq<WlrRandrJsonHead>,
)
    ensures
        spec::is_blank(stdout) ==> wlr_outputs(stdout, Some(heads)).len() == 0 && wlr_outputs(
            stdout,
            None,
        ).len() == 0,
        !spec::is_blank(stdout) ==> wlr_outputs(stdout, Some(heads)) == json_outputs(heads),
        !spec::is_blank(stdout) ==> wlr_outputs(stdout, None) == text_outputs(
            spec::lines(stdout),
            0,
            0,
        ),
{
}

} // verus!
