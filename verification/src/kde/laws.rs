//! What holds of every report of `kscreen-doctor`, and of every request to it.
use vstd::prelude::*;

use crate::decimal;
use crate::errors::BackendError;
use crate::float;
use crate::float::Single;
use crate::kde::{
    beside_word, enabled_word, first_fitting, first_named, global_brightness, kscreen_mode,
    kscreen_output, kscreen_outputs, mirror_settings, mode_fits, mode_id, mode_with_id,
    named_transform, position_word, rotation_name, setting, side_word, KScreenMode, KScreenOutput,
    KScreenPos, KScreenSize,
};
use crate::models::{DisplayMode, Side};
use crate::text_spec as spec;
use crate::transforms;

verus! {

/// A position or a size is the same as an object and as an array, the horizontal part first.
pub proof fn pairs_are_read_in_order(x: i32, y: i32, p: [i32; 2], w: u32, h: u32, s: [u32; 2])
    requires
        p@ == seq![x, y],
        s@ == seq![w, h],
    ensures
        (KScreenPos::Object { x, y }).xy() == (x, y),
        KScreenPos::Array(p).xy() == (x, y),
        (KScreenSize::Object { width: w, height: h }).wh() == (w, h),
        KScreenSize::Array(s).wh() == (w, h),
{
}

/// An output has what its entry says: name, description, state, scale, position and rotation, and
/// the modes in their order.
pub proof fn entries_are_described(
    s: Seq<KScreenOutput>,
    temperature: Option<u16>,
    brightness: Option<Single>,
    i: int,
    k: int,
)
    requires
        0 <= i < s.len(),
    ensures
        kscreen_outputs(s, temperature, brightness).len() == s.len(),
        ({
            let o = kscreen_outputs(s, temperature, brightness)[i];
            let e = s[i];
            &&& o.id == i
            &&& o.name == e.name@
            &&& o.description is Some == e.description is Some
            &&& e.description matches Some(d) ==> o.description == Some(d@)
            &&& o.enabled == e.enabled
            &&& o.scale == Some(e.scale)
            &&& o.position == Some(e.pos.xy())
            &&& o.transform == Some(e.rotation.transform())
            &&& o.available_modes.len() == e.modes@.len()
            &&& 0 <= k < e.modes@.len() ==> {
                &&& o.available_modes[k].width == e.modes@[k].size.wh().0
                &&& o.available_modes[k].height == e.modes@[k].size.wh().1
                &&& o.available_modes[k].refresh_hz == e.modes@[k].refresh
            }
            &&& !o.primary
        }),
{
}

/// The color settings of an output are those of the session, and can be changed where they are
/// known; a virtual output has none, and gamma is never known.
pub proof fn colors_are_those_of_the_session(
    id: int,
    o: KScreenOutput,
    temperature: Option<u16>,
    brightness: Option<Single>,
)
    ensures
        ({
            let v = kscreen_output(id, o, temperature, brightness);
            let physical = !spec::starts_with(o.name@, "Virtual-"@);
            &&& physical ==> v.color.temperature == temperature && v.color.brightness == brightness
            &&& !physical ==> v.color.temperature is None && v.color.brightness is None
            &&& v.color.gamma is None && !v.color_caps.gamma
            &&& v.color_caps.brightness == v.color.brightness is Some
            &&& v.color_caps.temperature == v.color.temperature is Some
        }),
{
}

proof fn lemma_mode_with_id(s: Seq<KScreenMode>, id: Seq<char>, j: int)
    requires
        -1 <= j < s.len(),
        j >= 0 ==> s[j].id@ == id,
        forall|i: int| j < i < s.len() ==> (#[trigger] s[i]).id@ != id,
    ensures
        mode_with_id(s, id) == if j >= 0 {
            Some(kscreen_mode(s[j]))
        } else {
            None
        },
    decreases s.len(),
{
    if s.len() > 0 && j < s.len() - 1 {
        let t = s.drop_last();
        assert(s[s.len() - 1].id@ != id);
        assert forall|i: int| j < i < t.len() implies (#[trigger] t[i]).id@ != id by {
            assert(t[i] == s[i]);
        }
        lemma_mode_with_id(t, id, j);
    }
}

/// An output is in the mode with the identifier that the report gives, with its size and rate,
/// the last one where several have it; and in none where no mode has it or none is given.
pub proof fn current_mode_is_the_named_one(
    id: int,
    o: KScreenOutput,
    temperature: Option<u16>,
    brightness: Option<Single>,
    j: int,
)
    requires
        -1 <= j < o.modes@.len(),
        o.current_mode_id matches Some(name) ==> (j >= 0 ==> o.modes@[j].id@ == name@) && forall|
            i: int,
        |
            j < i < o.modes@.len() ==> (#[trigger] o.modes@[i]).id@ != name@,
    ensures
        ({
            let mode = kscreen_output(id, o, temperature, brightness).current_mode;
            &&& o.current_mode_id is None ==> mode is None
            &&& o.current_mode_id is Some && j < 0 ==> mode is None
            &&& o.current_mode_id is Some && j >= 0 ==> (mode matches Some(m) && m.width
                == o.modes@[j].size.wh().0 && m.height == o.modes@[j].size.wh().1 && m.refresh_hz
                == o.modes@[j].refresh)
        }),
{
    if let Some(name) = o.current_mode_id {
        lemma_mode_with_id(o.modes@, name@, j);
    }
}

proof fn lemma_first_named(s: Seq<KScreenOutput>, name: Seq<char>, i: int, k: int)
    requires
        0 <= i <= k <= s.len(),
        forall|l: int| i <= l < k ==> (#[trigger] s[l]).name@ != name,
        k < s.len() ==> s[k].name@ == name,
    ensures
        first_named(s, name, i) == if k < s.len() {
            Some(k)
        } else {
            None
        },
    decreases k - i,
{
    if i < k {
        lemma_first_named(s, name, i + 1, k);
    }
}

proof fn lemma_first_fitting(s: Seq<KScreenMode>, mode: DisplayMode, i: int, k: int)
    requires
        0 <= i <= k <= s.len(),
        forall|l: int| i <= l < k ==> !mode_fits(mode, #[trigger] s[l]),
        k < s.len() ==> mode_fits(mode, s[k]),
    ensures
        first_fitting(s, mode, i) == if k < s.len() {
            Some(k)
        } else {
            None
        },
    decreases k - i,
{
    if i < k {
        lemma_first_fitting(s, mode, i + 1, k);
    }
}

/// A mode is set by the identifier of the first mode of the first output with the name that is
/// the one asked for; where there is no such output or mode, that is said.
pub proof fn modes_are_set_by_their_identifiers(
    s: Seq<KScreenOutput>,
    output: Seq<char>,
    mode: DisplayMode,
    i: int,
    k: int,
)
    requires
        0 <= i <= s.len(),
        forall|l: int| 0 <= l < i ==> (#[trigger] s[l]).name@ != output,
        i < s.len() ==> {
            &&& s[i].name@ == output
            &&& 0 <= k <= s[i].modes@.len()
            &&& forall|l: int| 0 <= l < k ==> !mode_fits(mode, #[trigger] s[i].modes@[l])
            &&& k < s[i].modes@.len() ==> mode_fits(mode, s[i].modes@[k])
        },
    ensures
        i == s.len() ==> mode_id(s, output, mode) == Err::<Seq<char>, BackendError>(
            BackendError::OutputNotFound,
        ),
        i < s.len() && k == s[i].modes@.len() ==> mode_id(s, output, mode) == Err::<
            Seq<char>,
            BackendError,
        >(BackendError::ModeNotFound),
        i < s.len() && k < s[i].modes@.len() ==> mode_id(s, output, mode) == Ok::<
            Seq<char>,
            BackendError,
        >(s[i].modes@[k].id@),
{
    lemma_first_named(s, output, 0, i);
    if i < s.len() {
        lemma_first_fitting(s[i].modes@, mode, 0, k);
    }
}

/// A mode is the one asked for exactly if it has the size, and the rate that is asked for, if any,
/// give or take a tenth.
pub proof fn fitting_modes_have_the_size(asked: DisplayMode, m: KScreenMode)
    ensures
        mode_fits(asked, m) ==> m.size.wh().0 == asked.width && m.size.wh().1 == asked.height,
        m.size.wh() == (asked.width, asked.height) && asked.refresh_hz is None ==> mode_fits(asked, m),
        asked.refresh_hz is Some && m.refresh is None ==> !mode_fits(asked, m),
        m.size.wh() == (asked.width, asked.height) && asked.refresh_hz is Some && m.refresh is Some
            ==> mode_fits(asked, m) == float::closer(
            m.refresh->Some_0,
            asked.refresh_hz->Some_0,
            float::single(float::TENTH),
        ),
{
}

/// The settings of different outputs, and different settings of one, are different arguments:
/// the name stands before the setting.
pub proof fn arguments_name_the_output(output: Seq<char>, rest: Seq<char>, other: Seq<char>)
    ensures
        setting(output, rest).len() == 8 + output.len() + rest.len(),
        setting(output, rest).subrange(7, 7 + output.len() as int) == output,
        setting(output, rest).skip(8 + output.len() as int) == rest,
        rest != other ==> setting(output, rest) != setting(output, other),
{
    reveal_strlit("output.");
    reveal_strlit(".");
    let s = setting(output, rest);
    assert(s.subrange(7, 7 + output.len() as int) =~= output);
    assert(s.skip(8 + output.len() as int) =~= rest);
    assert(setting(output, other).skip(8 + output.len() as int) =~= other);
}

/// The word for a side is the one for the opposite side of no other, and tells the four apart.
pub proof fn side_words_differ(a: Side, b: Side)
    ensures
        side_word(a) == side_word(b) ==> a == b,
        side_word(Side::Left).len() + 1 == side_word(Side::Right).len(),
        side_word(Side::Above)[0] == 'a',
        side_word(Side::Left)[0] == 'l',
        side_word(Side::Right)[0] == 'r',
        side_word(Side::Below)[0] == 'b',
{
    reveal_strlit("left-of");
    reveal_strlit("right-of");
    reveal_strlit("above");
    reveal_strlit("below");
    assert("left-of"@[0] == 'l' && "right-of"@[0] == 'r' && "above"@[0] == 'a' && "below"@[0] == 'b');
}

/// The brightness of the session is the share of its value in its greatest one, and not known
/// where one of them is not.
pub proof fn session_brightness_is_a_share(current: u32, max: u32)
    ensures
        max > 0 ==> global_brightness(Some(current), Some(max)) == Some(
            float::ratio(current as nat, max as nat),
        ),
        global_brightness(None, Some(max)) is None,
        global_brightness(Some(current), None) is None,
{
}

/// The place of an output can be read from the setting for it, first the column and then the row.
pub proof fn positions_can_be_read(x: i32, y: i32)
    ensures
        spec::strip_prefix(position_word(x, y), "position."@) matches Some(p) && (spec::split_once(
            p,
            ","@,
        ) matches Some(t) && decimal::i32_value(t.0) == Some(x) && decimal::i32_value(t.1)
            == Some(y)),
{
    reveal_strlit(",");
    assert(","@ =~= seq![',']);
    let a = decimal::signed(x as int);
    let b = decimal::signed(y as int);
    crate::x11::laws::lemma_signed(x, ',');
    crate::x11::laws::lemma_signed(y, ',');
    spec::lemma_split_at(a, ',', b);
    let w = position_word(x, y);
    let n = "position."@.len() as int;
    assert(w.take(n) =~= "position."@);
    assert(w.skip(n) =~= a + seq![','] + b);
}

/// An output is switched on and off by different words, moved to the side and the output that are
/// asked for, and mirrored by putting both outputs at the origin.
pub proof fn changes_are_as_asked(output: Seq<char>, target: Seq<char>, side: Side)
    ensures
        enabled_word(true) == "enable"@,
        enabled_word(false) == "disable"@,
        beside_word(side, target) == side_word(side) + "."@ + target,
        mirror_settings(output, target)[0] == setting(target, "primary"@),
        mirror_settings(output, target).len() == 3,
        mirror_settings(output, target)[1] == setting(target, position_word(0, 0)),
        mirror_settings(output, target)[2] == setting(output, position_word(0, 0)),
{
    reveal_strlit("position.");
    reveal_strlit("position.0,0");
    reveal_strlit(",");
    reveal_with_fuel(decimal::decimal, 2);
    assert(decimal::signed(0) =~= seq!['0']);
    assert(position_word(0, 0) =~= "position.0,0"@);
}


proof fn lemma_turns_differ()
    ensures
        "left"@[0] == 'l' && "90"@[0] == '9' && "inverted"@[0] == 'i' && "180"@[0] == '1' && "right"@[0]
            == 'r' && "270"@[0] == '2' && "4"@[0] == '4' && "5"@[0] == '5' && "6"@[0] == '6' && "7"@[0]
            == '7',
        "4"@.len() == 1 && "5"@.len() == 1 && "6"@.len() == 1 && "7"@.len() == 1,
        "flipped"@.len() == 7 && "flipped0"@.len() == 8 && "flippedleft"@.len() == 11 && "flipped90"@.len()
            == 9 && "flippedinverted"@.len() == 15 && "flipped180"@.len() == 10 && "flippedright"@.len()
            == 12 && "flipped270"@.len() == 10,
        "flipped"@[0] == 'f' && "flipped0"@[0] == 'f' && "flippedleft"@[0] == 'f' && "flipped90"@[0] == 'f'
            && "flippedinverted"@[0] == 'f' && "flipped180"@[0] == 'f' && "flippedright"@[0] == 'f'
            && "flipped270"@[0] == 'f',
        "flipped180"@[7] == '1' && "flipped270"@[7] == '2',
{
    reveal_strlit("left");
    reveal_strlit("90");
    reveal_strlit("inverted");
    reveal_strlit("180");
    reveal_strlit("right");
    reveal_strlit("270");
    reveal_strlit("4");
    reveal_strlit("5");
    reveal_strlit("6");
    reveal_strlit("7");
    reveal_strlit("flipped");
    reveal_strlit("flipped0");
    reveal_strlit("flippedleft");
    reveal_strlit("flipped90");
    reveal_strlit("flippedinverted");
    reveal_strlit("flipped180");
    reveal_strlit("flippedright");
    reveal_strlit("flipped270");
}

/// A turn is named by its direction or by its degrees, in any letters; with `flipped` before it,
/// it is done to the flipped picture; and the numbers from four to seven name the flipped ones.
/// Any other word names no turn.
pub proof fn rotations_are_read(word: Seq<char>)
    ensures
        ({
            let w = spec::lower(word);
            let t = named_transform(word);
            &&& w == "left"@ || w == "90"@ ==> t == transforms::numbered(1)
            &&& w == "inverted"@ || w == "180"@ ==> t == transforms::numbered(2)
            &&& w == "right"@ || w == "270"@ ==> t == transforms::numbered(3)
            &&& w == "flipped"@ || w == "flipped0"@ || w == "4"@ ==> t == transforms::numbered(4)
            &&& w == "flippedleft"@ || w == "flipped90"@ || w == "5"@ ==> t == transforms::numbered(5)
            &&& w == "flippedinverted"@ || w == "flipped180"@ || w == "6"@ ==> t == transforms::numbered(6)
            &&& w == "flippedright"@ || w == "flipped270"@ || w == "7"@ ==> t == transforms::numbered(7)
            &&& t == transforms::numbered(1) ==> w == "left"@ || w == "90"@
            &&& t == transforms::numbered(2) ==> w == "inverted"@ || w == "180"@
            &&& t == transforms::numbered(3) ==> w == "right"@ || w == "270"@
            &&& named_transform(w) == t
        }),
{
    lemma_turns_differ();
    transforms::names_differ();
    assert(spec::lower(spec::lower(word)) =~= spec::lower(word));
    assert("90"@ == transforms::numbered(1));
    assert("180"@ == transforms::numbered(2));
    assert("270"@ == transforms::numbered(3));
    assert("flipped"@ == transforms::numbered(4));
    assert("flipped-90"@ == transforms::numbered(5));
    assert("flipped-180"@ == transforms::numbered(6));
    assert("flipped-270"@ == transforms::numbered(7));
    assert("normal"@ == transforms::numbered(0));
}

/// A direction asks for the same turn as its degrees do.
pub proof fn directions_are_degrees()
    ensures
        rotation_name("left"@) == rotation_name("90"@),
        rotation_name("inverted"@) == rotation_name("180"@),
        rotation_name("right"@) == rotation_name("270"@),
        rotation_name("flipped-0"@) == rotation_name("flipped"@),
        rotation_name("flipped-left"@) == rotation_name("flipped-90"@),
        rotation_name("flipped-inverted"@) == rotation_name("flipped-180"@),
        rotation_name("flipped-right"@) == rotation_name("flipped-270"@),
        rotation_name("none"@) == rotation_name("normal"@),
        rotation_name("0"@) == rotation_name("normal"@),
        rotation_name("90"@) == Some("left"@),
        rotation_name("180"@) == Some("inverted"@),
        rotation_name("270"@) == Some("right"@),
{
    reveal_strlit("normal");
    reveal_strlit("none");
    reveal_strlit("0");
    reveal_strlit("left");
    reveal_strlit("90");
    reveal_strlit("inverted");
    reveal_strlit("180");
    reveal_strlit("right");
    reveal_strlit("270");
    reveal_strlit("flipped");
    reveal_strlit("flipped-0");
    reveal_strlit("flipped-left");
    reveal_strlit("flipped-90");
    reveal_strlit("flipped-inverted");
    reveal_strlit("flipped-180");
    reveal_strlit("flipped-right");
    reveal_strlit("flipped-270");
    assert("normal"@.len() == 6 && "none"@.len() == 4 && "0"@.len() == 1 && "left"@.len() == 4);
    assert("90"@.len() == 2 && "inverted"@.len() == 8 && "180"@.len() == 3 && "right"@.len() == 5);
    assert("270"@.len() == 3 && "flipped"@.len() == 7 && "flipped-0"@.len() == 9);
    assert("flipped-left"@.len() == 12 && "flipped-90"@.len() == 10 && "flipped-inverted"@.len() == 16);
    assert("flipped-180"@.len() == 11 && "flipped-right"@.len() == 13 && "flipped-270"@.len() == 11);
    assert("none"@[0] == 'n' && "left"@[0] == 'l' && "180"@[0] == '1' && "270"@[0] == '2');
    assert("flipped-180"@[8] == '1' && "flipped-270"@[8] == '2');
}


} // verus!
