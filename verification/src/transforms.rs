//! The eight ways in which an output can be turned and flipped.
use vstd::prelude::*;

verus! {

/// The name of the transform with the number; a number above seven stands for none.
pub open spec fn numbered(n: u32) -> Seq<char> {
    if n == 1 {
        "90"@
    } else if n == 2 {
        "180"@
    } else if n == 3 {
        "270"@
    } else if n == 4 {
        "flipped"@
    } else if n == 5 {
        "flipped-90"@
    } else if n == 6 {
        "flipped-180"@
    } else if n == 7 {
        "flipped-270"@
    } else {
        "normal"@
    }
}

/// Whether the text is the name of one of the eight transforms.
pub open spec fn is_name(s: Seq<char>) -> bool {
    exists|n: u32| n < 8 && s == #[trigger] numbered(n)
}

/// The name of the transform with the number.
pub fn name_of(n: u32) -> (r: &'static str)
    ensures
        r@ == numbered(n),
{
    match n {
        1 => "90",
        2 => "180",
        3 => "270",
        4 => "flipped",
        5 => "flipped-90",
        6 => "flipped-180",
        7 => "flipped-270",
        _ => "normal",
    }
}

/// No two of the eight transforms share a name.
pub proof fn names_differ()
    ensures
        forall|m: u32, n: u32|
            m < 8 && n < 8 && #[trigger] numbered(m) == #[trigger] numbered(n) ==> m == n,
{
    reveal_strlit("normal");
    reveal_strlit("90");
    reveal_strlit("180");
    reveal_strlit("270");
    reveal_strlit("flipped");
    reveal_strlit("flipped-90");
    reveal_strlit("flipped-180");
    reveal_strlit("flipped-270");
    assert("normal"@.len() == 6 && "90"@.len() == 2 && "180"@.len() == 3 && "270"@.len() == 3);
    assert("flipped"@.len() == 7 && "flipped-90"@.len() == 10);
    assert("flipped-180"@.len() == 11 && "flipped-270"@.len() == 11);
    assert("180"@[0] == '1');
    assert("270"@[0] == '2');
    assert("flipped-180"@[8] == '1');
    assert("flipped-270"@[8] == '2');
}

/// The other words by which transforms are given name none of the eight.
pub proof fn lemma_other_names()
    ensures
        forall|n: u32|
            n < 8 ==> {
                &&& #[trigger] numbered(n) != "left"@
                &&& numbered(n) != "inverted"@
                &&& numbered(n) != "right"@
                &&& numbered(n) != "flip"@
                &&& numbered(n) != "flip-90"@
                &&& numbered(n) != "flip-180"@
                &&& numbered(n) != "flip-270"@
                &&& numbered(n) != "0"@
                &&& numbered(n) != "none"@
            },
{
    reveal_strlit("normal");
    reveal_strlit("90");
    reveal_strlit("180");
    reveal_strlit("270");
    reveal_strlit("flipped");
    reveal_strlit("flipped-90");
    reveal_strlit("flipped-180");
    reveal_strlit("flipped-270");
    reveal_strlit("0");
    reveal_strlit("none");
    reveal_strlit("left");
    reveal_strlit("inverted");
    reveal_strlit("right");
    reveal_strlit("flip");
    reveal_strlit("flip-90");
    reveal_strlit("flip-180");
    reveal_strlit("flip-270");
    assert("normal"@.len() == 6 && "90"@.len() == 2 && "180"@.len() == 3 && "270"@.len() == 3);
    assert("flipped"@.len() == 7 && "flipped-90"@.len() == 10);
    assert("flipped-180"@.len() == 11 && "flipped-270"@.len() == 11);
    assert("left"@.len() == 4 && "inverted"@.len() == 8 && "right"@.len() == 5);
    assert("flip"@.len() == 4 && "flip-180"@.len() == 8 && "flip-270"@.len() == 8);
    assert("0"@.len() == 1 && "none"@.len() == 4);
    assert("flip-90"@[4] == '-');
    assert("flipped"@[4] == 'p');
}

/// The first four transforms turn by a quarter more each, and the last four do the same to the
/// flipped picture.
pub proof fn transforms_turn_by_quarters(n: u32)
    requires
        0 < n < 4,
    ensures
        numbered(0) == "normal"@,
        numbered(n) == crate::decimal::decimal(90 * n as nat),
        numbered(4) == "flipped"@,
        numbered((n + 4) as u32) == "flipped-"@ + numbered(n),
{
    reveal_strlit("90");
    reveal_strlit("180");
    reveal_strlit("270");
    reveal_strlit("flipped-");
    reveal_strlit("flipped-90");
    reveal_strlit("flipped-180");
    reveal_strlit("flipped-270");
    reveal_with_fuel(crate::decimal::decimal, 4);
    assert("flipped-90"@ =~= "flipped-"@ + "90"@);
    assert("flipped-180"@ =~= "flipped-"@ + "180"@);
    assert("flipped-270"@ =~= "flipped-"@ + "270"@);
    assert(numbered(n) =~= crate::decimal::decimal(90 * n as nat));
}

} // verus!
