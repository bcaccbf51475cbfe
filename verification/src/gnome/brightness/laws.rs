//! What holds of every brightness that is read or set.
use vstd::prelude::*;

use crate::decimal;
use crate::float;
use crate::float::Single;
use crate::gnome::brightness::{
    current_level, ddc_current, ddc_failure_text, ddc_max, ddc_values, file_number, kelvin,
    level_of, levels, logind_call, of_percentage, percentage, preferred_to, recent, setting_bool,
    setting_u32, usable, BacklightDevice, LogindArg, LogindCall, Reading,
};
use crate::sorting;
use crate::text_spec as spec;

verus! {

/// A setting is read as its words say, whatever white space stands around it; nothing else is.
pub proof fn settings_are_read(a: Seq<char>, b: Seq<char>, s: Seq<char>)
    requires
        spec::all_space(a),
        spec::all_space(b),
    ensures
        setting_bool(a + "true"@ + b) == Some(true),
        setting_bool(a + "false"@ + b) == Some(false),
        setting_bool(s) == Some(true) ==> spec::trim(s) == "true"@,
        setting_bool(s) == Some(false) ==> spec::trim(s) == "false"@,
{
    reveal_strlit("true");
    reveal_strlit("false");
    assert("true"@.len() == 4 && "false"@.len() == 5);
    spec::trimming_takes_off_white_space(a, "true"@, b);
    spec::trimming_takes_off_white_space(a, "false"@, b);
}

/// A number is read with its type before it and without.
pub proof fn numbers_are_read(a: Seq<char>, gap: Seq<char>, n: u32, b: Seq<char>)
    requires
        spec::all_space(a),
        spec::all_space(gap),
        spec::all_space(b),
    ensures
        setting_u32(a + decimal::decimal(n as nat) + b) == Some(n),
        setting_u32(a + ("uint32"@ + gap + decimal::decimal(n as nat)) + b) == Some(n),
{
    let d = decimal::decimal(n as nat);
    lemma_digits_are_solid(n);
    decimal::u32_read_after_write(n);
    spec::trimming_takes_off_white_space(a, d, b);
    reveal_strlit("uint32");
    if spec::starts_with(d, "uint32"@) {
        assert(d.take(6)[0] == 'u');
        assert(spec::is_digit(d[0]));
    }
    let t = "uint32"@ + gap + d;
    assert(t.last() == d.last());
    assert(t[0] == 'u');
    spec::trimming_takes_off_white_space(a, t, b);
    assert(t.take(6) =~= "uint32"@);
    assert(t.skip(6) =~= gap + d + Seq::<char>::empty());
    spec::trimming_takes_off_white_space(gap, d, Seq::<char>::empty());
}

proof fn lemma_digits_are_solid(n: u32)
    ensures
        spec::is_solid(decimal::decimal(n as nat)),
        decimal::decimal(n as nat).len() > 0,
        forall|i: int|
            0 <= i < decimal::decimal(n as nat).len() ==> spec::is_digit(
                #[trigger] decimal::decimal(n as nat)[i],
            ),
{
    let d = decimal::decimal(n as nat);
    decimal::lemma_decimal(n as nat);
    assert(spec::is_digit(d[0]));
    assert(spec::is_digit(d[d.len() - 1]));
}

/// A temperature is brought into its range, and one in its range stays.
pub proof fn temperatures_are_in_range(n: u32)
    ensures
        1000 <= kelvin(n) <= 10000,
        1000 <= n <= 10000 ==> kelvin(n) == n,
        n < 1000 ==> kelvin(n) == 1000,
        n > 10000 ==> kelvin(n) == 10000,
{
}

/// The number in a file is read, whatever white space stands around it.
pub proof fn files_are_read(s: String, a: Seq<char>, n: u32, b: Seq<char>)
    requires
        spec::all_space(a),
        spec::all_space(b),
        s@ == a + decimal::decimal(n as nat) + b,
    ensures
        file_number(Some(s)) == Some(n),
        file_number(None) is None,
{
    lemma_digits_are_solid(n);
    decimal::u32_read_after_write(n);
    spec::trimming_takes_off_white_space(a, decimal::decimal(n as nat), b);
}

/// The actual level of a device counts before the one that was asked for.
pub proof fn actual_levels_count_first(d: BacklightDevice)
    ensures
        file_number(d.actual_brightness) matches Some(n) ==> current_level(d) == Some(n),
        file_number(d.actual_brightness) is None ==> current_level(d) == file_number(d.brightness),
        usable(d) <==> (file_number(d.max_brightness) is Some && file_number(d.max_brightness) != Some(
            0u32,
        ) && current_level(d) is Some),
{
}

/// Of two devices the raw one is preferred to one of the platform, that one to one of the
/// firmware, and that one to any other; among devices of one kind the one with more levels, and
/// then the one whose name comes first.
pub proof fn devices_are_preferred_by_kind(a: BacklightDevice, b: BacklightDevice)
    requires
        usable(a),
        usable(b),
    ensures
        ({
            let ka = spec::trim(a.kind->Some_0@);
            let kb = spec::trim(b.kind->Some_0@);
            let raw_a = a.kind is Some && ka == "raw"@;
            let raw_b = b.kind is Some && kb == "raw"@;
            let platform_a = a.kind is Some && ka == "platform"@;
            let platform_b = b.kind is Some && kb == "platform"@;
            let firmware_a = a.kind is Some && ka == "firmware"@;
            let firmware_b = b.kind is Some && kb == "firmware"@;
            let ma = file_number(a.max_brightness)->Some_0;
            let mb = file_number(b.max_brightness)->Some_0;
            &&& raw_a && !raw_b ==> preferred_to(a, b)
            &&& platform_a && !raw_b && !platform_b ==> preferred_to(a, b)
            &&& firmware_a && !raw_b && !platform_b && !firmware_b ==> preferred_to(a, b)
            &&& raw_a == raw_b && platform_a == platform_b && firmware_a == firmware_b ==> {
                &&& ma > mb ==> preferred_to(a, b)
                &&& ma == mb && a.name@ != b.name@ ==> preferred_to(a, b) == spec::le(
                    a.name@,
                    b.name@,
                )
            }
            &&& preferred_to(a, b) ==> !preferred_to(b, a)
            &&& !preferred_to(a, a)
        }),
{
    reveal_strlit("raw");
    reveal_strlit("platform");
    reveal_strlit("firmware");
    assert("raw"@[0] == 'r' && "platform"@[0] == 'p' && "firmware"@[0] == 'f');
    sorting::lemma_text_order(a.name@, b.name@);
}

/// The levels are those of the devices whose level is known, in their order.
pub proof fn levels_keep_their_order(s: Seq<BacklightDevice>, d: BacklightDevice)
    ensures
        levels(Seq::empty()).len() == 0,
        current_level(d) is None ==> levels(s.push(d)) == levels(s),
        current_level(d) matches Some(n) ==> levels(s.push(d)) == levels(s).push((d.name@, n)),
{
    assert(s.push(d).drop_last() =~= s);
}

/// The level for a brightness is from zero to the greatest one; for none it is zero, for the full
/// one the greatest, as far as a number can hold that; and a greater brightness never gives a
/// lower level.
pub proof fn levels_follow_the_brightness(x: Single, y: Single, max: u32)
    requires
        x.bits <= y.bits <= float::ONE,
    ensures
        level_of(x, max) <= max,
        level_of(float::single(float::ZERO), max) == 0,
        level_of(float::single(float::ONE), max) == (if float::rounded(float::of_whole(max as nat))
            > max {
            max as nat
        } else {
            float::rounded(float::of_whole(max as nat))
        }),
        level_of(x, max) <= level_of(y, max),
{
    float::lemma_whole_bound(max as nat);
    float::laws::shares_grow(x, y, float::of_whole(max as nat));
    float::laws::clamped_numbers_are_in_range(x);
    vstd::arithmetic::power2::lemma2_to64();
    assert(float::clamped(x) == x && float::clamped(y) == y);
}

/// The percentage for a brightness goes from zero to a hundred with it.
pub proof fn percentages_follow_the_brightness(x: Single, y: Single)
    requires
        x.bits <= y.bits <= float::ONE,
    ensures
        0 <= percentage(x) <= percentage(y) <= 100,
        percentage(float::single(float::ZERO)) == 0,
        percentage(float::single(float::ONE)) == 100,
{
    float::laws::shares_grow(x, y, float::single(float::HUNDRED));
    float::laws::hundred_is_whole();
    vstd::arithmetic::power2::lemma2_to64();
    assert(float::clamped(x) == x && float::clamped(y) == y);
}

/// The brightness for a percentage goes from zero to one with it; below zero it is zero.
pub proof fn brightness_follows_the_percentage(p: i32, q: i32)
    requires
        p <= q,
    ensures
        of_percentage(0).bits == 0,
        of_percentage(100).bits == float::ONE,
        p < 0 ==> of_percentage(p).bits == 0,
        !float::less(of_percentage(q), of_percentage(p)),
{
    float::laws::ratios_go_from_zero_to_one(0, 0, 100);
    if p >= 0 {
        float::laws::ratios_go_from_zero_to_one(p as nat, q as nat, 100);
    } else if q >= 0 {
        float::laws::ratios_go_from_zero_to_one(0, q as nat, 100);
    }
}

/// A method gets the level as the type that its signature asks for, as far as that can hold it.
pub proof fn methods_get_the_level(rest: Seq<char>, value: u32)
    ensures
        logind_call("ssu"@ + rest, value) == LogindCall::With(LogindArg::U32(value)),
        logind_call("sst"@ + rest, value) == LogindCall::With(LogindArg::U64(value as u64)),
        value <= i32::MAX ==> logind_call("ssi"@ + rest, value) == LogindCall::With(
            LogindArg::I32(value as i32),
        ),
        value <= u16::MAX ==> logind_call("ssq"@ + rest, value) == LogindCall::With(
            LogindArg::U16(value as u16),
        ),
        value <= u8::MAX ==> logind_call("ssy"@ + rest, value) == LogindCall::With(
            LogindArg::U8(value as u8),
        ),
        value > u8::MAX ==> logind_call("ssy"@ + rest, value) == LogindCall::With(LogindArg::U8(u8::MAX)),
        logind_call("ss"@, value) is Unsupported,
        forall|sig: Seq<char>| sig.len() < 2 ==> #[trigger] logind_call(sig, value) is Skip,
        forall|sig: Seq<char>|
            sig.len() >= 2 && !(sig[0] == 's' && sig[1] == 's') ==> #[trigger] logind_call(
                sig,
                value,
            ) is Skip,
{
    reveal_strlit("ss");
    reveal_strlit("ssu");
    reveal_strlit("sst");
    reveal_strlit("ssi");
    reveal_strlit("ssq");
    reveal_strlit("ssy");
    assert(("ssu"@ + rest).take(2) =~= "ss"@);
    assert(("sst"@ + rest).take(2) =~= "ss"@);
    assert(("ssi"@ + rest).take(2) =~= "ss"@);
    assert(("ssq"@ + rest).take(2) =~= "ss"@);
    assert(("ssy"@ + rest).take(2) =~= "ss"@);
    assert("ss"@.take(2) =~= "ss"@);
    assert forall|sig: Seq<char>| sig.len() >= 2 && !(sig[0] == 's' && sig[1] == 's') implies #[trigger] logind_call(
        sig,
        value,
    ) is Skip by {
        if spec::starts_with(sig, "ss"@) {
            assert(sig.take(2)[0] == 's' && sig.take(2)[1] == 's');
        }
    }
}

/// The current value in a report is the number between the equals sign after its name and the next
/// comma.
pub proof fn current_values_are_read(
    pre: Seq<char>,
    a: Seq<char>,
    b: Seq<char>,
    n: u32,
    c: Seq<char>,
    rest: Seq<char>,
    s: Seq<char>,
)
    requires
        spec::all_space(b),
        spec::all_space(c),
        !a.contains('='),
        s == pre + "current value"@ + (a + seq!['='] + (b + decimal::decimal(n as nat) + c + seq![',']
            + rest)),
        forall|i: int| 0 <= i < pre.len() ==> !#[trigger] spec::occurs_at(s, "current value"@, i),
        !spec::contains(
            a + seq!['='] + (b + decimal::decimal(n as nat) + c + seq![','] + rest),
            "current value"@,
        ),
        !rest.contains('='),
    ensures
        ddc_current(s) == Some(n),
{
    let d = decimal::decimal(n as nat);
    let v = b + d + c;
    let u = v + seq![','] + rest;
    let t = a + seq!['='] + u;
    reveal_strlit("=");
    reveal_strlit(",");
    assert("="@ =~= seq!['=']);
    assert(","@ =~= seq![',']);
    spec::first_occurrence_splits(pre, "current value"@, t);
    assert(spec::second_piece(s, "current value"@) == Some(t));
    spec::lemma_split_at(a, '=', u);
    lemma_digits_are_solid(n);
    assert(!v.contains('=') && !v.contains(',')) by {
        assert forall|i: int| 0 <= i < v.len() implies v[i] != '=' && v[i] != ',' by {
            if i < b.len() {
                assert(spec::is_space(b[i]));
            } else if i < b.len() + d.len() {
                assert(spec::is_digit(d[i - b.len()]));
            } else {
                assert(spec::is_space(c[i - b.len() - d.len()]));
            }
        }
    }
    assert(!u.contains('=')) by {
        assert forall|i: int| 0 <= i < u.len() implies u[i] != '=' by {
            if i < v.len() {
                assert(v.contains(v[i]));
            } else if i > v.len() {
                assert(rest.contains(rest[i - v.len() - 1]));
            }
        }
    }
    spec::lemma_no_split(u, '=');
    assert(spec::second_piece(t, "="@) == Some(u));
    spec::lemma_split_at(v, ',', rest);
    let k = spec::find(u, ","@)->Some_0;
    assert(spec::until(u, ","@) == v);
    spec::trimming_takes_off_white_space(b, d, c);
    decimal::u32_read_after_write(n);
}

/// The greatest value in a report is the number after the equals sign after its name.
pub proof fn greatest_values_are_read(
    pre: Seq<char>,
    a: Seq<char>,
    b: Seq<char>,
    n: u32,
    c: Seq<char>,
    s: Seq<char>,
)
    requires
        spec::all_space(b),
        spec::all_space(c),
        !a.contains('='),
        s == pre + "max value"@ + (a + seq!['='] + (b + decimal::decimal(n as nat) + c)),
        forall|i: int| 0 <= i < pre.len() ==> !#[trigger] spec::occurs_at(s, "max value"@, i),
        !spec::contains(a + seq!['='] + (b + decimal::decimal(n as nat) + c), "max value"@),
    ensures
        ddc_max(s) == Some(n),
        ddc_current(s) matches Some(m) ==> ddc_values(s) == Some((m, if n == 0 {
            1
        } else {
            n
        })),
        ddc_current(s) is None ==> ddc_values(s) is None,
{
    let d = decimal::decimal(n as nat);
    let u = b + d + c;
    let t = a + seq!['='] + u;
    reveal_strlit("=");
    assert("="@ =~= seq!['=']);
    spec::first_occurrence_splits(pre, "max value"@, t);
    assert(spec::second_piece(s, "max value"@) == Some(t));
    spec::lemma_split_at(a, '=', u);
    lemma_digits_are_solid(n);
    assert(!u.contains('=')) by {
        assert forall|i: int| 0 <= i < u.len() implies u[i] != '=' by {
            if i < b.len() {
                assert(spec::is_space(b[i]));
            } else if i < b.len() + d.len() {
                assert(spec::is_digit(d[i - b.len()]));
            } else {
                assert(spec::is_space(c[i - b.len() - d.len()]));
            }
        }
    }
    spec::lemma_no_split(u, '=');
    assert(spec::second_piece(t, "="@) == Some(u));
    spec::trimming_takes_off_white_space(b, d, c);
    decimal::u32_read_after_write(n);
}

/// A failure is told with what was tried and what the tool said; where access was denied, in
/// capital or small letters, also with the bus that it was denied to.
pub proof fn failures_are_told(command: Seq<char>, bus: u32, stderr: Seq<char>)
    ensures
        spec::contains(spec::lower(stderr), "permission denied"@) ==> ddc_failure_text(
            command,
            bus,
            stderr,
        ) == "ddcutil "@ + command
            + " failed (permission denied). You likely need access to /dev/i2c-"@ + decimal::decimal(
            bus as nat,
        ) + " (udev rules / add user to i2c group / run as root). Raw error: "@ + stderr,
        !spec::contains(spec::lower(stderr), "permission denied"@) ==> ddc_failure_text(
            command,
            bus,
            stderr,
        ) == "ddcutil "@ + command + " failed: "@ + stderr,
        spec::lower(stderr) == "permission denied"@ ==> ddc_failure_text(command, bus, stderr)
            != "ddcutil "@ + command + " failed: "@ + stderr,
{
    reveal_strlit("permission denied");
    reveal_strlit(" failed: ");
    reveal_strlit("ddcutil ");
    reveal_strlit(" failed (permission denied). You likely need access to /dev/i2c-");
    let p = "permission denied"@;
    if spec::lower(stderr) == p {
        spec::lemma_find_from(p, p, 0);
        assert(p.subrange(0, p.len() as int) =~= p);
        assert(spec::occurs_at(p, p, 0));
        let n = 8 + command.len() as int;
        let x = ddc_failure_text(command, bus, stderr);
        let y = "ddcutil "@ + command + " failed: "@ + stderr;
        assert(x[n + 7] == ' ');
        assert(y[n + 7] == ':');
    }
}

/// A reading is taken for five seconds, and no longer; only for the output that was read.
pub proof fn readings_last_five_seconds(
    cache: Map<Seq<char>, Reading>,
    connector: Seq<char>,
    other: Seq<char>,
    value: Single,
    at: u64,
    now: u64,
)
    requires
        at <= now,
    ensures
        ({
            let after = cache.insert(connector, Reading { at, value });
            &&& now - at <= 5000 ==> recent(after, connector, now) == Some(value)
            &&& now - at > 5000 ==> recent(after, connector, now) is None
            &&& other != connector ==> recent(after, other, now) == recent(cache, other, now)
        }),
        recent(Map::empty(), connector, now) is None,
{
}

} // verus!
