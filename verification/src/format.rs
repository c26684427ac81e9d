//! Labels of the process table: memory sizes, run times, disk traffic and
//! owners.

use vstd::prelude::*;
use crate::text::{
    all_digits, append_str, decimal, digits_value, lemma_decimal_reads_back,
    lemma_two_digits_read_back, push_char, push_decimal, push_two_digits, text_of, two_digits,
};

verus! {

broadcast use vstd::string::group_string_axioms;

// ---------------------------------------------------------------------------
// Run time
// ---------------------------------------------------------------------------

/// A run time as `HH:MM:SS`, or `MM:SS` when it is shorter than an hour; each
/// field has at least two digits and the hours are not bounded.
pub open spec fn duration_text(seconds: nat) -> Seq<char> {
    let hours = seconds / 3600;
    let minutes = (seconds % 3600) / 60;
    let secs = seconds % 60;
    if hours > 0 {
        two_digits(hours) + seq![':'] + two_digits(minutes) + seq![':'] + two_digits(secs)
    } else {
        two_digits(minutes) + seq![':'] + two_digits(secs)
    }
}

/// Renders a run time given in seconds.
pub fn format_duration(seconds: u64) -> (out: String)
    ensures
        out@ == duration_text(seconds as nat),
{
    let hours = seconds / 3600;
    let minutes = (seconds % 3600) / 60;
    let secs = seconds % 60;
    let mut out = String::new();
    if hours > 0 {
        push_two_digits(&mut out, hours);
        push_char(&mut out, ':');
    }
    push_two_digits(&mut out, minutes);
    push_char(&mut out, ':');
    push_two_digits(&mut out, secs);
    assert(out@ =~= duration_text(seconds as nat));
    out
}

/// A run time reads back as the seconds it renders: `H:MM:SS` from an hour on,
/// `MM:SS` below, with minutes and seconds under 60 and at least two digits in
/// each field.
pub proof fn lemma_duration_reads_back(seconds: nat) -> (fields: (Seq<char>, Seq<char>, Seq<char>))
    ensures
        ({
            let (h, m, s) = fields;
            &&& all_digits(h) && all_digits(m) && all_digits(s)
            &&& h.len() >= 2 && m.len() >= 2 && s.len() >= 2
            &&& digits_value(m) < 60 && digits_value(s) < 60
            &&& seconds >= 3600 ==> duration_text(seconds) == h + seq![':'] + m + seq![':'] + s
                && digits_value(h) * 3600 + digits_value(m) * 60 + digits_value(s) == seconds
            &&& seconds < 3600 ==> duration_text(seconds) == m + seq![':'] + s && digits_value(m) * 60
                + digits_value(s) == seconds
        }),
{
    let h = two_digits(seconds / 3600);
    let m = two_digits((seconds % 3600) / 60);
    let s = two_digits(seconds % 60);
    lemma_two_digits_read_back(seconds / 3600);
    lemma_two_digits_read_back((seconds % 3600) / 60);
    lemma_two_digits_read_back(seconds % 60);
    assert(seconds == (seconds / 3600) * 3600 + ((seconds % 3600) / 60) * 60 + seconds % 60);
    (h, m, s)
}

// ---------------------------------------------------------------------------
// Memory size
// ---------------------------------------------------------------------------

/// `n / d` rounded to the nearest integer, ties to the even one.
pub open spec fn round_div(n: nat, d: nat) -> nat {
    let q = n / d;
    let r = n % d;
    if 2 * r > d || (2 * r == d && q % 2 == 1) {
        q + 1
    } else {
        q
    }
}

/// The spacing of single precision floats around the integer `n`: 1 below 2^24,
/// doubling with each power of two above.
pub open spec fn f32_spacing(n: nat) -> nat
    decreases n,
{
    if n < 0x100_0000 {
        1
    } else {
        2 * f32_spacing(n / 2)
    }
}

/// The integer `n` rounded to the nearest single precision float, ties to even,
/// as `n as f32` rounds it.
pub open spec fn nearest_f32(n: nat) -> nat {
    round_div(n, f32_spacing(n)) * f32_spacing(n)
}

/// A memory size: gigabytes with two decimals from 2^30 bytes on, megabytes with
/// one decimal from 2^20 bytes on, else whole kilobytes. The bytes are first
/// rounded to single precision, and the decimals are rounded to nearest, ties
/// to even, as `{:.2}` and `{:.1}` render an `f32`.
pub open spec fn memory_text(bytes: nat) -> Seq<char> {
    if bytes >= 0x4000_0000 {
        let h = round_div(nearest_f32(bytes) * 100, 0x4000_0000);
        decimal(h / 100) + seq!['.'] + two_digits(h % 100) + " GB"@
    } else if bytes >= 0x10_0000 {
        let t = round_div(nearest_f32(bytes) * 10, 0x10_0000);
        decimal(t / 10) + seq!['.'] + decimal(t % 10) + " MB"@
    } else {
        decimal(bytes / 1024) + " KB"@
    }
}

/// `n / d` rounded to the nearest integer, ties to even.
fn round_half_even(n: u128, d: u128) -> (r: u128)
    requires
        0 < d <= 0x4000_0000,
        n <= 0x1_0000_0000_0000_0000_0000,
    ensures
        r == round_div(n as nat, d as nat),
{
    let q = n / d;
    let r = n % d;
    if 2 * r > d || (2 * r == d && q % 2 == 1) {
        assert(d >= 2);
        assert(q <= n) by (nonlinear_arith)
            requires
                q == n / d,
                d > 0,
        ;
        q + 1
    } else {
        q
    }
}

proof fn lemma_spacing_positive(n: nat)
    ensures
        f32_spacing(n) >= 1,
    decreases n,
{
    if n >= 0x100_0000 {
        lemma_spacing_positive(n / 2);
    }
}

proof fn lemma_round_div_error(n: nat, d: nat)
    requires
        d > 0,
    ensures
        -(d as int) <= 2 * ((round_div(n, d) * d) as int - n) <= d,
{
    let q = n / d;
    let r = n % d;
    vstd::arithmetic::div_mod::lemma_fundamental_div_mod(n as int, d as int);
    assert((q + 1) * d == q * d + d) by (nonlinear_arith);
}

proof fn lemma_spacing_bound(n: nat)
    ensures
        n < 0x100_0000 ==> f32_spacing(n) == 1,
        n >= 0x100_0000 ==> f32_spacing(n) * 0x80_0000 <= n,
    decreases n,
{
    if n >= 0x100_0000 {
        lemma_spacing_bound(n / 2);
        lemma_spacing_positive(n / 2);
        let s = f32_spacing(n / 2);
        if n / 2 < 0x100_0000 {
            assert(s == 1);
        } else {
            assert(2 * s * 0x80_0000 <= 2 * (n / 2)) by (nonlinear_arith)
                requires
                    s * 0x80_0000 <= n / 2,
            ;
        }
    }
}

/// Rounding an integer to single precision moves it by at most a 2^24th of
/// itself, and not at all below 2^24.
pub proof fn lemma_nearest_f32_error(n: nat)
    ensures
        n < 0x100_0000 ==> nearest_f32(n) == n,
        ((nearest_f32(n) as int) - n) * 0x100_0000 <= n,
        (n - (nearest_f32(n) as int)) * 0x100_0000 <= n,
{
    let s = f32_spacing(n);
    lemma_spacing_positive(n);
    lemma_spacing_bound(n);
    lemma_round_div_error(n, s);
    let e = (nearest_f32(n) as int) - n;
    if n < 0x100_0000 {
        assert(round_div(n, 1) == n);
        assert(nearest_f32(n) == n);
    } else {
        assert(e * 0x100_0000 <= n && -e * 0x100_0000 <= n) by (nonlinear_arith)
            requires
                -(s as int) <= 2 * e <= s,
                s * 0x80_0000 <= n,
        ;
    }
}

/// A memory label reads back as the size it renders. Below 2^20 bytes it is
/// the whole kibibytes and " KB"; below 2^30 bytes it is megabytes with one
/// decimal and " MB"; from there on gigabytes with two decimals and " GB".
/// The decimals are those of the size taken at single precision (`approx`,
/// within a 2^24th of the size), rounded to the nearest last digit.
pub proof fn lemma_memory_reads_back(bytes: nat) -> (fields: (Seq<char>, Seq<char>, nat))
    ensures
        ({
            let (whole, frac, approx) = fields;
            &&& all_digits(whole) && whole.len() > 0 && all_digits(frac)
            &&& ((approx as int) - bytes) * 0x100_0000 <= bytes
            &&& (bytes - (approx as int)) * 0x100_0000 <= bytes
            &&& bytes < 0x10_0000 ==> memory_text(bytes) == whole + " KB"@ && digits_value(whole) == bytes / 1024
            &&& 0x10_0000 <= bytes < 0x4000_0000 ==> {
                let tenths = digits_value(whole) * 10 + digits_value(frac);
                &&& memory_text(bytes) == whole + seq!['.'] + frac + " MB"@
                &&& frac.len() == 1
                &&& -0x10_0000 <= 2 * ((tenths * 0x10_0000) as int - approx * 10) <= 0x10_0000
            }
            &&& bytes >= 0x4000_0000 ==> {
                let hundredths = digits_value(whole) * 100 + digits_value(frac);
                &&& memory_text(bytes) == whole + seq!['.'] + frac + " GB"@
                &&& frac.len() == 2
                &&& -0x4000_0000 <= 2 * ((hundredths * 0x4000_0000) as int - approx * 100) <= 0x4000_0000
            }
        }),
{
    let f = nearest_f32(bytes);
    lemma_nearest_f32_error(bytes);
    if bytes >= 0x4000_0000 {
        let h = round_div(f * 100, 0x4000_0000);
        lemma_round_div_error(f * 100, 0x4000_0000);
        lemma_decimal_reads_back(h / 100);
        lemma_decimal_reads_back(h % 100);
        lemma_two_digits_read_back(h % 100);
        assert(two_digits(h % 100).len() == 2);
        (decimal(h / 100), two_digits(h % 100), f)
    } else if bytes >= 0x10_0000 {
        let t = round_div(f * 10, 0x10_0000);
        lemma_round_div_error(f * 10, 0x10_0000);
        lemma_decimal_reads_back(t / 10);
        lemma_decimal_reads_back(t % 10);
        (decimal(t / 10), decimal(t % 10), f)
    } else {
        lemma_decimal_reads_back(bytes / 1024);
        (decimal(bytes / 1024), Seq::empty(), f)
    }
}

/// `bytes as f32`, as an exact integer.
fn nearest_f32_value(bytes: u64) -> (f: u128)
    ensures
        f == nearest_f32(bytes as nat),
        f <= 0x2_0000_0000_0000_0000,
{
    let mut m: u64 = bytes;
    let mut p: u64 = 1;
    while m >= 0x100_0000
        invariant
            p >= 1,
            m == bytes / p,
            p * f32_spacing(m as nat) == f32_spacing(bytes as nat),
            p * m <= bytes,
            p > 1 ==> m >= 0x80_0000,
        decreases m,
    {
        proof {
            assert(p * 0x100_0000 <= p * m) by (nonlinear_arith)
                requires
                    m >= 0x100_0000,
                    p >= 1,
            ;
            vstd::arithmetic::div_mod::lemma_div_denominator(bytes as int, p as int, 2);
            assert(p * 2 * (m / 2) <= p * m) by (nonlinear_arith)
                requires
                    p >= 1,
            ;
            assert(p * f32_spacing(m as nat) == (p * 2) * f32_spacing((m / 2) as nat)) by (nonlinear_arith)
                requires
                    f32_spacing(m as nat) == 2 * f32_spacing((m / 2) as nat),
            ;
        }
        m = m / 2;
        p = p * 2;
    }
    proof {
        lemma_spacing_positive(bytes as nat);
        assert(f32_spacing(m as nat) == 1);
        assert(p * f32_spacing(m as nat) == p) by (nonlinear_arith)
            requires
                f32_spacing(m as nat) == 1,
        ;
        assert(p == f32_spacing(bytes as nat));
        assert(p * m <= bytes);
        assert(m < 0x100_0000);
    }
    let q = (bytes / p) as u128;
    let r = (bytes % p) as u128;
    let pp = p as u128;
    let up = 2 * r > pp || (2 * r == pp && q % 2 == 1);
    let k = if up {
        q + 1
    } else {
        q
    };
    proof {
        assert(k <= 0x100_0000);
        if p > 1 {
            assert(pp * 0x80_0000 <= pp * m) by (nonlinear_arith)
                requires
                    m >= 0x80_0000,
                    pp >= 1,
            ;
        }
        assert(pp < 0x200_0000_0000);
        assert(k * pp <= 0x2_0000_0000_0000_0000) by (nonlinear_arith)
            requires
                k <= 0x100_0000,
                pp < 0x200_0000_0000,
        ;
    }
    k * pp
}

/// Renders a memory size given in bytes.
pub fn format_memory(bytes: u64) -> (out: String)
    ensures
        out@ == memory_text(bytes as nat),
{
    let kb = bytes / 1024;
    let mb = kb / 1024;
    let gb = mb / 1024;
    let mut out = String::new();
    if gb > 0 {
        let f = nearest_f32_value(bytes);
        let h = round_half_even(f * 100, 0x4000_0000);
        assert(h <= 0x2_0000_0000_0000_0000 * 100 / 0x4000_0000 + 1);
        push_decimal(&mut out, (h / 100) as u64);
        push_char(&mut out, '.');
        push_two_digits(&mut out, (h % 100) as u64);
        append_str(&mut out, " GB");
    } else if mb > 0 {
        let f = nearest_f32_value(bytes);
        let t = round_half_even(f * 10, 0x10_0000);
        push_decimal(&mut out, (t / 10) as u64);
        push_char(&mut out, '.');
        push_decimal(&mut out, (t % 10) as u64);
        append_str(&mut out, " MB");
    } else {
        push_decimal(&mut out, kb);
        append_str(&mut out, " KB");
    }
    assert(out@ =~= memory_text(bytes as nat));
    out
}

// ---------------------------------------------------------------------------
// Disk traffic and owner
// ---------------------------------------------------------------------------

/// "R:<read KiB>/W:<written KiB>".
pub open spec fn disk_usage_text(read: nat, written: nat) -> Seq<char> {
    "R:"@ + decimal(read / 1024) + "/W:"@ + decimal(written / 1024)
}

/// The disk column reads "R:", the whole kibibytes read, "/W:" and the whole
/// kibibytes written, each a non-empty run of digits.
pub proof fn lemma_disk_usage_reads_back(read: nat, written: nat) -> (fields: (Seq<char>, Seq<char>))
    ensures
        ({
            let (r, w) = fields;
            &&& all_digits(r) && all_digits(w) && r.len() > 0 && w.len() > 0
            &&& disk_usage_text(read, written) == "R:"@ + r + "/W:"@ + w
            &&& digits_value(r) == read / 1024
            &&& digits_value(w) == written / 1024
        }),
{
    lemma_decimal_reads_back(read / 1024);
    lemma_decimal_reads_back(written / 1024);
    (decimal(read / 1024), decimal(written / 1024))
}

/// Renders total disk reads and writes, in whole kibibytes.
pub fn disk_usage_label(read_bytes: u64, written_bytes: u64) -> (out: String)
    ensures
        out@ == disk_usage_text(read_bytes as nat, written_bytes as nat),
{
    let mut out = String::new();
    append_str(&mut out, "R:");
    push_decimal(&mut out, read_bytes / 1024);
    append_str(&mut out, "/W:");
    push_decimal(&mut out, written_bytes / 1024);
    assert(out@ =~= disk_usage_text(read_bytes as nat, written_bytes as nat));
    out
}

/// The owner column: the user's name when the owner is a known user, "UID: "
/// and the id when it is not, "Unknown" when the process has no owner.
pub open spec fn owner_text(user_id: Option<Seq<char>>, user_name: Option<Seq<char>>) -> Seq<char> {
    match user_id {
        Some(id) => match user_name {
            Some(name) => name,
            None => "UID: "@ + id,
        },
        None => "Unknown"@,
    }
}

/// Renders the owner of a process from its user id (as displayed) and the name
/// of the user with that id, if one is known.
pub fn owner_label(user_id: Option<String>, user_name: Option<String>) -> (out: String)
    ensures
        out@ == owner_text(
            match user_id {
                Some(s) => Some(s@),
                None => None,
            },
            match user_name {
                Some(s) => Some(s@),
                None => None,
            },
        ),
{
    match user_id {
        Some(id) => match user_name {
            Some(name) => name,
            None => {
                let mut out = String::new();
                append_str(&mut out, "UID: ");
                append_str(&mut out, id.as_str());
                assert(out@ =~= "UID: "@ + id@);
                out
            },
        },
        None => {
            text_of("Unknown")
        },
    }
}

} // verus!
