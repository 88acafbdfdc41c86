//! The uptime command: how long the bot has been running, broken down.
use crate::text::{decimal, extend_str, from_chars, push_decimal};
use vstd::prelude::*;

verus! {

/// The uptime report for a running time of `secs` seconds and `nanos`
/// nanoseconds, in days, hours, minutes, seconds, milliseconds,
/// microseconds and nanoseconds, each the remainder that `Duration`'s
/// totals leave, followed by a line of praise.
pub open spec fn uptime_text_spec(secs: nat, nanos: nat, praise: Seq<char>) -> Seq<char> {
    let millis = secs * 1000 + nanos / 1_000_000;
    let micros = secs * 1_000_000 + nanos / 1000;
    let total_nanos = secs * 1_000_000_000 + nanos;
    "Uptime: "@ + decimal(secs / 3600 / 24) + "d "@ + decimal((secs / 3600) % 24) + "h "@ + decimal(
        (secs / 60) % 60,
    ) + "m "@ + decimal(secs % 60) + "s "@ + decimal(millis % 1000) + "ms "@ + decimal(micros % 1000)
        + "micros "@ + decimal(total_nanos % 1000) + "ns\n"@ + praise
}

/// An uptime report laid out from its parts: days, hours, minutes, seconds,
/// milliseconds, microseconds and nanoseconds, then the praise line.
pub open spec fn uptime_report(
    days: nat,
    hours: nat,
    minutes: nat,
    seconds: nat,
    millis: nat,
    micros: nat,
    nanos: nat,
    praise: Seq<char>,
) -> Seq<char> {
    "Uptime: "@ + decimal(days) + "d "@ + decimal(hours) + "h "@ + decimal(minutes) + "m "@ + decimal(seconds)
        + "s "@ + decimal(millis) + "ms "@ + decimal(micros) + "micros "@ + decimal(nanos) + "ns\n"@ + praise
}

/// The sub-second remainders of a running time.
proof fn lemma_subsecond(secs: nat, nanos: nat)
    requires
        nanos < 1_000_000_000,
    ensures
        (secs * 1000 + nanos / 1_000_000) % 1000 == nanos / 1_000_000,
        (secs * 1_000_000 + nanos / 1000) % 1000 == (nanos / 1000) % 1000,
        (secs * 1_000_000_000 + nanos) % 1000 == nanos % 1000,
{
    assert(nanos / 1_000_000 < 1000) by (nonlinear_arith)
        requires
            nanos < 1_000_000_000,
    ;
    assert((secs * 1000 + nanos / 1_000_000) % 1000 == nanos / 1_000_000) by {
        vstd::arithmetic::div_mod::lemma_mod_multiples_vanish(secs as int, (nanos / 1_000_000) as int, 1000);
        vstd::arithmetic::div_mod::lemma_small_mod((nanos / 1_000_000) as nat, 1000);
    }
    assert((secs * 1_000_000 + nanos / 1000) % 1000 == (nanos / 1000) % 1000) by {
        assert(secs * 1_000_000 == (secs * 1000) * 1000) by (nonlinear_arith);
        vstd::arithmetic::div_mod::lemma_mod_multiples_vanish((secs * 1000) as int, (nanos / 1000) as int, 1000);
    }
    assert((secs * 1_000_000_000 + nanos) % 1000 == nanos % 1000) by {
        assert(secs * 1_000_000_000 == (secs * 1_000_000) * 1000) by (nonlinear_arith);
        vstd::arithmetic::div_mod::lemma_mod_multiples_vanish((secs * 1_000_000) as int, nanos as int, 1000);
    }
}

/// The uptime report for a running time of `secs` seconds and `nanos`
/// nanoseconds, followed by a line of praise.
pub fn uptime_text(secs: u64, nanos: u32, praise: &str) -> (r: String)
    requires
        nanos < 1_000_000_000,
    ensures
        r@ == uptime_text_spec(secs as nat, nanos as nat, praise@),
{
    proof {
        lemma_subsecond(secs as nat, nanos as nat);
    }
    let n = nanos as u64;
    let mut v: Vec<char> = Vec::new();
    extend_str(&mut v, "Uptime: ");
    push_decimal(&mut v, secs / 3600 / 24);
    extend_str(&mut v, "d ");
    push_decimal(&mut v, (secs / 3600) % 24);
    extend_str(&mut v, "h ");
    push_decimal(&mut v, (secs / 60) % 60);
    extend_str(&mut v, "m ");
    push_decimal(&mut v, secs % 60);
    extend_str(&mut v, "s ");
    push_decimal(&mut v, n / 1_000_000);
    extend_str(&mut v, "ms ");
    push_decimal(&mut v, (n / 1000) % 1000);
    extend_str(&mut v, "micros ");
    push_decimal(&mut v, n % 1000);
    extend_str(&mut v, "ns\n");
    extend_str(&mut v, praise);
    from_chars(v.as_slice())
}

/// The report shows the running time broken down exactly: the days, hours,
/// minutes and seconds it shows add up to the whole seconds, the
/// milliseconds, microseconds and nanoseconds to the sub-second part, and
/// every part but the days stays below the next unit.
pub proof fn law_uptime_parts_add_up(secs: nat, nanos: nat, praise: Seq<char>)
    requires
        nanos < 1_000_000_000,
    ensures
        exists|d: nat, h: nat, m: nat, s: nat, ms: nat, us: nat, ns: nat|
            #![trigger uptime_report(d, h, m, s, ms, us, ns, praise)]
            uptime_text_spec(secs, nanos, praise) == uptime_report(d, h, m, s, ms, us, ns, praise)
                && d * 86400 + h * 3600 + m * 60 + s == secs && h < 24 && m < 60 && s < 60
                && ms * 1_000_000 + us * 1000 + ns == nanos && ms < 1000 && us < 1000 && ns < 1000,
{
    lemma_subsecond(secs, nanos);
    let q = secs / 60;
    let sec = secs % 60;
    let h0 = q / 60;
    let m = q % 60;
    let d = h0 / 24;
    let h = h0 % 24;
    vstd::arithmetic::div_mod::lemma_fundamental_div_mod(secs as int, 60);
    vstd::arithmetic::div_mod::lemma_fundamental_div_mod(q as int, 60);
    vstd::arithmetic::div_mod::lemma_fundamental_div_mod(h0 as int, 24);
    vstd::arithmetic::div_mod::lemma_div_denominator(secs as int, 60, 60);
    assert(secs / 3600 == h0);
    assert(d * 86400 + h * 3600 + m * 60 + sec == secs);
    let ms = nanos / 1_000_000;
    let us = (nanos / 1000) % 1000;
    let ns = nanos % 1000;
    let t = nanos / 1000;
    vstd::arithmetic::div_mod::lemma_fundamental_div_mod(nanos as int, 1000);
    vstd::arithmetic::div_mod::lemma_fundamental_div_mod(t as int, 1000);
    vstd::arithmetic::div_mod::lemma_div_denominator(nanos as int, 1000, 1000);
    assert(t / 1000 == ms);
    assert(ms * 1_000_000 + us * 1000 + ns == nanos);
    assert(ms < 1000) by (nonlinear_arith)
        requires
            ms == nanos / 1_000_000,
            nanos < 1_000_000_000,
    ;
    assert(uptime_text_spec(secs, nanos, praise) == uptime_report(d, h, m, sec, ms, us, ns, praise));
}

} // verus!
