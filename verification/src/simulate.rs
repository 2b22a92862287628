//! The deterministic parts of the sensor simulator: its pseudo-random
//! generator, the flow-meter counter, and its timestamps.

use vstd::prelude::*;
use crate::calendar::{days_to_ymd, day_number, valid_date};
use crate::mqtt::{number_setting, or_else, or_empty, qos_for, MqttEnv, Qos, DEFAULT_DEVICE_ID, DEFAULT_HOST, DEFAULT_KEEP_ALIVE, DEFAULT_PORT};
use crate::text::{lex_le, lemma_lex_le_total, lemma_lex_le_transitive, str_le, ascii_chars, ascii_string, all_ascii, zero_padded, push_zero_padded, lemma_decimal_is_digits, lemma_zero_padded_ascii, lemma_concat_ascii, parse_u16, parse_u64, parse_unsigned};

verus! {

/// Cubic metres the simulated meter advances per tick.
pub const FLOW_INCREMENT_M3: u64 = 2;

/// Multiplier and increment of the generator (Knuth's MMIX constants).
pub const LCG_MUL: u64 = 6_364_136_223_846_793_005;
pub const LCG_INC: u64 = 1_442_695_040_888_963_407;
/// Mixed into the seed.
pub const SEED_MIX: u64 = 0xdeadbeef_cafebabe;

/// One step of the generator: `s * LCG_MUL + LCG_INC` modulo 2^64.
pub open spec fn lcg_next(s: u64) -> u64 {
    ((s as nat * LCG_MUL as nat + LCG_INC as nat) % 0x1_0000_0000_0000_0000) as u64
}

/// Seeded 64-bit linear congruential generator.
pub struct Rng {
    state: u64,
}

impl Rng {
    pub closed spec fn spec_state(&self) -> u64 {
        self.state
    }

    /// A generator seeded with `seed`.
    pub fn new(seed: u64) -> (r: Self)
        ensures
            r.spec_state() == seed ^ SEED_MIX,
    {
        Rng { state: seed ^ SEED_MIX }
    }

    /// Advances the generator and returns its new state.
    pub fn next_u64(&mut self) -> (v: u64)
        ensures
            v == lcg_next(old(self).spec_state()),
            final(self).spec_state() == v,
    {
        let m = self.state.wrapping_mul(LCG_MUL);
        let v = m.wrapping_add(LCG_INC);
        proof {
            let s = old(self).state as nat;
            let big: nat = 0x1_0000_0000_0000_0000;
            assert(m as nat == (s * LCG_MUL as nat) % big);
            vstd::arithmetic::div_mod::lemma_add_mod_noop(
                (s * LCG_MUL as nat) as int,
                LCG_INC as int,
                big as int,
            );
            vstd::arithmetic::div_mod::lemma_mod_twice(LCG_INC as int, big as int);
            assert(v as nat == (m as nat + LCG_INC as nat) % big);
        }
        self.state = v;
        v
    }

    /// Advances the generator and returns the top 53 bits of its new state:
    /// the numerator of a uniform fraction in [0, 1) with denominator 2^53.
    pub fn next_fraction_bits(&mut self) -> (b: u64)
        ensures
            b == lcg_next(old(self).spec_state()) / 2048,
            b < 0x20_0000_0000_0000,
            final(self).spec_state() == lcg_next(old(self).spec_state()),
    {
        let v = self.next_u64();
        let b = v >> 11u64;
        proof {
            assert(b == v / 2048 && b < 0x20_0000_0000_0000) by (bit_vector)
                requires
                    b == v >> 11u64,
            ;
        }
        b
    }
}

/// Meter settings used when no earlier reading can be loaded.
pub const DEFAULT_METER_BRAND: &'static str = "IPM";
pub const DEFAULT_DN_MM: u32 = 100;
pub const DEFAULT_QN_M3H: u32 = 60;
pub const DEFAULT_PN_BAR: u32 = 16;
pub const DEFAULT_MAX_TEMP_C: u32 = 50;
pub const DEFAULT_ISO: u32 = 4064;
pub const DEFAULT_FLOW_M3: u64 = 331;

/// The counter value a stored reading resumes from: the reading when it is a
/// number, zero otherwise.
pub fn resume_flow(reading_m3: &str) -> (f: u64)
    ensures
        f == (match parse_unsigned(reading_m3@) {
            Some(v) => if v <= u64::MAX {
                v as u64
            } else {
                0
            },
            None => 0,
        }),
{
    match parse_u64(reading_m3) {
        Some(v) => v,
        None => 0,
    }
}

/// The counter after one tick.
pub fn advance_flow(flow: u64) -> (next: u64)
    requires
        flow <= u64::MAX - FLOW_INCREMENT_M3,
    ensures
        next == flow + FLOW_INCREMENT_M3,
{
    flow + FLOW_INCREMENT_M3
}

/// The meter face: the counter in decimal, zero-padded to six digits.
pub fn meter_reading_label(flow: u64) -> (label: String)
    ensures
        label@ == ascii_chars(zero_padded(flow as nat, 6)),
{
    let mut out: Vec<u8> = Vec::new();
    push_zero_padded(&mut out, flow, 6);
    proof {
        assert(out@ =~= zero_padded(flow as nat, 6));
        lemma_decimal_is_digits(flow as nat);
    }
    ascii_string(out)
}

/// A number setting read leniently: its value when it is a number that fits
/// `max`, `default` when it is unset or is not such a number.
pub open spec fn lenient_number(setting: Option<String>, default: nat, max: nat) -> nat {
    match number_setting(setting, default, max) {
        Some(v) => v,
        None => default,
    }
}

/// The simulator's broker settings. Unlike the collector, the simulator
/// refuses none of them: a port or keep-alive that is not a number falls
/// back to its default.
pub fn simulator_env(
    device_id: Option<String>,
    host: Option<String>,
    port: Option<String>,
    username: Option<String>,
    password: Option<String>,
    keep_alive: Option<String>,
    qos: Option<String>,
) -> (env: MqttEnv)
    ensures
        env.device_id@ == or_else(device_id, DEFAULT_DEVICE_ID@),
        env.host@ == or_else(host, DEFAULT_HOST@),
        env.port as nat == lenient_number(port, DEFAULT_PORT as nat, u16::MAX as nat),
        env.username@ == or_empty(username),
        env.password@ == or_empty(password),
        env.keep_alive as nat == lenient_number(keep_alive, DEFAULT_KEEP_ALIVE as nat, u64::MAX as nat),
        env.qos == qos_for(qos),
{
    let device_id = match device_id {
        Some(d) => d,
        None => String::from_str(DEFAULT_DEVICE_ID),
    };
    let host = match host {
        Some(h) => h,
        None => String::from_str(DEFAULT_HOST),
    };
    let port = match port {
        Some(p) => match parse_u16(p.as_str()) {
            Some(v) => v,
            None => DEFAULT_PORT,
        },
        None => DEFAULT_PORT,
    };
    let username = match username {
        Some(u) => u,
        None => String::new(),
    };
    let password = match password {
        Some(p) => p,
        None => String::new(),
    };
    let keep_alive = match keep_alive {
        Some(k) => match parse_u64(k.as_str()) {
            Some(v) => v,
            None => DEFAULT_KEEP_ALIVE,
        },
        None => DEFAULT_KEEP_ALIVE,
    };
    let qos: Qos = Qos::from_setting(qos);
    MqttEnv { device_id, host, port, username, password, qos, keep_alive }
}

/// Minutes between ticks when none is set.
pub const DEFAULT_INTERVAL_MINS: u64 = 30;

/// Seconds between ticks: `SIMULATE_INTERVAL_SECS` when it is a number,
/// otherwise `SIMULATE_INTERVAL_MINS` (30 when unset or not a number) times
/// 60. `None` when that product does not fit in 64 bits.
pub fn interval_secs(mins: Option<String>, secs: Option<String>) -> (r: Option<u64>)
    ensures
        ({
            let m: nat = match mins {
                Some(s) => match parse_unsigned(s@) {
                    Some(v) => if v <= u64::MAX { v } else { DEFAULT_INTERVAL_MINS as nat },
                    None => DEFAULT_INTERVAL_MINS as nat,
                },
                None => DEFAULT_INTERVAL_MINS as nat,
            };
            let s: Option<nat> = match secs {
                Some(t) => match parse_unsigned(t@) {
                    Some(v) => if v <= u64::MAX { Some(v) } else { None },
                    None => None,
                },
                None => None,
            };
            r == (match s {
                Some(v) => Some(v as u64),
                None => if m * 60 <= u64::MAX { Some((m * 60) as u64) } else { None },
            })
        }),
{
    let m = match mins {
        Some(s) => match parse_u64(s.as_str()) {
            Some(v) => v,
            None => DEFAULT_INTERVAL_MINS,
        },
        None => DEFAULT_INTERVAL_MINS,
    };
    let s = match secs {
        Some(t) => parse_u64(t.as_str()),
        None => None,
    };
    match s {
        Some(v) => Some(v),
        None => m.checked_mul(60),
    }
}

/// "YYYY-MM-DDTHH:MM:SSZ" for the given fields, each zero-padded (the year
/// to four digits).
pub open spec fn iso8601_bytes(y: nat, mo: nat, d: nat, h: nat, mi: nat, s: nat) -> Seq<u8> {
    zero_padded(y, 4) + seq![45u8] + zero_padded(mo, 2) + seq![45u8] + zero_padded(d, 2) + seq![84u8]
        + zero_padded(h, 2) + seq![58u8] + zero_padded(mi, 2) + seq![58u8] + zero_padded(s, 2)
        + seq![90u8]
}

/// "YYYYMMDD_HHMMSS" for the given fields: the ISO form without '-', ':'
/// and 'Z', and with '_' for 'T', as used in file names.
pub open spec fn file_tag_bytes(y: nat, mo: nat, d: nat, h: nat, mi: nat, s: nat) -> Seq<u8> {
    zero_padded(y, 4) + zero_padded(mo, 2) + zero_padded(d, 2) + seq![95u8] + zero_padded(h, 2)
        + zero_padded(mi, 2) + zero_padded(s, 2)
}

/// The UTC date and time fields of `secs` seconds after the Unix epoch.
pub open spec fn utc_fields(secs: nat, y: nat, mo: nat, d: nat, h: nat, mi: nat, s: nat) -> bool {
    &&& valid_date(y as int, mo as int, d as int)
    &&& day_number(y as int, mo as int, d as int) == secs / 86400
    &&& h == (secs / 3600) % 24
    &&& mi == (secs / 60) % 60
    &&& s == secs % 60
}

fn utc_of(secs: u64) -> (f: (u64, u64, u64, u64, u64, u64))
    ensures
        utc_fields(secs as nat, f.0 as nat, f.1 as nat, f.2 as nat, f.3 as nat, f.4 as nat, f.5 as nat),
{
    let s = secs % 60;
    let m = (secs / 60) % 60;
    let h = (secs / 3600) % 24;
    let (yr, mo, dy) = days_to_ymd(secs / 86400);
    (yr, mo, dy, h, m, s)
}

/// The ISO 8601 UTC timestamp "YYYY-MM-DDTHH:MM:SSZ" of `secs` seconds after
/// the Unix epoch.
pub fn unix_to_iso8601(secs: u64) -> (t: String)
    ensures
        exists|y: nat, mo: nat, d: nat, h: nat, mi: nat, s: nat|
            utc_fields(secs as nat, y, mo, d, h, mi, s) && t@ == ascii_chars(
                #[trigger] iso8601_bytes(y, mo, d, h, mi, s),
            ),
{
    let (yr, mo, dy, h, mi, s) = utc_of(secs);
    let mut out: Vec<u8> = Vec::new();
    push_zero_padded(&mut out, yr, 4);
    out.push(45u8);
    push_zero_padded(&mut out, mo, 2);
    out.push(45u8);
    push_zero_padded(&mut out, dy, 2);
    out.push(84u8);
    push_zero_padded(&mut out, h, 2);
    out.push(58u8);
    push_zero_padded(&mut out, mi, 2);
    out.push(58u8);
    push_zero_padded(&mut out, s, 2);
    out.push(90u8);
    let ghost bytes = iso8601_bytes(yr as nat, mo as nat, dy as nat, h as nat, mi as nat, s as nat);
    proof {
        assert(out@ =~= bytes);
        lemma_zero_padded_ascii(yr as nat, 4);
        lemma_zero_padded_ascii(mo as nat, 2);
        lemma_zero_padded_ascii(dy as nat, 2);
        lemma_zero_padded_ascii(h as nat, 2);
        lemma_zero_padded_ascii(mi as nat, 2);
        lemma_zero_padded_ascii(s as nat, 2);
        let sep45: Seq<u8> = seq![45u8];
        let sep84: Seq<u8> = seq![84u8];
        let sep58: Seq<u8> = seq![58u8];
        let sep90: Seq<u8> = seq![90u8];
        assert(all_ascii(sep45) && all_ascii(sep84) && all_ascii(sep58) && all_ascii(sep90));
        let p1 = zero_padded(yr as nat, 4) + sep45;
        lemma_concat_ascii(zero_padded(yr as nat, 4), sep45);
        let p2 = p1 + zero_padded(mo as nat, 2);
        lemma_concat_ascii(p1, zero_padded(mo as nat, 2));
        let p3 = p2 + sep45;
        lemma_concat_ascii(p2, sep45);
        let p4 = p3 + zero_padded(dy as nat, 2);
        lemma_concat_ascii(p3, zero_padded(dy as nat, 2));
        let p5 = p4 + sep84;
        lemma_concat_ascii(p4, sep84);
        let p6 = p5 + zero_padded(h as nat, 2);
        lemma_concat_ascii(p5, zero_padded(h as nat, 2));
        let p7 = p6 + sep58;
        lemma_concat_ascii(p6, sep58);
        let p8 = p7 + zero_padded(mi as nat, 2);
        lemma_concat_ascii(p7, zero_padded(mi as nat, 2));
        let p9 = p8 + sep58;
        lemma_concat_ascii(p8, sep58);
        let p10 = p9 + zero_padded(s as nat, 2);
        lemma_concat_ascii(p9, zero_padded(s as nat, 2));
        lemma_concat_ascii(p10, sep90);
        assert(p10 + sep90 =~= bytes);
    }
    ascii_string(out)
}

/// The file-name tag "YYYYMMDD_HHMMSS" of `secs` seconds after the Unix epoch.
pub fn unix_to_file_tag(secs: u64) -> (t: String)
    ensures
        exists|y: nat, mo: nat, d: nat, h: nat, mi: nat, s: nat|
            utc_fields(secs as nat, y, mo, d, h, mi, s) && t@ == ascii_chars(
                #[trigger] file_tag_bytes(y, mo, d, h, mi, s),
            ),
{
    let (yr, mo, dy, h, mi, s) = utc_of(secs);
    let mut out: Vec<u8> = Vec::new();
    push_zero_padded(&mut out, yr, 4);
    push_zero_padded(&mut out, mo, 2);
    push_zero_padded(&mut out, dy, 2);
    out.push(95u8);
    push_zero_padded(&mut out, h, 2);
    push_zero_padded(&mut out, mi, 2);
    push_zero_padded(&mut out, s, 2);
    let ghost bytes = file_tag_bytes(yr as nat, mo as nat, dy as nat, h as nat, mi as nat, s as nat);
    proof {
        assert(out@ =~= bytes);
        lemma_zero_padded_ascii(yr as nat, 4);
        lemma_zero_padded_ascii(mo as nat, 2);
        lemma_zero_padded_ascii(dy as nat, 2);
        lemma_zero_padded_ascii(h as nat, 2);
        lemma_zero_padded_ascii(mi as nat, 2);
        lemma_zero_padded_ascii(s as nat, 2);
        let sep95: Seq<u8> = seq![95u8];
        assert(all_ascii(sep95));
        let p1 = zero_padded(yr as nat, 4) + zero_padded(mo as nat, 2);
        lemma_concat_ascii(zero_padded(yr as nat, 4), zero_padded(mo as nat, 2));
        let p2 = p1 + zero_padded(dy as nat, 2);
        lemma_concat_ascii(p1, zero_padded(dy as nat, 2));
        let p3 = p2 + sep95;
        lemma_concat_ascii(p2, sep95);
        let p4 = p3 + zero_padded(h as nat, 2);
        lemma_concat_ascii(p3, zero_padded(h as nat, 2));
        let p5 = p4 + zero_padded(mi as nat, 2);
        lemma_concat_ascii(p4, zero_padded(mi as nat, 2));
        lemma_concat_ascii(p5, zero_padded(s as nat, 2));
        assert(p5 + zero_padded(s as nat, 2) =~= bytes);
    }
    ascii_string(out)
}

/// A stored reading's file name: "<something>.json", but not the seed file
/// "sample.json".
pub open spec fn is_reading_file(name: Seq<char>) -> bool {
    &&& name.len() > 5
    &&& name.skip(name.len() - 5) == ".json"@
    &&& name != "sample.json"@
}

fn reading_file(name: &str) -> (r: bool)
    ensures
        r == is_reading_file(name@),
{
    let n = name.unicode_len();
    if n <= 5 {
        return false;
    }
    let tail = name.substring_char(n - 5, n);
    let suffix = String::from_str(".json");
    let tail_s = String::from_str(tail);
    if !(tail_s == suffix) {
        return false;
    }
    let whole = String::from_str(name);
    let sample = String::from_str("sample.json");
    proof {
        assert(name@.subrange(n - 5, n as int) =~= name@.skip(n - 5));
    }
    !(whole == sample)
}

/// The stored reading to resume from: among the file names `names`, the
/// greatest reading file. `None` when there is none.
pub fn latest_reading(names: &[String]) -> (r: Option<usize>)
    ensures
        r is None <==> forall|j: int| 0 <= j < names@.len() ==> !is_reading_file(#[trigger] names@[j]@),
        r matches Some(i) ==> 0 <= i < names@.len() && is_reading_file(names@[i as int]@)
            && forall|j: int| 0 <= j < names@.len() && is_reading_file(#[trigger] names@[j]@)
                ==> lex_le(names@[j]@, names@[i as int]@),
{
    let n = names.len();
    let mut best: Option<usize> = None;
    let mut k: usize = 0;
    while k < n
        invariant
            n == names@.len(),
            k <= n,
            best is None <==> forall|j: int| 0 <= j < k ==> !is_reading_file(#[trigger] names@[j]@),
            best matches Some(i) ==> i < k && is_reading_file(names@[i as int]@) && forall|j: int|
                0 <= j < k && is_reading_file(#[trigger] names@[j]@) ==> lex_le(
                    names@[j]@,
                    names@[i as int]@,
                ),
        decreases n - k,
    {
        if reading_file(names[k].as_str()) {
            match best {
                None => {
                    best = Some(k);
                    proof {
                        assert forall|j: int| 0 <= j < k + 1 && is_reading_file(#[trigger] names@[j]@)
                            implies lex_le(names@[j]@, names@[k as int]@) by {
                            if j < k {
                            } else {
                                lemma_lex_le_total(names@[j]@, names@[k as int]@);
                            }
                        }
                    }
                },
                Some(i) => {
                    if str_le(names[i].as_str(), names[k].as_str()) {
                        best = Some(k);
                        proof {
                            assert forall|j: int|
                                0 <= j < k + 1 && is_reading_file(#[trigger] names@[j]@) implies lex_le(
                                names@[j]@,
                                names@[k as int]@,
                            ) by {
                                if j < k {
                                    lemma_lex_le_transitive(
                                        names@[j]@,
                                        names@[i as int]@,
                                        names@[k as int]@,
                                    );
                                } else {
                                    lemma_lex_le_total(names@[j]@, names@[k as int]@);
                                }
                            }
                        }
                    } else {
                        proof {
                            lemma_lex_le_total(names@[i as int]@, names@[k as int]@);
                        }
                    }
                },
            }
        }
        k = k + 1;
    }
    best
}

} // verus!
