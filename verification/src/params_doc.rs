//! The launch-parameters document: the structured text embedded in
//! an export archive, and its parser.
//!
//! The document is a small TOML-style text: a provenance comment
//! line, then one `key = value` line per field. Rendering a
//! [`LaunchParameter`] and parsing the text back yields the very same
//! value.

use vstd::prelude::*;
use vstd::slice::slice_subrange;
use crate::fixed::in_i64;
use crate::launch_parameters::LaunchParameter;
use crate::numeric::{
    all_digits, dec_digits, digits_val, find_byte, fixed_bytes, is_digit, is_num_byte,
    lemma_dec_digits_val, lemma_find_byte_at, lemma_find_byte_none,
    lemma_fixed_bytes_num, lemma_parse_render_roundtrip, parse_fixed, parse_fixed_spec,
    parse_u32_dec, push_dec, render_fixed,
};

verus! {

/// The provenance header line, newline included. (`# wt_ballistics_calc launch parameters\n`)
pub open spec fn header_full() -> Seq<u8> {
    seq![0x23u8, 0x20u8, 0x77u8, 0x74u8, 0x5Fu8, 0x62u8, 0x61u8, 0x6Cu8, 0x6Cu8, 0x69u8, 0x73u8, 0x74u8, 0x69u8, 0x63u8, 0x73u8, 0x5Fu8, 0x63u8, 0x61u8, 0x6Cu8, 0x63u8, 0x20u8, 0x6Cu8, 0x61u8, 0x75u8, 0x6Eu8, 0x63u8, 0x68u8, 0x20u8, 0x70u8, 0x61u8, 0x72u8, 0x61u8, 0x6Du8, 0x65u8, 0x74u8, 0x65u8, 0x72u8, 0x73u8, 0x0Au8]
}

/// Executable copy of [`header_full`].
pub fn header_full_bytes() -> (r: Vec<u8>)
    ensures
        r@ == header_full(),
{
    let mut out: Vec<u8> = Vec::new();
    out.push(0x23);
    out.push(0x20);
    out.push(0x77);
    out.push(0x74);
    out.push(0x5F);
    out.push(0x62);
    out.push(0x61);
    out.push(0x6C);
    out.push(0x6C);
    out.push(0x69);
    out.push(0x73);
    out.push(0x74);
    out.push(0x69);
    out.push(0x63);
    out.push(0x73);
    out.push(0x5F);
    out.push(0x63);
    out.push(0x61);
    out.push(0x6C);
    out.push(0x63);
    out.push(0x20);
    out.push(0x6C);
    out.push(0x61);
    out.push(0x75);
    out.push(0x6E);
    out.push(0x63);
    out.push(0x68);
    out.push(0x20);
    out.push(0x70);
    out.push(0x61);
    out.push(0x72);
    out.push(0x61);
    out.push(0x6D);
    out.push(0x65);
    out.push(0x74);
    out.push(0x65);
    out.push(0x72);
    out.push(0x73);
    out.push(0x0A);
    proof {
        assert(out@ =~= header_full());
    }
    out
}

/// Key of the gravity flag. (`use_gravity = `)
pub open spec fn key_use_gravity() -> Seq<u8> {
    seq![0x75u8, 0x73u8, 0x65u8, 0x5Fu8, 0x67u8, 0x72u8, 0x61u8, 0x76u8, 0x69u8, 0x74u8, 0x79u8, 0x20u8, 0x3Du8, 0x20u8]
}

/// Executable copy of [`key_use_gravity`].
pub fn key_use_gravity_bytes() -> (r: Vec<u8>)
    ensures
        r@ == key_use_gravity(),
{
    let mut out: Vec<u8> = Vec::new();
    out.push(0x75);
    out.push(0x73);
    out.push(0x65);
    out.push(0x5F);
    out.push(0x67);
    out.push(0x72);
    out.push(0x61);
    out.push(0x76);
    out.push(0x69);
    out.push(0x74);
    out.push(0x79);
    out.push(0x20);
    out.push(0x3D);
    out.push(0x20);
    proof {
        assert(out@ =~= key_use_gravity());
    }
    out
}

/// A true flag, newline included. (`true\n`)
pub open spec fn lit_true_nl() -> Seq<u8> {
    seq![0x74u8, 0x72u8, 0x75u8, 0x65u8, 0x0Au8]
}

/// Executable copy of [`lit_true_nl`].
pub fn lit_true_nl_bytes() -> (r: Vec<u8>)
    ensures
        r@ == lit_true_nl(),
{
    let mut out: Vec<u8> = Vec::new();
    out.push(0x74);
    out.push(0x72);
    out.push(0x75);
    out.push(0x65);
    out.push(0x0A);
    proof {
        assert(out@ =~= lit_true_nl());
    }
    out
}

/// A false flag, newline included. (`false\n`)
pub open spec fn lit_false_nl() -> Seq<u8> {
    seq![0x66u8, 0x61u8, 0x6Cu8, 0x73u8, 0x65u8, 0x0Au8]
}

/// Executable copy of [`lit_false_nl`].
pub fn lit_false_nl_bytes() -> (r: Vec<u8>)
    ensures
        r@ == lit_false_nl(),
{
    let mut out: Vec<u8> = Vec::new();
    out.push(0x66);
    out.push(0x61);
    out.push(0x6C);
    out.push(0x73);
    out.push(0x65);
    out.push(0x0A);
    proof {
        assert(out@ =~= lit_false_nl());
    }
    out
}

/// Key of the start velocity. (`start_velocity = `)
pub open spec fn key_start_velocity() -> Seq<u8> {
    seq![0x73u8, 0x74u8, 0x61u8, 0x72u8, 0x74u8, 0x5Fu8, 0x76u8, 0x65u8, 0x6Cu8, 0x6Fu8, 0x63u8, 0x69u8, 0x74u8, 0x79u8, 0x20u8, 0x3Du8, 0x20u8]
}

/// Executable copy of [`key_start_velocity`].
pub fn key_start_velocity_bytes() -> (r: Vec<u8>)
    ensures
        r@ == key_start_velocity(),
{
    let mut out: Vec<u8> = Vec::new();
    out.push(0x73);
    out.push(0x74);
    out.push(0x61);
    out.push(0x72);
    out.push(0x74);
    out.push(0x5F);
    out.push(0x76);
    out.push(0x65);
    out.push(0x6C);
    out.push(0x6F);
    out.push(0x63);
    out.push(0x69);
    out.push(0x74);
    out.push(0x79);
    out.push(0x20);
    out.push(0x3D);
    out.push(0x20);
    proof {
        assert(out@ =~= key_start_velocity());
    }
    out
}

/// Key of the target distance. (`distance_to_target = `)
pub open spec fn key_distance_to_target() -> Seq<u8> {
    seq![0x64u8, 0x69u8, 0x73u8, 0x74u8, 0x61u8, 0x6Eu8, 0x63u8, 0x65u8, 0x5Fu8, 0x74u8, 0x6Fu8, 0x5Fu8, 0x74u8, 0x61u8, 0x72u8, 0x67u8, 0x65u8, 0x74u8, 0x20u8, 0x3Du8, 0x20u8]
}

/// Executable copy of [`key_distance_to_target`].
pub fn key_distance_to_target_bytes() -> (r: Vec<u8>)
    ensures
        r@ == key_distance_to_target(),
{
    let mut out: Vec<u8> = Vec::new();
    out.push(0x64);
    out.push(0x69);
    out.push(0x73);
    out.push(0x74);
    out.push(0x61);
    out.push(0x6E);
    out.push(0x63);
    out.push(0x65);
    out.push(0x5F);
    out.push(0x74);
    out.push(0x6F);
    out.push(0x5F);
    out.push(0x74);
    out.push(0x61);
    out.push(0x72);
    out.push(0x67);
    out.push(0x65);
    out.push(0x74);
    out.push(0x20);
    out.push(0x3D);
    out.push(0x20);
    proof {
        assert(out@ =~= key_distance_to_target());
    }
    out
}

/// Key of the target speed. (`target_speed = `)
pub open spec fn key_target_speed() -> Seq<u8> {
    seq![0x74u8, 0x61u8, 0x72u8, 0x67u8, 0x65u8, 0x74u8, 0x5Fu8, 0x73u8, 0x70u8, 0x65u8, 0x65u8, 0x64u8, 0x20u8, 0x3Du8, 0x20u8]
}

/// Executable copy of [`key_target_speed`].
pub fn key_target_speed_bytes() -> (r: Vec<u8>)
    ensures
        r@ == key_target_speed(),
{
    let mut out: Vec<u8> = Vec::new();
    out.push(0x74);
    out.push(0x61);
    out.push(0x72);
    out.push(0x67);
    out.push(0x65);
    out.push(0x74);
    out.push(0x5F);
    out.push(0x73);
    out.push(0x70);
    out.push(0x65);
    out.push(0x65);
    out.push(0x64);
    out.push(0x20);
    out.push(0x3D);
    out.push(0x20);
    proof {
        assert(out@ =~= key_target_speed());
    }
    out
}

/// Key of the altitude. (`altitude = `)
pub open spec fn key_altitude() -> Seq<u8> {
    seq![0x61u8, 0x6Cu8, 0x74u8, 0x69u8, 0x74u8, 0x75u8, 0x64u8, 0x65u8, 0x20u8, 0x3Du8, 0x20u8]
}

/// Executable copy of [`key_altitude`].
pub fn key_altitude_bytes() -> (r: Vec<u8>)
    ensures
        r@ == key_altitude(),
{
    let mut out: Vec<u8> = Vec::new();
    out.push(0x61);
    out.push(0x6C);
    out.push(0x74);
    out.push(0x69);
    out.push(0x74);
    out.push(0x75);
    out.push(0x64);
    out.push(0x65);
    out.push(0x20);
    out.push(0x3D);
    out.push(0x20);
    proof {
        assert(out@ =~= key_altitude());
    }
    out
}

/// The rest of the sequence after a required prefix, if the prefix is
/// there.
pub open spec fn strip_prefix(s: Seq<u8>, p: Seq<u8>) -> Option<Seq<u8>> {
    if s.len() >= p.len() && s.take(p.len() as int) == p {
        Some(s.skip(p.len() as int))
    } else {
        None
    }
}

/// Stripping a prefix off itself-plus-rest yields the rest.
proof fn lemma_strip_concat(a: Seq<u8>, b: Seq<u8>)
    ensures
        strip_prefix(a + b, a) == Some(b),
{
    assert((a + b).take(a.len() as int) =~= a);
    assert((a + b).skip(a.len() as int) =~= b);
}

/// Concatenation is associative.
proof fn lemma_seq_assoc(a: Seq<u8>, b: Seq<u8>, c: Seq<u8>)
    ensures
        a + b + c == a + (b + c),
{
    assert(a + b + c =~= a + (b + c));
}

/// The canonical parameters document: the provenance header, then one
/// `key = value` line per field, fixed-point fields rendered with six
/// fraction digits and the altitude in whole metres.
pub open spec fn params_doc_bytes(p: LaunchParameter) -> Seq<u8> {
    header_full() + key_use_gravity() + (if p.use_gravity {
        lit_true_nl()
    } else {
        lit_false_nl()
    }) + key_start_velocity() + fixed_bytes(p.start_velocity as int) + seq![0x0Au8]
        + key_distance_to_target() + fixed_bytes(p.distance_to_target as int) + seq![0x0Au8]
        + key_target_speed() + fixed_bytes(p.target_speed as int) + seq![0x0Au8] + key_altitude()
        + dec_digits(p.altitude as nat) + seq![0x0Au8]
}

/// Renders the canonical parameters document.
pub fn render_params(p: &LaunchParameter) -> (r: Vec<u8>)
    ensures
        r@ == params_doc_bytes(*p),
{
    let mut out = header_full_bytes();
    let mut part = key_use_gravity_bytes();
    out.append(&mut part);
    let mut part = if p.use_gravity {
        lit_true_nl_bytes()
    } else {
        lit_false_nl_bytes()
    };
    out.append(&mut part);
    let mut part = key_start_velocity_bytes();
    out.append(&mut part);
    let mut part = render_fixed(p.start_velocity);
    out.append(&mut part);
    out.push(0x0A);
    let mut part = key_distance_to_target_bytes();
    out.append(&mut part);
    let mut part = render_fixed(p.distance_to_target);
    out.append(&mut part);
    out.push(0x0A);
    let mut part = key_target_speed_bytes();
    out.append(&mut part);
    let mut part = render_fixed(p.target_speed);
    out.append(&mut part);
    out.push(0x0A);
    let mut part = key_altitude_bytes();
    out.append(&mut part);
    push_dec(p.altitude as u64, &mut out);
    out.push(0x0A);
    proof {
        assert(out@ =~= params_doc_bytes(*p));
    }
    out
}

/// One `key = value` line holding a fixed-point number: the value and
/// the rest of the document after the newline, if the line is well
/// formed.
pub open spec fn parse_numeric_line(s: Seq<u8>, key: Seq<u8>) -> Option<(int, Seq<u8>)> {
    let o = strip_prefix(s, key);
    if o is None {
        None
    } else {
        let k = find_byte(o->0, 0x0A);
        let v = parse_fixed_spec(o->0.take(k));
        if k == o->0.len() || !(v is Some && in_i64(v->0)) {
            None
        } else {
            Some((v->0, o->0.skip(k + 1)))
        }
    }
}

/// The closing altitude line: a digits-only value that must end the
/// document.
pub open spec fn parse_altitude_tail(s: Seq<u8>) -> Option<int> {
    let o = strip_prefix(s, key_altitude());
    if o is None {
        None
    } else {
        let k = find_byte(o->0, 0x0A);
        let v = o->0.take(k);
        if k == o->0.len() || !(v.len() > 0 && all_digits(v) && digits_val(v) <= u32::MAX) {
            None
        } else if o->0.skip(k + 1).len() != 0 {
            None
        } else {
            Some(digits_val(v) as int)
        }
    }
}

/// The parameters document is always a small text: a few hundred
/// bytes at most, well below any archive size threshold.
pub proof fn lemma_params_doc_len(p: LaunchParameter)
    ensures
        params_doc_bytes(p).len() <= 220,
{
    crate::numeric::lemma_fixed_bytes_len(p.start_velocity as int);
    crate::numeric::lemma_fixed_bytes_len(p.distance_to_target as int);
    crate::numeric::lemma_fixed_bytes_len(p.target_speed as int);
    assert(crate::numeric::pow10(0) == 1);
    assert(crate::numeric::pow10(1) == 10);
    assert(crate::numeric::pow10(2) == 100);
    assert(crate::numeric::pow10(3) == 1000);
    assert(crate::numeric::pow10(4) == 10000);
    assert(crate::numeric::pow10(5) == 100000);
    assert(crate::numeric::pow10(6) == 1000000);
    assert(crate::numeric::pow10(7) == 10000000);
    assert(crate::numeric::pow10(8) == 100000000);
    assert(crate::numeric::pow10(9) == 1000000000);
    assert(crate::numeric::pow10(10) == 10000000000);
    crate::numeric::lemma_dec_digits_len(p.altitude as nat, 10);
}

/// What a parameters document denotes, if anything: the strict
/// inverse of [`params_doc_bytes`], field by field.
pub open spec fn parse_params_spec(s: Seq<u8>) -> Option<LaunchParameter> {
    let o0 = strip_prefix(s, header_full());
    if o0 is None {
        None
    } else {
        let o1 = strip_prefix(o0->0, key_use_gravity());
        if o1 is None {
            None
        } else {
            let ot = strip_prefix(o1->0, lit_true_nl());
            let of = strip_prefix(o1->0, lit_false_nl());
            if ot is None && of is None {
                None
            } else {
                let use_gravity = ot is Some;
                let s2 = if ot is Some {
                    ot->0
                } else {
                    of->0
                };
                let m3 = parse_numeric_line(s2, key_start_velocity());
                if m3 is None {
                    None
                } else {
                    let (v3, s4) = m3->0;
                    let m5 = parse_numeric_line(s4, key_distance_to_target());
                    if m5 is None {
                        None
                    } else {
                        let (v5, s6) = m5->0;
                        let m7 = parse_numeric_line(s6, key_target_speed());
                        if m7 is None {
                            None
                        } else {
                            let (v7, s8) = m7->0;
                            let m9 = parse_altitude_tail(s8);
                            if m9 is None {
                                None
                            } else {
                                Some(LaunchParameter {
                                    use_gravity,
                                    start_velocity: v3 as i64,
                                    distance_to_target: v5 as i64,
                                    target_speed: v7 as i64,
                                    altitude: m9->0 as u32,
                                })
                            }
                        }
                    }
                }
            }
        }
    }
}

/// Drops a required prefix from a slice, when it is there.
fn strip_prefix_exec<'a>(s: &'a [u8], p: &Vec<u8>) -> (r: Option<&'a [u8]>)
    ensures
        r is Some <==> strip_prefix(s@, p@) is Some,
        r is Some ==> r->0@ == strip_prefix(s@, p@)->0,
{
    if s.len() < p.len() {
        return None;
    }
    let mut k: usize = 0;
    while k < p.len()
        invariant
            0 <= k <= p@.len() <= s@.len(),
            forall|j: int| 0 <= j < k ==> s@[j] == p@[j],
        decreases p@.len() - k,
    {
        if s[k] != p[k] {
            proof {
                assert(s@.take(p@.len() as int)[k as int] != p@[k as int]);
            }
            return None;
        }
        k = k + 1;
    }
    proof {
        assert(s@.take(p@.len() as int) =~= p@);
    }
    Some(slice_subrange(s, p.len(), s.len()))
}

/// Splits a slice at its first newline, when it has one.
fn take_line<'a>(s: &'a [u8]) -> (r: Option<(&'a [u8], &'a [u8])>)
    ensures
        0 <= find_byte(s@, 0x0A) <= s@.len(),
        r is Some <==> find_byte(s@, 0x0A) < s@.len(),
        r is Some ==> ({
            let (line, rest) = r->0;
            line@ == s@.take(find_byte(s@, 0x0A)) && rest@ == s@.skip(find_byte(s@, 0x0A) + 1)
        }),
{
    let n = s.len();
    let mut k: usize = 0;
    while k < n && s[k] != 0x0A
        invariant
            n == s@.len(),
            0 <= k <= n,
            forall|j: int| 0 <= j < k ==> s@[j] != 0x0A,
        decreases n - k,
    {
        k = k + 1;
    }
    if k == n {
        proof {
            lemma_find_byte_none(s@, 0x0A);
        }
        return None;
    }
    proof {
        lemma_find_byte_at(s@, 0x0A, k as int);
    }
    Some((slice_subrange(s, 0, k), slice_subrange(s, k + 1, n)))
}

/// Parses a parameters document, strictly: `Some` exactly on the
/// canonical shape of [`params_doc_bytes`].
#[verifier::rlimit(100)]
pub fn parse_params(s: &[u8]) -> (r: Option<LaunchParameter>)
    ensures
        r == parse_params_spec(s@),
{
    let hdr = header_full_bytes();
    let s0 = match strip_prefix_exec(s, &hdr) {
        Some(x) => x,
        None => {
            return None;
        },
    };
    let key = key_use_gravity_bytes();
    let s1 = match strip_prefix_exec(s0, &key) {
        Some(x) => x,
        None => {
            return None;
        },
    };
    let lit_t = lit_true_nl_bytes();
    let lit_f = lit_false_nl_bytes();
    let (use_gravity, s2): (bool, &[u8]) = match strip_prefix_exec(s1, &lit_t) {
        Some(x) => (true, x),
        None => {
            match strip_prefix_exec(s1, &lit_f) {
                Some(x) => (false, x),
                None => {
                    return None;
                },
            }
        },
    };
    let key = key_start_velocity_bytes();
    let s3 = match strip_prefix_exec(s2, &key) {
        Some(x) => x,
        None => {
            return None;
        },
    };
    let (line3, s4) = match take_line(s3) {
        Some(x) => x,
        None => {
            return None;
        },
    };
    let start_velocity = match parse_fixed(line3) {
        Some(x) => x,
        None => {
            return None;
        },
    };
    let key = key_distance_to_target_bytes();
    let s5 = match strip_prefix_exec(s4, &key) {
        Some(x) => x,
        None => {
            return None;
        },
    };
    let (line5, s6) = match take_line(s5) {
        Some(x) => x,
        None => {
            return None;
        },
    };
    let distance_to_target = match parse_fixed(line5) {
        Some(x) => x,
        None => {
            return None;
        },
    };
    let key = key_target_speed_bytes();
    let s7 = match strip_prefix_exec(s6, &key) {
        Some(x) => x,
        None => {
            return None;
        },
    };
    let (line7, s8) = match take_line(s7) {
        Some(x) => x,
        None => {
            return None;
        },
    };
    let target_speed = match parse_fixed(line7) {
        Some(x) => x,
        None => {
            return None;
        },
    };
    let key = key_altitude_bytes();
    let s9 = match strip_prefix_exec(s8, &key) {
        Some(x) => x,
        None => {
            return None;
        },
    };
    let (line9, rest) = match take_line(s9) {
        Some(x) => x,
        None => {
            return None;
        },
    };
    let altitude = match parse_u32_dec(line9) {
        Some(x) => x,
        None => {
            return None;
        },
    };
    if rest.len() != 0 {
        return None;
    }
    Some(LaunchParameter { use_gravity, start_velocity, distance_to_target, target_speed, altitude })
}

/// Rendering a launch-parameters value and re-parsing the document
/// gives back an equal value: the export round-trips exactly.
#[verifier::rlimit(100)]
#[verifier::spinoff_prover]
pub proof fn lemma_params_doc_roundtrip(p: LaunchParameter)
    ensures
        parse_params_spec(params_doc_bytes(p)) == Some(p),
{
    lemma_doc_nested(p);
    let doc = params_doc_nested(p);
    let boolline = if p.use_gravity {
        lit_true_nl()
    } else {
        lit_false_nl()
    };
    let tail10 = dec_digits(p.altitude as nat) + seq![0x0Au8];
    let tail9 = key_altitude() + tail10;
    let tail8 = fixed_bytes(p.target_speed as int) + (seq![0x0Au8] + tail9);
    let tail7 = key_target_speed() + tail8;
    let tail6 = fixed_bytes(p.distance_to_target as int) + (seq![0x0Au8] + tail7);
    let tail5 = key_distance_to_target() + tail6;
    let tail4 = fixed_bytes(p.start_velocity as int) + (seq![0x0Au8] + tail5);
    let tail3 = key_start_velocity() + tail4;
    let tail2 = boolline + tail3;
    let tail1 = key_use_gravity() + tail2;
    assert(doc == header_full() + tail1);
    lemma_strip_concat(header_full(), tail1);
    lemma_strip_concat(key_use_gravity(), tail2);
    lemma_strip_concat(boolline, tail3);
    if !p.use_gravity {
        assert(strip_prefix(tail2, lit_true_nl()) is None) by {
            if strip_prefix(tail2, lit_true_nl()) is Some {
                assert(tail2.take(5)[0] == lit_true_nl()[0]);
                assert(tail2[0] == lit_false_nl()[0]);
                assert(false);
            }
        }
    }
    lemma_parse_numeric_concat(p.start_velocity, key_start_velocity(), tail5);
    lemma_parse_numeric_concat(p.distance_to_target, key_distance_to_target(), tail7);
    lemma_parse_numeric_concat(p.target_speed, key_target_speed(), tail9);
    lemma_parse_altitude_concat(p.altitude);
}

/// A canonical numeric line parses to its value and hands the rest
/// of the document on.
proof fn lemma_parse_numeric_concat(x: i64, key: Seq<u8>, rest: Seq<u8>)
    ensures
        parse_numeric_line(key + (fixed_bytes(x as int) + (seq![0x0Au8] + rest)), key) == Some(
            (x as int, rest),
        ),
{
    let whole = fixed_bytes(x as int) + (seq![0x0Au8] + rest);
    lemma_strip_concat(key, whole);
    lemma_numeric_line(x, whole, rest);
}

/// The canonical altitude line closes the document with its value.
proof fn lemma_parse_altitude_concat(alt: u32)
    ensures
        parse_altitude_tail(key_altitude() + (dec_digits(alt as nat) + seq![0x0Au8])) == Some(
            alt as int,
        ),
{
    let tail = dec_digits(alt as nat) + seq![0x0Au8];
    lemma_strip_concat(key_altitude(), tail);
    let d = dec_digits(alt as nat);
    lemma_dec_digits_val(alt as nat);
    assert forall|k: int| 0 <= k < d.len() implies tail[k] != 0x0A by {
        assert(tail[k] == d[k]);
        assert(is_digit(d[k]));
    }
    assert(tail[d.len() as int] == 0x0A);
    lemma_find_byte_at(tail, 0x0A, d.len() as int);
    assert(tail.take(d.len() as int) =~= d);
    assert(tail.skip(d.len() as int + 1) =~= Seq::<u8>::empty());
}

/// The parameters document with its concatenations grouped the way
/// the parser consumes them.
spec fn params_doc_nested(p: LaunchParameter) -> Seq<u8> {
    header_full() + (key_use_gravity() + ((if p.use_gravity {
        lit_true_nl()
    } else {
        lit_false_nl()
    }) + (key_start_velocity() + (fixed_bytes(p.start_velocity as int) + (seq![0x0Au8]
        + (key_distance_to_target() + (fixed_bytes(p.distance_to_target as int) + (seq![0x0Au8]
        + (key_target_speed() + (fixed_bytes(p.target_speed as int) + (seq![0x0Au8]
        + (key_altitude() + (dec_digits(p.altitude as nat) + seq![0x0Au8])))))))))))))
}

/// The flat document equals its parser-shaped regrouping.
#[verifier::rlimit(100)]
proof fn lemma_doc_nested(p: LaunchParameter)
    ensures
        params_doc_bytes(p) == params_doc_nested(p),
{
    let doc = params_doc_bytes(p);
    let boolline = if p.use_gravity {
        lit_true_nl()
    } else {
        lit_false_nl()
    };
    let seg1 = header_full();
    let seg2 = key_use_gravity();
    let seg3 = boolline;
    let seg4 = key_start_velocity();
    let seg5 = fixed_bytes(p.start_velocity as int);
    let seg6 = seq![0x0Au8];
    let seg7 = key_distance_to_target();
    let seg8 = fixed_bytes(p.distance_to_target as int);
    let seg9 = seq![0x0Au8];
    let seg10 = key_target_speed();
    let seg11 = fixed_bytes(p.target_speed as int);
    let seg12 = seq![0x0Au8];
    let seg13 = key_altitude();
    let seg14 = dec_digits(p.altitude as nat);
    let seg15 = seq![0x0Au8];
    let tail10 = seg14 + seg15;
    let tail9 = seg13 + tail10;
    let tail8 = seg11 + (seg12 + tail9);
    let tail7 = seg10 + tail8;
    let tail6 = seg8 + (seg9 + tail7);
    let tail5 = seg7 + tail6;
    let tail4 = seg5 + (seg6 + tail5);
    let tail3 = seg4 + tail4;
    let tail2 = seg3 + tail3;
    let tail1 = seg2 + tail2;
    let lp1 = seg1;
    let lp2 = lp1 + seg2;
    let lp3 = lp2 + seg3;
    let lp4 = lp3 + seg4;
    let lp5 = lp4 + seg5;
    let lp6 = lp5 + seg6;
    let lp7 = lp6 + seg7;
    let lp8 = lp7 + seg8;
    let lp9 = lp8 + seg9;
    let lp10 = lp9 + seg10;
    let lp11 = lp10 + seg11;
    let lp12 = lp11 + seg12;
    let lp13 = lp12 + seg13;
    let lp14 = lp13 + seg14;
    assert(doc == lp14 + seg15);
    lemma_seq_assoc(lp13, seg14, seg15);
    assert(doc == lp13 + tail10);
    lemma_seq_assoc(lp12, seg13, tail10);
    assert(doc == lp12 + tail9);
    lemma_seq_assoc(lp11, seg12, tail9);
    lemma_seq_assoc(lp10, seg11, seg12 + tail9);
    assert(doc == lp10 + tail8);
    lemma_seq_assoc(lp9, seg10, tail8);
    assert(doc == lp9 + tail7);
    lemma_seq_assoc(lp8, seg9, tail7);
    lemma_seq_assoc(lp7, seg8, seg9 + tail7);
    assert(doc == lp7 + tail6);
    lemma_seq_assoc(lp6, seg7, tail6);
    assert(doc == lp6 + tail5);
    lemma_seq_assoc(lp5, seg6, tail5);
    lemma_seq_assoc(lp4, seg5, seg6 + tail5);
    assert(doc == lp4 + tail4);
    lemma_seq_assoc(lp3, seg4, tail4);
    assert(doc == lp3 + tail3);
    lemma_seq_assoc(lp2, seg3, tail3);
    assert(doc == lp2 + tail2);
    lemma_seq_assoc(lp1, seg2, tail2);
    assert(doc == seg1 + tail1);
    assert(params_doc_nested(p) == seg1 + tail1);
}

/// A rendered fixed-point line parses back to its value and hands the
/// scan on to the rest of the document.
proof fn lemma_numeric_line(x: i64, whole: Seq<u8>, rest: Seq<u8>)
    requires
        whole == fixed_bytes(x as int) + (seq![0x0Au8] + rest),
    ensures
        find_byte(whole, 0x0A) == fixed_bytes(x as int).len(),
        find_byte(whole, 0x0A) < whole.len(),
        whole.take(find_byte(whole, 0x0A)) == fixed_bytes(x as int),
        whole.skip(find_byte(whole, 0x0A) + 1) == rest,
        parse_fixed_spec(whole.take(find_byte(whole, 0x0A))) == Some(x as int),
        in_i64(x as int),
{
    let fb = fixed_bytes(x as int);
    lemma_fixed_bytes_num(x as int);
    assert forall|k: int| 0 <= k < fb.len() implies whole[k] != 0x0A by {
        assert(whole[k] == fb[k]);
        assert(is_num_byte(fb[k]));
    }
    assert(whole[fb.len() as int] == (seq![0x0Au8] + rest)[0]);
    lemma_find_byte_at(whole, 0x0A, fb.len() as int);
    assert(whole.take(fb.len() as int) =~= fb);
    assert(whole.skip(fb.len() as int + 1) =~= rest);
    lemma_parse_render_roundtrip(x);
}

} // verus!
