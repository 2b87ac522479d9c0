//! Writing steps back as text.
//!
//! The writer is the reader's inverse: a step becomes `{`, each property as
//! `keyword value` followed by one space, and `}`.  A string value is brace
//! quoted whenever it holds no closing brace; otherwise it is written bare,
//! which a well-formed value makes safe.  The round-trip laws at the end state
//! that reading what was written gives the written step back, and that every
//! step the reader produces is well formed, so that any successfully parsed
//! step survives the trip.

use vstd::prelude::*;

use crate::number::Number;
use crate::number::sp_number_text;
use crate::number::sp_digits_of;
use crate::number::number_text;
use crate::number::push_digits;
use crate::parser::Prop;
use crate::parser::PropV;
use crate::parser::Step;
use crate::parser::TransitionType;
use crate::parser::PumpType;
use crate::parser::SensorKind;
use crate::parser::ExitKind;
use crate::parser::is_ws;
use crate::parser::sp_bool;
use crate::parser::sp_string;
use crate::parser::sp_transition;
use crate::parser::sp_sensor;
use crate::parser::sp_pump;
use crate::parser::sp_exit_kind;
use crate::parser::sp_property;
use crate::parser::sp_props;
use crate::parser::sp_step;
use crate::parser::sp_steps;
use crate::parser::token_end;
use crate::parser::ws_end;
use crate::parser::close_pos;
use crate::parser::lemma_token_end_is;
use crate::parser::lemma_token_end_bounds;
use crate::parser::lemma_ws_end_is;
use crate::parser::lemma_ws_end_bounds;
use crate::parser::lemma_close_pos_is;
use crate::parser::lemma_close_pos_bounds;
use crate::number::is_digit;
use crate::number::lemma_digits_of_props;
use crate::number::lemma_number_text_at;
use crate::number::lemma_uint16_text_at;
use crate::parser::steps_view;
use crate::parser::lit_fast;
use crate::parser::lit_smooth;
use crate::parser::lit_coffee;
use crate::parser::lit_water;
use crate::parser::lit_flow;
use crate::parser::lit_pressure;
use crate::parser::lit_pressure_under;
use crate::parser::lit_pressure_over;
use crate::parser::lit_flow_under;
use crate::parser::lit_flow_over;
use crate::parser::lit_exit_if;
use crate::parser::lit_volume;
use crate::parser::lit_max_flow_or_pressure_range;
use crate::parser::lit_transition;
use crate::parser::lit_exit_flow_under;
use crate::parser::lit_temperature;
use crate::parser::lit_name;
use crate::parser::lit_sensor;
use crate::parser::lit_pump;
use crate::parser::lit_exit_type;
use crate::parser::lit_exit_flow_over;
use crate::parser::lit_exit_pressure_over;
use crate::parser::lit_max_flow_or_pressure;
use crate::parser::lit_exit_pressure_under;
use crate::parser::lit_seconds;
use crate::parser::lit_fast_x;
use crate::parser::lit_smooth_x;
use crate::parser::lit_coffee_x;
use crate::parser::lit_water_x;
use crate::parser::lit_flow_x;
use crate::parser::lit_pressure_x;
use crate::parser::lit_pressure_under_x;
use crate::parser::lit_pressure_over_x;
use crate::parser::lit_flow_under_x;
use crate::parser::lit_flow_over_x;
use crate::parser::lit_exit_if_x;
use crate::parser::lit_volume_x;
use crate::parser::lit_max_flow_or_pressure_range_x;
use crate::parser::lit_transition_x;
use crate::parser::lit_exit_flow_under_x;
use crate::parser::lit_temperature_x;
use crate::parser::lit_name_x;
use crate::parser::lit_sensor_x;
use crate::parser::lit_pump_x;
use crate::parser::lit_exit_type_x;
use crate::parser::lit_exit_flow_over_x;
use crate::parser::lit_exit_pressure_over_x;
use crate::parser::lit_max_flow_or_pressure_x;
use crate::parser::lit_exit_pressure_under_x;
use crate::parser::lit_seconds_x;

verus! {

/// No closing brace anywhere in `v`: the value can be brace quoted.
pub open spec fn no_close(v: Seq<u8>) -> bool {
    forall|k: int| 0 <= k < v.len() ==> v[k] != 125
}

/// No blank anywhere in `v`.
pub open spec fn no_ws(v: Seq<u8>) -> bool {
    forall|k: int| 0 <= k < v.len() ==> !is_ws(v[k])
}

/// A string value the writer can reproduce: either brace-quotable, or fit to
/// stand bare (not empty, no blanks, not opening with a brace).
pub open spec fn wf_string(v: Seq<u8>) -> bool {
    no_close(v) || (v.len() > 0 && v[0] != 123 && no_ws(v))
}

/// A property the writer can reproduce.
pub open spec fn wf_prop(p: PropV) -> bool {
    match p {
        PropV::Name(v) => wf_string(v),
        PropV::Unknown(k, v) => false,
        _ => true,
    }
}

/// A step the writer can reproduce: every property is.
pub open spec fn wf_step(ps: Seq<PropV>) -> bool {
    forall|k: int| 0 <= k < ps.len() ==> wf_prop(#[trigger] ps[k])
}

/// The text of a string value: brace quoted when possible, bare otherwise.
pub open spec fn sp_ser_string(v: Seq<u8>) -> Seq<u8> {
    if no_close(v) {
        seq![123u8] + v + seq![125u8]
    } else {
        v
    }
}

/// The text of a boolean value.
pub open spec fn sp_ser_bool(b: bool) -> Seq<u8> {
    if b {
        seq![49u8]
    } else {
        seq![48u8]
    }
}

/// The text of a transition kind.
pub open spec fn sp_ser_transition(t: TransitionType) -> Seq<u8> {
    match t {
        TransitionType::Fast => lit_fast(),
        TransitionType::Smooth => lit_smooth(),
    }
}

/// The text of a sensor kind.
pub open spec fn sp_ser_sensor(k: SensorKind) -> Seq<u8> {
    match k {
        SensorKind::Coffee => lit_coffee(),
        SensorKind::Water => lit_water(),
    }
}

/// The text of a pump kind.
pub open spec fn sp_ser_pump(k: PumpType) -> Seq<u8> {
    match k {
        PumpType::Flow => lit_flow(),
        PumpType::Pressure => lit_pressure(),
    }
}

/// The text of an exit kind.
pub open spec fn sp_ser_exit_kind(k: ExitKind) -> Seq<u8> {
    match k {
        ExitKind::PressureUnder => lit_pressure_under(),
        ExitKind::PressureOver => lit_pressure_over(),
        ExitKind::FlowUnder => lit_flow_under(),
        ExitKind::FlowOver => lit_flow_over(),
    }
}

/// The text of one property: its keyword, one space, its value.
pub open spec fn sp_ser_prop(p: PropV) -> Seq<u8> {
    match p {
        PropV::ExitIf(b) => lit_exit_if() + seq![32u8] + sp_ser_bool(b),
        PropV::Flow(n) => lit_flow() + seq![32u8] + sp_number_text(n),
        PropV::Volume(v) => lit_volume() + seq![32u8] + sp_digits_of(v as nat),
        PropV::MaxFlowOrPressureRange(n) => lit_max_flow_or_pressure_range() + seq![32u8]
            + sp_number_text(n),
        PropV::Transition(t) => lit_transition() + seq![32u8] + sp_ser_transition(t),
        PropV::ExitFlowUnder(n) => lit_exit_flow_under() + seq![32u8] + sp_number_text(n),
        PropV::Temperature(n) => lit_temperature() + seq![32u8] + sp_number_text(n),
        PropV::Name(v) => lit_name() + seq![32u8] + sp_ser_string(v),
        PropV::Pressure(n) => lit_pressure() + seq![32u8] + sp_number_text(n),
        PropV::Sensor(k) => lit_sensor() + seq![32u8] + sp_ser_sensor(k),
        PropV::Pump(k) => lit_pump() + seq![32u8] + sp_ser_pump(k),
        PropV::ExitType(k) => lit_exit_type() + seq![32u8] + sp_ser_exit_kind(k),
        PropV::ExitFlowOver(n) => lit_exit_flow_over() + seq![32u8] + sp_number_text(n),
        PropV::ExitPressureOver(n) => lit_exit_pressure_over() + seq![32u8] + sp_number_text(n),
        PropV::MaxFlowOrPressure(n) => lit_max_flow_or_pressure() + seq![32u8] + sp_number_text(n),
        PropV::ExitPressureUnder(n) => lit_exit_pressure_under() + seq![32u8] + sp_number_text(n),
        PropV::Seconds(n) => lit_seconds() + seq![32u8] + sp_number_text(n),
        PropV::Unknown(k, v) => k + seq![32u8] + sp_ser_string(v),
    }
}

/// The text of a step body: each property followed by one space.
pub open spec fn sp_ser_props(ps: Seq<PropV>) -> Seq<u8>
    decreases ps.len(),
{
    if ps.len() == 0 {
        seq![]
    } else {
        sp_ser_prop(ps[0]) + seq![32u8] + sp_ser_props(ps.drop_first())
    }
}

/// The text of a step: its body between braces.
pub open spec fn sp_ser_step(ps: Seq<PropV>) -> Seq<u8> {
    seq![123u8] + sp_ser_props(ps) + seq![125u8]
}

/// The text of a profile: its steps separated by single newlines.
pub open spec fn sp_ser_profile(v: Seq<Seq<PropV>>) -> Seq<u8>
    decreases v.len(),
{
    if v.len() == 0 {
        seq![]
    } else if v.len() == 1 {
        sp_ser_step(v[0])
    } else {
        sp_ser_step(v[0]) + seq![10u8] + sp_ser_profile(v.drop_first())
    }
}

/// Whether `v` holds no closing brace.
pub fn bytes_no_close(v: &Vec<u8>) -> (r: bool)
    ensures
        r == no_close(v@),
{
    let n = v.len();
    let mut k: usize = 0;
    while k < n
        invariant
            n == v@.len(),
            k <= n,
            forall|t: int| 0 <= t < k ==> v@[t] != 125,
        decreases n - k,
    {
        if v[k] == 125 {
            return false;
        }
        k = k + 1;
    }
    true
}

/// Whether `v` holds no blank.
pub fn bytes_no_ws(v: &Vec<u8>) -> (r: bool)
    ensures
        r == no_ws(v@),
{
    let n = v.len();
    let mut k: usize = 0;
    while k < n
        invariant
            n == v@.len(),
            k <= n,
            forall|t: int| 0 <= t < k ==> !is_ws(v@[t]),
        decreases n - k,
    {
        let c = v[k];
        if c == 32 || c == 9 || c == 10 || c == 13 {
            return false;
        }
        k = k + 1;
    }
    true
}

/// Whether the writer can reproduce this property.
pub fn prop_is_wf(p: &Prop) -> (r: bool)
    ensures
        r == wf_prop(p@),
{
    match p {
        Prop::Name(v) => {
            if bytes_no_close(v) {
                true
            } else {
                v.len() > 0 && v[0] != 123 && bytes_no_ws(v)
            }
        },
        Prop::Unknown(k, v) => false,
        _ => true,
    }
}

/// Whether the writer can reproduce this step.
pub fn step_is_wf(st: &Step) -> (r: bool)
    ensures
        r == wf_step(st@),
{
    let n = st.0.len();
    let mut k: usize = 0;
    while k < n
        invariant
            n == st.0@.len(),
            k <= n,
            forall|t: int| 0 <= t < k ==> wf_prop(st@[t]),
        decreases n - k,
    {
        if !prop_is_wf(&st.0[k]) {
            proof {
                assert(st@[k as int] == st.0@[k as int]@);
            }
            return false;
        }
        k = k + 1;
    }
    proof {
        assert(st@.len() == n);
    }
    true
}

/// Append every byte of `v` to `out`.
fn push_bytes(v: &Vec<u8>, out: &mut Vec<u8>)
    ensures
        final(out)@ == old(out)@ + v@,
{
    let n = v.len();
    let mut k: usize = 0;
    while k < n
        invariant
            n == v@.len(),
            k <= n,
            out@ == old(out)@ + v@.subrange(0, k as int),
        decreases n - k,
    {
        out.push(v[k]);
        proof {
            assert(old(out)@ + v@.subrange(0, k + 1int) =~= (old(out)@ + v@.subrange(0, k as int)).push(v@[k as int]));
        }
        k = k + 1;
    }
    proof {
        assert(v@.subrange(0, n as int) =~= v@);
    }
}

/// Append the text of a string value to `out`.
fn push_string(v: &Vec<u8>, out: &mut Vec<u8>)
    ensures
        final(out)@ == old(out)@ + sp_ser_string(v@),
{
    if bytes_no_close(v) {
        out.push(123);
        push_bytes(v, out);
        out.push(125);
        proof {
            assert(out@ =~= old(out)@ + sp_ser_string(v@));
        }
    } else {
        push_bytes(v, out);
    }
}

/// Append the text of one property to `out`.
pub fn push_prop(p: &Prop, out: &mut Vec<u8>)
    ensures
        final(out)@ == old(out)@ + sp_ser_prop(p@),
{
    match p {
        Prop::ExitIf(b) => {
            let lit = lit_exit_if_x();
            push_bytes(&lit, out);
            out.push(32);
            out.push(if *b { 49 } else { 48 });
        },
        Prop::Flow(n) => {
            let lit = lit_flow_x();
            push_bytes(&lit, out);
            out.push(32);
            let t = number_text(*n);
            push_bytes(&t, out);
        },
        Prop::Volume(v) => {
            let lit = lit_volume_x();
            push_bytes(&lit, out);
            out.push(32);
            push_digits(*v as u64, out);
        },
        Prop::MaxFlowOrPressureRange(n) => {
            let lit = lit_max_flow_or_pressure_range_x();
            push_bytes(&lit, out);
            out.push(32);
            let t = number_text(*n);
            push_bytes(&t, out);
        },
        Prop::Transition(t) => {
            let lit = lit_transition_x();
            push_bytes(&lit, out);
            out.push(32);
            match t {
                TransitionType::Fast => {
                    let v = lit_fast_x();
                    push_bytes(&v, out);
                },
                TransitionType::Smooth => {
                    let v = lit_smooth_x();
                    push_bytes(&v, out);
                },
            }
        },
        Prop::ExitFlowUnder(n) => {
            let lit = lit_exit_flow_under_x();
            push_bytes(&lit, out);
            out.push(32);
            let t = number_text(*n);
            push_bytes(&t, out);
        },
        Prop::Temperature(n) => {
            let lit = lit_temperature_x();
            push_bytes(&lit, out);
            out.push(32);
            let t = number_text(*n);
            push_bytes(&t, out);
        },
        Prop::Name(v) => {
            let lit = lit_name_x();
            push_bytes(&lit, out);
            out.push(32);
            push_string(v, out);
        },
        Prop::Pressure(n) => {
            let lit = lit_pressure_x();
            push_bytes(&lit, out);
            out.push(32);
            let t = number_text(*n);
            push_bytes(&t, out);
        },
        Prop::Sensor(k) => {
            let lit = lit_sensor_x();
            push_bytes(&lit, out);
            out.push(32);
            match k {
                SensorKind::Coffee => {
                    let v = lit_coffee_x();
                    push_bytes(&v, out);
                },
                SensorKind::Water => {
                    let v = lit_water_x();
                    push_bytes(&v, out);
                },
            }
        },
        Prop::Pump(k) => {
            let lit = lit_pump_x();
            push_bytes(&lit, out);
            out.push(32);
            match k {
                PumpType::Flow => {
                    let v = lit_flow_x();
                    push_bytes(&v, out);
                },
                PumpType::Pressure => {
                    let v = lit_pressure_x();
                    push_bytes(&v, out);
                },
            }
        },
        Prop::ExitType(k) => {
            let lit = lit_exit_type_x();
            push_bytes(&lit, out);
            out.push(32);
            match k {
                ExitKind::PressureUnder => {
                    let v = lit_pressure_under_x();
                    push_bytes(&v, out);
                },
                ExitKind::PressureOver => {
                    let v = lit_pressure_over_x();
                    push_bytes(&v, out);
                },
                ExitKind::FlowUnder => {
                    let v = lit_flow_under_x();
                    push_bytes(&v, out);
                },
                ExitKind::FlowOver => {
                    let v = lit_flow_over_x();
                    push_bytes(&v, out);
                },
            }
        },
        Prop::ExitFlowOver(n) => {
            let lit = lit_exit_flow_over_x();
            push_bytes(&lit, out);
            out.push(32);
            let t = number_text(*n);
            push_bytes(&t, out);
        },
        Prop::ExitPressureOver(n) => {
            let lit = lit_exit_pressure_over_x();
            push_bytes(&lit, out);
            out.push(32);
            let t = number_text(*n);
            push_bytes(&t, out);
        },
        Prop::MaxFlowOrPressure(n) => {
            let lit = lit_max_flow_or_pressure_x();
            push_bytes(&lit, out);
            out.push(32);
            let t = number_text(*n);
            push_bytes(&t, out);
        },
        Prop::ExitPressureUnder(n) => {
            let lit = lit_exit_pressure_under_x();
            push_bytes(&lit, out);
            out.push(32);
            let t = number_text(*n);
            push_bytes(&t, out);
        },
        Prop::Seconds(n) => {
            let lit = lit_seconds_x();
            push_bytes(&lit, out);
            out.push(32);
            let t = number_text(*n);
            push_bytes(&t, out);
        },
        Prop::Unknown(k, v) => {
            push_bytes(k, out);
            out.push(32);
            push_string(v, out);
        },
    }
    proof {
        assert(out@ =~= old(out)@ + sp_ser_prop(p@));
    }
}

/// Writing one more property extends the body text by that property and a
/// space.
pub proof fn lemma_ser_props_snoc(ps: Seq<PropV>, p: PropV)
    ensures
        sp_ser_props(ps.push(p)) == sp_ser_props(ps) + sp_ser_prop(p) + seq![32u8],
    decreases ps.len(),
{
    if ps.len() == 0 {
        assert(ps.push(p)[0] == p);
        assert(ps.push(p).drop_first() =~= Seq::<PropV>::empty());
        assert(sp_ser_props(ps.push(p).drop_first()) == Seq::<u8>::empty());
        assert(sp_ser_props(ps) == Seq::<u8>::empty());
        assert(sp_ser_props(ps.push(p)) =~= sp_ser_props(ps) + sp_ser_prop(p) + seq![32u8]);
    } else {
        assert(ps.push(p).drop_first() =~= ps.drop_first().push(p));
        assert(ps.push(p)[0] == ps[0]);
        lemma_ser_props_snoc(ps.drop_first(), p);
        assert(sp_ser_props(ps.push(p)) =~= sp_ser_props(ps) + sp_ser_prop(p) + seq![32u8]);
    }
}

/// Writing one more step extends the profile text by a newline and that step.
pub proof fn lemma_ser_profile_snoc(v: Seq<Seq<PropV>>, st: Seq<PropV>)
    ensures
        v.len() == 0 ==> sp_ser_profile(v.push(st)) == sp_ser_step(st),
        v.len() > 0 ==> sp_ser_profile(v.push(st)) == sp_ser_profile(v) + seq![10u8]
            + sp_ser_step(st),
    decreases v.len(),
{
    if v.len() == 0 {
        assert(v.push(st)[0] == st);
    } else {
        assert(v.push(st).drop_first() =~= v.drop_first().push(st));
        assert(v.push(st)[0] == v[0]);
        lemma_ser_profile_snoc(v.drop_first(), st);
        if v.len() == 1 {
            assert(sp_ser_profile(v.push(st)) =~= sp_ser_profile(v) + seq![10u8] + sp_ser_step(
                st,
            ));
        } else {
            assert(sp_ser_profile(v.push(st)) =~= sp_ser_profile(v) + seq![10u8] + sp_ser_step(
                st,
            ));
        }
    }
}

/// Write a step as text.
pub fn serialize_step(st: &Step) -> (out: Vec<u8>)
    ensures
        out@ == sp_ser_step(st@),
{
    let mut out: Vec<u8> = Vec::new();
    out.push(123);
    let n = st.0.len();
    let mut k: usize = 0;
    while k < n
        invariant
            n == st.0@.len(),
            k <= n,
            out@ == seq![123u8] + sp_ser_props(st@.take(k as int)),
        decreases n - k,
    {
        proof {
            assert(st@.take(k + 1int) =~= st@.take(k as int).push(st@[k as int]));
            lemma_ser_props_snoc(st@.take(k as int), st@[k as int]);
            assert(st@[k as int] == st.0@[k as int]@);
        }
        push_prop(&st.0[k], &mut out);
        out.push(32);
        proof {
            assert(out@ =~= seq![123u8] + sp_ser_props(st@.take(k + 1int)));
        }
        k = k + 1;
    }
    out.push(125);
    proof {
        assert(st@.take(n as int) =~= st@);
        assert(out@ =~= sp_ser_step(st@));
    }
    out
}

/// Write a profile as text.
pub fn serialize_profile(steps: &Vec<Step>) -> (out: Vec<u8>)
    ensures
        out@ == sp_ser_profile(steps_view(steps@)),
{
    let mut out: Vec<u8> = Vec::new();
    let n = steps.len();
    let mut k: usize = 0;
    while k < n
        invariant
            n == steps@.len(),
            k <= n,
            out@ == sp_ser_profile(steps_view(steps@).take(k as int)),
        decreases n - k,
    {
        proof {
            let sv = steps_view(steps@);
            assert(sv.take(k + 1int) =~= sv.take(k as int).push(sv[k as int]));
            lemma_ser_profile_snoc(sv.take(k as int), sv[k as int]);
            assert(sv[k as int] == steps@[k as int]@);
        }
        if k > 0 {
            out.push(10);
        }
        let t = serialize_step(&steps[k]);
        push_bytes(&t, &mut out);
        proof {
            assert(out@ =~= sp_ser_profile(steps_view(steps@).take(k + 1int)));
        }
        k = k + 1;
    }
    proof {
        assert(steps_view(steps@).take(n as int) =~= steps_view(steps@));
    }
    out
}


/// Within `s`, bytes of `t` standing at `i` read back by absolute index.
proof fn lemma_at(s: Seq<u8>, i: int, t: Seq<u8>)
    requires
        0 <= i,
        i + t.len() <= s.len(),
        s.subrange(i, i + t.len()) == t,
    ensures
        forall|k: int| i <= k < i + t.len() ==> #[trigger] s[k] == t[k - i],
{
    assert forall|k: int| i <= k < i + t.len() implies #[trigger] s[k] == t[k - i] by {
        assert(s.subrange(i, i + t.len())[k - i] == s[k]);
    }
}

/// Reading the text of a boolean gives it back.
pub proof fn lemma_bool_text_at(s: Seq<u8>, i: int, b: bool)
    requires
        0 <= i,
        i + 1 <= s.len(),
        s.subrange(i, i + 1) == sp_ser_bool(b),
    ensures
        sp_bool(s, i) == Some((i + 1, b)),
{
    assert(s.subrange(i, i + 1)[0] == s[i]);
}

/// Reading the text of a string value gives it back, when a blank follows.
pub proof fn lemma_string_text_at(s: Seq<u8>, i: int, v: Seq<u8>)
    requires
        wf_string(v),
        0 <= i,
        i + sp_ser_string(v).len() < s.len(),
        s.subrange(i, i + sp_ser_string(v).len()) == sp_ser_string(v),
        is_ws(s[i + sp_ser_string(v).len()]),
    ensures
        sp_string(s, i) == Some((i + sp_ser_string(v).len(), v)),
{
    let t = sp_ser_string(v);
    lemma_at(s, i, t);
    if no_close(v) {
        assert(s[i] == 123);
        assert forall|k: int| i + 1 <= k < i + 1 + v.len() implies s[k] != 125 by {
            assert(s[k] == t[k - i]);
            assert(t[k - i] == v[k - i - 1]);
        }
        assert(s[i + 1 + v.len()] == t[1int + v.len()]);
        assert(t[1int + v.len()] == 125);
        lemma_close_pos_is(s, i + 1, i + 1 + v.len());
        assert forall|m: int| 0 <= m < v.len() implies s.subrange(i + 1, i + 1 + v.len())[m]
            == v[m] by {
            assert(s.subrange(i + 1, i + 1 + v.len())[m] == s[i + 1 + m]);
            assert(s[i + 1 + m] == t[1int + m]);
        }
        assert(s.subrange(i + 1, i + 1 + v.len()) =~= v);
    } else {
        assert(v.len() > 0 && v[0] != 123 && no_ws(v));
        assert(t =~= v);
        assert(s[i] == v[0]);
        assert forall|k: int| i <= k < i + v.len() implies !is_ws(s[k]) by {
            assert(s[k] == t[k - i]);
        }
        lemma_token_end_is(s, i, i + v.len());
        assert forall|m: int| 0 <= m < v.len() implies s.subrange(i, i + v.len())[m] == v[m] by {
            assert(s.subrange(i, i + v.len())[m] == s[i + m]);
        }
        assert(s.subrange(i, i + v.len()) =~= v);
    }
}

/// Reading the text of a transition kind gives it back.
pub proof fn lemma_transition_text_at(s: Seq<u8>, i: int, t: TransitionType)
    requires
        0 <= i,
        i + sp_ser_transition(t).len() <= s.len(),
        s.subrange(i, i + sp_ser_transition(t).len()) == sp_ser_transition(t),
    ensures
        sp_transition(s, i) == Some((i + sp_ser_transition(t).len(), t)),
{
}

/// Reading the text of a sensor kind gives it back.
pub proof fn lemma_sensor_text_at(s: Seq<u8>, i: int, t: SensorKind)
    requires
        0 <= i,
        i + sp_ser_sensor(t).len() <= s.len(),
        s.subrange(i, i + sp_ser_sensor(t).len()) == sp_ser_sensor(t),
    ensures
        sp_sensor(s, i) == Some((i + sp_ser_sensor(t).len(), t)),
{
}

/// Reading the text of a pump kind gives it back.
pub proof fn lemma_pump_text_at(s: Seq<u8>, i: int, t: PumpType)
    requires
        0 <= i,
        i + sp_ser_pump(t).len() <= s.len(),
        s.subrange(i, i + sp_ser_pump(t).len()) == sp_ser_pump(t),
    ensures
        sp_pump(s, i) == Some((i + sp_ser_pump(t).len(), t)),
{
}

/// Reading the text of an exit kind gives it back.
pub proof fn lemma_exit_kind_text_at(s: Seq<u8>, i: int, t: ExitKind)
    requires
        0 <= i,
        i + sp_ser_exit_kind(t).len() <= s.len(),
        s.subrange(i, i + sp_ser_exit_kind(t).len()) == sp_ser_exit_kind(t),
    ensures
        sp_exit_kind(s, i) == Some((i + sp_ser_exit_kind(t).len(), t)),
{
}

/// Reading the text of one well-formed property, with a blank after it, gives
/// the property back.
#[verifier::rlimit(50)]
#[verifier::spinoff_prover]
proof fn lemma_prop_text_at_exitif(s: Seq<u8>, i: int, b: bool)
    requires
        0 <= i,
        i + sp_ser_prop(PropV::ExitIf(b)).len() < s.len(),
        s.subrange(i, i + sp_ser_prop(PropV::ExitIf(b)).len()) == sp_ser_prop(PropV::ExitIf(b)),
        is_ws(s[i + sp_ser_prop(PropV::ExitIf(b)).len()]),
    ensures
        sp_property(s, i) == Some((i + sp_ser_prop(PropV::ExitIf(b)).len(), PropV::ExitIf(b))),
{
    let p = PropV::ExitIf(b);
    let t = sp_ser_prop(p);
    lemma_at(s, i, t);
            let kw = lit_exit_if();
            let vt = sp_ser_bool(b);
            assert forall|k: int| i <= k < i + kw.len() implies !is_ws(s[k]) by {
                assert(s[k] == t[k - i]);
                assert(t[k - i] == kw[k - i]);
            }
            assert(s[i + kw.len()] == t[kw.len() as int]);
            assert(t[kw.len() as int] == 32);
            lemma_token_end_is(s, i, i + kw.len());
            let j = i + kw.len();
            assert(s[j + 1] == t[kw.len() + 1int]);
            assert(t[kw.len() + 1int] == vt[0]);
            assert(!is_ws(vt[0]));
            lemma_ws_end_is(s, j, j + 1);
            assert forall|m: int| 0 <= m < kw.len() implies s.subrange(i, j)[m] == kw[m] by {
                assert(s.subrange(i, j)[m] == s[i + m]);
                assert(s[i + m] == t[m]);
            }
            assert(s.subrange(i, j) =~= kw);
            assert forall|m: int| 0 <= m < vt.len() implies s.subrange(j + 1, j + 1 + vt.len())[m]
                == vt[m] by {
                assert(s.subrange(j + 1, j + 1 + vt.len())[m] == s[j + 1 + m]);
                assert(s[j + 1 + m] == t[kw.len() + 1int + m]);
                assert(t[kw.len() + 1int + m] == vt[m]);
            }
            assert(s.subrange(j + 1, j + 1 + vt.len()) =~= vt);
            lemma_bool_text_at(s, j + 1, b);
            assert(sp_property(s, i) == Some((i + t.len(), p)));
}

#[verifier::rlimit(50)]
#[verifier::spinoff_prover]
proof fn lemma_prop_text_at_flow(s: Seq<u8>, i: int, n: Number)
    requires
        0 <= i,
        i + sp_ser_prop(PropV::Flow(n)).len() < s.len(),
        s.subrange(i, i + sp_ser_prop(PropV::Flow(n)).len()) == sp_ser_prop(PropV::Flow(n)),
        is_ws(s[i + sp_ser_prop(PropV::Flow(n)).len()]),
    ensures
        sp_property(s, i) == Some((i + sp_ser_prop(PropV::Flow(n)).len(), PropV::Flow(n))),
{
    let p = PropV::Flow(n);
    let t = sp_ser_prop(p);
    lemma_at(s, i, t);
            let kw = lit_flow();
            let vt = sp_number_text(n);
            assert forall|k: int| i <= k < i + kw.len() implies !is_ws(s[k]) by {
                assert(s[k] == t[k - i]);
                assert(t[k - i] == kw[k - i]);
            }
            assert(s[i + kw.len()] == t[kw.len() as int]);
            assert(t[kw.len() as int] == 32);
            lemma_token_end_is(s, i, i + kw.len());
            let j = i + kw.len();
            assert(s[j + 1] == t[kw.len() + 1int]);
            assert(t[kw.len() + 1int] == vt[0]);
            lemma_digits_of_props(n.micros as nat / 1_000_000);
            assert(vt[0] == sp_digits_of(n.micros as nat / 1_000_000)[0]);
            assert(!is_ws(vt[0]));
            lemma_ws_end_is(s, j, j + 1);
            assert forall|m: int| 0 <= m < kw.len() implies s.subrange(i, j)[m] == kw[m] by {
                assert(s.subrange(i, j)[m] == s[i + m]);
                assert(s[i + m] == t[m]);
            }
            assert(s.subrange(i, j) =~= kw);
            assert forall|m: int| 0 <= m < vt.len() implies s.subrange(j + 1, j + 1 + vt.len())[m]
                == vt[m] by {
                assert(s.subrange(j + 1, j + 1 + vt.len())[m] == s[j + 1 + m]);
                assert(s[j + 1 + m] == t[kw.len() + 1int + m]);
                assert(t[kw.len() + 1int + m] == vt[m]);
            }
            assert(s.subrange(j + 1, j + 1 + vt.len()) =~= vt);
            assert(!is_digit(s[j + 1 + vt.len()]) && s[j + 1 + vt.len()] != 46);
            lemma_number_text_at(s, j + 1, n);
            assert(sp_property(s, i) == Some((i + t.len(), p)));
}

#[verifier::rlimit(50)]
#[verifier::spinoff_prover]
proof fn lemma_prop_text_at_volume(s: Seq<u8>, i: int, v: u16)
    requires
        0 <= i,
        i + sp_ser_prop(PropV::Volume(v)).len() < s.len(),
        s.subrange(i, i + sp_ser_prop(PropV::Volume(v)).len()) == sp_ser_prop(PropV::Volume(v)),
        is_ws(s[i + sp_ser_prop(PropV::Volume(v)).len()]),
    ensures
        sp_property(s, i) == Some((i + sp_ser_prop(PropV::Volume(v)).len(), PropV::Volume(v))),
{
    let p = PropV::Volume(v);
    let t = sp_ser_prop(p);
    lemma_at(s, i, t);
            let kw = lit_volume();
            let vt = sp_digits_of(v as nat);
            assert forall|k: int| i <= k < i + kw.len() implies !is_ws(s[k]) by {
                assert(s[k] == t[k - i]);
                assert(t[k - i] == kw[k - i]);
            }
            assert(s[i + kw.len()] == t[kw.len() as int]);
            assert(t[kw.len() as int] == 32);
            lemma_token_end_is(s, i, i + kw.len());
            let j = i + kw.len();
            assert(s[j + 1] == t[kw.len() + 1int]);
            assert(t[kw.len() + 1int] == vt[0]);
            lemma_digits_of_props(v as nat);
            assert(!is_ws(vt[0]));
            lemma_ws_end_is(s, j, j + 1);
            assert forall|m: int| 0 <= m < kw.len() implies s.subrange(i, j)[m] == kw[m] by {
                assert(s.subrange(i, j)[m] == s[i + m]);
                assert(s[i + m] == t[m]);
            }
            assert(s.subrange(i, j) =~= kw);
            assert forall|m: int| 0 <= m < vt.len() implies s.subrange(j + 1, j + 1 + vt.len())[m]
                == vt[m] by {
                assert(s.subrange(j + 1, j + 1 + vt.len())[m] == s[j + 1 + m]);
                assert(s[j + 1 + m] == t[kw.len() + 1int + m]);
                assert(t[kw.len() + 1int + m] == vt[m]);
            }
            assert(s.subrange(j + 1, j + 1 + vt.len()) =~= vt);
            assert(!is_digit(s[j + 1 + vt.len()]));
            lemma_uint16_text_at(s, j + 1, v);
            assert(sp_property(s, i) == Some((i + t.len(), p)));
}

#[verifier::rlimit(50)]
#[verifier::spinoff_prover]
proof fn lemma_prop_text_at_maxfloworpressurerange(s: Seq<u8>, i: int, n: Number)
    requires
        0 <= i,
        i + sp_ser_prop(PropV::MaxFlowOrPressureRange(n)).len() < s.len(),
        s.subrange(i, i + sp_ser_prop(PropV::MaxFlowOrPressureRange(n)).len()) == sp_ser_prop(PropV::MaxFlowOrPressureRange(n)),
        is_ws(s[i + sp_ser_prop(PropV::MaxFlowOrPressureRange(n)).len()]),
    ensures
        sp_property(s, i) == Some((i + sp_ser_prop(PropV::MaxFlowOrPressureRange(n)).len(), PropV::MaxFlowOrPressureRange(n))),
{
    let p = PropV::MaxFlowOrPressureRange(n);
    let t = sp_ser_prop(p);
    lemma_at(s, i, t);
            let kw = lit_max_flow_or_pressure_range();
            let vt = sp_number_text(n);
            assert forall|k: int| i <= k < i + kw.len() implies !is_ws(s[k]) by {
                assert(s[k] == t[k - i]);
                assert(t[k - i] == kw[k - i]);
            }
            assert(s[i + kw.len()] == t[kw.len() as int]);
            assert(t[kw.len() as int] == 32);
            lemma_token_end_is(s, i, i + kw.len());
            let j = i + kw.len();
            assert(s[j + 1] == t[kw.len() + 1int]);
            assert(t[kw.len() + 1int] == vt[0]);
            lemma_digits_of_props(n.micros as nat / 1_000_000);
            assert(vt[0] == sp_digits_of(n.micros as nat / 1_000_000)[0]);
            assert(!is_ws(vt[0]));
            lemma_ws_end_is(s, j, j + 1);
            assert forall|m: int| 0 <= m < kw.len() implies s.subrange(i, j)[m] == kw[m] by {
                assert(s.subrange(i, j)[m] == s[i + m]);
                assert(s[i + m] == t[m]);
            }
            assert(s.subrange(i, j) =~= kw);
            assert forall|m: int| 0 <= m < vt.len() implies s.subrange(j + 1, j + 1 + vt.len())[m]
                == vt[m] by {
                assert(s.subrange(j + 1, j + 1 + vt.len())[m] == s[j + 1 + m]);
                assert(s[j + 1 + m] == t[kw.len() + 1int + m]);
                assert(t[kw.len() + 1int + m] == vt[m]);
            }
            assert(s.subrange(j + 1, j + 1 + vt.len()) =~= vt);
            assert(!is_digit(s[j + 1 + vt.len()]) && s[j + 1 + vt.len()] != 46);
            lemma_number_text_at(s, j + 1, n);
            assert(sp_property(s, i) == Some((i + t.len(), p)));
}

#[verifier::rlimit(50)]
#[verifier::spinoff_prover]
proof fn lemma_prop_text_at_transition(s: Seq<u8>, i: int, tk: TransitionType)
    requires
        0 <= i,
        i + sp_ser_prop(PropV::Transition(tk)).len() < s.len(),
        s.subrange(i, i + sp_ser_prop(PropV::Transition(tk)).len()) == sp_ser_prop(PropV::Transition(tk)),
        is_ws(s[i + sp_ser_prop(PropV::Transition(tk)).len()]),
    ensures
        sp_property(s, i) == Some((i + sp_ser_prop(PropV::Transition(tk)).len(), PropV::Transition(tk))),
{
    let p = PropV::Transition(tk);
    let t = sp_ser_prop(p);
    lemma_at(s, i, t);
            let kw = lit_transition();
            let vt = sp_ser_transition(tk);
            assert forall|k: int| i <= k < i + kw.len() implies !is_ws(s[k]) by {
                assert(s[k] == t[k - i]);
                assert(t[k - i] == kw[k - i]);
            }
            assert(s[i + kw.len()] == t[kw.len() as int]);
            assert(t[kw.len() as int] == 32);
            lemma_token_end_is(s, i, i + kw.len());
            let j = i + kw.len();
            assert(s[j + 1] == t[kw.len() + 1int]);
            assert(t[kw.len() + 1int] == vt[0]);
            assert(!is_ws(vt[0]));
            lemma_ws_end_is(s, j, j + 1);
            assert forall|m: int| 0 <= m < kw.len() implies s.subrange(i, j)[m] == kw[m] by {
                assert(s.subrange(i, j)[m] == s[i + m]);
                assert(s[i + m] == t[m]);
            }
            assert(s.subrange(i, j) =~= kw);
            assert forall|m: int| 0 <= m < vt.len() implies s.subrange(j + 1, j + 1 + vt.len())[m]
                == vt[m] by {
                assert(s.subrange(j + 1, j + 1 + vt.len())[m] == s[j + 1 + m]);
                assert(s[j + 1 + m] == t[kw.len() + 1int + m]);
                assert(t[kw.len() + 1int + m] == vt[m]);
            }
            assert(s.subrange(j + 1, j + 1 + vt.len()) =~= vt);
            lemma_transition_text_at(s, j + 1, tk);
            assert(sp_property(s, i) == Some((i + t.len(), p)));
}

#[verifier::rlimit(50)]
#[verifier::spinoff_prover]
proof fn lemma_prop_text_at_exitflowunder(s: Seq<u8>, i: int, n: Number)
    requires
        0 <= i,
        i + sp_ser_prop(PropV::ExitFlowUnder(n)).len() < s.len(),
        s.subrange(i, i + sp_ser_prop(PropV::ExitFlowUnder(n)).len()) == sp_ser_prop(PropV::ExitFlowUnder(n)),
        is_ws(s[i + sp_ser_prop(PropV::ExitFlowUnder(n)).len()]),
    ensures
        sp_property(s, i) == Some((i + sp_ser_prop(PropV::ExitFlowUnder(n)).len(), PropV::ExitFlowUnder(n))),
{
    let p = PropV::ExitFlowUnder(n);
    let t = sp_ser_prop(p);
    lemma_at(s, i, t);
            let kw = lit_exit_flow_under();
            let vt = sp_number_text(n);
            assert forall|k: int| i <= k < i + kw.len() implies !is_ws(s[k]) by {
                assert(s[k] == t[k - i]);
                assert(t[k - i] == kw[k - i]);
            }
            assert(s[i + kw.len()] == t[kw.len() as int]);
            assert(t[kw.len() as int] == 32);
            lemma_token_end_is(s, i, i + kw.len());
            let j = i + kw.len();
            assert(s[j + 1] == t[kw.len() + 1int]);
            assert(t[kw.len() + 1int] == vt[0]);
            lemma_digits_of_props(n.micros as nat / 1_000_000);
            assert(vt[0] == sp_digits_of(n.micros as nat / 1_000_000)[0]);
            assert(!is_ws(vt[0]));
            lemma_ws_end_is(s, j, j + 1);
            assert forall|m: int| 0 <= m < kw.len() implies s.subrange(i, j)[m] == kw[m] by {
                assert(s.subrange(i, j)[m] == s[i + m]);
                assert(s[i + m] == t[m]);
            }
            assert(s.subrange(i, j) =~= kw);
            assert forall|m: int| 0 <= m < vt.len() implies s.subrange(j + 1, j + 1 + vt.len())[m]
                == vt[m] by {
                assert(s.subrange(j + 1, j + 1 + vt.len())[m] == s[j + 1 + m]);
                assert(s[j + 1 + m] == t[kw.len() + 1int + m]);
                assert(t[kw.len() + 1int + m] == vt[m]);
            }
            assert(s.subrange(j + 1, j + 1 + vt.len()) =~= vt);
            assert(!is_digit(s[j + 1 + vt.len()]) && s[j + 1 + vt.len()] != 46);
            lemma_number_text_at(s, j + 1, n);
            assert(sp_property(s, i) == Some((i + t.len(), p)));
}

#[verifier::rlimit(50)]
#[verifier::spinoff_prover]
proof fn lemma_prop_text_at_temperature(s: Seq<u8>, i: int, n: Number)
    requires
        0 <= i,
        i + sp_ser_prop(PropV::Temperature(n)).len() < s.len(),
        s.subrange(i, i + sp_ser_prop(PropV::Temperature(n)).len()) == sp_ser_prop(PropV::Temperature(n)),
        is_ws(s[i + sp_ser_prop(PropV::Temperature(n)).len()]),
    ensures
        sp_property(s, i) == Some((i + sp_ser_prop(PropV::Temperature(n)).len(), PropV::Temperature(n))),
{
    let p = PropV::Temperature(n);
    let t = sp_ser_prop(p);
    lemma_at(s, i, t);
            let kw = lit_temperature();
            let vt = sp_number_text(n);
            assert forall|k: int| i <= k < i + kw.len() implies !is_ws(s[k]) by {
                assert(s[k] == t[k - i]);
                assert(t[k - i] == kw[k - i]);
            }
            assert(s[i + kw.len()] == t[kw.len() as int]);
            assert(t[kw.len() as int] == 32);
            lemma_token_end_is(s, i, i + kw.len());
            let j = i + kw.len();
            assert(s[j + 1] == t[kw.len() + 1int]);
            assert(t[kw.len() + 1int] == vt[0]);
            lemma_digits_of_props(n.micros as nat / 1_000_000);
            assert(vt[0] == sp_digits_of(n.micros as nat / 1_000_000)[0]);
            assert(!is_ws(vt[0]));
            lemma_ws_end_is(s, j, j + 1);
            assert forall|m: int| 0 <= m < kw.len() implies s.subrange(i, j)[m] == kw[m] by {
                assert(s.subrange(i, j)[m] == s[i + m]);
                assert(s[i + m] == t[m]);
            }
            assert(s.subrange(i, j) =~= kw);
            assert forall|m: int| 0 <= m < vt.len() implies s.subrange(j + 1, j + 1 + vt.len())[m]
                == vt[m] by {
                assert(s.subrange(j + 1, j + 1 + vt.len())[m] == s[j + 1 + m]);
                assert(s[j + 1 + m] == t[kw.len() + 1int + m]);
                assert(t[kw.len() + 1int + m] == vt[m]);
            }
            assert(s.subrange(j + 1, j + 1 + vt.len()) =~= vt);
            assert(!is_digit(s[j + 1 + vt.len()]) && s[j + 1 + vt.len()] != 46);
            lemma_number_text_at(s, j + 1, n);
            assert(sp_property(s, i) == Some((i + t.len(), p)));
}

#[verifier::rlimit(50)]
#[verifier::spinoff_prover]
proof fn lemma_prop_text_at_name(s: Seq<u8>, i: int, v: Seq<u8>)
    requires
        wf_prop(PropV::Name(v)),
        0 <= i,
        i + sp_ser_prop(PropV::Name(v)).len() < s.len(),
        s.subrange(i, i + sp_ser_prop(PropV::Name(v)).len()) == sp_ser_prop(PropV::Name(v)),
        is_ws(s[i + sp_ser_prop(PropV::Name(v)).len()]),
    ensures
        sp_property(s, i) == Some((i + sp_ser_prop(PropV::Name(v)).len(), PropV::Name(v))),
{
    let p = PropV::Name(v);
    let t = sp_ser_prop(p);
    lemma_at(s, i, t);
            let kw = lit_name();
            let vt = sp_ser_string(v);
            assert forall|k: int| i <= k < i + kw.len() implies !is_ws(s[k]) by {
                assert(s[k] == t[k - i]);
                assert(t[k - i] == kw[k - i]);
            }
            assert(s[i + kw.len()] == t[kw.len() as int]);
            assert(t[kw.len() as int] == 32);
            lemma_token_end_is(s, i, i + kw.len());
            let j = i + kw.len();
            assert(s[j + 1] == t[kw.len() + 1int]);
            assert(t[kw.len() + 1int] == vt[0]);
            if no_close(v) {
                assert(vt[0] == 123);
            } else {
                assert(vt =~= v);
            }
            assert(!is_ws(vt[0]));
            lemma_ws_end_is(s, j, j + 1);
            assert forall|m: int| 0 <= m < kw.len() implies s.subrange(i, j)[m] == kw[m] by {
                assert(s.subrange(i, j)[m] == s[i + m]);
                assert(s[i + m] == t[m]);
            }
            assert(s.subrange(i, j) =~= kw);
            assert forall|m: int| 0 <= m < vt.len() implies s.subrange(j + 1, j + 1 + vt.len())[m]
                == vt[m] by {
                assert(s.subrange(j + 1, j + 1 + vt.len())[m] == s[j + 1 + m]);
                assert(s[j + 1 + m] == t[kw.len() + 1int + m]);
                assert(t[kw.len() + 1int + m] == vt[m]);
            }
            assert(s.subrange(j + 1, j + 1 + vt.len()) =~= vt);
            lemma_string_text_at(s, j + 1, v);
            assert(sp_property(s, i) == Some((i + t.len(), p)));
}

#[verifier::rlimit(50)]
#[verifier::spinoff_prover]
proof fn lemma_prop_text_at_pressure(s: Seq<u8>, i: int, n: Number)
    requires
        0 <= i,
        i + sp_ser_prop(PropV::Pressure(n)).len() < s.len(),
        s.subrange(i, i + sp_ser_prop(PropV::Pressure(n)).len()) == sp_ser_prop(PropV::Pressure(n)),
        is_ws(s[i + sp_ser_prop(PropV::Pressure(n)).len()]),
    ensures
        sp_property(s, i) == Some((i + sp_ser_prop(PropV::Pressure(n)).len(), PropV::Pressure(n))),
{
    let p = PropV::Pressure(n);
    let t = sp_ser_prop(p);
    lemma_at(s, i, t);
            let kw = lit_pressure();
            let vt = sp_number_text(n);
            assert forall|k: int| i <= k < i + kw.len() implies !is_ws(s[k]) by {
                assert(s[k] == t[k - i]);
                assert(t[k - i] == kw[k - i]);
            }
            assert(s[i + kw.len()] == t[kw.len() as int]);
            assert(t[kw.len() as int] == 32);
            lemma_token_end_is(s, i, i + kw.len());
            let j = i + kw.len();
            assert(s[j + 1] == t[kw.len() + 1int]);
            assert(t[kw.len() + 1int] == vt[0]);
            lemma_digits_of_props(n.micros as nat / 1_000_000);
            assert(vt[0] == sp_digits_of(n.micros as nat / 1_000_000)[0]);
            assert(!is_ws(vt[0]));
            lemma_ws_end_is(s, j, j + 1);
            assert forall|m: int| 0 <= m < kw.len() implies s.subrange(i, j)[m] == kw[m] by {
                assert(s.subrange(i, j)[m] == s[i + m]);
                assert(s[i + m] == t[m]);
            }
            assert(s.subrange(i, j) =~= kw);
            assert forall|m: int| 0 <= m < vt.len() implies s.subrange(j + 1, j + 1 + vt.len())[m]
                == vt[m] by {
                assert(s.subrange(j + 1, j + 1 + vt.len())[m] == s[j + 1 + m]);
                assert(s[j + 1 + m] == t[kw.len() + 1int + m]);
                assert(t[kw.len() + 1int + m] == vt[m]);
            }
            assert(s.subrange(j + 1, j + 1 + vt.len()) =~= vt);
            assert(!is_digit(s[j + 1 + vt.len()]) && s[j + 1 + vt.len()] != 46);
            lemma_number_text_at(s, j + 1, n);
            assert(sp_property(s, i) == Some((i + t.len(), p)));
}

#[verifier::rlimit(50)]
#[verifier::spinoff_prover]
proof fn lemma_prop_text_at_sensor(s: Seq<u8>, i: int, sk: SensorKind)
    requires
        0 <= i,
        i + sp_ser_prop(PropV::Sensor(sk)).len() < s.len(),
        s.subrange(i, i + sp_ser_prop(PropV::Sensor(sk)).len()) == sp_ser_prop(PropV::Sensor(sk)),
        is_ws(s[i + sp_ser_prop(PropV::Sensor(sk)).len()]),
    ensures
        sp_property(s, i) == Some((i + sp_ser_prop(PropV::Sensor(sk)).len(), PropV::Sensor(sk))),
{
    let p = PropV::Sensor(sk);
    let t = sp_ser_prop(p);
    lemma_at(s, i, t);
            let kw = lit_sensor();
            let vt = sp_ser_sensor(sk);
            assert forall|k: int| i <= k < i + kw.len() implies !is_ws(s[k]) by {
                assert(s[k] == t[k - i]);
                assert(t[k - i] == kw[k - i]);
            }
            assert(s[i + kw.len()] == t[kw.len() as int]);
            assert(t[kw.len() as int] == 32);
            lemma_token_end_is(s, i, i + kw.len());
            let j = i + kw.len();
            assert(s[j + 1] == t[kw.len() + 1int]);
            assert(t[kw.len() + 1int] == vt[0]);
            assert(!is_ws(vt[0]));
            lemma_ws_end_is(s, j, j + 1);
            assert forall|m: int| 0 <= m < kw.len() implies s.subrange(i, j)[m] == kw[m] by {
                assert(s.subrange(i, j)[m] == s[i + m]);
                assert(s[i + m] == t[m]);
            }
            assert(s.subrange(i, j) =~= kw);
            assert forall|m: int| 0 <= m < vt.len() implies s.subrange(j + 1, j + 1 + vt.len())[m]
                == vt[m] by {
                assert(s.subrange(j + 1, j + 1 + vt.len())[m] == s[j + 1 + m]);
                assert(s[j + 1 + m] == t[kw.len() + 1int + m]);
                assert(t[kw.len() + 1int + m] == vt[m]);
            }
            assert(s.subrange(j + 1, j + 1 + vt.len()) =~= vt);
            lemma_sensor_text_at(s, j + 1, sk);
            assert(sp_property(s, i) == Some((i + t.len(), p)));
}

#[verifier::rlimit(50)]
#[verifier::spinoff_prover]
proof fn lemma_prop_text_at_pump(s: Seq<u8>, i: int, pk: PumpType)
    requires
        0 <= i,
        i + sp_ser_prop(PropV::Pump(pk)).len() < s.len(),
        s.subrange(i, i + sp_ser_prop(PropV::Pump(pk)).len()) == sp_ser_prop(PropV::Pump(pk)),
        is_ws(s[i + sp_ser_prop(PropV::Pump(pk)).len()]),
    ensures
        sp_property(s, i) == Some((i + sp_ser_prop(PropV::Pump(pk)).len(), PropV::Pump(pk))),
{
    let p = PropV::Pump(pk);
    let t = sp_ser_prop(p);
    lemma_at(s, i, t);
            let kw = lit_pump();
            let vt = sp_ser_pump(pk);
            assert forall|k: int| i <= k < i + kw.len() implies !is_ws(s[k]) by {
                assert(s[k] == t[k - i]);
                assert(t[k - i] == kw[k - i]);
            }
            assert(s[i + kw.len()] == t[kw.len() as int]);
            assert(t[kw.len() as int] == 32);
            lemma_token_end_is(s, i, i + kw.len());
            let j = i + kw.len();
            assert(s[j + 1] == t[kw.len() + 1int]);
            assert(t[kw.len() + 1int] == vt[0]);
            assert(!is_ws(vt[0]));
            lemma_ws_end_is(s, j, j + 1);
            assert forall|m: int| 0 <= m < kw.len() implies s.subrange(i, j)[m] == kw[m] by {
                assert(s.subrange(i, j)[m] == s[i + m]);
                assert(s[i + m] == t[m]);
            }
            assert(s.subrange(i, j) =~= kw);
            assert forall|m: int| 0 <= m < vt.len() implies s.subrange(j + 1, j + 1 + vt.len())[m]
                == vt[m] by {
                assert(s.subrange(j + 1, j + 1 + vt.len())[m] == s[j + 1 + m]);
                assert(s[j + 1 + m] == t[kw.len() + 1int + m]);
                assert(t[kw.len() + 1int + m] == vt[m]);
            }
            assert(s.subrange(j + 1, j + 1 + vt.len()) =~= vt);
            lemma_pump_text_at(s, j + 1, pk);
            assert(sp_property(s, i) == Some((i + t.len(), p)));
}

#[verifier::rlimit(50)]
#[verifier::spinoff_prover]
proof fn lemma_prop_text_at_exittype(s: Seq<u8>, i: int, ek: ExitKind)
    requires
        0 <= i,
        i + sp_ser_prop(PropV::ExitType(ek)).len() < s.len(),
        s.subrange(i, i + sp_ser_prop(PropV::ExitType(ek)).len()) == sp_ser_prop(PropV::ExitType(ek)),
        is_ws(s[i + sp_ser_prop(PropV::ExitType(ek)).len()]),
    ensures
        sp_property(s, i) == Some((i + sp_ser_prop(PropV::ExitType(ek)).len(), PropV::ExitType(ek))),
{
    let p = PropV::ExitType(ek);
    let t = sp_ser_prop(p);
    lemma_at(s, i, t);
            let kw = lit_exit_type();
            let vt = sp_ser_exit_kind(ek);
            assert forall|k: int| i <= k < i + kw.len() implies !is_ws(s[k]) by {
                assert(s[k] == t[k - i]);
                assert(t[k - i] == kw[k - i]);
            }
            assert(s[i + kw.len()] == t[kw.len() as int]);
            assert(t[kw.len() as int] == 32);
            lemma_token_end_is(s, i, i + kw.len());
            let j = i + kw.len();
            assert(s[j + 1] == t[kw.len() + 1int]);
            assert(t[kw.len() + 1int] == vt[0]);
            assert(!is_ws(vt[0]));
            lemma_ws_end_is(s, j, j + 1);
            assert forall|m: int| 0 <= m < kw.len() implies s.subrange(i, j)[m] == kw[m] by {
                assert(s.subrange(i, j)[m] == s[i + m]);
                assert(s[i + m] == t[m]);
            }
            assert(s.subrange(i, j) =~= kw);
            assert forall|m: int| 0 <= m < vt.len() implies s.subrange(j + 1, j + 1 + vt.len())[m]
                == vt[m] by {
                assert(s.subrange(j + 1, j + 1 + vt.len())[m] == s[j + 1 + m]);
                assert(s[j + 1 + m] == t[kw.len() + 1int + m]);
                assert(t[kw.len() + 1int + m] == vt[m]);
            }
            assert(s.subrange(j + 1, j + 1 + vt.len()) =~= vt);
            lemma_exit_kind_text_at(s, j + 1, ek);
            assert(sp_property(s, i) == Some((i + t.len(), p)));
}

#[verifier::rlimit(50)]
#[verifier::spinoff_prover]
proof fn lemma_prop_text_at_exitflowover(s: Seq<u8>, i: int, n: Number)
    requires
        0 <= i,
        i + sp_ser_prop(PropV::ExitFlowOver(n)).len() < s.len(),
        s.subrange(i, i + sp_ser_prop(PropV::ExitFlowOver(n)).len()) == sp_ser_prop(PropV::ExitFlowOver(n)),
        is_ws(s[i + sp_ser_prop(PropV::ExitFlowOver(n)).len()]),
    ensures
        sp_property(s, i) == Some((i + sp_ser_prop(PropV::ExitFlowOver(n)).len(), PropV::ExitFlowOver(n))),
{
    let p = PropV::ExitFlowOver(n);
    let t = sp_ser_prop(p);
    lemma_at(s, i, t);
            let kw = lit_exit_flow_over();
            let vt = sp_number_text(n);
            assert forall|k: int| i <= k < i + kw.len() implies !is_ws(s[k]) by {
                assert(s[k] == t[k - i]);
                assert(t[k - i] == kw[k - i]);
            }
            assert(s[i + kw.len()] == t[kw.len() as int]);
            assert(t[kw.len() as int] == 32);
            lemma_token_end_is(s, i, i + kw.len());
            let j = i + kw.len();
            assert(s[j + 1] == t[kw.len() + 1int]);
            assert(t[kw.len() + 1int] == vt[0]);
            lemma_digits_of_props(n.micros as nat / 1_000_000);
            assert(vt[0] == sp_digits_of(n.micros as nat / 1_000_000)[0]);
            assert(!is_ws(vt[0]));
            lemma_ws_end_is(s, j, j + 1);
            assert forall|m: int| 0 <= m < kw.len() implies s.subrange(i, j)[m] == kw[m] by {
                assert(s.subrange(i, j)[m] == s[i + m]);
                assert(s[i + m] == t[m]);
            }
            assert(s.subrange(i, j) =~= kw);
            assert forall|m: int| 0 <= m < vt.len() implies s.subrange(j + 1, j + 1 + vt.len())[m]
                == vt[m] by {
                assert(s.subrange(j + 1, j + 1 + vt.len())[m] == s[j + 1 + m]);
                assert(s[j + 1 + m] == t[kw.len() + 1int + m]);
                assert(t[kw.len() + 1int + m] == vt[m]);
            }
            assert(s.subrange(j + 1, j + 1 + vt.len()) =~= vt);
            assert(!is_digit(s[j + 1 + vt.len()]) && s[j + 1 + vt.len()] != 46);
            lemma_number_text_at(s, j + 1, n);
            assert(sp_property(s, i) == Some((i + t.len(), p)));
}

#[verifier::rlimit(50)]
#[verifier::spinoff_prover]
proof fn lemma_prop_text_at_exitpressureover(s: Seq<u8>, i: int, n: Number)
    requires
        0 <= i,
        i + sp_ser_prop(PropV::ExitPressureOver(n)).len() < s.len(),
        s.subrange(i, i + sp_ser_prop(PropV::ExitPressureOver(n)).len()) == sp_ser_prop(PropV::ExitPressureOver(n)),
        is_ws(s[i + sp_ser_prop(PropV::ExitPressureOver(n)).len()]),
    ensures
        sp_property(s, i) == Some((i + sp_ser_prop(PropV::ExitPressureOver(n)).len(), PropV::ExitPressureOver(n))),
{
    let p = PropV::ExitPressureOver(n);
    let t = sp_ser_prop(p);
    lemma_at(s, i, t);
            let kw = lit_exit_pressure_over();
            let vt = sp_number_text(n);
            assert forall|k: int| i <= k < i + kw.len() implies !is_ws(s[k]) by {
                assert(s[k] == t[k - i]);
                assert(t[k - i] == kw[k - i]);
            }
            assert(s[i + kw.len()] == t[kw.len() as int]);
            assert(t[kw.len() as int] == 32);
            lemma_token_end_is(s, i, i + kw.len());
            let j = i + kw.len();
            assert(s[j + 1] == t[kw.len() + 1int]);
            assert(t[kw.len() + 1int] == vt[0]);
            lemma_digits_of_props(n.micros as nat / 1_000_000);
            assert(vt[0] == sp_digits_of(n.micros as nat / 1_000_000)[0]);
            assert(!is_ws(vt[0]));
            lemma_ws_end_is(s, j, j + 1);
            assert forall|m: int| 0 <= m < kw.len() implies s.subrange(i, j)[m] == kw[m] by {
                assert(s.subrange(i, j)[m] == s[i + m]);
                assert(s[i + m] == t[m]);
            }
            assert(s.subrange(i, j) =~= kw);
            assert forall|m: int| 0 <= m < vt.len() implies s.subrange(j + 1, j + 1 + vt.len())[m]
                == vt[m] by {
                assert(s.subrange(j + 1, j + 1 + vt.len())[m] == s[j + 1 + m]);
                assert(s[j + 1 + m] == t[kw.len() + 1int + m]);
                assert(t[kw.len() + 1int + m] == vt[m]);
            }
            assert(s.subrange(j + 1, j + 1 + vt.len()) =~= vt);
            assert(!is_digit(s[j + 1 + vt.len()]) && s[j + 1 + vt.len()] != 46);
            lemma_number_text_at(s, j + 1, n);
            assert(sp_property(s, i) == Some((i + t.len(), p)));
}

#[verifier::rlimit(50)]
#[verifier::spinoff_prover]
proof fn lemma_prop_text_at_maxfloworpressure(s: Seq<u8>, i: int, n: Number)
    requires
        0 <= i,
        i + sp_ser_prop(PropV::MaxFlowOrPressure(n)).len() < s.len(),
        s.subrange(i, i + sp_ser_prop(PropV::MaxFlowOrPressure(n)).len()) == sp_ser_prop(PropV::MaxFlowOrPressure(n)),
        is_ws(s[i + sp_ser_prop(PropV::MaxFlowOrPressure(n)).len()]),
    ensures
        sp_property(s, i) == Some((i + sp_ser_prop(PropV::MaxFlowOrPressure(n)).len(), PropV::MaxFlowOrPressure(n))),
{
    let p = PropV::MaxFlowOrPressure(n);
    let t = sp_ser_prop(p);
    lemma_at(s, i, t);
            let kw = lit_max_flow_or_pressure();
            let vt = sp_number_text(n);
            assert forall|k: int| i <= k < i + kw.len() implies !is_ws(s[k]) by {
                assert(s[k] == t[k - i]);
                assert(t[k - i] == kw[k - i]);
            }
            assert(s[i + kw.len()] == t[kw.len() as int]);
            assert(t[kw.len() as int] == 32);
            lemma_token_end_is(s, i, i + kw.len());
            let j = i + kw.len();
            assert(s[j + 1] == t[kw.len() + 1int]);
            assert(t[kw.len() + 1int] == vt[0]);
            lemma_digits_of_props(n.micros as nat / 1_000_000);
            assert(vt[0] == sp_digits_of(n.micros as nat / 1_000_000)[0]);
            assert(!is_ws(vt[0]));
            lemma_ws_end_is(s, j, j + 1);
            assert forall|m: int| 0 <= m < kw.len() implies s.subrange(i, j)[m] == kw[m] by {
                assert(s.subrange(i, j)[m] == s[i + m]);
                assert(s[i + m] == t[m]);
            }
            assert(s.subrange(i, j) =~= kw);
            assert forall|m: int| 0 <= m < vt.len() implies s.subrange(j + 1, j + 1 + vt.len())[m]
                == vt[m] by {
                assert(s.subrange(j + 1, j + 1 + vt.len())[m] == s[j + 1 + m]);
                assert(s[j + 1 + m] == t[kw.len() + 1int + m]);
                assert(t[kw.len() + 1int + m] == vt[m]);
            }
            assert(s.subrange(j + 1, j + 1 + vt.len()) =~= vt);
            assert(!is_digit(s[j + 1 + vt.len()]) && s[j + 1 + vt.len()] != 46);
            lemma_number_text_at(s, j + 1, n);
            assert(sp_property(s, i) == Some((i + t.len(), p)));
}

#[verifier::rlimit(50)]
#[verifier::spinoff_prover]
proof fn lemma_prop_text_at_exitpressureunder(s: Seq<u8>, i: int, n: Number)
    requires
        0 <= i,
        i + sp_ser_prop(PropV::ExitPressureUnder(n)).len() < s.len(),
        s.subrange(i, i + sp_ser_prop(PropV::ExitPressureUnder(n)).len()) == sp_ser_prop(PropV::ExitPressureUnder(n)),
        is_ws(s[i + sp_ser_prop(PropV::ExitPressureUnder(n)).len()]),
    ensures
        sp_property(s, i) == Some((i + sp_ser_prop(PropV::ExitPressureUnder(n)).len(), PropV::ExitPressureUnder(n))),
{
    let p = PropV::ExitPressureUnder(n);
    let t = sp_ser_prop(p);
    lemma_at(s, i, t);
            let kw = lit_exit_pressure_under();
            let vt = sp_number_text(n);
            assert forall|k: int| i <= k < i + kw.len() implies !is_ws(s[k]) by {
                assert(s[k] == t[k - i]);
                assert(t[k - i] == kw[k - i]);
            }
            assert(s[i + kw.len()] == t[kw.len() as int]);
            assert(t[kw.len() as int] == 32);
            lemma_token_end_is(s, i, i + kw.len());
            let j = i + kw.len();
            assert(s[j + 1] == t[kw.len() + 1int]);
            assert(t[kw.len() + 1int] == vt[0]);
            lemma_digits_of_props(n.micros as nat / 1_000_000);
            assert(vt[0] == sp_digits_of(n.micros as nat / 1_000_000)[0]);
            assert(!is_ws(vt[0]));
            lemma_ws_end_is(s, j, j + 1);
            assert forall|m: int| 0 <= m < kw.len() implies s.subrange(i, j)[m] == kw[m] by {
                assert(s.subrange(i, j)[m] == s[i + m]);
                assert(s[i + m] == t[m]);
            }
            assert(s.subrange(i, j) =~= kw);
            assert forall|m: int| 0 <= m < vt.len() implies s.subrange(j + 1, j + 1 + vt.len())[m]
                == vt[m] by {
                assert(s.subrange(j + 1, j + 1 + vt.len())[m] == s[j + 1 + m]);
                assert(s[j + 1 + m] == t[kw.len() + 1int + m]);
                assert(t[kw.len() + 1int + m] == vt[m]);
            }
            assert(s.subrange(j + 1, j + 1 + vt.len()) =~= vt);
            assert(!is_digit(s[j + 1 + vt.len()]) && s[j + 1 + vt.len()] != 46);
            lemma_number_text_at(s, j + 1, n);
            assert(sp_property(s, i) == Some((i + t.len(), p)));
}

#[verifier::rlimit(50)]
#[verifier::spinoff_prover]
proof fn lemma_prop_text_at_seconds(s: Seq<u8>, i: int, n: Number)
    requires
        0 <= i,
        i + sp_ser_prop(PropV::Seconds(n)).len() < s.len(),
        s.subrange(i, i + sp_ser_prop(PropV::Seconds(n)).len()) == sp_ser_prop(PropV::Seconds(n)),
        is_ws(s[i + sp_ser_prop(PropV::Seconds(n)).len()]),
    ensures
        sp_property(s, i) == Some((i + sp_ser_prop(PropV::Seconds(n)).len(), PropV::Seconds(n))),
{
    let p = PropV::Seconds(n);
    let t = sp_ser_prop(p);
    lemma_at(s, i, t);
            let kw = lit_seconds();
            let vt = sp_number_text(n);
            assert forall|k: int| i <= k < i + kw.len() implies !is_ws(s[k]) by {
                assert(s[k] == t[k - i]);
                assert(t[k - i] == kw[k - i]);
            }
            assert(s[i + kw.len()] == t[kw.len() as int]);
            assert(t[kw.len() as int] == 32);
            lemma_token_end_is(s, i, i + kw.len());
            let j = i + kw.len();
            assert(s[j + 1] == t[kw.len() + 1int]);
            assert(t[kw.len() + 1int] == vt[0]);
            lemma_digits_of_props(n.micros as nat / 1_000_000);
            assert(vt[0] == sp_digits_of(n.micros as nat / 1_000_000)[0]);
            assert(!is_ws(vt[0]));
            lemma_ws_end_is(s, j, j + 1);
            assert forall|m: int| 0 <= m < kw.len() implies s.subrange(i, j)[m] == kw[m] by {
                assert(s.subrange(i, j)[m] == s[i + m]);
                assert(s[i + m] == t[m]);
            }
            assert(s.subrange(i, j) =~= kw);
            assert forall|m: int| 0 <= m < vt.len() implies s.subrange(j + 1, j + 1 + vt.len())[m]
                == vt[m] by {
                assert(s.subrange(j + 1, j + 1 + vt.len())[m] == s[j + 1 + m]);
                assert(s[j + 1 + m] == t[kw.len() + 1int + m]);
                assert(t[kw.len() + 1int + m] == vt[m]);
            }
            assert(s.subrange(j + 1, j + 1 + vt.len()) =~= vt);
            assert(!is_digit(s[j + 1 + vt.len()]) && s[j + 1 + vt.len()] != 46);
            lemma_number_text_at(s, j + 1, n);
            assert(sp_property(s, i) == Some((i + t.len(), p)));
}

/// Reading the text of one well-formed property, with a blank after it, gives
/// the property back.
pub proof fn lemma_prop_text_at(s: Seq<u8>, i: int, p: PropV)
    requires
        wf_prop(p),
        0 <= i,
        i + sp_ser_prop(p).len() < s.len(),
        s.subrange(i, i + sp_ser_prop(p).len()) == sp_ser_prop(p),
        is_ws(s[i + sp_ser_prop(p).len()]),
    ensures
        sp_property(s, i) == Some((i + sp_ser_prop(p).len(), p)),
{
    match p {
        PropV::ExitIf(b) => {
            lemma_prop_text_at_exitif(s, i, b);
        },
        PropV::Flow(n) => {
            lemma_prop_text_at_flow(s, i, n);
        },
        PropV::Volume(v) => {
            lemma_prop_text_at_volume(s, i, v);
        },
        PropV::MaxFlowOrPressureRange(n) => {
            lemma_prop_text_at_maxfloworpressurerange(s, i, n);
        },
        PropV::Transition(tk) => {
            lemma_prop_text_at_transition(s, i, tk);
        },
        PropV::ExitFlowUnder(n) => {
            lemma_prop_text_at_exitflowunder(s, i, n);
        },
        PropV::Temperature(n) => {
            lemma_prop_text_at_temperature(s, i, n);
        },
        PropV::Name(v) => {
            lemma_prop_text_at_name(s, i, v);
        },
        PropV::Pressure(n) => {
            lemma_prop_text_at_pressure(s, i, n);
        },
        PropV::Sensor(sk) => {
            lemma_prop_text_at_sensor(s, i, sk);
        },
        PropV::Pump(pk) => {
            lemma_prop_text_at_pump(s, i, pk);
        },
        PropV::ExitType(ek) => {
            lemma_prop_text_at_exittype(s, i, ek);
        },
        PropV::ExitFlowOver(n) => {
            lemma_prop_text_at_exitflowover(s, i, n);
        },
        PropV::ExitPressureOver(n) => {
            lemma_prop_text_at_exitpressureover(s, i, n);
        },
        PropV::MaxFlowOrPressure(n) => {
            lemma_prop_text_at_maxfloworpressure(s, i, n);
        },
        PropV::ExitPressureUnder(n) => {
            lemma_prop_text_at_exitpressureunder(s, i, n);
        },
        PropV::Seconds(n) => {
            lemma_prop_text_at_seconds(s, i, n);
        },
        PropV::Unknown(k, v) => {
            assert(false);
        },
    }
}

/// No property starts at a closing brace.
pub proof fn lemma_property_none_at_close(s: Seq<u8>, q: int)
    requires
        0 <= q < s.len(),
        s[q] == 125,
    ensures
        sp_property(s, q) is None,
{
    lemma_token_end_bounds(s, q);
    let j = token_end(s, q);
    if j != q && j < s.len() {
        let k = ws_end(s, j);
        if k != j {
            let tok = s.subrange(q, j);
            assert(tok[0] == s[q]);
        }
    }
}

/// The first byte of a well-formed property's text: its keyword's first
/// letter, never a blank or a brace.
proof fn lemma_ser_prop_first_byte(p: PropV)
    requires
        wf_prop(p),
    ensures
        sp_ser_prop(p).len() > 0,
        !is_ws(sp_ser_prop(p)[0]),
        sp_ser_prop(p)[0] != 125,
        sp_ser_prop(p)[0] != 123,
{
    match p {
        PropV::ExitIf(_) => {
            assert(sp_ser_prop(p)[0] == lit_exit_if()[0]);
        },
        PropV::Flow(_) => {
            assert(sp_ser_prop(p)[0] == lit_flow()[0]);
        },
        PropV::Volume(_) => {
            assert(sp_ser_prop(p)[0] == lit_volume()[0]);
        },
        PropV::MaxFlowOrPressureRange(_) => {
            assert(sp_ser_prop(p)[0] == lit_max_flow_or_pressure_range()[0]);
        },
        PropV::Transition(_) => {
            assert(sp_ser_prop(p)[0] == lit_transition()[0]);
        },
        PropV::ExitFlowUnder(_) => {
            assert(sp_ser_prop(p)[0] == lit_exit_flow_under()[0]);
        },
        PropV::Temperature(_) => {
            assert(sp_ser_prop(p)[0] == lit_temperature()[0]);
        },
        PropV::Name(_) => {
            assert(sp_ser_prop(p)[0] == lit_name()[0]);
        },
        PropV::Pressure(_) => {
            assert(sp_ser_prop(p)[0] == lit_pressure()[0]);
        },
        PropV::Sensor(_) => {
            assert(sp_ser_prop(p)[0] == lit_sensor()[0]);
        },
        PropV::Pump(_) => {
            assert(sp_ser_prop(p)[0] == lit_pump()[0]);
        },
        PropV::ExitType(_) => {
            assert(sp_ser_prop(p)[0] == lit_exit_type()[0]);
        },
        PropV::ExitFlowOver(_) => {
            assert(sp_ser_prop(p)[0] == lit_exit_flow_over()[0]);
        },
        PropV::ExitPressureOver(_) => {
            assert(sp_ser_prop(p)[0] == lit_exit_pressure_over()[0]);
        },
        PropV::MaxFlowOrPressure(_) => {
            assert(sp_ser_prop(p)[0] == lit_max_flow_or_pressure()[0]);
        },
        PropV::ExitPressureUnder(_) => {
            assert(sp_ser_prop(p)[0] == lit_exit_pressure_under()[0]);
        },
        PropV::Seconds(_) => {
            assert(sp_ser_prop(p)[0] == lit_seconds()[0]);
        },
        PropV::Unknown(k, v) => {
            assert(false);
        },
    }
}


/// Reading the text of a well-formed step body, standing right before its
/// closing brace, gives the properties back.
#[verifier::rlimit(100)]
#[verifier::spinoff_prover]
pub proof fn lemma_props_text_at(s: Seq<u8>, i: int, ps: Seq<PropV>)
    requires
        wf_step(ps),
        0 <= i,
        i + sp_ser_props(ps).len() < s.len(),
        s.subrange(i, i + sp_ser_props(ps).len()) == sp_ser_props(ps),
        s[i + sp_ser_props(ps).len()] == 125,
    ensures
        sp_props(s, i) == (i + sp_ser_props(ps).len() as int, ps),
    decreases ps.len(),
{
    let t = sp_ser_props(ps);
    lemma_at(s, i, t);
    if ps.len() == 0 {
        lemma_property_none_at_close(s, i);
        assert(ps =~= Seq::<PropV>::empty());
    } else {
        let p0 = ps[0];
        assert(wf_prop(p0));
        let pt = sp_ser_prop(p0);
        let rest = ps.drop_first();
        let rt = sp_ser_props(rest);
        assert(wf_step(rest)) by {
            assert(forall|k: int| 0 <= k < rest.len() ==> rest[k] == ps[k + 1]);
        }
        // t is pt, one space, then the rest
        assert(t =~= pt + seq![32u8] + rt);
        assert forall|m: int| 0 <= m < pt.len() implies s.subrange(i, i + pt.len())[m]
            == pt[m] by {
            assert(s.subrange(i, i + pt.len())[m] == s[i + m]);
            assert(s[i + m] == t[m]);
        }
        assert(s.subrange(i, i + pt.len()) =~= pt);
        assert(s[i + pt.len()] == t[pt.len() as int]);
        assert(t[pt.len() as int] == 32);
        lemma_prop_text_at(s, i, p0);
        let j = i + pt.len();
        let k = j + 1;
        if rest.len() == 0 {
            assert(rt =~= Seq::<u8>::empty());
            assert(k == i + t.len());
            assert(s[k] == 125);
        } else {
            assert(s[k] == t[pt.len() + 1int]);
            assert(t[pt.len() + 1int] == rt[0]);
            assert(rt[0] == sp_ser_prop(rest[0])[0]) by {
                assert(rt =~= sp_ser_prop(rest[0]) + seq![32u8] + sp_ser_props(
                    rest.drop_first(),
                ));
            }
            lemma_ser_prop_first_byte(rest[0]);
        }
        lemma_ws_end_is(s, j, k);
        assert forall|m: int| 0 <= m < rt.len() implies s.subrange(k, k + rt.len())[m]
            == rt[m] by {
            assert(s.subrange(k, k + rt.len())[m] == s[k + m]);
            assert(s[k + m] == t[pt.len() + 1int + m]);
            assert(t[pt.len() + 1int + m] == rt[m]);
        }
        assert(s.subrange(k, k + rt.len()) =~= rt);
        assert(s[k + rt.len()] == 125) by {
            assert(k + rt.len() == i + t.len());
        }
        lemma_props_text_at(s, k, rest);
        assert(seq![p0] + rest =~= ps);
        assert(sp_props(s, i) == (i + t.len() as int, ps));
    }
}

/// Reading the text of a well-formed step, wherever it stands, gives the
/// step back; a step's text delimits itself, whatever follows it.
#[verifier::rlimit(100)]
#[verifier::spinoff_prover]
pub proof fn lemma_step_text_at(s: Seq<u8>, i: int, ps: Seq<PropV>)
    requires
        wf_step(ps),
        0 <= i,
        i + sp_ser_step(ps).len() <= s.len(),
        s.subrange(i, i + sp_ser_step(ps).len()) == sp_ser_step(ps),
    ensures
        sp_step(s, i) == Some((i + sp_ser_step(ps).len() as int, ps)),
{
    let t = sp_ser_step(ps);
    let bt = sp_ser_props(ps);
    lemma_at(s, i, t);
    assert(s[i] == t[0]);
    assert(t[0] == 123);
    let q = i + 1 + bt.len();
    assert(s[q] == t[1int + bt.len()]);
    assert(t[1int + bt.len()] == 125);
    if ps.len() == 0 {
        assert(bt =~= Seq::<u8>::empty());
        assert(s[i + 1] == 125);
    } else {
        assert(s[i + 1] == t[1int]);
        assert(t[1int] == bt[0]);
        assert(bt[0] == sp_ser_prop(ps[0])[0]) by {
            assert(bt =~= sp_ser_prop(ps[0]) + seq![32u8] + sp_ser_props(ps.drop_first()));
        }
        lemma_ser_prop_first_byte(ps[0]);
    }
    lemma_ws_end_is(s, i + 1, i + 1);
    assert forall|m: int| 0 <= m < bt.len() implies s.subrange(i + 1, q)[m] == bt[m] by {
        assert(s.subrange(i + 1, q)[m] == s[i + 1 + m]);
        assert(s[i + 1 + m] == t[1int + m]);
        assert(t[1int + m] == bt[m]);
    }
    assert(s.subrange(i + 1, q) =~= bt);
    lemma_props_text_at(s, i + 1, ps);
    lemma_ws_end_is(s, q, q);
    assert(sp_step(s, i) == Some((q + 1, ps)));
    assert(q + 1 == i + t.len());
}

/// Every property the reader produces, the writer can reproduce.
pub proof fn lemma_sp_property_wf(s: Seq<u8>, i: int)
    requires
        0 <= i <= s.len(),
    ensures
        match sp_property(s, i) {
            Some(p) => wf_prop(p.1),
            None => true,
        },
{
    lemma_token_end_bounds(s, i);
    let j = token_end(s, i);
    if j != i && j < s.len() {
        let k = ws_end(s, j);
        lemma_ws_end_bounds(s, j);
        if k != j {
            if k < s.len() && s[k] == 123 {
                lemma_close_pos_bounds(s, k + 1);
                let p = close_pos(s, k + 1);
                if p < s.len() {
                    let body = s.subrange(k + 1, p);
                    assert forall|m: int| 0 <= m < body.len() implies body[m] != 125 by {
                        assert(body[m] == s[k + 1 + m]);
                    }
                    assert(no_close(body));
                }
            } else {
                lemma_token_end_bounds(s, k);
                let j2 = token_end(s, k);
                if j2 != k {
                    let bare = s.subrange(k, j2);
                    assert(bare[0] == s[k]);
                    assert forall|m: int| 0 <= m < bare.len() implies !is_ws(bare[m]) by {
                        assert(bare[m] == s[k + m]);
                    }
                    assert(no_ws(bare));
                    assert(wf_string(bare));
                }
            }
        }
    }
}

/// Every step body the reader produces, the writer can reproduce.
pub proof fn lemma_sp_props_wf(s: Seq<u8>, i: int)
    requires
        0 <= i <= s.len(),
    ensures
        wf_step(sp_props(s, i).1),
    decreases s.len() - i,
{
    lemma_sp_property_wf(s, i);
    crate::parser::lemma_sp_property_consumes(s, i);
    match sp_property(s, i) {
        None => {
            assert(sp_props(s, i).1 =~= Seq::<PropV>::empty());
        },
        Some((j, p)) => {
            let k = ws_end(s, j);
            lemma_ws_end_bounds(s, j);
            if k == j || !(i < k && k <= s.len()) {
                assert(sp_props(s, i).1 =~= seq![p]);
            } else {
                lemma_sp_props_wf(s, k);
                let r = sp_props(s, k);
                assert(sp_props(s, i).1 =~= seq![p] + r.1);
                assert forall|m: int| 0 <= m < (seq![p] + r.1).len() implies wf_prop(
                    #[trigger] (seq![p] + r.1)[m],
                ) by {
                    if m > 0 {
                        assert((seq![p] + r.1)[m] == r.1[m - 1]);
                    }
                }
            }
        },
    }
}

/// Every step the reader produces, the writer can reproduce.
pub proof fn lemma_sp_step_wf(s: Seq<u8>, i: int)
    requires
        0 <= i <= s.len(),
    ensures
        match sp_step(s, i) {
            Some(p) => wf_step(p.1),
            None => true,
        },
{
    if 0 <= i && i < s.len() && s[i] == 123 {
        crate::parser::lemma_ws_end_bounds(s, i + 1);
        lemma_sp_props_wf(s, ws_end(s, i + 1));
    }
}

/// Law: writing any well-formed step and reading the text back yields the
/// step itself, property for property.
pub proof fn lemma_step_round_trip(ps: Seq<PropV>)
    requires
        wf_step(ps),
    ensures
        sp_step(sp_ser_step(ps), 0) == Some((sp_ser_step(ps).len() as int, ps)),
{
    let t = sp_ser_step(ps);
    assert(t.subrange(0, t.len() as int) =~= t);
    lemma_step_text_at(t, 0, ps);
}

/// Law: any single step text the reader accepts decodes to a step that,
/// written out and read again, comes back equal — whatever whitespace stood
/// in the text it was read from.
pub proof fn lemma_parse_write_parse(s: Seq<u8>, i: int, j: int, ps: Seq<PropV>)
    requires
        0 <= i <= s.len(),
        sp_step(s, i) == Some((j, ps)),
    ensures
        wf_step(ps),
        sp_step(sp_ser_step(ps), 0) == Some((sp_ser_step(ps).len() as int, ps)),
{
    lemma_sp_step_wf(s, i);
    lemma_step_round_trip(ps);
}


/// A profile the writer can reproduce: every step is.
pub open spec fn wf_profile(v: Seq<Seq<PropV>>) -> bool {
    forall|k: int| 0 <= k < v.len() ==> wf_step(#[trigger] v[k])
}

/// Skipping blanks first does not change what the profile reader finds.
pub proof fn lemma_sp_steps_ws_skip(s: Seq<u8>, i: int)
    requires
        0 <= i <= s.len(),
    ensures
        sp_steps(s, i) == sp_steps(s, ws_end(s, i)),
{
    let w = ws_end(s, i);
    lemma_ws_end_bounds(s, i);
    assert(ws_end(s, w) == w);
    crate::parser::lemma_sp_step_consumes(s, w);
    match sp_step(s, w) {
        None => {},
        Some((j, st)) => {
            assert(i < j && j <= s.len());
            assert(w < j && j <= s.len());
        },
    }
}

/// Reading the text of a well-formed profile, standing at `i` and reaching
/// the end of the input, gives every step back.
#[verifier::rlimit(100)]
#[verifier::spinoff_prover]
pub proof fn lemma_profile_text_at(s: Seq<u8>, i: int, v: Seq<Seq<PropV>>)
    requires
        wf_profile(v),
        0 <= i,
        i + sp_ser_profile(v).len() == s.len(),
        s.subrange(i, s.len() as int) == sp_ser_profile(v),
    ensures
        sp_steps(s, i) == (s.len() as int, v),
    decreases v.len(),
{
    let t = sp_ser_profile(v);
    lemma_at(s, i, t);
    if v.len() == 0 {
        assert(i == s.len());
        assert(ws_end(s, i) == i);
        assert(sp_steps(s, i).1 =~= v);
    } else {
        let st0 = v[0];
        assert(wf_step(st0));
        let t0 = sp_ser_step(st0);
        assert(t0[0] == 123);
        if v.len() == 1 {
            assert(t =~= t0);
        } else {
            assert(t =~= t0 + seq![10u8] + sp_ser_profile(v.drop_first()));
        }
        assert(s[i] == t[0]);
        assert(t[0] == 123);
        lemma_ws_end_is(s, i, i);
        assert forall|m: int| 0 <= m < t0.len() implies s.subrange(i, i + t0.len())[m]
            == t0[m] by {
            assert(s.subrange(i, i + t0.len())[m] == s[i + m]);
            assert(s[i + m] == t[m]);
        }
        assert(s.subrange(i, i + t0.len()) =~= t0);
        lemma_step_text_at(s, i, st0);
        let j = i + t0.len();
        if v.len() == 1 {
            assert(j == s.len());
            assert(ws_end(s, j) == j);
            assert(sp_step(s, j) is None);
            assert(sp_steps(s, j) == (j, Seq::<Seq<PropV>>::empty()));
            assert(seq![st0] + Seq::<Seq<PropV>>::empty() =~= v);
            assert(sp_steps(s, i) == (s.len() as int, v));
        } else {
            let rest = v.drop_first();
            assert(wf_profile(rest)) by {
                assert(forall|k: int| 0 <= k < rest.len() ==> rest[k] == v[k + 1]);
            }
            let rt = sp_ser_profile(rest);
            assert(s[j] == t[t0.len() as int]);
            assert(t[t0.len() as int] == 10);
            assert forall|m: int| 0 <= m < rt.len() implies s.subrange(j + 1, s.len() as int)[m]
                == rt[m] by {
                assert(s.subrange(j + 1, s.len() as int)[m] == s[j + 1 + m]);
                assert(s[j + 1 + m] == t[t0.len() + 1int + m]);
                assert(t[t0.len() + 1int + m] == rt[m]);
            }
            assert(s.subrange(j + 1, s.len() as int) =~= rt);
            lemma_profile_text_at(s, j + 1, rest);
            assert(rt[0] == 123) by {
                if rest.len() == 1 {
                    assert(rt =~= sp_ser_step(rest[0]));
                } else {
                    assert(rt =~= sp_ser_step(rest[0]) + seq![10u8] + sp_ser_profile(
                        rest.drop_first(),
                    ));
                }
            }
            assert(s[j + 1] == rt[0]);
            lemma_ws_end_is(s, j, j + 1);
            lemma_sp_steps_ws_skip(s, j);
            assert(sp_steps(s, j) == (s.len() as int, rest));
            assert(seq![st0] + rest =~= v);
            assert(sp_steps(s, i) == (s.len() as int, v));
        }
    }
}

/// Every profile the reader produces, the writer can reproduce.
pub proof fn lemma_sp_steps_wf(s: Seq<u8>, i: int)
    requires
        0 <= i <= s.len(),
    ensures
        wf_profile(sp_steps(s, i).1),
    decreases s.len() - i,
{
    lemma_ws_end_bounds(s, i);
    let w = ws_end(s, i);
    lemma_sp_step_wf(s, w);
    crate::parser::lemma_sp_step_consumes(s, w);
    match sp_step(s, w) {
        None => {
            assert(sp_steps(s, i).1 =~= Seq::<Seq<PropV>>::empty());
        },
        Some((j, st)) => {
            if i < j && j <= s.len() {
                lemma_sp_steps_wf(s, j);
                let r = sp_steps(s, j);
                assert(sp_steps(s, i).1 =~= seq![st] + r.1);
                assert forall|m: int| 0 <= m < (seq![st] + r.1).len() implies wf_step(
                    #[trigger] (seq![st] + r.1)[m],
                ) by {
                    if m > 0 {
                        assert((seq![st] + r.1)[m] == r.1[m - 1]);
                    }
                }
            } else {
                assert(sp_steps(s, i).1 =~= seq![st]);
            }
        },
    }
}

/// Law: writing any well-formed profile and reading the text back yields all
/// of it — the reader consumes the whole text and returns the same steps.
pub proof fn lemma_profile_round_trip(v: Seq<Seq<PropV>>)
    requires
        wf_profile(v),
    ensures
        ({
            let t = sp_ser_profile(v);
            sp_steps(t, 0) == (t.len() as int, v)
        }),
{
    let t = sp_ser_profile(v);
    assert(t.subrange(0, t.len() as int) =~= t);
    lemma_profile_text_at(t, 0, v);
}

/// Law: any profile text the reader accepts whole decodes to steps that,
/// written out and read again, come back equal.
pub proof fn lemma_parse_write_parse_profile(s: Seq<u8>, v: Seq<Seq<PropV>>)
    requires
        sp_steps(s, 0).0 == s.len(),
        sp_steps(s, 0).1 == v,
    ensures
        wf_profile(v),
        ({
            let t = sp_ser_profile(v);
            sp_steps(t, 0) == (t.len() as int, v)
        }),
{
    lemma_sp_steps_wf(s, 0);
    lemma_profile_round_trip(v);
}

} // verus!
