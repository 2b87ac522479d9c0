//! The step language: typed properties, steps, profiles, and their readers.
//!
//! A profile is whitespace-separated steps; a step is `{` followed by
//! whitespace-separated `keyword value` pairs and a closing `}`.  Every reader
//! takes the input bytes and a position, consumes a prefix, and either returns
//! the decoded value with the position after it or fails without consuming
//! anything.  Each executable reader returns exactly what its specification
//! function says of the input.

use vstd::prelude::*;

use crate::number::Number;
use crate::number::sp_number;
use crate::number::sp_uint16;
use crate::number::number_val;
use crate::number::uint16_val;
use crate::number::lemma_digit_run_end_bounds;

verus! {

/// How a channel moves from its previous value to a step's value.
#[derive(Clone, Copy, PartialEq, Eq, Structural, Debug)]
pub enum TransitionType {
    /// Jump at once, then hold.
    Fast,
    /// Ramp linearly across the step.
    Smooth,
}

/// Which quantity the pump regulates during a step.
#[derive(Clone, Copy, PartialEq, Eq, Structural, Debug)]
pub enum PumpType {
    Flow,
    Pressure,
}

/// Where temperature is measured.
#[derive(Clone, Copy, PartialEq, Eq, Structural, Debug)]
pub enum SensorKind {
    Coffee,
    Water,
}

/// The condition kind that ends a step early.
#[derive(Clone, Copy, PartialEq, Eq, Structural, Debug)]
pub enum ExitKind {
    PressureUnder,
    PressureOver,
    FlowUnder,
    FlowOver,
}

/// One `keyword value` fact of a step, as it stood in the text.
#[derive(Clone, Debug)]
pub enum Prop {
    ExitIf(bool),
    Flow(Number),
    Volume(u16),
    MaxFlowOrPressureRange(Number),
    Transition(TransitionType),
    ExitFlowUnder(Number),
    Temperature(Number),
    Name(Vec<u8>),
    Pressure(Number),
    Sensor(SensorKind),
    Pump(PumpType),
    ExitType(ExitKind),
    ExitFlowOver(Number),
    ExitPressureOver(Number),
    MaxFlowOrPressure(Number),
    ExitPressureUnder(Number),
    Seconds(Number),
    /// A keyword read on request with a string value, for lines outside the
    /// step grammar; the step readers themselves never produce it.
    Unknown(Vec<u8>, Vec<u8>),
}

/// The mathematical shape of a property: as `Prop`, with byte strings as
/// sequences.
pub enum PropV {
    ExitIf(bool),
    Flow(Number),
    Volume(u16),
    MaxFlowOrPressureRange(Number),
    Transition(TransitionType),
    ExitFlowUnder(Number),
    Temperature(Number),
    Name(Seq<u8>),
    Pressure(Number),
    Sensor(SensorKind),
    Pump(PumpType),
    ExitType(ExitKind),
    ExitFlowOver(Number),
    ExitPressureOver(Number),
    MaxFlowOrPressure(Number),
    ExitPressureUnder(Number),
    Seconds(Number),
    Unknown(Seq<u8>, Seq<u8>),
}

impl View for Prop {
    type V = PropV;

    open spec fn view(&self) -> PropV {
        match self {
            Prop::ExitIf(b) => PropV::ExitIf(*b),
            Prop::Flow(n) => PropV::Flow(*n),
            Prop::Volume(v) => PropV::Volume(*v),
            Prop::MaxFlowOrPressureRange(n) => PropV::MaxFlowOrPressureRange(*n),
            Prop::Transition(t) => PropV::Transition(*t),
            Prop::ExitFlowUnder(n) => PropV::ExitFlowUnder(*n),
            Prop::Temperature(n) => PropV::Temperature(*n),
            Prop::Name(v) => PropV::Name(v@),
            Prop::Pressure(n) => PropV::Pressure(*n),
            Prop::Sensor(k) => PropV::Sensor(*k),
            Prop::Pump(k) => PropV::Pump(*k),
            Prop::ExitType(k) => PropV::ExitType(*k),
            Prop::ExitFlowOver(n) => PropV::ExitFlowOver(*n),
            Prop::ExitPressureOver(n) => PropV::ExitPressureOver(*n),
            Prop::MaxFlowOrPressure(n) => PropV::MaxFlowOrPressure(*n),
            Prop::ExitPressureUnder(n) => PropV::ExitPressureUnder(*n),
            Prop::Seconds(n) => PropV::Seconds(*n),
            Prop::Unknown(k, v) => PropV::Unknown(k@, v@),
        }
    }
}

/// One timed phase of a profile: its properties in encounter order.
#[derive(Clone, Debug)]
pub struct Step(pub Vec<Prop>);

impl View for Step {
    type V = Seq<PropV>;

    open spec fn view(&self) -> Seq<PropV> {
        props_view(self.0@)
    }
}

/// The one parse failure: the input has no shape under the grammar, or ends
/// before the steps do.
#[derive(Clone, Copy, PartialEq, Eq, Structural, Debug)]
pub struct SyntaxError;

/// Whether `c` is blank: space, tab, carriage return or newline.
pub open spec fn is_ws(c: u8) -> bool {
    c == 32 || c == 9 || c == 10 || c == 13
}

/// The first position at or after `i` that is not whitespace.
pub open spec fn ws_end(s: Seq<u8>, i: int) -> int
    decreases s.len() - i,
{
    if !(0 <= i < s.len()) {
        i
    } else if !is_ws(s[i]) {
        i
    } else {
        ws_end(s, i + 1)
    }
}

/// The first whitespace position at or after `i`: the end of the bare token
/// that starts at `i`.
pub open spec fn token_end(s: Seq<u8>, i: int) -> int
    decreases s.len() - i,
{
    if !(0 <= i < s.len()) {
        i
    } else if is_ws(s[i]) {
        i
    } else {
        token_end(s, i + 1)
    }
}

/// The first closing brace at or after `i`, or the input's end.
pub open spec fn close_pos(s: Seq<u8>, i: int) -> int
    decreases s.len() - i,
{
    if !(0 <= i < s.len()) {
        i
    } else if s[i] == 125 {
        i
    } else {
        close_pos(s, i + 1)
    }
}

pub proof fn lemma_ws_end_bounds(s: Seq<u8>, i: int)
    requires
        0 <= i <= s.len(),
    ensures
        i <= ws_end(s, i) <= s.len(),
        forall|k: int| i <= k < ws_end(s, i) ==> is_ws(s[k]),
        ws_end(s, i) < s.len() ==> !is_ws(s[ws_end(s, i)]),
    decreases s.len() - i,
{
    if i < s.len() && is_ws(s[i]) {
        lemma_ws_end_bounds(s, i + 1);
    }
}

pub proof fn lemma_ws_end_is(s: Seq<u8>, i: int, j: int)
    requires
        0 <= i <= j <= s.len(),
        forall|k: int| i <= k < j ==> is_ws(s[k]),
        j == s.len() || !is_ws(s[j]),
    ensures
        ws_end(s, i) == j,
    decreases j - i,
{
    if i < j {
        lemma_ws_end_is(s, i + 1, j);
    }
}

pub proof fn lemma_token_end_bounds(s: Seq<u8>, i: int)
    requires
        0 <= i <= s.len(),
    ensures
        i <= token_end(s, i) <= s.len(),
        forall|k: int| i <= k < token_end(s, i) ==> !is_ws(s[k]),
        token_end(s, i) < s.len() ==> is_ws(s[token_end(s, i)]),
    decreases s.len() - i,
{
    if i < s.len() && !is_ws(s[i]) {
        lemma_token_end_bounds(s, i + 1);
    }
}

pub proof fn lemma_token_end_is(s: Seq<u8>, i: int, j: int)
    requires
        0 <= i <= j <= s.len(),
        forall|k: int| i <= k < j ==> !is_ws(s[k]),
        j == s.len() || is_ws(s[j]),
    ensures
        token_end(s, i) == j,
    decreases j - i,
{
    if i < j {
        lemma_token_end_is(s, i + 1, j);
    }
}

pub proof fn lemma_close_pos_bounds(s: Seq<u8>, i: int)
    requires
        0 <= i <= s.len(),
    ensures
        i <= close_pos(s, i) <= s.len(),
        forall|k: int| i <= k < close_pos(s, i) ==> s[k] != 125,
        close_pos(s, i) < s.len() ==> s[close_pos(s, i)] == 125,
    decreases s.len() - i,
{
    if i < s.len() && s[i] != 125 {
        lemma_close_pos_bounds(s, i + 1);
    }
}

pub proof fn lemma_close_pos_is(s: Seq<u8>, i: int, j: int)
    requires
        0 <= i <= j <= s.len(),
        forall|k: int| i <= k < j ==> s[k] != 125,
        j == s.len() || s[j] == 125,
    ensures
        close_pos(s, i) == j,
    decreases j - i,
{
    if i < j {
        lemma_close_pos_is(s, i + 1, j);
    }
}

/// Scan forward from `i` over whitespace.
pub fn scan_ws(s: &[u8], i: usize) -> (j: usize)
    requires
        i <= s@.len(),
    ensures
        j == ws_end(s@, i as int),
        i <= j <= s@.len(),
    decreases s@.len() - i,
{
    if i < s.len() && (s[i] == 32 || s[i] == 9 || s[i] == 10 || s[i] == 13) {
        scan_ws(s, i + 1)
    } else {
        i
    }
}

/// Scan forward from `i` over non-whitespace.
pub fn scan_token(s: &[u8], i: usize) -> (j: usize)
    requires
        i <= s@.len(),
    ensures
        j == token_end(s@, i as int),
        i <= j <= s@.len(),
    decreases s@.len() - i,
{
    if i < s.len() && !(s[i] == 32 || s[i] == 9 || s[i] == 10 || s[i] == 13) {
        scan_token(s, i + 1)
    } else {
        i
    }
}

/// Scan forward from `i` to the first closing brace.
pub fn scan_close(s: &[u8], i: usize) -> (j: usize)
    requires
        i <= s@.len(),
    ensures
        j == close_pos(s@, i as int),
        i <= j <= s@.len(),
    decreases s@.len() - i,
{
    if i < s.len() && s[i] != 125 {
        scan_close(s, i + 1)
    } else {
        i
    }
}

/// Copy the bytes `s[i..j]` into a fresh vector.
pub fn copy_range(s: &[u8], i: usize, j: usize) -> (v: Vec<u8>)
    requires
        i <= j <= s@.len(),
    ensures
        v@ == s@.subrange(i as int, j as int),
{
    let mut v: Vec<u8> = Vec::new();
    let mut k: usize = i;
    while k < j
        invariant
            i <= k <= j <= s@.len(),
            v@ == s@.subrange(i as int, k as int),
        decreases j - k,
    {
        v.push(s[k]);
        proof {
            assert(v@ =~= s@.subrange(i as int, k + 1int));
        }
        k = k + 1;
    }
    proof {
        assert(v@ =~= s@.subrange(i as int, j as int));
    }
    v
}

/// Whether the bytes of `lit` stand at `i` in `s`.
pub open spec fn sp_starts_with(s: Seq<u8>, i: int, lit: Seq<u8>) -> bool {
    0 <= i && i + lit.len() <= s.len() && s.subrange(i, i + lit.len()) == lit
}

/// Compare `s[i..]` against a literal prefix.
pub fn starts_with(s: &[u8], i: usize, lit: &Vec<u8>) -> (r: bool)
    requires
        i <= s@.len(),
    ensures
        r == sp_starts_with(s@, i as int, lit@),
{
    if s.len() - i < lit.len() {
        return false;
    }
    let n = lit.len();
    let mut k: usize = 0;
    while k < n
        invariant
            n == lit@.len(),
            i + lit@.len() <= s@.len(),
            s@.len() <= usize::MAX,
            k <= lit@.len(),
            forall|t: int| 0 <= t < k ==> s@[i + t] == lit@[t],
        decreases lit@.len() - k,
    {
        if s[i + k] != lit[k] {
            proof {
                assert(s@.subrange(i as int, i + lit@.len())[k as int] == s@[i + k]);
            }
            return false;
        }
        k = k + 1;
    }
    proof {
        assert(s@.subrange(i as int, i + lit@.len()) =~= lit@);
    }
    true
}

/// Compare the token `s[i..j]` against a literal, byte for byte.
pub fn tok_eq(s: &[u8], i: usize, j: usize, lit: &Vec<u8>) -> (r: bool)
    requires
        i <= j <= s@.len(),
    ensures
        r == (s@.subrange(i as int, j as int) == lit@),
{
    if j - i != lit.len() {
        proof {
            assert(s@.subrange(i as int, j as int).len() == j - i);
        }
        return false;
    }
    let n = lit.len();
    let mut k: usize = 0;
    while k < n
        invariant
            n == lit@.len(),
            i <= j <= s@.len(),
            j - i == lit@.len(),
            k <= lit@.len(),
            forall|t: int| 0 <= t < k ==> s@[i + t] == lit@[t],
        decreases lit@.len() - k,
    {
        if s[i + k] != lit[k] {
            proof {
                assert(s@.subrange(i as int, j as int)[k as int] == s@[i + k]);
            }
            return false;
        }
        k = k + 1;
    }
    proof {
        assert(s@.subrange(i as int, j as int) =~= lit@);
    }
    true
}

/// The boolean grammar: exactly one byte, `0` or `1`.
pub open spec fn sp_bool(s: Seq<u8>, i: int) -> Option<(int, bool)> {
    if 0 <= i < s.len() && s[i] == 48 {
        Some((i + 1, false))
    } else if 0 <= i < s.len() && s[i] == 49 {
        Some((i + 1, true))
    } else {
        None
    }
}

/// Read a boolean at `i`, exactly as `sp_bool` describes.
pub fn bool_val(s: &[u8], i: usize) -> (r: Option<(usize, bool)>)
    requires
        i <= s@.len(),
    ensures
        match r {
            Some(p) => sp_bool(s@, i as int) == Some((p.0 as int, p.1)) && i < p.0 <= s@.len(),
            None => sp_bool(s@, i as int) is None,
        },
{
    if i < s.len() && s[i] == 48 {
        Some((i + 1, false))
    } else if i < s.len() && s[i] == 49 {
        Some((i + 1, true))
    } else {
        None
    }
}

/// The string grammar: a brace-quoted span running to the first closing brace,
/// or, with no opening brace, a bare token running to the next whitespace.
pub open spec fn sp_string(s: Seq<u8>, i: int) -> Option<(int, Seq<u8>)> {
    if 0 <= i < s.len() && s[i] == 123 {
        let p = close_pos(s, i + 1);
        if p < s.len() {
            Some((p + 1, s.subrange(i + 1, p)))
        } else {
            None
        }
    } else {
        let j = token_end(s, i);
        if j == i {
            None
        } else {
            Some((j, s.subrange(i, j)))
        }
    }
}

/// Read a string at `i`, exactly as `sp_string` describes.
pub fn string_val(s: &[u8], i: usize) -> (r: Option<(usize, Vec<u8>)>)
    requires
        i <= s@.len(),
    ensures
        match r {
            Some((j, v)) => sp_string(s@, i as int) == Some((j as int, v@)) && i < j <= s@.len(),
            None => sp_string(s@, i as int) is None,
        },
{
    if i < s.len() && s[i] == 123 {
        let p = scan_close(s, i + 1);
        if p < s.len() {
            Some((p + 1, copy_range(s, i + 1, p)))
        } else {
            None
        }
    } else {
        let j = scan_token(s, i);
        if j == i {
            None
        } else {
            Some((j, copy_range(s, i, j)))
        }
    }
}
/// The literal `fast`.
pub open spec fn lit_fast() -> Seq<u8> {
    seq!['f' as u8, 'a' as u8, 's' as u8, 't' as u8]
}

pub(crate) fn lit_fast_x() -> (v: Vec<u8>)
    ensures
        v@ == lit_fast(),
{
    let v: Vec<u8> = vec!['f' as u8, 'a' as u8, 's' as u8, 't' as u8];
    proof {
        assert(v@ =~= lit_fast());
    }
    v
}

/// The literal `smooth`.
pub open spec fn lit_smooth() -> Seq<u8> {
    seq!['s' as u8, 'm' as u8, 'o' as u8, 'o' as u8, 't' as u8, 'h' as u8]
}

pub(crate) fn lit_smooth_x() -> (v: Vec<u8>)
    ensures
        v@ == lit_smooth(),
{
    let v: Vec<u8> = vec!['s' as u8, 'm' as u8, 'o' as u8, 'o' as u8, 't' as u8, 'h' as u8];
    proof {
        assert(v@ =~= lit_smooth());
    }
    v
}

/// The literal `coffee`.
pub open spec fn lit_coffee() -> Seq<u8> {
    seq!['c' as u8, 'o' as u8, 'f' as u8, 'f' as u8, 'e' as u8, 'e' as u8]
}

pub(crate) fn lit_coffee_x() -> (v: Vec<u8>)
    ensures
        v@ == lit_coffee(),
{
    let v: Vec<u8> = vec!['c' as u8, 'o' as u8, 'f' as u8, 'f' as u8, 'e' as u8, 'e' as u8];
    proof {
        assert(v@ =~= lit_coffee());
    }
    v
}

/// The literal `water`.
pub open spec fn lit_water() -> Seq<u8> {
    seq!['w' as u8, 'a' as u8, 't' as u8, 'e' as u8, 'r' as u8]
}

pub(crate) fn lit_water_x() -> (v: Vec<u8>)
    ensures
        v@ == lit_water(),
{
    let v: Vec<u8> = vec!['w' as u8, 'a' as u8, 't' as u8, 'e' as u8, 'r' as u8];
    proof {
        assert(v@ =~= lit_water());
    }
    v
}

/// The literal `flow`.
pub open spec fn lit_flow() -> Seq<u8> {
    seq!['f' as u8, 'l' as u8, 'o' as u8, 'w' as u8]
}

pub(crate) fn lit_flow_x() -> (v: Vec<u8>)
    ensures
        v@ == lit_flow(),
{
    let v: Vec<u8> = vec!['f' as u8, 'l' as u8, 'o' as u8, 'w' as u8];
    proof {
        assert(v@ =~= lit_flow());
    }
    v
}

/// The literal `pressure`.
pub open spec fn lit_pressure() -> Seq<u8> {
    seq!['p' as u8, 'r' as u8, 'e' as u8, 's' as u8, 's' as u8, 'u' as u8, 'r' as u8, 'e' as u8]
}

pub(crate) fn lit_pressure_x() -> (v: Vec<u8>)
    ensures
        v@ == lit_pressure(),
{
    let v: Vec<u8> = vec!['p' as u8, 'r' as u8, 'e' as u8, 's' as u8, 's' as u8, 'u' as u8, 'r' as u8, 'e' as u8];
    proof {
        assert(v@ =~= lit_pressure());
    }
    v
}

/// The literal `pressure_under`.
pub open spec fn lit_pressure_under() -> Seq<u8> {
    seq!['p' as u8, 'r' as u8, 'e' as u8, 's' as u8, 's' as u8, 'u' as u8, 'r' as u8, 'e' as u8, '_' as u8, 'u' as u8, 'n' as u8, 'd' as u8, 'e' as u8, 'r' as u8]
}

pub(crate) fn lit_pressure_under_x() -> (v: Vec<u8>)
    ensures
        v@ == lit_pressure_under(),
{
    let v: Vec<u8> = vec!['p' as u8, 'r' as u8, 'e' as u8, 's' as u8, 's' as u8, 'u' as u8, 'r' as u8, 'e' as u8, '_' as u8, 'u' as u8, 'n' as u8, 'd' as u8, 'e' as u8, 'r' as u8];
    proof {
        assert(v@ =~= lit_pressure_under());
    }
    v
}

/// The literal `pressure_over`.
pub open spec fn lit_pressure_over() -> Seq<u8> {
    seq!['p' as u8, 'r' as u8, 'e' as u8, 's' as u8, 's' as u8, 'u' as u8, 'r' as u8, 'e' as u8, '_' as u8, 'o' as u8, 'v' as u8, 'e' as u8, 'r' as u8]
}

pub(crate) fn lit_pressure_over_x() -> (v: Vec<u8>)
    ensures
        v@ == lit_pressure_over(),
{
    let v: Vec<u8> = vec!['p' as u8, 'r' as u8, 'e' as u8, 's' as u8, 's' as u8, 'u' as u8, 'r' as u8, 'e' as u8, '_' as u8, 'o' as u8, 'v' as u8, 'e' as u8, 'r' as u8];
    proof {
        assert(v@ =~= lit_pressure_over());
    }
    v
}

/// The literal `flow_under`.
pub open spec fn lit_flow_under() -> Seq<u8> {
    seq!['f' as u8, 'l' as u8, 'o' as u8, 'w' as u8, '_' as u8, 'u' as u8, 'n' as u8, 'd' as u8, 'e' as u8, 'r' as u8]
}

pub(crate) fn lit_flow_under_x() -> (v: Vec<u8>)
    ensures
        v@ == lit_flow_under(),
{
    let v: Vec<u8> = vec!['f' as u8, 'l' as u8, 'o' as u8, 'w' as u8, '_' as u8, 'u' as u8, 'n' as u8, 'd' as u8, 'e' as u8, 'r' as u8];
    proof {
        assert(v@ =~= lit_flow_under());
    }
    v
}

/// The literal `flow_over`.
pub open spec fn lit_flow_over() -> Seq<u8> {
    seq!['f' as u8, 'l' as u8, 'o' as u8, 'w' as u8, '_' as u8, 'o' as u8, 'v' as u8, 'e' as u8, 'r' as u8]
}

pub(crate) fn lit_flow_over_x() -> (v: Vec<u8>)
    ensures
        v@ == lit_flow_over(),
{
    let v: Vec<u8> = vec!['f' as u8, 'l' as u8, 'o' as u8, 'w' as u8, '_' as u8, 'o' as u8, 'v' as u8, 'e' as u8, 'r' as u8];
    proof {
        assert(v@ =~= lit_flow_over());
    }
    v
}

/// The literal `exit_if`.
pub open spec fn lit_exit_if() -> Seq<u8> {
    seq!['e' as u8, 'x' as u8, 'i' as u8, 't' as u8, '_' as u8, 'i' as u8, 'f' as u8]
}

pub(crate) fn lit_exit_if_x() -> (v: Vec<u8>)
    ensures
        v@ == lit_exit_if(),
{
    let v: Vec<u8> = vec!['e' as u8, 'x' as u8, 'i' as u8, 't' as u8, '_' as u8, 'i' as u8, 'f' as u8];
    proof {
        assert(v@ =~= lit_exit_if());
    }
    v
}

/// The literal `volume`.
pub open spec fn lit_volume() -> Seq<u8> {
    seq!['v' as u8, 'o' as u8, 'l' as u8, 'u' as u8, 'm' as u8, 'e' as u8]
}

pub(crate) fn lit_volume_x() -> (v: Vec<u8>)
    ensures
        v@ == lit_volume(),
{
    let v: Vec<u8> = vec!['v' as u8, 'o' as u8, 'l' as u8, 'u' as u8, 'm' as u8, 'e' as u8];
    proof {
        assert(v@ =~= lit_volume());
    }
    v
}

/// The literal `max_flow_or_pressure_range`.
pub open spec fn lit_max_flow_or_pressure_range() -> Seq<u8> {
    seq!['m' as u8, 'a' as u8, 'x' as u8, '_' as u8, 'f' as u8, 'l' as u8, 'o' as u8, 'w' as u8, '_' as u8, 'o' as u8, 'r' as u8, '_' as u8, 'p' as u8, 'r' as u8, 'e' as u8, 's' as u8, 's' as u8, 'u' as u8, 'r' as u8, 'e' as u8, '_' as u8, 'r' as u8, 'a' as u8, 'n' as u8, 'g' as u8, 'e' as u8]
}

pub(crate) fn lit_max_flow_or_pressure_range_x() -> (v: Vec<u8>)
    ensures
        v@ == lit_max_flow_or_pressure_range(),
{
    let v: Vec<u8> = vec!['m' as u8, 'a' as u8, 'x' as u8, '_' as u8, 'f' as u8, 'l' as u8, 'o' as u8, 'w' as u8, '_' as u8, 'o' as u8, 'r' as u8, '_' as u8, 'p' as u8, 'r' as u8, 'e' as u8, 's' as u8, 's' as u8, 'u' as u8, 'r' as u8, 'e' as u8, '_' as u8, 'r' as u8, 'a' as u8, 'n' as u8, 'g' as u8, 'e' as u8];
    proof {
        assert(v@ =~= lit_max_flow_or_pressure_range());
    }
    v
}

/// The literal `transition`.
pub open spec fn lit_transition() -> Seq<u8> {
    seq!['t' as u8, 'r' as u8, 'a' as u8, 'n' as u8, 's' as u8, 'i' as u8, 't' as u8, 'i' as u8, 'o' as u8, 'n' as u8]
}

pub(crate) fn lit_transition_x() -> (v: Vec<u8>)
    ensures
        v@ == lit_transition(),
{
    let v: Vec<u8> = vec!['t' as u8, 'r' as u8, 'a' as u8, 'n' as u8, 's' as u8, 'i' as u8, 't' as u8, 'i' as u8, 'o' as u8, 'n' as u8];
    proof {
        assert(v@ =~= lit_transition());
    }
    v
}

/// The literal `exit_flow_under`.
pub open spec fn lit_exit_flow_under() -> Seq<u8> {
    seq!['e' as u8, 'x' as u8, 'i' as u8, 't' as u8, '_' as u8, 'f' as u8, 'l' as u8, 'o' as u8, 'w' as u8, '_' as u8, 'u' as u8, 'n' as u8, 'd' as u8, 'e' as u8, 'r' as u8]
}

pub(crate) fn lit_exit_flow_under_x() -> (v: Vec<u8>)
    ensures
        v@ == lit_exit_flow_under(),
{
    let v: Vec<u8> = vec!['e' as u8, 'x' as u8, 'i' as u8, 't' as u8, '_' as u8, 'f' as u8, 'l' as u8, 'o' as u8, 'w' as u8, '_' as u8, 'u' as u8, 'n' as u8, 'd' as u8, 'e' as u8, 'r' as u8];
    proof {
        assert(v@ =~= lit_exit_flow_under());
    }
    v
}

/// The literal `temperature`.
pub open spec fn lit_temperature() -> Seq<u8> {
    seq!['t' as u8, 'e' as u8, 'm' as u8, 'p' as u8, 'e' as u8, 'r' as u8, 'a' as u8, 't' as u8, 'u' as u8, 'r' as u8, 'e' as u8]
}

pub(crate) fn lit_temperature_x() -> (v: Vec<u8>)
    ensures
        v@ == lit_temperature(),
{
    let v: Vec<u8> = vec!['t' as u8, 'e' as u8, 'm' as u8, 'p' as u8, 'e' as u8, 'r' as u8, 'a' as u8, 't' as u8, 'u' as u8, 'r' as u8, 'e' as u8];
    proof {
        assert(v@ =~= lit_temperature());
    }
    v
}

/// The literal `name`.
pub open spec fn lit_name() -> Seq<u8> {
    seq!['n' as u8, 'a' as u8, 'm' as u8, 'e' as u8]
}

pub(crate) fn lit_name_x() -> (v: Vec<u8>)
    ensures
        v@ == lit_name(),
{
    let v: Vec<u8> = vec!['n' as u8, 'a' as u8, 'm' as u8, 'e' as u8];
    proof {
        assert(v@ =~= lit_name());
    }
    v
}

/// The literal `sensor`.
pub open spec fn lit_sensor() -> Seq<u8> {
    seq!['s' as u8, 'e' as u8, 'n' as u8, 's' as u8, 'o' as u8, 'r' as u8]
}

pub(crate) fn lit_sensor_x() -> (v: Vec<u8>)
    ensures
        v@ == lit_sensor(),
{
    let v: Vec<u8> = vec!['s' as u8, 'e' as u8, 'n' as u8, 's' as u8, 'o' as u8, 'r' as u8];
    proof {
        assert(v@ =~= lit_sensor());
    }
    v
}

/// The literal `pump`.
pub open spec fn lit_pump() -> Seq<u8> {
    seq!['p' as u8, 'u' as u8, 'm' as u8, 'p' as u8]
}

pub(crate) fn lit_pump_x() -> (v: Vec<u8>)
    ensures
        v@ == lit_pump(),
{
    let v: Vec<u8> = vec!['p' as u8, 'u' as u8, 'm' as u8, 'p' as u8];
    proof {
        assert(v@ =~= lit_pump());
    }
    v
}

/// The literal `exit_type`.
pub open spec fn lit_exit_type() -> Seq<u8> {
    seq!['e' as u8, 'x' as u8, 'i' as u8, 't' as u8, '_' as u8, 't' as u8, 'y' as u8, 'p' as u8, 'e' as u8]
}

pub(crate) fn lit_exit_type_x() -> (v: Vec<u8>)
    ensures
        v@ == lit_exit_type(),
{
    let v: Vec<u8> = vec!['e' as u8, 'x' as u8, 'i' as u8, 't' as u8, '_' as u8, 't' as u8, 'y' as u8, 'p' as u8, 'e' as u8];
    proof {
        assert(v@ =~= lit_exit_type());
    }
    v
}

/// The literal `exit_flow_over`.
pub open spec fn lit_exit_flow_over() -> Seq<u8> {
    seq!['e' as u8, 'x' as u8, 'i' as u8, 't' as u8, '_' as u8, 'f' as u8, 'l' as u8, 'o' as u8, 'w' as u8, '_' as u8, 'o' as u8, 'v' as u8, 'e' as u8, 'r' as u8]
}

pub(crate) fn lit_exit_flow_over_x() -> (v: Vec<u8>)
    ensures
        v@ == lit_exit_flow_over(),
{
    let v: Vec<u8> = vec!['e' as u8, 'x' as u8, 'i' as u8, 't' as u8, '_' as u8, 'f' as u8, 'l' as u8, 'o' as u8, 'w' as u8, '_' as u8, 'o' as u8, 'v' as u8, 'e' as u8, 'r' as u8];
    proof {
        assert(v@ =~= lit_exit_flow_over());
    }
    v
}

/// The literal `exit_pressure_over`.
pub open spec fn lit_exit_pressure_over() -> Seq<u8> {
    seq!['e' as u8, 'x' as u8, 'i' as u8, 't' as u8, '_' as u8, 'p' as u8, 'r' as u8, 'e' as u8, 's' as u8, 's' as u8, 'u' as u8, 'r' as u8, 'e' as u8, '_' as u8, 'o' as u8, 'v' as u8, 'e' as u8, 'r' as u8]
}

pub(crate) fn lit_exit_pressure_over_x() -> (v: Vec<u8>)
    ensures
        v@ == lit_exit_pressure_over(),
{
    let v: Vec<u8> = vec!['e' as u8, 'x' as u8, 'i' as u8, 't' as u8, '_' as u8, 'p' as u8, 'r' as u8, 'e' as u8, 's' as u8, 's' as u8, 'u' as u8, 'r' as u8, 'e' as u8, '_' as u8, 'o' as u8, 'v' as u8, 'e' as u8, 'r' as u8];
    proof {
        assert(v@ =~= lit_exit_pressure_over());
    }
    v
}

/// The literal `max_flow_or_pressure`.
pub open spec fn lit_max_flow_or_pressure() -> Seq<u8> {
    seq!['m' as u8, 'a' as u8, 'x' as u8, '_' as u8, 'f' as u8, 'l' as u8, 'o' as u8, 'w' as u8, '_' as u8, 'o' as u8, 'r' as u8, '_' as u8, 'p' as u8, 'r' as u8, 'e' as u8, 's' as u8, 's' as u8, 'u' as u8, 'r' as u8, 'e' as u8]
}

pub(crate) fn lit_max_flow_or_pressure_x() -> (v: Vec<u8>)
    ensures
        v@ == lit_max_flow_or_pressure(),
{
    let v: Vec<u8> = vec!['m' as u8, 'a' as u8, 'x' as u8, '_' as u8, 'f' as u8, 'l' as u8, 'o' as u8, 'w' as u8, '_' as u8, 'o' as u8, 'r' as u8, '_' as u8, 'p' as u8, 'r' as u8, 'e' as u8, 's' as u8, 's' as u8, 'u' as u8, 'r' as u8, 'e' as u8];
    proof {
        assert(v@ =~= lit_max_flow_or_pressure());
    }
    v
}

/// The literal `exit_pressure_under`.
pub open spec fn lit_exit_pressure_under() -> Seq<u8> {
    seq!['e' as u8, 'x' as u8, 'i' as u8, 't' as u8, '_' as u8, 'p' as u8, 'r' as u8, 'e' as u8, 's' as u8, 's' as u8, 'u' as u8, 'r' as u8, 'e' as u8, '_' as u8, 'u' as u8, 'n' as u8, 'd' as u8, 'e' as u8, 'r' as u8]
}

pub(crate) fn lit_exit_pressure_under_x() -> (v: Vec<u8>)
    ensures
        v@ == lit_exit_pressure_under(),
{
    let v: Vec<u8> = vec!['e' as u8, 'x' as u8, 'i' as u8, 't' as u8, '_' as u8, 'p' as u8, 'r' as u8, 'e' as u8, 's' as u8, 's' as u8, 'u' as u8, 'r' as u8, 'e' as u8, '_' as u8, 'u' as u8, 'n' as u8, 'd' as u8, 'e' as u8, 'r' as u8];
    proof {
        assert(v@ =~= lit_exit_pressure_under());
    }
    v
}

/// The literal `seconds`.
pub open spec fn lit_seconds() -> Seq<u8> {
    seq!['s' as u8, 'e' as u8, 'c' as u8, 'o' as u8, 'n' as u8, 'd' as u8, 's' as u8]
}

pub(crate) fn lit_seconds_x() -> (v: Vec<u8>)
    ensures
        v@ == lit_seconds(),
{
    let v: Vec<u8> = vec!['s' as u8, 'e' as u8, 'c' as u8, 'o' as u8, 'n' as u8, 'd' as u8, 's' as u8];
    proof {
        assert(v@ =~= lit_seconds());
    }
    v
}


fn starts_with_lit_fast(s: &[u8], i: usize) -> (r: bool)
    requires
        i <= s@.len(),
    ensures
        r == sp_starts_with(s@, i as int, lit_fast()),
{
    let lit = lit_fast_x();
    starts_with(s, i, &lit)
}

fn starts_with_lit_smooth(s: &[u8], i: usize) -> (r: bool)
    requires
        i <= s@.len(),
    ensures
        r == sp_starts_with(s@, i as int, lit_smooth()),
{
    let lit = lit_smooth_x();
    starts_with(s, i, &lit)
}

fn starts_with_lit_coffee(s: &[u8], i: usize) -> (r: bool)
    requires
        i <= s@.len(),
    ensures
        r == sp_starts_with(s@, i as int, lit_coffee()),
{
    let lit = lit_coffee_x();
    starts_with(s, i, &lit)
}

fn starts_with_lit_water(s: &[u8], i: usize) -> (r: bool)
    requires
        i <= s@.len(),
    ensures
        r == sp_starts_with(s@, i as int, lit_water()),
{
    let lit = lit_water_x();
    starts_with(s, i, &lit)
}

fn starts_with_lit_flow(s: &[u8], i: usize) -> (r: bool)
    requires
        i <= s@.len(),
    ensures
        r == sp_starts_with(s@, i as int, lit_flow()),
{
    let lit = lit_flow_x();
    starts_with(s, i, &lit)
}

fn starts_with_lit_pressure(s: &[u8], i: usize) -> (r: bool)
    requires
        i <= s@.len(),
    ensures
        r == sp_starts_with(s@, i as int, lit_pressure()),
{
    let lit = lit_pressure_x();
    starts_with(s, i, &lit)
}

fn starts_with_lit_pressure_under(s: &[u8], i: usize) -> (r: bool)
    requires
        i <= s@.len(),
    ensures
        r == sp_starts_with(s@, i as int, lit_pressure_under()),
{
    let lit = lit_pressure_under_x();
    starts_with(s, i, &lit)
}

fn starts_with_lit_pressure_over(s: &[u8], i: usize) -> (r: bool)
    requires
        i <= s@.len(),
    ensures
        r == sp_starts_with(s@, i as int, lit_pressure_over()),
{
    let lit = lit_pressure_over_x();
    starts_with(s, i, &lit)
}

fn starts_with_lit_flow_under(s: &[u8], i: usize) -> (r: bool)
    requires
        i <= s@.len(),
    ensures
        r == sp_starts_with(s@, i as int, lit_flow_under()),
{
    let lit = lit_flow_under_x();
    starts_with(s, i, &lit)
}

fn starts_with_lit_flow_over(s: &[u8], i: usize) -> (r: bool)
    requires
        i <= s@.len(),
    ensures
        r == sp_starts_with(s@, i as int, lit_flow_over()),
{
    let lit = lit_flow_over_x();
    starts_with(s, i, &lit)
}

/// The transition grammar: the literal `fast` or `smooth`.
pub open spec fn sp_transition(s: Seq<u8>, i: int) -> Option<(int, TransitionType)> {
    if sp_starts_with(s, i, lit_fast()) {
        Some((i + lit_fast().len(), TransitionType::Fast))
    } else if sp_starts_with(s, i, lit_smooth()) {
        Some((i + lit_smooth().len(), TransitionType::Smooth))
    } else {
        None
    }
}

/// Read a transition kind, exactly as `sp_transition` describes.
pub fn transition_val(s: &[u8], i: usize) -> (r: Option<(usize, TransitionType)>)
    requires
        i <= s@.len(),
    ensures
        match r {
            Some(p) => sp_transition(s@, i as int) == Some((p.0 as int, p.1)) && i < p.0
                <= s@.len(),
            None => sp_transition(s@, i as int) is None,
        },
{
    let n = s.len();
    proof {
        assert(lit_fast().len() == 4);
        assert(lit_smooth().len() == 6);
    }
    if starts_with_lit_fast(s, i) {
        Some((i + 4, TransitionType::Fast))
    } else if starts_with_lit_smooth(s, i) {
        Some((i + 6, TransitionType::Smooth))
    } else {
        None
    }
}

/// The sensor grammar: the literal `coffee` or `water`.
pub open spec fn sp_sensor(s: Seq<u8>, i: int) -> Option<(int, SensorKind)> {
    if sp_starts_with(s, i, lit_coffee()) {
        Some((i + lit_coffee().len(), SensorKind::Coffee))
    } else if sp_starts_with(s, i, lit_water()) {
        Some((i + lit_water().len(), SensorKind::Water))
    } else {
        None
    }
}

/// Read a sensor kind, exactly as `sp_sensor` describes.
pub fn sensor_val(s: &[u8], i: usize) -> (r: Option<(usize, SensorKind)>)
    requires
        i <= s@.len(),
    ensures
        match r {
            Some(p) => sp_sensor(s@, i as int) == Some((p.0 as int, p.1)) && i < p.0 <= s@.len(),
            None => sp_sensor(s@, i as int) is None,
        },
{
    let n = s.len();
    proof {
        assert(lit_coffee().len() == 6);
        assert(lit_water().len() == 5);
    }
    if starts_with_lit_coffee(s, i) {
        Some((i + 6, SensorKind::Coffee))
    } else if starts_with_lit_water(s, i) {
        Some((i + 5, SensorKind::Water))
    } else {
        None
    }
}

/// The pump grammar: the literal `flow` or `pressure`.
pub open spec fn sp_pump(s: Seq<u8>, i: int) -> Option<(int, PumpType)> {
    if sp_starts_with(s, i, lit_flow()) {
        Some((i + lit_flow().len(), PumpType::Flow))
    } else if sp_starts_with(s, i, lit_pressure()) {
        Some((i + lit_pressure().len(), PumpType::Pressure))
    } else {
        None
    }
}

/// Read a pump kind, exactly as `sp_pump` describes.
pub fn pump_val(s: &[u8], i: usize) -> (r: Option<(usize, PumpType)>)
    requires
        i <= s@.len(),
    ensures
        match r {
            Some(p) => sp_pump(s@, i as int) == Some((p.0 as int, p.1)) && i < p.0 <= s@.len(),
            None => sp_pump(s@, i as int) is None,
        },
{
    let n = s.len();
    proof {
        assert(lit_flow().len() == 4);
        assert(lit_pressure().len() == 8);
    }
    if starts_with_lit_flow(s, i) {
        Some((i + 4, PumpType::Flow))
    } else if starts_with_lit_pressure(s, i) {
        Some((i + 8, PumpType::Pressure))
    } else {
        None
    }
}

/// The exit-kind grammar: one of the four exit condition literals.
pub open spec fn sp_exit_kind(s: Seq<u8>, i: int) -> Option<(int, ExitKind)> {
    if sp_starts_with(s, i, lit_pressure_under()) {
        Some((i + lit_pressure_under().len(), ExitKind::PressureUnder))
    } else if sp_starts_with(s, i, lit_pressure_over()) {
        Some((i + lit_pressure_over().len(), ExitKind::PressureOver))
    } else if sp_starts_with(s, i, lit_flow_under()) {
        Some((i + lit_flow_under().len(), ExitKind::FlowUnder))
    } else if sp_starts_with(s, i, lit_flow_over()) {
        Some((i + lit_flow_over().len(), ExitKind::FlowOver))
    } else {
        None
    }
}

/// Read an exit kind, exactly as `sp_exit_kind` describes.
pub fn exit_kind_val(s: &[u8], i: usize) -> (r: Option<(usize, ExitKind)>)
    requires
        i <= s@.len(),
    ensures
        match r {
            Some(p) => sp_exit_kind(s@, i as int) == Some((p.0 as int, p.1)) && i < p.0
                <= s@.len(),
            None => sp_exit_kind(s@, i as int) is None,
        },
{
    let n = s.len();
    proof {
        assert(lit_pressure_under().len() == 14);
        assert(lit_pressure_over().len() == 13);
        assert(lit_flow_under().len() == 10);
        assert(lit_flow_over().len() == 9);
    }
    if starts_with_lit_pressure_under(s, i) {
        Some((i + 14, ExitKind::PressureUnder))
    } else if starts_with_lit_pressure_over(s, i) {
        Some((i + 13, ExitKind::PressureOver))
    } else if starts_with_lit_flow_under(s, i) {
        Some((i + 10, ExitKind::FlowUnder))
    } else if starts_with_lit_flow_over(s, i) {
        Some((i + 9, ExitKind::FlowOver))
    } else {
        None
    }
}


/// The property grammar: a keyword token, at least one blank, then the
/// keyword's value form.  The keyword must be one of the seventeen known
/// spellings, matched whole: a keyword that is a prefix of a longer one
/// cannot match, because the token runs to the next blank.
pub open spec fn sp_property(s: Seq<u8>, i: int) -> Option<(int, PropV)> {
    let j = token_end(s, i);
    if j == i || j >= s.len() {
        None
    } else {
        let k = ws_end(s, j);
        if k == j {
            None
        } else {
            let tok = s.subrange(i, j);
            if tok == lit_exit_if() {
                match sp_bool(s, k) {
                    Some((e, v)) => Some((e, PropV::ExitIf(v))),
                    None => None,
                }
            } else if tok == lit_flow() {
                match sp_number(s, k) {
                    Some((e, v)) => Some((e, PropV::Flow(v))),
                    None => None,
                }
            } else if tok == lit_volume() {
                match sp_uint16(s, k) {
                    Some((e, v)) => Some((e, PropV::Volume(v))),
                    None => None,
                }
            } else if tok == lit_max_flow_or_pressure_range() {
                match sp_number(s, k) {
                    Some((e, v)) => Some((e, PropV::MaxFlowOrPressureRange(v))),
                    None => None,
                }
            } else if tok == lit_transition() {
                match sp_transition(s, k) {
                    Some((e, v)) => Some((e, PropV::Transition(v))),
                    None => None,
                }
            } else if tok == lit_exit_flow_under() {
                match sp_number(s, k) {
                    Some((e, v)) => Some((e, PropV::ExitFlowUnder(v))),
                    None => None,
                }
            } else if tok == lit_temperature() {
                match sp_number(s, k) {
                    Some((e, v)) => Some((e, PropV::Temperature(v))),
                    None => None,
                }
            } else if tok == lit_name() {
                match sp_string(s, k) {
                    Some((e, v)) => Some((e, PropV::Name(v))),
                    None => None,
                }
            } else if tok == lit_pressure() {
                match sp_number(s, k) {
                    Some((e, v)) => Some((e, PropV::Pressure(v))),
                    None => None,
                }
            } else if tok == lit_sensor() {
                match sp_sensor(s, k) {
                    Some((e, v)) => Some((e, PropV::Sensor(v))),
                    None => None,
                }
            } else if tok == lit_pump() {
                match sp_pump(s, k) {
                    Some((e, v)) => Some((e, PropV::Pump(v))),
                    None => None,
                }
            } else if tok == lit_exit_type() {
                match sp_exit_kind(s, k) {
                    Some((e, v)) => Some((e, PropV::ExitType(v))),
                    None => None,
                }
            } else if tok == lit_exit_flow_over() {
                match sp_number(s, k) {
                    Some((e, v)) => Some((e, PropV::ExitFlowOver(v))),
                    None => None,
                }
            } else if tok == lit_exit_pressure_over() {
                match sp_number(s, k) {
                    Some((e, v)) => Some((e, PropV::ExitPressureOver(v))),
                    None => None,
                }
            } else if tok == lit_max_flow_or_pressure() {
                match sp_number(s, k) {
                    Some((e, v)) => Some((e, PropV::MaxFlowOrPressure(v))),
                    None => None,
                }
            } else if tok == lit_exit_pressure_under() {
                match sp_number(s, k) {
                    Some((e, v)) => Some((e, PropV::ExitPressureUnder(v))),
                    None => None,
                }
            } else if tok == lit_seconds() {
                match sp_number(s, k) {
                    Some((e, v)) => Some((e, PropV::Seconds(v))),
                    None => None,
                }
            } else {
                None
            }
        }
    }
}

/// Read one property at `i`, exactly as `sp_property` describes.
pub fn property(s: &[u8], i: usize) -> (r: Option<(usize, Prop)>)
    requires
        i <= s@.len(),
    ensures
        match r {
            Some(p) => sp_property(s@, i as int) == Some((p.0 as int, p.1@)) && i < p.0
                <= s@.len(),
            None => sp_property(s@, i as int) is None,
        },
{
    let n = s.len();
    let j = scan_token(s, i);
    if j == i || j >= n {
        return None;
    }
    let k = scan_ws(s, j);
    if k == j {
        return None;
    }
    let lit = lit_exit_if_x();
    if tok_eq(s, i, j, &lit) {
        return match bool_val(s, k) {
            Some((e, v)) => Some((e, Prop::ExitIf(v))),
            None => None,
        };
    }
    let lit = lit_flow_x();
    if tok_eq(s, i, j, &lit) {
        return match number_val(s, k) {
            Some((e, v)) => Some((e, Prop::Flow(v))),
            None => None,
        };
    }
    let lit = lit_volume_x();
    if tok_eq(s, i, j, &lit) {
        return match uint16_val(s, k) {
            Some((e, v)) => Some((e, Prop::Volume(v))),
            None => None,
        };
    }
    let lit = lit_max_flow_or_pressure_range_x();
    if tok_eq(s, i, j, &lit) {
        return match number_val(s, k) {
            Some((e, v)) => Some((e, Prop::MaxFlowOrPressureRange(v))),
            None => None,
        };
    }
    let lit = lit_transition_x();
    if tok_eq(s, i, j, &lit) {
        return match transition_val(s, k) {
            Some((e, v)) => Some((e, Prop::Transition(v))),
            None => None,
        };
    }
    let lit = lit_exit_flow_under_x();
    if tok_eq(s, i, j, &lit) {
        return match number_val(s, k) {
            Some((e, v)) => Some((e, Prop::ExitFlowUnder(v))),
            None => None,
        };
    }
    let lit = lit_temperature_x();
    if tok_eq(s, i, j, &lit) {
        return match number_val(s, k) {
            Some((e, v)) => Some((e, Prop::Temperature(v))),
            None => None,
        };
    }
    let lit = lit_name_x();
    if tok_eq(s, i, j, &lit) {
        return match string_val(s, k) {
            Some((e, v)) => Some((e, Prop::Name(v))),
            None => None,
        };
    }
    let lit = lit_pressure_x();
    if tok_eq(s, i, j, &lit) {
        return match number_val(s, k) {
            Some((e, v)) => Some((e, Prop::Pressure(v))),
            None => None,
        };
    }
    let lit = lit_sensor_x();
    if tok_eq(s, i, j, &lit) {
        return match sensor_val(s, k) {
            Some((e, v)) => Some((e, Prop::Sensor(v))),
            None => None,
        };
    }
    let lit = lit_pump_x();
    if tok_eq(s, i, j, &lit) {
        return match pump_val(s, k) {
            Some((e, v)) => Some((e, Prop::Pump(v))),
            None => None,
        };
    }
    let lit = lit_exit_type_x();
    if tok_eq(s, i, j, &lit) {
        return match exit_kind_val(s, k) {
            Some((e, v)) => Some((e, Prop::ExitType(v))),
            None => None,
        };
    }
    let lit = lit_exit_flow_over_x();
    if tok_eq(s, i, j, &lit) {
        return match number_val(s, k) {
            Some((e, v)) => Some((e, Prop::ExitFlowOver(v))),
            None => None,
        };
    }
    let lit = lit_exit_pressure_over_x();
    if tok_eq(s, i, j, &lit) {
        return match number_val(s, k) {
            Some((e, v)) => Some((e, Prop::ExitPressureOver(v))),
            None => None,
        };
    }
    let lit = lit_max_flow_or_pressure_x();
    if tok_eq(s, i, j, &lit) {
        return match number_val(s, k) {
            Some((e, v)) => Some((e, Prop::MaxFlowOrPressure(v))),
            None => None,
        };
    }
    let lit = lit_exit_pressure_under_x();
    if tok_eq(s, i, j, &lit) {
        return match number_val(s, k) {
            Some((e, v)) => Some((e, Prop::ExitPressureUnder(v))),
            None => None,
        };
    }
    let lit = lit_seconds_x();
    if tok_eq(s, i, j, &lit) {
        return match number_val(s, k) {
            Some((e, v)) => Some((e, Prop::Seconds(v))),
            None => None,
        };
    }
    None
}

/// The mathematical view of a property vector.
pub open spec fn props_view(v: Seq<Prop>) -> Seq<PropV> {
    v.map_values(|p: Prop| p@)
}

/// The mathematical view of a step vector.
pub open spec fn steps_view(v: Seq<Step>) -> Seq<Seq<PropV>> {
    v.map_values(|st: Step| st@)
}

pub proof fn lemma_props_view_push(v: Seq<Prop>, p: Prop)
    ensures
        props_view(v.push(p)) == props_view(v).push(p@),
{
    assert(props_view(v.push(p)) =~= props_view(v).push(p@));
}

pub proof fn lemma_steps_view_push(v: Seq<Step>, st: Step)
    ensures
        steps_view(v.push(st)) == steps_view(v).push(st@),
{
    assert(steps_view(v.push(st)) =~= steps_view(v).push(st@));
}

/// A successful property read consumes at least one byte and stays in bounds.
pub proof fn lemma_sp_property_consumes(s: Seq<u8>, i: int)
    requires
        0 <= i <= s.len(),
    ensures
        match sp_property(s, i) {
            Some(p) => i < p.0 <= s.len(),
            None => true,
        },
{
    lemma_token_end_bounds(s, i);
    let j = token_end(s, i);
    if i < j && j < s.len() {
        lemma_ws_end_bounds(s, j);
        let k = ws_end(s, j);
        if k > j {
            crate::number::lemma_sp_number_consumes(s, k);
            lemma_digit_run_end_bounds(s, k);
            lemma_token_end_bounds(s, k);
            if k < s.len() && s[k] == 123 {
                lemma_close_pos_bounds(s, k + 1);
            }
            assert(lit_fast().len() == 4);
            assert(lit_smooth().len() == 6);
            assert(lit_coffee().len() == 6);
            assert(lit_water().len() == 5);
            assert(lit_flow().len() == 4);
            assert(lit_pressure().len() == 8);
            assert(lit_pressure_under().len() == 14);
            assert(lit_pressure_over().len() == 13);
            assert(lit_flow_under().len() == 10);
            assert(lit_flow_over().len() == 9);
        }
    }
}

/// The generic `keyword string` line form: the given keyword token, at least
/// one blank, then a string value, read as an uninterpreted property.
pub open spec fn sp_prop_string(kw: Seq<u8>, s: Seq<u8>, i: int) -> Option<(int, PropV)> {
    let j = token_end(s, i);
    if j == i || j >= s.len() {
        None
    } else {
        let k = ws_end(s, j);
        if k == j {
            None
        } else if s.subrange(i, j) == kw {
            match sp_string(s, k) {
                Some((e, v)) => Some((e, PropV::Unknown(kw, v))),
                None => None,
            }
        } else {
            None
        }
    }
}

/// Read a `keyword string` pair for the given keyword, exactly as
/// `sp_prop_string` describes.
pub fn prop_string(kw: &[u8], s: &[u8], i: usize) -> (r: Option<(usize, Prop)>)
    requires
        i <= s@.len(),
    ensures
        match r {
            Some(p) => sp_prop_string(kw@, s@, i as int) == Some((p.0 as int, p.1@)) && i < p.0
                <= s@.len(),
            None => sp_prop_string(kw@, s@, i as int) is None,
        },
{
    let n = s.len();
    let j = scan_token(s, i);
    if j == i || j >= n {
        return None;
    }
    let k = scan_ws(s, j);
    if k == j {
        return None;
    }
    let kwv = copy_range(kw, 0, kw.len());
    proof {
        assert(kwv@ =~= kw@);
    }
    if tok_eq(s, i, j, &kwv) {
        match string_val(s, k) {
            Some((e, v)) => Some((e, Prop::Unknown(kwv, v))),
            None => None,
        }
    } else {
        None
    }
}

/// The body of a step: properties in sequence, each after the one before it,
/// the second and later ones separated from the last by at least one blank.
/// It cannot fail; it stops before the first byte that starts no property.
pub open spec fn sp_props(s: Seq<u8>, i: int) -> (int, Seq<PropV>)
    decreases s.len() - i,
{
    match sp_property(s, i) {
        None => (i, seq![]),
        Some((j, p)) => {
            let k = ws_end(s, j);
            if k == j || !(i < k && k <= s.len()) {
                (j, seq![p])
            } else {
                let r = sp_props(s, k);
                (r.0, seq![p] + r.1)
            }
        },
    }
}

pub proof fn lemma_sp_props_bounds(s: Seq<u8>, i: int)
    requires
        0 <= i <= s.len(),
    ensures
        i <= sp_props(s, i).0 <= s.len(),
    decreases s.len() - i,
{
    lemma_sp_property_consumes(s, i);
    match sp_property(s, i) {
        None => {},
        Some((j, p)) => {
            let k = ws_end(s, j);
            lemma_ws_end_bounds(s, j);
            if k == j || !(i < k && k <= s.len()) {
            } else {
                lemma_sp_props_bounds(s, k);
            }
        },
    }
}

/// Read a step body at `i`, exactly as `sp_props` describes.
pub fn props(s: &[u8], i: usize) -> (r: (usize, Vec<Prop>))
    requires
        i <= s@.len(),
    ensures
        r.0 as int == sp_props(s@, i as int).0,
        props_view(r.1@) == sp_props(s@, i as int).1,
        i <= r.0 <= s@.len(),
{
    let ghost te: int = sp_props(s@, i as int).0;
    let ghost tp: Seq<PropV> = sp_props(s@, i as int).1;
    proof {
        lemma_sp_props_bounds(s@, i as int);
    }
    let mut pos: usize = i;
    let mut acc: Vec<Prop> = Vec::new();
    loop
        invariant_except_break
            i <= pos <= s@.len(),
            sp_props(s@, pos as int).0 == te,
            props_view(acc@) + sp_props(s@, pos as int).1 == tp,
        ensures
            pos as int == te,
            props_view(acc@) == tp,
            i <= pos <= s@.len(),
        decreases s@.len() - pos,
    {
        proof {
            lemma_sp_property_consumes(s@, pos as int);
        }
        match property(s, pos) {
            None => {
                assert(props_view(acc@) + sp_props(s@, pos as int).1 =~= props_view(acc@));
                break;
            },
            Some((j, p)) => {
                let k = scan_ws(s, j);
                proof {
                    lemma_ws_end_bounds(s@, j as int);
                    lemma_props_view_push(acc@, p);
                }
                if k == j {
                    assert(sp_props(s@, pos as int).1 =~= seq![p@]);
                    acc.push(p);
                    pos = j;
                    assert(props_view(acc@) =~= tp);
                    break;
                } else {
                    assert(sp_props(s@, pos as int).1 =~= seq![p@] + sp_props(s@, k as int).1);
                    acc.push(p);
                    proof {
                        assert(props_view(acc@) + sp_props(s@, k as int).1 =~= tp);
                    }
                    pos = k;
                }
            },
        }
    }
    (pos, acc)
}

/// The step grammar: `{`, optional blanks, properties, optional blanks, `}`.
pub open spec fn sp_step(s: Seq<u8>, i: int) -> Option<(int, Seq<PropV>)> {
    if 0 <= i && i < s.len() && s[i] == 123 {
        let w = ws_end(s, i + 1);
        let r = sp_props(s, w);
        let e = ws_end(s, r.0);
        if e < s.len() && s[e] == 125 {
            Some((e + 1, r.1))
        } else {
            None
        }
    } else {
        None
    }
}

/// A successful step read consumes at least one byte and stays in bounds.
pub proof fn lemma_sp_step_consumes(s: Seq<u8>, i: int)
    requires
        0 <= i <= s.len(),
    ensures
        match sp_step(s, i) {
            Some(p) => i < p.0 <= s.len(),
            None => true,
        },
{
    if 0 <= i && i < s.len() && s[i] == 123 {
        lemma_ws_end_bounds(s, i + 1);
        let w = ws_end(s, i + 1);
        lemma_sp_props_bounds(s, w);
        let r = sp_props(s, w);
        lemma_ws_end_bounds(s, r.0);
    }
}

/// Read one step at `i`, exactly as `sp_step` describes.
pub fn step(s: &[u8], i: usize) -> (r: Option<(usize, Step)>)
    requires
        i <= s@.len(),
    ensures
        match r {
            Some(p) => sp_step(s@, i as int) == Some((p.0 as int, p.1@)) && i < p.0 <= s@.len(),
            None => sp_step(s@, i as int) is None,
        },
{
    let n = s.len();
    if i < n && s[i] == 123 {
        let w = scan_ws(s, i + 1);
        let (e, body) = props(s, w);
        let e2 = scan_ws(s, e);
        if e2 < n && s[e2] == 125 {
            Some((e2 + 1, Step(body)))
        } else {
            None
        }
    } else {
        None
    }
}

/// The profile grammar: steps separated by optional blanks.  It cannot fail;
/// it stops, with the blanks before the stop consumed, at the first position
/// where no further step starts.
pub open spec fn sp_steps(s: Seq<u8>, i: int) -> (int, Seq<Seq<PropV>>)
    decreases s.len() - i,
{
    let w = ws_end(s, i);
    match sp_step(s, w) {
        None => (w, seq![]),
        Some((j, st)) => {
            if i < j && j <= s.len() {
                let r = sp_steps(s, j);
                (r.0, seq![st] + r.1)
            } else {
                (j, seq![st])
            }
        },
    }
}

pub proof fn lemma_sp_steps_bounds(s: Seq<u8>, i: int)
    requires
        0 <= i <= s.len(),
    ensures
        i <= sp_steps(s, i).0 <= s.len(),
    decreases s.len() - i,
{
    lemma_ws_end_bounds(s, i);
    let w = ws_end(s, i);
    lemma_sp_step_consumes(s, w);
    match sp_step(s, w) {
        None => {},
        Some((j, st)) => {
            if i < j && j <= s.len() {
                lemma_sp_steps_bounds(s, j);
            }
        },
    }
}

/// Read every step the input offers, exactly as `sp_steps` describes, and
/// return the position where reading stopped.
pub fn steps(s: &[u8]) -> (r: (usize, Vec<Step>))
    ensures
        r.0 as int == sp_steps(s@, 0).0,
        steps_view(r.1@) == sp_steps(s@, 0).1,
        r.0 <= s@.len(),
{
    let ghost te: int = sp_steps(s@, 0).0;
    let ghost tp: Seq<Seq<PropV>> = sp_steps(s@, 0).1;
    proof {
        lemma_sp_steps_bounds(s@, 0);
    }
    let mut pos: usize = 0;
    let mut acc: Vec<Step> = Vec::new();
    loop
        invariant_except_break
            pos <= s@.len(),
            sp_steps(s@, pos as int).0 == te,
            steps_view(acc@) + sp_steps(s@, pos as int).1 == tp,
        ensures
            pos as int == te,
            steps_view(acc@) == tp,
            pos <= s@.len(),
        decreases s@.len() - pos,
    {
        let w = scan_ws(s, pos);
        proof {
            lemma_sp_step_consumes(s@, w as int);
        }
        match step(s, w) {
            None => {
                assert(steps_view(acc@) + sp_steps(s@, pos as int).1 =~= steps_view(acc@));
                pos = w;
                break;
            },
            Some((j, st)) => {
                proof {
                    lemma_steps_view_push(acc@, st);
                    assert(sp_steps(s@, pos as int).1 =~= seq![st@] + sp_steps(s@, j as int).1);
                }
                acc.push(st);
                proof {
                    assert(steps_view(acc@) + sp_steps(s@, j as int).1 =~= tp);
                }
                pos = j;
            },
        }
    }
    (pos, acc)
}

/// Read a whole profile.  It succeeds exactly when the steps, with the blanks
/// around and between them, reach the end of the input; anything left over is
/// the one syntax error.  Every profile it returns, the writer can reproduce.
pub fn parse(s: &[u8]) -> (r: Result<Vec<Step>, SyntaxError>)
    ensures
        match r {
            Ok(v) => sp_steps(s@, 0).0 == s@.len() && steps_view(v@) == sp_steps(s@, 0).1
                && crate::text::wf_profile(steps_view(v@)),
            Err(_) => sp_steps(s@, 0).0 != s@.len(),
        },
{
    proof {
        crate::text::lemma_sp_steps_wf(s@, 0);
    }
    let (e, v) = steps(s);
    if e == s.len() {
        Ok(v)
    } else {
        Err(SyntaxError)
    }
}


/// Byte-vector equality, element for element.
pub fn bytes_eq(a: &Vec<u8>, b: &Vec<u8>) -> (r: bool)
    ensures
        r == (a@ == b@),
{
    let n = a.len();
    if n != b.len() {
        return false;
    }
    let mut k: usize = 0;
    while k < n
        invariant
            n == a@.len() == b@.len(),
            k <= n,
            forall|t: int| 0 <= t < k ==> a@[t] == b@[t],
        decreases n - k,
    {
        if a[k] != b[k] {
            return false;
        }
        k = k + 1;
    }
    proof {
        assert(a@ =~= b@);
    }
    true
}

impl PartialEq for Prop {
    /// Two properties are equal when their mathematical views are.
    fn eq(&self, other: &Prop) -> (r: bool) {
        match (self, other) {
            (Prop::ExitIf(a), Prop::ExitIf(b)) => a == b,
            (Prop::Flow(a), Prop::Flow(b)) => a == b,
            (Prop::Volume(a), Prop::Volume(b)) => a == b,
            (Prop::MaxFlowOrPressureRange(a), Prop::MaxFlowOrPressureRange(b)) => a == b,
            (Prop::Transition(a), Prop::Transition(b)) => a == b,
            (Prop::ExitFlowUnder(a), Prop::ExitFlowUnder(b)) => a == b,
            (Prop::Temperature(a), Prop::Temperature(b)) => a == b,
            (Prop::Name(a), Prop::Name(b)) => bytes_eq(a, b),
            (Prop::Pressure(a), Prop::Pressure(b)) => a == b,
            (Prop::Sensor(a), Prop::Sensor(b)) => a == b,
            (Prop::Pump(a), Prop::Pump(b)) => a == b,
            (Prop::ExitType(a), Prop::ExitType(b)) => a == b,
            (Prop::ExitFlowOver(a), Prop::ExitFlowOver(b)) => a == b,
            (Prop::ExitPressureOver(a), Prop::ExitPressureOver(b)) => a == b,
            (Prop::MaxFlowOrPressure(a), Prop::MaxFlowOrPressure(b)) => a == b,
            (Prop::ExitPressureUnder(a), Prop::ExitPressureUnder(b)) => a == b,
            (Prop::Seconds(a), Prop::Seconds(b)) => a == b,
            (Prop::Unknown(k1, v1), Prop::Unknown(k2, v2)) => bytes_eq(k1, k2) && bytes_eq(
                v1,
                v2,
            ),
            _ => false,
        }
    }
}

impl vstd::std_specs::cmp::PartialEqSpecImpl for Prop {
    open spec fn obeys_eq_spec() -> bool {
        true
    }

    open spec fn eq_spec(&self, other: &Prop) -> bool {
        self@ == other@
    }
}

impl PartialEq for Step {
    /// Two steps are equal when they carry equal properties in equal order.
    fn eq(&self, other: &Step) -> (r: bool) {
        let n = self.0.len();
        if n != other.0.len() {
            proof {
                assert(self@.len() == n);
                assert(other@.len() == other.0@.len());
            }
            return false;
        }
        let mut k: usize = 0;
        while k < n
            invariant
                n == self.0@.len() == other.0@.len(),
                k <= n,
                forall|t: int| 0 <= t < k ==> self@[t] == other@[t],
            decreases n - k,
        {
            if !(self.0[k] == other.0[k]) {
                proof {
                    assert(self@[k as int] == self.0@[k as int]@);
                    assert(other@[k as int] == other.0@[k as int]@);
                }
                return false;
            }
            k = k + 1;
        }
        proof {
            assert(forall|t: int| 0 <= t < n ==> self@[t] == self.0@[t]@ && other@[t] == other.0@[t]@);
            assert(self@ =~= other@);
        }
        true
    }
}

impl vstd::std_specs::cmp::PartialEqSpecImpl for Step {
    open spec fn obeys_eq_spec() -> bool {
        true
    }

    open spec fn eq_spec(&self, other: &Step) -> bool {
        self@ == other@
    }
}

} // verus!
