//! The profile analyzer: from steps to per-channel traces.
//!
//! Walking the steps once, left to right, the analyzer appends straight line
//! segments to three channels — temperature, pressure, flow — and sums the
//! elapsed time.  Temperature always jumps and holds; pressure and flow move
//! as the step's transition kind says, but only while the pump regulates that
//! channel; when the pump mode changes between steps, the channel it leaves
//! drops to zero at the hand-off instant.  The whole pass is a function of the
//! steps alone: the same profile always yields the same traces.

use vstd::prelude::*;

use crate::number::Number;
use crate::parser::Prop;
use crate::parser::PropV;
use crate::parser::PumpType;
use crate::parser::Step;
use crate::parser::TransitionType;
use crate::parser::steps_view;

verus! {

/// One straight line of a channel's trace: from `(x1, y1)` to `(x2, y2)`,
/// x in elapsed seconds, y in the channel's physical unit.
#[derive(Clone, Copy, PartialEq, Eq, Structural, Debug)]
pub struct Segment {
    pub x1: Number,
    pub y1: Number,
    pub x2: Number,
    pub y2: Number,
}

/// Addition that stops at the largest representable time.
pub open spec fn sat_add(a: u64, b: u64) -> u64 {
    if a + b > u64::MAX {
        u64::MAX
    } else {
        (a + b) as u64
    }
}

fn sat_add_x(a: u64, b: u64) -> (r: u64)
    ensures
        r == sat_add(a, b),
{
    if a > u64::MAX - b {
        u64::MAX
    } else {
        a + b
    }
}

/// The analyzer's whole state: the three traces so far, the time consumed so
/// far, and what the previous step handed over.
pub struct AnState {
    pub temperature: Seq<Segment>,
    pub pressure: Seq<Segment>,
    pub flow: Seq<Segment>,
    pub elapsed: u64,
    pub prev_pump: Option<PumpType>,
    pub prev_exit_flow: Option<Number>,
}

/// Pack the analyzer's pieces into one state.
pub open spec fn st_of(
    t: Seq<Segment>,
    p: Seq<Segment>,
    f: Seq<Segment>,
    e: u64,
    pp: Option<PumpType>,
    pe: Option<Number>,
) -> AnState {
    AnState { temperature: t, pressure: p, flow: f, elapsed: e, prev_pump: pp, prev_exit_flow: pe }
}

/// Where nothing has run yet.
pub open spec fn sp_init() -> AnState {
    st_of(seq![], seq![], seq![], 0, None, None)
}

/// The step's duration: its last `seconds` property, or zero without one.
pub open spec fn sp_seconds(ps: Seq<PropV>) -> Number
    decreases ps.len(),
{
    if ps.len() == 0 {
        Number { micros: 0 }
    } else {
        match ps.last() {
            PropV::Seconds(n) => n,
            _ => sp_seconds(ps.drop_last()),
        }
    }
}

/// The step's transition kind: its last `transition` property.  A step
/// without one jumps and holds, as if it said `fast`.
pub open spec fn sp_transition_of(ps: Seq<PropV>) -> TransitionType
    decreases ps.len(),
{
    if ps.len() == 0 {
        TransitionType::Fast
    } else {
        match ps.last() {
            PropV::Transition(t) => t,
            _ => sp_transition_of(ps.drop_last()),
        }
    }
}

/// The step's pump mode: its last `pump` property.  A step without one drives
/// neither the pressure nor the flow channel.
pub open spec fn sp_pump_of(ps: Seq<PropV>) -> Option<PumpType>
    decreases ps.len(),
{
    if ps.len() == 0 {
        None
    } else {
        match ps.last() {
            PropV::Pump(k) => Some(k),
            _ => sp_pump_of(ps.drop_last()),
        }
    }
}

/// The flow value a step carries into the next one: its last exit-flow bound,
/// over or under, whichever stands later in the step.
pub open spec fn sp_exit_flow_of(ps: Seq<PropV>) -> Option<Number>
    decreases ps.len(),
{
    if ps.len() == 0 {
        None
    } else {
        match ps.last() {
            PropV::ExitFlowOver(n) => Some(n),
            PropV::ExitFlowUnder(n) => Some(n),
            _ => sp_exit_flow_of(ps.drop_last()),
        }
    }
}

/// What one property does to the state, under the step's duration `dur`
/// (in millionths of a second), transition kind and pump mode.
pub open spec fn sp_apply_prop(
    st: AnState,
    dur: u64,
    tr: TransitionType,
    pump: Option<PumpType>,
    p: PropV,
) -> AnState {
    let e = st.elapsed;
    let end = sat_add(st.elapsed, dur);
    match p {
        PropV::Temperature(t) => {
            // always a jump from the previous value, then a hold
            let hold = Segment { x1: Number { micros: e }, y1: t, x2: Number { micros: end }, y2: t };
            if st.temperature.len() > 0 {
                let prev = st.temperature.last().y2;
                let jump = Segment { x1: Number { micros: e }, y1: prev, x2: Number { micros: e }, y2: t };
                st_of(
                    st.temperature.push(jump).push(hold),
                    st.pressure,
                    st.flow,
                    st.elapsed,
                    st.prev_pump,
                    st.prev_exit_flow,
                )
            } else {
                st_of(
                    st.temperature.push(hold),
                    st.pressure,
                    st.flow,
                    st.elapsed,
                    st.prev_pump,
                    st.prev_exit_flow,
                )
            }
        },
        PropV::Pressure(v) => {
            if pump == Some(PumpType::Pressure) {
                // hand-off: the flow the pump stops driving drops to zero
                let flow2 = if st.prev_pump == Some(PumpType::Flow) && st.flow.len() > 0 {
                    let last = st.flow.last();
                    st.flow.push(
                        Segment { x1: last.x2, y1: last.y2, x2: last.x2, y2: Number { micros: 0 } },
                    )
                } else {
                    st.flow
                };
                let hold = Segment { x1: Number { micros: e }, y1: v, x2: Number { micros: end }, y2: v };
                let pressure2 = if st.pressure.len() > 0 {
                    let prev = st.pressure.last().y2;
                    match tr {
                        TransitionType::Fast => st.pressure.push(
                            Segment { x1: Number { micros: e }, y1: prev, x2: Number { micros: e }, y2: v },
                        ).push(hold),
                        TransitionType::Smooth => st.pressure.push(
                            Segment { x1: Number { micros: e }, y1: prev, x2: Number { micros: end }, y2: v },
                        ),
                    }
                } else {
                    st.pressure.push(
                        Segment {
                            x1: Number { micros: e },
                            y1: Number { micros: 0 },
                            x2: Number { micros: e },
                            y2: v,
                        },
                    ).push(hold)
                };
                st_of(st.temperature, pressure2, flow2, st.elapsed, st.prev_pump, st.prev_exit_flow)
            } else {
                st
            }
        },
        PropV::Flow(v) => {
            if pump == Some(PumpType::Flow) {
                // hand-off: the pressure the pump stops driving drops to zero
                let pressure2 = if st.prev_pump == Some(PumpType::Pressure) && st.pressure.len()
                    > 0 {
                    let last = st.pressure.last();
                    st.pressure.push(
                        Segment { x1: last.x2, y1: last.y2, x2: last.x2, y2: Number { micros: 0 } },
                    )
                } else {
                    st.pressure
                };
                let hold = Segment { x1: Number { micros: e }, y1: v, x2: Number { micros: end }, y2: v };
                let flow2 = if st.flow.len() > 0 {
                    let prev = st.flow.last().y2;
                    // the carried exit flow first corrects the origin
                    let base = match st.prev_exit_flow {
                        Some(f) => st.flow.push(
                            Segment { x1: Number { micros: e }, y1: prev, x2: Number { micros: e }, y2: f },
                        ),
                        None => st.flow,
                    };
                    let origin = match st.prev_exit_flow {
                        Some(f) => f,
                        None => prev,
                    };
                    match tr {
                        TransitionType::Fast => base.push(
                            Segment { x1: Number { micros: e }, y1: origin, x2: Number { micros: e }, y2: v },
                        ).push(hold),
                        TransitionType::Smooth => base.push(
                            Segment { x1: Number { micros: e }, y1: origin, x2: Number { micros: end }, y2: v },
                        ),
                    }
                } else {
                    st.flow.push(
                        Segment {
                            x1: Number { micros: e },
                            y1: Number { micros: 0 },
                            x2: Number { micros: e },
                            y2: v,
                        },
                    ).push(hold)
                };
                st_of(st.temperature, pressure2, flow2, st.elapsed, st.prev_pump, st.prev_exit_flow)
            } else {
                st
            }
        },
        _ => st,
    }
}

/// What a step's properties, in order, do to the state.
pub open spec fn sp_apply_props(
    st: AnState,
    dur: u64,
    tr: TransitionType,
    pump: Option<PumpType>,
    ps: Seq<PropV>,
) -> AnState
    decreases ps.len(),
{
    if ps.len() == 0 {
        st
    } else {
        sp_apply_props(sp_apply_prop(st, dur, tr, pump, ps[0]), dur, tr, pump, ps.drop_first())
    }
}

/// What one whole step does: its properties, then the bookkeeping — time
/// moves by the duration, and the pump mode and carried exit flow are noted
/// for the next step.
pub open spec fn sp_apply_step(st: AnState, ps: Seq<PropV>) -> AnState {
    let dur = sp_seconds(ps).micros;
    let mid = sp_apply_props(st, dur, sp_transition_of(ps), sp_pump_of(ps), ps);
    st_of(
        mid.temperature,
        mid.pressure,
        mid.flow,
        sat_add(mid.elapsed, dur),
        sp_pump_of(ps),
        sp_exit_flow_of(ps),
    )
}

/// The steps from `v`, applied in order from `st`.
pub open spec fn sp_analyze_from(st: AnState, v: Seq<Seq<PropV>>) -> AnState
    decreases v.len(),
{
    if v.len() == 0 {
        st
    } else {
        sp_analyze_from(sp_apply_step(st, v[0]), v.drop_first())
    }
}

/// The whole analysis: every step applied to the empty state.
pub open spec fn sp_analyze(v: Seq<Seq<PropV>>) -> AnState {
    sp_analyze_from(sp_init(), v)
}

impl Step {
    /// The step's duration, per `sp_seconds`.
    pub fn seconds(&self) -> (r: Number)
        ensures
            r == sp_seconds(self@),
    {
        let mut k: usize = self.0.len();
        proof {
            assert(self@.take(k as int) =~= self@);
        }
        while k > 0
            invariant
                k <= self.0@.len(),
                sp_seconds(self@.take(k as int)) == sp_seconds(self@),
            decreases k,
        {
            proof {
                assert(self@.take(k as int).last() == self@[k - 1int]);
                assert(self@[k - 1int] == self.0@[k - 1int]@);
                assert(self@.take(k as int).drop_last() =~= self@.take(k - 1int));
            }
            match &self.0[k - 1] {
                Prop::Seconds(n) => {
                    return *n;
                },
                _ => {},
            }
            k = k - 1;
        }
        proof {
            assert(self@.take(0) =~= Seq::<PropV>::empty());
        }
        Number { micros: 0 }
    }

    /// The step's transition kind, per `sp_transition_of`.
    pub fn transition(&self) -> (r: TransitionType)
        ensures
            r == sp_transition_of(self@),
    {
        let mut k: usize = self.0.len();
        proof {
            assert(self@.take(k as int) =~= self@);
        }
        while k > 0
            invariant
                k <= self.0@.len(),
                sp_transition_of(self@.take(k as int)) == sp_transition_of(self@),
            decreases k,
        {
            proof {
                assert(self@.take(k as int).last() == self@[k - 1int]);
                assert(self@[k - 1int] == self.0@[k - 1int]@);
                assert(self@.take(k as int).drop_last() =~= self@.take(k - 1int));
            }
            match &self.0[k - 1] {
                Prop::Transition(t) => {
                    return *t;
                },
                _ => {},
            }
            k = k - 1;
        }
        proof {
            assert(self@.take(0) =~= Seq::<PropV>::empty());
        }
        TransitionType::Fast
    }

    /// The step's pump mode, per `sp_pump_of`.
    pub fn pump(&self) -> (r: Option<PumpType>)
        ensures
            r == sp_pump_of(self@),
    {
        let mut k: usize = self.0.len();
        proof {
            assert(self@.take(k as int) =~= self@);
        }
        while k > 0
            invariant
                k <= self.0@.len(),
                sp_pump_of(self@.take(k as int)) == sp_pump_of(self@),
            decreases k,
        {
            proof {
                assert(self@.take(k as int).last() == self@[k - 1int]);
                assert(self@[k - 1int] == self.0@[k - 1int]@);
                assert(self@.take(k as int).drop_last() =~= self@.take(k - 1int));
            }
            match &self.0[k - 1] {
                Prop::Pump(p) => {
                    return Some(*p);
                },
                _ => {},
            }
            k = k - 1;
        }
        proof {
            assert(self@.take(0) =~= Seq::<PropV>::empty());
        }
        None
    }

    /// The step's carried exit flow, per `sp_exit_flow_of`.
    pub fn exit_flow(&self) -> (r: Option<Number>)
        ensures
            r == sp_exit_flow_of(self@),
    {
        let mut k: usize = self.0.len();
        proof {
            assert(self@.take(k as int) =~= self@);
        }
        while k > 0
            invariant
                k <= self.0@.len(),
                sp_exit_flow_of(self@.take(k as int)) == sp_exit_flow_of(self@),
            decreases k,
        {
            proof {
                assert(self@.take(k as int).last() == self@[k - 1int]);
                assert(self@[k - 1int] == self.0@[k - 1int]@);
                assert(self@.take(k as int).drop_last() =~= self@.take(k - 1int));
            }
            match &self.0[k - 1] {
                Prop::ExitFlowOver(n) => {
                    return Some(*n);
                },
                Prop::ExitFlowUnder(n) => {
                    return Some(*n);
                },
                _ => {},
            }
            k = k - 1;
        }
        proof {
            assert(self@.take(0) =~= Seq::<PropV>::empty());
        }
        None
    }
}

/// Reduce a profile to its three traces and its total duration, exactly as
/// `sp_analyze` describes.  The result is a function of the steps alone: two
/// calls on equal profiles return equal traces and an equal duration.
pub fn analyze(steps: &Vec<Step>) -> (r: (Vec<Segment>, Vec<Segment>, Vec<Segment>, Number))
    ensures
        ({
            let fin = sp_analyze(steps_view(steps@));
            r.0@ == fin.temperature && r.1@ == fin.pressure && r.2@ == fin.flow && r.3.micros
                == fin.elapsed
        }),
{
    let ghost target: AnState = sp_analyze(steps_view(steps@));
    let mut temp: Vec<Segment> = Vec::new();
    let mut pres: Vec<Segment> = Vec::new();
    let mut flow: Vec<Segment> = Vec::new();
    let mut elapsed: u64 = 0;
    let mut prev_pump: Option<PumpType> = None;
    let mut prev_exit: Option<Number> = None;
    let n = steps.len();
    let mut k: usize = 0;
    proof {
        assert(steps_view(steps@).skip(0) =~= steps_view(steps@));
    }
    while k < n
        invariant
            n == steps@.len(),
            k <= n,
            sp_analyze_from(
                st_of(temp@, pres@, flow@, elapsed, prev_pump, prev_exit),
                steps_view(steps@).skip(k as int),
            ) == target,
        decreases n - k,
    {
        let ghost entry: AnState = st_of(temp@, pres@, flow@, elapsed, prev_pump, prev_exit);
        let st = &steps[k];
        let dur = st.seconds();
        let tr = st.transition();
        let pump = st.pump();
        let end = sat_add_x(elapsed, dur.micros);
        let plen = st.0.len();
        let mut j: usize = 0;
        proof {
            assert(st@.skip(0) =~= st@);
        }
        while j < plen
            invariant
                plen == st.0@.len(),
                j <= plen,
                sp_apply_props(
                    st_of(temp@, pres@, flow@, elapsed, prev_pump, prev_exit),
                    dur.micros,
                    tr,
                    pump,
                    st@.skip(j as int),
                ) == sp_apply_props(entry, dur.micros, tr, pump, st@),
                elapsed == entry.elapsed,
                prev_pump == entry.prev_pump,
                prev_exit == entry.prev_exit_flow,
                end == sat_add(elapsed, dur.micros),
            decreases plen - j,
        {
            let ghost before: AnState = st_of(temp@, pres@, flow@, elapsed, prev_pump, prev_exit);
            proof {
                assert(st@.skip(j as int)[0] == st@[j as int]);
                assert(st@.skip(j as int).drop_first() =~= st@.skip(j + 1int));
                assert(st@[j as int] == st.0@[j as int]@);
            }
            match &st.0[j] {
                Prop::Temperature(t) => {
                    let hold = Segment { x1: Number { micros: elapsed }, y1: *t, x2: Number { micros: end }, y2: *t };
                    if temp.len() > 0 {
                        let prev = temp[temp.len() - 1].y2;
                        let jump = Segment { x1: Number { micros: elapsed }, y1: prev, x2: Number { micros: elapsed }, y2: *t };
                        temp.push(jump);
                        temp.push(hold);
                    } else {
                        temp.push(hold);
                    }
                },
                Prop::Pressure(v) => {
                    match pump {
                        Some(PumpType::Pressure) => {
                            match prev_pump {
                                Some(PumpType::Flow) => {
                                    if flow.len() > 0 {
                                        let last = flow[flow.len() - 1];
                                        flow.push(
                                            Segment {
                                                x1: last.x2,
                                                y1: last.y2,
                                                x2: last.x2,
                                                y2: Number { micros: 0 },
                                            },
                                        );
                                    }
                                },
                                _ => {},
                            }
                            let hold = Segment { x1: Number { micros: elapsed }, y1: *v, x2: Number { micros: end }, y2: *v };
                            if pres.len() > 0 {
                                let prev = pres[pres.len() - 1].y2;
                                match tr {
                                    TransitionType::Fast => {
                                        pres.push(
                                            Segment {
                                                x1: Number { micros: elapsed },
                                                y1: prev,
                                                x2: Number { micros: elapsed },
                                                y2: *v,
                                            },
                                        );
                                        pres.push(hold);
                                    },
                                    TransitionType::Smooth => {
                                        pres.push(
                                            Segment {
                                                x1: Number { micros: elapsed },
                                                y1: prev,
                                                x2: Number { micros: end },
                                                y2: *v,
                                            },
                                        );
                                    },
                                }
                            } else {
                                pres.push(
                                    Segment {
                                        x1: Number { micros: elapsed },
                                        y1: Number { micros: 0 },
                                        x2: Number { micros: elapsed },
                                        y2: *v,
                                    },
                                );
                                pres.push(hold);
                            }
                        },
                        _ => {},
                    }
                },
                Prop::Flow(v) => {
                    match pump {
                        Some(PumpType::Flow) => {
                            match prev_pump {
                                Some(PumpType::Pressure) => {
                                    if pres.len() > 0 {
                                        let last = pres[pres.len() - 1];
                                        pres.push(
                                            Segment {
                                                x1: last.x2,
                                                y1: last.y2,
                                                x2: last.x2,
                                                y2: Number { micros: 0 },
                                            },
                                        );
                                    }
                                },
                                _ => {},
                            }
                            let hold = Segment { x1: Number { micros: elapsed }, y1: *v, x2: Number { micros: end }, y2: *v };
                            if flow.len() > 0 {
                                let prev = flow[flow.len() - 1].y2;
                                let origin = match prev_exit {
                                    Some(f) => {
                                        flow.push(
                                            Segment {
                                                x1: Number { micros: elapsed },
                                                y1: prev,
                                                x2: Number { micros: elapsed },
                                                y2: f,
                                            },
                                        );
                                        f
                                    },
                                    None => prev,
                                };
                                match tr {
                                    TransitionType::Fast => {
                                        flow.push(
                                            Segment {
                                                x1: Number { micros: elapsed },
                                                y1: origin,
                                                x2: Number { micros: elapsed },
                                                y2: *v,
                                            },
                                        );
                                        flow.push(hold);
                                    },
                                    TransitionType::Smooth => {
                                        flow.push(
                                            Segment {
                                                x1: Number { micros: elapsed },
                                                y1: origin,
                                                x2: Number { micros: end },
                                                y2: *v,
                                            },
                                        );
                                    },
                                }
                            } else {
                                flow.push(
                                    Segment {
                                        x1: Number { micros: elapsed },
                                        y1: Number { micros: 0 },
                                        x2: Number { micros: elapsed },
                                        y2: *v,
                                    },
                                );
                                flow.push(hold);
                            }
                        },
                        _ => {},
                    }
                },
                _ => {},
            }
            proof {
                assert(st_of(temp@, pres@, flow@, elapsed, prev_pump, prev_exit) == sp_apply_prop(
                    before,
                    dur.micros,
                    tr,
                    pump,
                    st@[j as int],
                ));
            }
            j = j + 1;
        }
        proof {
            assert(st@.skip(plen as int) =~= Seq::<PropV>::empty());
        }
        elapsed = end;
        prev_pump = pump;
        prev_exit = st.exit_flow();
        proof {
            assert(steps_view(steps@).skip(k as int)[0] == steps_view(steps@)[k as int]);
            assert(steps_view(steps@)[k as int] == steps@[k as int]@);
            assert(steps_view(steps@).skip(k as int).drop_first() =~= steps_view(steps@).skip(
                k + 1int,
            ));
            assert(st_of(temp@, pres@, flow@, elapsed, prev_pump, prev_exit) == sp_apply_step(
                entry,
                st@,
            ));
        }
        k = k + 1;
    }
    proof {
        assert(steps_view(steps@).skip(n as int) =~= Seq::<Seq<PropV>>::empty());
    }
    (temp, pres, flow, Number { micros: elapsed })
}


/// Law (hand-off, pressure to flow): when a flow-driving step reads a flow
/// value right after a pressure-driven step, the first segment appended for
/// it is the pressure trace's drop to zero at its last point.
pub proof fn lemma_handoff_drops_pressure(
    st: AnState,
    dur: u64,
    tr: TransitionType,
    v: Number,
)
    requires
        st.prev_pump == Some(PumpType::Pressure),
        st.pressure.len() > 0,
    ensures
        ({
            let last = st.pressure.last();
            sp_apply_prop(st, dur, tr, Some(PumpType::Flow), PropV::Flow(v)).pressure
                == st.pressure.push(
                Segment { x1: last.x2, y1: last.y2, x2: last.x2, y2: Number { micros: 0 } },
            )
        }),
{
}

/// Law (hand-off, no prior point): when the trace the pump leaves behind has
/// no point yet, no drop segment is appended to it.
pub proof fn lemma_handoff_no_prior_point(st: AnState, dur: u64, tr: TransitionType, v: Number)
    requires
        st.pressure.len() == 0,
    ensures
        sp_apply_prop(st, dur, tr, Some(PumpType::Flow), PropV::Flow(v)).pressure == st.pressure,
{
}

/// Law (hand-off, flow to pressure): the mirror image — a pressure-driving
/// step right after a flow-driven one first drops the flow trace to zero.
pub proof fn lemma_handoff_drops_flow(st: AnState, dur: u64, tr: TransitionType, v: Number)
    requires
        st.prev_pump == Some(PumpType::Flow),
        st.flow.len() > 0,
    ensures
        ({
            let last = st.flow.last();
            sp_apply_prop(st, dur, tr, Some(PumpType::Pressure), PropV::Pressure(v)).flow
                == st.flow.push(
                Segment { x1: last.x2, y1: last.y2, x2: last.x2, y2: Number { micros: 0 } },
            )
        }),
{
}

/// Law (inert steps): a step whose pump mode is absent drives neither the
/// pressure nor the flow channel with its pressure and flow values.
pub proof fn lemma_no_pump_no_drive(st: AnState, dur: u64, tr: TransitionType, p: PropV)
    requires
        p is Pressure || p is Flow,
    ensures
        sp_apply_prop(st, dur, tr, None, p).pressure == st.pressure,
        sp_apply_prop(st, dur, tr, None, p).flow == st.flow,
{
}


/// One bundled profile: its display title, its notes, and the raw step text
/// handed to the reader.  The caller that owns the bundled files builds these
/// and passes the mapping in; the library holds no hidden table.
#[derive(Clone, Debug)]
pub struct Preset {
    pub title: String,
    pub notes: String,
    pub data: String,
}

impl Default for Preset {
    /// An empty preset: every field blank.
    fn default() -> (r: Preset)
        ensures
            r.title@ == Seq::<char>::empty(),
            r.notes@ == Seq::<char>::empty(),
            r.data@ == Seq::<char>::empty(),
    {
        Preset { title: String::new(), notes: String::new(), data: String::new() }
    }
}

/// Whether `n` occurs in `h` as a contiguous run.
pub open spec fn contains_sub(h: Seq<u8>, n: Seq<u8>) -> bool {
    exists|i: int| 0 <= i <= h.len() - n.len() && #[trigger] h.subrange(i, i + n.len()) == n
}

/// Search `h` for the bytes of `n`.
pub fn contains_bytes(h: &[u8], n: &[u8]) -> (r: bool)
    ensures
        r == contains_sub(h@, n@),
{
    let hn = h.len();
    let nn = n.len();
    if nn > hn {
        return false;
    }
    if nn == 0 {
        proof {
            assert(h@.subrange(0, 0 + n@.len() as int) =~= n@);
            assert(contains_sub(h@, n@));
        }
        return true;
    }
    let nv = crate::parser::copy_range(n, 0, nn);
    proof {
        assert(nv@ =~= n@);
    }
    let mut i: usize = 0;
    while i < hn - nn + 1
        invariant
            1 <= nn <= hn,
            hn == h@.len(),
            nn == n@.len(),
            nv@ == n@,
            i <= hn - nn + 1,
            forall|t: int| 0 <= t < i ==> #[trigger] h@.subrange(t, t + n@.len()) != n@,
        decreases hn - nn + 1 - i,
    {
        if crate::parser::starts_with(h, i, &nv) {
            proof {
                assert(h@.subrange(i as int, i + n@.len()) == n@);
            }
            return true;
        }
        proof {
            assert(h@.subrange(i as int, i + n@.len()) != n@);
        }
        i = i + 1;
    }
    proof {
        assert(forall|t: int| 0 <= t <= h@.len() - n@.len() ==> #[trigger] h@.subrange(t, t + n@.len()) != n@);
    }
    false
}

/// The marker that names the advanced profile format in a bundled file.
pub open spec fn lit_settings_2c() -> Seq<u8> {
    seq![
        's' as u8, 'e' as u8, 't' as u8, 't' as u8, 'i' as u8, 'n' as u8, 'g' as u8, 's' as u8,
        '_' as u8, '2' as u8, 'c' as u8,
    ]
}

/// Whether a bundled file declares the advanced profile format.
pub fn has_advanced_marker(src: &[u8]) -> (r: bool)
    ensures
        r == contains_sub(src@, lit_settings_2c()),
{
    let marker: Vec<u8> = vec![
        's' as u8, 'e' as u8, 't' as u8, 't' as u8, 'i' as u8, 'n' as u8, 'g' as u8, 's' as u8,
        '_' as u8, '2' as u8, 'c' as u8,
    ];
    proof {
        assert(marker@ =~= lit_settings_2c());
    }
    contains_bytes(src, marker.as_slice())
}

/// The line prefix that carries a preset's raw step text.
pub open spec fn lit_advanced_shot() -> Seq<u8> {
    seq![
        'a' as u8, 'd' as u8, 'v' as u8, 'a' as u8, 'n' as u8, 'c' as u8, 'e' as u8, 'd' as u8,
        '_' as u8, 's' as u8, 'h' as u8, 'o' as u8, 't' as u8,
    ]
}

/// From a bundled file's line that starts `advanced_shot {…}`, the step text
/// between the braces, with a newline appended; nothing from any other line,
/// or from one too short to carry braces.
pub fn advanced_shot_payload(line: &[u8]) -> (r: Option<Vec<u8>>)
    ensures
        match r {
            Some(v) => crate::parser::sp_starts_with(line@, 0, lit_advanced_shot()) && line@.len()
                >= 16 && v@ == line@.subrange(15, line@.len() - 1) + seq![10u8],
            None => !(crate::parser::sp_starts_with(line@, 0, lit_advanced_shot()) && line@.len()
                >= 16),
        },
{
    let prefix: Vec<u8> = vec![
        'a' as u8, 'd' as u8, 'v' as u8, 'a' as u8, 'n' as u8, 'c' as u8, 'e' as u8, 'd' as u8,
        '_' as u8, 's' as u8, 'h' as u8, 'o' as u8, 't' as u8,
    ];
    proof {
        assert(prefix@ =~= lit_advanced_shot());
    }
    if line.len() >= 16 && crate::parser::starts_with(line, 0, &prefix) {
        let mut v = crate::parser::copy_range(line, 15, line.len() - 1);
        v.push(10);
        proof {
            assert(v@ =~= line@.subrange(15, line@.len() - 1) + seq![10u8]);
        }
        Some(v)
    } else {
        None
    }
}


proof fn lemma_prefix_push<T>(s: Seq<T>, a: T)
    ensures
        s.is_prefix_of(s.push(a)),
{
    assert(s.push(a).take(s.len() as int) =~= s);
}

proof fn lemma_prefix_trans<T>(a: Seq<T>, b: Seq<T>, c: Seq<T>)
    requires
        a.is_prefix_of(b),
        b.is_prefix_of(c),
    ensures
        a.is_prefix_of(c),
{
    assert(c.take(a.len() as int) =~= c.take(b.len() as int).take(a.len() as int));
}

/// One property only appends: each trace keeps what it had, and the step's
/// bookkeeping fields do not move.
proof fn lemma_apply_prop_appends(
    st: AnState,
    dur: u64,
    tr: TransitionType,
    pump: Option<PumpType>,
    p: PropV,
)
    ensures
        ({
            let r = sp_apply_prop(st, dur, tr, pump, p);
            st.temperature.is_prefix_of(r.temperature) && st.pressure.is_prefix_of(r.pressure)
                && st.flow.is_prefix_of(r.flow) && r.elapsed == st.elapsed && r.prev_pump
                == st.prev_pump && r.prev_exit_flow == st.prev_exit_flow
        }),
{
    let r = sp_apply_prop(st, dur, tr, pump, p);
    assert(st.temperature.is_prefix_of(st.temperature)) by {
        assert(st.temperature.take(st.temperature.len() as int) =~= st.temperature);
    }
    assert(st.pressure.is_prefix_of(st.pressure)) by {
        assert(st.pressure.take(st.pressure.len() as int) =~= st.pressure);
    }
    assert(st.flow.is_prefix_of(st.flow)) by {
        assert(st.flow.take(st.flow.len() as int) =~= st.flow);
    }
    assert forall|ch: Seq<Segment>, a: Segment| ch.is_prefix_of(#[trigger] ch.push(a)) by {
        lemma_prefix_push(ch, a);
    }
    assert forall|ch: Seq<Segment>, a: Segment, b: Segment|
        ch.is_prefix_of(#[trigger] ch.push(a).push(b)) by {
        lemma_prefix_push(ch, a);
        lemma_prefix_push(ch.push(a), b);
        lemma_prefix_trans(ch, ch.push(a), ch.push(a).push(b));
    }
}

/// A step's properties only append.
proof fn lemma_apply_props_appends(
    st: AnState,
    dur: u64,
    tr: TransitionType,
    pump: Option<PumpType>,
    ps: Seq<PropV>,
)
    ensures
        ({
            let r = sp_apply_props(st, dur, tr, pump, ps);
            st.temperature.is_prefix_of(r.temperature) && st.pressure.is_prefix_of(r.pressure)
                && st.flow.is_prefix_of(r.flow) && r.elapsed == st.elapsed
        }),
    decreases ps.len(),
{
    let r = sp_apply_props(st, dur, tr, pump, ps);
    if ps.len() == 0 {
        assert(st.temperature.is_prefix_of(r.temperature)) by {
            assert(r.temperature.take(st.temperature.len() as int) =~= st.temperature);
        }
        assert(st.pressure.is_prefix_of(r.pressure)) by {
            assert(r.pressure.take(st.pressure.len() as int) =~= st.pressure);
        }
        assert(st.flow.is_prefix_of(r.flow)) by {
            assert(r.flow.take(st.flow.len() as int) =~= st.flow);
        }
    } else {
        let mid = sp_apply_prop(st, dur, tr, pump, ps[0]);
        lemma_apply_prop_appends(st, dur, tr, pump, ps[0]);
        lemma_apply_props_appends(mid, dur, tr, pump, ps.drop_first());
        lemma_prefix_trans(st.temperature, mid.temperature, r.temperature);
        lemma_prefix_trans(st.pressure, mid.pressure, r.pressure);
        lemma_prefix_trans(st.flow, mid.flow, r.flow);
    }
}

/// Law (append only): the analyzer never removes or reorders a segment, and
/// time never runs backwards — after any further steps, each channel's trace
/// still begins with everything it already held, and the elapsed time is at
/// least what it was.
pub proof fn lemma_analyze_appends(st: AnState, v: Seq<Seq<PropV>>)
    ensures
        ({
            let r = sp_analyze_from(st, v);
            st.temperature.is_prefix_of(r.temperature) && st.pressure.is_prefix_of(r.pressure)
                && st.flow.is_prefix_of(r.flow) && r.elapsed >= st.elapsed
        }),
    decreases v.len(),
{
    let r = sp_analyze_from(st, v);
    if v.len() == 0 {
        assert(st.temperature.is_prefix_of(r.temperature)) by {
            assert(r.temperature.take(st.temperature.len() as int) =~= st.temperature);
        }
        assert(st.pressure.is_prefix_of(r.pressure)) by {
            assert(r.pressure.take(st.pressure.len() as int) =~= st.pressure);
        }
        assert(st.flow.is_prefix_of(r.flow)) by {
            assert(r.flow.take(st.flow.len() as int) =~= st.flow);
        }
    } else {
        let stepped = sp_apply_step(st, v[0]);
        lemma_apply_props_appends(
            st,
            sp_seconds(v[0]).micros,
            sp_transition_of(v[0]),
            sp_pump_of(v[0]),
            v[0],
        );
        lemma_analyze_appends(stepped, v.drop_first());
        lemma_prefix_trans(st.temperature, stepped.temperature, r.temperature);
        lemma_prefix_trans(st.pressure, stepped.pressure, r.pressure);
        lemma_prefix_trans(st.flow, stepped.flow, r.flow);
    }
}


/// A segment that runs forward in time: instantaneous or extended, never
/// backward.
pub open spec fn seg_ordered(g: Segment) -> bool {
    g.x1.micros <= g.x2.micros
}

/// Every segment of the trace runs forward in time.
pub open spec fn channel_ordered(ch: Seq<Segment>) -> bool {
    forall|k: int| 0 <= k < ch.len() ==> seg_ordered(#[trigger] ch[k])
}

/// Every segment of every trace runs forward in time.
pub open spec fn state_ordered(st: AnState) -> bool {
    channel_ordered(st.temperature) && channel_ordered(st.pressure) && channel_ordered(st.flow)
}

proof fn lemma_push_ordered(ch: Seq<Segment>, g: Segment)
    requires
        channel_ordered(ch),
        seg_ordered(g),
    ensures
        channel_ordered(ch.push(g)),
{
    assert forall|k: int| 0 <= k < ch.push(g).len() implies seg_ordered(
        #[trigger] ch.push(g)[k],
    ) by {
        if k < ch.len() {
            assert(ch.push(g)[k] == ch[k]);
        }
    }
}

proof fn lemma_apply_prop_ordered(
    st: AnState,
    dur: u64,
    tr: TransitionType,
    pump: Option<PumpType>,
    p: PropV,
)
    requires
        state_ordered(st),
    ensures
        state_ordered(sp_apply_prop(st, dur, tr, pump, p)),
{
    let e = st.elapsed;
    let end = sat_add(st.elapsed, dur);
    assert(e <= end);
    assert forall|ch: Seq<Segment>, g: Segment|
        channel_ordered(ch) && seg_ordered(g) implies channel_ordered(#[trigger] ch.push(g)) by {
        lemma_push_ordered(ch, g);
    }
}

proof fn lemma_apply_props_ordered(
    st: AnState,
    dur: u64,
    tr: TransitionType,
    pump: Option<PumpType>,
    ps: Seq<PropV>,
)
    requires
        state_ordered(st),
    ensures
        state_ordered(sp_apply_props(st, dur, tr, pump, ps)),
    decreases ps.len(),
{
    if ps.len() > 0 {
        lemma_apply_prop_ordered(st, dur, tr, pump, ps[0]);
        lemma_apply_props_ordered(
            sp_apply_prop(st, dur, tr, pump, ps[0]),
            dur,
            tr,
            pump,
            ps.drop_first(),
        );
    }
}

/// Law (time runs forward): starting from traces whose segments all run
/// forward in time — the empty traces do — every segment the analysis adds
/// runs forward too: instantaneous jumps and drops stand still, holds and
/// ramps extend rightward.
pub proof fn lemma_analyze_ordered(st: AnState, v: Seq<Seq<PropV>>)
    requires
        state_ordered(st),
    ensures
        state_ordered(sp_analyze_from(st, v)),
    decreases v.len(),
{
    if v.len() > 0 {
        lemma_apply_props_ordered(
            st,
            sp_seconds(v[0]).micros,
            sp_transition_of(v[0]),
            sp_pump_of(v[0]),
            v[0],
        );
        lemma_analyze_ordered(sp_apply_step(st, v[0]), v.drop_first());
    }
}

/// Law: the whole analysis of any profile yields only forward-running
/// segments.
pub proof fn lemma_analysis_ordered(v: Seq<Seq<PropV>>)
    ensures
        state_ordered(sp_analyze(v)),
{
    lemma_analyze_ordered(sp_init(), v);
}

} // verus!
