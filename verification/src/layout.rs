//! Panel layout and the interactive state machine of the dashboard.
//!
//! The dashboard is a fixed column of panels. Input events expand, minimize
//! and cycle focus among them; terminal resizes change the space the column
//! must fit into. Two invariants hold across every event sequence: at most
//! one panel is expanded at a time (expanding a second panel restores the
//! previous one to normal), and the heights handed to the renderer never
//! add up to more than the terminal height.

use vstd::prelude::*;

verus! {

#[derive(Clone, Copy, PartialEq, Eq, Structural, Debug)]
pub enum PanelKind {
    Cpu,
    Network,
    Disk,
    Process,
    Sensor,
}

#[derive(Clone, Copy, PartialEq, Eq, Structural, Debug)]
pub enum PanelMode {
    Normal,
    Expanded,
    Minimized,
}

/// One visual region of the dashboard.
#[derive(Clone, Copy, PartialEq, Eq, Structural, Debug)]
pub struct Panel {
    pub kind: PanelKind,
    /// Rows this panel is configured to get at least, terminal permitting.
    pub min_height: u16,
    pub mode: PanelMode,
}

/// A discrete input or terminal event the layout reacts to.
#[derive(Clone, Copy, PartialEq, Eq, Structural, Debug)]
pub enum UiEvent {
    /// Expand the focused panel; expanding it again restores it.
    Expand,
    /// Minimize the focused panel to a stub.
    Minimize,
    /// Cycle focus to the next panel, wrapping around.
    FocusNext,
    /// The terminal was resized to (width, height).
    Resize(u16, u16),
}

/// The mathematical state of the layout.
#[verifier::ext_equal]
pub ghost struct UiModel {
    pub panels: Seq<Panel>,
    pub focus: int,
    pub term_width: int,
    pub term_height: int,
}

pub open spec fn at_most_one_expanded(ps: Seq<Panel>) -> bool {
    forall|i: int, j: int|
        0 <= i < ps.len() && 0 <= j < ps.len() && (#[trigger] ps[i]).mode is Expanded && (
        #[trigger] ps[j]).mode is Expanded ==> i == j
}

/// Layout well-formedness: at least one panel, focus in range, and never
/// two panels expanded at once.
pub open spec fn ui_wf(m: UiModel) -> bool {
    &&& 0 < m.panels.len() <= 64
    &&& 0 <= m.focus < m.panels.len()
    &&& at_most_one_expanded(m.panels)
}

/// Expanding the panel at `f`: it becomes `Expanded`; whichever panel was
/// expanded before returns to `Normal`; everything else keeps its mode.
pub open spec fn expand_panels(ps: Seq<Panel>, f: int) -> Seq<Panel> {
    Seq::new(
        ps.len(),
        |i: int|
            if i == f {
                Panel { kind: ps[i].kind, min_height: ps[i].min_height, mode: PanelMode::Expanded }
            } else if ps[i].mode is Expanded {
                Panel { kind: ps[i].kind, min_height: ps[i].min_height, mode: PanelMode::Normal }
            } else {
                ps[i]
            },
    )
}

/// The transition one event makes on the layout state.
pub open spec fn step_spec(m: UiModel, e: UiEvent) -> UiModel {
    match e {
        UiEvent::Expand => {
            if m.panels[m.focus].mode is Expanded {
                UiModel {
                    panels: m.panels.update(
                        m.focus,
                        Panel {
                            kind: m.panels[m.focus].kind,
                            min_height: m.panels[m.focus].min_height,
                            mode: PanelMode::Normal,
                        },
                    ),
                    ..m
                }
            } else {
                UiModel { panels: expand_panels(m.panels, m.focus), ..m }
            }
        },
        UiEvent::Minimize => UiModel {
            panels: m.panels.update(
                m.focus,
                Panel {
                    kind: m.panels[m.focus].kind,
                    min_height: m.panels[m.focus].min_height,
                    mode: PanelMode::Minimized,
                },
            ),
            ..m
        },
        UiEvent::FocusNext => UiModel {
            focus: if m.focus + 1 < m.panels.len() {
                m.focus + 1
            } else {
                0
            },
            ..m
        },
        UiEvent::Resize(w, h) => UiModel { term_width: w as int, term_height: h as int, ..m },
    }
}

/// The state after a whole sequence of events, applied in order.
pub open spec fn run_spec(m: UiModel, events: Seq<UiEvent>) -> UiModel
    decreases events.len(),
{
    if events.len() == 0 {
        m
    } else {
        step_spec(run_spec(m, events.drop_last()), events.last())
    }
}

/// One event keeps the layout well formed; in particular it never creates
/// a second expanded panel.
pub proof fn lemma_step_preserves_wf(m: UiModel, e: UiEvent)
    requires
        ui_wf(m),
    ensures
        ui_wf(step_spec(m, e)),
{
    match e {
        UiEvent::Expand => {
            if m.panels[m.focus].mode is Expanded {
                let ps = step_spec(m, e).panels;
                assert forall|i: int, j: int|
                    0 <= i < ps.len() && 0 <= j < ps.len() && (#[trigger] ps[i]).mode is Expanded
                        && (#[trigger] ps[j]).mode is Expanded implies i == j by {
                    assert(ps[i].mode == m.panels[i].mode || i == m.focus);
                    assert(ps[j].mode == m.panels[j].mode || j == m.focus);
                }
            } else {
                let ps = expand_panels(m.panels, m.focus);
                assert forall|i: int, j: int|
                    0 <= i < ps.len() && 0 <= j < ps.len() && (#[trigger] ps[i]).mode is Expanded
                        && (#[trigger] ps[j]).mode is Expanded implies i == j by {
                    assert(i != m.focus ==> !(ps[i].mode is Expanded));
                    assert(j != m.focus ==> !(ps[j].mode is Expanded));
                }
            }
        },
        UiEvent::Minimize => {
            let ps = step_spec(m, e).panels;
            assert forall|i: int, j: int|
                0 <= i < ps.len() && 0 <= j < ps.len() && (#[trigger] ps[i]).mode is Expanded && (
                #[trigger] ps[j]).mode is Expanded implies i == j by {
                assert(ps[i] == m.panels[i] || i == m.focus);
                assert(ps[j] == m.panels[j] || j == m.focus);
            }
        },
        UiEvent::FocusNext => {},
        UiEvent::Resize(_, _) => {},
    }
}

/// For any sequence of expand, minimize, focus and resize events, a well
/// formed layout stays well formed: at most one panel is ever expanded.
pub proof fn lemma_events_preserve_wf(m: UiModel, events: Seq<UiEvent>)
    requires
        ui_wf(m),
    ensures
        ui_wf(run_spec(m, events)),
    decreases events.len(),
{
    if events.len() > 0 {
        lemma_events_preserve_wf(m, events.drop_last());
        lemma_step_preserves_wf(run_spec(m, events.drop_last()), events.last());
    }
}

/// The rows a panel asks for before spare space is handed out: its
/// configured minimum, or a two-row stub when minimized.
pub open spec fn base_height(p: Panel) -> int {
    if p.mode is Minimized {
        2
    } else {
        p.min_height as int
    }
}

pub open spec fn sum_heights(hs: Seq<u16>) -> int
    decreases hs.len(),
{
    if hs.len() == 0 {
        0
    } else {
        sum_heights(hs.drop_last()) + hs.last()
    }
}

pub open spec fn base_sum(ps: Seq<Panel>) -> int
    decreases ps.len(),
{
    if ps.len() == 0 {
        0
    } else {
        base_sum(ps.drop_last()) + base_height(ps.last())
    }
}

proof fn lemma_sum_nonneg(hs: Seq<u16>)
    ensures
        sum_heights(hs) >= 0,
    decreases hs.len(),
{
    if hs.len() > 0 {
        lemma_sum_nonneg(hs.drop_last());
    }
}

proof fn lemma_sum_update(hs: Seq<u16>, i: int, v: u16)
    requires
        0 <= i < hs.len(),
    ensures
        sum_heights(hs.update(i, v)) == sum_heights(hs) - hs[i] + v,
    decreases hs.len(),
{
    if i == hs.len() - 1 {
        assert(hs.update(i, v).drop_last() =~= hs.drop_last());
        assert(hs.update(i, v).last() == v);
    } else {
        assert(hs.update(i, v).drop_last() =~= hs.drop_last().update(i, v));
        assert(hs.update(i, v).last() == hs.last());
        lemma_sum_update(hs.drop_last(), i, v);
    }
}

/// The interactive layout state.
pub struct UIState {
    pub panels: Vec<Panel>,
    pub focus: usize,
    pub term_width: u16,
    pub term_height: u16,
}

impl View for UIState {
    type V = UiModel;

    open spec fn view(&self) -> UiModel {
        UiModel {
            panels: self.panels@,
            focus: self.focus as int,
            term_width: self.term_width as int,
            term_height: self.term_height as int,
        }
    }
}

impl UIState {
    /// The dashboard column at startup: CPU, network, disk and the process
    /// table, plus the sensor panel when it was given rows; every panel
    /// normal, focus on the first.
    pub fn new(
        cpu_height: u16,
        net_height: u16,
        disk_height: u16,
        process_height: u16,
        sensor_height: u16,
        term_width: u16,
        term_height: u16,
    ) -> (s: Self)
        ensures
            ui_wf(s@),
            s@.focus == 0,
            s@.term_width == term_width as int,
            s@.term_height == term_height as int,
            s@.panels == (if sensor_height > 0 {
                seq![
                    Panel { kind: PanelKind::Cpu, min_height: cpu_height, mode: PanelMode::Normal },
                    Panel {
                        kind: PanelKind::Network,
                        min_height: net_height,
                        mode: PanelMode::Normal,
                    },
                    Panel {
                        kind: PanelKind::Disk,
                        min_height: disk_height,
                        mode: PanelMode::Normal,
                    },
                    Panel {
                        kind: PanelKind::Process,
                        min_height: process_height,
                        mode: PanelMode::Normal,
                    },
                    Panel {
                        kind: PanelKind::Sensor,
                        min_height: sensor_height,
                        mode: PanelMode::Normal,
                    },
                ]
            } else {
                seq![
                    Panel { kind: PanelKind::Cpu, min_height: cpu_height, mode: PanelMode::Normal },
                    Panel {
                        kind: PanelKind::Network,
                        min_height: net_height,
                        mode: PanelMode::Normal,
                    },
                    Panel {
                        kind: PanelKind::Disk,
                        min_height: disk_height,
                        mode: PanelMode::Normal,
                    },
                    Panel {
                        kind: PanelKind::Process,
                        min_height: process_height,
                        mode: PanelMode::Normal,
                    },
                ]
            }),
    {
        let mut panels: Vec<Panel> = Vec::new();
        panels.push(Panel { kind: PanelKind::Cpu, min_height: cpu_height, mode: PanelMode::Normal });
        panels.push(
            Panel { kind: PanelKind::Network, min_height: net_height, mode: PanelMode::Normal },
        );
        panels.push(
            Panel { kind: PanelKind::Disk, min_height: disk_height, mode: PanelMode::Normal },
        );
        panels.push(
            Panel { kind: PanelKind::Process, min_height: process_height, mode: PanelMode::Normal },
        );
        if sensor_height > 0 {
            panels.push(
                Panel { kind: PanelKind::Sensor, min_height: sensor_height, mode: PanelMode::Normal },
            );
        }
        let s = UIState { panels, focus: 0, term_width, term_height };
        proof {
            if sensor_height > 0 {
                assert(s.panels@ =~= seq![
                    Panel { kind: PanelKind::Cpu, min_height: cpu_height, mode: PanelMode::Normal },
                    Panel {
                        kind: PanelKind::Network,
                        min_height: net_height,
                        mode: PanelMode::Normal,
                    },
                    Panel {
                        kind: PanelKind::Disk,
                        min_height: disk_height,
                        mode: PanelMode::Normal,
                    },
                    Panel {
                        kind: PanelKind::Process,
                        min_height: process_height,
                        mode: PanelMode::Normal,
                    },
                    Panel {
                        kind: PanelKind::Sensor,
                        min_height: sensor_height,
                        mode: PanelMode::Normal,
                    },
                ]);
            } else {
                assert(s.panels@ =~= seq![
                    Panel { kind: PanelKind::Cpu, min_height: cpu_height, mode: PanelMode::Normal },
                    Panel {
                        kind: PanelKind::Network,
                        min_height: net_height,
                        mode: PanelMode::Normal,
                    },
                    Panel {
                        kind: PanelKind::Disk,
                        min_height: disk_height,
                        mode: PanelMode::Normal,
                    },
                    Panel {
                        kind: PanelKind::Process,
                        min_height: process_height,
                        mode: PanelMode::Normal,
                    },
                ]);
            }
        }
        s
    }

    /// React to one event, exactly as `step_spec` describes.
    pub fn handle_event(&mut self, e: UiEvent)
        requires
            ui_wf(old(self)@),
        ensures
            ui_wf(final(self)@),
            final(self)@ == step_spec(old(self)@, e),
    {
        match e {
            UiEvent::Expand => {
                let f = self.focus;
                let was_expanded = match self.panels[f].mode {
                    PanelMode::Expanded => true,
                    _ => false,
                };
                if was_expanded {
                    let kind = self.panels[f].kind;
                    let min_height = self.panels[f].min_height;
                    let slot = &mut self.panels[f];
                    *slot = Panel { kind, min_height, mode: PanelMode::Normal };
                    proof {
                        assert(self@ =~= step_spec(old(self)@, e));
                    }
                } else {
                    let mut np: Vec<Panel> = Vec::new();
                    let n = self.panels.len();
                    let mut i: usize = 0;
                    while i < n
                        invariant
                            i <= n,
                            n == self.panels@.len(),
                            self == old(self),
                            f == old(self).focus,
                            np@.len() == i,
                            forall|j: int|
                                0 <= j < i ==> np@[j] == expand_panels(
                                    old(self)@.panels,
                                    f as int,
                                )[j],
                        decreases n - i,
                    {
                        let pan = self.panels[i];
                        let npan = if i == f {
                            Panel {
                                kind: pan.kind,
                                min_height: pan.min_height,
                                mode: PanelMode::Expanded,
                            }
                        } else {
                            match pan.mode {
                                PanelMode::Expanded => Panel {
                                    kind: pan.kind,
                                    min_height: pan.min_height,
                                    mode: PanelMode::Normal,
                                },
                                _ => pan,
                            }
                        };
                        np.push(npan);
                        i = i + 1;
                    }
                    self.panels = np;
                    proof {
                        assert(self.panels@ =~= expand_panels(old(self)@.panels, f as int));
                        assert(self@ =~= step_spec(old(self)@, e));
                    }
                }
            },
            UiEvent::Minimize => {
                let f = self.focus;
                let kind = self.panels[f].kind;
                let min_height = self.panels[f].min_height;
                let slot = &mut self.panels[f];
                *slot = Panel { kind, min_height, mode: PanelMode::Minimized };
                proof {
                    assert(self@ =~= step_spec(old(self)@, e));
                }
            },
            UiEvent::FocusNext => {
                self.focus = if self.focus < self.panels.len() - 1 {
                    self.focus + 1
                } else {
                    0
                };
                proof {
                    assert(self@ =~= step_spec(old(self)@, e));
                }
            },
            UiEvent::Resize(w, h) => {
                self.term_width = w;
                self.term_height = h;
                proof {
                    assert(self@ =~= step_spec(old(self)@, e));
                }
            },
        }
        proof {
            lemma_step_preserves_wf(old(self)@, e);
        }
    }
}

/// The base rows of one panel, executable side of `base_height`.
fn base_of(p: &Panel) -> (b: u16)
    ensures
        b as int == base_height(*p),
{
    match p.mode {
        PanelMode::Minimized => 2,
        _ => p.min_height,
    }
}

impl UIState {
    /// The index of the first process panel, if any.
    fn first_process_index(&self) -> (r: Option<usize>)
        ensures
            match r {
                Some(i) => i < self.panels@.len() && self.panels@[i as int].kind is Process
                    && forall|j: int| 0 <= j < i ==> !((#[trigger] self.panels@[j]).kind is Process),
                None => forall|j: int|
                    0 <= j < self.panels@.len() ==> !((#[trigger] self.panels@[j]).kind is Process),
            },
    {
        let mut i: usize = 0;
        while i < self.panels.len()
            invariant
                i <= self.panels@.len(),
                forall|j: int| 0 <= j < i ==> !((#[trigger] self.panels@[j]).kind is Process),
            decreases self.panels@.len() - i,
        {
            match self.panels[i].kind {
                PanelKind::Process => {
                    return Some(i);
                },
                _ => {},
            }
            i = i + 1;
        }
        None
    }

    /// The index of the expanded panel, if any.
    fn first_expanded_index(&self) -> (r: Option<usize>)
        ensures
            match r {
                Some(i) => i < self.panels@.len() && self.panels@[i as int].mode is Expanded,
                None => forall|j: int|
                    0 <= j < self.panels@.len() ==> !((#[trigger] self.panels@[j]).mode
                        is Expanded),
            },
    {
        let mut i: usize = 0;
        while i < self.panels.len()
            invariant
                i <= self.panels@.len(),
                forall|j: int| 0 <= j < i ==> !((#[trigger] self.panels@[j]).mode is Expanded),
            decreases self.panels@.len() - i,
        {
            match self.panels[i].mode {
                PanelMode::Expanded => {
                    return Some(i);
                },
                _ => {},
            }
            i = i + 1;
        }
        None
    }

    /// The rows each panel gets this frame, in panel order. The allocation
    /// never exceeds the terminal height. When the terminal is tall enough
    /// for every panel's base rows, each panel gets at least them and the
    /// spare rows all go to one panel (the expanded one when there is one),
    /// so the column fills the terminal exactly. When the terminal is too
    /// small, panels are truncated; the process table is served first, so
    /// it is the last to lose rows.
    #[verifier::rlimit(80)]
    pub fn allocate_heights(&self) -> (hs: Vec<u16>)
        requires
            ui_wf(self@),
        ensures
            hs@.len() == self@.panels.len(),
            sum_heights(hs@) <= self@.term_height,
            base_sum(self@.panels) <= self@.term_height ==> sum_heights(hs@) == self@.term_height
                && (forall|i: int|
                0 <= i < hs@.len() ==> (#[trigger] hs@[i]) as int >= base_height(self@.panels[i])),
            base_sum(self@.panels) > self@.term_height ==> (forall|p: int|
                0 <= p < self@.panels.len() && (#[trigger] self@.panels[p]).kind is Process && (
                forall|j: int| 0 <= j < p ==> !((#[trigger] self@.panels[j]).kind is Process))
                    ==> hs@[p] as int == vstd::math::min(
                    base_height(self@.panels[p]),
                    self@.term_height,
                )),
    {
        let n = self.panels.len();
        let h = self.term_height;

        // Total base rows, in an accumulator wide enough never to overflow.
        let mut total: u64 = 0;
        let mut i: usize = 0;
        while i < n
            invariant
                i <= n,
                n <= 64,
                n == self.panels@.len(),
                total as int == base_sum(self.panels@.take(i as int)),
                total <= i * 0x10000,
            decreases n - i,
        {
            proof {
                assert(self.panels@.take(i + 1).drop_last() =~= self.panels@.take(i as int));
                assert(self.panels@.take(i + 1).last() == self.panels@[i as int]);
            }
            total = total + base_of(&self.panels[i]) as u64;
            i = i + 1;
        }
        proof {
            assert(self.panels@.take(n as int) =~= self.panels@);
        }

        if total <= h as u64 {
            // Everything fits: hand each panel its base rows, then give the
            // spare rows to the expanded panel, or to the process table, or
            // to the last panel.
            let mut hs: Vec<u16> = Vec::new();
            let mut i: usize = 0;
            while i < n
                invariant
                    i <= n,
                    n == self.panels@.len(),
                    hs@.len() == i,
                    sum_heights(hs@) == base_sum(self.panels@.take(i as int)),
                    forall|j: int|
                        0 <= j < i ==> (#[trigger] hs@[j]) as int == base_height(self.panels@[j]),
                    base_sum(self.panels@) <= h as int,
                    total as int == base_sum(self.panels@),
                decreases n - i,
            {
                proof {
                    assert(self.panels@.take(i + 1).drop_last() =~= self.panels@.take(i as int));
                    assert(self.panels@.take(i + 1).last() == self.panels@[i as int]);
                    assert(base_sum(self.panels@.take(i + 1)) <= base_sum(self.panels@)) by {
                        lemma_base_sum_take_le(self.panels@, i + 1);
                    }
                }
                let b = base_of(&self.panels[i]);
                let ghost pre = hs@;
                hs.push(b);
                proof {
                    assert(hs@.drop_last() =~= pre);
                    assert(hs@.last() == b);
                }
                i = i + 1;
            }
            proof {
                assert(self.panels@.take(n as int) =~= self.panels@);
                lemma_sum_nonneg(hs@);
            }
            let leftover: u16 = h - total as u16;
            let target: usize = match self.first_expanded_index() {
                Some(t) => t,
                None => match self.first_process_index() {
                    Some(t) => t,
                    None => n - 1,
                },
            };
            let ghost pre = hs@;
            let cur = hs[target];
            proof {
                lemma_base_at_le_sum(self.panels@, target as int);
            }
            let slot = &mut hs[target];
            *slot = cur + leftover;
            proof {
                lemma_sum_update(pre, target as int, (cur + leftover) as u16);
            }
            hs
        } else {
            // The terminal is too small for every base: serve the process
            // table first, then the remaining panels in order until the
            // budget runs out.
            let mut hs: Vec<u16> = Vec::new();
            let mut i: usize = 0;
            while i < n
                invariant
                    i <= n,
                    hs@.len() == i,
                    forall|j: int| 0 <= j < i ==> hs@[j] == 0u16,
                    sum_heights(hs@) == 0,
                decreases n - i,
            {
                let ghost pre = hs@;
                hs.push(0);
                proof {
                    assert(hs@.drop_last() =~= pre);
                    assert(hs@.last() == 0u16);
                }
                i = i + 1;
            }
            let pidx = self.first_process_index();
            let mut budget: u16 = h;
            let ghost pi: int = match pidx {
                Some(p) => p as int,
                None => -1,
            };
            match pidx {
                Some(p) => {
                    let b = base_of(&self.panels[p]);
                    let give = if b < budget {
                        b
                    } else {
                        budget
                    };
                    let ghost pre = hs@;
                    let slot = &mut hs[p];
                    *slot = give;
                    budget = budget - give;
                    proof {
                        lemma_sum_update(pre, p as int, give);
                    }
                },
                None => {},
            }
            let ghost served: int = match pidx {
                Some(p) => vstd::math::min(base_height(self.panels@[p as int]), h as int),
                None => 0,
            };
            let mut i: usize = 0;
            while i < n
                invariant
                    i <= n,
                    n == self.panels@.len(),
                    hs@.len() == n,
                    pi == (match pidx {
                        Some(p) => p as int,
                        None => -1,
                    }),
                    0 <= pi ==> pi < n && hs@[pi] as int == served,
                    served == (match pidx {
                        Some(p) => vstd::math::min(base_height(self.panels@[p as int]), h as int),
                        None => 0,
                    }),
                    sum_heights(hs@) == h - budget,
                    budget <= h,
                    forall|j: int| i <= j < n && j != pi ==> (#[trigger] hs@[j]) == 0u16,
                decreases n - i,
            {
                let is_p = match pidx {
                    Some(p) => p == i,
                    None => false,
                };
                if !is_p {
                    let b = base_of(&self.panels[i]);
                    let give = if b < budget {
                        b
                    } else {
                        budget
                    };
                    let ghost pre = hs@;
                    let slot = &mut hs[i];
                    *slot = give;
                    budget = budget - give;
                    proof {
                        lemma_sum_update(pre, i as int, give);
                    }
                }
                i = i + 1;
            }
            proof {
                assert forall|p: int|
                    0 <= p < self@.panels.len() && (#[trigger] self@.panels[p]).kind is Process && (
                    forall|j: int| 0 <= j < p ==> !((#[trigger] self@.panels[j]).kind is Process))
                        implies hs@[p] as int == vstd::math::min(
                    base_height(self@.panels[p]),
                    self@.term_height,
                ) by {
                    match pidx {
                        Some(q) => {
                            if p < q as int {
                                assert(!(self@.panels[p].kind is Process));
                            } else if p > q as int {
                                assert(!(self@.panels[q as int].kind is Process));
                            }
                        },
                        None => {
                            assert(!(self@.panels[p].kind is Process));
                        },
                    }
                }
            }
            hs
        }
    }
}

proof fn lemma_base_sum_nonneg(ps: Seq<Panel>)
    ensures
        base_sum(ps) >= 0,
    decreases ps.len(),
{
    if ps.len() > 0 {
        lemma_base_sum_nonneg(ps.drop_last());
    }
}

/// Each panel's base rows are at most the total of all base rows.
proof fn lemma_base_at_le_sum(ps: Seq<Panel>, i: int)
    requires
        0 <= i < ps.len(),
    ensures
        base_height(ps[i]) <= base_sum(ps),
    decreases ps.len(),
{
    if i == ps.len() - 1 {
        lemma_base_sum_nonneg(ps.drop_last());
    } else {
        assert(ps.drop_last()[i] == ps[i]);
        lemma_base_at_le_sum(ps.drop_last(), i);
    }
}

/// A prefix never sums to more than the whole: base rows are nonnegative.
proof fn lemma_base_sum_take_le(ps: Seq<Panel>, k: int)
    requires
        0 <= k <= ps.len(),
    ensures
        base_sum(ps.take(k)) <= base_sum(ps),
    decreases ps.len() - k,
{
    if k < ps.len() {
        lemma_base_sum_take_le(ps, k + 1);
        assert(ps.take(k + 1).drop_last() =~= ps.take(k));
        assert(ps.take(k + 1).last() == ps[k]);
    } else {
        assert(ps.take(k) =~= ps);
    }
}

} // verus!
