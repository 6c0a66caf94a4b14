//! The bridge's picture of the panel: zones, areas, system alerts.

use std::collections::HashMap;
use vstd::prelude::*;

use crate::text::views;

verus! {

broadcast use vstd::std_specs::hash::group_hash_axioms;

/// The physical input of a zone, as reported in the zone table.
#[derive(Debug, Clone, Copy, PartialEq, Eq, Structural)]
pub enum ZoneInput {
    Unknown,
    Open,
    Closed,
}

impl ZoneInput {
    /// The text the bridge shows for an input.
    pub open spec fn display_text(self) -> Seq<char> {
        match self {
            ZoneInput::Unknown => "unknown"@,
            ZoneInput::Open => "Open"@,
            ZoneInput::Closed => "Closed"@,
        }
    }

    /// The text the bridge shows for an input (what `Display` writes).
    pub fn display(&self) -> (s: String)
        ensures
            s@ == self.display_text(),
    {
        match self {
            ZoneInput::Unknown => String::from_str("unknown"),
            ZoneInput::Open => String::from_str("Open"),
            ZoneInput::Closed => String::from_str("Closed"),
        }
    }
}

/// The state of a zone as published to Home Assistant.
#[derive(Debug, Clone, Copy, PartialEq, Eq, Structural)]
pub enum ZoneState {
    Unknown,
    Open,
    Closed,
    Alarm,
    Tamper,
    Trouble,
    Inhibited,
    Isolated,
}

impl ZoneState {
    /// The binary sensor is "ON" in these states.
    pub open spec fn spec_is_on(self) -> bool {
        self is Open || self is Alarm || self is Tamper || self is Trouble
    }

    pub fn is_on(self) -> (b: bool)
        ensures
            b == self.spec_is_on(),
    {
        match self {
            ZoneState::Open | ZoneState::Alarm | ZoneState::Tamper | ZoneState::Trouble => true,
            _ => false,
        }
    }

    /// The text the bridge shows for a state.
    pub open spec fn display_text(self) -> Seq<char> {
        match self {
            ZoneState::Unknown => "unknown"@,
            ZoneState::Open => "open"@,
            ZoneState::Closed => "closed"@,
            ZoneState::Alarm => "alarm"@,
            ZoneState::Tamper => "tamper"@,
            ZoneState::Trouble => "trouble"@,
            ZoneState::Inhibited => "inhibited"@,
            ZoneState::Isolated => "isolated"@,
        }
    }

    /// The text the bridge shows for a state (what `Display` writes).
    pub fn display(&self) -> (s: String)
        ensures
            s@ == self.display_text(),
    {
        match self {
            ZoneState::Unknown => String::from_str("unknown"),
            ZoneState::Open => String::from_str("open"),
            ZoneState::Closed => String::from_str("closed"),
            ZoneState::Alarm => String::from_str("alarm"),
            ZoneState::Tamper => String::from_str("tamper"),
            ZoneState::Trouble => String::from_str("trouble"),
            ZoneState::Inhibited => String::from_str("inhibited"),
            ZoneState::Isolated => String::from_str("isolated"),
        }
    }
}

/// An action button parsed from the panel's system_summary page.
#[derive(Debug, Clone, PartialEq, Eq)]
pub struct AreaAction {
    /// Display label from the button VALUE (e.g. "Ground Floor", "Fullset").
    pub label: String,
    /// HTML form field NAME (e.g. "partset_a_area1", "fullset_area1").
    pub form_name: String,
}

impl View for AreaAction {
    type V = (Seq<char>, Seq<char>);

    open spec fn view(&self) -> (Seq<char>, Seq<char>) {
        (self.label@, self.form_name@)
    }
}

impl AreaAction {
    /// A copy of the action.
    pub fn duplicate(&self) -> (r: AreaAction)
        ensures
            r@ == self@,
    {
        AreaAction { label: self.label.clone(), form_name: self.form_name.clone() }
    }
}

/// The views of a sequence of actions.
pub open spec fn actions_view(a: Seq<AreaAction>) -> Seq<(Seq<char>, Seq<char>)> {
    a.map_values(|x: AreaAction| x@)
}

/// The labels of a sequence of actions.
pub open spec fn action_labels(a: Seq<AreaAction>) -> Seq<Seq<char>> {
    a.map_values(|x: AreaAction| x.label@)
}

/// A copy of a list of actions.
pub fn duplicate_actions(a: &Vec<AreaAction>) -> (r: Vec<AreaAction>)
    ensures
        actions_view(r@) == actions_view(a@),
{
    let n = a.len();
    let mut r: Vec<AreaAction> = Vec::new();
    let mut i: usize = 0;
    while i < n
        invariant
            n == a@.len(),
            i <= n,
            actions_view(r@) == actions_view(a@).take(i as int),
        decreases n - i,
    {
        let d = a[i].duplicate();
        let ghost before = r@;
        r.push(d);
        assert(r@ == before.push(d));
        assert(actions_view(r@) =~= actions_view(before).push(d@));
        assert(actions_view(r@) =~= actions_view(a@).take(i + 1));
        i = i + 1;
    }
    assert(actions_view(a@).take(n as int) =~= actions_view(a@));
    r
}

#[derive(Debug, Clone)]
pub struct Zone {
    pub id: u32,
    pub name: String,
    pub area_id: u32,
    pub zone_type: String,
    pub input: ZoneInput,
    pub status: String,
    pub state: ZoneState,
    pub device_class: String,
}

/// The mathematical form of a `Zone`.
pub struct ZoneView {
    pub id: u32,
    pub name: Seq<char>,
    pub area_id: u32,
    pub zone_type: Seq<char>,
    pub input: ZoneInput,
    pub status: Seq<char>,
    pub state: ZoneState,
    pub device_class: Seq<char>,
}

impl View for Zone {
    type V = ZoneView;

    open spec fn view(&self) -> ZoneView {
        ZoneView {
            id: self.id,
            name: self.name@,
            area_id: self.area_id,
            zone_type: self.zone_type@,
            input: self.input,
            status: self.status@,
            state: self.state,
            device_class: self.device_class@,
        }
    }
}

impl Zone {
    /// A zone that has not been seen on a page yet.
    pub fn new(id: u32) -> (z: Zone)
        ensures
            z.id == id,
            z.name@ == Seq::<char>::empty(),
            z.area_id == 0,
            z.zone_type@ == Seq::<char>::empty(),
            z.input == ZoneInput::Unknown,
            z.status@ == Seq::<char>::empty(),
            z.state == ZoneState::Unknown,
            z.device_class@ == Seq::<char>::empty(),
    {
        Zone {
            id,
            name: String::new(),
            area_id: 0,
            zone_type: String::new(),
            input: ZoneInput::Unknown,
            status: String::new(),
            state: ZoneState::Unknown,
            device_class: String::new(),
        }
    }
}

/// `opts` with `x` appended unless it is already there.
pub open spec fn add_absent(opts: Seq<Seq<char>>, x: Seq<char>) -> Seq<Seq<char>> {
    if opts.contains(x) {
        opts
    } else {
        opts.push(x)
    }
}

/// `opts` with each of `labels`, in order, appended unless already present.
pub open spec fn accumulate(opts: Seq<Seq<char>>, labels: Seq<Seq<char>>) -> Seq<Seq<char>>
    decreases labels.len(),
{
    if labels.len() == 0 {
        opts
    } else {
        add_absent(accumulate(opts, labels.drop_last()), labels.last())
    }
}

#[derive(Debug, Clone)]
pub struct Area {
    pub id: u32,
    pub name: String,
    /// Current state as displayed by the panel (e.g. "Unset", "Fullset").
    pub state: String,
    /// Available actions parsed from submit buttons.
    pub actions: Vec<AreaAction>,
    /// All options ever seen (states + action labels), accumulated across polls.
    pub all_options: Vec<String>,
}

/// The mathematical form of an `Area`.
pub struct AreaView {
    pub id: u32,
    pub name: Seq<char>,
    pub state: Seq<char>,
    pub actions: Seq<(Seq<char>, Seq<char>)>,
    pub all_options: Seq<Seq<char>>,
}

impl View for Area {
    type V = AreaView;

    open spec fn view(&self) -> AreaView {
        AreaView {
            id: self.id,
            name: self.name@,
            state: self.state@,
            actions: actions_view(self.actions@),
            all_options: views(self.all_options@),
        }
    }
}

impl Area {
    /// An area that has not been seen on a page yet: named "", in state "Unset".
    pub fn new(id: u32) -> (a: Area)
        ensures
            a.id == id,
            a.name@ == Seq::<char>::empty(),
            a.state@ == "Unset"@,
            a.actions@ == Seq::<AreaAction>::empty(),
            a.all_options@ == Seq::<String>::empty(),
    {
        Area {
            id,
            name: String::new(),
            state: String::from_str("Unset"),
            actions: Vec::new(),
            all_options: Vec::new(),
        }
    }

    /// The labels that `update_options` accumulates: the state, then each action label.
    pub open spec fn current_labels(self) -> Seq<Seq<char>> {
        seq![self.state@] + action_labels(self.actions@)
    }

    /// Accumulate new options from current state and actions.
    pub fn update_options(&mut self)
        ensures
            views(final(self).all_options@) == accumulate(
                views(old(self).all_options@),
                old(self).current_labels(),
            ),
            final(self).id == old(self).id,
            final(self).name == old(self).name,
            final(self).state == old(self).state,
            final(self).actions == old(self).actions,
    {
        let ghost labels = self.current_labels();
        let ghost start = views(self.all_options@);
        let n = self.actions.len();
        let st = self.state.clone();
        add_option(&mut self.all_options, st);
        assert(labels.take(1).drop_last() =~= Seq::<Seq<char>>::empty());
        assert(labels.take(1).last() == self.state@);
        assert(accumulate(start, Seq::<Seq<char>>::empty()) == start);
        assert(views(self.all_options@) == accumulate(start, labels.take(1)));
        let mut i: usize = 0;
        while i < n
            invariant
                n == self.actions@.len(),
                i <= n,
                labels == seq![self.state@] + action_labels(self.actions@),
                views(self.all_options@) == accumulate(start, labels.take(i + 1)),
                self.id == old(self).id,
                self.name == old(self).name,
                self.state == old(self).state,
                self.actions == old(self).actions,
                labels == old(self).current_labels(),
            decreases n - i,
        {
            let label = self.actions[i].label.clone();
            add_option(&mut self.all_options, label);
            assert(labels.take(i + 2).drop_last() =~= labels.take(i + 1));
            assert(labels.take(i + 2).last() == action_labels(self.actions@)[i as int]);
            i = i + 1;
        }
        assert(labels.take(n + 1) =~= labels);
    }

    /// Every option seen so far.
    pub fn select_options(&self) -> (r: &[String])
        ensures
            r@ == self.all_options@,
    {
        self.all_options.as_slice()
    }
}

/// Appends `x` to `opts` unless an equal option is already there.
fn add_option(opts: &mut Vec<String>, x: String)
    ensures
        views(final(opts)@) == add_absent(views(old(opts)@), x@),
{
    let n = opts.len();
    let mut i: usize = 0;
    while i < n
        invariant
            n == opts@.len(),
            i <= n,
            forall|k: int| 0 <= k < i ==> opts@[k]@ != x@,
        decreases n - i,
    {
        if opts[i] == x {
            assert(views(opts@)[i as int] == x@);
            return;
        }
        i = i + 1;
    }
    assert(!views(opts@).contains(x@));
    opts.push(x);
    assert(views(opts@) =~= views(old(opts)@).push(x@));
}

#[derive(Debug, Clone, PartialEq, Eq)]
pub struct SystemAlert {
    pub name: String,
    pub ok: bool,
    /// Index used in form button names (e.g. inhibit0, isolate0).
    pub button_index: u32,
}

impl View for SystemAlert {
    type V = (Seq<char>, bool, u32);

    open spec fn view(&self) -> (Seq<char>, bool, u32) {
        (self.name@, self.ok, self.button_index)
    }
}

#[derive(Debug)]
pub struct PanelState {
    pub name: String,
    pub serial: String,
    pub zones: HashMap<u32, Zone>,
    pub areas: HashMap<u32, Area>,
    pub alerts: Vec<SystemAlert>,
}

impl PanelState {
    /// A panel of which nothing is known yet.
    pub fn new() -> (p: PanelState)
        ensures
            p.name@ == Seq::<char>::empty(),
            p.serial@ == Seq::<char>::empty(),
            p.zones@ == Map::<u32, Zone>::empty(),
            p.areas@ == Map::<u32, Area>::empty(),
            p.alerts@ == Seq::<SystemAlert>::empty(),
    {
        PanelState {
            name: String::new(),
            serial: String::new(),
            zones: HashMap::new(),
            areas: HashMap::new(),
            alerts: Vec::new(),
        }
    }
}

/// No option occurs twice.
pub open spec fn no_duplicates(s: Seq<Seq<char>>) -> bool {
    forall|i: int, j: int| 0 <= i < j < s.len() ==> s[i] != s[j]
}

/// Accumulating options keeps every earlier option in its place, adds every new label,
/// adds nothing else, and never makes an option occur twice.
pub proof fn lemma_accumulate(opts: Seq<Seq<char>>, labels: Seq<Seq<char>>)
    ensures
        opts.len() <= accumulate(opts, labels).len(),
        accumulate(opts, labels).take(opts.len() as int) == opts,
        forall|k: int| 0 <= k < labels.len() ==> accumulate(opts, labels).contains(labels[k]),
        forall|x: Seq<char>| #[trigger]
            accumulate(opts, labels).contains(x) ==> opts.contains(x) || labels.contains(x),
        no_duplicates(opts) ==> no_duplicates(accumulate(opts, labels)),
    decreases labels.len(),
{
    if labels.len() > 0 {
        let prev = accumulate(opts, labels.drop_last());
        lemma_accumulate(opts, labels.drop_last());
        let x = labels.last();
        let r = accumulate(opts, labels);
        assert(r == add_absent(prev, x));
        if !prev.contains(x) {
            assert(r.take(opts.len() as int) =~= prev.take(opts.len() as int));
            assert(r[prev.len() as int] == x);
        } else {
            assert(r == prev);
        }
        assert forall|k: int| 0 <= k < labels.len() implies r.contains(labels[k]) by {
            if k < labels.len() - 1 {
                assert(labels.drop_last()[k] == labels[k]);
                let i = choose|i: int| 0 <= i < prev.len() && prev[i] == labels[k];
                assert(r[i] == prev[i]);
            } else {
                if prev.contains(x) {
                } else {
                    assert(r[prev.len() as int] == x);
                }
            }
        }
        assert forall|y: Seq<char>| #[trigger] r.contains(y) implies opts.contains(y)
            || labels.contains(y) by {
            let i = choose|i: int| 0 <= i < r.len() && r[i] == y;
            if i < prev.len() {
                assert(prev[i] == y);
                assert(prev.contains(y));
                if labels.drop_last().contains(y) {
                    let j = choose|j: int| 0 <= j < labels.drop_last().len() && labels.drop_last()[j] == y;
                    assert(labels[j] == y);
                }
            } else {
                assert(y == x);
                assert(labels[labels.len() - 1] == y);
            }
        }
    }
}

/// What accumulating appends to `opts`: the labels not already among `opts`, each once,
/// in the order in which they are first seen among `labels`.
pub proof fn lemma_accumulate_appends_first_seen(opts: Seq<Seq<char>>, labels: Seq<Seq<char>>)
    ensures
        ({
            let r = accumulate(opts, labels);
            let app = r.skip(opts.len() as int);
            &&& r == opts + app
            &&& no_duplicates(app)
            &&& forall|i: int| 0 <= i < app.len() ==> !opts.contains(#[trigger] app[i])
            &&& forall|i: int| 0 <= i < app.len() ==> labels.contains(#[trigger] app[i])
            &&& forall|k: int|
                0 <= k < labels.len() && !opts.contains(#[trigger] labels[k]) ==> app.contains(
                    labels[k],
                )
            &&& forall|i: int, j: int, k: int|
                0 <= i < j < app.len() && 0 <= k < labels.len() && #[trigger] labels[k]
                    == #[trigger] app[j] ==> labels.take(k).contains(#[trigger] app[i])
        }),
    decreases labels.len(),
{
    let r = accumulate(opts, labels);
    let n = opts.len() as int;
    let app = r.skip(n);
    lemma_accumulate(opts, labels);
    assert(r =~= opts + app);
    if labels.len() > 0 {
        let l0 = labels.drop_last();
        let x = labels.last();
        let prev = accumulate(opts, l0);
        let app0 = prev.skip(n);
        lemma_accumulate_appends_first_seen(opts, l0);
        lemma_accumulate(opts, l0);
        assert(r == add_absent(prev, x));
        assert forall|i: int| 0 <= i < app0.len() implies l0.contains(#[trigger] app0[i]) by {}
        if prev.contains(x) {
            assert(app =~= app0);
        } else {
            assert(app =~= app0.push(x));
            assert(!opts.contains(x)) by {
                if opts.contains(x) {
                    let t = choose|t: int| 0 <= t < opts.len() && opts[t] == x;
                    assert(prev.take(n)[t] == x);
                    assert(prev[t] == x);
                }
            }
            assert forall|i: int| 0 <= i < app0.len() implies app0[i] != x by {
                assert(prev[n + i] == app0[i]);
            }
        }
        assert forall|i: int| 0 <= i < app.len() implies labels.contains(#[trigger] app[i]) by {
            if i < app0.len() {
                assert(app[i] == app0[i]);
                let t = choose|t: int| 0 <= t < l0.len() && l0[t] == app0[i];
                assert(labels[t] == l0[t]);
            } else {
                assert(app[i] == x);
                assert(labels[labels.len() - 1] == x);
            }
        }
        assert forall|k: int|
            0 <= k < labels.len() && !opts.contains(#[trigger] labels[k]) implies app.contains(
            labels[k],
        ) by {
            assert(r.contains(labels[k]));
            let t = choose|t: int| 0 <= t < r.len() && r[t] == labels[k];
            if t < n {
                assert(r.take(n)[t] == labels[k]);
                assert(opts[t] == labels[k]);
            } else {
                assert(app[t - n] == labels[k]);
            }
        }
        assert forall|i: int, j: int, k: int|
            0 <= i < j < app.len() && 0 <= k < labels.len() && #[trigger] labels[k]
                == #[trigger] app[j] implies labels.take(k).contains(#[trigger] app[i]) by {
            if k < labels.len() - 1 {
                assert(l0[k] == labels[k]);
                assert(labels.take(k) =~= l0.take(k));
                if j < app0.len() {
                    assert(app[j] == app0[j]);
                    assert(app[i] == app0[i]);
                } else {
                    // app[j] is x, which would then be in l0 and so already in prev
                    assert(app[j] == x);
                    assert(l0.contains(x));
                    assert(prev.contains(x));
                }
            } else {
                assert(labels.take(k) =~= l0);
                assert(app[i] == app0[i]);
            }
        }
        assert forall|i: int, j: int| 0 <= i < j < app.len() implies app[i] != app[j] by {
            if j < app0.len() {
                assert(app[i] == app0[i] && app[j] == app0[j]);
            }
        }
    }
}

/// Accumulating labels that are all already among the options changes nothing.
pub proof fn lemma_accumulate_present(opts: Seq<Seq<char>>, labels: Seq<Seq<char>>)
    requires
        forall|k: int| 0 <= k < labels.len() ==> opts.contains(#[trigger] labels[k]),
    ensures
        accumulate(opts, labels) == opts,
    decreases labels.len(),
{
    if labels.len() > 0 {
        let l0 = labels.drop_last();
        assert forall|k: int| 0 <= k < l0.len() implies opts.contains(#[trigger] l0[k]) by {
            assert(l0[k] == labels[k]);
        }
        lemma_accumulate_present(opts, l0);
        assert(opts.contains(labels[labels.len() - 1]));
    }
}

/// Accumulating the same labels a second time changes nothing: a second
/// `update_options` right after the first leaves the options as they are.
pub proof fn lemma_accumulate_idempotent(opts: Seq<Seq<char>>, labels: Seq<Seq<char>>)
    ensures
        accumulate(accumulate(opts, labels), labels) == accumulate(opts, labels),
{
    lemma_accumulate(opts, labels);
    lemma_accumulate_present(accumulate(opts, labels), labels);
}

/// How the bridge spells inputs and states, and which states show a zone as ON.
pub proof fn lemma_zone_texts()
    ensures
        ZoneInput::Unknown.display_text() == "unknown"@,
        ZoneInput::Open.display_text() == "Open"@,
        ZoneInput::Closed.display_text() == "Closed"@,
        ZoneState::Unknown.display_text() == "unknown"@,
        ZoneState::Open.display_text() == "open"@,
        ZoneState::Closed.display_text() == "closed"@,
        ZoneState::Alarm.display_text() == "alarm"@,
        ZoneState::Tamper.display_text() == "tamper"@,
        ZoneState::Trouble.display_text() == "trouble"@,
        ZoneState::Inhibited.display_text() == "inhibited"@,
        ZoneState::Isolated.display_text() == "isolated"@,
        ZoneState::Open.spec_is_on() && ZoneState::Alarm.spec_is_on()
            && ZoneState::Tamper.spec_is_on() && ZoneState::Trouble.spec_is_on(),
        !ZoneState::Unknown.spec_is_on() && !ZoneState::Closed.spec_is_on()
            && !ZoneState::Inhibited.spec_is_on() && !ZoneState::Isolated.spec_is_on(),
{
}

} // verus!
