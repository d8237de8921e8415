use vstd::prelude::*;
use crate::config::{requirement_set, AltCfg, Requirement, RequirementView};
use crate::events::{AltEvent, AltEventView, ExtEventState};
use crate::ktrl_client::KtrlIpcReq;
use crate::text::{chars_of, contains, contains_chars, lowercase, to_lowercase};

verus! {

/// Whether requirement `r` is met after event `e`, given whether it was met
/// before: a focus event settles every focus requirement (met when the
/// lower-cased window title contains the pattern), an external event settles
/// the requirements on its own name (met when the event is on), and nothing
/// else changes.
pub open spec fn status(r: RequirementView, e: AltEventView, was: bool) -> bool {
    match (r, e) {
        (RequirementView::Focus(p), AltEventView::Focus(w)) => contains_chars(lowercase(w), p),
        (RequirementView::Ext(n), AltEventView::Ext(name, st)) => if n == name {
            st == ExtEventState::On
        } else {
            was
        },
        _ => was,
    }
}

/// An aggregator as a value: its requirements, those currently met, its two
/// requests and whether it last reported all requirements met.
pub struct AndAggView {
    pub cfg: Set<RequirementView>,
    pub active: Set<RequirementView>,
    pub on_ipc: Seq<char>,
    pub off_ipc: Seq<char>,
    pub state: bool,
}

/// One aggregator after event `e`: the met requirements are updated by
/// `status`, and the reported state becomes whether all are met.
pub open spec fn step_agg(a: AndAggView, e: AltEventView) -> AndAggView {
    let active = Set::new(|r: RequirementView| a.cfg.contains(r) && status(r, e, a.active.contains(r)));
    AndAggView { active, state: a.cfg == active, ..a }
}

/// Every aggregator after event `e`.
pub open spec fn step_aggs(s: Seq<AndAggView>, e: AltEventView) -> Seq<AndAggView> {
    s.map_values(|a: AndAggView| step_agg(a, e))
}

/// The request an aggregator sends when it goes from `old` to `new`: its
/// `on_ipc` when its state turns on, its `off_ipc` when it turns off, none
/// when the state stays.
pub open spec fn req_of(old: AndAggView, new: AndAggView) -> Option<Seq<char>> {
    if old.state != new.state {
        Some(if new.state { new.on_ipc } else { new.off_ipc })
    } else {
        None
    }
}

/// The requests of a list of aggregators going from `old` to `new`, in
/// their order.
pub open spec fn ipc_requests(old: Seq<AndAggView>, new: Seq<AndAggView>) -> Seq<Seq<char>>
    decreases old.len(),
{
    if old.len() == 0 || new.len() == 0 {
        Seq::empty()
    } else {
        let rest = ipc_requests(old.drop_last(), new.drop_last());
        match req_of(old.last(), new.last()) {
            Some(r) => rest.push(r),
            None => rest,
        }
    }
}

proof fn lemma_status_idempotent(r: RequirementView, e: AltEventView, was: bool)
    ensures
        status(r, e, status(r, e, was)) == status(r, e, was),
{
}

proof fn lemma_step_agg_idempotent(a: AndAggView, e: AltEventView)
    ensures
        step_agg(step_agg(a, e), e) == step_agg(a, e),
{
    let once = step_agg(a, e);
    let twice = step_agg(once, e);
    assert forall|r: RequirementView| twice.active.contains(r) == once.active.contains(r) by {
        lemma_status_idempotent(r, e, a.active.contains(r));
    }
    assert(twice.active =~= once.active);
}

/// When no aggregator changes its state, no request is sent.
pub proof fn lemma_no_requests_without_change(old: Seq<AndAggView>, new: Seq<AndAggView>)
    requires
        old.len() == new.len(),
        forall|k: int| 0 <= k < old.len() ==> #[trigger] old[k].state == new[k].state,
    ensures
        ipc_requests(old, new) == Seq::<Seq<char>>::empty(),
    decreases old.len(),
{
    if old.len() > 0 {
        let (o, n) = (old.drop_last(), new.drop_last());
        assert forall|k: int| 0 <= k < o.len() implies #[trigger] o[k].state == n[k].state by {
            assert(old[k].state == new[k].state);
        }
        lemma_no_requests_without_change(o, n);
        assert(old.last().state == new.last().state);
    }
}

/// Handling the same event twice in a row: the second time changes no
/// aggregator and sends nothing.
pub proof fn lemma_repeated_event_is_silent(aggs: Seq<AndAggView>, e: AltEventView)
    ensures
        step_aggs(step_aggs(aggs, e), e) == step_aggs(aggs, e),
        ipc_requests(step_aggs(aggs, e), step_aggs(step_aggs(aggs, e), e)) == Seq::<Seq<char>>::empty(),
{
    let once = step_aggs(aggs, e);
    let twice = step_aggs(once, e);
    assert forall|k: int| 0 <= k < aggs.len() implies #[trigger] twice[k] == once[k] by {
        lemma_step_agg_idempotent(aggs[k], e);
    }
    assert(twice =~= once);
    lemma_no_requests_without_change(once, twice);
}

/// After an event, every aggregator reports on exactly when all its
/// requirements are met.
pub proof fn lemma_state_reports_requirements(aggs: Seq<AndAggView>, e: AltEventView)
    ensures
        forall|k: int|
            0 <= k < aggs.len() ==> (#[trigger] step_aggs(aggs, e)[k]).state == (step_aggs(aggs, e)[k].cfg
                == step_aggs(aggs, e)[k].active),
{
}

/// Two events that settle different requirements: a focus event and an
/// external event, or external events on different names.
pub open spec fn independent(e1: AltEventView, e2: AltEventView) -> bool {
    match (e1, e2) {
        (AltEventView::Focus(_), AltEventView::Focus(_)) => false,
        (AltEventView::Ext(n1, _), AltEventView::Ext(n2, _)) => n1 != n2,
        _ => true,
    }
}

/// Two independent events lead to the same aggregators in either order.
pub proof fn lemma_independent_events_commute(aggs: Seq<AndAggView>, e1: AltEventView, e2: AltEventView)
    requires
        independent(e1, e2),
    ensures
        step_aggs(step_aggs(aggs, e1), e2) == step_aggs(step_aggs(aggs, e2), e1),
{
    let l = step_aggs(step_aggs(aggs, e1), e2);
    let rr = step_aggs(step_aggs(aggs, e2), e1);
    assert forall|k: int| 0 <= k < aggs.len() implies #[trigger] l[k] == rr[k] by {
        let a = aggs[k];
        assert(step_agg(step_agg(a, e1), e2).active =~= step_agg(step_agg(a, e2), e1).active);
    }
    assert(l =~= rr);
}

/// Of two focus events in a row, only the second matters.
pub proof fn lemma_latest_focus_wins(aggs: Seq<AndAggView>, f1: AltEventView, f2: AltEventView)
    requires
        f1 is Focus,
        f2 is Focus,
    ensures
        step_aggs(step_aggs(aggs, f1), f2) == step_aggs(aggs, f2),
{
    let l = step_aggs(step_aggs(aggs, f1), f2);
    let rr = step_aggs(aggs, f2);
    assert forall|k: int| 0 <= k < aggs.len() implies #[trigger] l[k] == rr[k] by {
        let a = aggs[k];
        assert(step_agg(step_agg(a, f1), f2).active =~= step_agg(a, f2).active);
    }
    assert(l =~= rr);
}

/// Of two external events on the same name in a row, only the second
/// matters.
pub proof fn lemma_latest_ext_wins(
    aggs: Seq<AndAggView>,
    name: Seq<char>,
    s1: ExtEventState,
    s2: ExtEventState,
)
    ensures
        step_aggs(step_aggs(aggs, AltEventView::Ext(name, s1)), AltEventView::Ext(name, s2))
            == step_aggs(aggs, AltEventView::Ext(name, s2)),
{
    let (x1, x2) = (AltEventView::Ext(name, s1), AltEventView::Ext(name, s2));
    let l = step_aggs(step_aggs(aggs, x1), x2);
    let rr = step_aggs(aggs, x2);
    assert forall|k: int| 0 <= k < aggs.len() implies #[trigger] l[k] == rr[k] by {
        let a = aggs[k];
        assert(step_agg(step_agg(a, x1), x2).active =~= step_agg(a, x2).active);
    }
    assert(l =~= rr);
}

/// A lone aggregator sends its own request, if any.
pub proof fn lemma_ipc_requests_single(o: AndAggView, n: AndAggView)
    ensures
        ipc_requests(seq![o], seq![n]) == match req_of(o, n) {
            Some(r) => seq![r],
            None => Seq::<Seq<char>>::empty(),
        },
{
    reveal_with_fuel(ipc_requests, 2);
    assert(seq![o].drop_last() =~= Seq::<AndAggView>::empty());
    assert(seq![n].drop_last() =~= Seq::<AndAggView>::empty());
    assert(Seq::<Seq<char>>::empty().push(req_of(o, n)->0) =~= seq![req_of(o, n)->0]);
}

/// The requests of two lists of aggregators, one after the other, are the
/// requests of the first list followed by those of the second: each
/// aggregator's request is sent whatever the others do.
pub proof fn lemma_ipc_requests_concat(
    o1: Seq<AndAggView>,
    n1: Seq<AndAggView>,
    o2: Seq<AndAggView>,
    n2: Seq<AndAggView>,
)
    requires
        o1.len() == n1.len(),
        o2.len() == n2.len(),
    ensures
        ipc_requests(o1 + o2, n1 + n2) == ipc_requests(o1, n1) + ipc_requests(o2, n2),
    decreases o2.len(),
{
    if o2.len() == 0 {
        assert(o1 + o2 =~= o1);
        assert(n1 + n2 =~= n1);
        assert(ipc_requests(o1, n1) + Seq::<Seq<char>>::empty() =~= ipc_requests(o1, n1));
    } else {
        assert((o1 + o2).drop_last() =~= o1 + o2.drop_last());
        assert((n1 + n2).drop_last() =~= n1 + n2.drop_last());
        assert((o1 + o2).last() == o2.last());
        assert((n1 + n2).last() == n2.last());
        lemma_ipc_requests_concat(o1, n1, o2.drop_last(), n2.drop_last());
        let a = ipc_requests(o1, n1);
        let b = ipc_requests(o2.drop_last(), n2.drop_last());
        match req_of(o2.last(), n2.last()) {
            Some(r) => {
                assert((a + b).push(r) =~= a + b.push(r));
            },
            None => {},
        }
    }
}

/// Every aggregator whose state changes has its request among those sent.
pub proof fn lemma_each_change_is_requested(old: Seq<AndAggView>, new: Seq<AndAggView>, k: int)
    requires
        old.len() == new.len(),
        0 <= k < old.len(),
        old[k].state != new[k].state,
    ensures
        ipc_requests(old, new).contains(if new[k].state { new[k].on_ipc } else { new[k].off_ipc }),
{
    let (o1, o2, o3) = (old.take(k), seq![old[k]], old.skip(k + 1));
    let (n1, n2, n3) = (new.take(k), seq![new[k]], new.skip(k + 1));
    assert(old =~= o1 + o2 + o3);
    assert(new =~= n1 + n2 + n3);
    lemma_ipc_requests_concat(o1, n1, o2, n2);
    lemma_ipc_requests_concat(o1 + o2, n1 + n2, o3, n3);
    lemma_ipc_requests_single(old[k], new[k]);
    let r = if new[k].state { new[k].on_ipc } else { new[k].off_ipc };
    let a = ipc_requests(o1, n1);
    let all = a + seq![r] + ipc_requests(o3, n3);
    assert(all[a.len() as int] == r);
}

/// The characters of the message frame: `IpcDoEffect((fx: `, then
/// `, val: Press))`.
pub open spec fn effect_frame_head() -> Seq<char> {
    seq!['I', 'p', 'c', 'D', 'o', 'E', 'f', 'f', 'e', 'c', 't', '(', '(', 'f', 'x', ':', ' ']
}

/// The characters that close the message frame: `, val: Press))`.
pub open spec fn effect_frame_tail() -> Seq<char> {
    seq![',', ' ', 'v', 'a', 'l', ':', ' ', 'P', 'r', 'e', 's', 's', ')', ')']
}

/// The effect message is the whole request, unchanged, between
/// `IpcDoEffect((fx: ` and `, val: Press))`.
pub proof fn lemma_effect_msg_frames_request(req: Seq<char>)
    ensures
        effect_msg(req) == effect_frame_head() + req + effect_frame_tail(),
        effect_msg(req).len() == req.len() + 31,
        effect_msg(req).subrange(17, 17int + req.len()) == req,
{
    reveal_strlit("IpcDoEffect((fx: ");
    reveal_strlit(", val: Press))");
    assert("IpcDoEffect((fx: "@ =~= effect_frame_head());
    assert(", val: Press))"@ =~= effect_frame_tail());
    assert((effect_frame_head() + req + effect_frame_tail()).subrange(17, 17int + req.len()) =~= req);
}

/// The message that asks ktrl to perform the effect `req`.
pub open spec fn effect_msg(req: Seq<char>) -> Seq<char> {
    "IpcDoEffect((fx: "@ + req + ", val: Press))"@
}

/// Wraps a request as the effect message that ktrl executes.
pub fn effect_message(req: &str) -> (res: String)
    ensures
        res@ == effect_msg(req@),
{
    let head = String::from_str("IpcDoEffect((fx: ");
    let with_req = head.concat(req);
    with_req.concat(", val: Press))")
}

/// An aggregator whose state is on when all its requirements are met.
#[derive(Debug)]
pub struct AndAgg {
    /// The requirements, as configured.
    cfg: Vec<Requirement>,
    /// `active[i]`: whether `cfg[i]` is currently met.
    active: Vec<bool>,
    /// Sent when all the requirements become met.
    on_ipc: KtrlIpcReq,
    /// Sent when one of the requirements stops being met.
    off_ipc: KtrlIpcReq,
    /// Whether all the requirements were met at the last event.
    state: bool,
}

impl View for AndAgg {
    type V = AndAggView;

    closed spec fn view(&self) -> AndAggView {
        AndAggView {
            cfg: requirement_set(self.cfg@),
            active: Set::new(
                |r: RequirementView|
                    exists|k: int|
                        0 <= k < self.cfg@.len() && #[trigger] self.cfg@[k]@ == r && self.active@[k],
            ),
            on_ipc: self.on_ipc@,
            off_ipc: self.off_ipc@,
            state: self.state,
        }
    }
}

impl AndAgg {
    /// One flag per requirement, and equal requirements carry equal flags.
    pub closed spec fn wf(&self) -> bool {
        &&& self.active@.len() == self.cfg@.len()
        &&& forall|i: int, j: int|
            0 <= i < self.cfg@.len() && 0 <= j < self.cfg@.len() && #[trigger] self.cfg@[i]@
                == #[trigger] self.cfg@[j]@ ==> self.active@[i] == self.active@[j]
    }

    /// A fresh aggregator: nothing met, state off.
    pub fn new(cfg: Vec<Requirement>, on_ipc: KtrlIpcReq, off_ipc: KtrlIpcReq) -> (res: Self)
        ensures
            res.wf(),
            res@ == (AndAggView {
                cfg: requirement_set(cfg@),
                active: Set::empty(),
                on_ipc: on_ipc@,
                off_ipc: off_ipc@,
                state: false,
            }),
    {
        let mut active: Vec<bool> = Vec::new();
        let n = cfg.len();
        for i in 0..n
            invariant
                n == cfg@.len(),
                active@.len() == i,
                forall|k: int| 0 <= k < i ==> active@[k] == false,
        {
            active.push(false);
        }
        let res = AndAgg { cfg, active, on_ipc, off_ipc, state: false };
        assert(res@.active =~= Set::<RequirementView>::empty());
        res
    }

    /// Whether every requirement is currently met.
    pub fn is_on(&self) -> (res: bool)
        requires
            self.wf(),
        ensures
            res == (self@.cfg == self@.active),
    {
        let n = self.cfg.len();
        let mut i: usize = 0;
        while i < n
            invariant
                n == self.cfg@.len(),
                self.wf(),
                i <= n,
                forall|k: int| 0 <= k < i ==> self.active@[k],
            decreases n - i,
        {
            if !self.active[i] {
                proof {
                    let r = self.cfg@[i as int]@;
                    assert(self@.cfg.contains(r));
                    assert(!self@.active.contains(r));
                }
                return false;
            }
            i = i + 1;
        }
        assert(self@.cfg =~= self@.active);
        true
    }

    /// Whether all the requirements were met at the last event.
    pub fn state(&self) -> (res: bool)
        ensures
            res == self@.state,
    {
        self.state
    }

    /// Only configured requirements are ever met.
    pub proof fn lemma_active_configured(&self)
        requires
            self.wf(),
        ensures
            self@.active.subset_of(self@.cfg),
    {
        assert forall|r: RequirementView| self@.active.contains(r) implies self@.cfg.contains(r) by {
            let k = choose|k: int|
                0 <= k < self.cfg@.len() && #[trigger] self.cfg@[k]@ == r && self.active@[k];
        }
    }

    proof fn lemma_flag_is_membership(&self, k: int)
        requires
            self.wf(),
            0 <= k < self.cfg@.len(),
        ensures
            self.active@[k] == self@.active.contains(self.cfg@[k]@),
    {
        let r = self.cfg@[k]@;
        if self@.active.contains(r) {
            let k2 = choose|k2: int|
                0 <= k2 < self.cfg@.len() && #[trigger] self.cfg@[k2]@ == r && self.active@[k2];
            assert(self.cfg@[k]@ == self.cfg@[k2]@);
        }
    }

    /// Applies event `e`; `lowered` is the lower-cased title of the window
    /// when `e` is a focus event. Returns the request to send, if the state
    /// changed.
    pub fn step(&mut self, e: &AltEvent, lowered: &Vec<char>) -> (res: Option<KtrlIpcReq>)
        requires
            old(self).wf(),
            e@ matches AltEventView::Focus(w) ==> lowered@ == lowercase(w),
        ensures
            final(self).wf(),
            final(self)@ == step_agg(old(self)@, e@),
            res is Some == req_of(old(self)@, final(self)@) is Some,
            res matches Some(r) ==> r@ == req_of(old(self)@, final(self)@)->0,
    {
        let ghost old_self = *self;
        let n = self.cfg.len();
        let mut j: usize = 0;
        while j < n
            invariant
                n == self.cfg@.len(),
                self.cfg == old_self.cfg,
                self.on_ipc == old_self.on_ipc,
                self.off_ipc == old_self.off_ipc,
                self.state == old_self.state,
                old_self.wf(),
                self.active@.len() == n,
                j <= n,
                e@ matches AltEventView::Focus(w) ==> lowered@ == lowercase(w),
                forall|k: int|
                    0 <= k < j ==> #[trigger] self.active@[k] == status(
                        self.cfg@[k]@,
                        e@,
                        old_self.active@[k],
                    ),
                forall|k: int| j <= k < n ==> #[trigger] self.active@[k] == old_self.active@[k],
            decreases n - j,
        {
            let cur = self.active[j];
            let next = match &self.cfg[j] {
                Requirement::RqFocus(pattern) => match e {
                    AltEvent::AltFocusEvent(_) => {
                        let pat = chars_of(pattern.as_str());
                        contains(lowered, &pat)
                    },
                    AltEvent::AltExtEvent(_) => cur,
                },
                Requirement::RqExtEvent(name) => match e {
                    AltEvent::AltExtEvent(ext) => {
                        if *name == ext.name {
                            match ext.state {
                                ExtEventState::On => true,
                                ExtEventState::Off => false,
                            }
                        } else {
                            cur
                        }
                    },
                    AltEvent::AltFocusEvent(_) => cur,
                },
            };
            self.active.set(j, next);
            j = j + 1;
        }
        proof {
            assert forall|i: int, k: int|
                0 <= i < n && 0 <= k < n && #[trigger] self.cfg@[i]@ == #[trigger] self.cfg@[k]@
                implies self.active@[i] == self.active@[k] by {
                assert(old_self.active@[i] == old_self.active@[k]);
            }
            let target = step_agg(old_self@, e@);
            assert forall|r: RequirementView| #[trigger] self@.active.contains(r) == target.active.contains(r) by {
                if self@.active.contains(r) {
                    let k = choose|k: int|
                        0 <= k < n && #[trigger] self.cfg@[k]@ == r && self.active@[k];
                    old_self.lemma_flag_is_membership(k);
                    assert(old_self@.cfg.contains(r));
                }
                if target.active.contains(r) {
                    assert(old_self@.cfg.contains(r));
                    let k = choose|k: int| 0 <= k < n && #[trigger] old_self.cfg@[k]@ == r;
                    old_self.lemma_flag_is_membership(k);
                    assert(self.active@[k]);
                }
            }
            assert(self@.active =~= target.active);
        }
        let on = self.is_on();
        let res = if self.state != on {
            if on {
                Some(self.on_ipc.clone())
            } else {
                Some(self.off_ipc.clone())
            }
        } else {
            None
        };
        self.state = on;
        res
    }
}

/// The aggregators, fed one event at a time.
pub struct EvAggregator {
    aggs: Vec<AndAgg>,
}

impl View for EvAggregator {
    type V = Seq<AndAggView>;

    closed spec fn view(&self) -> Seq<AndAggView> {
        self.aggs@.map_values(|a: AndAgg| a@)
    }
}

impl EvAggregator {
    /// Every aggregator is well formed.
    pub closed spec fn wf(&self) -> bool {
        forall|k: int| 0 <= k < self.aggs@.len() ==> (#[trigger] self.aggs@[k]).wf()
    }

    /// In every aggregator, only configured requirements are ever met.
    pub proof fn lemma_active_configured(&self)
        requires
            self.wf(),
        ensures
            forall|k: int| 0 <= k < self@.len() ==> (#[trigger] self@[k]).active.subset_of(self@[k].cfg),
    {
        assert forall|k: int| 0 <= k < self@.len() implies (#[trigger] self@[k]).active.subset_of(
            self@[k].cfg,
        ) by {
            self.aggs@[k].lemma_active_configured();
        }
    }

    /// One aggregator per configured `Agg`, in order, each fresh.
    pub fn new(cfg: AltCfg) -> (res: Self)
        ensures
            res.wf(),
            res@.len() == cfg.aggs@.len(),
            forall|k: int|
                0 <= k < cfg.aggs@.len() ==> #[trigger] res@[k] == (AndAggView {
                    cfg: requirement_set(cfg.aggs@[k].requirements@),
                    active: Set::empty(),
                    on_ipc: cfg.aggs@[k].on_ipc@,
                    off_ipc: cfg.aggs@[k].off_ipc@,
                    state: false,
                }),
    {
        let ghost orig = cfg.aggs@;
        let mut rest = cfg.aggs;
        let mut aggs: Vec<AndAgg> = Vec::new();
        while rest.len() > 0
            invariant
                aggs@.len() + rest@.len() == orig.len(),
                rest@ == orig.subrange(aggs@.len() as int, orig.len() as int),
                forall|k: int| 0 <= k < aggs@.len() ==> (#[trigger] aggs@[k]).wf(),
                forall|k: int|
                    0 <= k < aggs@.len() ==> #[trigger] aggs@[k]@ == (AndAggView {
                        cfg: requirement_set(orig[k].requirements@),
                        active: Set::empty(),
                        on_ipc: orig[k].on_ipc@,
                        off_ipc: orig[k].off_ipc@,
                        state: false,
                    }),
            decreases rest@.len(),
        {
            let agg = rest.remove(0);
            aggs.push(AndAgg::new(agg.requirements, agg.on_ipc, agg.off_ipc));
        }
        EvAggregator { aggs }
    }

    /// The reported state of each aggregator, in order.
    pub fn states(&self) -> (res: Vec<bool>)
        ensures
            res@.len() == self@.len(),
            forall|k: int| 0 <= k < res@.len() ==> res@[k] == #[trigger] self@[k].state,
    {
        let mut res: Vec<bool> = Vec::new();
        let n = self.aggs.len();
        for i in 0..n
            invariant
                n == self.aggs@.len(),
                res@.len() == i,
                forall|k: int| 0 <= k < i ==> res@[k] == #[trigger] self@[k].state,
        {
            res.push(self.aggs[i].state());
        }
        res
    }

    /// Applies `event` to every aggregator and returns, in aggregator order,
    /// the effect messages to send to ktrl: one for each aggregator whose
    /// state changed.
    pub fn handle_event(&mut self, event: &AltEvent) -> (effects: Vec<String>)
        requires
            old(self).wf(),
        ensures
            final(self).wf(),
            final(self)@ == step_aggs(old(self)@, event@),
            effects@.map_values(|s: String| s@) == ipc_requests(old(self)@, final(self)@).map_values(
                |r: Seq<char>| effect_msg(r),
            ),
    {
        let lowered: Vec<char> = match event {
            AltEvent::AltFocusEvent(focus) => {
                let low = to_lowercase(focus.window.as_str());
                chars_of(low.as_str())
            },
            AltEvent::AltExtEvent(_) => Vec::new(),
        };
        let ghost old_view = self@;
        let ghost target = step_aggs(old_view, event@);
        let mut effects: Vec<String> = Vec::new();
        let n = self.aggs.len();
        let mut i: usize = 0;
        while i < n
            invariant
                n == self.aggs@.len(),
                n == old_view.len(),
                i <= n,
                target == step_aggs(old_view, event@),
                event@ matches AltEventView::Focus(w) ==> lowered@ == lowercase(w),
                forall|k: int| 0 <= k < n ==> (#[trigger] self.aggs@[k]).wf(),
                forall|k: int| 0 <= k < i ==> #[trigger] self.aggs@[k]@ == target[k],
                forall|k: int| i <= k < n ==> #[trigger] self.aggs@[k]@ == old_view[k],
                effects@.map_values(|s: String| s@) == ipc_requests(
                    old_view.take(i as int),
                    target.take(i as int),
                ).map_values(|r: Seq<char>| effect_msg(r)),
            decreases n - i,
        {
            let ghost before = ipc_requests(old_view.take(i as int), target.take(i as int));
            let ghost effects_before = effects@;
            let req = self.aggs[i].step(event, &lowered);
            proof {
                assert(old_view.take(i + 1).drop_last() =~= old_view.take(i as int));
                assert(target.take(i + 1).drop_last() =~= target.take(i as int));
                assert(old_view.take(i + 1).last() == old_view[i as int]);
                assert(target.take(i + 1).last() == target[i as int]);
                assert(self.aggs@[i as int]@ == target[i as int]);
            }
            match req {
                Some(r) => {
                    let msg = effect_message(r.as_str());
                    effects.push(msg);
                    proof {
                        assert(ipc_requests(old_view.take(i + 1), target.take(i + 1)) == before.push(r@));
                        assert(effects@.map_values(|s: String| s@) =~= effects_before.map_values(
                            |s: String| s@,
                        ).push(effect_msg(r@)));
                        assert(before.push(r@).map_values(|r: Seq<char>| effect_msg(r)) =~= before.map_values(
                            |r: Seq<char>| effect_msg(r),
                        ).push(effect_msg(r@)));
                        assert(effects@.map_values(|s: String| s@) =~= before.push(r@).map_values(
                            |r: Seq<char>| effect_msg(r),
                        ));
                    }
                },
                None => {
                    assert(ipc_requests(old_view.take(i + 1), target.take(i + 1)) == before);
                },
            }
            i = i + 1;
        }
        proof {
            assert(old_view.take(n as int) =~= old_view);
            assert(target.take(n as int) =~= target);
            assert(self@ =~= target);
        }
        effects
    }
}

} // verus!
