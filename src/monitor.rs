use vstd::prelude::*;
use crate::fork::{
    ForkStep, Header, HeaderView, StepView, WalkView, connect_heights, disconnect_heights,
    steps_view, strictly_decreasing, walk_wf,
};

verus! {

/// What a poll of the best block means for the stored tip.
pub enum PollOutcome {
    /// The best block is the stored tip: nothing to do.
    Unchanged,
    /// The first tip seen: it is recorded and nothing is replayed.
    FirstTip,
    /// The tip moved: the fork from `new_tip` back to `old_tip` is to be resolved.
    NewTip { new_tip: String, old_tip: String },
}

pub ghost enum OutcomeView {
    Unchanged,
    FirstTip,
    NewTip { new_tip: Seq<char>, old_tip: Seq<char> },
}

impl View for PollOutcome {
    type V = OutcomeView;

    open spec fn view(&self) -> OutcomeView {
        match self {
            PollOutcome::Unchanged => OutcomeView::Unchanged,
            PollOutcome::FirstTip => OutcomeView::FirstTip,
            PollOutcome::NewTip { new_tip, old_tip } => OutcomeView::NewTip {
                new_tip: new_tip@,
                old_tip: old_tip@,
            },
        }
    }
}

/// One action of a tick after the fork is resolved, in the order performed.
pub enum ReplayAction {
    /// Tell the chain observer that this block left the best chain.
    Disconnect(Header),
    /// Fetch the block with this hash and tell the chain observer that it joined
    /// the best chain at this height.
    Connect(String, u32),
    /// Refresh the fee estimates.
    RefreshFees,
    /// Push a change notification, dropping it where the listener is full.
    NotifyChange,
    /// Submit every pending transaction again.
    Rebroadcast,
}

pub ghost enum ActionView {
    Disconnect(HeaderView),
    Connect(Seq<char>, u32),
    RefreshFees,
    NotifyChange,
    Rebroadcast,
}

impl View for ReplayAction {
    type V = ActionView;

    open spec fn view(&self) -> ActionView {
        match self {
            ReplayAction::Disconnect(h) => ActionView::Disconnect(h@),
            ReplayAction::Connect(hash, height) => ActionView::Connect(hash@, *height),
            ReplayAction::RefreshFees => ActionView::RefreshFees,
            ReplayAction::NotifyChange => ActionView::NotifyChange,
            ReplayAction::Rebroadcast => ActionView::Rebroadcast,
        }
    }
}

pub open spec fn actions_view(s: Seq<ReplayAction>) -> Seq<ActionView> {
    s.map_values(|a: ReplayAction| a@)
}

/// The disconnects among `s`, in the order emitted: the old tip first.
pub open spec fn undo_order(s: Seq<StepView>) -> Seq<ActionView>
    decreases s.len(),
{
    if s.len() == 0 {
        seq![]
    } else {
        let rest = undo_order(s.drop_last());
        match s.last() {
            StepView::Disconnect(h) => rest.push(ActionView::Disconnect(h)),
            StepView::Connect(_, _) => rest,
        }
    }
}

/// The connects among `s`, the last emitted first: the fork point first.
pub open spec fn redo_order(s: Seq<StepView>) -> Seq<ActionView>
    decreases s.len(),
{
    if s.len() == 0 {
        seq![]
    } else {
        let rest = redo_order(s.drop_first());
        match s[0] {
            StepView::Connect(hash, height) => rest.push(ActionView::Connect(hash, height)),
            StepView::Disconnect(_) => rest,
        }
    }
}

/// What a tick does with the events of a resolved fork: every disconnect, from
/// the old tip down, then every connect, from the fork point up, then a fee
/// refresh, a change notification and a rebroadcast.
pub open spec fn replay_plan(s: Seq<StepView>) -> Seq<ActionView> {
    undo_order(s) + redo_order(s) + seq![
        ActionView::RefreshFees,
        ActionView::NotifyChange,
        ActionView::Rebroadcast,
    ]
}

/// Orders the events of a resolved fork for replay, followed by the actions
/// that close a tick.
pub fn plan_replay(steps: &Vec<ForkStep>) -> (r: Vec<ReplayAction>)
    ensures
        actions_view(r@) == replay_plan(steps_view(steps@)),
{
    let ghost sv = steps_view(steps@);
    let mut r: Vec<ReplayAction> = Vec::new();
    let mut i: usize = 0;
    while i < steps.len()
        invariant
            i <= steps.len(),
            sv == steps_view(steps@),
            actions_view(r@) == undo_order(sv.subrange(0, i as int)),
        decreases steps.len() - i,
    {
        proof {
            assert(sv.subrange(0, i + 1).drop_last() =~= sv.subrange(0, i as int));
        }
        match &steps[i] {
            ForkStep::DisconnectBlock(h) => {
                let ghost before = r@;
                r.push(ReplayAction::Disconnect(h.duplicate()));
                assert(actions_view(r@) =~= actions_view(before).push(
                    ActionView::Disconnect(h@),
                ));
            },
            ForkStep::ConnectBlock(_, _) => {},
        }
        i = i + 1;
    }
    assert(sv.subrange(0, sv.len() as int) =~= sv);
    let ghost undo = actions_view(r@);
    let mut j: usize = steps.len();
    while j > 0
        invariant
            j <= steps.len(),
            sv == steps_view(steps@),
            undo == undo_order(sv),
            actions_view(r@) == undo + redo_order(sv.subrange(j as int, sv.len() as int)),
        decreases j,
    {
        j = j - 1;
        proof {
            assert(sv.subrange(j as int, sv.len() as int).drop_first() =~= sv.subrange(
                j + 1,
                sv.len() as int,
            ));
        }
        match &steps[j] {
            ForkStep::ConnectBlock(hash, height) => {
                let ghost before = r@;
                r.push(ReplayAction::Connect(hash.clone(), *height));
                assert(actions_view(r@) =~= actions_view(before).push(
                    ActionView::Connect(hash@, *height),
                ));
            },
            ForkStep::DisconnectBlock(_) => {},
        }
    }
    let ghost replayed = r@;
    r.push(ReplayAction::RefreshFees);
    r.push(ReplayAction::NotifyChange);
    r.push(ReplayAction::Rebroadcast);
    assert(actions_view(r@) =~= actions_view(replayed) + seq![
        ActionView::RefreshFees,
        ActionView::NotifyChange,
        ActionView::Rebroadcast,
    ]);
    r
}

/// The best-block hash recorded by the last poll that saw a new one; empty
/// before the first.
pub struct TipMonitor {
    best_block_hash: String,
}

impl TipMonitor {
    pub closed spec fn tip(&self) -> Seq<char> {
        self.best_block_hash@
    }

    pub fn new() -> (r: Self)
        ensures
            r.tip() == Seq::<char>::empty(),
    {
        TipMonitor { best_block_hash: String::new() }
    }

    pub fn best_block_hash(&self) -> (r: &String)
        ensures
            r@ == self.tip(),
    {
        &self.best_block_hash
    }

    /// Takes the best-block hash a poll returned. A hash other than the stored
    /// tip is recorded at once.
    pub fn on_best_block(&mut self, new_hash: String) -> (r: PollOutcome)
        ensures
            new_hash@ == old(self).tip() ==> r@ == OutcomeView::Unchanged && final(self).tip()
                == old(self).tip(),
            new_hash@ != old(self).tip() ==> final(self).tip() == new_hash@,
            new_hash@ != old(self).tip() && old(self).tip().len() == 0 ==> r@
                == OutcomeView::FirstTip,
            new_hash@ != old(self).tip() && old(self).tip().len() != 0 ==> r@ == (OutcomeView::NewTip {
                new_tip: new_hash@,
                old_tip: old(self).tip(),
            }),
    {
        if new_hash == self.best_block_hash {
            return PollOutcome::Unchanged;
        }
        let old_tip = self.best_block_hash.clone();
        self.best_block_hash = new_hash.clone();
        if old_tip.as_str().is_empty() {
            PollOutcome::FirstTip
        } else {
            PollOutcome::NewTip { new_tip: new_hash, old_tip }
        }
    }
}

/// The heights of the blocks that replay actions name, in order.
pub open spec fn action_heights(a: Seq<ActionView>) -> Seq<u32> {
    a.map_values(
        |x: ActionView|
            match x {
                ActionView::Disconnect(h) => h.height,
                ActionView::Connect(_, h) => h,
                _ => 0,
            },
    )
}

pub open spec fn strictly_increasing(h: Seq<u32>) -> bool {
    forall|i: int, j: int| 0 <= i < j < h.len() ==> h[i] < h[j]
}

proof fn lemma_undo_heights(s: Seq<StepView>)
    ensures
        action_heights(undo_order(s)) == disconnect_heights(s),
    decreases s.len(),
{
    if s.len() > 0 {
        lemma_undo_heights(s.drop_last());
        assert(action_heights(undo_order(s)) =~= disconnect_heights(s));
    }
}

proof fn lemma_redo_concat(s: Seq<StepView>, t: Seq<StepView>)
    ensures
        redo_order(s + t) == redo_order(t) + redo_order(s),
    decreases s.len(),
{
    if s.len() == 0 {
        assert(s + t =~= t);
        assert(redo_order(t) + redo_order(s) =~= redo_order(t));
    } else {
        assert((s + t).drop_first() =~= s.drop_first() + t);
        lemma_redo_concat(s.drop_first(), t);
        assert((s + t)[0] == s[0]);
        assert(redo_order(s + t) =~= redo_order(t) + redo_order(s));
    }
}

proof fn lemma_redo_heights(s: Seq<StepView>)
    ensures
        action_heights(redo_order(s)) == connect_heights(s).reverse(),
    decreases s.len(),
{
    if s.len() > 0 {
        let init = s.drop_last();
        let last = seq![s.last()];
        assert(init + last =~= s);
        lemma_redo_concat(init, last);
        lemma_redo_heights(init);
        assert(last.drop_first() =~= Seq::<StepView>::empty());
        assert(redo_order(Seq::<StepView>::empty()) =~= Seq::<ActionView>::empty());
        assert(s.drop_last() == init);
        let ci = connect_heights(init);
        match s.last() {
            StepView::Connect(hash, h) => {
                assert(redo_order(last) =~= seq![ActionView::Connect(hash, h)]);
                assert(connect_heights(s) == ci.push(h));
                assert(action_heights(redo_order(s)) =~= seq![h] + ci.reverse());
                assert(ci.push(h).reverse() =~= seq![h] + ci.reverse());
            },
            StepView::Disconnect(_) => {
                assert(redo_order(last) =~= Seq::<ActionView>::empty());
                assert(connect_heights(s) == ci);
                assert(redo_order(s) =~= redo_order(init));
            },
        }
    } else {
        assert(action_heights(redo_order(s)) =~= connect_heights(s).reverse());
    }
}

/// Replaying a consistent walk undoes blocks from the old tip down, at
/// strictly decreasing heights, and applies blocks from the fork point up, at
/// strictly increasing heights.
pub proof fn lemma_replay_order(w: WalkView)
    requires
        walk_wf(w),
    ensures
        strictly_decreasing(action_heights(undo_order(w.steps))),
        strictly_increasing(action_heights(redo_order(w.steps))),
{
    lemma_undo_heights(w.steps);
    lemma_redo_heights(w.steps);
    let c = connect_heights(w.steps);
    assert forall|i: int, j: int| 0 <= i < j < c.reverse().len() implies c.reverse()[i]
        < c.reverse()[j] by {
        assert(c[c.len() - 1 - j] > c[c.len() - 1 - i]);
    }
}

} // verus!
