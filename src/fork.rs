use vstd::prelude::*;

verus! {

/// What the walk needs to know of a block header.
pub struct Header {
    pub hash: String,
    pub height: u32,
    pub previous_hash: String,
}

pub ghost struct HeaderView {
    pub hash: Seq<char>,
    pub height: u32,
    pub previous_hash: Seq<char>,
}

impl View for Header {
    type V = HeaderView;

    open spec fn view(&self) -> HeaderView {
        HeaderView { hash: self.hash@, height: self.height, previous_hash: self.previous_hash@ }
    }
}

impl Header {
    pub fn duplicate(&self) -> (r: Header)
        ensures
            r@ == self@,
    {
        Header {
            hash: self.hash.clone(),
            height: self.height,
            previous_hash: self.previous_hash.clone(),
        }
    }
}

/// One event of a fork resolution.
pub enum ForkStep {
    /// The block with this header leaves the best chain.
    DisconnectBlock(Header),
    /// The block with this hash, at this height, joins the best chain.
    ConnectBlock(String, u32),
}

pub ghost enum StepView {
    Disconnect(HeaderView),
    Connect(Seq<char>, u32),
}

impl View for ForkStep {
    type V = StepView;

    open spec fn view(&self) -> StepView {
        match self {
            ForkStep::DisconnectBlock(h) => StepView::Disconnect(h@),
            ForkStep::ConnectBlock(hash, height) => StepView::Connect(hash@, *height),
        }
    }
}

/// What the walk waits for.
#[derive(Clone, Copy, Debug, PartialEq, Eq, Structural)]
pub enum Awaiting {
    /// The header of the new tip.
    Tip,
    /// The header of the old tip, which the oracle may not know.
    Target,
    /// The parent of the current header.
    CurrentParent,
    /// The parent of the target header.
    TargetParent,
    /// The parents of the current header and of the target header, in this order.
    BothParents,
    /// Nothing: the walk is over.
    Done,
}

/// Why a header handed to the walk was refused.
#[derive(Clone, Copy, Debug, PartialEq, Eq, Structural)]
pub enum WalkError {
    /// The walk is over and asks for nothing.
    NotAwaiting,
    /// A header the walk needs was not supplied.
    MissingHeader,
    /// A header does not have the hash asked for, or not the height that its
    /// place in the chain implies.
    UnexpectedHeader,
}

pub ghost struct WalkView {
    pub tip_hash: Seq<char>,
    pub target_hash: Seq<char>,
    pub current: Option<HeaderView>,
    pub target: Option<HeaderView>,
    pub awaiting: Awaiting,
    pub steps: Seq<StepView>,
}

/// One step back from the current header and, where it is present, the target
/// header: the events emitted and what is fetched next.
pub open spec fn walk_step(c: HeaderView, t: Option<HeaderView>) -> (Seq<StepView>, Awaiting) {
    let connect_parent = StepView::Connect(c.previous_hash, (c.height - 1) as u32);
    if t is Some && t->0.hash == c.previous_hash {
        (seq![], Awaiting::Done)
    } else if c.height == 1 {
        (seq![], Awaiting::Done)
    } else if t is None || t->0.height < c.height {
        (seq![connect_parent], Awaiting::CurrentParent)
    } else if t->0.previous_hash == c.previous_hash {
        (seq![StepView::Disconnect(t->0), connect_parent], Awaiting::Done)
    } else if t->0.height > c.height {
        (seq![StepView::Disconnect(t->0)], Awaiting::TargetParent)
    } else {
        (seq![StepView::Disconnect(t->0), connect_parent], Awaiting::BothParents)
    }
}

pub open spec fn advance(w: WalkView, c: HeaderView, t: Option<HeaderView>) -> WalkView {
    let (emitted, next) = walk_step(c, t);
    WalkView { current: Some(c), target: t, awaiting: next, steps: w.steps + emitted, ..w }
}

/// `p` is the parent of `c`, one block lower.
pub open spec fn is_parent(p: HeaderView, c: HeaderView) -> bool {
    p.hash == c.previous_hash && p.height as int == c.height as int - 1
}

/// The walk after the headers it waits for are handed to it.
pub open spec fn supplied(w: WalkView, first: Option<HeaderView>, second: Option<HeaderView>) -> Result<
    WalkView,
    WalkError,
> {
    match w.awaiting {
        Awaiting::Done => Err(WalkError::NotAwaiting),
        Awaiting::Tip => match first {
            None => Err(WalkError::MissingHeader),
            Some(h) => if h.hash != w.tip_hash || h.height < 1 {
                Err(WalkError::UnexpectedHeader)
            } else {
                let next = if w.target_hash.len() == 0 || h.previous_hash == w.target_hash
                    || h.height == 1 {
                    Awaiting::Done
                } else {
                    Awaiting::Target
                };
                Ok(
                    WalkView {
                        current: Some(h),
                        awaiting: next,
                        steps: w.steps.push(StepView::Connect(w.tip_hash, h.height)),
                        ..w
                    },
                )
            },
        },
        Awaiting::Target => match first {
            None => Ok(advance(w, w.current->0, None)),
            Some(t) => if t.hash != w.target_hash || t.height < 1 {
                Err(WalkError::UnexpectedHeader)
            } else {
                Ok(advance(w, w.current->0, Some(t)))
            },
        },
        Awaiting::CurrentParent => match first {
            None => Err(WalkError::MissingHeader),
            Some(p) => if !is_parent(p, w.current->0) {
                Err(WalkError::UnexpectedHeader)
            } else {
                Ok(advance(w, p, w.target))
            },
        },
        Awaiting::TargetParent => match first {
            None => Err(WalkError::MissingHeader),
            Some(p) => if !is_parent(p, w.target->0) {
                Err(WalkError::UnexpectedHeader)
            } else {
                Ok(advance(w, w.current->0, Some(p)))
            },
        },
        Awaiting::BothParents => if first is None || second is None {
            Err(WalkError::MissingHeader)
        } else if !is_parent(first->0, w.current->0) || !is_parent(second->0, w.target->0) {
            Err(WalkError::UnexpectedHeader)
        } else {
            Ok(advance(w, first->0, second))
        },
    }
}

/// The heights of the connect events, in the order emitted.
pub open spec fn connect_heights(s: Seq<StepView>) -> Seq<u32>
    decreases s.len(),
{
    if s.len() == 0 {
        seq![]
    } else {
        let rest = connect_heights(s.drop_last());
        match s.last() {
            StepView::Connect(_, h) => rest.push(h),
            StepView::Disconnect(_) => rest,
        }
    }
}

/// The heights of the disconnect events, in the order emitted.
pub open spec fn disconnect_heights(s: Seq<StepView>) -> Seq<u32>
    decreases s.len(),
{
    if s.len() == 0 {
        seq![]
    } else {
        let rest = disconnect_heights(s.drop_last());
        match s.last() {
            StepView::Disconnect(h) => rest.push(h.height),
            StepView::Connect(_, _) => rest,
        }
    }
}

pub open spec fn strictly_decreasing(h: Seq<u32>) -> bool {
    forall|i: int, j: int| 0 <= i < j < h.len() ==> h[i] > h[j]
}

pub open spec fn all_at_least(h: Seq<u32>, floor: int) -> bool {
    forall|i: int| 0 <= i < h.len() ==> h[i] >= floor
}

pub open spec fn above_genesis(s: Seq<StepView>) -> bool {
    all_at_least(connect_heights(s), 1) && all_at_least(disconnect_heights(s), 1)
}

/// Every header the walk asks for lies at height 1 or above.
pub open spec fn requests_above_genesis(w: WalkView) -> bool {
    match w.awaiting {
        Awaiting::CurrentParent => w.current->0.height >= 2,
        Awaiting::TargetParent => w.target->0.height >= 2,
        Awaiting::BothParents => w.current->0.height >= 2 && w.target->0.height >= 2,
        _ => true,
    }
}

pub proof fn lemma_heights_push(s: Seq<StepView>, x: StepView)
    ensures
        connect_heights(s.push(x)) == match x {
            StepView::Connect(_, h) => connect_heights(s).push(h),
            StepView::Disconnect(_) => connect_heights(s),
        },
        disconnect_heights(s.push(x)) == match x {
            StepView::Disconnect(h) => disconnect_heights(s).push(h.height),
            StepView::Connect(_, _) => disconnect_heights(s),
        },
{
    assert(s.push(x).drop_last() =~= s);
}

/// The walk is consistent: the events emitted so far keep both orders and the
/// height floor, and the state can go on keeping them.
pub open spec fn walk_wf(w: WalkView) -> bool {
    let c = connect_heights(w.steps);
    let d = disconnect_heights(w.steps);
    &&& above_genesis(w.steps)
    &&& requests_above_genesis(w)
    &&& strictly_decreasing(c)
    &&& strictly_decreasing(d)
    &&& match w.awaiting {
        Awaiting::Tip => w.current is None && w.target is None && w.steps.len() == 0,
        Awaiting::Done => true,
        Awaiting::Target => {
            &&& w.current is Some && w.target is None
            &&& w.current->0.height >= 1
            &&& all_at_least(c, w.current->0.height as int)
            &&& d.len() == 0
        },
        Awaiting::CurrentParent => {
            &&& w.current is Some
            &&& all_at_least(c, w.current->0.height - 1)
            &&& w.target is None ==> d.len() == 0
            &&& w.target is Some ==> w.target->0.height >= 1 && all_at_least(
                d,
                w.target->0.height + 1,
            )
        },
        Awaiting::TargetParent => {
            &&& w.current is Some && w.target is Some
            &&& w.current->0.height >= 1
            &&& all_at_least(c, w.current->0.height as int)
            &&& all_at_least(d, w.target->0.height as int)
        },
        Awaiting::BothParents => {
            &&& w.current is Some && w.target is Some
            &&& all_at_least(c, w.current->0.height - 1)
            &&& all_at_least(d, w.target->0.height as int)
        },
    }
}

/// What must hold of the current and target headers before a step back.
pub open spec fn ready_to_step(w: WalkView, c: HeaderView, t: Option<HeaderView>) -> bool {
    let ch = connect_heights(w.steps);
    let d = disconnect_heights(w.steps);
    &&& above_genesis(w.steps)
    &&& strictly_decreasing(ch)
    &&& strictly_decreasing(d)
    &&& c.height >= 1
    &&& all_at_least(ch, c.height as int)
    &&& t is None ==> d.len() == 0
    &&& t is Some ==> t->0.height >= 1 && all_at_least(d, t->0.height + 1)
}

proof fn lemma_push_below(h: Seq<u32>, x: u32, floor: int)
    requires
        strictly_decreasing(h),
        all_at_least(h, x + 1),
        x >= floor,
    ensures
        strictly_decreasing(h.push(x)),
        all_at_least(h.push(x), floor),
{
    assert forall|i: int, j: int| 0 <= i < j < h.push(x).len() implies h.push(x)[i] > h.push(
        x,
    )[j] by {
        if j == h.len() {
            assert(h[i] >= x + 1);
        }
    }
}

proof fn lemma_advance_wf(w: WalkView, c: HeaderView, t: Option<HeaderView>)
    requires
        ready_to_step(w, c, t),
    ensures
        walk_wf(advance(w, c, t)),
{
    let (emitted, next) = walk_step(c, t);
    let s = w.steps;
    let ch = connect_heights(s);
    let d = disconnect_heights(s);
    let cp = StepView::Connect(c.previous_hash, (c.height - 1) as u32);
    if t is Some && t->0.hash == c.previous_hash {
        assert(s + emitted =~= s);
    } else if c.height == 1 {
        assert(s + emitted =~= s);
    } else if t is None || t->0.height < c.height {
        assert(s + emitted =~= s.push(cp));
        lemma_heights_push(s, cp);
        lemma_push_below(ch, (c.height - 1) as u32, 1);
    } else {
        let dv = StepView::Disconnect(t->0);
        lemma_heights_push(s, dv);
        lemma_push_below(d, t->0.height, 1);
        assert(connect_heights(s.push(dv)) == ch);
        if t->0.height > c.height && t->0.previous_hash != c.previous_hash {
            assert(s + emitted =~= s.push(dv));
            lemma_push_below(d, t->0.height, t->0.height as int);
        } else {
            assert(s + emitted =~= s.push(dv).push(cp));
            lemma_heights_push(s.push(dv), cp);
            lemma_push_below(ch, (c.height - 1) as u32, 1);
            lemma_push_below(ch, (c.height - 1) as u32, c.height - 1);
            lemma_push_below(d, t->0.height, t->0.height as int);
        }
    }
}

proof fn lemma_supplied_wf(w: WalkView, first: Option<HeaderView>, second: Option<HeaderView>)
    requires
        walk_wf(w),
        supplied(w, first, second) is Ok,
    ensures
        walk_wf(supplied(w, first, second)->Ok_0),
{
    match w.awaiting {
        Awaiting::Tip => {
            let h = first->0;
            let x = StepView::Connect(w.tip_hash, h.height);
            assert(w.steps =~= seq![]);
            lemma_heights_push(w.steps, x);
            assert(connect_heights(w.steps) =~= seq![]);
            assert(disconnect_heights(w.steps) =~= seq![]);
            assert(connect_heights(w.steps.push(x)) =~= seq![h.height]);
        },
        Awaiting::Target => {
            lemma_advance_wf(w, w.current->0, first);
        },
        Awaiting::CurrentParent => {
            lemma_advance_wf(w, first->0, w.target);
        },
        Awaiting::TargetParent => {
            lemma_advance_wf(w, w.current->0, first);
        },
        Awaiting::BothParents => {
            lemma_advance_wf(w, first->0, second);
        },
        Awaiting::Done => {},
    }
}

pub open spec fn opt_view(o: Option<Header>) -> Option<HeaderView> {
    match o {
        Some(h) => Some(h@),
        None => None,
    }
}

pub open spec fn steps_view(s: Seq<ForkStep>) -> Seq<StepView> {
    s.map_values(|x: ForkStep| x@)
}

/// The hashes whose headers the walk waits for, in the order it takes them.
pub open spec fn requested(w: WalkView) -> Seq<Seq<char>> {
    match w.awaiting {
        Awaiting::Tip => seq![w.tip_hash],
        Awaiting::Target => seq![w.target_hash],
        Awaiting::CurrentParent => seq![w.current->0.previous_hash],
        Awaiting::TargetParent => seq![w.target->0.previous_hash],
        Awaiting::BothParents => seq![w.current->0.previous_hash, w.target->0.previous_hash],
        Awaiting::Done => seq![],
    }
}

/// A backward walk from a new tip and an old tip to their fork point. It asks
/// for one or two headers at a time and emits the events that take a chain
/// observer from the old tip to the new one.
pub struct ForkWalk {
    tip_hash: String,
    target_hash: String,
    current: Option<Header>,
    target: Option<Header>,
    awaiting: Awaiting,
    steps: Vec<ForkStep>,
}

impl View for ForkWalk {
    type V = WalkView;

    closed spec fn view(&self) -> WalkView {
        WalkView {
            tip_hash: self.tip_hash@,
            target_hash: self.target_hash@,
            current: opt_view(self.current),
            target: opt_view(self.target),
            awaiting: self.awaiting,
            steps: steps_view(self.steps@),
        }
    }
}

fn copy_opt(o: &Option<Header>) -> (r: Option<Header>)
    ensures
        opt_view(r) == opt_view(*o),
{
    match o {
        Some(h) => Some(h.duplicate()),
        None => None,
    }
}

impl ForkWalk {
    /// Starts a walk from `current_hash`, the new tip, back to `target_hash`, the
    /// old tip; an empty `target_hash` stands for no old tip. Equal hashes give a
    /// walk that is already over and emits nothing.
    pub fn find_fork(current_hash: String, target_hash: String) -> (r: ForkWalk)
        ensures
            r@ == (WalkView {
                tip_hash: current_hash@,
                target_hash: target_hash@,
                current: None,
                target: None,
                awaiting: if current_hash@ == target_hash@ {
                    Awaiting::Done
                } else {
                    Awaiting::Tip
                },
                steps: seq![],
            }),
            walk_wf(r@),
    {
        let awaiting = if current_hash == target_hash {
            Awaiting::Done
        } else {
            Awaiting::Tip
        };
        let r = ForkWalk {
            tip_hash: current_hash,
            target_hash,
            current: None,
            target: None,
            awaiting,
            steps: Vec::new(),
        };
        proof {
            assert(steps_view(r.steps@) =~= seq![]);
            assert(connect_heights(seq![]) =~= seq![]);
            assert(disconnect_heights(seq![]) =~= seq![]);
        }
        r
    }

    pub fn is_done(&self) -> (r: bool)
        ensures
            r == (self@.awaiting == Awaiting::Done),
    {
        self.awaiting == Awaiting::Done
    }

    pub fn awaiting(&self) -> (r: Awaiting)
        ensures
            r == self@.awaiting,
    {
        self.awaiting
    }

    /// The events emitted so far.
    pub fn steps(&self) -> (r: &Vec<ForkStep>)
        ensures
            steps_view(r@) == self@.steps,
    {
        &self.steps
    }

    /// The events emitted, taking the walk apart.
    pub fn into_steps(self) -> (r: Vec<ForkStep>)
        ensures
            steps_view(r@) == self@.steps,
    {
        self.steps
    }

    /// The hashes whose headers the walk needs next.
    pub fn request(&self) -> (r: Vec<String>)
        requires
            walk_wf(self@),
        ensures
            r@.map_values(|x: String| x@) == requested(self@),
    {
        let mut r: Vec<String> = Vec::new();
        match self.awaiting {
            Awaiting::Tip => r.push(self.tip_hash.clone()),
            Awaiting::Target => r.push(self.target_hash.clone()),
            Awaiting::CurrentParent => {
                let c = self.current.as_ref().unwrap();
                r.push(c.previous_hash.clone());
            },
            Awaiting::TargetParent => {
                let t = self.target.as_ref().unwrap();
                r.push(t.previous_hash.clone());
            },
            Awaiting::BothParents => {
                let c = self.current.as_ref().unwrap();
                let t = self.target.as_ref().unwrap();
                r.push(c.previous_hash.clone());
                r.push(t.previous_hash.clone());
            },
            Awaiting::Done => {},
        }
        assert(r@.map_values(|x: String| x@) =~= requested(self@));
        r
    }

    fn push_step(&mut self, x: ForkStep)
        ensures
            final(self)@ == (WalkView { steps: old(self)@.steps.push(x@), ..old(self)@ }),
    {
        self.steps.push(x);
        assert(steps_view(self.steps@) =~= steps_view(old(self).steps@).push(x@));
    }

    /// Takes `c` as the current header and `t` as the target header, emits the
    /// events of one step back and decides what to fetch next.
    fn find_fork_step(&mut self, c: Header, t: Option<Header>)
        requires
            c.height >= 1,
        ensures
            final(self)@ == advance(old(self)@, c@, opt_view(t)),
    {
        let ghost w = self@;
        let ghost (emitted, next) = walk_step(c@, opt_view(t));
        let found_parent = match &t {
            Some(th) => th.hash == c.previous_hash,
            None => false,
        };
        if found_parent || c.height == 1 {
            self.awaiting = Awaiting::Done;
        } else {
            let behind = match &t {
                Some(th) => th.height < c.height,
                None => true,
            };
            if behind {
                self.push_step(ForkStep::ConnectBlock(c.previous_hash.clone(), c.height - 1));
                self.awaiting = Awaiting::CurrentParent;
            } else {
                let th = t.as_ref().unwrap();
                self.push_step(ForkStep::DisconnectBlock(th.duplicate()));
                if th.previous_hash == c.previous_hash {
                    self.push_step(ForkStep::ConnectBlock(c.previous_hash.clone(), c.height - 1));
                    self.awaiting = Awaiting::Done;
                } else if th.height > c.height {
                    self.awaiting = Awaiting::TargetParent;
                } else {
                    self.push_step(ForkStep::ConnectBlock(c.previous_hash.clone(), c.height - 1));
                    self.awaiting = Awaiting::BothParents;
                }
            }
        }
        self.current = Some(c);
        self.target = t;
        assert(self@.steps =~= w.steps + emitted);
    }

    /// Hands the walk the headers it asked for, in the order of `request`: `first`
    /// for the only or the first hash, `second` for the second. The old tip's
    /// header may be `None` where the oracle does not know it. A header the walk
    /// refuses leaves it as it was.
    pub fn supply(&mut self, first: Option<Header>, second: Option<Header>) -> (r: Result<
        (),
        WalkError,
    >)
        requires
            walk_wf(old(self)@),
        ensures
            walk_wf(final(self)@),
            match supplied(old(self)@, opt_view(first), opt_view(second)) {
                Ok(v) => r is Ok && final(self)@ == v,
                Err(e) => r == Err::<(), WalkError>(e) && final(self)@ == old(self)@,
            },
    {
        proof {
            if supplied(self@, opt_view(first), opt_view(second)) is Ok {
                lemma_supplied_wf(self@, opt_view(first), opt_view(second));
            }
        }
        match self.awaiting {
            Awaiting::Done => Err(WalkError::NotAwaiting),
            Awaiting::Tip => match first {
                None => Err(WalkError::MissingHeader),
                Some(h) => {
                    if h.hash != self.tip_hash || h.height < 1 {
                        Err(WalkError::UnexpectedHeader)
                    } else {
                        let done = self.target_hash.as_str().is_empty()
                            || h.previous_hash == self.target_hash || h.height == 1;
                        self.push_step(ForkStep::ConnectBlock(self.tip_hash.clone(), h.height));
                        self.awaiting = if done {
                            Awaiting::Done
                        } else {
                            Awaiting::Target
                        };
                        self.current = Some(h);
                        Ok(())
                    }
                },
            },
            Awaiting::Target => match first {
                None => {
                    let c = self.current.as_ref().unwrap().duplicate();
                    self.find_fork_step(c, None);
                    Ok(())
                },
                Some(t) => {
                    if t.hash != self.target_hash || t.height < 1 {
                        Err(WalkError::UnexpectedHeader)
                    } else {
                        let c = self.current.as_ref().unwrap().duplicate();
                        self.find_fork_step(c, Some(t));
                        Ok(())
                    }
                },
            },
            Awaiting::CurrentParent => match first {
                None => Err(WalkError::MissingHeader),
                Some(p) => {
                    let c = self.current.as_ref().unwrap();
                    if p.hash != c.previous_hash || p.height as u64 + 1 != c.height as u64 {
                        Err(WalkError::UnexpectedHeader)
                    } else {
                        let t = copy_opt(&self.target);
                        self.find_fork_step(p, t);
                        Ok(())
                    }
                },
            },
            Awaiting::TargetParent => match first {
                None => Err(WalkError::MissingHeader),
                Some(p) => {
                    let t = self.target.as_ref().unwrap();
                    if p.hash != t.previous_hash || p.height as u64 + 1 != t.height as u64 {
                        Err(WalkError::UnexpectedHeader)
                    } else {
                        let c = self.current.as_ref().unwrap().duplicate();
                        self.find_fork_step(c, Some(p));
                        Ok(())
                    }
                },
            },
            Awaiting::BothParents => match (first, second) {
                (Some(p), Some(q)) => {
                    let c = self.current.as_ref().unwrap();
                    let t = self.target.as_ref().unwrap();
                    if p.hash != c.previous_hash || p.height as u64 + 1 != c.height as u64
                        || q.hash != t.previous_hash || q.height as u64 + 1 != t.height as u64 {
                        Err(WalkError::UnexpectedHeader)
                    } else {
                        self.find_fork_step(p, Some(q));
                        Ok(())
                    }
                },
                _ => Err(WalkError::MissingHeader),
            },
        }
    }
}

/// When the new tip's parent is the old tip, the walk ends after the new tip's
/// header with exactly one event: the new tip connects at its own height.
pub proof fn lemma_fast_path(w: WalkView, h: HeaderView, second: Option<HeaderView>)
    requires
        w.awaiting == Awaiting::Tip,
        w.steps.len() == 0,
        h.hash == w.tip_hash,
        h.height >= 1,
        h.previous_hash == w.target_hash,
    ensures
        supplied(w, Some(h), second) is Ok,
        supplied(w, Some(h), second)->Ok_0.awaiting == Awaiting::Done,
        supplied(w, Some(h), second)->Ok_0.steps == seq![StepView::Connect(w.tip_hash, h.height)],
{
    assert(w.steps.push(StepView::Connect(w.tip_hash, h.height)) =~= seq![
        StepView::Connect(w.tip_hash, h.height),
    ]);
}

/// No event of a walk names a block below height 1, and every header it asks
/// for is the parent of a header at height 2 or above.
pub proof fn lemma_walk_above_genesis(w: WalkView)
    requires
        walk_wf(w),
    ensures
        above_genesis(w.steps),
        requests_above_genesis(w),
{
}

/// The disconnects of a walk come at strictly decreasing heights, and so do
/// its connects, in the order emitted.
pub proof fn lemma_walk_orders(w: WalkView)
    requires
        walk_wf(w),
    ensures
        strictly_decreasing(connect_heights(w.steps)),
        strictly_decreasing(disconnect_heights(w.steps)),
{
}

/// The header at height `base + i` of a chain whose hashes from the common
/// ancestor up are `chain[0]`, `chain[1]`, ...
pub open spec fn chain_header(chain: Seq<Seq<char>>, base: int, i: int) -> HeaderView {
    HeaderView { hash: chain[i], height: (base + i) as u32, previous_hash: chain[i - 1] }
}

/// `hi`, `hi - 1`, ..., `lo`.
pub open spec fn heights_down(hi: int, lo: int) -> Seq<u32> {
    Seq::new((hi - lo + 1) as nat, |k: int| (hi - k) as u32)
}

/// Two sibling chains of `n` blocks above a common ancestor at height `base`:
/// `new_chain[0] == old_chain[0]` is the ancestor, and no other hash is shared.
pub open spec fn sibling_chains(
    new_chain: Seq<Seq<char>>,
    old_chain: Seq<Seq<char>>,
    base: int,
    n: int,
) -> bool {
    &&& n >= 1 && base >= 1 && base + n <= u32::MAX
    &&& new_chain.len() == n + 1 && old_chain.len() == n + 1
    &&& new_chain[0] == old_chain[0]
    &&& old_chain[n].len() > 0
    &&& forall|i: int, j: int|
        0 <= i <= n && 0 <= j <= n && (i > 0 || j > 0) ==> new_chain[i] != old_chain[j]
}

/// The walk from level `i` of two sibling chains down, each step given the
/// parents of the current and target headers.
pub open spec fn walk_down(
    w: WalkView,
    new_chain: Seq<Seq<char>>,
    old_chain: Seq<Seq<char>>,
    base: int,
    i: int,
) -> WalkView
    decreases i,
{
    if i <= 1 {
        w
    } else {
        let next = supplied(
            w,
            Some(chain_header(new_chain, base, i - 1)),
            Some(chain_header(old_chain, base, i - 1)),
        );
        walk_down(next->Ok_0, new_chain, old_chain, base, i - 1)
    }
}

proof fn lemma_walk_down(
    w: WalkView,
    new_chain: Seq<Seq<char>>,
    old_chain: Seq<Seq<char>>,
    base: int,
    n: int,
    i: int,
)
    requires
        sibling_chains(new_chain, old_chain, base, n),
        1 <= i <= n,
        w.current == Some(chain_header(new_chain, base, i)),
        w.target == Some(chain_header(old_chain, base, i)),
        w.awaiting == if i == 1 {
            Awaiting::Done
        } else {
            Awaiting::BothParents
        },
        disconnect_heights(w.steps) == heights_down(base + n, base + i),
        connect_heights(w.steps) == heights_down(base + n, base + i - 1),
    ensures
        walk_down(w, new_chain, old_chain, base, i).awaiting == Awaiting::Done,
        disconnect_heights(walk_down(w, new_chain, old_chain, base, i).steps) == heights_down(
            base + n,
            base + 1,
        ),
        connect_heights(walk_down(w, new_chain, old_chain, base, i).steps) == heights_down(
            base + n,
            base,
        ),
    decreases i,
{
    if i > 1 {
        let c = chain_header(new_chain, base, i - 1);
        let t = chain_header(old_chain, base, i - 1);
        assert(new_chain[i - 1] != old_chain[i - 1]);
        assert(old_chain[i - 1] != new_chain[i - 2]);
        assert(is_parent(c, w.current->0));
        assert(is_parent(t, w.target->0));
        let next = supplied(w, Some(c), Some(t))->Ok_0;
        assert(next == advance(w, c, Some(t)));
        let dv = StepView::Disconnect(t);
        let cp = StepView::Connect(c.previous_hash, (c.height - 1) as u32);
        let (emitted, _) = walk_step(c, Some(t));
        assert(t.previous_hash == c.previous_hash <==> i - 1 == 1);
        assert(emitted == seq![dv, cp]);
        assert(w.steps + emitted =~= w.steps.push(dv).push(cp));
        lemma_heights_push(w.steps, dv);
        lemma_heights_push(w.steps.push(dv), cp);
        assert(disconnect_heights(next.steps) =~= heights_down(base + n, base + i - 1));
        assert(connect_heights(next.steps) =~= heights_down(base + n, base + i - 2));
        lemma_walk_down(next, new_chain, old_chain, base, n, i - 1);
    }
}

/// A fresh walk from the tip of one of two sibling chains back to the tip of
/// the other, each `n` blocks above a common ancestor at height `base`, and
/// handed the headers it asks for: it accepts every one, and ends having
/// emitted disconnects at heights `base + n` down to `base + 1` and connects
/// at heights `base + n` down to `base`, the ancestor's.
pub proof fn lemma_symmetric_reorg(
    w: WalkView,
    new_chain: Seq<Seq<char>>,
    old_chain: Seq<Seq<char>>,
    base: int,
    n: int,
)
    requires
        sibling_chains(new_chain, old_chain, base, n),
        w.awaiting == Awaiting::Tip,
        w.steps.len() == 0,
        w.tip_hash == new_chain[n],
        w.target_hash == old_chain[n],
    ensures
        ({
            let w1 = supplied(w, Some(chain_header(new_chain, base, n)), None);
            let w2 = supplied(w1->Ok_0, Some(chain_header(old_chain, base, n)), None);
            let done = walk_down(w2->Ok_0, new_chain, old_chain, base, n);
            &&& w1 is Ok
            &&& w2 is Ok
            &&& done.awaiting == Awaiting::Done
            &&& disconnect_heights(done.steps) == heights_down(base + n, base + 1)
            &&& connect_heights(done.steps) == heights_down(base + n, base)
        }),
{
    let c = chain_header(new_chain, base, n);
    let t = chain_header(old_chain, base, n);
    assert(new_chain[n - 1] != old_chain[n]);
    let x = StepView::Connect(w.tip_hash, c.height);
    let w1 = supplied(w, Some(c), None)->Ok_0;
    assert(w1.awaiting == Awaiting::Target);
    assert(w.steps =~= seq![]);
    lemma_heights_push(w.steps, x);
    assert(connect_heights(w.steps) =~= seq![]);
    assert(disconnect_heights(w.steps) =~= seq![]);
    let w2 = supplied(w1, Some(t), None)->Ok_0;
    assert(w2 == advance(w1, c, Some(t)));
    assert(old_chain[n] != new_chain[n - 1]);
    assert(new_chain[n] != old_chain[n]);
    let dv = StepView::Disconnect(t);
    let cp = StepView::Connect(c.previous_hash, (c.height - 1) as u32);
    let (emitted, _) = walk_step(c, Some(t));
    assert(t.previous_hash == c.previous_hash <==> n == 1);
    assert(emitted == seq![dv, cp]);
    assert(w1.steps + emitted =~= w1.steps.push(dv).push(cp));
    lemma_heights_push(w1.steps, dv);
    lemma_heights_push(w1.steps.push(dv), cp);
    assert(disconnect_heights(w2.steps) =~= heights_down(base + n, base + n));
    assert(connect_heights(w2.steps) =~= heights_down(base + n, base + n - 1));
    lemma_walk_down(w2, new_chain, old_chain, base, n, n);
}

/// The sum of the heights of the current and target headers.
pub open spec fn walked_heights(w: WalkView) -> int {
    w.current->0.height + if w.target is Some {
        w.target->0.height as int
    } else {
        0
    }
}

/// Once both tips are known, every header the walk accepts either ends it or
/// lowers the sum of the current and target heights, which never goes below
/// zero: the walk ends within that many fetches.
pub proof fn lemma_walk_progress(w: WalkView, first: Option<HeaderView>, second: Option<HeaderView>)
    requires
        walk_wf(w),
        w.awaiting == Awaiting::CurrentParent || w.awaiting == Awaiting::TargetParent
            || w.awaiting == Awaiting::BothParents,
        supplied(w, first, second) is Ok,
    ensures
        supplied(w, first, second)->Ok_0.awaiting == Awaiting::Done || walked_heights(
            supplied(w, first, second)->Ok_0,
        ) < walked_heights(w),
{
}

} // verus!
