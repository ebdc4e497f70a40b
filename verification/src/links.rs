//! Resolution: which candidate an entry links to, and what has to happen at
//! the link path so that the link points there.

use crate::alternative::Candidate;
use crate::alternative_db::{AlternativeDb, Named, Store};
use crate::alternative_list::{is_best, lemma_best_is_unique, AlternativeList, Entry};
use vstd::prelude::*;

verus! {

/// What stands at a link path, as plain values.
pub enum Occupant {
    Missing,
    Link(Seq<char>),
    File,
    Directory,
    Other,
}

/// What stands at a link path.
#[derive(Debug, PartialEq, Eq)]
pub enum LinkState {
    /// Nothing.
    Missing,
    /// A symbolic link that points at the given target.
    Link(String),
    /// A regular file.
    File,
    /// A directory.
    Directory,
    /// Something else.
    Other,
}

impl View for LinkState {
    type V = Occupant;

    open spec fn view(&self) -> Occupant {
        match self {
            LinkState::Missing => Occupant::Missing,
            LinkState::Link(target) => Occupant::Link(target@),
            LinkState::File => Occupant::File,
            LinkState::Directory => Occupant::Directory,
            LinkState::Other => Occupant::Other,
        }
    }
}

/// What has to happen at a link path, as plain values.
pub enum Plan {
    Nothing,
    Keep,
    Create(Seq<char>),
    ReplaceFile(Seq<char>),
    ReplaceDirectory(Seq<char>),
    Conflict,
}

/// What has to happen at the link path of an entry.
#[derive(Debug, PartialEq, Eq)]
pub enum LinkPlan {
    /// The entry has no candidate: there is no link to create.
    Nothing,
    /// The link already points at the winner: it stays unchanged.
    Keep,
    /// Nothing stands at the path: the link to `target` is created.
    Create { target: String },
    /// A file or another link stands at the path: it is removed, and the
    /// link to `target` is put in its place.
    ReplaceFile { target: String },
    /// A directory stands at the path: it is removed if it is empty, never
    /// with what it holds, and the link to `target` is put in its place.
    ReplaceDirectory { target: String },
    /// What stands at the path can be neither kept nor removed.
    Conflict,
}

impl View for LinkPlan {
    type V = Plan;

    open spec fn view(&self) -> Plan {
        match self {
            LinkPlan::Nothing => Plan::Nothing,
            LinkPlan::Keep => Plan::Keep,
            LinkPlan::Create { target } => Plan::Create(target@),
            LinkPlan::ReplaceFile { target } => Plan::ReplaceFile(target@),
            LinkPlan::ReplaceDirectory { target } => Plan::ReplaceDirectory(target@),
            LinkPlan::Conflict => Plan::Conflict,
        }
    }
}

/// The winner among `s`: the candidate with the highest priority, and among
/// several of that priority the first. Meaningful where `s` is not empty.
pub open spec fn winner(s: Seq<Candidate>) -> Candidate {
    s[choose|i: int| is_best(s, i)]
}

/// What has to happen at the link path of `e` where `found` stands there.
pub open spec fn plan_for(e: Entry, found: Occupant) -> Plan {
    if e.candidates.len() == 0 {
        Plan::Nothing
    } else {
        let target = winner(e.candidates).target;
        match found {
            Occupant::Missing => Plan::Create(target),
            Occupant::Link(current) => if current == target {
                Plan::Keep
            } else {
                Plan::ReplaceFile(target)
            },
            Occupant::File => Plan::ReplaceFile(target),
            Occupant::Directory => Plan::ReplaceDirectory(target),
            Occupant::Other => Plan::Conflict,
        }
    }
}

impl AlternativeList {
    /// Resolves the entry against what stands at its link path: picks the
    /// winner and says what has to happen so that the link points at it.
    pub fn make_symlink(&self, found: &LinkState) -> (plan: LinkPlan)
        ensures
            plan@ == plan_for(self@, found@),
    {
        let links = self.links();
        let target = match self.best() {
            Some(i) => {
                proof {
                    lemma_best_is_unique(
                        self@.candidates,
                        i as int,
                        choose|k: int| is_best(self@.candidates, k),
                    );
                }
                links[i].target.clone()
            },
            None => return LinkPlan::Nothing,
        };
        match found {
            LinkState::Missing => LinkPlan::Create { target },
            LinkState::Link(current) => if *current == target {
                LinkPlan::Keep
            } else {
                LinkPlan::ReplaceFile { target }
            },
            LinkState::File => LinkPlan::ReplaceFile { target },
            LinkState::Directory => LinkPlan::ReplaceDirectory { target },
            LinkState::Other => LinkPlan::Conflict,
        }
    }
}

/// What the caller reports to the link run.
#[derive(Debug, PartialEq, Eq)]
pub enum LinkEvent {
    /// The run begins.
    Start,
    /// The answer to `Inspect`: what stands at the path.
    Found(LinkState),
    /// The last action was carried out.
    Done,
    /// The last action failed.
    Failed,
}

/// A report to the link run, as plain values.
pub enum LinkNews {
    Start,
    Found(Occupant),
    Done,
    Failed,
}

impl View for LinkEvent {
    type V = LinkNews;

    open spec fn view(&self) -> LinkNews {
        match self {
            LinkEvent::Start => LinkNews::Start,
            LinkEvent::Found(found) => LinkNews::Found(found@),
            LinkEvent::Done => LinkNews::Done,
            LinkEvent::Failed => LinkNews::Failed,
        }
    }
}

/// Why a link run was given up.
#[derive(Debug, PartialEq, Eq)]
pub enum LinkError {
    /// What stands at `path` can be neither kept nor removed.
    Conflict { path: String },
    /// The file system refused what was asked of it at `path`.
    Failed { path: String },
    /// A report came that the run was not waiting for.
    OutOfTurn,
}

/// What the caller is asked to do next.
#[derive(Debug, PartialEq, Eq)]
pub enum LinkAction {
    /// Report what stands at `path`.
    Inspect { path: String },
    /// Carry out `plan` at `path`, then report `Done` or `Failed`.
    Apply { path: String, plan: LinkPlan },
    /// Every entry has its link: the run is over.
    Finished,
    /// The run is given up; no entry after this one is touched.
    Abort(LinkError),
}

/// A request of the link run, as plain values.
pub enum LinkTask {
    Inspect(Seq<char>),
    Apply(Seq<char>, Plan),
    Finished,
    Conflict(Seq<char>),
    Failed(Seq<char>),
    OutOfTurn,
}

impl View for LinkAction {
    type V = LinkTask;

    open spec fn view(&self) -> LinkTask {
        match self {
            LinkAction::Inspect { path } => LinkTask::Inspect(path@),
            LinkAction::Apply { path, plan } => LinkTask::Apply(path@, plan@),
            LinkAction::Finished => LinkTask::Finished,
            LinkAction::Abort(LinkError::Conflict { path }) => LinkTask::Conflict(path@),
            LinkAction::Abort(LinkError::Failed { path }) => LinkTask::Failed(path@),
            LinkAction::Abort(LinkError::OutOfTurn) => LinkTask::OutOfTurn,
        }
    }
}

/// What a link run is waiting for.
#[derive(Clone, Copy, PartialEq, Eq, Structural, Debug)]
pub enum LinkStage {
    /// For `Start`.
    Idle,
    /// For what stands at the link path of the entry at `next`.
    Inspecting,
    /// For the outcome of the plan of the entry at `next`.
    Applying,
    /// For nothing: the run is over.
    Closed,
}

/// How far a link run has come.
#[derive(Clone, Copy, PartialEq, Eq, Structural, Debug)]
pub struct LinkSync {
    pub stage: LinkStage,
    pub next: usize,
}

/// The first place from `from` on whose entry has a candidate, or the
/// number of items where there is none.
pub open spec fn next_linkable(items: Seq<Named>, from: int) -> int
    decreases items.len() - from,
{
    if from < 0 || from >= items.len() {
        items.len() as int
    } else if items[from].entry.candidates.len() > 0 {
        from
    } else {
        next_linkable(items, from + 1)
    }
}

/// The run turns to the first entry from `from` on that has a candidate,
/// and is over where there is none.
pub open spec fn visit(items: Seq<Named>, from: int) -> (LinkSync, LinkTask) {
    let k = next_linkable(items, from);
    if k < items.len() {
        (
            LinkSync { stage: LinkStage::Inspecting, next: k as usize },
            LinkTask::Inspect(items[k].entry.link_path),
        )
    } else {
        (LinkSync { stage: LinkStage::Closed, next: k as usize }, LinkTask::Finished)
    }
}

/// One step of a link run over `store`: the state after `news` came in
/// state `state`, and what the caller is asked to do.
pub open spec fn link_step(store: Store, state: LinkSync, news: LinkNews) -> (
    LinkSync,
    LinkTask,
) {
    let closed = LinkSync { stage: LinkStage::Closed, next: state.next };
    if state.stage == LinkStage::Idle && news is Start {
        visit(store.items, 0)
    } else if state.next >= store.items.len() {
        (closed, LinkTask::OutOfTurn)
    } else {
        let entry = store.items[state.next as int].entry;
        match (state.stage, news) {
            (LinkStage::Inspecting, LinkNews::Found(found)) => match plan_for(entry, found) {
                Plan::Nothing | Plan::Keep => visit(store.items, state.next + 1),
                Plan::Conflict => (closed, LinkTask::Conflict(entry.link_path)),
                plan => (
                    LinkSync { stage: LinkStage::Applying, next: state.next },
                    LinkTask::Apply(entry.link_path, plan),
                ),
            },
            (LinkStage::Applying, LinkNews::Done) => visit(store.items, state.next + 1),
            (LinkStage::Inspecting, LinkNews::Failed) | (LinkStage::Applying, LinkNews::Failed) => (
                closed,
                LinkTask::Failed(entry.link_path),
            ),
            _ => (closed, LinkTask::OutOfTurn),
        }
    }
}

impl LinkSync {
    /// A run that has not begun.
    pub fn new() -> (made: LinkSync)
        ensures
            made == (LinkSync { stage: LinkStage::Idle, next: 0 }),
    {
        LinkSync { stage: LinkStage::Idle, next: 0 }
    }
}

impl AlternativeDb {
    /// Turns to the first entry from `from` on that has a candidate.
    fn visit_from(&self, from: usize) -> (made: (LinkSync, LinkAction))
        requires
            from <= self@.items.len(),
        ensures
            (made.0, made.1@) == visit(self@.items, from as int),
    {
        let n: usize = self.num_alternatives();
        let mut k: usize = from;
        while k < n
            invariant
                n == self@.items.len(),
                from <= k <= n,
                next_linkable(self@.items, from as int) == next_linkable(self@.items, k as int),
            decreases n - k,
        {
            if let Some((_, list)) = self.at(k) {
                if list.num_links() > 0 {
                    return (
                        LinkSync { stage: LinkStage::Inspecting, next: k },
                        LinkAction::Inspect { path: list.path().to_owned() },
                    );
                }
            }
            k += 1;
        }
        (LinkSync { stage: LinkStage::Closed, next: k }, LinkAction::Finished)
    }

    /// One step of bringing every link up to date. The caller starts with
    /// `LinkSync::new()` and `Start`, does what it is asked, reports the
    /// outcome with the state that it was handed, and goes on until it is
    /// handed `Finished` or `Abort`. The entries are taken in the order of
    /// the registry; one without candidates is passed over; the first
    /// failure gives the run up.
    pub fn write_links(&self, state: LinkSync, event: LinkEvent) -> (made: (LinkSync, LinkAction))
        ensures
            (made.0, made.1@) == link_step(self@, state, event@),
    {
        let closed = LinkSync { stage: LinkStage::Closed, next: state.next };
        if state.stage == LinkStage::Idle {
            if let LinkEvent::Start = event {
                return self.visit_from(0);
            }
        }
        let (_, list) = match self.at(state.next) {
            Some(found) => found,
            None => return (closed, LinkAction::Abort(LinkError::OutOfTurn)),
        };
        let path = list.path().to_owned();
        match (state.stage, event) {
            (LinkStage::Inspecting, LinkEvent::Found(found)) => match list.make_symlink(&found) {
                LinkPlan::Nothing | LinkPlan::Keep => self.visit_from(state.next + 1),
                LinkPlan::Conflict => (closed, LinkAction::Abort(LinkError::Conflict { path })),
                plan => (
                    LinkSync { stage: LinkStage::Applying, next: state.next },
                    LinkAction::Apply { path, plan },
                ),
            },
            (LinkStage::Applying, LinkEvent::Done) => self.visit_from(state.next + 1),
            (LinkStage::Inspecting, LinkEvent::Failed)
            | (LinkStage::Applying, LinkEvent::Failed) => (
                closed,
                LinkAction::Abort(LinkError::Failed { path }),
            ),
            _ => (closed, LinkAction::Abort(LinkError::OutOfTurn)),
        }
    }
}

/// Resolution settles. Whatever stands at the link path, a plan that makes
/// a link makes it to the winner; and once the link points at the winner,
/// resolving again keeps it.
pub proof fn lemma_link_to_winner_is_kept(e: Entry, found: Occupant)
    requires
        e.candidates.len() > 0,
    ensures
        match plan_for(e, found) {
            Plan::Create(target) | Plan::ReplaceFile(target) | Plan::ReplaceDirectory(target) => {
                target == winner(e.candidates).target
            },
            _ => true,
        },
        plan_for(e, Occupant::Link(winner(e.candidates).target)) == Plan::Keep,
{
}

/// What `next_linkable` finds: a place from `from` on, the first whose
/// entry has a candidate.
pub proof fn lemma_next_linkable(items: Seq<Named>, from: int)
    requires
        0 <= from <= items.len(),
    ensures
        from <= next_linkable(items, from) <= items.len(),
        next_linkable(items, from) < items.len() ==> items[next_linkable(
            items,
            from,
        )].entry.candidates.len() > 0,
        forall|k: int|
            from <= k < next_linkable(items, from) ==> (#[trigger] items[k]).entry.candidates.len()
                == 0,
    decreases items.len() - from,
{
    if from < items.len() && items[from].entry.candidates.len() == 0 {
        lemma_next_linkable(items, from + 1);
    }
}

/// The first failure gives a link run up: whatever the state, a report of
/// failure closes the run, and no entry is inspected or touched after it.
pub proof fn lemma_failure_closes_link_run(store: Store, state: LinkSync)
    ensures
        link_step(store, state, LinkNews::Failed).0.stage == LinkStage::Closed,
        link_step(store, state, LinkNews::Failed).1 is Failed || link_step(
            store,
            state,
            LinkNews::Failed,
        ).1 is OutOfTurn,
{
}

/// A link run that is closed stays closed, whatever is reported to it.
pub proof fn lemma_closed_link_run_stays_closed(store: Store, state: LinkSync, news: LinkNews)
    requires
        state.stage == LinkStage::Closed,
    ensures
        link_step(store, state, news) == (state, LinkTask::OutOfTurn),
{
}

/// What a link run asks to be carried out is the plan for the entry in
/// hand at its own link path, and the plan makes a link to the winner.
pub proof fn lemma_link_run_links_the_winner(store: Store, state: LinkSync, news: LinkNews)
    requires
        link_step(store, state, news).1 is Apply,
    ensures
        state.next < store.items.len(),
        news is Found,
        ({
            let entry = store.items[state.next as int].entry;
            let target = winner(entry.candidates).target;
            let plan = link_step(store, state, news).1->Apply_1;
            &&& link_step(store, state, news).1->Apply_0 == entry.link_path
            &&& plan == plan_for(entry, news->Found_0)
            &&& plan == Plan::Create(target) || plan == Plan::ReplaceFile(target) || plan
                == Plan::ReplaceDirectory(target)
        }),
{
    if state.stage == LinkStage::Idle && news is Start {
        lemma_next_linkable(store.items, 0);
    } else if state.next < store.items.len() {
        lemma_next_linkable(store.items, state.next + 1);
    }
}

/// A link run takes the entries in their order and leaves none out but
/// those without candidates: after a step it stands at the same entry or
/// at a later one, and every entry between has no candidate.
pub proof fn lemma_link_run_keeps_the_order(store: Store, state: LinkSync, news: LinkNews)
    requires
        store.items.len() <= usize::MAX,
        state.stage != LinkStage::Idle,
        state.next < store.items.len(),
    ensures
        state.next <= link_step(store, state, news).0.next <= store.items.len(),
        forall|k: int|
            state.next < k < link_step(store, state, news).0.next ==> (
            #[trigger] store.items[k]).entry.candidates.len() == 0,
{
    lemma_next_linkable(store.items, state.next + 1);
}

/// What stands at `path` in a model of the link paths, where a path that
/// the model does not hold has nothing standing at it.
pub open spec fn standing(links: Map<Seq<char>, Occupant>, path: Seq<char>) -> Occupant {
    if links.contains_key(path) {
        links[path]
    } else {
        Occupant::Missing
    }
}

/// The link paths after the caller did what `task` asks with success: a
/// plan that makes a link leaves the link to its target at the path.
pub open spec fn links_after(links: Map<Seq<char>, Occupant>, task: LinkTask) -> Map<
    Seq<char>,
    Occupant,
> {
    match task {
        LinkTask::Apply(path, Plan::Create(target))
        | LinkTask::Apply(path, Plan::ReplaceFile(target))
        | LinkTask::Apply(path, Plan::ReplaceDirectory(target)) => links.insert(
            path,
            Occupant::Link(target),
        ),
        _ => links,
    }
}

/// The report of an honest caller after it did what `task` asks with success.
pub open spec fn news_after(links: Map<Seq<char>, Occupant>, task: LinkTask) -> LinkNews {
    match task {
        LinkTask::Inspect(path) => LinkNews::Found(standing(links, path)),
        _ => LinkNews::Done,
    }
}

/// A link run in which every action succeeds: the state, the report in
/// hand and the link paths after `steps` steps.
pub open spec fn link_run(
    store: Store,
    state: LinkSync,
    news: LinkNews,
    links: Map<Seq<char>, Occupant>,
    steps: nat,
) -> (LinkSync, LinkNews, Map<Seq<char>, Occupant>)
    decreases steps,
{
    if steps == 0 {
        (state, news, links)
    } else {
        let (next, task) = link_step(store, state, news);
        let after = links_after(links, task);
        link_run(store, next, news_after(after, task), after, (steps - 1) as nat)
    }
}

/// No two entries share a link path.
pub open spec fn distinct_link_paths(items: Seq<Named>) -> bool {
    forall|i: int, j: int|
        0 <= i < j < items.len() ==> items[i].entry.link_path != items[j].entry.link_path
}

/// Each of the first `upto` entries that has a candidate has its link, and
/// the link points at its winner.
pub open spec fn is_linked_upto(
    items: Seq<Named>,
    links: Map<Seq<char>, Occupant>,
    upto: int,
) -> bool {
    forall|j: int|
        0 <= j < upto && (#[trigger] items[j]).entry.candidates.len() > 0 ==> standing(
            links,
            items[j].entry.link_path,
        ) == Occupant::Link(winner(items[j].entry.candidates).target)
}

/// Nothing stands at the link path of an entry that can be neither kept nor
/// removed.
pub open spec fn is_clear(items: Seq<Named>, links: Map<Seq<char>, Occupant>) -> bool {
    forall|j: int|
        0 <= j < items.len() ==> standing(links, (#[trigger] items[j]).entry.link_path)
            != Occupant::Other
}

/// The link run is on its way with nothing gone wrong.
pub open spec fn is_linking(
    store: Store,
    state: LinkSync,
    news: LinkNews,
    links: Map<Seq<char>, Occupant>,
) -> bool {
    let i = state.next as int;
    is_clear(store.items, links) && match (state.stage, news) {
        (LinkStage::Idle, LinkNews::Start) => true,
        (LinkStage::Inspecting, LinkNews::Found(found)) => {
            &&& i < store.items.len()
            &&& found == standing(links, store.items[i].entry.link_path)
            &&& is_linked_upto(store.items, links, i)
        },
        (LinkStage::Applying, LinkNews::Done) => i < store.items.len() && is_linked_upto(
            store.items,
            links,
            i + 1,
        ),
        (LinkStage::Closed, _) => is_linked_upto(store.items, links, store.items.len() as int),
        _ => false,
    }
}

/// One step in which nothing goes wrong keeps the link run on its way.
pub proof fn lemma_step_keeps_linking(
    store: Store,
    state: LinkSync,
    news: LinkNews,
    links: Map<Seq<char>, Occupant>,
)
    requires
        store.items.len() <= usize::MAX,
        distinct_link_paths(store.items),
        is_linking(store, state, news, links),
    ensures
        ({
            let (next, task) = link_step(store, state, news);
            let after = links_after(links, task);
            is_linking(store, next, news_after(after, task), after)
        }),
{
    let (next, task) = link_step(store, state, news);
    let after = links_after(links, task);
    let items = store.items;
    let i = state.next as int;
    if state.stage == LinkStage::Idle {
        lemma_next_linkable(items, 0);
    } else if state.stage != LinkStage::Closed {
        lemma_next_linkable(items, i + 1);
        if items[i].entry.candidates.len() > 0 {
            lemma_link_to_winner_is_kept(items[i].entry, standing(links, items[i].entry.link_path));
        }
        assert forall|j: int| 0 <= j < items.len() && j != i implies standing(
            after,
            (#[trigger] items[j]).entry.link_path,
        ) == standing(links, items[j].entry.link_path) by {
            assert(items[j].entry.link_path != items[i].entry.link_path);
        }
    }
}

/// A link run in which nothing goes wrong gives every entry its link.
/// Where no two entries share a link path, nothing stands at a link path
/// that can be neither kept nor removed, and every action of the caller
/// succeeds, a run that has come to its end has left, for every entry with
/// a candidate, a link at its link path that points at its winner.
pub proof fn lemma_link_run_links_every_entry(
    store: Store,
    links: Map<Seq<char>, Occupant>,
    steps: nat,
)
    requires
        store.items.len() <= usize::MAX,
        distinct_link_paths(store.items),
        is_clear(store.items, links),
    ensures
        ({
            let begin = LinkSync { stage: LinkStage::Idle, next: 0 };
            let end = link_run(store, begin, LinkNews::Start, links, steps);
            end.0.stage == LinkStage::Closed ==> is_linked_upto(
                store.items,
                end.2,
                store.items.len() as int,
            )
        }),
{
    let begin = LinkSync { stage: LinkStage::Idle, next: 0 };
    lemma_link_run_keeps_linking(store, begin, LinkNews::Start, links, steps);
}

/// Every step in which nothing goes wrong keeps the link run on its way.
pub proof fn lemma_link_run_keeps_linking(
    store: Store,
    state: LinkSync,
    news: LinkNews,
    links: Map<Seq<char>, Occupant>,
    steps: nat,
)
    requires
        store.items.len() <= usize::MAX,
        distinct_link_paths(store.items),
        is_linking(store, state, news, links),
    ensures
        ({
            let end = link_run(store, state, news, links, steps);
            is_linking(store, end.0, end.1, end.2)
        }),
    decreases steps,
{
    if steps > 0 {
        let (next, task) = link_step(store, state, news);
        let after = links_after(links, task);
        lemma_step_keeps_linking(store, state, news, links);
        lemma_link_run_keeps_linking(
            store,
            next,
            news_after(after, task),
            after,
            (steps - 1) as nat,
        );
    }
}

} // verus!
