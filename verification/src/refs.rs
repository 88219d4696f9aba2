//! References to nodes that may have moved: a chain of redirects is followed for a bounded number
//! of hops, one lookup at a time.
use crate::index_error::{agrees, ErrorView, IndexError};
use crate::model::{opt_string, ResolveRefResult, ResolveView};
use crate::text::{holds_text, texts, trim, trim_text};
use vstd::prelude::*;

verus! {

/// How many nodes a chain of redirects may have.
pub const MAX_REDIRECT_HOPS: usize = 16;

/// A reference that is being followed: `current` is to be looked up next.
#[derive(Debug, Clone)]
pub struct RefResolution {
    pub workspace_id: String,
    pub node_id: String,
    pub current: String,
    pub visited: Vec<String>,
    pub first_redirect: Option<String>,
}

#[verifier::ext_equal]
pub struct RefState {
    pub workspace_id: Seq<char>,
    pub node_id: Seq<char>,
    pub current: Seq<char>,
    pub visited: Seq<Seq<char>>,
    pub first_redirect: Option<Seq<char>>,
}

impl View for RefResolution {
    type V = RefState;

    open spec fn view(&self) -> RefState {
        RefState {
            workspace_id: self.workspace_id@,
            node_id: self.node_id@,
            current: self.current@,
            visited: texts(self.visited@),
            first_redirect: opt_string(self.first_redirect),
        }
    }
}

impl RefState {
    /// There are hops left.
    pub open spec fn valid(self) -> bool {
        self.visited.len() < MAX_REDIRECT_HOPS
    }

    /// The state behind a redirect from the current node to `next`.
    pub open spec fn redirected(self, next: Seq<char>) -> RefState {
        RefState {
            current: next,
            visited: self.visited.push(self.current),
            first_redirect: match self.first_redirect {
                Some(f) => Some(f),
                None => Some(next),
            },
            ..self
        }
    }

    /// What the reference resolves to, where the live nodes have the paths `nodes` and those that
    /// moved have redirects. A node that is neither resolves to no path.
    pub open spec fn resolve(
        self,
        nodes: Map<Seq<char>, Seq<char>>,
        redirects: Map<Seq<char>, Seq<char>>,
    ) -> Result<ResolveView, ErrorView>
        decreases MAX_REDIRECT_HOPS - self.visited.len(),
    {
        if self.visited.len() >= MAX_REDIRECT_HOPS {
            Err(
                ErrorView::RedirectLimitExceeded {
                    workspace_id: self.workspace_id,
                    node_id: self.node_id,
                    max_hops: MAX_REDIRECT_HOPS as nat,
                },
            )
        } else if self.visited.contains(self.current) {
            Err(
                ErrorView::RedirectLoop {
                    workspace_id: self.workspace_id,
                    node_id: self.current,
                },
            )
        } else if nodes.contains_key(self.current) {
            Ok(
                ResolveView {
                    path: Some(nodes[self.current]),
                    redirect_to_node_id: self.first_redirect,
                },
            )
        } else if redirects.contains_key(self.current) {
            self.redirected(redirects[self.current]).resolve(nodes, redirects)
        } else {
            Ok(ResolveView { path: None, redirect_to_node_id: self.first_redirect })
        }
    }
}

/// The state that a request starts from.
pub open spec fn ref_start(workspace_id: Seq<char>, node_id: Seq<char>) -> RefState {
    RefState {
        workspace_id,
        node_id,
        current: trim(node_id),
        visited: Seq::empty(),
        first_redirect: None,
    }
}

/// What a lookup leads to.
#[derive(Debug, Clone)]
pub enum RefStep {
    Done(ResolveRefResult),
    Failed(IndexError),
    Next(RefResolution),
}

/// The tables hold for the current node what was read: its path, and where it has none, the node
/// that it redirects to.
pub open spec fn ref_lookup(
    current: Seq<char>,
    nodes: Map<Seq<char>, Seq<char>>,
    redirects: Map<Seq<char>, Seq<char>>,
    path: Option<Seq<char>>,
    redirect: Option<Seq<char>>,
) -> bool {
    &&& match path {
        Some(p) => nodes.contains_key(current) && nodes[current] == p,
        None => !nodes.contains_key(current),
    }
    &&& path is None ==> match redirect {
        Some(n) => redirects.contains_key(current) && redirects[current] == n,
        None => !redirects.contains_key(current),
    }
}

impl RefResolution {
    /// Begins to follow a reference.
    pub fn start(workspace_id: &str, node_id: &str) -> (r: Result<RefResolution, IndexError>)
        ensures
            agrees(
                r,
                if trim(node_id@).len() == 0 {
                    Err(ErrorView::InvalidPath("node_id cannot be empty"@))
                } else {
                    Ok(ref_start(workspace_id@, node_id@))
                },
            ),
            r matches Ok(s) ==> s@.valid(),
    {
        let current = trim_text(node_id);
        if current.as_str().is_empty() {
            return Err(IndexError::InvalidPath("node_id cannot be empty".to_owned()));
        }
        let visited: Vec<String> = Vec::new();
        proof {
            assert(texts(visited@) =~= Seq::empty());
        }
        Ok(
            RefResolution {
                workspace_id: workspace_id.to_owned(),
                node_id: node_id.to_owned(),
                current,
                visited,
                first_redirect: None,
            },
        )
    }

    /// Goes on with what was read of the current node: the path that it has, and where it has
    /// none, the node that it redirects to.
    pub fn step(self, path: Option<String>, redirect: Option<String>) -> (r: RefStep)
        requires
            self@.valid(),
            !self@.visited.contains(self@.current),
        ensures
            forall|nodes: Map<Seq<char>, Seq<char>>, redirects: Map<Seq<char>, Seq<char>>|
                #![trigger self@.resolve(nodes, redirects)]
                ref_lookup(
                    self@.current,
                    nodes,
                    redirects,
                    opt_string(path),
                    opt_string(redirect),
                ) ==> match r {
                    RefStep::Done(x) => self@.resolve(nodes, redirects) == Ok::<
                        ResolveView,
                        ErrorView,
                    >(x@),
                    RefStep::Failed(e) => self@.resolve(nodes, redirects) == Err::<
                        ResolveView,
                        ErrorView,
                    >(e@),
                    RefStep::Next(s) => self@.resolve(nodes, redirects) == s@.resolve(
                        nodes,
                        redirects,
                    ),
                },
            match r {
                RefStep::Done(x) => x@ == (ResolveView {
                    path: opt_string(path),
                    redirect_to_node_id: self@.first_redirect,
                }) && (path is Some || redirect is None),
                RefStep::Next(s) => path is None && redirect is Some && s@ == self@.redirected(
                    redirect->0@,
                ) && s@.valid() && !s@.visited.contains(s@.current),
                RefStep::Failed(_) => path is None && redirect is Some,
            },
    {
        let ghost before = self@;
        proof {
            reveal_with_fuel(RefState::resolve, 2);
        }
        if path.is_some() {
            return RefStep::Done(
                ResolveRefResult { path, redirect_to_node_id: self.first_redirect },
            );
        }
        match redirect {
            None => RefStep::Done(
                ResolveRefResult { path: None, redirect_to_node_id: self.first_redirect },
            ),
            Some(next) => {
                let first_redirect = match self.first_redirect {
                    Some(f) => Some(f),
                    None => Some(next.clone()),
                };
                let mut visited = self.visited;
                visited.push(self.current);
                proof {
                    assert(texts(visited@) =~= before.visited.push(before.current));
                }
                if visited.len() >= MAX_REDIRECT_HOPS {
                    return RefStep::Failed(
                        IndexError::RedirectLimitExceeded {
                            workspace_id: self.workspace_id,
                            node_id: self.node_id,
                            max_hops: MAX_REDIRECT_HOPS,
                        },
                    );
                }
                if holds_text(&visited, next.as_str()) {
                    return RefStep::Failed(
                        IndexError::RedirectLoop {
                            workspace_id: self.workspace_id,
                            node_id: next,
                        },
                    );
                }
                RefStep::Next(
                    RefResolution {
                        workspace_id: self.workspace_id,
                        node_id: self.node_id,
                        current: next,
                        visited,
                        first_redirect,
                    },
                )
            },
        }
    }
}

/// `ids` is a chain of redirects without a live node before its end and without a repetition.
pub open spec fn is_redirect_chain(
    ids: Seq<Seq<char>>,
    nodes: Map<Seq<char>, Seq<char>>,
    redirects: Map<Seq<char>, Seq<char>>,
) -> bool {
    &&& ids.len() > 0
    &&& ids.no_duplicates()
    &&& forall|i: int|
        0 <= i < ids.len() - 1 ==> !nodes.contains_key(#[trigger] ids[i]) && redirects.contains_key(
            ids[i],
        ) && redirects[ids[i]] == ids[i + 1]
}

/// The state once the first `k` redirects of a chain have been followed.
pub open spec fn ref_state_at(start: RefState, ids: Seq<Seq<char>>, k: int) -> RefState {
    RefState {
        current: ids[k],
        visited: ids.take(k),
        first_redirect: if k > 0 {
            Some(ids[1])
        } else {
            None
        },
        ..start
    }
}

proof fn lemma_follows_chain(
    start: RefState,
    ids: Seq<Seq<char>>,
    nodes: Map<Seq<char>, Seq<char>>,
    redirects: Map<Seq<char>, Seq<char>>,
    k: int,
)
    requires
        is_redirect_chain(ids, nodes, redirects),
        0 <= k < ids.len(),
        k < MAX_REDIRECT_HOPS,
    ensures
        ref_state_at(start, ids, 0).resolve(nodes, redirects) == ref_state_at(
            start,
            ids,
            k,
        ).resolve(nodes, redirects),
    decreases k,
{
    if k > 0 {
        lemma_follows_chain(start, ids, nodes, redirects, k - 1);
        let s = ref_state_at(start, ids, k - 1);
        assert(!s.visited.contains(s.current)) by {
            if ids.take(k - 1).contains(ids[k - 1]) {
                let j = choose|j: int| 0 <= j < k - 1 && #[trigger] ids.take(k - 1)[j] == ids[k - 1];
                assert(ids[j] == ids[k - 1]);
            }
        }
        assert(s.redirected(ids[k]) =~= ref_state_at(start, ids, k)) by {
            assert(ids.take(k - 1).push(ids[k - 1]) =~= ids.take(k));
        }
    }
}

/// A chain of at most `MAX_REDIRECT_HOPS` nodes that ends in a live node resolves to that node's
/// path; one that ends in a node without a redirect resolves to no path. Either way the first
/// redirect is reported.
pub proof fn lemma_chain_resolves(
    workspace_id: Seq<char>,
    node_id: Seq<char>,
    ids: Seq<Seq<char>>,
    nodes: Map<Seq<char>, Seq<char>>,
    redirects: Map<Seq<char>, Seq<char>>,
)
    requires
        is_redirect_chain(ids, nodes, redirects),
        ids[0] == trim(node_id),
        ids.len() <= 16,
        nodes.contains_key(ids.last()) || !redirects.contains_key(ids.last()),
    ensures
        ref_start(workspace_id, node_id).resolve(nodes, redirects) == Ok::<ResolveView, ErrorView>(
            ResolveView {
                path: if nodes.contains_key(ids.last()) {
                    Some(nodes[ids.last()])
                } else {
                    None
                },
                redirect_to_node_id: if ids.len() > 1 {
                    Some(ids[1])
                } else {
                    None
                },
            },
        ),
{
    let start = ref_start(workspace_id, node_id);
    let k = ids.len() - 1;
    lemma_follows_chain(start, ids, nodes, redirects, k);
    assert(ref_state_at(start, ids, 0) =~= start) by {
        assert(ids.take(0) =~= Seq::empty());
    }
    if ids.take(k).contains(ids[k]) {
        let j = choose|j: int| 0 <= j < k && #[trigger] ids.take(k)[j] == ids[k];
        assert(ids[j] == ids[k]);
    }
}

/// Redirects that run in a circle within the limit are reported as a loop, at the node that comes
/// round again.
pub proof fn lemma_circle_is_reported(
    workspace_id: Seq<char>,
    node_id: Seq<char>,
    ids: Seq<Seq<char>>,
    nodes: Map<Seq<char>, Seq<char>>,
    redirects: Map<Seq<char>, Seq<char>>,
    back: int,
)
    requires
        is_redirect_chain(ids, nodes, redirects),
        ids[0] == trim(node_id),
        ids.len() < 16,
        0 <= back < ids.len(),
        !nodes.contains_key(ids.last()),
        redirects.contains_key(ids.last()),
        redirects[ids.last()] == ids[back],
    ensures
        ref_start(workspace_id, node_id).resolve(nodes, redirects) == Err::<ResolveView, ErrorView>(
            ErrorView::RedirectLoop { workspace_id, node_id: ids[back] },
        ),
{
    let start = ref_start(workspace_id, node_id);
    reveal_with_fuel(RefState::resolve, 2);
    let k = ids.len() - 1;
    lemma_follows_chain(start, ids, nodes, redirects, k);
    assert(ref_state_at(start, ids, 0) =~= start) by {
        assert(ids.take(0) =~= Seq::empty());
    }
    let s = ref_state_at(start, ids, k);
    if ids.take(k).contains(ids[k]) {
        let j = choose|j: int| 0 <= j < k && #[trigger] ids.take(k)[j] == ids[k];
        assert(ids[j] == ids[k]);
    }
    let s2 = s.redirected(ids[back]);
    assert(s2.visited =~= ids) by {
        assert(ids.take(k).push(ids[k]) =~= ids);
    }
    assert(s2.visited.contains(ids[back]));
}

/// A chain with more redirects than hops are allowed is given up.
pub proof fn lemma_long_chain_is_given_up(
    workspace_id: Seq<char>,
    node_id: Seq<char>,
    ids: Seq<Seq<char>>,
    nodes: Map<Seq<char>, Seq<char>>,
    redirects: Map<Seq<char>, Seq<char>>,
)
    requires
        is_redirect_chain(ids, nodes, redirects),
        ids[0] == trim(node_id),
        ids.len() > 16,
    ensures
        ref_start(workspace_id, node_id).resolve(nodes, redirects) == Err::<ResolveView, ErrorView>(
            ErrorView::RedirectLimitExceeded {
                workspace_id,
                node_id,
                max_hops: 16,
            },
        ),
{
    let start = ref_start(workspace_id, node_id);
    reveal_with_fuel(RefState::resolve, 2);
    let k = MAX_REDIRECT_HOPS - 1;
    lemma_follows_chain(start, ids, nodes, redirects, k);
    assert(ref_state_at(start, ids, 0) =~= start) by {
        assert(ids.take(0) =~= Seq::empty());
    }
    let s = ref_state_at(start, ids, k);
    if ids.take(k).contains(ids[k]) {
        let j = choose|j: int| 0 <= j < k && #[trigger] ids.take(k)[j] == ids[k];
        assert(ids[j] == ids[k]);
    }
}

/// A redirect to be stored.
#[derive(Debug, Clone)]
pub struct RedirectEntry {
    pub from_node_id: String,
    pub to_node_id: String,
    pub reason: String,
}

#[verifier::ext_equal]
pub struct RedirectEntryView {
    pub from_node_id: Seq<char>,
    pub to_node_id: Seq<char>,
    pub reason: Seq<char>,
}

impl View for RedirectEntry {
    type V = RedirectEntryView;

    open spec fn view(&self) -> RedirectEntryView {
        RedirectEntryView {
            from_node_id: self.from_node_id@,
            to_node_id: self.to_node_id@,
            reason: self.reason@,
        }
    }
}

/// A redirect has two ids and a reason, each of them not blank; all are trimmed.
pub open spec fn redirect_entry(from: Seq<char>, to: Seq<char>, reason: Seq<char>) -> Result<
    RedirectEntryView,
    ErrorView,
> {
    if trim(from).len() == 0 || trim(to).len() == 0 {
        Err(ErrorView::InvalidPath("redirect node ids cannot be empty"@))
    } else if trim(reason).len() == 0 {
        Err(ErrorView::InvalidPath("redirect reason cannot be empty"@))
    } else {
        Ok(
            RedirectEntryView {
                from_node_id: trim(from),
                to_node_id: trim(to),
                reason: trim(reason),
            },
        )
    }
}

pub fn set_redirect(from_node_id: &str, to_node_id: &str, reason: &str) -> (r: Result<
    RedirectEntry,
    IndexError,
>)
    ensures
        agrees(r, redirect_entry(from_node_id@, to_node_id@, reason@)),
{
    let from = trim_text(from_node_id);
    let to = trim_text(to_node_id);
    if from.as_str().is_empty() || to.as_str().is_empty() {
        return Err(IndexError::InvalidPath("redirect node ids cannot be empty".to_owned()));
    }
    let why = trim_text(reason);
    if why.as_str().is_empty() {
        return Err(IndexError::InvalidPath("redirect reason cannot be empty".to_owned()));
    }
    Ok(RedirectEntry { from_node_id: from, to_node_id: to, reason: why })
}

/// A redirect needs all three of its texts, and holds them without the blanks round them.
pub proof fn lemma_redirects_are_what_was_given(from: Seq<char>, to: Seq<char>, reason: Seq<char>)
    ensures
        ({
            let r = redirect_entry(from, to, reason);
            &&& r is Ok <==> trim(from).len() > 0 && trim(to).len() > 0 && trim(reason).len() > 0
            &&& r is Ok ==> r->Ok_0.from_node_id == trim(from) && r->Ok_0.to_node_id == trim(to)
                && r->Ok_0.reason == trim(reason)
            &&& trim(from).len() == 0 || trim(to).len() == 0 ==> r == Err::<
                RedirectEntryView,
                ErrorView,
            >(ErrorView::InvalidPath("redirect node ids cannot be empty"@))
            &&& r is Err && trim(from).len() > 0 && trim(to).len() > 0 ==> r == Err::<
                RedirectEntryView,
                ErrorView,
            >(ErrorView::InvalidPath("redirect reason cannot be empty"@))
        }),
{
}

/// A node that is there is found under its own id, whatever redirects there are.
pub proof fn lemma_node_is_found_first(
    workspace_id: Seq<char>,
    node_id: Seq<char>,
    nodes: Map<Seq<char>, Seq<char>>,
    redirects: Map<Seq<char>, Seq<char>>,
)
    ensures
        nodes.contains_key(trim(node_id)) ==> ref_start(workspace_id, node_id).resolve(
            nodes,
            redirects,
        ) == Ok::<ResolveView, ErrorView>(
            ResolveView { path: Some(nodes[trim(node_id)]), redirect_to_node_id: None },
        ),
        !nodes.contains_key(trim(node_id)) && !redirects.contains_key(trim(node_id)) ==> ref_start(
            workspace_id,
            node_id,
        ).resolve(nodes, redirects) == Ok::<ResolveView, ErrorView>(
            ResolveView { path: None, redirect_to_node_id: None },
        ),
{
}

/// A redirect that is stored is what was given, without the blanks round it.
pub proof fn lemma_redirects_are_stored(
    from: &str,
    to: &str,
    reason: &str,
    r: Result<RedirectEntry, IndexError>,
)
    requires
        call_ensures(set_redirect, (from, to, reason), r),
    ensures
        r is Ok <==> trim(from@).len() > 0 && trim(to@).len() > 0 && trim(reason@).len() > 0,
        r is Ok ==> r->Ok_0@.from_node_id == trim(from@) && r->Ok_0@.to_node_id == trim(to@)
            && r->Ok_0@.reason == trim(reason@),
{
    lemma_redirects_are_what_was_given(from@, to@, reason@);
}

} // verus!
