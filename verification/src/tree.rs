//! The tree of nodes of a workspace, and what the planned changes make of it.
//!
//! A tree maps node ids to nodes. It is well formed when every node but the root is in a directory
//! whose path is the directory part of its own path, and no two nodes share a path.
use crate::file_indexing::PreparedView;
use crate::index_error::ErrorView;
use crate::model::{AttrsPatch, AttrsView, NodeKind, NodeView};
use crate::nodes::{
    attrs_plan,
    create_plan,
    dir_page_size,
    next_cursor_of,
    next_version,
    put_plan,
    put_target_of,
    rename_plan,
    root_node,
    unlink_plan,
    AttrsPlan,
    CreatePlanView,
    ExistingFileView,
    NewNodeView,
    PathRewriteView,
    PutPlanView,
    RenamePlanView,
    UnlinkPlanView,
};
use crate::paths::{has_char, joined, last_slash, parent_and_name};
use crate::text::{ascii_lower, has_prefix, trim};
use vstd::prelude::*;
use vstd::utf8::encode_utf8;

verus! {

// ---------------------------------------------------------------------------
// The tree
// ---------------------------------------------------------------------------

/// The directory part of `path` is `dir`.
pub open spec fn is_inside(path: Seq<char>, dir: Seq<char>) -> bool {
    parent_and_name(path) matches Ok((d, _)) && d == dir
}

/// The node stands under its own id, and in its directory. Only the root has none.
pub open spec fn is_placed(t: Map<Seq<char>, NodeView>, id: Seq<char>) -> bool {
    &&& t[id].node_id == id
    &&& match t[id].parent_node_id {
        None => t[id].path.len() == 0 && t[id].attrs.kind == NodeKind::Dir,
        Some(p) => t.contains_key(p) && t[p].attrs.kind == NodeKind::Dir && is_inside(
            t[id].path,
            t[p].path,
        ),
    }
}

pub open spec fn distinct_paths(t: Map<Seq<char>, NodeView>) -> bool {
    forall|a: Seq<char>, b: Seq<char>|
        #![trigger t[a].path, t[b].path]
        t.contains_key(a) && t.contains_key(b) && t[a].path == t[b].path ==> a == b
}

pub open spec fn well_formed(t: Map<Seq<char>, NodeView>) -> bool {
    &&& forall|id: Seq<char>| #[trigger] t.contains_key(id) ==> is_placed(t, id)
    &&& distinct_paths(t)
}

/// The node at a path is the one that was read: `None` where there is none.
pub open spec fn reads_at(t: Map<Seq<char>, NodeView>, path: Seq<char>, read: Option<NodeView>) -> bool {
    match read {
        Some(n) => t.contains_key(n.node_id) && t[n.node_id] == n && n.path == path,
        None => forall|id: Seq<char>| #[trigger] t.contains_key(id) ==> t[id].path != path,
    }
}

pub open spec fn has_children(t: Map<Seq<char>, NodeView>, id: Seq<char>) -> bool {
    exists|c: Seq<char>| #[trigger] t.contains_key(c) && t[c].parent_node_id == Some(id)
}

// ---------------------------------------------------------------------------
// Paths
// ---------------------------------------------------------------------------

proof fn lemma_last_slash(s: Seq<char>)
    ensures
        -1 <= last_slash(s) < s.len(),
        last_slash(s) >= 0 ==> s[last_slash(s)] == '/',
        forall|k: int| last_slash(s) < k < s.len() ==> #[trigger] s[k] != '/',
    decreases s.len(),
{
    if s.len() > 0 && s.last() != '/' {
        let t = s.drop_last();
        lemma_last_slash(t);
        assert forall|k: int| last_slash(s) < k < s.len() implies #[trigger] s[k] != '/' by {
            if k < t.len() {
                assert(s[k] == t[k]);
            }
        }
        if last_slash(s) >= 0 {
            assert(t[last_slash(t)] == s[last_slash(s)]);
        }
    }
}

proof fn lemma_last_slash_unique(s: Seq<char>, k: int)
    requires
        0 <= k < s.len(),
        s[k] == '/',
        forall|j: int| k < j < s.len() ==> #[trigger] s[j] != '/',
    ensures
        last_slash(s) == k,
{
    lemma_last_slash(s);
}

/// What a name joined to a directory's path is split into: that path and the trimmed name.
pub proof fn lemma_split_of_join(parent: Seq<char>, name: Seq<char>)
    requires
        joined(parent, name) is Ok,
    ensures
        parent_and_name(joined(parent, name)->Ok_0) == Ok::<(Seq<char>, Seq<char>), ErrorView>(
            (parent, trim(name)),
        ),
{
    let path = joined(parent, name)->Ok_0;
    let seg = trim(name);
    assert(forall|j: int| 0 <= j < seg.len() ==> #[trigger] seg[j] != '/');
    lemma_last_slash(path);
    if parent.len() == 0 {
        assert(last_slash(path) == -1);
        assert(parent =~= Seq::empty());
    } else {
        assert forall|j: int| parent.len() < j < path.len() implies #[trigger] path[j] != '/' by {
            assert(path[j] == seg[j - parent.len() - 1]);
        }
        assert(path[parent.len() as int] == '/');
        lemma_last_slash_unique(path, parent.len() as int);
        assert(path.take(parent.len() as int) =~= parent);
        assert(path.skip(parent.len() as int + 1) =~= seg);
    }
}

/// The directory part is a prefix that ends in front of the last slash.
proof fn lemma_inside(path: Seq<char>, dir: Seq<char>)
    requires
        is_inside(path, dir),
    ensures
        dir.len() < path.len(),
        last_slash(path) >= 0 ==> dir.len() == last_slash(path) && path.take(dir.len() as int)
            == dir && path[dir.len() as int] == '/',
        last_slash(path) < 0 ==> dir.len() == 0,
{
    lemma_last_slash(path);
}

/// `path` is below the directory at `dir`.
pub open spec fn is_below(path: Seq<char>, dir: Seq<char>) -> bool {
    has_prefix(path, dir + seq!['/'])
}

proof fn lemma_below(path: Seq<char>, dir: Seq<char>)
    ensures
        is_below(path, dir) <==> dir.len() < path.len() && path.take(dir.len() as int) == dir
            && path[dir.len() as int] == '/',
{
    let q = dir + seq!['/'];
    if is_below(path, dir) {
        assert(path.take(dir.len() as int) =~= path.take(q.len() as int).take(dir.len() as int));
        assert(q.take(dir.len() as int) =~= dir);
        assert(path[dir.len() as int] == path.take(q.len() as int)[dir.len() as int]);
    }
    if dir.len() < path.len() && path.take(dir.len() as int) == dir && path[dir.len() as int]
        == '/' {
        assert(path.take(q.len() as int) =~= path.take(dir.len() as int).push('/'));
        assert(path.take(q.len() as int) =~= q);
    }
}

/// A path is below `dir` exactly when its directory is at `dir` or below it.
proof fn lemma_below_by_parent(path: Seq<char>, parent: Seq<char>, dir: Seq<char>)
    requires
        is_inside(path, parent),
        dir.len() > 0,
    ensures
        is_below(path, dir) <==> parent == dir || is_below(parent, dir),
{
    lemma_last_slash(path);
    lemma_inside(path, parent);
    lemma_below(path, dir);
    lemma_below(parent, dir);
    let k = last_slash(path);
    if is_below(path, dir) {
        assert(k >= dir.len());
        if k == dir.len() {
            assert(parent =~= dir);
        } else {
            assert(parent.take(dir.len() as int) =~= path.take(dir.len() as int));
            assert(parent[dir.len() as int] == path[dir.len() as int]);
        }
    }
    if parent == dir {
        assert(k >= 0);
    }
    if is_below(parent, dir) {
        assert(k >= 0);
        assert(parent.take(dir.len() as int) =~= path.take(dir.len() as int));
        assert(parent[dir.len() as int] == path[dir.len() as int]);
    }
}

/// Where something is below a path, there is a directory at the path, and it has children.
proof fn lemma_below_has_directory(t: Map<Seq<char>, NodeView>, id: Seq<char>, dir: Seq<char>) -> (m:
    Seq<char>)
    requires
        well_formed(t),
        t.contains_key(id),
        dir.len() > 0,
        is_below(t[id].path, dir),
    ensures
        t.contains_key(m),
        t[m].path == dir,
        t[m].attrs.kind == NodeKind::Dir,
        has_children(t, m),
    decreases t[id].path.len(),
{
    assert(is_placed(t, id));
    lemma_below(t[id].path, dir);
    let p = t[id].parent_node_id->0;
    lemma_below_by_parent(t[id].path, t[p].path, dir);
    lemma_inside(t[id].path, t[p].path);
    if t[p].path == dir {
        p
    } else {
        lemma_below_has_directory(t, p, dir)
    }
}

// ---------------------------------------------------------------------------
// Creating a workspace, writing files, creating and removing nodes
// ---------------------------------------------------------------------------

/// A node as it is inserted at the time `now`.
pub open spec fn inserted_node(n: NewNodeView, now: i64) -> NodeView {
    NodeView {
        node_id: n.node_id,
        parent_node_id: n.parent_node_id,
        name: n.name,
        path: n.path,
        attrs: AttrsView {
            kind: n.kind,
            size: 0,
            mtime_unix_nano: now,
            mode: n.mode,
            version: 1,
            content_hash: Seq::empty(),
            mime: Seq::empty(),
        },
    }
}

/// The tree of a new workspace is well formed.
pub proof fn lemma_new_workspace_well_formed(root_id: Seq<char>, now: i64)
    ensures
        well_formed(
            Map::<Seq<char>, NodeView>::empty().insert(
                root_id,
                inserted_node(root_node(root_id), now),
            ),
        ),
{
    let t = Map::<Seq<char>, NodeView>::empty().insert(
        root_id,
        inserted_node(root_node(root_id), now),
    );
    assert forall|id: Seq<char>| #[trigger] t.contains_key(id) implies is_placed(t, id) by {
        assert(id == root_id);
    }
}

/// The file row behind a write at the time `now`.
pub open spec fn put_node(t: Map<Seq<char>, NodeView>, plan: PutPlanView, now: i64) -> NodeView {
    let id = plan.file.node_id;
    match plan.created {
        Some(n) => NodeView {
            node_id: id,
            parent_node_id: Some(n.parent_node_id),
            name: n.name,
            path: n.path,
            attrs: AttrsView {
                kind: NodeKind::File,
                size: plan.file.size,
                mtime_unix_nano: now,
                mode: n.mode,
                version: plan.file.version,
                content_hash: plan.file.content_hash,
                mime: plan.mime,
            },
        },
        None => NodeView {
            attrs: AttrsView {
                size: plan.file.size,
                mtime_unix_nano: now,
                version: plan.file.version,
                content_hash: plan.file.content_hash,
                mime: plan.mime,
                ..t[id].attrs
            },
            ..t[id]
        },
    }
}

pub open spec fn after_put(t: Map<Seq<char>, NodeView>, plan: PutPlanView, now: i64) -> Map<
    Seq<char>,
    NodeView,
> {
    t.insert(plan.file.node_id, put_node(t, plan, now))
}

/// The file at a path, as a write reads it: a directory there is no file.
pub open spec fn as_existing(read: Option<NodeView>) -> Option<ExistingFileView> {
    match read {
        Some(n) => if n.attrs.kind == NodeKind::File {
            Some(
                ExistingFileView {
                    node_id: n.node_id,
                    version: n.attrs.version,
                    mime: n.attrs.mime,
                },
            )
        } else {
            None
        },
        None => None,
    }
}

/// A write keeps the tree well formed, and changes no other node. The file is then at its path, in
/// the version behind the one that it had. Left out: a path where there is a directory, for which
/// there is no place.
pub proof fn lemma_put_keeps_tree(
    t: Map<Seq<char>, NodeView>,
    path: Seq<char>,
    parent: Option<NodeView>,
    at_path: Option<NodeView>,
    fresh_node_id: Seq<char>,
    guessed: Seq<char>,
    if_version: Option<u64>,
    size: u64,
    prepared: PreparedView,
    now: i64,
)
    requires
        well_formed(t),
        put_target_of(path) is Ok,
        reads_at(t, put_target_of(path)->Ok_0.parent_path, parent),
        reads_at(t, put_target_of(path)->Ok_0.path, at_path),
        at_path is Some ==> at_path->0.attrs.kind == NodeKind::File,
        !t.contains_key(fresh_node_id),
        put_plan(
            put_target_of(path)->Ok_0,
            parent,
            as_existing(at_path),
            fresh_node_id,
            guessed,
            if_version,
            size,
            prepared,
        ) is Ok,
    ensures
        ({
            let plan = put_plan(
                put_target_of(path)->Ok_0,
                parent,
                as_existing(at_path),
                fresh_node_id,
                guessed,
                if_version,
                size,
                prepared,
            )->Ok_0;
            let t2 = after_put(t, plan, now);
            let id = plan.file.node_id;
            &&& well_formed(t2)
            &&& t2.contains_key(id)
            &&& t2[id].path == put_target_of(path)->Ok_0.path
            &&& t2[id].attrs.kind == NodeKind::File
            &&& t2[id].attrs.size == size
            &&& t2[id].attrs.content_hash == prepared.digest_hex
            &&& t2[id].attrs.version == match at_path {
                Some(n) => next_version(n.attrs.version),
                None => 1,
            }
            &&& forall|other: Seq<char>|
                #![trigger t2[other]]
                other != id ==> (t.contains_key(other) <==> t2.contains_key(other)) && (
                t.contains_key(other) ==> t2[other] == t[other])
        }),
{
    let target = put_target_of(path)->Ok_0;
    let plan = put_plan(
        target,
        parent,
        as_existing(at_path),
        fresh_node_id,
        guessed,
        if_version,
        size,
        prepared,
    )->Ok_0;
    let t2 = after_put(t, plan, now);
    let new_id = plan.file.node_id;
    assert forall|id: Seq<char>| #[trigger] t2.contains_key(id) implies is_placed(t2, id) by {
        if id != new_id {
            assert(is_placed(t, id));
        } else if at_path is Some {
            assert(is_placed(t, id));
        } else {
            assert(is_placed(t, parent->0.node_id));
        }
    }
    assert forall|a: Seq<char>, b: Seq<char>|
        #![trigger t2[a].path, t2[b].path]
        t2.contains_key(a) && t2.contains_key(b) && t2[a].path == t2[b].path implies a == b by {
        assert(a != new_id ==> t[a].path == t2[a].path);
        assert(b != new_id ==> t[b].path == t2[b].path);
        if at_path is Some {
            assert(t2[new_id].path == t[new_id].path);
        }
        if a != new_id {
            assert(t.contains_key(a));
        }
        if b != new_id {
            assert(t.contains_key(b));
        }
    }
}

/// Of two writers that have seen the same version of a file, only the first gets through: once a
/// write that expects the version `seen` is done, a write, a removal or a renaming that expects
/// `seen` is refused, and told the version that it missed.
pub proof fn lemma_second_writer_is_refused(
    t: Map<Seq<char>, NodeView>,
    workspace_id: Seq<char>,
    path: Seq<char>,
    parent: Option<NodeView>,
    at_path: Option<NodeView>,
    fresh_node_id: Seq<char>,
    guessed: Seq<char>,
    seen: u64,
    size: u64,
    prepared: PreparedView,
    now: i64,
    again: Option<NodeView>,
    second_size: u64,
    second_prepared: PreparedView,
    children: bool,
    to: Seq<char>,
    to_parent_node_id: Seq<char>,
    to_name: Seq<char>,
    dest: Option<NodeView>,
    dest_children: bool,
    overwrite: bool,
)
    requires
        well_formed(t),
        put_target_of(path) is Ok,
        reads_at(t, put_target_of(path)->Ok_0.parent_path, parent),
        reads_at(t, put_target_of(path)->Ok_0.path, at_path),
        at_path is Some ==> at_path->0.attrs.kind == NodeKind::File,
        !t.contains_key(fresh_node_id),
        seen > 0,
        put_plan(
            put_target_of(path)->Ok_0,
            parent,
            as_existing(at_path),
            fresh_node_id,
            guessed,
            Some(seen),
            size,
            prepared,
        ) is Ok,
        reads_at(
            after_put(
                t,
                put_plan(
                    put_target_of(path)->Ok_0,
                    parent,
                    as_existing(at_path),
                    fresh_node_id,
                    guessed,
                    Some(seen),
                    size,
                    prepared,
                )->Ok_0,
                now,
            ),
            put_target_of(path)->Ok_0.path,
            again,
        ),
    ensures
        at_path is Some,
        at_path->0.attrs.version == seen,
        again is Some,
        again->0.attrs.version == seen + 1,
        ({
            let target = put_target_of(path)->Ok_0;
            let conflict = ErrorView::VersionConflict {
                expected: seen as nat,
                found: (seen + 1) as nat,
            };
            &&& put_plan(
                target,
                parent,
                as_existing(again),
                fresh_node_id,
                guessed,
                Some(seen),
                second_size,
                second_prepared,
            ) == Err::<PutPlanView, ErrorView>(conflict)
            &&& unlink_plan(workspace_id, target.path, again, children, Some(seen)) == Err::<
                UnlinkPlanView,
                ErrorView,
            >(conflict)
            &&& rename_plan(
                workspace_id,
                target.path,
                to,
                to_parent_node_id,
                to_name,
                again,
                dest,
                dest_children,
                overwrite,
                Some(seen),
                guessed,
            ) == Err::<RenamePlanView, ErrorView>(conflict)
        }),
{
    let target = put_target_of(path)->Ok_0;
    let plan = put_plan(
        target,
        parent,
        as_existing(at_path),
        fresh_node_id,
        guessed,
        Some(seen),
        size,
        prepared,
    )->Ok_0;
    lemma_put_keeps_tree(
        t,
        path,
        parent,
        at_path,
        fresh_node_id,
        guessed,
        Some(seen),
        size,
        prepared,
        now,
    );
    let t2 = after_put(t, plan, now);
    let id = plan.file.node_id;
    assert(t2.contains_key(id) && t2[id].path == target.path);
    assert(again is Some);
    assert(again->0.node_id == id) by {
        assert(t2[again->0.node_id].path == t2[id].path);
    }
}

/// Creating a node keeps the tree well formed. The node is then at its path.
pub proof fn lemma_create_keeps_tree(
    t: Map<Seq<char>, NodeView>,
    parent_node_id: Seq<char>,
    name: Seq<char>,
    existing: Option<NodeView>,
    kind: NodeKind,
    mode: u32,
    exclusive: bool,
    fresh_node_id: Seq<char>,
    now: i64,
)
    requires
        well_formed(t),
        t.contains_key(parent_node_id),
        t[parent_node_id].attrs.kind == NodeKind::Dir,
        joined(t[parent_node_id].path, name) is Ok,
        reads_at(t, joined(t[parent_node_id].path, name)->Ok_0, existing),
        !t.contains_key(fresh_node_id),
    ensures
        ({
            let path = joined(t[parent_node_id].path, name)->Ok_0;
            match create_plan(
                parent_node_id,
                name,
                path,
                existing,
                kind,
                mode,
                exclusive,
                fresh_node_id,
            ) {
                Ok(CreatePlanView::Insert(n)) => {
                    let t2 = t.insert(n.node_id, inserted_node(n, now));
                    &&& well_formed(t2)
                    &&& !t.contains_key(n.node_id)
                    &&& t2[n.node_id].path == path
                    &&& t2[n.node_id].attrs.kind == kind
                },
                Ok(CreatePlanView::Existing(n)) => t.contains_key(n.node_id) && n.path == path
                    && !exclusive,
                Err(_) => exclusive && existing is Some,
            }
        }),
{
    let path = joined(t[parent_node_id].path, name)->Ok_0;
    lemma_split_of_join(t[parent_node_id].path, name);
    match create_plan(
        parent_node_id,
        name,
        path,
        existing,
        kind,
        mode,
        exclusive,
        fresh_node_id,
    ) {
        Ok(CreatePlanView::Insert(n)) => {
            let t2 = t.insert(n.node_id, inserted_node(n, now));
            assert forall|id: Seq<char>| #[trigger] t2.contains_key(id) implies is_placed(t2, id) by {
                if id != n.node_id {
                    assert(is_placed(t, id));
                }
            }
            assert forall|a: Seq<char>, b: Seq<char>|
                #![trigger t2[a].path, t2[b].path]
                t2.contains_key(a) && t2.contains_key(b) && t2[a].path == t2[b].path implies a
                == b by {
                assert(a != n.node_id ==> t.contains_key(a) && t[a].path == t2[a].path);
                assert(b != n.node_id ==> t.contains_key(b) && t[b].path == t2[b].path);
            }
        },
        _ => {},
    }
}

/// Removing a node keeps the tree well formed, and the node is gone.
pub proof fn lemma_unlink_keeps_tree(
    t: Map<Seq<char>, NodeView>,
    workspace_id: Seq<char>,
    path: Seq<char>,
    target: Option<NodeView>,
    children: bool,
    if_version: Option<u64>,
)
    requires
        well_formed(t),
        path.len() > 0,
        reads_at(t, path, target),
        target is Some ==> children == has_children(t, target->0.node_id),
    ensures
        match unlink_plan(workspace_id, path, target, children, if_version) {
            Ok(plan) => {
                let t2 = t.remove(plan.node_id);
                &&& well_formed(t2)
                &&& t.contains_key(plan.node_id)
                &&& t[plan.node_id].path == path
                &&& reads_at(t2, path, None)
            },
            Err(_) => true,
        },
{
    match unlink_plan(workspace_id, path, target, children, if_version) {
        Ok(plan) => {
            let t2 = t.remove(plan.node_id);
            assert forall|id: Seq<char>| #[trigger] t2.contains_key(id) implies is_placed(t2, id) by {
                assert(is_placed(t, id));
                if t[id].parent_node_id == Some(plan.node_id) {
                    assert(t.contains_key(id));
                    assert(has_children(t, plan.node_id));
                }
            }
            assert forall|id: Seq<char>| #[trigger] t2.contains_key(id) implies t2[id].path
                != path by {
                assert(t2[id] == t[id]);
                assert(t[plan.node_id].path == path);
            }
        },
        Err(_) => {},
    }
}

/// The tree behind new attributes of the node `id`.
pub open spec fn after_set_attrs(
    t: Map<Seq<char>, NodeView>,
    id: Seq<char>,
    plan: AttrsPlan,
) -> Map<Seq<char>, NodeView> {
    t.insert(
        id,
        NodeView {
            attrs: AttrsView {
                mode: plan.mode,
                mtime_unix_nano: plan.mtime_unix_nano,
                version: plan.version,
                ..t[id].attrs
            },
            ..t[id]
        },
    )
}

/// New attributes keep the tree well formed, and reach exactly one node. Its mode and its time are
/// those that were given, as far as they were; its version is the next one.
pub proof fn lemma_set_attrs_keeps_tree(
    t: Map<Seq<char>, NodeView>,
    id: Seq<char>,
    patch: AttrsPatch,
)
    requires
        well_formed(t),
        t.contains_key(id),
    ensures
        ({
            let t2 = after_set_attrs(t, id, attrs_plan(t[id].attrs, patch));
            &&& well_formed(t2)
            &&& t2.dom() == t.dom()
            &&& t2[id] == NodeView { attrs: t2[id].attrs, ..t[id] }
            &&& t2[id].attrs == AttrsView {
                mode: t2[id].attrs.mode,
                mtime_unix_nano: t2[id].attrs.mtime_unix_nano,
                version: next_version(t[id].attrs.version),
                ..t[id].attrs
            }
            &&& t2[id].attrs.mode == match patch.mode {
                Some(m) => m,
                None => t[id].attrs.mode,
            }
            &&& t2[id].attrs.mtime_unix_nano == match patch.mtime_unix_nano {
                Some(n) => n,
                None => t[id].attrs.mtime_unix_nano,
            }
            &&& forall|other: Seq<char>|
                #![trigger t2[other]]
                t.contains_key(other) && other != id ==> t2[other] == t[other]
        }),
{
    let t2 = after_set_attrs(t, id, attrs_plan(t[id].attrs, patch));
    assert forall|k: Seq<char>| #[trigger] t2.contains_key(k) implies is_placed(t2, k) by {
        assert(is_placed(t, k));
    }
    assert forall|a: Seq<char>, b: Seq<char>|
        #![trigger t2[a].path, t2[b].path]
        t2.contains_key(a) && t2.contains_key(b) && t2[a].path == t2[b].path implies a == b by {
        assert(t[a].path == t2[a].path);
        assert(t[b].path == t2[b].path);
    }
}

// ---------------------------------------------------------------------------
// Renaming
// ---------------------------------------------------------------------------

/// SQLite's `LIKE`: `%` stands for any text, `_` for any character, and letters of ASCII match in
/// either case.
pub open spec fn like(pattern: Seq<char>, s: Seq<char>) -> bool
    decreases pattern.len() + s.len(),
{
    if pattern.len() == 0 {
        s.len() == 0
    } else if pattern[0] == '%' {
        like(pattern.drop_first(), s) || (s.len() > 0 && like(pattern, s.drop_first()))
    } else if s.len() == 0 {
        false
    } else {
        (pattern[0] == '_' || ascii_lower(pattern[0]) == ascii_lower(s[0])) && like(
            pattern.drop_first(),
            s.drop_first(),
        )
    }
}

/// A path behind the rewriting of the paths below a renamed directory.
pub open spec fn rewritten(path: Seq<char>, below: Option<PathRewriteView>) -> Seq<char> {
    match below {
        Some(b) => if like(b.like_pattern, path) {
            b.new_prefix + path.skip(b.substr_from - 1)
        } else {
            path
        },
        None => path,
    }
}

/// A node behind a renaming: the renamed one moves first, then the paths are rewritten.
pub open spec fn renamed_node(n: NodeView, plan: RenamePlanView) -> NodeView {
    if n.node_id == plan.node_id {
        NodeView {
            parent_node_id: Some(plan.parent_node_id),
            name: plan.name,
            path: rewritten(plan.path, plan.below),
            attrs: AttrsView {
                version: plan.version,
                mime: match plan.mime {
                    Some(m) => m,
                    None => n.attrs.mime,
                },
                ..n.attrs
            },
            ..n
        }
    } else {
        NodeView { path: rewritten(n.path, plan.below), ..n }
    }
}

pub open spec fn after_rename(t: Map<Seq<char>, NodeView>, plan: RenamePlanView) -> Map<
    Seq<char>,
    NodeView,
> {
    Map::new(
        |id: Seq<char>| t.contains_key(id) && plan.replaced_node_id != Some(id),
        |id: Seq<char>| renamed_node(t[id], plan),
    )
}

/// The rewriting takes the paths below `from` for what they are: the pattern fits no other path of
/// the tree, and where it fits one, the bytes of the prefix are counted as its characters.
pub open spec fn rewriting_is_exact(
    t: Map<Seq<char>, NodeView>,
    from: Seq<char>,
    to: Seq<char>,
) -> bool {
    let pattern = from + seq!['/'] + seq!['%'];
    &&& (exists|id: Seq<char>| #[trigger] t.contains_key(id) && is_below(t[id].path, from))
        ==> encode_utf8(from + seq!['/']).len() == from.len() + 1
    &&& !like(pattern, to)
    &&& forall|id: Seq<char>| #[trigger]
        t.contains_key(id) ==> (like(pattern, t[id].path) <==> is_below(t[id].path, from))
}

/// Without wildcards in it, `prefix` followed by `%` fits exactly the texts that begin with the
/// prefix, letters of ASCII in either case.
pub proof fn lemma_like_prefix(prefix: Seq<char>, s: Seq<char>)
    requires
        !has_char(prefix, '%'),
        !has_char(prefix, '_'),
    ensures
        like(prefix + seq!['%'], s) <==> prefix.len() <= s.len() && forall|i: int|
            0 <= i < prefix.len() ==> ascii_lower(#[trigger] prefix[i]) == ascii_lower(s[i]),
    decreases prefix.len() + s.len(),
{
    let p = prefix + seq!['%'];
    if prefix.len() == 0 {
        assert(p =~= seq!['%']);
        lemma_like_any(s);
    } else {
        assert(p[0] == prefix[0]);
        assert(p[0] != '%' && p[0] != '_');
        if s.len() > 0 {
            let q = prefix.drop_first();
            assert(p.drop_first() =~= q + seq!['%']);
            assert forall|c: char| !has_char(prefix, c) implies !has_char(q, c) by {
                if has_char(q, c) {
                    let i = choose|i: int| 0 <= i < q.len() && q[i] == c;
                    assert(prefix[i + 1] == c);
                }
            }
            let r = s.drop_first();
            lemma_like_prefix(q, r);
            if prefix.len() <= s.len() && forall|i: int|
                0 <= i < prefix.len() ==> ascii_lower(#[trigger] prefix[i]) == ascii_lower(s[i]) {
                assert forall|i: int| 0 <= i < q.len() implies ascii_lower(#[trigger] q[i])
                    == ascii_lower(r[i]) by {
                    assert(q[i] == prefix[i + 1]);
                    assert(r[i] == s[i + 1]);
                }
                assert(ascii_lower(prefix[0]) == ascii_lower(s[0]));
            }
            if like(p, s) {
                assert forall|i: int| 0 <= i < prefix.len() implies ascii_lower(
                    #[trigger] prefix[i],
                ) == ascii_lower(s[i]) by {
                    if i > 0 {
                        assert(q[i - 1] == prefix[i]);
                        assert(r[i - 1] == s[i]);
                    }
                }
            }
        }
    }
}

proof fn lemma_like_any(s: Seq<char>)
    ensures
        like(seq!['%'], s),
    decreases s.len(),
{
    let p = seq!['%'];
    assert(p.drop_first() =~= Seq::<char>::empty());
    if s.len() > 0 {
        lemma_like_any(s.drop_first());
    } else {
        assert(like(p.drop_first(), s));
    }
}

/// A path at or below `from`, as it reads once `from` is renamed to `to`.
pub open spec fn moved_path(path: Seq<char>, from: Seq<char>, to: Seq<char>) -> Seq<char> {
    to + path.skip(from.len() as int)
}

proof fn lemma_moved_inside(
    path: Seq<char>,
    parent: Seq<char>,
    from: Seq<char>,
    to: Seq<char>,
)
    requires
        is_inside(path, parent),
        is_below(path, from),
        from.len() > 0,
        to.len() > 0,
    ensures
        parent == from ==> is_inside(moved_path(path, from, to), to),
        parent != from ==> is_below(parent, from) && is_inside(
            moved_path(path, from, to),
            moved_path(parent, from, to),
        ),
{
    lemma_below_by_parent(path, parent, from);
    lemma_below(path, from);
    lemma_inside(path, parent);
    lemma_last_slash(path);
    let k = last_slash(path);
    let y = path.skip(from.len() as int);
    let m = moved_path(path, from, to);
    let j = to.len() + (k - from.len());
    assert(k >= from.len());
    assert(m[j] == '/') by {
        assert(m[j] == y[k - from.len()]);
        assert(y[k - from.len()] == path[k]);
    }
    assert forall|i: int| j < i < m.len() implies #[trigger] m[i] != '/' by {
        assert(m[i] == y[i - to.len()]);
        assert(y[i - to.len()] == path[i - to.len() + from.len()]);
    }
    lemma_last_slash_unique(m, j);
    assert(j != m.len() - 1) by {
        assert(m.len() == to.len() + path.len() - from.len());
        assert(k != path.len() - 1);
    }
    if parent == from {
        assert(m.take(j) =~= to);
    } else {
        let mp = moved_path(parent, from, to);
        assert(parent.len() == k);
        lemma_below(parent, from);
        assert(m.take(j) =~= mp) by {
            assert(mp.len() == j);
            assert forall|i: int| 0 <= i < j implies m.take(j)[i] == mp[i] by {
                if i >= to.len() {
                    let x = i - to.len() + from.len();
                    assert(mp[i] == parent.skip(from.len() as int)[i - to.len()]);
                    assert(parent[x] == path.take(parent.len() as int)[x]);
                    assert(m[i] == y[i - to.len()]);
                }
            }
        }
    }
}

/// What the nodes of a tree are behind a renaming, with the rewriting taken for what it means.
proof fn lemma_renamed_paths(
    t: Map<Seq<char>, NodeView>,
    from: Seq<char>,
    to: Seq<char>,
    source: NodeView,
    plan: RenamePlanView,
    id: Seq<char>,
)
    requires
        well_formed(t),
        from.len() > 0,
        t.contains_key(source.node_id),
        t[source.node_id] == source,
        source.path == from,
        source.attrs.kind == NodeKind::Dir ==> rewriting_is_exact(t, from, to),
        plan.node_id == source.node_id,
        plan.path == to,
        plan.below == (if source.attrs.kind == NodeKind::Dir {
            Some(crate::nodes::rewrite_below(from, to))
        } else {
            None
        }),
        t.contains_key(id),
    ensures
        renamed_node(t[id], plan).path == (if id == source.node_id {
            to
        } else if is_below(t[id].path, from) {
            moved_path(t[id].path, from, to)
        } else {
            t[id].path
        }),
        renamed_node(t[id], plan).attrs.kind == t[id].attrs.kind,
        renamed_node(t[id], plan).node_id == id,
{
    assert(is_placed(t, id));
    assert(is_placed(t, source.node_id));
    if id != source.node_id && is_below(t[id].path, from) {
        let m = lemma_below_has_directory(t, id, from);
        assert(t[m].path == t[source.node_id].path);
        assert(m == source.node_id);
        lemma_below(t[id].path, from);
        let path = t[id].path;
        let b = plan.below->0;
        assert(path.skip(b.substr_from - 1) =~= path.skip(from.len() as int + 1));
        assert(moved_path(path, from, to) =~= b.new_prefix + path.skip(from.len() as int + 1)) by {
            let y = path.skip(from.len() as int);
            assert(y[0] == '/');
            assert(y =~= seq!['/'] + path.skip(from.len() as int + 1));
        }
    }
}

/// Renaming keeps the tree well formed. The node is then at the new path, in the next version, and
/// what was below the old path is below the new one; every other node stays, except the one that
/// was overwritten. Left out: renaming a node onto itself or into itself, and directories of which
/// the pattern of the rewriting does not take the paths for what they are.
#[verifier::spinoff_prover]
#[verifier::rlimit(60)]
pub proof fn lemma_rename_keeps_tree(
    t: Map<Seq<char>, NodeView>,
    workspace_id: Seq<char>,
    from: Seq<char>,
    to_parent_node_id: Seq<char>,
    to_name: Seq<char>,
    source: Option<NodeView>,
    dest: Option<NodeView>,
    dest_children: bool,
    overwrite: bool,
    if_version: Option<u64>,
    guessed: Seq<char>,
)
    requires
        well_formed(t),
        from.len() > 0,
        t.contains_key(to_parent_node_id),
        t[to_parent_node_id].attrs.kind == NodeKind::Dir,
        joined(t[to_parent_node_id].path, to_name) is Ok,
        reads_at(t, from, source),
        reads_at(t, joined(t[to_parent_node_id].path, to_name)->Ok_0, dest),
        dest is Some ==> dest_children == has_children(t, dest->0.node_id),
        source is Some && source->0.attrs.kind == NodeKind::Dir ==> rewriting_is_exact(
            t,
            from,
            joined(t[to_parent_node_id].path, to_name)->Ok_0,
        ),
        joined(t[to_parent_node_id].path, to_name)->Ok_0 != from,
        !is_below(joined(t[to_parent_node_id].path, to_name)->Ok_0, from),
        rename_plan(
            workspace_id,
            from,
            joined(t[to_parent_node_id].path, to_name)->Ok_0,
            to_parent_node_id,
            to_name,
            source,
            dest,
            dest_children,
            overwrite,
            if_version,
            guessed,
        ) is Ok,
    ensures
        ({
            let to = joined(t[to_parent_node_id].path, to_name)->Ok_0;
            let plan = rename_plan(
                workspace_id,
                from,
                to,
                to_parent_node_id,
                to_name,
                source,
                dest,
                dest_children,
                overwrite,
                if_version,
                guessed,
            )->Ok_0;
            let t2 = after_rename(t, plan);
            &&& well_formed(t2)
            &&& t2.contains_key(source->0.node_id)
            &&& t2[source->0.node_id].path == to
            &&& t2[source->0.node_id].attrs.version == next_version(source->0.attrs.version)
            &&& forall|id: Seq<char>| #[trigger]
                t2.contains_key(id) <==> t.contains_key(id) && plan.replaced_node_id != Some(id)
            &&& forall|id: Seq<char>| #[trigger]
                t2.contains_key(id) && id != source->0.node_id ==> t2[id] == NodeView {
                    path: if is_below(t[id].path, from) {
                        moved_path(t[id].path, from, to)
                    } else {
                        t[id].path
                    },
                    ..t[id]
                }
        }),
{
    let to = joined(t[to_parent_node_id].path, to_name)->Ok_0;
    let plan = rename_plan(
        workspace_id,
        from,
        to,
        to_parent_node_id,
        to_name,
        source,
        dest,
        dest_children,
        overwrite,
        if_version,
        guessed,
    )->Ok_0;
    let t2 = after_rename(t, plan);
    let src = source->0;
    let sid = src.node_id;
    lemma_split_of_join(t[to_parent_node_id].path, to_name);
    let tp = t[to_parent_node_id].path;
    assert(is_inside(to, tp));
    lemma_inside(to, tp);
    lemma_below_by_parent(to, tp, from);
    assert(tp != from && !is_below(tp, from));
    assert(is_placed(t, sid));
    // What has been overwritten has no children, and is neither the node nor below it.
    assert forall|id: Seq<char>| #[trigger] t.contains_key(id) && dest is Some implies t[id].parent_node_id
        != Some(dest->0.node_id) by {
        assert(is_placed(t, id));
        if t[id].parent_node_id == Some(dest->0.node_id) {
            assert(has_children(t, dest->0.node_id));
        }
    }
    assert forall|id: Seq<char>| #[trigger] t.contains_key(id) implies {
        &&& renamed_node(t[id], plan).path == (if id == sid {
            to
        } else if is_below(t[id].path, from) {
            moved_path(t[id].path, from, to)
        } else {
            t[id].path
        })
        &&& renamed_node(t[id], plan).attrs.kind == t[id].attrs.kind
        &&& renamed_node(t[id], plan).node_id == id
    } by {
        lemma_renamed_paths(t, from, to, src, plan, id);
    }
    assert(t2.contains_key(sid));
    assert forall|id: Seq<char>| #[trigger] t2.contains_key(id) implies is_placed(t2, id) by {
        assert(t.contains_key(id));
        assert(is_placed(t, id));
        if id == sid {
            assert(t2.contains_key(to_parent_node_id)) by {
                if dest is Some {
                    assert(dest->0.path == to);
                }
            }
            assert(to_parent_node_id != sid);
            assert(t2[to_parent_node_id].path == tp);
        } else if t[id].parent_node_id is Some {
            let p = t[id].parent_node_id->0;
            assert(t.contains_key(p));
            assert(t2.contains_key(p));
            lemma_below_by_parent(t[id].path, t[p].path, from);
            if is_below(t[id].path, from) {
                lemma_moved_inside(t[id].path, t[p].path, from, to);
                if t[p].path == from {
                    assert(t[p].path == t[sid].path);
                    assert(p == sid);
                }
            } else {
                assert(p != sid);
            }
        } else {
            lemma_below(t[id].path, from);
        }
    }
    assert forall|a: Seq<char>, b: Seq<char>|
        #![trigger t2[a].path, t2[b].path]
        t2.contains_key(a) && t2.contains_key(b) && t2[a].path == t2[b].path implies a == b by {
        assert(t.contains_key(a) && t.contains_key(b));
        lemma_renamed_apart(t, from, to, src, dest, plan, a, b);
        lemma_renamed_apart(t, from, to, src, dest, plan, b, a);
        assert(t[a].path == t[b].path ==> a == b);
    }
}

/// Two nodes that share a path behind a renaming shared it before, or are the renamed node.
proof fn lemma_renamed_apart(
    t: Map<Seq<char>, NodeView>,
    from: Seq<char>,
    to: Seq<char>,
    source: NodeView,
    dest: Option<NodeView>,
    plan: RenamePlanView,
    a: Seq<char>,
    b: Seq<char>,
)
    requires
        well_formed(t),
        from.len() > 0,
        to.len() > 0,
        t.contains_key(source.node_id),
        t[source.node_id] == source,
        source.path == from,
        source.attrs.kind == NodeKind::Dir ==> rewriting_is_exact(t, from, to),
        plan.node_id == source.node_id,
        plan.path == to,
        plan.below == (if source.attrs.kind == NodeKind::Dir {
            Some(crate::nodes::rewrite_below(from, to))
        } else {
            None
        }),
        reads_at(t, to, dest),
        dest is Some ==> plan.replaced_node_id == Some(dest->0.node_id),
        dest is Some ==> !(dest->0.attrs.kind == NodeKind::Dir && has_children(
            t,
            dest->0.node_id,
        )),
        after_rename(t, plan).contains_key(a),
        after_rename(t, plan).contains_key(b),
        after_rename(t, plan)[a].path == after_rename(t, plan)[b].path,
    ensures
        a == source.node_id ==> b == source.node_id,
        a != source.node_id && b != source.node_id ==> t[a].path == t[b].path,
{
    let sid = source.node_id;
    lemma_renamed_paths(t, from, to, source, plan, a);
    lemma_renamed_paths(t, from, to, source, plan, b);
    lemma_below(t[a].path, from);
    lemma_below(t[b].path, from);
    if a == sid && b != sid {
        if is_below(t[b].path, from) {
            assert(moved_path(t[b].path, from, to).len() > to.len());
        } else {
            assert(t[b].path == to);
            if dest is Some {
                assert(t[b].path == t[dest->0.node_id].path);
                assert(b == dest->0.node_id);
            }
        }
    }
    if a != sid && b != sid {
        if is_below(t[a].path, from) && is_below(t[b].path, from) {
            let x = t[a].path.skip(from.len() as int);
            let y = t[b].path.skip(from.len() as int);
            assert((to + x).skip(to.len() as int) =~= x);
            assert((to + y).skip(to.len() as int) =~= y);
            assert(t[a].path =~= t[a].path.take(from.len() as int) + x);
            assert(t[b].path =~= t[b].path.take(from.len() as int) + y);
        }
        if is_below(t[b].path, from) && !is_below(t[a].path, from) {
            let y = t[b].path.skip(from.len() as int);
            assert(t[a].path == to + y);
            lemma_below(t[a].path, to);
            assert((to + y).take(to.len() as int) =~= to);
            assert(y[0] == '/');
            let m = lemma_below_has_directory(t, a, to);
            if dest is Some {
                assert(t[m].path == t[dest->0.node_id].path);
            }
        }
        if !is_below(t[b].path, from) && is_below(t[a].path, from) {
            let y = t[a].path.skip(from.len() as int);
            assert(t[b].path == to + y);
            lemma_below(t[b].path, to);
            assert((to + y).take(to.len() as int) =~= to);
            assert(y[0] == '/');
            let m = lemma_below_has_directory(t, b, to);
            if dest is Some {
                assert(t[m].path == t[dest->0.node_id].path);
            }
        }
    }
}

// ---------------------------------------------------------------------------
// Listing a directory page by page
// ---------------------------------------------------------------------------

/// The page of a listing behind `offset` entries.
pub open spec fn listing_page(listing: Seq<NodeView>, offset: int, page_size: int) -> Seq<NodeView> {
    if offset >= listing.len() {
        Seq::empty()
    } else if offset + page_size >= listing.len() {
        listing.skip(offset)
    } else {
        listing.subrange(offset, offset + page_size)
    }
}

/// What a reader sees who follows the cursors from `offset` on.
pub open spec fn pages_from(listing: Seq<NodeView>, offset: int, page_size: int) -> Seq<NodeView>
    decreases if offset >= listing.len() {
        0
    } else {
        listing.len() - offset
    },
{
    let page = listing_page(listing, offset, page_size);
    if page_size <= 0 || offset >= listing.len() {
        page
    } else {
        match next_cursor_of(offset, page_size, page.len() as int) {
            Some(_) => page + pages_from(listing, offset + page_size, page_size),
            None => page,
        }
    }
}

/// Following the cursors shows every entry of a directory once, in order.
pub proof fn lemma_pages_show_everything(listing: Seq<NodeView>, offset: int, limit: u32)
    requires
        0 <= offset <= listing.len(),
    ensures
        pages_from(listing, offset, dir_page_size(limit)) == listing.skip(offset),
    decreases listing.len() - offset,
{
    let n = dir_page_size(limit);
    if offset >= listing.len() {
        assert(listing.skip(offset) =~= Seq::empty());
    } else if offset + n >= listing.len() {
        if offset + n == listing.len() {
            let rest = pages_from(listing, offset + n, n);
            assert(rest =~= Seq::empty());
            assert(listing.skip(offset) + rest =~= listing.skip(offset));
        }
    } else {
        lemma_pages_show_everything(listing, offset + n, limit);
        assert(listing.subrange(offset, offset + n) + listing.skip(offset + n) =~= listing.skip(
            offset,
        ));
    }
}

/// A cursor that was handed out is read as the offset of the next page.
pub proof fn lemma_cursor_round_trip(offset: int, page_size: int)
    requires
        0 <= offset,
        0 <= page_size,
        offset + page_size <= i64::MAX,
    ensures
        crate::paths::cursor_offset(next_cursor_of(offset, page_size, page_size)) == Ok::<
            int,
            ErrorView,
        >(offset + page_size),
{
    let n = (offset + page_size) as nat;
    crate::text::lemma_decimal_round_trip(n);
    crate::text::lemma_decimal_shape(n);
    let c = crate::text::decimal(n);
    assert(crate::text::is_digit(c[0]));
}

/// A node that comes to be is as it was asked for, empty and in its first version; a file that is
/// written again keeps its place and its permissions.
pub proof fn lemma_nodes_that_are_put(
    t: Map<Seq<char>, NodeView>,
    n: NewNodeView,
    plan: PutPlanView,
    now: i64,
)
    ensures
        ({
            let x = inserted_node(n, now);
            &&& x.node_id == n.node_id && x.parent_node_id == n.parent_node_id
            &&& x.name == n.name && x.path == n.path
            &&& x.attrs.kind == n.kind && x.attrs.mode == n.mode
            &&& x.attrs.size == 0 && x.attrs.version == 1 && x.attrs.mtime_unix_nano == now
            &&& x.attrs.content_hash.len() == 0 && x.attrs.mime.len() == 0
        }),
        ({
            let x = put_node(t, plan, now);
            let old_node = t[plan.file.node_id];
            &&& x.attrs.size == plan.file.size && x.attrs.version == plan.file.version
            &&& x.attrs.content_hash == plan.file.content_hash && x.attrs.mime == plan.mime
            &&& x.attrs.mtime_unix_nano == now
            &&& plan.created is None ==> x.node_id == old_node.node_id && x.parent_node_id
                == old_node.parent_node_id && x.name == old_node.name && x.path == old_node.path
                && x.attrs.mode == old_node.attrs.mode && x.attrs.kind == old_node.attrs.kind
            &&& plan.created is Some ==> x.node_id == plan.file.node_id && x.parent_node_id == Some(
                plan.created->0.parent_node_id,
            ) && x.name == plan.created->0.name && x.path == plan.created->0.path && x.attrs.mode
                == plan.created->0.mode && x.attrs.kind == NodeKind::File
        }),
{
}

} // verus!
