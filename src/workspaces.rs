use vstd::prelude::*;

use crate::entity::{clone_opt_selection, clone_opt_string, clone_strings, Timestamp, UserGroupSelection};
use crate::equality::{
    bool_change, opt_change, push_bool_change, push_opt_change, push_text_change, text_change, views,
    DiffView, Difference, LooksLike,
};
use crate::roles::PermissionMatrix;
use crate::text::{keys_match, opt_view, same_key};
use crate::translate::{lookup, IdTable};

verus! {

/// A workspace: a set of applications and dashboards.
#[derive(Debug)]
pub struct Workspace {
    pub _type: String,
    pub id: String,
    pub uid: String,
    pub description: Option<String>,
    pub version: i32,
    pub name: String,
    pub disabled: bool,
    pub applications: Vec<String>,
    pub dashboards: Vec<String>,
    pub modified_by_user: Option<UserGroupSelection>,
    pub created_by_user: Option<UserGroupSelection>,
    pub modified_date: Timestamp,
    pub created_date: Timestamp,
    pub permissions: PermissionMatrix,
}

/// What a workspace holds as compared.
pub struct WorkspaceView {
    pub id: Seq<char>,
    pub name: Seq<char>,
    pub description: Option<Seq<char>>,
    pub disabled: bool,
}

impl View for Workspace {
    type V = WorkspaceView;

    open spec fn view(&self) -> WorkspaceView {
        WorkspaceView { id: self.id@, name: self.name@, description: opt_view(self.description), disabled: self.disabled }
    }
}

impl Clone for Workspace {
    fn clone(&self) -> (r: Self)
        ensures
            r@ == self@,
    {
        Workspace {
            _type: self._type.clone(),
            id: self.id.clone(),
            uid: self.uid.clone(),
            description: clone_opt_string(&self.description),
            version: self.version,
            name: self.name.clone(),
            disabled: self.disabled,
            applications: clone_strings(&self.applications),
            dashboards: clone_strings(&self.dashboards),
            modified_by_user: clone_opt_selection(&self.modified_by_user),
            created_by_user: clone_opt_selection(&self.created_by_user),
            modified_date: self.modified_date,
            created_date: self.created_date,
            permissions: self.permissions.clone(),
        }
    }
}

/// The differences of a source workspace against a destination workspace: name,
/// description and disabled flag.
pub open spec fn workspace_diffs(a: WorkspaceView, b: WorkspaceView) -> Seq<DiffView> {
    text_change("name"@, a.name, b.name) + opt_change("description"@, a.description, b.description)
        + bool_change("disabled"@, a.disabled, b.disabled)
}

impl LooksLike for Workspace {
    open spec fn spec_same(a: WorkspaceView, b: WorkspaceView) -> bool {
        same_key(a.name, b.name)
    }

    open spec fn spec_diffs(a: WorkspaceView, b: WorkspaceView) -> Seq<DiffView> {
        workspace_diffs(a, b)
    }

    proof fn lemma_same_is_equivalence(a: WorkspaceView, b: WorkspaceView, c: WorkspaceView) {
    }

    open spec fn spec_wf(a: WorkspaceView) -> bool {
        true
    }

    proof fn lemma_no_self_difference(a: WorkspaceView) {
    }

    fn differences(&self, other: &Self) -> (r: Vec<Difference>) {
        let mut diffs: Vec<Difference> = Vec::new();
        assert(views(diffs@) =~= Seq::<DiffView>::empty());
        push_text_change(&mut diffs, "name", &self.name, &other.name);
        push_opt_change(&mut diffs, "description", &self.description, &other.description);
        push_bool_change(&mut diffs, "disabled", self.disabled, other.disabled);
        assert(views(diffs@) =~= workspace_diffs(self@, other@));
        diffs
    }

    fn looks_like(&self, other: &Self) -> (r: bool) {
        self.differences(other).len() == 0
    }

    fn is_same_resource(&self, other: &Self) -> (r: bool) {
        keys_match(&self.name, &other.name)
    }

    fn duplicate(&self) -> (r: Self) {
        self.clone()
    }
}

/// The pairs of a workspace table: for each workspace, id to name and name to id.
pub open spec fn workspace_pairs(ws: Seq<(Seq<char>, Seq<char>)>) -> Seq<(Seq<char>, Seq<char>)>
    decreases ws.len(),
{
    if ws.len() == 0 {
        seq![]
    } else {
        workspace_pairs(ws.drop_last()) + seq![(ws.last().0, ws.last().1), (ws.last().1, ws.last().0)]
    }
}

/// A table that gives a workspace's name for its id, and its id for its name,
/// from the workspaces' `(id, name)` pairs.
pub fn workspace_table(workspaces: &Vec<(String, String)>) -> (r: IdTable)
    ensures
        r@ == workspace_pairs(workspaces@.map_values(|w: (String, String)| (w.0@, w.1@))),
{
    let ghost wv = workspaces@.map_values(|w: (String, String)| (w.0@, w.1@));
    let mut t = IdTable::new();
    assert(t@ =~= workspace_pairs(wv.subrange(0, 0)));
    let mut i: usize = 0;
    while i < workspaces.len()
        invariant
            i <= workspaces.len(),
            wv == workspaces@.map_values(|w: (String, String)| (w.0@, w.1@)),
            wv.len() == workspaces.len(),
            t@ == workspace_pairs(wv.subrange(0, i as int)),
        decreases workspaces.len() - i,
    {
        let ghost before = t@;
        let ghost p = wv.subrange(0, i as int + 1);
        assert(p.drop_last() =~= wv.subrange(0, i as int));
        assert(wv[i as int] == (workspaces@[i as int].0@, workspaces@[i as int].1@));
        let id = workspaces[i].0.clone();
        let name = workspaces[i].1.clone();
        t.entries.push((id.clone(), name.clone()));
        t.entries.push((name, id));
        assert(t@ =~= before + seq![(wv[i as int].0, wv[i as int].1), (wv[i as int].1, wv[i as int].0)]);
        i += 1;
    }
    assert(wv.subrange(0, workspaces.len() as int) =~= wv);
    t
}

/// Writes each workspace reference through `table` (ids to names, or names to
/// ids), or gives `None` when one has no entry.
pub fn normalise_workspaces(workspaces: &Vec<String>, table: &IdTable) -> (r: Option<Vec<String>>)
    ensures
        r is Some <==> forall|i: int| 0 <= i < workspaces.len() ==> lookup(table@, #[trigger] workspaces@[i]@) is Some,
        r matches Some(v) ==> v.len() == workspaces.len() && forall|i: int| 0 <= i < v.len() ==>
            lookup(table@, #[trigger] workspaces@[i]@) == Some(v@[i]@),
{
    let mut out: Vec<String> = Vec::new();
    let mut i: usize = 0;
    while i < workspaces.len()
        invariant
            i <= workspaces.len(),
            out.len() == i,
            forall|k: int| 0 <= k < i ==> lookup(table@, #[trigger] workspaces@[k]@) == Some(out@[k]@),
        decreases workspaces.len() - i,
    {
        match table.get(&workspaces[i]) {
            Some(v) => out.push(v.clone()),
            None => return None,
        }
        i += 1;
    }
    Some(out)
}

} // verus!
