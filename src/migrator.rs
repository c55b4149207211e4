use vstd::prelude::*;

use crate::equality::LooksLike;
use crate::groups::Group;
use crate::plan::{seq_view, MigrationPlan, PlanView};
use crate::translate::{group_resolvable, group_resolved, resolve_group, resolve_user, user_resolvable, user_resolved, IdTable};
use crate::users::User;

verus! {

/// Why a migrator cannot be set up.
#[derive(Debug, Clone, PartialEq, Eq)]
pub enum SwimlaneMigratorNewError {
    /// The source and the destination are the same server.
    SourceAndDestinationAreIdentical,
}

/// Why migrating a resource kind stopped.
#[derive(Debug, Clone, PartialEq, Eq)]
pub enum SwimlaneMigratorError {
    /// A fetch or a write on one of the servers failed.
    SwimlaneError { message: String },
    /// A nested group reference has no destination id.
    MissingGroup { group_name: String },
    /// A nested role reference has no destination id.
    MissingRole { role_name: String },
    /// A nested user reference has no destination id.
    MissingUser { user_name: String },
}

impl SwimlaneMigratorError {
    /// The message shown for the error.
    pub fn describe(&self) -> (r: String)
        ensures
            r@ == error_text(*self),
    {
        match self {
            SwimlaneMigratorError::SwimlaneError { .. } => String::from_str("Swimlane error"),
            SwimlaneMigratorError::MissingGroup { group_name } => {
                String::from_str("Group not found: ").concat(group_name.as_str())
            },
            SwimlaneMigratorError::MissingRole { role_name } => {
                String::from_str("Role not found: ").concat(role_name.as_str())
            },
            SwimlaneMigratorError::MissingUser { user_name } => {
                String::from_str("User not found: ").concat(user_name.as_str())
            },
        }
    }
}

pub open spec fn error_text(e: SwimlaneMigratorError) -> Seq<char> {
    match e {
        SwimlaneMigratorError::SwimlaneError { .. } => "Swimlane error"@,
        SwimlaneMigratorError::MissingGroup { group_name } => "Group not found: "@ + group_name@,
        SwimlaneMigratorError::MissingRole { role_name } => "Role not found: "@ + role_name@,
        SwimlaneMigratorError::MissingUser { user_name } => "User not found: "@ + user_name@,
    }
}

impl SwimlaneMigratorNewError {
    /// The message shown for the error.
    pub fn describe(&self) -> (r: String)
        ensures
            r@ == "The source and target Swimlane servers are the same. Please specify different servers."@,
    {
        String::from_str("The source and target Swimlane servers are the same. Please specify different servers.")
    }
}

/// Whether a server address uses `https://`, as every server address must.
pub fn is_https_url(url: &str) -> (r: bool)
    ensures
        r == (url@.len() >= 8 && url@.subrange(0, 8) == "https://"@),
{
    proof { reveal_strlit("https://"); }
    let n = url.unicode_len();
    if n < 8 {
        return false;
    }
    let prefix = url.substring_char(0, 8);
    let expected = "https://";
    let r = String::from_str(prefix) == String::from_str(expected);
    r
}

/// Refuses a migration whose source and destination are the same server.
pub fn check_distinct_servers(from_url: &String, to_url: &String) -> (r: Result<(), SwimlaneMigratorNewError>)
    ensures
        r is Err <==> from_url@ == to_url@,
{
    if *from_url == *to_url {
        Err(SwimlaneMigratorNewError::SourceAndDestinationAreIdentical)
    } else {
        Ok(())
    }
}

} // verus!

verus! {

/// A write to issue on the destination.
#[derive(Debug)]
pub enum WriteAction<T> {
    Create { resource: T },
    Update { resource: T },
    Delete { id: String },
}

/// The positions of the plan entries of one variant (0: create, 1: update, 2: delete), in plan order.
pub open spec fn positions_of<V>(p: Seq<PlanView<V>>, variant: int) -> Seq<int>
    decreases p.len(),
{
    if p.len() == 0 {
        seq![]
    } else {
        positions_of(p.drop_last(), variant) + if variant_of(p.last()) == variant {
            seq![p.len() - 1]
        } else {
            seq![]
        }
    }
}

pub open spec fn variant_of<V>(e: PlanView<V>) -> int {
    match e {
        PlanView::Create { .. } => 0,
        PlanView::Update { .. } => 1,
        PlanView::Delete { .. } => 2,
    }
}

/// The order in which the entries of a plan are applied: deletions first for a
/// kind whose deletions free capacity (and not at all for the others), then
/// creations, then updates, each in plan order.
pub open spec fn apply_order_spec<V>(p: Seq<PlanView<V>>, frees_capacity: bool) -> Seq<int> {
    (if frees_capacity { positions_of(p, 2) } else { seq![] }) + positions_of(p, 0) + positions_of(p, 1)
}

fn plan_variant<T: LooksLike>(e: &MigrationPlan<T>) -> (r: u8)
    ensures
        r as int == variant_of(e@),
{
    match e {
        MigrationPlan::Create { .. } => 0,
        MigrationPlan::Update { .. } => 1,
        MigrationPlan::Delete { .. } => 2,
    }
}

fn push_positions<T: LooksLike>(order: &mut Vec<usize>, plan: &Vec<MigrationPlan<T>>, variant: u8)
    requires
        variant <= 2,
    ensures
        final(order)@.map_values(|i: usize| i as int) == old(order)@.map_values(|i: usize| i as int)
            + positions_of(seq_view(plan@), variant as int),
{
    let ghost pv = seq_view(plan@);
    let ghost start = order@.map_values(|i: usize| i as int);
    let mut i: usize = 0;
    assert(pv.subrange(0, 0) =~= Seq::<PlanView<T::V>>::empty());
    assert(order@.map_values(|i: usize| i as int) =~= start + positions_of(pv.subrange(0, 0), variant as int));
    while i < plan.len()
        invariant
            i <= plan.len(),
            pv == seq_view(plan@),
            pv.len() == plan.len(),
            order@.map_values(|i: usize| i as int) == start + positions_of(pv.subrange(0, i as int), variant as int),
        decreases plan.len() - i,
    {
        let ghost before = order@.map_values(|i: usize| i as int);
        let ghost p = pv.subrange(0, i as int + 1);
        assert(p.drop_last() =~= pv.subrange(0, i as int));
        assert(pv[i as int] == plan@[i as int]@);
        assert(p.last() == pv[i as int]);
        if plan_variant(&plan[i]) == variant {
            order.push(i);
            assert(order@.map_values(|i: usize| i as int) =~= before.push(i as int));
        }
        assert(order@.map_values(|i: usize| i as int) =~= start + positions_of(pv.subrange(0, i as int + 1), variant as int));
        i += 1;
    }
    assert(pv.subrange(0, plan.len() as int) =~= pv);
}

/// The positions of the plan's entries in the order they are applied.
pub fn apply_order<T: LooksLike>(plan: &Vec<MigrationPlan<T>>, frees_capacity: bool) -> (r: Vec<usize>)
    ensures
        r@.map_values(|i: usize| i as int) == apply_order_spec(seq_view(plan@), frees_capacity),
{
    let mut order: Vec<usize> = Vec::new();
    assert(order@.map_values(|i: usize| i as int) =~= Seq::<int>::empty());
    if frees_capacity {
        push_positions(&mut order, plan, 2);
    }
    push_positions(&mut order, plan, 0);
    push_positions(&mut order, plan, 1);
    assert(order@.map_values(|i: usize| i as int) =~= apply_order_spec(seq_view(plan@), frees_capacity));
    order
}

/// The write for one group entry. A created or updated group has every nested
/// reference resolved (else the error names the first missing one); an updated
/// group takes the id of its destination copy.
pub fn prepare_group_write(
    entry: &MigrationPlan<Group>,
    group_ids: &IdTable,
    user_ids: &IdTable,
    role_ids: &IdTable,
) -> (r: Result<WriteAction<Group>, SwimlaneMigratorError>)
    ensures
        match entry@ {
            PlanView::Create { source } => {
                &&& r is Ok <==> group_resolvable(source, group_ids@, user_ids@, role_ids@)
                &&& r matches Ok(w) ==> w matches WriteAction::Create { resource }
                    && group_resolved(resource@, source, group_ids@, user_ids@, role_ids@)
                    && resource@.id == source.id
            },
            PlanView::Update { source, target } => {
                &&& r is Ok <==> group_resolvable(source, group_ids@, user_ids@, role_ids@)
                &&& r matches Ok(w) ==> w matches WriteAction::Update { resource }
                    && group_resolved(resource@, source, group_ids@, user_ids@, role_ids@)
                    && resource@.id == target.id
            },
            PlanView::Delete { target } => r matches Ok(w) && w matches WriteAction::Delete { id } && id@ == target.id,
        },
        r matches Err(e) ==> e is MissingGroup || e is MissingRole || e is MissingUser,
{
    match entry {
        MigrationPlan::Create { source_resource } => {
            let g = resolve_group(source_resource, group_ids, user_ids, role_ids)?;
            Ok(WriteAction::Create { resource: g })
        },
        MigrationPlan::Update { source_resource, target_resource } => {
            let mut g = resolve_group(source_resource, group_ids, user_ids, role_ids)?;
            g.id = target_resource.id.clone();
            Ok(WriteAction::Update { resource: g })
        },
        MigrationPlan::Delete { target_resource } => Ok(WriteAction::Delete { id: target_resource.id.clone() }),
    }
}

/// The write for one user entry. A created or updated user has every role and
/// group reference resolved (else the error names the first missing one); an
/// updated user takes the id of its destination copy.
pub fn prepare_user_write(
    entry: &MigrationPlan<User>,
    group_ids: &IdTable,
    role_ids: &IdTable,
) -> (r: Result<WriteAction<User>, SwimlaneMigratorError>)
    ensures
        match entry@ {
            PlanView::Create { source } => {
                &&& r is Ok <==> user_resolvable(source, group_ids@, role_ids@)
                &&& r matches Ok(w) ==> w matches WriteAction::Create { resource }
                    && user_resolved(resource@, source, group_ids@, role_ids@)
                    && resource@.id == source.id
            },
            PlanView::Update { source, target } => {
                &&& r is Ok <==> user_resolvable(source, group_ids@, role_ids@)
                &&& r matches Ok(w) ==> w matches WriteAction::Update { resource }
                    && user_resolved(resource@, source, group_ids@, role_ids@)
                    && resource@.id == target.id
            },
            PlanView::Delete { target } => r matches Ok(w) && w matches WriteAction::Delete { id } && id@ == target.id,
        },
        r matches Err(e) ==> e is MissingGroup || e is MissingRole,
{
    match entry {
        MigrationPlan::Create { source_resource } => {
            let u = resolve_user(source_resource, group_ids, role_ids)?;
            Ok(WriteAction::Create { resource: u })
        },
        MigrationPlan::Update { source_resource, target_resource } => {
            let mut u = resolve_user(source_resource, group_ids, role_ids)?;
            u.id = target_resource.id.clone();
            Ok(WriteAction::Update { resource: u })
        },
        MigrationPlan::Delete { target_resource } => Ok(WriteAction::Delete { id: target_resource.id.clone() }),
    }
}

} // verus!
