//! Staged changes to a stack: a transaction takes a state, applies a
//! sequence of operations to a copy of it, each of which keeps the state
//! well formed or is refused, and ends with the state to record and the
//! commit that the branch is to point at.

use vstd::prelude::*;
use vstd::seq_lib::{lemma_multiset_commutative, to_multiset_build, to_multiset_insert, to_multiset_remove};
use crate::oid::ObjectId;
use crate::stack::{
    PatchDescriptor, PatchView, StackState, StackStateView, clone_patches, lemma_domain_closure,
    parts_view, patch_names, patch_views, position_of,
};
use crate::text::{find_name, has_duplicate, views};

verus! {

/// One of the three lists of a stack.
#[derive(Clone, Copy, Debug, PartialEq, Eq, Structural)]
pub enum ListKind {
    Applied,
    Unapplied,
    Hidden,
}

/// The list of `s` that `kind` names.
pub open spec fn list_of(s: StackStateView, kind: ListKind) -> Seq<PatchView> {
    match kind {
        ListKind::Applied => s.applied,
        ListKind::Unapplied => s.unapplied,
        ListKind::Hidden => s.hidden,
    }
}

/// `s` with `list` in the place of the list that `kind` names.
pub open spec fn with_list(s: StackStateView, kind: ListKind, list: Seq<PatchView>) -> StackStateView {
    match kind {
        ListKind::Applied => StackStateView { applied: list, ..s },
        ListKind::Unapplied => StackStateView { unapplied: list, ..s },
        ListKind::Hidden => StackStateView { hidden: list, ..s },
    }
}

/// The names of all patches of a state, as a bag: those of its three lists
/// together.
pub proof fn lemma_all_names_bag(s: StackStateView)
    ensures
        s.all_names().to_multiset() =~= patch_names(s.applied).to_multiset().add(
            patch_names(s.unapplied).to_multiset(),
        ).add(patch_names(s.hidden).to_multiset()),
{
    let a = patch_names(s.applied);
    let u = patch_names(s.unapplied);
    let h = patch_names(s.hidden);
    assert(s.all_names() =~= a + u + h);
    lemma_multiset_commutative(a + u, h);
    lemma_multiset_commutative(a, u);
}

/// A list of names that holds no name more often than a list without
/// duplicates does, has no duplicates.
pub proof fn lemma_sub_bag(old_names: Seq<Seq<char>>, new_names: Seq<Seq<char>>)
    requires
        old_names.no_duplicates(),
        forall|x: Seq<char>|
            new_names.to_multiset().count(x) <= old_names.to_multiset().count(x),
    ensures
        new_names.no_duplicates(),
{
    old_names.lemma_multiset_has_no_duplicates();
    assert forall|x: Seq<char>| new_names.to_multiset().contains(x) implies new_names.to_multiset().count(
        x,
    ) == 1 by {
        assert(new_names.to_multiset().count(x) <= old_names.to_multiset().count(x));
        assert(old_names.to_multiset().contains(x));
    }
    new_names.lemma_multiset_has_no_duplicates_conv();
}

/// The names of a list without one of its patches.
pub proof fn lemma_names_remove(list: Seq<PatchView>, i: int)
    requires
        0 <= i < list.len(),
    ensures
        patch_names(list.remove(i)) == patch_names(list).remove(i),
        patch_names(list.remove(i)).to_multiset() == patch_names(list).to_multiset().remove(
            list[i].name,
        ),
{
    assert(patch_names(list.remove(i)) =~= patch_names(list).remove(i));
    to_multiset_remove(patch_names(list), i);
}

/// The names of a list with one more patch.
pub proof fn lemma_names_insert(list: Seq<PatchView>, i: int, p: PatchView)
    requires
        0 <= i <= list.len(),
    ensures
        patch_names(list.insert(i, p)) == patch_names(list).insert(i, p.name),
        patch_names(list.insert(i, p)).to_multiset() == patch_names(list).to_multiset().insert(
            p.name,
        ),
{
    assert(patch_names(list.insert(i, p)) =~= patch_names(list).insert(i, p.name));
    to_multiset_insert(patch_names(list), i, p.name);
}

/// A name that a list of names holds is counted in its bag, and the other
/// way round.
pub proof fn lemma_bag_contains(names: Seq<Seq<char>>, x: Seq<char>)
    ensures
        names.contains(x) <==> names.to_multiset().count(x) > 0,
{
    names.to_multiset_ensures();
}

/// `s` after the patch called `name` has gone from the list `from` to the
/// list `to`: to its start where `front` is set, and to its end otherwise.
pub open spec fn relocated(
    s: StackStateView,
    from: ListKind,
    to: ListKind,
    name: Seq<char>,
    front: bool,
) -> StackStateView {
    let i = patch_names(list_of(s, from)).index_of(name);
    let p = list_of(s, from)[i];
    let s1 = with_list(s, from, list_of(s, from).remove(i));
    with_list(
        s1,
        to,
        if front {
            list_of(s1, to).insert(0, p)
        } else {
            list_of(s1, to).push(p)
        },
    )
}

/// Moving a patch from one list to another keeps the state well formed.
pub proof fn lemma_relocated(
    s: StackStateView,
    from: ListKind,
    to: ListKind,
    name: Seq<char>,
    front: bool,
)
    requires
        s.wf(),
        from != to,
        patch_names(list_of(s, from)).contains(name),
    ensures
        relocated(s, from, to, name, front).wf(),
        relocated(s, from, to, name, front).all_names().to_multiset() =~= s.all_names().to_multiset(),
{
    let src = list_of(s, from);
    let i = patch_names(src).index_of(name);
    let p = src[i];
    assert(patch_names(src)[i] == name);
    let s1 = with_list(s, from, src.remove(i));
    let dst = list_of(s1, to);
    let at = if front {
        0
    } else {
        dst.len() as int
    };
    assert(dst.push(p) =~= dst.insert(dst.len() as int, p));
    let s2 = relocated(s, from, to, name, front);
    assert(s2 == with_list(s1, to, dst.insert(at, p)));
    lemma_names_remove(src, i);
    lemma_names_insert(dst, at, p);
    lemma_all_names_bag(s);
    lemma_all_names_bag(s2);
    lemma_bag_contains(patch_names(src), name);
    assert(s2.all_names().to_multiset() =~= s.all_names().to_multiset());
    lemma_sub_bag(s.all_names(), s2.all_names());
}

/// `s` with the commit `oid` for the patch called `name`, which stays where
/// it is.
pub open spec fn updated(s: StackStateView, name: Seq<char>, oid: Seq<u8>) -> StackStateView {
    StackStateView {
        applied: set_oid(s.applied, name, oid),
        unapplied: set_oid(s.unapplied, name, oid),
        hidden: set_oid(s.hidden, name, oid),
        ..s
    }
}

/// `list` with the commit `oid` for every patch called `name`.
pub open spec fn set_oid(list: Seq<PatchView>, name: Seq<char>, oid: Seq<u8>) -> Seq<PatchView> {
    Seq::new(
        list.len(),
        |i: int|
            if list[i].name == name {
                PatchView { name, oid }
            } else {
                list[i]
            },
    )
}

/// `list` without the patches whose name is one of `names`.
pub open spec fn without(list: Seq<PatchView>, names: Seq<Seq<char>>) -> Seq<PatchView>
    decreases list.len(),
{
    if list.len() == 0 {
        Seq::<PatchView>::empty()
    } else {
        let rest = without(list.drop_last(), names);
        if names.contains(list.last().name) {
            rest
        } else {
            rest.push(list.last())
        }
    }
}

/// `s` without the patches whose name is one of `names`.
pub open spec fn deleted(s: StackStateView, names: Seq<Seq<char>>) -> StackStateView {
    StackStateView {
        applied: without(s.applied, names),
        unapplied: without(s.unapplied, names),
        hidden: without(s.hidden, names),
        ..s
    }
}

/// A list without some of its patches holds no name more often than the
/// list does.
pub proof fn lemma_without_bag(list: Seq<PatchView>, names: Seq<Seq<char>>, x: Seq<char>)
    ensures
        patch_names(without(list, names)).to_multiset().count(x) <= patch_names(
            list,
        ).to_multiset().count(x),
        names.contains(x) ==> patch_names(without(list, names)).to_multiset().count(x) == 0,
    decreases list.len(),
{
    if list.len() == 0 {
        assert(patch_names(without(list, names)) =~= Seq::<Seq<char>>::empty());
        patch_names(without(list, names)).to_multiset_ensures();
        lemma_bag_contains(patch_names(without(list, names)), x);
    } else {
        let front = list.drop_last();
        let rest = without(front, names);
        lemma_without_bag(front, names, x);
        assert(patch_names(list) =~= patch_names(front).push(list.last().name));
        to_multiset_build(patch_names(front), list.last().name);
        if !names.contains(list.last().name) {
            assert(patch_names(rest.push(list.last())) =~= patch_names(rest).push(list.last().name));
            to_multiset_build(patch_names(rest), list.last().name);
        }
    }
}

/// Deleting patches keeps the state well formed.
pub proof fn lemma_deleted(s: StackStateView, names: Seq<Seq<char>>)
    requires
        s.wf(),
    ensures
        deleted(s, names).wf(),
        forall|x: Seq<char>| names.contains(x) ==> !deleted(s, names).has(x),
{
    let d = deleted(s, names);
    lemma_all_names_bag(s);
    lemma_all_names_bag(d);
    assert forall|x: Seq<char>|
        d.all_names().to_multiset().count(x) <= s.all_names().to_multiset().count(x) by {
        lemma_without_bag(s.applied, names, x);
        lemma_without_bag(s.unapplied, names, x);
        lemma_without_bag(s.hidden, names, x);
    }
    lemma_sub_bag(s.all_names(), d.all_names());
    assert forall|x: Seq<char>| names.contains(x) implies !d.has(x) by {
        lemma_without_bag(s.applied, names, x);
        lemma_without_bag(s.unapplied, names, x);
        lemma_without_bag(s.hidden, names, x);
        lemma_bag_contains(d.all_names(), x);
    }
}

/// Whether `order` holds the names `names`, each once, in any order.
pub open spec fn is_rearrangement(names: Seq<Seq<char>>, order: Seq<Seq<char>>) -> bool {
    &&& order.len() == names.len()
    &&& order.no_duplicates()
    &&& forall|j: int| 0 <= j < order.len() ==> names.contains(#[trigger] order[j])
}

/// The patches of `list` in the order in which `order` names them.
pub open spec fn arranged(list: Seq<PatchView>, order: Seq<Seq<char>>) -> Seq<PatchView> {
    Seq::new(order.len(), |j: int| list[patch_names(list).index_of(order[j])])
}

/// Rearranging a list keeps the state well formed.
pub proof fn lemma_arranged(s: StackStateView, kind: ListKind, order: Seq<Seq<char>>)
    requires
        s.wf(),
        is_rearrangement(patch_names(list_of(s, kind)), order),
    ensures
        with_list(s, kind, arranged(list_of(s, kind), order)).wf(),
        patch_names(arranged(list_of(s, kind), order)) == order,
{
    let list = list_of(s, kind);
    let names = patch_names(list);
    let t = with_list(s, kind, arranged(list, order));
    assert forall|j: int| 0 <= j < order.len() implies patch_names(arranged(list, order))[j]
        == order[j] by {
        let i = names.index_of(order[j]);
        assert(names.contains(order[j]));
        assert(names[i] == order[j]);
    }
    assert(patch_names(arranged(list, order)) =~= order);
    lemma_all_names_bag(s);
    lemma_all_names_bag(t);
    order.lemma_multiset_has_no_duplicates();
    assert forall|x: Seq<char>|
        t.all_names().to_multiset().count(x) <= s.all_names().to_multiset().count(x) by {
        lemma_bag_contains(order, x);
        lemma_bag_contains(names, x);
        if order.to_multiset().count(x) > 0 {
            let j = order.index_of(x);
            assert(names.contains(order[j]));
        }
    }
    lemma_sub_bag(s.all_names(), t.all_names());
}

/// A state with one more patch, of a name that it did not have, is well
/// formed.
pub proof fn lemma_added(s: StackStateView, kind: ListKind, at: int, p: PatchView)
    requires
        s.wf(),
        !s.has(p.name),
        0 <= at <= list_of(s, kind).len(),
    ensures
        with_list(s, kind, list_of(s, kind).insert(at, p)).wf(),
{
    let t = with_list(s, kind, list_of(s, kind).insert(at, p));
    lemma_names_insert(list_of(s, kind), at, p);
    lemma_all_names_bag(s);
    lemma_all_names_bag(t);
    s.all_names().lemma_multiset_has_no_duplicates();
    lemma_bag_contains(s.all_names(), p.name);
    assert forall|x: Seq<char>| t.all_names().to_multiset().contains(x) implies t.all_names().to_multiset().count(
        x,
    ) == 1 by {
        if x != p.name {
            assert(s.all_names().to_multiset().contains(x));
        }
    }
    t.all_names().lemma_multiset_has_no_duplicates_conv();
}

/// Giving a patch another commit keeps the state well formed.
pub proof fn lemma_updated(s: StackStateView, name: Seq<char>, oid: Seq<u8>)
    requires
        s.wf(),
    ensures
        updated(s, name, oid).wf(),
        updated(s, name, oid).all_names() == s.all_names(),
{
    let t = updated(s, name, oid);
    assert(patch_names(t.applied) =~= patch_names(s.applied));
    assert(patch_names(t.unapplied) =~= patch_names(s.unapplied));
    assert(patch_names(t.hidden) =~= patch_names(s.hidden));
    assert(t.all_names() =~= patch_names(t.applied) + patch_names(t.unapplied) + patch_names(
        t.hidden,
    ));
    assert(s.all_names() =~= patch_names(s.applied) + patch_names(s.unapplied) + patch_names(
        s.hidden,
    ));
}

/// Why a transaction or one of its operations was refused.
#[derive(Clone, Copy, Debug, PartialEq, Eq, Structural)]
pub enum TransactionError {
    /// The transaction has halted on a conflict and takes no more
    /// operations.
    Halted,
    /// The stack has a patch of that name already.
    PatchExists,
    /// No patch of that name stands in the list that it is to be taken
    /// from.
    NoSuchPatch,
    /// The new order does not hold the names of the list, each once.
    NotARearrangement,
    /// The position lies behind the end of the list.
    BadPosition,
    /// The head cannot be moved while patches are applied.
    PatchesApplied,
    /// There are conflicts, and the transaction does not allow any.
    CheckoutConflicts,
    /// The work tree has changes, and the transaction may not discard them.
    DirtyWorktree,
    /// The branch does not point at the top of the stack.
    HeadMismatch,
}

/// A staged operation, with what it takes.
#[derive(Debug, PartialEq, Eq)]
pub enum Operation {
    /// Apply an unapplied patch.
    Push(String),
    /// Take an applied patch off.
    Pop(String),
    /// Hide an unapplied patch.
    Hide(String),
    /// Bring a hidden patch back.
    Unhide(String),
    /// Put the patches of a list in another order.
    Reorder(ListKind, Vec<String>),
    /// Give a patch another commit.
    UpdatePatch(String, ObjectId),
    /// Add a patch on top of the applied ones.
    NewApplied(String, ObjectId),
    /// Add a patch to the unapplied ones, at a position.
    NewUnapplied(String, ObjectId, usize),
    /// Delete the patches of these names.
    DeletePatches(Vec<String>),
    /// Move the base of the stack.
    Rebase(ObjectId),
}

/// What a staged operation stands for.
pub enum OperationView {
    Push(Seq<char>),
    Pop(Seq<char>),
    Hide(Seq<char>),
    Unhide(Seq<char>),
    Reorder(ListKind, Seq<Seq<char>>),
    UpdatePatch(Seq<char>, Seq<u8>),
    NewApplied(Seq<char>, Seq<u8>),
    NewUnapplied(Seq<char>, Seq<u8>, int),
    DeletePatches(Seq<Seq<char>>),
    Rebase(Seq<u8>),
}

impl View for Operation {
    type V = OperationView;

    open spec fn view(&self) -> OperationView {
        match self {
            Operation::Push(n) => OperationView::Push(n@),
            Operation::Pop(n) => OperationView::Pop(n@),
            Operation::Hide(n) => OperationView::Hide(n@),
            Operation::Unhide(n) => OperationView::Unhide(n@),
            Operation::Reorder(kind, order) => OperationView::Reorder(*kind, views(order@)),
            Operation::UpdatePatch(n, oid) => OperationView::UpdatePatch(n@, oid@),
            Operation::NewApplied(n, oid) => OperationView::NewApplied(n@, oid@),
            Operation::NewUnapplied(n, oid, at) => OperationView::NewUnapplied(n@, oid@, *at as int),
            Operation::DeletePatches(names) => OperationView::DeletePatches(views(names@)),
            Operation::Rebase(oid) => OperationView::Rebase(oid@),
        }
    }
}

/// Why the state `s` refuses the operation `op`, if it does.
pub open spec fn refusal(s: StackStateView, op: OperationView) -> Option<TransactionError> {
    match op {
        OperationView::Push(n) => if patch_names(s.unapplied).contains(n) {
            None
        } else {
            Some(TransactionError::NoSuchPatch)
        },
        OperationView::Pop(n) => if patch_names(s.applied).contains(n) {
            None
        } else {
            Some(TransactionError::NoSuchPatch)
        },
        OperationView::Hide(n) => if patch_names(s.unapplied).contains(n) {
            None
        } else {
            Some(TransactionError::NoSuchPatch)
        },
        OperationView::Unhide(n) => if patch_names(s.hidden).contains(n) {
            None
        } else {
            Some(TransactionError::NoSuchPatch)
        },
        OperationView::Reorder(kind, order) => if is_rearrangement(
            patch_names(list_of(s, kind)),
            order,
        ) {
            None
        } else {
            Some(TransactionError::NotARearrangement)
        },
        OperationView::UpdatePatch(n, _) => if s.has(n) {
            None
        } else {
            Some(TransactionError::NoSuchPatch)
        },
        OperationView::NewApplied(n, _) => if s.has(n) {
            Some(TransactionError::PatchExists)
        } else {
            None
        },
        OperationView::NewUnapplied(n, _, at) => if s.has(n) {
            Some(TransactionError::PatchExists)
        } else if at < 0 || at > s.unapplied.len() {
            Some(TransactionError::BadPosition)
        } else {
            None
        },
        OperationView::DeletePatches(_) => None,
        OperationView::Rebase(_) => if s.applied.len() > 0 {
            Some(TransactionError::PatchesApplied)
        } else {
            None
        },
    }
}

/// The state that the operation `op` makes of the state `s`, where `s` does
/// not refuse it.
pub open spec fn effect(s: StackStateView, op: OperationView) -> StackStateView {
    match op {
        OperationView::Push(n) => relocated(s, ListKind::Unapplied, ListKind::Applied, n, false),
        OperationView::Pop(n) => relocated(s, ListKind::Applied, ListKind::Unapplied, n, true),
        OperationView::Hide(n) => relocated(s, ListKind::Unapplied, ListKind::Hidden, n, false),
        OperationView::Unhide(n) => relocated(s, ListKind::Hidden, ListKind::Unapplied, n, false),
        OperationView::Reorder(kind, order) => with_list(
            s,
            kind,
            arranged(list_of(s, kind), order),
        ),
        OperationView::UpdatePatch(n, oid) => updated(s, n, oid),
        OperationView::NewApplied(n, oid) => StackStateView {
            applied: s.applied.push(PatchView { name: n, oid }),
            ..s
        },
        OperationView::NewUnapplied(n, oid, at) => StackStateView {
            unapplied: s.unapplied.insert(at, PatchView { name: n, oid }),
            ..s
        },
        OperationView::DeletePatches(names) => deleted(s, names),
        OperationView::Rebase(oid) => StackStateView { head: oid, ..s },
    }
}

/// The line of progress that an operation writes, if it writes one.
pub open spec fn progress(op: OperationView) -> Option<(char, Seq<char>)> {
    match op {
        OperationView::Push(n) => Some(('+', n)),
        OperationView::Pop(n) => Some(('-', n)),
        OperationView::Hide(n) => Some(('!', n)),
        OperationView::Unhide(n) => Some(('-', n)),
        OperationView::NewApplied(n, _) => Some(('+', n)),
        _ => None,
    }
}

/// Every operation that a well-formed state does not refuse leaves a
/// well-formed state.
pub proof fn lemma_effect(s: StackStateView, op: OperationView)
    requires
        s.wf(),
        refusal(s, op) is None,
    ensures
        effect(s, op).wf(),
{
    match op {
        OperationView::Push(n) => lemma_relocated(
            s,
            ListKind::Unapplied,
            ListKind::Applied,
            n,
            false,
        ),
        OperationView::Pop(n) => lemma_relocated(s, ListKind::Applied, ListKind::Unapplied, n, true),
        OperationView::Hide(n) => lemma_relocated(
            s,
            ListKind::Unapplied,
            ListKind::Hidden,
            n,
            false,
        ),
        OperationView::Unhide(n) => lemma_relocated(
            s,
            ListKind::Hidden,
            ListKind::Unapplied,
            n,
            false,
        ),
        OperationView::Reorder(kind, order) => lemma_arranged(s, kind, order),
        OperationView::UpdatePatch(n, oid) => lemma_updated(s, n, oid),
        OperationView::NewApplied(n, oid) => {
            let p = PatchView { name: n, oid };
            lemma_added(s, ListKind::Applied, s.applied.len() as int, p);
            assert(s.applied.insert(s.applied.len() as int, p) =~= s.applied.push(p));
        },
        OperationView::NewUnapplied(n, oid, at) => {
            lemma_added(s, ListKind::Unapplied, at, PatchView { name: n, oid });
        },
        OperationView::DeletePatches(names) => lemma_deleted(s, names),
        OperationView::Rebase(oid) => {
            assert(effect(s, op).all_names() == s.all_names());
        },
    }
}

/// What a list of operations makes of a state: each is applied in its
/// turn, up to the first that is refused.
pub open spec fn run(s: StackStateView, ops: Seq<OperationView>, from: int) -> StackStateView
    decreases ops.len() - from,
{
    if from < 0 || from >= ops.len() {
        s
    } else if refusal(s, ops[from]) is Some {
        s
    } else {
        run(effect(s, ops[from]), ops, from + 1)
    }
}

/// The number of the first operation of a list that is refused, and why;
/// `None` where none is.
pub open spec fn first_refusal(s: StackStateView, ops: Seq<OperationView>, from: int) -> Option<
    (int, TransactionError),
>
    decreases ops.len() - from,
{
    if from < 0 || from >= ops.len() {
        None
    } else {
        match refusal(s, ops[from]) {
            Some(e) => Some((from, e)),
            None => first_refusal(effect(s, ops[from]), ops, from + 1),
        }
    }
}

/// A list of operations leaves a well-formed state, wherever it stops.
pub proof fn lemma_run(s: StackStateView, ops: Seq<OperationView>, from: int)
    requires
        s.wf(),
    ensures
        run(s, ops, from).wf(),
    decreases ops.len() - from,
{
    if 0 <= from < ops.len() && refusal(s, ops[from]) is None {
        lemma_effect(s, ops[from]);
        lemma_run(effect(s, ops[from]), ops, from + 1);
    }
}

/// The operations that add the patches `patches` on top of the applied
/// ones, one after the other.
pub open spec fn additions(patches: Seq<PatchView>) -> Seq<OperationView> {
    Seq::new(patches.len(), |i: int| OperationView::NewApplied(patches[i].name, patches[i].oid))
}

/// Patches that are added one after the other end up on top of the applied
/// ones in the order in which they were added: where their names are new to
/// the stack and differ from each other, none is refused, and the applied
/// patches are those of before and then the added ones, in their order.
/// Nothing else changes.
pub proof fn lemma_additions_in_order(s: StackStateView, patches: Seq<PatchView>, from: int)
    requires
        s.wf(),
        0 <= from <= patches.len(),
        (s.all_names() + patch_names(patches.skip(from))).no_duplicates(),
    ensures
        first_refusal(s, additions(patches), from) is None,
        run(s, additions(patches), from) == (StackStateView {
            applied: s.applied + patches.skip(from),
            ..s
        }),
    decreases patches.len() - from,
{
    let ops = additions(patches);
    let rest = patches.skip(from);
    if from >= patches.len() {
        assert(s.applied + rest =~= s.applied);
    } else {
        let p = patches[from];
        let old_names = s.all_names() + patch_names(rest);
        assert(ops[from] == OperationView::NewApplied(p.name, p.oid));
        assert(rest[0] == p);
        assert(old_names[s.all_names().len() as int] == p.name);
        assert(!s.has(p.name)) by {
            if s.all_names().contains(p.name) {
                let i = s.all_names().index_of(p.name);
                assert(old_names[i] == p.name);
            }
        }
        let t = effect(s, ops[from]);
        lemma_effect(s, ops[from]);
        let later = patches.skip(from + 1);
        let new_names = t.all_names() + patch_names(later);
        assert(s.applied.push(p) =~= s.applied.insert(s.applied.len() as int, p));
        lemma_names_insert(s.applied, s.applied.len() as int, p);
        lemma_all_names_bag(s);
        lemma_all_names_bag(t);
        lemma_multiset_commutative(s.all_names(), patch_names(rest));
        lemma_multiset_commutative(t.all_names(), patch_names(later));
        assert(patch_names(rest) =~= patch_names(later).insert(0, p.name));
        to_multiset_insert(patch_names(later), 0, p.name);
        assert(new_names.to_multiset() =~= old_names.to_multiset());
        lemma_sub_bag(old_names, new_names);
        lemma_additions_in_order(t, patches, from + 1);
        assert(s.applied.push(p) + later =~= s.applied + rest);
    }
}

/// What a transaction may do and must check.
#[derive(Clone, Copy, Debug, PartialEq, Eq)]
pub struct TransactionOptions {
    /// Whether the transaction may touch the work tree and the index.
    pub use_index_and_worktree: bool,
    /// Whether a conflict halts the transaction, with what was done so far
    /// recorded, or fails it, with nothing recorded.
    pub allow_conflicts: bool,
    /// Whether changes in the work tree may be thrown away.
    pub discard_changes: bool,
    /// Whether the branch may point elsewhere than at the top of the stack.
    pub allow_bad_head: bool,
}

/// How the merge of a patch onto the stack ended.
#[derive(Clone, Copy, Debug, PartialEq, Eq)]
pub enum MergeResult {
    /// Without conflict: the commit that holds the patch now.
    Clean(ObjectId),
    /// With conflicts.
    Conflict,
}

/// A line of progress: a mark and the name of the patch it is about. The
/// marks are `+` for a patch that was pushed or added to the applied ones,
/// `-` for one that was popped, `!` for one that met a conflict or was
/// hidden, and `>` for the patch that is on top in the end.
#[derive(Debug, PartialEq, Eq)]
pub struct StatusLine {
    pub mark: char,
    pub name: String,
}

/// The views of a list of status lines.
pub open spec fn line_views(lines: Seq<StatusLine>) -> Seq<(char, Seq<char>)> {
    Seq::new(lines.len(), |i: int| (lines[i].mark, lines[i].name@))
}

/// How a transaction ended.
#[derive(Debug, PartialEq, Eq)]
pub struct Execution {
    /// The state to record.
    pub state: StackState,
    /// The commit that the branch is to point at.
    pub branch_tip: ObjectId,
    /// Whether the transaction halted on a conflict, so that the state is
    /// that of the operations before the halt and of the patch in conflict.
    pub conflicts: bool,
    /// The lines of progress, in order.
    pub log: Vec<StatusLine>,
}

/// A sequence of operations on a copy of a stack state.
#[derive(Debug, PartialEq, Eq)]
pub struct Transaction {
    state: StackState,
    options: TransactionOptions,
    halted: bool,
    log: Vec<StatusLine>,
}

/// What staging the operation `op` answers and leaves behind. A
/// transaction that has halted takes no operation. Any other refuses the
/// operation as `refusal` says, with nothing changed, or lets it take
/// effect as `effect` says, writes its line of progress, and is well formed
/// as before.
pub open spec fn staged(
    before: &Transaction,
    after: &Transaction,
    op: OperationView,
    r: Result<(), TransactionError>,
) -> bool {
    &&& after.is_halted() == before.is_halted()
    &&& after.options() == before.options()
    &&& match r {
        Ok(()) => {
            &&& !before.is_halted()
            &&& refusal(before.state(), op) is None
            &&& after.state() == effect(before.state(), op)
            &&& after.state().wf()
            &&& after.log() == match progress(op) {
                Some(line) => before.log().push(line),
                None => before.log(),
            }
        },
        Err(e) => {
            &&& after.state() == before.state()
            &&& after.log() == before.log()
            &&& if before.is_halted() {
                e == TransactionError::Halted
            } else {
                refusal(before.state(), op) == Some(e)
            }
        },
    }
}

/// The views of a list of operations.
pub open spec fn operation_views(ops: Seq<Operation>) -> Seq<OperationView> {
    Seq::new(ops.len(), |i: int| ops[i]@)
}

impl Transaction {
    /// The state as the operations so far have left it.
    pub closed spec fn state(&self) -> StackStateView {
        self.state@
    }

    /// Whether the transaction has halted on a conflict.
    pub closed spec fn is_halted(&self) -> bool {
        self.halted
    }

    /// What the transaction may do.
    pub closed spec fn options(&self) -> TransactionOptions {
        self.options
    }

    /// The lines of progress so far.
    pub closed spec fn log(&self) -> Seq<(char, Seq<char>)> {
        line_views(self.log@)
    }

    /// A transaction on `base`, without any check.
    pub fn new(base: StackState, options: TransactionOptions) -> (r: Transaction)
        ensures
            r.state() == base@,
            !r.is_halted(),
            r.options() == options,
            r.log().len() == 0,
    {
        Transaction { state: base, options, halted: false, log: Vec::new() }
    }

    /// A transaction on `base`, once its conditions are checked: the branch
    /// must point at the top of the stack, unless a bad head is allowed; and
    /// a transaction that uses the work tree needs a clean one, unless it
    /// may discard changes.
    pub fn begin(
        base: StackState,
        options: TransactionOptions,
        branch_tip: &ObjectId,
        worktree_clean: bool,
    ) -> (r: Result<Transaction, TransactionError>)
        ensures
            match r {
                Ok(t) => (options.allow_bad_head || branch_tip@ == base@.top()) && (
                !options.use_index_and_worktree || options.discard_changes || worktree_clean)
                    && t.state() == base@ && !t.is_halted() && t.options() == options
                    && t.log().len() == 0,
                Err(e) => if !options.allow_bad_head && branch_tip@ != base@.top() {
                    e == TransactionError::HeadMismatch
                } else {
                    e == TransactionError::DirtyWorktree && options.use_index_and_worktree
                        && !options.discard_changes && !worktree_clean
                },
            },
    {
        if !options.allow_bad_head && !(base.top() == *branch_tip) {
            Err(TransactionError::HeadMismatch)
        } else if options.use_index_and_worktree && !options.discard_changes && !worktree_clean {
            Err(TransactionError::DirtyWorktree)
        } else {
            Ok(Transaction::new(base, options))
        }
    }

    /// The state as the operations so far have left it.
    pub fn current(&self) -> (r: &StackState)
        ensures
            r@ == self.state(),
    {
        &self.state
    }

    /// The commit that the branch is to point at as things stand.
    pub fn top(&self) -> (r: ObjectId)
        ensures
            r@ == self.state().top(),
    {
        self.state.top()
    }

    fn install(
        &mut self,
        applied: Vec<PatchDescriptor>,
        unapplied: Vec<PatchDescriptor>,
        hidden: Vec<PatchDescriptor>,
        Ghost(target): Ghost<StackStateView>,
    )
        requires
            target.wf(),
            target.prev == old(self).state().prev,
            target.head == old(self).state().head,
            target.applied == patch_views(applied@),
            target.unapplied == patch_views(unapplied@),
            target.hidden == patch_views(hidden@),
        ensures
            final(self).state() == target,
            final(self).is_halted() == old(self).is_halted(),
            final(self).options() == old(self).options(),
            final(self).log() == old(self).log(),
    {
        let prev = self.state.prev();
        let head = self.state.head();
        assert(parts_view(prev, head, applied@, unapplied@, hidden@) == target);
        self.state = StackState::from_parts(prev, head, applied, unapplied, hidden);
    }

    fn note(&mut self, mark: char, name: &str)
        ensures
            final(self).state() == old(self).state(),
            final(self).is_halted() == old(self).is_halted(),
            final(self).options() == old(self).options(),
            final(self).log() == old(self).log().push((mark, name@)),
    {
        self.log.push(StatusLine { mark, name: name.to_owned() });
        assert(line_views(self.log@) =~= line_views(old(self).log@).push((mark, name@)));
    }

    fn relocate(&mut self, from: ListKind, to: ListKind, name: &str, front: bool) -> (r: Result<
        (),
        TransactionError,
    >)
        requires
            from != to,
        ensures
            final(self).is_halted() == old(self).is_halted(),
            final(self).options() == old(self).options(),
            final(self).log() == old(self).log(),
            match r {
                Ok(()) => !old(self).is_halted() && patch_names(
                    list_of(old(self).state(), from),
                ).contains(name@) && final(self).state() == relocated(
                    old(self).state(),
                    from,
                    to,
                    name@,
                    front,
                ),
                Err(e) => final(self).state() == old(self).state() && if old(self).is_halted() {
                    e == TransactionError::Halted
                } else {
                    e == TransactionError::NoSuchPatch && !patch_names(
                        list_of(old(self).state(), from),
                    ).contains(name@)
                },
            },
    {
        if self.halted {
            return Err(TransactionError::Halted);
        }
        self.state.well_formed();
        let ghost s = self.state@;
        let mut a = clone_patches(self.state.applied());
        let mut u = clone_patches(self.state.unapplied());
        let mut h = clone_patches(self.state.hidden());
        let found = match from {
            ListKind::Applied => position_of(&a, name),
            ListKind::Unapplied => position_of(&u, name),
            ListKind::Hidden => position_of(&h, name),
        };
        match found {
            None => Err(TransactionError::NoSuchPatch),
            Some(i) => {
                proof {
                    lemma_domain_closure(s);
                    let names = patch_names(list_of(s, from));
                    assert(names[i as int] == name@);
                    assert(names.index_of(name@) == i);
                    lemma_relocated(s, from, to, name@, front);
                }
                let p = match from {
                    ListKind::Applied => {
                        let p = a.remove(i);
                        assert(patch_views(a@) =~= s.applied.remove(i as int));
                        p
                    },
                    ListKind::Unapplied => {
                        let p = u.remove(i);
                        assert(patch_views(u@) =~= s.unapplied.remove(i as int));
                        p
                    },
                    ListKind::Hidden => {
                        let p = h.remove(i);
                        assert(patch_views(h@) =~= s.hidden.remove(i as int));
                        p
                    },
                };
                let ghost s1 = with_list(s, from, list_of(s, from).remove(i as int));
                assert(p@ == list_of(s, from)[i as int]);
                match to {
                    ListKind::Applied => {
                        if front {
                            a.insert(0, p);
                            assert(patch_views(a@) =~= s1.applied.insert(0, p@));
                        } else {
                            a.push(p);
                            assert(patch_views(a@) =~= s1.applied.push(p@));
                        }
                    },
                    ListKind::Unapplied => {
                        if front {
                            u.insert(0, p);
                            assert(patch_views(u@) =~= s1.unapplied.insert(0, p@));
                        } else {
                            u.push(p);
                            assert(patch_views(u@) =~= s1.unapplied.push(p@));
                        }
                    },
                    ListKind::Hidden => {
                        if front {
                            h.insert(0, p);
                            assert(patch_views(h@) =~= s1.hidden.insert(0, p@));
                        } else {
                            h.push(p);
                            assert(patch_views(h@) =~= s1.hidden.push(p@));
                        }
                    },
                }
                self.install(a, u, h, Ghost(relocated(s, from, to, name@, front)));
                Ok(())
            },
        }
    }
}

fn with_oid(list: &Vec<PatchDescriptor>, name: &str, oid: ObjectId) -> (r: Vec<PatchDescriptor>)
    ensures
        patch_views(r@) == set_oid(patch_views(list@), name@, oid@),
{
    let mut out: Vec<PatchDescriptor> = Vec::new();
    let mut i: usize = 0;
    while i < list.len()
        invariant
            i <= list.len(),
            out@.len() == i,
            forall|k: int|
                0 <= k < i ==> (#[trigger] out@[k])@ == set_oid(patch_views(list@), name@, oid@)[k],
        decreases list.len() - i,
    {
        if crate::text::str_eq(list[i].name.as_str(), name) {
            out.push(PatchDescriptor { name: list[i].name.clone(), oid });
        } else {
            out.push(list[i].clone());
        }
        i = i + 1;
    }
    assert(patch_views(out@) =~= set_oid(patch_views(list@), name@, oid@));
    out
}

fn filtered(list: &Vec<PatchDescriptor>, names: &Vec<String>) -> (r: Vec<PatchDescriptor>)
    ensures
        patch_views(r@) == without(patch_views(list@), views(names@)),
{
    let mut out: Vec<PatchDescriptor> = Vec::new();
    let mut i: usize = 0;
    assert(patch_views(list@).take(0) =~= Seq::<PatchView>::empty());
    while i < list.len()
        invariant
            i <= list.len(),
            patch_views(out@) == without(patch_views(list@).take(i as int), views(names@)),
        decreases list.len() - i,
    {
        proof {
            let next = patch_views(list@).take(i + 1);
            assert(next.drop_last() =~= patch_views(list@).take(i as int));
            assert(next.last() == list@[i as int]@);
        }
        if find_name(names, list[i].name.as_str()).is_none() {
            let ghost before = patch_views(out@);
            out.push(list[i].clone());
            assert(patch_views(out@) =~= before.push(list@[i as int]@));
        }
        i = i + 1;
    }
    assert(patch_views(list@).take(list@.len() as int) =~= patch_views(list@));
    out
}

fn arrange(list: &Vec<PatchDescriptor>, order: &Vec<String>) -> (r: Option<Vec<PatchDescriptor>>)
    requires
        patch_names(patch_views(list@)).no_duplicates(),
    ensures
        r is Some <==> is_rearrangement(patch_names(patch_views(list@)), views(order@)),
        r matches Some(v) ==> patch_views(v@) == arranged(patch_views(list@), views(order@)),
{
    let ghost names = patch_names(patch_views(list@));
    if order.len() != list.len() || has_duplicate(order) {
        return None;
    }
    let mut out: Vec<PatchDescriptor> = Vec::new();
    let mut j: usize = 0;
    while j < order.len()
        invariant
            j <= order.len(),
            names == patch_names(patch_views(list@)),
            names.no_duplicates(),
            out@.len() == j,
            forall|k: int| 0 <= k < j ==> names.contains(#[trigger] views(order@)[k]),
            forall|k: int|
                0 <= k < j ==> (#[trigger] out@[k])@ == arranged(
                    patch_views(list@),
                    views(order@),
                )[k],
        decreases order.len() - j,
    {
        match position_of(list, order[j].as_str()) {
            None => {
                assert(!names.contains(views(order@)[j as int]));
                return None;
            },
            Some(i) => {
                proof {
                    assert(names[i as int] == order@[j as int]@);
                    assert(names.index_of(order@[j as int]@) == i);
                }
                out.push(list[i].clone());
            },
        }
        j = j + 1;
    }
    assert(patch_views(out@) =~= arranged(patch_views(list@), views(order@)));
    Some(out)
}

impl Transaction {
    /// Applies an unapplied patch: it goes to the top of the applied ones.
    pub fn push(&mut self, name: &str) -> (r: Result<(), TransactionError>)
        ensures
            staged(old(self), final(self), OperationView::Push(name@), r),
    {
        match self.relocate(ListKind::Unapplied, ListKind::Applied, name, false) {
            Ok(()) => {
                self.note('+', name);
                self.state.well_formed();
                Ok(())
            },
            Err(e) => Err(e),
        }
    }

    /// Takes an applied patch off: it becomes the first of the unapplied
    /// ones.
    pub fn pop(&mut self, name: &str) -> (r: Result<(), TransactionError>)
        ensures
            staged(old(self), final(self), OperationView::Pop(name@), r),
    {
        match self.relocate(ListKind::Applied, ListKind::Unapplied, name, true) {
            Ok(()) => {
                self.note('-', name);
                self.state.well_formed();
                Ok(())
            },
            Err(e) => Err(e),
        }
    }

    /// Hides an unapplied patch: it becomes the last of the hidden ones.
    pub fn hide_patch(&mut self, name: &str) -> (r: Result<(), TransactionError>)
        ensures
            staged(old(self), final(self), OperationView::Hide(name@), r),
    {
        match self.relocate(ListKind::Unapplied, ListKind::Hidden, name, false) {
            Ok(()) => {
                self.note('!', name);
                self.state.well_formed();
                Ok(())
            },
            Err(e) => Err(e),
        }
    }

    /// Brings a hidden patch back: it becomes the last of the unapplied
    /// ones.
    pub fn unhide_patch(&mut self, name: &str) -> (r: Result<(), TransactionError>)
        ensures
            staged(old(self), final(self), OperationView::Unhide(name@), r),
    {
        match self.relocate(ListKind::Hidden, ListKind::Unapplied, name, false) {
            Ok(()) => {
                self.note('-', name);
                self.state.well_formed();
                Ok(())
            },
            Err(e) => Err(e),
        }
    }

    /// Gives the patch called `name` the commit `oid`. The patch stays
    /// where it is.
    pub fn update_patch(&mut self, name: &str, oid: ObjectId) -> (r: Result<(), TransactionError>)
        ensures
            staged(old(self), final(self), OperationView::UpdatePatch(name@, oid@), r),
    {
        if self.halted {
            return Err(TransactionError::Halted);
        }
        if self.state.patch_oid(name).is_none() {
            return Err(TransactionError::NoSuchPatch);
        }
        self.state.well_formed();
        let ghost s = self.state@;
        let a = with_oid(self.state.applied(), name, oid);
        let u = with_oid(self.state.unapplied(), name, oid);
        let h = with_oid(self.state.hidden(), name, oid);
        proof {
            lemma_updated(s, name@, oid@);
        }
        self.install(a, u, h, Ghost(updated(s, name@, oid@)));
        Ok(())
    }

    /// Adds a patch on top of the applied ones.
    pub fn new_applied(&mut self, name: &str, oid: ObjectId) -> (r: Result<(), TransactionError>)
        ensures
            staged(old(self), final(self), OperationView::NewApplied(name@, oid@), r),
    {
        if self.halted {
            return Err(TransactionError::Halted);
        }
        if self.state.patch_oid(name).is_some() {
            return Err(TransactionError::PatchExists);
        }
        self.state.well_formed();
        let ghost s = self.state@;
        let mut a = clone_patches(self.state.applied());
        let u = clone_patches(self.state.unapplied());
        let h = clone_patches(self.state.hidden());
        let p = PatchDescriptor { name: name.to_owned(), oid };
        let ghost target = with_list(s, ListKind::Applied, s.applied.insert(s.applied.len() as int, p@));
        proof {
            lemma_added(s, ListKind::Applied, s.applied.len() as int, p@);
            assert(s.applied.insert(s.applied.len() as int, p@) =~= s.applied.push(p@));
        }
        a.push(p);
        assert(patch_views(a@) =~= s.applied.push(PatchView { name: name@, oid: oid@ }));
        self.install(a, u, h, Ghost(target));
        self.note('+', name);
        Ok(())
    }

    /// Adds a patch to the unapplied ones, before the one at `position`.
    pub fn new_unapplied(&mut self, name: &str, oid: ObjectId, position: usize) -> (r: Result<
        (),
        TransactionError,
    >)
        ensures
            staged(
                old(self),
                final(self),
                OperationView::NewUnapplied(name@, oid@, position as int),
                r,
            ),
    {
        if self.halted {
            return Err(TransactionError::Halted);
        }
        if self.state.patch_oid(name).is_some() {
            return Err(TransactionError::PatchExists);
        }
        if position > self.state.unapplied().len() {
            return Err(TransactionError::BadPosition);
        }
        self.state.well_formed();
        let ghost s = self.state@;
        let a = clone_patches(self.state.applied());
        let mut u = clone_patches(self.state.unapplied());
        let h = clone_patches(self.state.hidden());
        let p = PatchDescriptor { name: name.to_owned(), oid };
        let ghost target = with_list(s, ListKind::Unapplied, s.unapplied.insert(position as int, p@));
        proof {
            lemma_added(s, ListKind::Unapplied, position as int, p@);
        }
        u.insert(position, p);
        assert(patch_views(u@) =~= s.unapplied.insert(
            position as int,
            PatchView { name: name@, oid: oid@ },
        ));
        self.install(a, u, h, Ghost(target));
        Ok(())
    }

    /// Deletes the patches whose name is one of `names`, wherever they
    /// stand.
    pub fn delete_patches(&mut self, names: &Vec<String>) -> (r: Result<(), TransactionError>)
        ensures
            staged(old(self), final(self), OperationView::DeletePatches(views(names@)), r),
    {
        if self.halted {
            return Err(TransactionError::Halted);
        }
        self.state.well_formed();
        let ghost s = self.state@;
        let a = filtered(self.state.applied(), names);
        let u = filtered(self.state.unapplied(), names);
        let h = filtered(self.state.hidden(), names);
        proof {
            lemma_deleted(s, views(names@));
        }
        self.install(a, u, h, Ghost(deleted(s, views(names@))));
        Ok(())
    }

    /// Puts the patches of one list in another order. `order` must hold the
    /// names of the list, each once.
    pub fn reorder(&mut self, kind: ListKind, order: &Vec<String>) -> (r: Result<
        (),
        TransactionError,
    >)
        ensures
            staged(old(self), final(self), OperationView::Reorder(kind, views(order@)), r),
    {
        if self.halted {
            return Err(TransactionError::Halted);
        }
        self.state.well_formed();
        let ghost s = self.state@;
        proof {
            lemma_domain_closure(s);
        }
        let arranged_list = match kind {
            ListKind::Applied => arrange(self.state.applied(), order),
            ListKind::Unapplied => arrange(self.state.unapplied(), order),
            ListKind::Hidden => arrange(self.state.hidden(), order),
        };
        match arranged_list {
            None => Err(TransactionError::NotARearrangement),
            Some(list) => {
                proof {
                    lemma_arranged(s, kind, views(order@));
                }
                let ghost target = with_list(s, kind, arranged(list_of(s, kind), views(order@)));
                let mut a = clone_patches(self.state.applied());
                let mut u = clone_patches(self.state.unapplied());
                let mut h = clone_patches(self.state.hidden());
                match kind {
                    ListKind::Applied => {
                        a = list;
                    },
                    ListKind::Unapplied => {
                        u = list;
                    },
                    ListKind::Hidden => {
                        h = list;
                    },
                }
                self.install(a, u, h, Ghost(target));
                Ok(())
            },
        }
    }

    /// Moves the base of the stack to `new_head`. No patch may be applied.
    pub fn rebase(&mut self, new_head: ObjectId) -> (r: Result<(), TransactionError>)
        ensures
            staged(old(self), final(self), OperationView::Rebase(new_head@), r),
    {
        if self.halted {
            return Err(TransactionError::Halted);
        }
        if self.state.applied().len() > 0 {
            return Err(TransactionError::PatchesApplied);
        }
        self.state.well_formed();
        let ghost s = self.state@;
        let a = clone_patches(self.state.applied());
        let u = clone_patches(self.state.unapplied());
        let h = clone_patches(self.state.hidden());
        let prev = self.state.prev();
        let ghost target = StackStateView { head: new_head@, ..s };
        assert(parts_view(prev, new_head, a@, u@, h@) == target);
        assert(target.all_names() == s.all_names());
        self.state = StackState::from_parts(prev, new_head, a, u, h);
        Ok(())
    }
}

/// The state that a transaction records: the state it has reached, with
/// the commit of the state it started from as the state before.
pub open spec fn recorded(s: StackStateView, prev_commit: Seq<u8>) -> StackStateView {
    StackStateView { prev: Some(prev_commit), ..s }
}

/// The lines of progress of a finished transaction: those of its
/// operations, and a last one that names the patch on top, if there is one.
pub open spec fn final_log(log: Seq<(char, Seq<char>)>, s: StackStateView) -> Seq<
    (char, Seq<char>),
> {
    if s.applied.len() > 0 {
        log.push(('>', s.applied.last().name))
    } else {
        log
    }
}

impl Transaction {
    /// Applies an unapplied patch whose merge onto the stack has been
    /// tried. After a clean merge the patch is on top with the commit that
    /// the merge gave. After a conflict it is on top with the commit it
    /// had, and the transaction halts, if it allows conflicts; if not, the
    /// push is refused and nothing changes.
    pub fn push_merged(&mut self, name: &str, result: MergeResult) -> (r: Result<
        (),
        TransactionError,
    >)
        ensures
            final(self).options() == old(self).options(),
            match r {
                Ok(()) => {
                    let moved = relocated(
                        old(self).state(),
                        ListKind::Unapplied,
                        ListKind::Applied,
                        name@,
                        false,
                    );
                    &&& !old(self).is_halted()
                    &&& patch_names(old(self).state().unapplied).contains(name@)
                    &&& final(self).state().wf()
                    &&& match result {
                        MergeResult::Clean(oid) => final(self).state() == updated(
                            moved,
                            name@,
                            oid@,
                        ) && !final(self).is_halted() && final(self).log() == old(self).log().push(
                            ('+', name@),
                        ),
                        MergeResult::Conflict => {
                            &&& old(self).options().allow_conflicts
                            &&& final(self).state() == moved
                            &&& final(self).is_halted()
                            &&& final(self).log() == old(self).log().push(('!', name@))
                        },
                    }
                },
                Err(e) => {
                    &&& final(self).state() == old(self).state()
                    &&& final(self).is_halted() == old(self).is_halted()
                    &&& final(self).log() == old(self).log()
                    &&& if old(self).is_halted() {
                        e == TransactionError::Halted
                    } else if !patch_names(old(self).state().unapplied).contains(name@) {
                        e == TransactionError::NoSuchPatch
                    } else {
                        &&& e == TransactionError::CheckoutConflicts
                        &&& result is Conflict
                        &&& !old(self).options().allow_conflicts
                    }
                },
            },
    {
        if self.halted {
            return Err(TransactionError::Halted);
        }
        if position_of(self.state.unapplied(), name).is_none() {
            return Err(TransactionError::NoSuchPatch);
        }
        match result {
            MergeResult::Conflict => {
                if !self.options.allow_conflicts {
                    return Err(TransactionError::CheckoutConflicts);
                }
                match self.relocate(ListKind::Unapplied, ListKind::Applied, name, false) {
                    Ok(()) => {
                        self.halted = true;
                        self.note('!', name);
                        self.state.well_formed();
                        Ok(())
                    },
                    Err(e) => Err(e),
                }
            },
            MergeResult::Clean(oid) => {
                match self.relocate(ListKind::Unapplied, ListKind::Applied, name, false) {
                    Ok(()) => {
                        self.state.well_formed();
                        let ghost moved = self.state@;
                        let a = with_oid(self.state.applied(), name, oid);
                        let u = with_oid(self.state.unapplied(), name, oid);
                        let h = with_oid(self.state.hidden(), name, oid);
                        proof {
                            lemma_updated(moved, name@, oid@);
                        }
                        self.install(a, u, h, Ghost(updated(moved, name@, oid@)));
                        self.note('+', name);
                        self.state.well_formed();
                        Ok(())
                    },
                    Err(e) => Err(e),
                }
            },
        }
    }

    /// Ends the transaction. `prev_commit` is the commit that recorded the
    /// state that the transaction started from, and `checkout_clean` says
    /// whether the top of the stack could be checked out without conflict.
    ///
    /// A conflict at the checkout fails a transaction that uses the work
    /// tree and has not halted on a conflict before; nothing is to be
    /// recorded then. Otherwise the answer holds the state to record, and
    /// the commit that the branch has to point at: that of the last applied
    /// patch, or the head where no patch is applied.
    pub fn execute(self, prev_commit: ObjectId, checkout_clean: bool) -> (r: Result<
        Execution,
        TransactionError,
    >)
        ensures
            match r {
                Ok(done) => {
                    &&& done.state@ == recorded(self.state(), prev_commit@)
                    &&& done.state@.wf()
                    &&& done.branch_tip@ == done.state@.top()
                    &&& done.conflicts == self.is_halted()
                    &&& line_views(done.log@) == final_log(self.log(), self.state())
                    &&& self.is_halted() || checkout_clean || !self.options().use_index_and_worktree
                },
                Err(e) => e == TransactionError::CheckoutConflicts && !self.is_halted()
                    && !checkout_clean && self.options().use_index_and_worktree,
            },
    {
        if self.options.use_index_and_worktree && !checkout_clean && !self.halted {
            return Err(TransactionError::CheckoutConflicts);
        }
        self.state.well_formed();
        let ghost s = self.state@;
        let a = clone_patches(self.state.applied());
        let u = clone_patches(self.state.unapplied());
        let h = clone_patches(self.state.hidden());
        let head = self.state.head();
        let mut log = self.log;
        if a.len() > 0 {
            let ghost before = line_views(log@);
            log.push(StatusLine { mark: '>', name: a[a.len() - 1].name.clone() });
            assert(line_views(log@) =~= before.push(('>', s.applied.last().name)));
        }
        let ghost target = recorded(s, prev_commit@);
        assert(parts_view(Some(prev_commit), head, a@, u@, h@) == target);
        assert(target.all_names() == s.all_names());
        let state = StackState::from_parts(Some(prev_commit), head, a, u, h);
        let branch_tip = state.top();
        Ok(Execution { state, branch_tip, conflicts: self.halted, log })
    }
}

impl Transaction {
    /// Applies one operation. A transaction that has halted takes none;
    /// else the operation is refused as `refusal` says, with nothing
    /// changed, or takes effect as `effect` says.
    pub fn stage(&mut self, op: &Operation) -> (r: Result<(), TransactionError>)
        ensures
            staged(old(self), final(self), op@, r),
    {
        match op {
            Operation::Push(n) => self.push(n.as_str()),
            Operation::Pop(n) => self.pop(n.as_str()),
            Operation::Hide(n) => self.hide_patch(n.as_str()),
            Operation::Unhide(n) => self.unhide_patch(n.as_str()),
            Operation::Reorder(kind, order) => self.reorder(*kind, order),
            Operation::UpdatePatch(n, oid) => self.update_patch(n.as_str(), *oid),
            Operation::NewApplied(n, oid) => self.new_applied(n.as_str(), *oid),
            Operation::NewUnapplied(n, oid, at) => self.new_unapplied(n.as_str(), *oid, *at),
            Operation::DeletePatches(names) => self.delete_patches(names),
            Operation::Rebase(oid) => self.rebase(*oid),
        }
    }

    /// Applies operations in their order, up to the first that is refused.
    /// The answer names that operation and says why; the operations before
    /// it have taken effect, and it and those after it have not.
    pub fn stage_all(&mut self, ops: &Vec<Operation>) -> (r: Result<(), (usize, TransactionError)>)
        ensures
            final(self).is_halted() == old(self).is_halted(),
            final(self).options() == old(self).options(),
            final(self).state().wf(),
            old(self).is_halted() ==> final(self).state() == old(self).state() && (ops@.len()
                == 0 ==> r is Ok) && (ops@.len() > 0 ==> r == Err::<
                (),
                (usize, TransactionError),
            >((0usize, TransactionError::Halted))),
            !old(self).is_halted() ==> final(self).state() == run(
                old(self).state(),
                operation_views(ops@),
                0,
            ) && match r {
                Ok(()) => first_refusal(old(self).state(), operation_views(ops@), 0) is None,
                Err((at, e)) => first_refusal(old(self).state(), operation_views(ops@), 0)
                    == Some((at as int, e)),
            },
    {
        self.state.well_formed();
        let ghost start = self.state@;
        let ghost all = operation_views(ops@);
        let mut i: usize = 0;
        while i < ops.len()
            invariant
                i <= ops.len(),
                all == operation_views(ops@),
                self.is_halted() == old(self).is_halted(),
                self.options() == old(self).options(),
                self.state().wf(),
                start == old(self).state(),
                old(self).is_halted() ==> i == 0 && self.state() == start,
                !old(self).is_halted() ==> run(self.state(), all, i as int) == run(start, all, 0)
                    && first_refusal(self.state(), all, i as int) == first_refusal(start, all, 0),
            decreases ops.len() - i,
        {
            assert(all[i as int] == ops@[i as int]@);
            match self.stage(&ops[i]) {
                Ok(()) => {},
                Err(e) => {
                    return Err((i, e));
                },
            }
            i = i + 1;
        }
        Ok(())
    }
}

} // verus!