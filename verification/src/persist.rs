//! How a stack state is written down: the tree that holds it, and the
//! commits that record it and keep every commit it names alive.

use std::fmt::Write;
use vstd::prelude::*;
use vstd::string::StringExecFns;
use crate::oid::{ObjectId, hex_of};
use crate::stack::{
    PatchDescriptor, PatchView, RawStackState, StackError, StackState, StackStateView, MAX_PARENTS,
    patch_oids, patch_views,
};
use crate::text::str_eq;

verus! {

/// The views of a list of object ids.
pub open spec fn oid_views(list: Seq<ObjectId>) -> Seq<Seq<u8>> {
    Seq::new(list.len(), |i: int| list[i]@)
}

/// Whether `x` is one of `list`.
pub fn oid_in(list: &Vec<ObjectId>, x: &ObjectId) -> (r: bool)
    ensures
        r == oid_views(list@).contains(x@),
{
    let mut i: usize = 0;
    while i < list.len()
        invariant
            i <= list.len(),
            forall|j: int| 0 <= j < i ==> oid_views(list@)[j] != x@,
        decreases list.len() - i,
    {
        if list[i] == *x {
            assert(oid_views(list@)[i as int] == x@);
            return true;
        }
        i = i + 1;
    }
    false
}

/// The commits of a list of patches.
pub fn oids_of(list: &Vec<PatchDescriptor>) -> (r: Vec<ObjectId>)
    ensures
        oid_views(r@) == patch_oids(patch_views(list@)),
{
    let mut out: Vec<ObjectId> = Vec::new();
    let mut i: usize = 0;
    while i < list.len()
        invariant
            i <= list.len(),
            out@.len() == i,
            forall|j: int| 0 <= j < i ==> out@[j]@ == list@[j].oid@,
        decreases list.len() - i,
    {
        out.push(list[i].oid);
        i = i + 1;
    }
    assert(oid_views(out@) =~= patch_oids(patch_views(list@)));
    out
}

/// The commits that a state must keep alive by itself: the head, the top,
/// and every unapplied and every hidden patch. (The applied patches below
/// the top are ancestors of the top.)
pub open spec fn candidates(s: StackStateView) -> Seq<Seq<u8>> {
    seq![s.head, s.top()] + patch_oids(s.unapplied) + patch_oids(s.hidden)
}

/// The items of `list` that are not in `excluded`, each once, in the order
/// in which they first stand in `list`.
pub open spec fn keep_new(list: Seq<Seq<u8>>, excluded: Seq<Seq<u8>>) -> Seq<Seq<u8>>
    decreases list.len(),
{
    if list.len() == 0 {
        Seq::<Seq<u8>>::empty()
    } else {
        let rest = keep_new(list.drop_last(), excluded);
        let x = list.last();
        if excluded.contains(x) || rest.contains(x) {
            rest
        } else {
            rest.push(x)
        }
    }
}

/// `keep_new` holds nothing twice, and holds exactly the items of the list
/// that are not excluded.
pub proof fn lemma_keep_new(list: Seq<Seq<u8>>, excluded: Seq<Seq<u8>>)
    ensures
        keep_new(list, excluded).no_duplicates(),
        forall|x: Seq<u8>|
            keep_new(list, excluded).contains(x) <==> list.contains(x) && !excluded.contains(x),
    decreases list.len(),
{
    let r = keep_new(list, excluded);
    if list.len() > 0 {
        let front = list.drop_last();
        let rest = keep_new(front, excluded);
        let last = list.last();
        lemma_keep_new(front, excluded);
        assert forall|x: Seq<u8>| r.contains(x) <==> list.contains(x) && !excluded.contains(x) by {
            if list.contains(x) {
                let i = list.index_of(x);
                if i < list.len() - 1 {
                    assert(front[i] == x);
                }
            }
            if front.contains(x) {
                let i = front.index_of(x);
                assert(list[i] == x);
            }
            assert(list[list.len() - 1] == last);
            if r.contains(x) {
                let i = r.index_of(x);
                if i < rest.len() {
                    assert(rest[i] == x);
                }
            }
            if rest.contains(x) {
                let i = rest.index_of(x);
                assert(r[i] == x);
            }
            if !(excluded.contains(last) || rest.contains(last)) {
                assert(r[r.len() - 1] == last);
            }
        }
    }
}

/// The commits that a state refers to and the state before it did not: the
/// head, the top, and the unapplied and hidden patches, each once, less the
/// commits of the patches of the state before.
pub open spec fn novelty(s: StackStateView, previous: Option<StackStateView>) -> Seq<Seq<u8>> {
    keep_new(
        candidates(s),
        match previous {
            Some(p) => if s.prev is Some {
                patch_oids(p.all())
            } else {
                Seq::<Seq<u8>>::empty()
            },
            None => Seq::<Seq<u8>>::empty(),
        },
    )
}

/// A parent of a commit that is yet to be written: an object that exists,
/// or a grouping commit of the same plan, by its number.
#[derive(Clone, Copy, Debug, PartialEq, Eq)]
pub enum ParentRef {
    Object(ObjectId),
    Group(usize),
}

/// What a parent reference stands for.
pub enum ParentRefView {
    Object(Seq<u8>),
    Group(int),
}

impl View for ParentRef {
    type V = ParentRefView;

    open spec fn view(&self) -> ParentRefView {
        match self {
            ParentRef::Object(id) => ParentRefView::Object(id@),
            ParentRef::Group(k) => ParentRefView::Group(*k as int),
        }
    }
}

/// The views of a list of parent references.
pub open spec fn ref_views(list: Seq<ParentRef>) -> Seq<ParentRefView> {
    Seq::new(list.len(), |i: int| list[i]@)
}

/// The views of a list of lists of parent references.
pub open spec fn group_views(groups: Seq<Vec<ParentRef>>) -> Seq<Seq<ParentRefView>> {
    Seq::new(groups.len(), |i: int| ref_views(groups[i]@))
}

/// The references to a list of objects.
pub open spec fn object_refs(list: Seq<Seq<u8>>) -> Seq<ParentRefView> {
    Seq::new(list.len(), |i: int| ParentRefView::Object(list[i]))
}

/// The grouping commits of a plan, each by its parents, and the parents
/// that are left for the state commit.
pub struct Folded {
    pub groups: Seq<Seq<ParentRefView>>,
    pub parents: Seq<ParentRefView>,
}

/// Folds a list of parents until it has at most sixteen: while it is longer,
/// its last sixteen become the parents of a new grouping commit, which takes
/// their place at the end of the list.
pub open spec fn fold_parents(list: Seq<ParentRefView>, groups: Seq<Seq<ParentRefView>>) -> Folded
    decreases list.len(),
{
    if list.len() <= 16 {
        Folded { groups, parents: list }
    } else {
        let cut = list.len() - 16;
        fold_parents(
            list.take(cut).push(ParentRefView::Group(groups.len() as int)),
            groups.push(list.skip(cut)),
        )
    }
}

impl Folded {
    /// Whether the grouping commit `k` is reached from the state commit: it
    /// is a parent of the state commit, or of the next grouping commit,
    /// which is reached.
    pub open spec fn group_reached(self, k: int) -> bool
        decreases self.groups.len() - k,
    {
        &&& 0 <= k < self.groups.len()
        &&& (self.parents.contains(ParentRefView::Group(k)) || (k + 1 < self.groups.len()
            && self.groups[k + 1].contains(ParentRefView::Group(k)) && self.group_reached(k + 1)))
    }

    /// Whether the object `id` is reached from the state commit: it is a
    /// parent of the state commit, or of a grouping commit that is reached.
    pub open spec fn reaches(self, id: Seq<u8>) -> bool {
        ||| self.parents.contains(ParentRefView::Object(id))
        ||| exists|k: int|
            0 <= k < self.groups.len() && (#[trigger] self.groups[k]).contains(
                ParentRefView::Object(id),
            ) && self.group_reached(k)
    }
}

/// The folding in mid-course: the list ends with the last grouping commit,
/// each grouping commit but the first has the one before it as its last
/// parent, and each has sixteen parents.
pub open spec fn fold_inv(list: Seq<ParentRefView>, groups: Seq<Seq<ParentRefView>>) -> bool {
    &&& groups.len() > 0 ==> list.len() > 0 && list.last() == ParentRefView::Group(
        groups.len() - 1,
    )
    &&& forall|k: int|
        1 <= k < groups.len() ==> (#[trigger] groups[k]).len() > 0 && groups[k].last()
            == ParentRefView::Group(k - 1)
    &&& forall|k: int| 0 <= k < groups.len() ==> (#[trigger] groups[k]).len() == 16
}

/// What folding gives, from any point of its course on.
pub proof fn lemma_fold(list: Seq<ParentRefView>, groups: Seq<Seq<ParentRefView>>)
    requires
        fold_inv(list, groups),
    ensures
        ({
            let f = fold_parents(list, groups);
            &&& fold_inv(f.parents, f.groups)
            &&& f.parents.len() <= 16
            &&& f.groups.len() >= groups.len()
            &&& f.groups.take(groups.len() as int) == groups
            &&& list.len() <= 16 ==> f.parents == list && f.groups == groups
            &&& list.len() > 16 ==> f.groups.len() > groups.len()
            &&& (list.len() < 16 || list.len() % 15 != 1) ==> f.parents.len() <= 15
            &&& forall|i: int|
                0 <= i < list.len() ==> f.parents.contains(#[trigger] list[i]) || exists|k: int|
                    groups.len() <= k < f.groups.len() && (#[trigger] f.groups[k]).contains(list[i])
        }),
    decreases list.len(),
{
    let f = fold_parents(list, groups);
    if list.len() <= 16 {
        assert(f.groups.take(groups.len() as int) =~= groups);
        assert forall|i: int| 0 <= i < list.len() implies f.parents.contains(#[trigger] list[i]) by {
            assert(f.parents[i] == list[i]);
        }
    } else {
        let cut = list.len() - 16;
        let g = ParentRefView::Group(groups.len() as int);
        let list2 = list.take(cut).push(g);
        let groups2 = groups.push(list.skip(cut));
        assert(list2.last() == g);
        assert(groups2[groups.len() as int] == list.skip(cut));
        assert forall|k: int| 1 <= k < groups2.len() implies (#[trigger] groups2[k]).len() > 0
            && groups2[k].last() == ParentRefView::Group(k - 1) by {
            if k < groups.len() {
                assert(groups2[k] == groups[k]);
            } else {
                assert(list.skip(cut).last() == list.last());
            }
        }
        assert forall|k: int| 0 <= k < groups2.len() implies (#[trigger] groups2[k]).len() == 16 by {
            if k < groups.len() {
                assert(groups2[k] == groups[k]);
            }
        }
        lemma_fold(list2, groups2);
        assert(f == fold_parents(list2, groups2));
        assert(f.groups.take(groups.len() as int) =~= f.groups.take(groups2.len() as int).take(
            groups.len() as int,
        ));
        assert(groups2.take(groups.len() as int) =~= groups);
        assert(f.groups[groups.len() as int] == f.groups.take(groups2.len() as int)[groups.len() as int]);
        assert forall|i: int| 0 <= i < list.len() implies f.parents.contains(#[trigger] list[i])
            || exists|k: int|
            groups.len() <= k < f.groups.len() && (#[trigger] f.groups[k]).contains(list[i]) by {
            if i < cut {
                assert(list2[i] == list[i]);
                if !f.parents.contains(list2[i]) {
                    let k = choose|k: int|
                        groups2.len() <= k < f.groups.len() && (#[trigger] f.groups[k]).contains(
                            list2[i],
                        );
                    assert(groups.len() <= k < f.groups.len() && f.groups[k].contains(list[i]));
                }
            } else {
                let k = groups.len() as int;
                assert(list.skip(cut)[i - cut] == list[i]);
                assert(f.groups[k] == list.skip(cut));
                assert(f.groups[k].contains(list[i]));
            }
        }
    }
}

/// Whether every grouping commit that `list` refers to has a number below
/// `bound`.
pub open spec fn refers_below(list: Seq<ParentRefView>, bound: int) -> bool {
    forall|i: int|
        0 <= i < list.len() ==> ((#[trigger] list[i]) matches ParentRefView::Group(k) ==> 0 <= k
            < bound)
}

/// The commits of a folding can be written in their order: a grouping
/// commit refers to grouping commits before it only, and the state commit
/// to grouping commits of the folding only.
pub proof fn lemma_fold_order(list: Seq<ParentRefView>, groups: Seq<Seq<ParentRefView>>)
    requires
        refers_below(list, groups.len() as int),
        forall|j: int| 0 <= j < groups.len() ==> refers_below(#[trigger] groups[j], j),
    ensures
        ({
            let f = fold_parents(list, groups);
            &&& refers_below(f.parents, f.groups.len() as int)
            &&& forall|j: int| 0 <= j < f.groups.len() ==> refers_below(#[trigger] f.groups[j], j)
        }),
    decreases list.len(),
{
    if list.len() > 16 {
        let cut = list.len() - 16;
        let g = ParentRefView::Group(groups.len() as int);
        let list2 = list.take(cut).push(g);
        let groups2 = groups.push(list.skip(cut));
        assert forall|i: int| 0 <= i < list2.len() implies ((#[trigger] list2[i])
            matches ParentRefView::Group(k) ==> 0 <= k < groups2.len()) by {
            if i < cut {
                assert(list2[i] == list[i]);
            }
        }
        assert forall|j: int| 0 <= j < groups2.len() implies refers_below(
            #[trigger] groups2[j],
            j,
        ) by {
            if j < groups.len() {
                assert(groups2[j] == groups[j]);
            } else {
                let tail = list.skip(cut);
                assert forall|i: int| 0 <= i < tail.len() implies ((#[trigger] tail[i])
                    matches ParentRefView::Group(k) ==> 0 <= k < j) by {
                    assert(tail[i] == list[cut + i]);
                }
            }
        }
        lemma_fold_order(list2, groups2);
    }
}

/// The commits of a plan for a list of objects can be written in their
/// order.
pub proof fn lemma_plan_order(objects: Seq<Seq<u8>>)
    ensures
        ({
            let f = fold_parents(object_refs(objects), Seq::<Seq<ParentRefView>>::empty());
            &&& refers_below(f.parents, f.groups.len() as int)
            &&& forall|j: int| 0 <= j < f.groups.len() ==> refers_below(#[trigger] f.groups[j], j)
        }),
{
    lemma_fold_order(object_refs(objects), Seq::<Seq<ParentRefView>>::empty());
}

/// Every grouping commit of a finished folding is reached from the state
/// commit.
pub proof fn lemma_groups_reached(f: Folded, k: int)
    requires
        fold_inv(f.parents, f.groups),
        0 <= k < f.groups.len(),
    ensures
        f.group_reached(k),
    decreases f.groups.len() - k,
{
    if k == f.groups.len() - 1 {
        assert(f.parents[f.parents.len() - 1] == ParentRefView::Group(k));
    } else {
        lemma_groups_reached(f, k + 1);
        let g = f.groups[k + 1];
        assert(g[g.len() - 1] == ParentRefView::Group(k));
    }
}

/// Folding a list of objects loses none of them: each is a parent of the
/// state commit, or of a grouping commit that is reached from it.
pub proof fn lemma_fold_reaches(objects: Seq<Seq<u8>>)
    ensures
        forall|i: int|
            0 <= i < objects.len() ==> fold_parents(
                object_refs(objects),
                Seq::<Seq<ParentRefView>>::empty(),
            ).reaches(#[trigger] objects[i]),
{
    let list = object_refs(objects);
    let none = Seq::<Seq<ParentRefView>>::empty();
    let f = fold_parents(list, none);
    lemma_fold(list, none);
    assert forall|i: int| 0 <= i < objects.len() implies f.reaches(#[trigger] objects[i]) by {
        assert(list[i] == ParentRefView::Object(objects[i]));
        if !f.parents.contains(list[i]) {
            let k = choose|k: int|
                0 <= k < f.groups.len() && (#[trigger] f.groups[k]).contains(list[i]);
            lemma_groups_reached(f, k);
        }
    }
}

/// No grouping commit has more than sixteen parents. The state commit has
/// its simplified parent and at most sixteen more; it stays within sixteen
/// in all unless the number of objects to keep alive is sixteen or more and
/// leaves the remainder one when divided by fifteen.
pub proof fn lemma_parent_bounds(objects: Seq<Seq<u8>>)
    ensures
        ({
            let f = fold_parents(object_refs(objects), Seq::<Seq<ParentRefView>>::empty());
            &&& forall|k: int| 0 <= k < f.groups.len() ==> (#[trigger] f.groups[k]).len() <= 16
            &&& 1 + f.parents.len() <= 17
            &&& (objects.len() < 16 || objects.len() % 15 != 1) ==> 1 + f.parents.len() <= 16
        }),
{
    lemma_fold(object_refs(objects), Seq::<Seq<ParentRefView>>::empty());
}

/// The state before, as `commit` needs it: the state itself, and the names
/// and blobs found in the `patches` tree that was written for it.
#[derive(Debug, PartialEq, Eq)]
pub struct PreviousState {
    pub state: StackState,
    pub patch_blobs: Vec<(String, ObjectId)>,
}

/// What a previous state stands for.
pub struct PreviousStateView {
    pub state: StackStateView,
    pub patch_blobs: Seq<(Seq<char>, Seq<u8>)>,
}

impl View for PreviousState {
    type V = PreviousStateView;

    open spec fn view(&self) -> PreviousStateView {
        PreviousStateView {
            state: self.state@,
            patch_blobs: Seq::new(
                self.patch_blobs@.len(),
                |i: int| (self.patch_blobs@[i].0@, self.patch_blobs@[i].1@),
            ),
        }
    }
}

impl PreviousStateView {
    /// Whether the tree of the state before has a blob for `name`.
    pub open spec fn has_blob(self, name: Seq<char>) -> bool {
        exists|i: int| 0 <= i < self.patch_blobs.len() && (#[trigger] self.patch_blobs[i]).0 == name
    }

    /// The first blob that the tree of the state before has for `name`.
    pub open spec fn blob(self, name: Seq<char>) -> Seq<u8> {
        let i = choose|i: int|
            0 <= i < self.patch_blobs.len() && (#[trigger] self.patch_blobs[i]).0 == name
                && forall|j: int| 0 <= j < i ==> (#[trigger] self.patch_blobs[j]).0 != name;
        self.patch_blobs[i].1
    }
}

/// One entry of the `patches` tree: the blob that describes a patch.
#[derive(Debug, PartialEq, Eq)]
pub struct PatchMetaEntry {
    /// The name of the entry: that of the patch.
    pub name: String,
    /// The commit of the patch.
    pub oid: ObjectId,
    /// The blob of the state before that is taken over as it is; `None`
    /// where a blob has to be written.
    pub reuse: Option<ObjectId>,
}

/// What an entry of the `patches` tree stands for.
pub struct PatchMetaEntryView {
    pub name: Seq<char>,
    pub oid: Seq<u8>,
    pub reuse: Option<Seq<u8>>,
}

impl View for PatchMetaEntry {
    type V = PatchMetaEntryView;

    open spec fn view(&self) -> PatchMetaEntryView {
        PatchMetaEntryView {
            name: self.name@,
            oid: self.oid@,
            reuse: match self.reuse {
                Some(b) => Some(b@),
                None => None,
            },
        }
    }
}

/// The blob to take over for a patch: that of the state before, where that
/// state has the patch under the same name with the same commit and its tree
/// has a blob for it.
pub open spec fn reuse_of(patch: PatchView, previous: Option<PreviousStateView>) -> Option<Seq<u8>> {
    match previous {
        Some(p) => if p.state.has(patch.name) && p.state.patches()[patch.name] == patch.oid
            && p.has_blob(patch.name) {
            Some(p.blob(patch.name))
        } else {
            None
        },
        None => None,
    }
}

/// The entries of the `patches` tree of a state: one for each patch, in the
/// order applied, unapplied, hidden.
pub open spec fn patches_tree(s: StackStateView, previous: Option<PreviousStateView>) -> Seq<
    PatchMetaEntryView,
> {
    Seq::new(
        s.all().len(),
        |i: int|
            PatchMetaEntryView {
                name: s.all()[i].name,
                oid: s.all()[i].oid,
                reuse: reuse_of(s.all()[i], previous),
            },
    )
}

/// A patch whose name and commit are the same in the state before has the
/// same blob in both trees: where the state before holds the patch with that
/// commit and its tree holds a blob for it, the new tree takes that blob
/// over, and nothing is written for the patch.
pub proof fn lemma_reuse(s: StackStateView, previous: PreviousStateView, i: int, j: int)
    requires
        s.wf(),
        previous.state.wf(),
        0 <= i < s.all().len(),
        0 <= j < previous.state.all().len(),
        s.all()[i] == previous.state.all()[j],
        previous.has_blob(s.all()[i].name),
    ensures
        patches_tree(s, Some(previous))[i].reuse == Some(previous.blob(s.all()[i].name)),
{
    let p = previous.state;
    let name = s.all()[i].name;
    assert(p.all_names()[j] == name);
    let k = p.all_names().index_of(name);
    assert(p.all_names()[k] == name);
    assert(k == j);
}

/// The commits of `novelty` are exactly the head, the top, and the commits
/// of the unapplied and the hidden patches, less the commits of the patches
/// of the state before, each once. The commit of the state before is among
/// them only where it is one of these.
pub proof fn lemma_novelty_set(s: StackStateView, previous: Option<StackStateView>, x: Seq<u8>)
    ensures
        novelty(s, previous).no_duplicates(),
        novelty(s, previous).contains(x) <==> (x == s.head || x == s.top() || patch_oids(
            s.unapplied,
        ).contains(x) || patch_oids(s.hidden).contains(x)) && !(s.prev is Some && previous is Some
            && patch_oids(previous->0.all()).contains(x)),
{
    let excluded = match previous {
        Some(p) => if s.prev is Some {
            patch_oids(p.all())
        } else {
            Seq::<Seq<u8>>::empty()
        },
        None => Seq::<Seq<u8>>::empty(),
    };
    let c = candidates(s);
    let first = seq![s.head, s.top()];
    let u = patch_oids(s.unapplied);
    let h = patch_oids(s.hidden);
    lemma_keep_new(c, excluded);
    assert(c =~= first + u + h);
    if c.contains(x) {
        let i = c.index_of(x);
        if i < 2 {
            assert(first[i] == x);
        } else if i < 2 + u.len() {
            assert(u[i - 2] == x);
        } else {
            assert(h[i - 2 - u.len()] == x);
        }
    }
    assert(c[0] == s.head && c[1] == s.top());
    if u.contains(x) {
        assert(c[2 + u.index_of(x)] == x);
    }
    if h.contains(x) {
        assert(c[2 + u.len() + h.index_of(x)] == x);
    }
}

/// Every commit that a state has to keep alive by itself is the commit of
/// a patch of the state before, or is reached from the state commit: as one
/// of its parents, or through grouping commits.
pub proof fn lemma_novelty_reached(s: StackStateView, previous: Option<StackStateView>, i: int)
    requires
        0 <= i < candidates(s).len(),
    ensures
        (s.prev is Some && previous is Some && patch_oids(previous->0.all()).contains(
            candidates(s)[i],
        )) || fold_parents(
            object_refs(novelty(s, previous)),
            Seq::<Seq<ParentRefView>>::empty(),
        ).reaches(candidates(s)[i]),
{
    let excluded = match previous {
        Some(p) => if s.prev is Some {
            patch_oids(p.all())
        } else {
            Seq::<Seq<u8>>::empty()
        },
        None => Seq::<Seq<u8>>::empty(),
    };
    let x = candidates(s)[i];
    lemma_keep_new(candidates(s), excluded);
    lemma_fold_reaches(novelty(s, previous));
    if !excluded.contains(x) {
        assert(candidates(s).contains(x));
        let k = novelty(s, previous).index_of(x);
        assert(novelty(s, previous)[k] == x);
    }
}

/// What chrono writes for the instant `seconds` after the epoch, seen from
/// `offset_seconds` east of Greenwich, under the format `format`; `None`
/// where chrono has no such instant or offset, or cannot follow the format.
pub uninterp spec fn chrono_text(seconds: i64, offset_seconds: i32, format: Seq<char>) -> Option<
    Seq<char>,
>;

/// Formats an instant with chrono: `DateTime::from_timestamp` makes the
/// instant, `FixedOffset::east_opt` the offset, `DateTime::with_timezone`
/// moves the one to the other and `DateTime::format` writes it. The text
/// depends on the three arguments alone; nothing more is claimed of it.
#[verifier::external_body]
fn chrono_format(seconds: i64, offset_seconds: i32, format: &str) -> (r: Option<String>)
    ensures
        match r {
            Some(t) => chrono_text(seconds, offset_seconds, format@) == Some(t@),
            None => chrono_text(seconds, offset_seconds, format@) is None,
        },
{
    let utc = chrono::DateTime::from_timestamp(seconds, 0)?;
    let offset = chrono::FixedOffset::east_opt(offset_seconds)?;
    let mut out = String::new();
    match write!(out, "{}", utc.with_timezone(&offset).format(format)) {
        Ok(()) => Some(out),
        Err(_) => None,
    }
}

/// The date line of a patch's blob: the commit's time in the commit's own
/// time zone, as `YYYY-MM-DD HH:MM:SS`, then the zone as `+HHMM` or `-HHMM`.
/// `None` where the minutes do not make an offset in seconds, or chrono
/// knows no such instant.
pub open spec fn commit_time_text(seconds: i64, offset_minutes: i32) -> Option<Seq<char>> {
    if i32::MIN <= offset_minutes * 60 <= i32::MAX {
        chrono_text(seconds, (offset_minutes * 60) as i32, "%Y-%m-%d %H:%M:%S %z"@)
    } else {
        None
    }
}

/// The date line of a patch's blob, for a commit made `seconds` after the
/// epoch in a zone `offset_minutes` east of Greenwich.
pub fn format_commit_time(seconds: i64, offset_minutes: i32) -> (r: Option<String>)
    ensures
        match r {
            Some(t) => commit_time_text(seconds, offset_minutes) == Some(t@),
            None => commit_time_text(seconds, offset_minutes) is None,
        },
{
    match offset_minutes.checked_mul(60) {
        Some(offset_seconds) => chrono_format(seconds, offset_seconds, "%Y-%m-%d %H:%M:%S %z"),
        None => None,
    }
}

/// The blob that describes a patch: the tree below it, the tree it leaves,
/// its author, and the date of its commit, a line each.
pub open spec fn patch_meta_text(
    bottom: Seq<u8>,
    top: Seq<u8>,
    author_name: Seq<char>,
    author_email: Seq<char>,
    date: Seq<char>,
) -> Seq<char> {
    "Bottom: "@ + hex_of(bottom) + "\n"@ + "Top:    "@ + hex_of(top) + "\n"@ + "Author: "@
        + author_name + " <"@ + author_email + ">\n"@ + "Date:   "@ + date + "\n"@
}

/// Writes the blob that describes a patch, given the date line.
pub fn patch_meta(
    bottom: &ObjectId,
    top: &ObjectId,
    author_name: &str,
    author_email: &str,
    date: &str,
) -> (r: String)
    ensures
        r@ == patch_meta_text(bottom@, top@, author_name@, author_email@, date@),
{
    let mut out = String::from_str("Bottom: ");
    out.append(bottom.to_hex().as_str());
    out.append("\n");
    out.append("Top:    ");
    out.append(top.to_hex().as_str());
    out.append("\n");
    out.append("Author: ");
    out.append(author_name);
    out.append(" <");
    out.append(author_email);
    out.append(">\n");
    out.append("Date:   ");
    out.append(date);
    out.append("\n");
    out
}

/// Writes the blob that describes a patch whose commit was made `seconds`
/// after the epoch in a zone `offset_minutes` east of Greenwich. `None`
/// where no date line can be had for that time.
pub fn write_patch_meta(
    bottom: &ObjectId,
    top: &ObjectId,
    author_name: &str,
    author_email: &str,
    seconds: i64,
    offset_minutes: i32,
) -> (r: Option<String>)
    ensures
        match commit_time_text(seconds, offset_minutes) {
            Some(date) => r matches Some(t) && t@ == patch_meta_text(
                bottom@,
                top@,
                author_name@,
                author_email@,
                date,
            ),
            None => r is None,
        },
{
    match format_commit_time(seconds, offset_minutes) {
        Some(date) => Some(patch_meta(bottom, top, author_name, author_email, date.as_str())),
        None => None,
    }
}

/// The message of a grouping commit.
pub fn grouping_message() -> (r: &'static str)
    ensures
        r@ == "parent grouping"@,
{
    "parent grouping"
}

/// The name of the state file in the tree of a state.
pub fn state_file_name() -> (r: &'static str)
    ensures
        r@ == "stack.json"@,
{
    "stack.json"
}

/// The name of the tree of patch blobs in the tree of a state.
pub fn patches_tree_name() -> (r: &'static str)
    ensures
        r@ == "patches"@,
{
    "patches"
}

/// Everything that has to be written to record a state.
#[derive(Debug, PartialEq, Eq)]
pub struct CommitPlan {
    /// The content of `stack.json`.
    pub stack_json: RawStackState,
    /// The entries of the `patches` tree.
    pub patches_tree: Vec<PatchMetaEntry>,
    /// The commit of the state before. The simplified commit of this state
    /// has the simplified commit of that one as its only parent, and none
    /// where this is the first state.
    pub follows: Option<ObjectId>,
    /// The grouping commits, in the order in which they are written, each by
    /// its parents.
    pub groups: Vec<Vec<ParentRef>>,
    /// The parents of the state commit that follow its simplified commit.
    pub parents: Vec<ParentRef>,
}

fn find_blob(blobs: &Vec<(String, ObjectId)>, name: &str, Ghost(p): Ghost<PreviousStateView>) -> (r:
    Option<ObjectId>)
    requires
        p.patch_blobs == Seq::new(blobs@.len(), |i: int| (blobs@[i].0@, blobs@[i].1@)),
    ensures
        r is Some <==> p.has_blob(name@),
        r matches Some(b) ==> b@ == p.blob(name@),
{
    let mut i: usize = 0;
    while i < blobs.len()
        invariant
            i <= blobs.len(),
            p.patch_blobs == Seq::new(blobs@.len(), |i: int| (blobs@[i].0@, blobs@[i].1@)),
            forall|j: int| 0 <= j < i ==> (#[trigger] p.patch_blobs[j]).0 != name@,
        decreases blobs.len() - i,
    {
        if str_eq(blobs[i].0.as_str(), name) {
            proof {
                assert(p.patch_blobs[i as int].0 == name@);
                let c = choose|c: int|
                    0 <= c < p.patch_blobs.len() && (#[trigger] p.patch_blobs[c]).0 == name@
                        && forall|j: int| 0 <= j < c ==> (#[trigger] p.patch_blobs[j]).0 != name@;
                assert(c == i);
            }
            return Some(blobs[i].1);
        }
        i = i + 1;
    }
    None
}

impl StackState {
    /// The blob that describes the patch called `patch_name` with the
    /// commit `oid`, where it need not be written: the blob that the tree
    /// of the state before holds under that name, where that state has the
    /// patch under the same name with the same commit. It is handed back as
    /// it is, and nothing is asked of the commit. `None` says that the blob
    /// has to be written.
    pub fn make_patch_meta(
        &self,
        patch_name: &str,
        oid: &ObjectId,
        previous: Option<&PreviousState>,
    ) -> (r: Option<ObjectId>)
        ensures
            match r {
                Some(blob) => reuse_of(
                    PatchView { name: patch_name@, oid: oid@ },
                    match previous {
                        Some(p) => Some(p@),
                        None => None,
                    },
                ) == Some(blob@),
                None => reuse_of(
                    PatchView { name: patch_name@, oid: oid@ },
                    match previous {
                        Some(p) => Some(p@),
                        None => None,
                    },
                ) is None,
            },
            match previous {
                Some(p) => p@.state.has(patch_name@) && p@.state.patches()[patch_name@] == oid@
                    && p@.has_blob(patch_name@) ==> match r {
                    Some(blob) => blob@ == p@.blob(patch_name@),
                    None => false,
                },
                None => r is None,
            },
    {
        match previous {
            Some(p) => {
                match p.state.patch_oid(patch_name) {
                    Some(id) => {
                        if id == *oid {
                            find_blob(&p.patch_blobs, patch_name, Ghost(p@))
                        } else {
                            None
                        }
                    },
                    None => None,
                }
            },
            None => None,
        }
    }

    fn meta_entries(
        &self,
        list: &Vec<PatchDescriptor>,
        previous: Option<&PreviousState>,
        out: &mut Vec<PatchMetaEntry>,
    )
        ensures
            final(out)@.len() == old(out)@.len() + list@.len(),
            forall|i: int| 0 <= i < old(out)@.len() ==> final(out)@[i] == old(out)@[i],
            forall|i: int|
                0 <= i < list@.len() ==> (#[trigger] final(out)@[old(out)@.len() + i])@
                    == (PatchMetaEntryView {
                    name: list@[i].name@,
                    oid: list@[i].oid@,
                    reuse: reuse_of(
                        list@[i]@,
                        match previous {
                            Some(p) => Some(p@),
                            None => None,
                        },
                    ),
                }),
    {
        let ghost pv = match previous {
            Some(p) => Some(p@),
            None => None,
        };
        let ghost base = out@;
        let mut i: usize = 0;
        while i < list.len()
            invariant
                i <= list.len(),
                base == old(out)@,
                pv == match previous {
                    Some(p) => Some(p@),
                    None => None,
                },
                out@.len() == base.len() + i,
                forall|k: int| 0 <= k < base.len() ==> out@[k] == base[k],
                forall|k: int|
                    0 <= k < i ==> (#[trigger] out@[base.len() + k])@ == (PatchMetaEntryView {
                        name: list@[k].name@,
                        oid: list@[k].oid@,
                        reuse: reuse_of(list@[k]@, pv),
                    }),
            decreases list.len() - i,
        {
            let patch = &list[i];
            let reuse = self.make_patch_meta(patch.name.as_str(), &patch.oid, previous);
            out.push(PatchMetaEntry { name: patch.name.clone(), oid: patch.oid, reuse });
            i = i + 1;
        }
    }

    /// The entries of the `patches` tree of the state: one for each patch,
    /// in the order applied, unapplied, hidden. An entry takes over the blob
    /// of the state before where that state holds the patch under the same
    /// name with the same commit and its tree has a blob for it.
    pub fn make_patches_tree(&self, previous: Option<&PreviousState>) -> (r: Vec<PatchMetaEntry>)
        ensures
            r@.len() == self@.all().len(),
            forall|i: int|
                0 <= i < r@.len() ==> (#[trigger] r@[i])@ == patches_tree(
                    self@,
                    match previous {
                        Some(p) => Some(p@),
                        None => None,
                    },
                )[i],
    {
        let mut out: Vec<PatchMetaEntry> = Vec::new();
        let applied = self.applied();
        let unapplied = self.unapplied();
        let hidden = self.hidden();
        self.meta_entries(applied, previous, &mut out);
        self.meta_entries(unapplied, previous, &mut out);
        self.meta_entries(hidden, previous, &mut out);
        proof {
            let na = applied@.len() as int;
            let nu = unapplied@.len() as int;
            assert forall|i: int| 0 <= i < self@.all().len() implies self@.all()[i] == (if i < na {
                applied@[i]@
            } else if i < na + nu {
                unapplied@[i - na]@
            } else {
                hidden@[i - na - nu]@
            }) by {
                if i < na {
                    assert(patch_views(applied@)[i] == applied@[i]@);
                } else if i < na + nu {
                    assert(patch_views(unapplied@)[i - na] == unapplied@[i - na]@);
                } else {
                    assert(patch_views(hidden@)[i - na - nu] == hidden@[i - na - nu]@);
                }
            }
            assert forall|i: int| 0 <= i < out@.len() implies (#[trigger] out@[i])@
                == patches_tree(
                self@,
                match previous {
                    Some(p) => Some(p@),
                    None => None,
                },
            )[i] by {
                if i < na {
                    assert(out@[0 + i]@.oid == applied@[i].oid@);
                } else if i < na + nu {
                    assert(out@[na + (i - na)]@.oid == unapplied@[i - na].oid@);
                } else {
                    assert(out@[na + nu + (i - na - nu)]@.oid == hidden@[i - na - nu].oid@);
                }
            }
        }
        out
    }

    /// The commits that the state refers to and the state before it did
    /// not, each once: of the head, the top, and the unapplied and the
    /// hidden patches, in that order, those that are not the commit of a
    /// patch of the state before. The commit of the state before is not
    /// among them.
    pub fn novelty(&self, previous: Option<&StackState>) -> (r: Vec<ObjectId>)
        ensures
            oid_views(r@) == novelty(
                self@,
                match previous {
                    Some(p) => Some(p@),
                    None => None,
                },
            ),
    {
        let mut cands: Vec<ObjectId> = Vec::new();
        cands.push(self.head());
        cands.push(self.top());
        let mut more = oids_of(self.unapplied());
        let ghost u = more@;
        cands.append(&mut more);
        let mut more = oids_of(self.hidden());
        let ghost h = more@;
        cands.append(&mut more);
        let prev = self.prev();
        proof {
            assert(oid_views(cands@) =~= seq![self@.head, self@.top()] + oid_views(u) + oid_views(
                h,
            ));
        }
        let excluded: Vec<ObjectId> = match previous {
            Some(p) => {
                if prev.is_some() {
                    let mut e = oids_of(p.applied());
                    let ghost pa = e@;
                    let mut more = oids_of(p.unapplied());
                    let ghost pu = more@;
                    e.append(&mut more);
                    let mut more = oids_of(p.hidden());
                    let ghost ph = more@;
                    e.append(&mut more);
                    proof {
                        assert(e@ == pa + pu + ph);
                        assert(oid_views(e@) =~= oid_views(pa) + oid_views(pu) + oid_views(ph));
                        assert(patch_oids(p@.all()) =~= patch_oids(p@.applied) + patch_oids(
                            p@.unapplied,
                        ) + patch_oids(p@.hidden));
                    }
                    e
                } else {
                    Vec::new()
                }
            },
            None => Vec::new(),
        };
        let ghost ex = oid_views(excluded@);
        assert(ex =~= match previous {
            Some(p) => if self@.prev is Some {
                patch_oids(p@.all())
            } else {
                Seq::<Seq<u8>>::empty()
            },
            None => Seq::<Seq<u8>>::empty(),
        });
        let mut out: Vec<ObjectId> = Vec::new();
        let mut i: usize = 0;
        while i < cands.len()
            invariant
                i <= cands.len(),
                ex == oid_views(excluded@),
                oid_views(out@) == keep_new(oid_views(cands@).take(i as int), ex),
            decreases cands.len() - i,
        {
            let c = cands[i];
            proof {
                let next = oid_views(cands@).take(i + 1);
                assert(next.drop_last() =~= oid_views(cands@).take(i as int));
                assert(next.last() == c@);
            }
            if !oid_in(&excluded, &c) && !oid_in(&out, &c) {
                out.push(c);
                assert(oid_views(out@) =~= keep_new(oid_views(cands@).take(i as int), ex).push(c@));
            }
            i = i + 1;
        }
        assert(oid_views(cands@).take(cands@.len() as int) =~= oid_views(cands@));
        out
    }

    /// What has to be written to record the state: the state file, the
    /// `patches` tree, and the commits. The parents of the state commit
    /// are its simplified commit, and after it the commits of `novelty`:
    /// the head, the top, and the unapplied and hidden patches, less the
    /// commits of the patches of the state before. The commit of the state
    /// before is no parent of the state commit. Where `novelty` has more
    /// than sixteen commits they are folded into grouping commits of
    /// sixteen parents until at most sixteen are left. A grouping commit
    /// refers to grouping commits before it only.
    ///
    /// A state that names a state before it cannot be recorded without that
    /// state; one that names none makes no use of `previous`.
    pub fn commit(&self, previous: Option<&PreviousState>) -> (r: Result<CommitPlan, StackError>)
        ensures
            match r {
                Ok(plan) => {
                    let used = if self@.prev is Some {
                        match previous {
                            Some(p) => Some(p@),
                            None => None,
                        }
                    } else {
                        None
                    };
                    let before = match used {
                        Some(p) => Some(p.state),
                        None => None,
                    };
                    let folded = fold_parents(
                        object_refs(novelty(self@, before)),
                        Seq::<Seq<ParentRefView>>::empty(),
                    );
                    &&& !(self@.prev is Some && previous is None)
                    &&& plan.stack_json@ == self@.encoded()
                    &&& plan.patches_tree@.len() == self@.all().len()
                    &&& forall|i: int|
                        0 <= i < plan.patches_tree@.len() ==> (#[trigger] plan.patches_tree@[i])@
                            == patches_tree(self@, used)[i]
                    &&& (match plan.follows {
                        Some(id) => self@.prev == Some(id@),
                        None => self@.prev is None,
                    })
                    &&& group_views(plan.groups@) == folded.groups
                    &&& ref_views(plan.parents@) == folded.parents
                    &&& refers_below(folded.parents, folded.groups.len() as int)
                    &&& forall|j: int|
                        0 <= j < folded.groups.len() ==> refers_below(#[trigger] folded.groups[j], j)
                    &&& plan.parents@.len() <= MAX_PARENTS
                    &&& forall|j: int|
                        0 <= j < plan.groups@.len() ==> (#[trigger] plan.groups@[j])@.len()
                            <= MAX_PARENTS
                },
                Err(e) => self@.prev is Some && previous is None && e is PreviousStateMissing,
            },
    {
        let prev = self.prev();
        if prev.is_some() && previous.is_none() {
            return Err(StackError::PreviousStateMissing);
        }
        let used: Option<&PreviousState> = if prev.is_some() {
            previous
        } else {
            None
        };
        let before: Option<&StackState> = match used {
            Some(p) => Some(&p.state),
            None => None,
        };
        let objects = self.novelty(before);
        let ghost start = object_refs(oid_views(objects@));
        proof {
            lemma_plan_order(oid_views(objects@));
            lemma_parent_bounds(oid_views(objects@));
        }
        let mut list: Vec<ParentRef> = Vec::new();
        let mut i: usize = 0;
        while i < objects.len()
            invariant
                i <= objects.len(),
                list@.len() == i,
                forall|k: int| 0 <= k < i ==> (#[trigger] list@[k])@ == ParentRefView::Object(objects@[k]@),
            decreases objects.len() - i,
        {
            list.push(ParentRef::Object(objects[i]));
            i = i + 1;
        }
        assert(ref_views(list@) =~= start);
        let mut groups: Vec<Vec<ParentRef>> = Vec::new();
        assert(group_views(groups@) =~= Seq::<Seq<ParentRefView>>::empty());
        while list.len() > MAX_PARENTS
            invariant
                fold_parents(ref_views(list@), group_views(groups@)) == fold_parents(
                    start,
                    Seq::<Seq<ParentRefView>>::empty(),
                ),
            decreases list.len(),
        {
            let cut = list.len() - MAX_PARENTS;
            let ghost before_list = ref_views(list@);
            let ghost before_groups = group_views(groups@);
            let group = list.split_off(cut);
            list.push(ParentRef::Group(groups.len()));
            groups.push(group);
            proof {
                assert(ref_views(list@) =~= before_list.take(cut as int).push(
                    ParentRefView::Group(before_groups.len() as int),
                ));
                assert(ref_views(group@) =~= before_list.skip(cut as int));
                assert(group_views(groups@) =~= before_groups.push(before_list.skip(cut as int)));
            }
        }
        proof {
            assert forall|j: int| 0 <= j < groups@.len() implies (#[trigger] groups@[j])@.len()
                <= MAX_PARENTS by {
                assert(group_views(groups@)[j].len() == groups@[j]@.len());
            }
        }
        Ok(
            CommitPlan {
                stack_json: self.serialize(),
                patches_tree: self.make_patches_tree(used),
                follows: prev,
                groups,
                parents: list,
            },
        )
    }
}

} // verus!
