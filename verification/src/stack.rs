//! The stack state: which patches are applied, unapplied and hidden, the
//! commit each one names, the branch head, and the link to the state before.

use vstd::prelude::*;
use vstd::string::StringExecFns;
use crate::oid::{ObjectId, bytes_of_hex, hex_of, is_oid_hex, lemma_hex_round_trip};
use crate::text::{clone_names, find_name, has_duplicate, str_eq, to_chars, views};

verus! {

/// Largest number of parents given to a grouping commit.
pub const MAX_PARENTS: usize = 16;

/// The reference that owns the stack of `branch`.
pub fn stack_ref_from_branch(branch: &str) -> (r: String)
    ensures
        r@ == "refs/stacks/"@ + branch@,
{
    let mut r = String::from_str("refs/stacks/");
    r.append(branch);
    r
}

/// A patch: its name and the commit that holds it.
#[derive(Debug, PartialEq, Eq)]
pub struct PatchDescriptor {
    pub name: String,
    pub oid: ObjectId,
}

impl Clone for PatchDescriptor {
    fn clone(&self) -> (r: PatchDescriptor)
        ensures
            r == *self,
    {
        PatchDescriptor { name: self.name.clone(), oid: self.oid }
    }
}

/// What a patch descriptor stands for.
pub struct PatchView {
    pub name: Seq<char>,
    pub oid: Seq<u8>,
}

impl View for PatchDescriptor {
    type V = PatchView;

    open spec fn view(&self) -> PatchView {
        PatchView { name: self.name@, oid: self.oid@ }
    }
}

/// The views of a list of patches.
pub open spec fn patch_views(list: Seq<PatchDescriptor>) -> Seq<PatchView> {
    Seq::new(list.len(), |i: int| list[i]@)
}

/// The names of a list of patches, in order.
pub open spec fn patch_names(list: Seq<PatchView>) -> Seq<Seq<char>> {
    Seq::new(list.len(), |i: int| list[i].name)
}

/// The commits of a list of patches, in order.
pub open spec fn patch_oids(list: Seq<PatchView>) -> Seq<Seq<u8>> {
    Seq::new(list.len(), |i: int| list[i].oid)
}

/// A snapshot of a stack. No two of its patches share a name.
#[derive(Debug, PartialEq, Eq)]
pub struct StackState {
    prev: Option<ObjectId>,
    head: ObjectId,
    applied: Vec<PatchDescriptor>,
    unapplied: Vec<PatchDescriptor>,
    hidden: Vec<PatchDescriptor>,
}

/// What a stack state stands for.
pub struct StackStateView {
    /// The commit that recorded the state before this one, if there was one.
    pub prev: Option<Seq<u8>>,
    /// The commit that the applied patches stand on. The branch points at
    /// it while no patch is applied.
    pub head: Seq<u8>,
    /// The applied patches, bottom first.
    pub applied: Seq<PatchView>,
    /// The patches held aside.
    pub unapplied: Seq<PatchView>,
    /// The patches kept out of listings.
    pub hidden: Seq<PatchView>,
}

impl StackStateView {
    /// Every patch of the stack: applied, then unapplied, then hidden.
    pub open spec fn all(self) -> Seq<PatchView> {
        self.applied + self.unapplied + self.hidden
    }

    /// The names of all patches, in the order of `all`.
    pub open spec fn all_names(self) -> Seq<Seq<char>> {
        patch_names(self.all())
    }

    /// No name stands twice, within a list or across lists.
    pub open spec fn wf(self) -> bool {
        self.all_names().no_duplicates()
    }

    /// Every object id has its twenty bytes.
    pub open spec fn sized(self) -> bool {
        &&& self.head.len() == 20
        &&& self.prev matches Some(id) ==> id.len() == 20
        &&& forall|i: int| 0 <= i < self.all().len() ==> (#[trigger] self.all()[i]).oid.len() == 20
    }

    /// Whether the stack has a patch called `name`.
    pub open spec fn has(self, name: Seq<char>) -> bool {
        self.all_names().contains(name)
    }

    /// The patch table: the commit of each patch, by name.
    pub open spec fn patches(self) -> Map<Seq<char>, Seq<u8>> {
        Map::new(
            |name: Seq<char>| self.has(name),
            |name: Seq<char>| self.all()[self.all_names().index_of(name)].oid,
        )
    }

    /// The commit the branch points at: that of the last applied patch, or
    /// the head where nothing is applied.
    pub open spec fn top(self) -> Seq<u8> {
        if self.applied.len() > 0 {
            self.applied.last().oid
        } else {
            self.head
        }
    }
}

impl View for StackState {
    type V = StackStateView;

    closed spec fn view(&self) -> StackStateView {
        StackStateView {
            prev: match self.prev {
                Some(id) => Some(id@),
                None => None,
            },
            head: self.head@,
            applied: patch_views(self.applied@),
            unapplied: patch_views(self.unapplied@),
            hidden: patch_views(self.hidden@),
        }
    }
}

/// The state made of the given parts.
pub open spec fn parts_view(
    prev: Option<ObjectId>,
    head: ObjectId,
    applied: Seq<PatchDescriptor>,
    unapplied: Seq<PatchDescriptor>,
    hidden: Seq<PatchDescriptor>,
) -> StackStateView {
    StackStateView {
        prev: match prev {
            Some(id) => Some(id@),
            None => None,
        },
        head: head@,
        applied: patch_views(applied),
        unapplied: patch_views(unapplied),
        hidden: patch_views(hidden),
    }
}

/// Every patch of a list names a commit of twenty bytes.
pub proof fn lemma_oid_lengths(list: Seq<PatchDescriptor>)
    ensures
        forall|i: int| 0 <= i < list.len() ==> (#[trigger] patch_views(list)[i]).oid.len() == 20,
{
    assert forall|i: int| 0 <= i < list.len() implies (#[trigger] patch_views(list)[i]).oid.len()
        == 20 by {
        list[i].oid.lemma_len();
    }
}

/// A copy of a list of patches.
pub fn clone_patches(list: &Vec<PatchDescriptor>) -> (r: Vec<PatchDescriptor>)
    ensures
        r@ == list@,
{
    let mut out: Vec<PatchDescriptor> = Vec::new();
    let mut i: usize = 0;
    while i < list.len()
        invariant
            i <= list.len(),
            out@ == list@.take(i as int),
        decreases list.len() - i,
    {
        out.push(list[i].clone());
        i = i + 1;
    }
    assert(list@.take(list@.len() as int) == list@);
    out
}

/// The position of the first patch of `list` called `name`.
pub fn position_of(list: &Vec<PatchDescriptor>, name: &str) -> (r: Option<usize>)
    ensures
        r is Some <==> patch_names(patch_views(list@)).contains(name@),
        r matches Some(i) ==> i < list.len() && list[i as int].name@ == name@ && forall|j: int|
            0 <= j < i ==> list[j].name@ != name@,
{
    let ghost names = patch_names(patch_views(list@));
    let mut i: usize = 0;
    while i < list.len()
        invariant
            i <= list.len(),
            names == patch_names(patch_views(list@)),
            forall|j: int| 0 <= j < i ==> list[j].name@ != name@,
        decreases list.len() - i,
    {
        if str_eq(list[i].name.as_str(), name) {
            assert(names[i as int] == name@);
            return Some(i);
        }
        i = i + 1;
    }
    assert forall|j: int| 0 <= j < names.len() implies names[j] != name@ by {
        assert(names[j] == list[j].name@);
    }
    None
}

impl StackState {
    #[verifier::type_invariant]
    spec fn inv(&self) -> bool {
        self@.all_names().no_duplicates()
    }

    /// The state of a stack that has just been set up on a branch whose tip
    /// is `head`: no patches, and no state before it.
    pub fn new(head: ObjectId) -> (r: StackState)
        ensures
            r@.prev is None,
            r@.head == head@,
            r@.applied.len() == 0,
            r@.unapplied.len() == 0,
            r@.hidden.len() == 0,
            r@.wf(),
    {
        let r = StackState {
            prev: None,
            head,
            applied: Vec::new(),
            unapplied: Vec::new(),
            hidden: Vec::new(),
        };
        r.well_formed();
        r
    }

    /// Every state that exists is well formed, with object ids of twenty
    /// bytes.
    pub fn well_formed(&self)
        ensures
            self@.wf(),
            self@.sized(),
    {
        proof {
            use_type_invariant(self);
            self.head.lemma_len();
            match self.prev {
                Some(id) => id.lemma_len(),
                None => {},
            }
            lemma_oid_lengths(self.applied@ + self.unapplied@ + self.hidden@);
            assert(self@.all() =~= patch_views(self.applied@ + self.unapplied@ + self.hidden@));
        }
    }

    /// The commit that recorded the state before this one.
    pub fn prev(&self) -> (r: Option<ObjectId>)
        ensures
            r is Some <==> self@.prev is Some,
            r matches Some(id) ==> self@.prev == Some(id@),
    {
        self.prev
    }

    /// The commit that the applied patches stand on.
    pub fn head(&self) -> (r: ObjectId)
        ensures
            r@ == self@.head,
    {
        self.head
    }

    /// The applied patches, bottom first.
    pub fn applied(&self) -> (r: &Vec<PatchDescriptor>)
        ensures
            patch_views(r@) == self@.applied,
    {
        &self.applied
    }

    /// The patches held aside.
    pub fn unapplied(&self) -> (r: &Vec<PatchDescriptor>)
        ensures
            patch_views(r@) == self@.unapplied,
    {
        &self.unapplied
    }

    /// The patches kept out of listings.
    pub fn hidden(&self) -> (r: &Vec<PatchDescriptor>)
        ensures
            patch_views(r@) == self@.hidden,
    {
        &self.hidden
    }

    /// The commit the branch points at: that of the last applied patch, or
    /// the head where nothing is applied.
    pub fn top(&self) -> (r: ObjectId)
        ensures
            r@ == self@.top(),
    {
        if self.applied.len() > 0 {
            self.applied[self.applied.len() - 1].oid
        } else {
            self.head
        }
    }
}

impl Clone for StackState {
    fn clone(&self) -> (r: StackState)
        ensures
            r@ == self@,
    {
        self.duplicate()
    }
}

/// Why a stack state could not be read.
#[derive(Clone, Copy, Debug, PartialEq, Eq, Structural)]
pub enum StateError {
    /// The version is not five.
    UnsupportedVersion,
    /// An object id is not spelt with forty hexadecimal digits.
    InvalidOid,
    /// A name stands twice in the lists, or twice in the patch table.
    DuplicateName,
    /// A list names a patch that the patch table lacks.
    MissingPatch,
    /// The patch table holds a patch that no list names.
    UnlistedPatch,
}

/// The persisted form of a patch descriptor.
#[derive(Debug, PartialEq, Eq)]
pub struct RawPatchDescriptor {
    pub oid: String,
}

/// The persisted form of a stack state, field for field.
#[derive(Debug, PartialEq, Eq)]
pub struct RawStackState {
    pub version: String,
    pub prev: Option<String>,
    pub head: String,
    pub applied: Vec<String>,
    pub unapplied: Vec<String>,
    pub hidden: Vec<String>,
    pub patches: Vec<(String, RawPatchDescriptor)>,
}

/// What a persisted stack state stands for.
pub struct RawStackStateView {
    pub version: Seq<char>,
    pub prev: Option<Seq<char>>,
    pub head: Seq<char>,
    pub applied: Seq<Seq<char>>,
    pub unapplied: Seq<Seq<char>>,
    pub hidden: Seq<Seq<char>>,
    /// The patch table: each name with the spelling of its commit.
    pub patches: Seq<(Seq<char>, Seq<char>)>,
}

impl View for RawStackState {
    type V = RawStackStateView;

    open spec fn view(&self) -> RawStackStateView {
        RawStackStateView {
            version: self.version@,
            prev: match self.prev {
                Some(p) => Some(p@),
                None => None,
            },
            head: self.head@,
            applied: views(self.applied@),
            unapplied: views(self.unapplied@),
            hidden: views(self.hidden@),
            patches: Seq::new(
                self.patches@.len(),
                |i: int| (self.patches@[i].0@, self.patches@[i].1.oid@),
            ),
        }
    }
}

/// Whether `s` is a decimal numeral of value five: a `5`, with any number
/// of zeros before it.
pub open spec fn is_version_five(s: Seq<char>) -> bool {
    &&& s.len() > 0
    &&& s.last() == '5'
    &&& forall|i: int| 0 <= i < s.len() - 1 ==> s[i] == '0'
}

impl RawStackStateView {
    /// The names of the patch table, in its order.
    pub open spec fn keys(self) -> Seq<Seq<char>> {
        Seq::new(self.patches.len(), |i: int| self.patches[i].0)
    }

    /// The names of the three lists: applied, then unapplied, then hidden.
    pub open spec fn listed(self) -> Seq<Seq<char>> {
        self.applied + self.unapplied + self.hidden
    }

    /// Whether every object id is spelt with forty hexadecimal digits.
    pub open spec fn oids_valid(self) -> bool {
        &&& self.prev matches Some(p) ==> is_oid_hex(p)
        &&& is_oid_hex(self.head)
        &&& forall|i: int| 0 <= i < self.patches.len() ==> is_oid_hex((#[trigger] self.patches[i]).1)
    }

    /// What is wrong with the persisted state, if anything: the first of the
    /// faults in the order of `StateError`.
    pub open spec fn error(self) -> Option<StateError> {
        if !is_version_five(self.version) {
            Some(StateError::UnsupportedVersion)
        } else if !self.oids_valid() {
            Some(StateError::InvalidOid)
        } else if !self.listed().no_duplicates() || !self.keys().no_duplicates() {
            Some(StateError::DuplicateName)
        } else if exists|i: int|
            0 <= i < self.listed().len() && !self.keys().contains(#[trigger] self.listed()[i]) {
            Some(StateError::MissingPatch)
        } else if exists|i: int|
            0 <= i < self.keys().len() && !self.listed().contains(#[trigger] self.keys()[i]) {
            Some(StateError::UnlistedPatch)
        } else {
            None
        }
    }

    /// The commit that the patch table gives for `name`.
    pub open spec fn oid_of(self, name: Seq<char>) -> Seq<u8> {
        bytes_of_hex(self.patches[self.keys().index_of(name)].1)
    }

    /// The patches that a list of names stands for.
    pub open spec fn decode_list(self, names: Seq<Seq<char>>) -> Seq<PatchView> {
        Seq::new(names.len(), |i: int| PatchView { name: names[i], oid: self.oid_of(names[i]) })
    }

    /// The state that a faultless persisted state stands for.
    pub open spec fn decoded(self) -> StackStateView {
        StackStateView {
            prev: match self.prev {
                Some(p) => Some(bytes_of_hex(p)),
                None => None,
            },
            head: bytes_of_hex(self.head),
            applied: self.decode_list(self.applied),
            unapplied: self.decode_list(self.unapplied),
            hidden: self.decode_list(self.hidden),
        }
    }
}

impl StackStateView {
    /// The persisted form of the state: version `5`, every object id spelt
    /// in lower-case hexadecimal, the lists by name, and a patch table with
    /// one entry a patch.
    pub open spec fn encoded(self) -> RawStackStateView {
        RawStackStateView {
            version: seq!['5'],
            prev: match self.prev {
                Some(p) => Some(hex_of(p)),
                None => None,
            },
            head: hex_of(self.head),
            applied: patch_names(self.applied),
            unapplied: patch_names(self.unapplied),
            hidden: patch_names(self.hidden),
            patches: Seq::new(self.all().len(), |i: int| (self.all()[i].name, hex_of(self.all()[i].oid))),
        }
    }
}

/// Reading what was written gives the state back: the persisted form of a
/// well-formed state, whose object ids have their twenty bytes, has no
/// fault, and stands for that state.
pub proof fn lemma_round_trip(s: StackStateView)
    requires
        s.wf(),
        s.sized(),
    ensures
        s.encoded().error() is None,
        s.encoded().decoded() == s,
{
    let raw = s.encoded();
    let all = s.all();
    let names = s.all_names();
    let na = s.applied.len() as int;
    let nu = s.unapplied.len() as int;
    assert(raw.keys() =~= names);
    assert(raw.listed() =~= names);
    assert(raw.version.last() == '5');
    match s.prev {
        Some(p) => lemma_hex_round_trip(p),
        None => {},
    }
    lemma_hex_round_trip(s.head);
    assert forall|i: int| 0 <= i < raw.patches.len() implies is_oid_hex(
        (#[trigger] raw.patches[i]).1,
    ) by {
        lemma_hex_round_trip(all[i].oid);
    }
    assert forall|i: int| 0 <= i < raw.listed().len() implies raw.keys().contains(
        #[trigger] raw.listed()[i],
    ) by {
        assert(raw.keys()[i] == raw.listed()[i]);
    }
    assert forall|i: int| 0 <= i < raw.keys().len() implies raw.listed().contains(
        #[trigger] raw.keys()[i],
    ) by {
        assert(raw.listed()[i] == raw.keys()[i]);
    }
    assert forall|i: int| 0 <= i < all.len() implies raw.oid_of(#[trigger] names[i])
        == all[i].oid by {
        let k = raw.keys().index_of(names[i]);
        assert(raw.keys()[i] == names[i]);
        assert(raw.keys()[k] == names[i]);
        assert(k == i);
        lemma_hex_round_trip(all[i].oid);
    }
    assert forall|i: int| 0 <= i < s.applied.len() implies raw.decode_list(raw.applied)[i]
        == s.applied[i] by {
        assert(all[i] == s.applied[i]);
        assert(names[i] == s.applied[i].name);
    }
    assert forall|i: int| 0 <= i < s.unapplied.len() implies raw.decode_list(raw.unapplied)[i]
        == s.unapplied[i] by {
        assert(all[na + i] == s.unapplied[i]);
        assert(names[na + i] == s.unapplied[i].name);
    }
    assert forall|i: int| 0 <= i < s.hidden.len() implies raw.decode_list(raw.hidden)[i]
        == s.hidden[i] by {
        assert(all[na + nu + i] == s.hidden[i]);
        assert(names[na + nu + i] == s.hidden[i].name);
    }
    assert(raw.decode_list(raw.applied) =~= s.applied);
    assert(raw.decode_list(raw.unapplied) =~= s.unapplied);
    assert(raw.decode_list(raw.hidden) =~= s.hidden);
}

fn version_is_five(version: &str) -> (r: bool)
    ensures
        r == is_version_five(version@),
{
    let chars = to_chars(version);
    if chars.len() == 0 {
        return false;
    }
    if chars[chars.len() - 1] != '5' {
        return false;
    }
    let mut i: usize = 0;
    while i < chars.len() - 1
        invariant
            i <= chars.len() - 1,
            chars@ == version@,
            forall|j: int| 0 <= j < i ==> chars@[j] == '0',
        decreases chars.len() - i,
    {
        if chars[i] != '0' {
            return false;
        }
        i = i + 1;
    }
    true
}

/// The names of a list of patches.
pub fn names_of(list: &Vec<PatchDescriptor>) -> (r: Vec<String>)
    ensures
        views(r@) == patch_names(patch_views(list@)),
{
    let mut out: Vec<String> = Vec::new();
    let mut i: usize = 0;
    while i < list.len()
        invariant
            i <= list.len(),
            out@.len() == i,
            forall|j: int| 0 <= j < i ==> out@[j]@ == list@[j].name@,
        decreases list.len() - i,
    {
        out.push(list[i].name.clone());
        i = i + 1;
    }
    assert(views(out@) =~= patch_names(patch_views(list@)));
    out
}

fn decode_names(
    names: &Vec<String>,
    keys: &Vec<String>,
    oids: &Vec<ObjectId>,
    Ghost(raw): Ghost<RawStackStateView>,
) -> (r: Option<Vec<PatchDescriptor>>)
    requires
        views(keys@) == raw.keys(),
        raw.keys().no_duplicates(),
        oids.len() == keys.len(),
        forall|i: int| 0 <= i < oids.len() ==> oids[i]@ == bytes_of_hex(raw.patches[i].1),
    ensures
        r is Some <==> forall|i: int|
            0 <= i < names.len() ==> raw.keys().contains(#[trigger] views(names@)[i]),
        r matches Some(list) ==> patch_views(list@) == raw.decode_list(views(names@)),
{
    let mut out: Vec<PatchDescriptor> = Vec::new();
    let mut i: usize = 0;
    while i < names.len()
        invariant
            i <= names.len(),
            views(keys@) == raw.keys(),
            raw.keys().no_duplicates(),
            oids.len() == keys.len(),
            forall|k: int| 0 <= k < oids.len() ==> oids[k]@ == bytes_of_hex(raw.patches[k].1),
            out@.len() == i,
            forall|k: int| 0 <= k < i ==> raw.keys().contains(#[trigger] views(names@)[k]),
            forall|k: int|
                0 <= k < i ==> (#[trigger] out@[k])@ == raw.decode_list(views(names@))[k],
        decreases names.len() - i,
    {
        match find_name(keys, names[i].as_str()) {
            Some(k) => {
                proof {
                    let name = names[i as int]@;
                    assert(views(names@)[i as int] == name);
                    assert(raw.keys()[k as int] == name);
                    let c = raw.keys().index_of(name);
                    assert(raw.keys()[c] == name);
                    assert(c == k);
                }
                out.push(PatchDescriptor { name: names[i].clone(), oid: oids[k] });
            },
            None => {
                assert(!raw.keys().contains(views(names@)[i as int]));
                return None;
            },
        }
        i = i + 1;
    }
    assert(patch_views(out@) =~= raw.decode_list(views(names@)));
    Some(out)
}

fn all_listed(keys: &Vec<String>, listed: &Vec<String>) -> (r: bool)
    ensures
        r == forall|i: int|
            0 <= i < keys.len() ==> views(listed@).contains(#[trigger] views(keys@)[i]),
{
    let mut i: usize = 0;
    while i < keys.len()
        invariant
            i <= keys.len(),
            forall|k: int| 0 <= k < i ==> views(listed@).contains(#[trigger] views(keys@)[k]),
        decreases keys.len() - i,
    {
        if find_name(listed, keys[i].as_str()).is_none() {
            assert(!views(listed@).contains(views(keys@)[i as int]));
            return false;
        }
        i = i + 1;
    }
    true
}

impl StackState {
    /// The persisted form of the state.
    pub fn serialize(&self) -> (raw: RawStackState)
        ensures
            raw@ == self@.encoded(),
    {
        proof {
            reveal_strlit("5");
        }
        let version = String::from_str("5");
        assert(version@ =~= seq!['5']);
        let prev = match self.prev {
            Some(id) => Some(id.to_hex()),
            None => None,
        };
        let mut patches: Vec<(String, RawPatchDescriptor)> = Vec::new();
        let ghost all = self.applied@ + self.unapplied@ + self.hidden@;
        let mut i: usize = 0;
        while i < self.applied.len()
            invariant
                i <= self.applied.len(),
                patches@.len() == i,
                forall|k: int|
                    0 <= k < i ==> (#[trigger] patches@[k]).0@ == self.applied@[k].name@
                        && patches@[k].1.oid@ == hex_of(self.applied@[k].oid@),
            decreases self.applied.len() - i,
        {
            let p = &self.applied[i];
            patches.push((p.name.clone(), RawPatchDescriptor { oid: p.oid.to_hex() }));
            i = i + 1;
        }
        let mut i: usize = 0;
        while i < self.unapplied.len()
            invariant
                i <= self.unapplied.len(),
                patches@.len() == self.applied.len() + i,
                forall|k: int|
                    0 <= k < self.applied.len() ==> (#[trigger] patches@[k]).0@
                        == self.applied@[k].name@ && patches@[k].1.oid@ == hex_of(
                        self.applied@[k].oid@,
                    ),
                forall|k: int|
                    0 <= k < i ==> (#[trigger] patches@[self.applied.len() + k]).0@
                        == self.unapplied@[k].name@ && patches@[self.applied.len() + k].1.oid@
                        == hex_of(self.unapplied@[k].oid@),
            decreases self.unapplied.len() - i,
        {
            let p = &self.unapplied[i];
            patches.push((p.name.clone(), RawPatchDescriptor { oid: p.oid.to_hex() }));
            i = i + 1;
        }
        let mut i: usize = 0;
        let ghost n = self.applied.len() + self.unapplied.len();
        while i < self.hidden.len()
            invariant
                i <= self.hidden.len(),
                n == self.applied.len() + self.unapplied.len(),
                patches@.len() == n + i,
                forall|k: int|
                    0 <= k < self.applied.len() ==> (#[trigger] patches@[k]).0@
                        == self.applied@[k].name@ && patches@[k].1.oid@ == hex_of(
                        self.applied@[k].oid@,
                    ),
                forall|k: int|
                    0 <= k < self.unapplied.len() ==> (#[trigger] patches@[self.applied.len() + k]).0@
                        == self.unapplied@[k].name@ && patches@[self.applied.len() + k].1.oid@
                        == hex_of(self.unapplied@[k].oid@),
                forall|k: int|
                    0 <= k < i ==> (#[trigger] patches@[n + k]).0@ == self.hidden@[k].name@
                        && patches@[n + k].1.oid@ == hex_of(self.hidden@[k].oid@),
            decreases self.hidden.len() - i,
        {
            let p = &self.hidden[i];
            patches.push((p.name.clone(), RawPatchDescriptor { oid: p.oid.to_hex() }));
            i = i + 1;
        }
        let raw = RawStackState {
            version,
            prev,
            head: self.head.to_hex(),
            applied: names_of(&self.applied),
            unapplied: names_of(&self.unapplied),
            hidden: names_of(&self.hidden),
            patches,
        };
        proof {
            let e = self@.encoded();
            assert forall|k: int| 0 <= k < raw@.patches.len() implies raw@.patches[k]
                == e.patches[k] by {
                if k < self.applied.len() {
                    assert(self@.all()[k] == self.applied@[k]@);
                } else if k < n {
                    let j = k - self.applied.len();
                    assert(patches@[self.applied.len() + j].0@ == self.unapplied@[j].name@);
                    assert(self@.all()[k] == self.unapplied@[j]@);
                } else {
                    let j = k - n;
                    assert(patches@[n + j].0@ == self.hidden@[j].name@);
                    assert(self@.all()[k] == self.hidden@[j]@);
                }
            }
            assert(raw@.patches =~= e.patches);
        }
        raw
    }

    /// Reads a persisted state. It is refused with the first fault that
    /// `RawStackStateView::error` names; without fault, the result is the
    /// state that the persisted form stands for.
    pub fn deserialize(raw: &RawStackState) -> (r: Result<StackState, StateError>)
        ensures
            match r {
                Ok(s) => raw@.error() is None && s@ == raw@.decoded() && s@.wf(),
                Err(e) => raw@.error() == Some(e),
            },
    {
        if !version_is_five(raw.version.as_str()) {
            return Err(StateError::UnsupportedVersion);
        }
        let prev = match &raw.prev {
            Some(p) => match ObjectId::from_hex(p.as_str()) {
                Some(id) => Some(id),
                None => {
                    return Err(StateError::InvalidOid);
                },
            },
            None => None,
        };
        let head = match ObjectId::from_hex(raw.head.as_str()) {
            Some(id) => id,
            None => {
                return Err(StateError::InvalidOid);
            },
        };
        let mut keys: Vec<String> = Vec::new();
        let mut oids: Vec<ObjectId> = Vec::new();
        let mut i: usize = 0;
        while i < raw.patches.len()
            invariant
                i <= raw.patches.len(),
                is_version_five(raw@.version),
                keys.len() == i,
                oids.len() == i,
                forall|k: int| 0 <= k < i ==> keys@[k]@ == raw@.patches[k].0,
                forall|k: int| 0 <= k < i ==> is_oid_hex((#[trigger] raw@.patches[k]).1),
                forall|k: int| 0 <= k < i ==> oids[k]@ == bytes_of_hex(raw@.patches[k].1),
            decreases raw.patches.len() - i,
        {
            let entry = &raw.patches[i];
            match ObjectId::from_hex(entry.1.oid.as_str()) {
                Some(id) => {
                    keys.push(entry.0.clone());
                    oids.push(id);
                },
                None => {
                    assert(raw@.patches[i as int].1 == entry.1.oid@);
                    assert(!is_oid_hex(raw@.patches[i as int].1));
                    assert(!raw@.oids_valid());
                    return Err(StateError::InvalidOid);
                },
            }
            i = i + 1;
        }
        assert(raw@.oids_valid());
        assert(views(keys@) =~= raw@.keys());
        let mut listed = clone_names(&raw.applied);
        let mut more = clone_names(&raw.unapplied);
        listed.append(&mut more);
        let mut more = clone_names(&raw.hidden);
        listed.append(&mut more);
        assert(views(listed@) =~= raw@.listed());
        if has_duplicate(&listed) || has_duplicate(&keys) {
            return Err(StateError::DuplicateName);
        }
        let applied = decode_names(&raw.applied, &keys, &oids, Ghost(raw@));
        let unapplied = decode_names(&raw.unapplied, &keys, &oids, Ghost(raw@));
        let hidden = decode_names(&raw.hidden, &keys, &oids, Ghost(raw@));
        let ghost na = raw.applied.len() as int;
        let ghost nu = raw.unapplied.len() as int;
        proof {
            assert forall|k: int| 0 <= k < raw.applied.len() implies raw@.listed()[k] == views(
                raw.applied@,
            )[k] by {}
            assert forall|k: int| 0 <= k < raw.unapplied.len() implies raw@.listed()[na + k]
                == views(raw.unapplied@)[k] by {}
            assert forall|k: int| 0 <= k < raw.hidden.len() implies raw@.listed()[na + nu + k]
                == views(raw.hidden@)[k] by {}
        }
        match (applied, unapplied, hidden) {
            (Some(applied), Some(unapplied), Some(hidden)) => {
                proof {
                    assert forall|k: int| 0 <= k < raw@.listed().len() implies raw@.keys().contains(
                        #[trigger] raw@.listed()[k],
                    ) by {
                        if k < na {
                            assert(raw@.listed()[k] == views(raw.applied@)[k]);
                        } else if k < na + nu {
                            assert(raw@.listed()[k] == views(raw.unapplied@)[k - na]);
                        } else {
                            assert(raw@.listed()[k] == views(raw.hidden@)[k - na - nu]);
                        }
                    }
                }
                if !all_listed(&keys, &listed) {
                    return Err(StateError::UnlistedPatch);
                }
                let ghost d = raw@.decoded();
                assert(patch_names(d.all()) =~= raw@.listed());
                let s = StackState { prev, head, applied, unapplied, hidden };
                assert(s@ == d);
                s.well_formed();
                Ok(s)
            },
            _ => {
                proof {
                    if applied is None {
                        let k = choose|k: int|
                            0 <= k < raw.applied.len() && !raw@.keys().contains(
                                #[trigger] views(raw.applied@)[k],
                            );
                        assert(!raw@.keys().contains(raw@.listed()[k]));
                    } else if unapplied is None {
                        let k = choose|k: int|
                            0 <= k < raw.unapplied.len() && !raw@.keys().contains(
                                #[trigger] views(raw.unapplied@)[k],
                            );
                        assert(!raw@.keys().contains(raw@.listed()[na + k]));
                    } else {
                        let k = choose|k: int|
                            0 <= k < raw.hidden.len() && !raw@.keys().contains(
                                #[trigger] views(raw.hidden@)[k],
                            );
                        assert(!raw@.keys().contains(raw@.listed()[na + nu + k]));
                    }
                }
                Err(StateError::MissingPatch)
            },
        }
    }
}

/// Why the stack of a branch could not be had.
#[derive(Debug, PartialEq, Eq)]
pub enum StackError {
    /// No branch was named and the repository's head points at none.
    HeadDetached,
    /// The named branch has no stack: its stack reference holds no state
    /// file, or one of another version.
    NotInitialized(String),
    /// The state file of the branch is of the right version and faulty.
    Invalid(StateError),
    /// The state names a state before it, and that state was not supplied.
    PreviousStateMissing,
}

/// The branch whose stack is meant: the one asked for, else the one that the
/// repository's head points at.
pub fn select_branch<'a>(requested: Option<&'a str>, head_branch: Option<&'a str>) -> (r: Result<
    &'a str,
    StackError,
>)
    ensures
        match r {
            Ok(name) => match requested {
                Some(b) => name@ == b@,
                None => head_branch matches Some(b) && name@ == b@,
            },
            Err(e) => requested is None && head_branch is None && e is HeadDetached,
        },
{
    match requested {
        Some(b) => Ok(b),
        None => match head_branch {
            Some(b) => Ok(b),
            None => Err(StackError::HeadDetached),
        },
    }
}

/// What `from_branch` answers for a branch and the state file found under
/// its stack reference.
pub open spec fn branch_state(branch: Seq<char>, found: Option<RawStackStateView>) -> Result<
    StackStateView,
    StackErrorView,
> {
    match found {
        None => Err(StackErrorView::NotInitialized(branch)),
        Some(raw) => match raw.error() {
            None => Ok(raw.decoded()),
            Some(StateError::UnsupportedVersion) => Err(StackErrorView::NotInitialized(branch)),
            Some(e) => Err(StackErrorView::Invalid(e)),
        },
    }
}

/// What a stack error stands for.
pub enum StackErrorView {
    HeadDetached,
    NotInitialized(Seq<char>),
    Invalid(StateError),
    PreviousStateMissing,
}

impl View for StackError {
    type V = StackErrorView;

    open spec fn view(&self) -> StackErrorView {
        match self {
            StackError::HeadDetached => StackErrorView::HeadDetached,
            StackError::NotInitialized(b) => StackErrorView::NotInitialized(b@),
            StackError::Invalid(e) => StackErrorView::Invalid(*e),
            StackError::PreviousStateMissing => StackErrorView::PreviousStateMissing,
        }
    }
}

/// Walks over the names of all patches of a state: the applied ones, then
/// the unapplied, then the hidden.
pub struct AllPatchesIter<'a> {
    state: &'a StackState,
    /// The list that the walk is in: 0, 1 or 2.
    part: u8,
    /// How many names of that list have been handed out.
    idx: usize,
}

impl<'a> AllPatchesIter<'a> {
    /// The names that the walk goes over, from its start.
    pub closed spec fn names(&self) -> Seq<Seq<char>> {
        self.state@.all_names()
    }

    /// How many names have been handed out.
    pub closed spec fn position(&self) -> int {
        if self.part == 0 {
            self.idx as int
        } else if self.part == 1 {
            self.state.applied@.len() + self.idx
        } else {
            self.state.applied@.len() + self.state.unapplied@.len() + self.idx
        }
    }

    #[verifier::type_invariant]
    spec fn inv(&self) -> bool {
        &&& self.part <= 2
        &&& self.part == 0 ==> self.idx <= self.state.applied@.len()
        &&& self.part == 1 ==> self.idx <= self.state.unapplied@.len()
        &&& self.part == 2 ==> self.idx <= self.state.hidden@.len()
    }

    /// The next name, or `None` when all have been handed out.
    pub fn next(&mut self) -> (r: Option<&'a String>)
        ensures
            final(self).names() == old(self).names(),
            0 <= old(self).position() <= old(self).names().len(),
            match r {
                Some(name) => old(self).position() < old(self).names().len() && name@ == old(
                    self,
                ).names()[old(self).position()] && final(self).position() == old(self).position()
                    + 1,
                None => old(self).position() == old(self).names().len() && final(self).position()
                    == old(self).position(),
            },
    {
        proof {
            use_type_invariant(&*self);
        }
        let state: &'a StackState = self.state;
        let ghost na = state.applied@.len() as int;
        let ghost nu = state.unapplied@.len() as int;
        assert(state@.all_names().len() == na + nu + state.hidden@.len());
        let mut part = self.part;
        let mut idx = self.idx;
        if part == 0 && idx == state.applied.len() {
            part = 1;
            idx = 0;
        }
        if part == 1 && idx == state.unapplied.len() {
            part = 2;
            idx = 0;
        }
        if part == 0 {
            assert(state@.all_names()[idx as int] == state.applied@[idx as int].name@);
            *self = AllPatchesIter { state, part, idx: idx + 1 };
            Some(&state.applied[idx].name)
        } else if part == 1 {
            assert(state@.all_names()[na + idx] == state.unapplied@[idx as int].name@);
            *self = AllPatchesIter { state, part, idx: idx + 1 };
            Some(&state.unapplied[idx].name)
        } else if idx < state.hidden.len() {
            assert(state@.all_names()[na + nu + idx] == state.hidden@[idx as int].name@);
            *self = AllPatchesIter { state, part, idx: idx + 1 };
            Some(&state.hidden[idx].name)
        } else {
            *self = AllPatchesIter { state, part, idx };
            None
        }
    }
}

impl StackState {
    /// The state of the stack of `branch`, from the state file found under
    /// its stack reference. No file, or one of another version, means that
    /// the branch has no stack; any other fault is reported as it is.
    pub fn from_branch(branch: &str, found: Option<&RawStackState>) -> (r: Result<
        StackState,
        StackError,
    >)
        ensures
            match r {
                Ok(s) => branch_state(
                    branch@,
                    match found {
                        Some(raw) => Some(raw@),
                        None => None,
                    },
                ) == Ok::<StackStateView, StackErrorView>(s@) && s@.wf(),
                Err(e) => branch_state(
                    branch@,
                    match found {
                        Some(raw) => Some(raw@),
                        None => None,
                    },
                ) == Err::<StackStateView, StackErrorView>(e@),
            },
    {
        match found {
            None => Err(StackError::NotInitialized(branch.to_owned())),
            Some(raw) => match StackState::deserialize(raw) {
                Ok(s) => Ok(s),
                Err(StateError::UnsupportedVersion) => Err(
                    StackError::NotInitialized(branch.to_owned()),
                ),
                Err(e) => Err(StackError::Invalid(e)),
            },
        }
    }

    /// A copy of the state.
    pub fn duplicate(&self) -> (r: StackState)
        ensures
            r@ == self@,
    {
        proof {
            use_type_invariant(self);
        }
        StackState {
            prev: self.prev,
            head: self.head,
            applied: clone_patches(&self.applied),
            unapplied: clone_patches(&self.unapplied),
            hidden: clone_patches(&self.hidden),
        }
    }

    /// The state with the given parts, which must not name a patch twice.
    pub(crate) fn from_parts(
        prev: Option<ObjectId>,
        head: ObjectId,
        applied: Vec<PatchDescriptor>,
        unapplied: Vec<PatchDescriptor>,
        hidden: Vec<PatchDescriptor>,
    ) -> (r: StackState)
        requires
            parts_view(prev, head, applied@, unapplied@, hidden@).all_names().no_duplicates(),
        ensures
            r@ == parts_view(prev, head, applied@, unapplied@, hidden@),
            r@.wf(),
    {
        let r = StackState { prev, head, applied, unapplied, hidden };
        r.well_formed();
        r
    }

    /// The state with the given parts. It is refused where a name stands
    /// twice, within a list or across lists.
    pub fn assemble(
        prev: Option<ObjectId>,
        head: ObjectId,
        applied: Vec<PatchDescriptor>,
        unapplied: Vec<PatchDescriptor>,
        hidden: Vec<PatchDescriptor>,
    ) -> (r: Result<StackState, StateError>)
        ensures
            match r {
                Ok(s) => s@ == parts_view(prev, head, applied@, unapplied@, hidden@) && s@.wf(),
                Err(e) => e == StateError::DuplicateName && !parts_view(
                    prev,
                    head,
                    applied@,
                    unapplied@,
                    hidden@,
                ).all_names().no_duplicates(),
            },
    {
        let ghost v = parts_view(prev, head, applied@, unapplied@, hidden@);
        let mut names = names_of(&applied);
        let ghost a = names@;
        let mut more = names_of(&unapplied);
        let ghost u = more@;
        names.append(&mut more);
        let mut more = names_of(&hidden);
        let ghost h = more@;
        names.append(&mut more);
        proof {
            assert(names@ == a + u + h);
            assert(views(names@) =~= views(a) + views(u) + views(h));
            assert(v.all_names() =~= patch_names(v.applied) + patch_names(v.unapplied)
                + patch_names(v.hidden));
        }
        if has_duplicate(&names) {
            Err(StateError::DuplicateName)
        } else {
            Ok(StackState::from_parts(prev, head, applied, unapplied, hidden))
        }
    }

    /// A walk over the names of all patches.
    pub fn all_patches(&self) -> (r: AllPatchesIter<'_>)
        ensures
            r.names() == self@.all_names(),
            r.position() == 0,
    {
        AllPatchesIter { state: self, part: 0, idx: 0 }
    }

    /// The names of all patches: applied, then unapplied, then hidden.
    pub fn all_names(&self) -> (r: Vec<String>)
        ensures
            views(r@) == self@.all_names(),
    {
        let mut names = names_of(&self.applied);
        let ghost a = names@;
        let mut more = names_of(&self.unapplied);
        let ghost u = more@;
        names.append(&mut more);
        let mut more = names_of(&self.hidden);
        let ghost h = more@;
        names.append(&mut more);
        proof {
            assert(names@ == a + u + h);
            assert(views(names@) =~= views(a) + views(u) + views(h));
            assert(self@.all_names() =~= patch_names(self@.applied) + patch_names(self@.unapplied)
                + patch_names(self@.hidden));
        }
        names
    }

    /// The commit of the patch called `name`, if the stack has one.
    pub fn patch_oid(&self, name: &str) -> (r: Option<ObjectId>)
        ensures
            r is Some <==> self@.has(name@),
            r matches Some(id) ==> self@.patches()[name@] == id@,
    {
        proof {
            use_type_invariant(self);
        }
        let ghost names = self@.all_names();
        let ghost na = self.applied@.len() as int;
        let ghost nu = self.unapplied@.len() as int;
        let a = position_of(&self.applied, name);
        let u = position_of(&self.unapplied, name);
        let h = position_of(&self.hidden, name);
        proof {
            let an = patch_names(self@.applied);
            let un = patch_names(self@.unapplied);
            let hn = patch_names(self@.hidden);
            assert(names =~= an + un + hn);
            if names.contains(name@) {
                let i = names.index_of(name@);
                if i < na {
                    assert(an[i] == name@);
                } else if i < na + nu {
                    assert(un[i - na] == name@);
                } else {
                    assert(hn[i - na - nu] == name@);
                }
            }
        }
        match (a, u, h) {
            (Some(i), _, _) => {
                proof {
                    assert(names[i as int] == name@);
                    assert(names.index_of(name@) == i);
                }
                Some(self.applied[i].oid)
            },
            (None, Some(i), _) => {
                proof {
                    assert(names[na + i] == name@);
                    assert(names.index_of(name@) == na + i);
                }
                Some(self.unapplied[i].oid)
            },
            (None, None, Some(i)) => {
                proof {
                    assert(names[na + nu + i] == name@);
                    assert(names.index_of(name@) == na + nu + i);
                }
                Some(self.hidden[i].oid)
            },
            (None, None, None) => None,
        }
    }
}

/// In a well-formed state the patch table has one entry for each name that
/// stands in a list and no other, each list's patches are found in it under
/// their own commits, and no name stands in two lists or twice in one.
pub proof fn lemma_domain_closure(s: StackStateView)
    requires
        s.wf(),
    ensures
        s.patches().dom() == patch_names(s.applied).to_set().union(
            patch_names(s.unapplied).to_set(),
        ).union(patch_names(s.hidden).to_set()),
        patch_names(s.applied).to_set().disjoint(patch_names(s.unapplied).to_set()),
        patch_names(s.applied).to_set().disjoint(patch_names(s.hidden).to_set()),
        patch_names(s.unapplied).to_set().disjoint(patch_names(s.hidden).to_set()),
        patch_names(s.applied).no_duplicates(),
        patch_names(s.unapplied).no_duplicates(),
        patch_names(s.hidden).no_duplicates(),
        forall|i: int|
            0 <= i < s.all().len() ==> s.patches()[#[trigger] s.all()[i].name] == s.all()[i].oid,
{
    let a = patch_names(s.applied);
    let u = patch_names(s.unapplied);
    let h = patch_names(s.hidden);
    let all = s.all_names();
    let na = a.len() as int;
    let nu = u.len() as int;
    assert(all =~= a + u + h);
    assert forall|i: int| 0 <= i < a.len() implies all[i] == #[trigger] a[i] by {}
    assert forall|i: int| 0 <= i < u.len() implies all[na + i] == #[trigger] u[i] by {}
    assert forall|i: int| 0 <= i < h.len() implies all[na + nu + i] == #[trigger] h[i] by {}
    assert forall|n: Seq<char>| a.contains(n) implies !u.contains(n) && !h.contains(n) by {
        let i = a.index_of(n);
        if u.contains(n) {
            let j = u.index_of(n);
            assert(all[i] == all[na + j]);
        }
        if h.contains(n) {
            let j = h.index_of(n);
            assert(all[i] == all[na + nu + j]);
        }
    }
    assert forall|n: Seq<char>| u.contains(n) implies !h.contains(n) by {
        let i = u.index_of(n);
        if h.contains(n) {
            let j = h.index_of(n);
            assert(all[na + i] == all[na + nu + j]);
        }
    }
    assert forall|i: int, j: int| 0 <= i < j < a.len() implies a[i] != a[j] by {
        assert(all[i] == a[i] && all[j] == a[j]);
    }
    assert forall|i: int, j: int| 0 <= i < j < u.len() implies u[i] != u[j] by {
        assert(all[na + i] == u[i] && all[na + j] == u[j]);
    }
    assert forall|i: int, j: int| 0 <= i < j < h.len() implies h[i] != h[j] by {
        assert(all[na + nu + i] == h[i] && all[na + nu + j] == h[j]);
    }
    assert forall|n: Seq<char>| all.contains(n) <==> (a.contains(n) || u.contains(n) || h.contains(
        n,
    )) by {
        if all.contains(n) {
            let i = all.index_of(n);
            if i < na {
                assert(a[i] == n);
            } else if i < na + nu {
                assert(u[i - na] == n);
            } else {
                assert(h[i - na - nu] == n);
            }
        }
        if a.contains(n) {
            assert(all[a.index_of(n)] == n);
        }
        if u.contains(n) {
            assert(all[na + u.index_of(n)] == n);
        }
        if h.contains(n) {
            assert(all[na + nu + h.index_of(n)] == n);
        }
    }
    assert(s.patches().dom() =~= a.to_set().union(u.to_set()).union(h.to_set()));
    assert forall|i: int| 0 <= i < s.all().len() implies s.patches()[#[trigger] s.all()[i].name]
        == s.all()[i].oid by {
        let n = s.all()[i].name;
        assert(all[i] == n);
        let k = all.index_of(n);
        assert(all[k] == n);
        assert(k == i);
    }
}

/// The commit that the branch points at is the one that the patch table
/// holds for the last applied patch, and the head where no patch is
/// applied.
pub proof fn lemma_top(s: StackStateView)
    requires
        s.wf(),
    ensures
        s.top() == if s.applied.len() > 0 {
            s.patches()[s.applied.last().name]
        } else {
            s.head
        },
{
    if s.applied.len() > 0 {
        lemma_domain_closure(s);
        let i = s.applied.len() - 1;
        assert(s.all()[i] == s.applied.last());
    }
}

} // verus!