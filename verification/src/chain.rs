//! Levels, chains, and the orchestration that constructs every level's
//! instance in one call.
//!
//! A chain's assignable fields are merged, most-derived level first, into
//! one flat bag. The caller's supplied values fill the bag by name; the
//! walk then extracts each level's own slots in turn, resolves them, and
//! builds that level's instance, injecting skip fields on the way. Any
//! failure rejects the whole call before an instance is observable.

use vstd::prelude::*;

use crate::bag::{
    entry_resolves, fields_match, fill_slots, first_missing, lemma_fill_preserves_fields,
    lemma_first_missing_from, merge, AsParams, Slot, SlotBag, SlotState,
};
use crate::errors::ConstructError;
use crate::field::{Field, Policy};
use crate::value::{Entry, Value};

verus! {

/// The maximum supported chain length. A longer chain is rejected as a
/// capacity error before any work is done.
pub const MAX_CHAIN_DEPTH: usize = 16;

/// One link in the construction chain: a named type together with its
/// ordered field list.
#[derive(Debug, PartialEq, Eq)]
pub struct Level {
    pub name: String,
    pub fields: Vec<Field>,
}

impl Level {
    /// Declares a level.
    pub fn new(name: String, fields: Vec<Field>) -> (r: Level)
        ensures
            r == (Level { name, fields }),
    {
        Level { name, fields }
    }
}

/// The ordered levels of a chain, most-derived first. The terminal empty
/// sentinel is implicit after the last level.
#[derive(Debug, PartialEq, Eq)]
pub struct Chain {
    pub levels: Vec<Level>,
}

impl Chain {
    /// Assembles a chain from its levels, most-derived first.
    pub fn new(levels: Vec<Level>) -> (r: Chain)
        ensures
            r == (Chain { levels }),
    {
        Chain { levels }
    }
}

/// The names of a chain's levels, most-derived first. A level's name
/// identifies it: one metadata instance exists per level.
pub open spec fn level_names(levels: Seq<Level>) -> Seq<Seq<char>> {
    levels.map(|i: int, l: Level| l.name@)
}

/// Whether `b`'s levels stand, by name, at the tail of `a`'s.
pub open spec fn names_suffix_of(a: Seq<Level>, b: Seq<Level>) -> bool {
    b.len() <= a.len() && level_names(a).skip(a.len() - b.len()) == level_names(b)
}

#[verifier::loop_isolation(false)]
fn is_names_suffix(a: &Vec<Level>, b: &Vec<Level>) -> (r: bool)
    ensures
        r == names_suffix_of(a@, b@),
{
    if b.len() > a.len() {
        return false;
    }
    let off = a.len() - b.len();
    let mut i: usize = 0;
    while i < b.len()
        invariant
            off == a@.len() - b@.len(),
            b@.len() <= a@.len(),
            i <= b@.len(),
            forall|j: int| 0 <= j < i ==> a@[off + j].name@ == (#[trigger] b@[j]).name@,
        decreases b@.len() - i,
    {
        if !(a[off + i].name == b[i].name) {
            proof {
                assert(level_names(a@).skip(off as int)[i as int] == a@[off + i].name@);
                assert(level_names(b@)[i as int] == b@[i as int].name@);
            }
            return false;
        }
        i = i + 1;
    }
    proof {
        assert forall|j: int|
            0 <= j < b@.len() implies level_names(a@).skip(off as int)[j] == level_names(b@)[j] by {
            assert(a@[off + j].name@ == b@[j].name@);
        }
        assert(level_names(a@).skip(off as int) =~= level_names(b@));
    }
    true
}

/// Whether one chain strictly extends another: the other's levels stand,
/// by name, at its tail, below at least one more derived level.
pub trait Extends: Sized {
    /// The strict-extension relation.
    spec fn extends_spec(&self, other: &Self) -> bool;

    /// Runtime test of the relation.
    fn extends(&self, other: &Self) -> (r: bool)
        ensures
            r == self.extends_spec(other),
    ;
}

/// Whether one chain can stand for another: the other's levels stand, by
/// name, at its tail, or the two chains are the same.
pub trait Is: Sized {
    /// The is-a relation.
    spec fn is_a_spec(&self, other: &Self) -> bool;

    /// Runtime test of the relation.
    fn is_a(&self, other: &Self) -> (r: bool)
        ensures
            r == self.is_a_spec(other),
    ;
}

impl Extends for Chain {
    open spec fn extends_spec(&self, other: &Self) -> bool {
        other.levels@.len() < self.levels@.len() && names_suffix_of(self.levels@, other.levels@)
    }

    fn extends(&self, other: &Self) -> bool {
        other.levels.len() < self.levels.len() && is_names_suffix(&self.levels, &other.levels)
    }
}

impl Is for Chain {
    open spec fn is_a_spec(&self, other: &Self) -> bool {
        names_suffix_of(self.levels@, other.levels@)
    }

    fn is_a(&self, other: &Self) -> bool {
        is_names_suffix(&self.levels, &other.levels)
    }
}

/// One constructed level: its level's name and its resolved fields, in
/// declared order.
#[derive(Debug, PartialEq, Eq)]
pub struct Instance {
    pub name: String,
    pub entries: Vec<Entry>,
}

/// One declared level: its own name and field list, the reusable segment
/// levels inserted between it and its base, and a reference to its base
/// declaration, or the terminal sentinel.
#[derive(Debug, PartialEq, Eq)]
pub struct LevelDecl {
    pub name: String,
    pub fields: Vec<Field>,
    pub segments: Vec<Level>,
    pub base: Option<Box<LevelDecl>>,
}

/// The chain a declaration unrolls to: the declared level itself, its
/// inserted segments, then its base's chain, down to the sentinel.
pub open spec fn decl_levels(d: LevelDecl) -> Seq<Level>
    decreases d,
{
    seq![Level { name: d.name, fields: d.fields }] + d.segments@ + match d.base {
        None => Seq::empty(),
        Some(b) => decl_levels(*b),
    }
}

/// Unrolls a declaration into its chain, most-derived level first.
pub fn chain_of(decl: LevelDecl) -> (c: Chain)
    ensures
        c.levels@ == decl_levels(decl),
    decreases decl,
{
    let LevelDecl { name, fields, segments, base } = decl;
    let mut levels: Vec<Level> = Vec::new();
    levels.push(Level { name, fields });
    let mut segments = segments;
    levels.append(&mut segments);
    match base {
        None => {
            proof {
                assert(levels@ =~= decl_levels(decl));
            }
        },
        Some(b) => {
            let basechain = chain_of(*b);
            let mut rest = basechain.levels;
            levels.append(&mut rest);
            proof {
                assert(levels@ =~= decl_levels(decl));
            }
        },
    }
    Chain { levels }
}

/// The undefined slots a level's assignable (non-skip) fields induce, in
/// declared order.
pub open spec fn level_slots_of(fields: Seq<Field>) -> Seq<Slot>
    decreases fields.len(),
{
    if fields.len() == 0 {
        Seq::empty()
    } else {
        let rest = level_slots_of(fields.drop_first());
        if fields[0].is_skip() {
            rest
        } else {
            seq![Slot { field: fields[0], state: SlotState::Undefined }] + rest
        }
    }
}

/// The flat bag a whole chain induces: every level's assignable slots
/// concatenated, most-derived level first.
pub open spec fn chain_slots(levels: Seq<Level>) -> Seq<Slot>
    decreases levels.len(),
{
    if levels.len() == 0 {
        Seq::empty()
    } else {
        level_slots_of(levels[0].fields@) + chain_slots(levels.drop_first())
    }
}

/// How one constructed instance relates to its level and to the filled
/// slots of that level's assignable fields: the names line up in declared
/// order, a skip field carries its injected value, and every other field
/// carries what its slot resolved to.
pub open spec fn entries_match(fields: Seq<Field>, prefix: Seq<Slot>, entries: Seq<Entry>) -> bool
    decreases fields.len(),
{
    if fields.len() == 0 {
        prefix.len() == 0 && entries.len() == 0
    } else if entries.len() == 0 {
        false
    } else {
        let f = fields[0];
        let e = entries[0];
        match f.policy {
            Policy::Skip(v) => e.name == f.name && e.value == v && entries_match(
                fields.drop_first(),
                prefix,
                entries.drop_first(),
            ),
            _ => prefix.len() > 0 && prefix[0].field == f && entry_resolves(prefix[0], e)
                && entries_match(fields.drop_first(), prefix.drop_first(), entries.drop_first()),
        }
    }
}

/// Whether `inst` is a faithful construction of `l` from the filled
/// slots `prefix` of `l`'s assignable fields.
pub open spec fn instance_matches(l: Level, prefix: Seq<Slot>, inst: Instance) -> bool {
    prefix.len() == level_slots_of(l.fields@).len() && inst.name == l.name && entries_match(
        l.fields@,
        prefix,
        inst.entries@,
    )
}

/// Whether `out` is the faithful construction of every level of the
/// chain from the filled flat bag `slots`, most-derived level first.
pub open spec fn chain_output_matches(
    levels: Seq<Level>,
    slots: Seq<Slot>,
    out: Seq<Instance>,
) -> bool
    decreases levels.len(),
{
    if levels.len() == 0 {
        slots.len() == 0 && out.len() == 0
    } else {
        let n = level_slots_of(levels[0].fields@).len() as int;
        out.len() > 0 && slots.len() >= n && instance_matches(levels[0], slots.take(n), out[0])
            && chain_output_matches(levels.drop_first(), slots.skip(n), out.drop_first())
    }
}

/// The first error the chain walk meets on a filled bag, if any: a shape
/// mismatch between declared field counts and the bag, or the first
/// required field left undefined, scanning most-derived level first.
pub open spec fn chain_walk_err(levels: Seq<Level>, slots: Seq<Slot>) -> Option<ConstructError>
    decreases levels.len(),
{
    if levels.len() == 0 {
        if slots.len() == 0 {
            None
        } else {
            Some(ConstructError::ShapeMismatch)
        }
    } else {
        let n = level_slots_of(levels[0].fields@).len() as int;
        if n > slots.len() {
            Some(ConstructError::ShapeMismatch)
        } else {
            match first_missing(slots.take(n)) {
                Some(i) => Some(ConstructError::MissingRequiredField(slots.take(n)[i].field.name)),
                None => chain_walk_err(levels.drop_first(), slots.skip(n)),
            }
        }
    }
}

/// One step of a level's construction recipe: take the next resolved
/// assignable value, or inject a fixed entry for a skip field.
#[derive(Debug, PartialEq, Eq)]
pub enum PlanItem {
    FromBag,
    Fixed(Entry),
}

/// A level's construction recipe: its name, one item per declared field
/// in order, and how many slots its assignable fields take in the bag.
#[derive(Debug, PartialEq, Eq)]
pub struct LevelPlan {
    pub name: String,
    pub items: Vec<PlanItem>,
    pub taken: usize,
}

/// Whether a plan item is the right recipe step for a field.
pub open spec fn plan_item_matches(f: Field, it: PlanItem) -> bool {
    match f.policy {
        Policy::Skip(v) => it == PlanItem::Fixed(Entry { name: f.name, value: v }),
        _ => it == PlanItem::FromBag,
    }
}

/// Whether a plan is the faithful recipe for a level.
pub open spec fn plan_matches(l: Level, p: LevelPlan) -> bool {
    p.name == l.name && p.items@.len() == l.fields@.len() && p.taken == level_slots_of(
        l.fields@,
    ).len() && forall|j: int|
        0 <= j < l.fields@.len() ==> plan_item_matches(l.fields@[j], #[trigger] p.items@[j])
}

/// How many recipe steps read from the bag.
pub open spec fn from_bag_count(items: Seq<PlanItem>) -> nat
    decreases items.len(),
{
    if items.len() == 0 {
        0
    } else {
        match items[0] {
            PlanItem::FromBag => 1 + from_bag_count(items.drop_first()),
            PlanItem::Fixed(_) => from_bag_count(items.drop_first()),
        }
    }
}

/// The entries a recipe produces from resolved assignable values, in
/// declared field order.
pub open spec fn weave(items: Seq<PlanItem>, resolved: Seq<Entry>) -> Seq<Entry>
    decreases items.len(),
{
    if items.len() == 0 {
        Seq::empty()
    } else {
        match items[0] {
            PlanItem::Fixed(e) => seq![e] + weave(items.drop_first(), resolved),
            PlanItem::FromBag => if resolved.len() > 0 {
                seq![resolved[0]] + weave(items.drop_first(), resolved.drop_first())
            } else {
                Seq::empty()
            },
        }
    }
}

/// Appending one field extends a level's slots by one undefined slot,
/// unless the field is a skip field.
proof fn lemma_level_slots_snoc(fields: Seq<Field>, f: Field)
    ensures
        level_slots_of(fields.push(f)) == if f.is_skip() {
            level_slots_of(fields)
        } else {
            level_slots_of(fields).push(Slot { field: f, state: SlotState::Undefined })
        },
    decreases fields.len(),
{
    if fields.len() == 0 {
        assert(fields.push(f).drop_first() =~= Seq::<Field>::empty());
        if !f.is_skip() {
            assert(seq![Slot { field: f, state: SlotState::Undefined }]
                + level_slots_of(Seq::<Field>::empty()) =~= level_slots_of(fields).push(
                Slot { field: f, state: SlotState::Undefined },
            ));
        }
    } else {
        assert(fields.push(f).drop_first() =~= fields.drop_first().push(f));
        lemma_level_slots_snoc(fields.drop_first(), f);
        if !f.is_skip() {
            let s = Slot { field: f, state: SlotState::Undefined };
            if !fields[0].is_skip() {
                let head = seq![Slot { field: fields[0], state: SlotState::Undefined }];
                assert(head + level_slots_of(fields.drop_first()).push(s) =~= (head
                    + level_slots_of(fields.drop_first())).push(s));
            }
        }
    }
}

/// Appending one level extends a chain's slots by that level's slots.
proof fn lemma_chain_slots_snoc(levels: Seq<Level>, l: Level)
    ensures
        chain_slots(levels.push(l)) == chain_slots(levels) + level_slots_of(l.fields@),
    decreases levels.len(),
{
    if levels.len() == 0 {
        assert(levels.push(l).drop_first() =~= Seq::<Level>::empty());
        assert(level_slots_of(l.fields@) + chain_slots(Seq::<Level>::empty()) =~= chain_slots(
            levels,
        ) + level_slots_of(l.fields@));
    } else {
        assert(levels.push(l).drop_first() =~= levels.drop_first().push(l));
        lemma_chain_slots_snoc(levels.drop_first(), l);
        assert(level_slots_of(levels[0].fields@) + (chain_slots(levels.drop_first())
            + level_slots_of(l.fields@)) =~= (level_slots_of(levels[0].fields@) + chain_slots(
            levels.drop_first(),
        )) + level_slots_of(l.fields@));
    }
}

/// A faithful recipe reads exactly one bag slot per assignable field.
proof fn lemma_from_bag_count(fields: Seq<Field>, items: Seq<PlanItem>)
    requires
        items.len() == fields.len(),
        forall|j: int| 0 <= j < fields.len() ==> plan_item_matches(fields[j], #[trigger] items[j]),
    ensures
        from_bag_count(items) == level_slots_of(fields).len(),
    decreases fields.len(),
{
    if fields.len() > 0 {
        assert(plan_item_matches(fields[0], items[0]));
        assert forall|j: int|
            0 <= j < fields.drop_first().len() implies plan_item_matches(
            fields.drop_first()[j],
            #[trigger] items.drop_first()[j],
        ) by {
            assert(plan_item_matches(fields[j + 1], items[j + 1]));
        }
        lemma_from_bag_count(fields.drop_first(), items.drop_first());
    }
}

/// What a faithful recipe weaves from faithfully resolved slots is a
/// faithful construction of the level's fields.
proof fn lemma_weave_entries(
    fields: Seq<Field>,
    items: Seq<PlanItem>,
    prefix: Seq<Slot>,
    resolved: Seq<Entry>,
)
    requires
        items.len() == fields.len(),
        forall|j: int| 0 <= j < fields.len() ==> plan_item_matches(fields[j], #[trigger] items[j]),
        prefix.len() == level_slots_of(fields).len(),
        forall|i: int|
            0 <= i < prefix.len() ==> (#[trigger] prefix[i]).field == level_slots_of(
                fields,
            )[i].field,
        resolved.len() == prefix.len(),
        forall|i: int| 0 <= i < prefix.len() ==> entry_resolves(prefix[i], #[trigger] resolved[i]),
    ensures
        entries_match(fields, prefix, weave(items, resolved)),
    decreases fields.len(),
{
    if fields.len() == 0 {
    } else {
        let f = fields[0];
        assert(plan_item_matches(f, items[0]));
        assert forall|j: int|
            0 <= j < fields.drop_first().len() implies plan_item_matches(
            fields.drop_first()[j],
            #[trigger] items.drop_first()[j],
        ) by {
            assert(plan_item_matches(fields[j + 1], items[j + 1]));
        }
        match f.policy {
            Policy::Skip(v) => {
                assert(level_slots_of(fields) == level_slots_of(fields.drop_first()));
                lemma_weave_entries(fields.drop_first(), items.drop_first(), prefix, resolved);
                let e = Entry { name: f.name, value: v };
                let tail = weave(items.drop_first(), resolved);
                assert(weave(items, resolved) == seq![e] + tail);
                assert((seq![e] + tail)[0] == e);
                assert((seq![e] + tail).drop_first() =~= tail);
            },
            _ => {
                let head = seq![Slot { field: f, state: SlotState::Undefined }];
                assert(level_slots_of(fields) == head + level_slots_of(fields.drop_first()));
                assert(prefix.len() > 0);
                assert(prefix[0].field == f);
                assert forall|i: int|
                    0 <= i < prefix.drop_first().len() implies (#[trigger] prefix.drop_first()[
                    i]).field == level_slots_of(fields.drop_first())[i].field by {
                    assert(prefix[i + 1].field == level_slots_of(fields)[i + 1].field);
                    assert(level_slots_of(fields)[i + 1] == level_slots_of(fields.drop_first())[i]);
                }
                assert forall|i: int|
                    0 <= i < prefix.drop_first().len() implies entry_resolves(
                    prefix.drop_first()[i],
                    #[trigger] resolved.drop_first()[i],
                ) by {
                    assert(entry_resolves(prefix[i + 1], resolved[i + 1]));
                }
                lemma_weave_entries(
                    fields.drop_first(),
                    items.drop_first(),
                    prefix.drop_first(),
                    resolved.drop_first(),
                );
                let tail = weave(items.drop_first(), resolved.drop_first());
                assert(weave(items, resolved) == seq![resolved[0]] + tail);
                assert((seq![resolved[0]] + tail)[0] == resolved[0]);
                assert((seq![resolved[0]] + tail).drop_first() =~= tail);
                assert(entry_resolves(prefix[0], resolved[0]));
            },
        }
    }
}

/// Separates a level into its construction recipe and the undefined bag
/// of its assignable fields. Skip fields go into the recipe with their
/// injected values and never reach the bag.
#[verifier::loop_isolation(false)]
#[verifier::rlimit(60)]
pub fn plan_level(level: Level) -> (r: (LevelPlan, SlotBag))
    ensures
        plan_matches(level, r.0),
        r.1@ == level_slots_of(level.fields@),
{
    let Level { name, fields } = level;
    let ghost fmodel = fields@;
    let mut fields = fields;
    let mut items: Vec<PlanItem> = Vec::new();
    let mut slots: Vec<Slot> = Vec::new();
    while fields.len() > 0
        invariant
            items@.len() + fields@.len() == fmodel.len(),
            fields@ == fmodel.skip(items@.len() as int),
            forall|j: int|
                0 <= j < items@.len() ==> plan_item_matches(fmodel[j], #[trigger] items@[j]),
            slots@ == level_slots_of(fmodel.take(items@.len() as int)),
        decreases fields@.len(),
    {
        let ghost k = items@.len() as int;
        let f = fields.remove(0);
        proof {
            assert(f == fmodel[k]);
            assert(fields@ =~= fmodel.skip(k + 1));
            lemma_level_slots_snoc(fmodel.take(k), fmodel[k]);
            assert(fmodel.take(k).push(fmodel[k]) =~= fmodel.take(k + 1));
        }
        let Field { name: fname, tag, policy } = f;
        match policy {
            Policy::Skip(v) => {
                items.push(PlanItem::Fixed(Entry { name: fname, value: v }));
            },
            p => {
                slots.push(
                    Slot {
                        field: Field { name: fname, tag, policy: p },
                        state: SlotState::Undefined,
                    },
                );
                items.push(PlanItem::FromBag);
            },
        }
    }
    proof {
        assert(fmodel.take(items@.len() as int) =~= fmodel);
    }
    let taken = slots.len();
    (LevelPlan { name, items, taken }, SlotBag { slots })
}

/// Builds one instance from a level's recipe and its resolved assignable
/// values: recipe steps in declared order, each taking the next resolved
/// value or injecting a skip field's value.
#[verifier::loop_isolation(false)]
pub fn construct_item(plan: LevelPlan, resolved: Vec<Entry>) -> (inst: Instance)
    requires
        from_bag_count(plan.items@) == resolved@.len(),
    ensures
        inst.name == plan.name,
        inst.entries@ == weave(plan.items@, resolved@),
{
    let ghost imodel = plan.items@;
    let ghost rmodel = resolved@;
    let name = plan.name;
    let mut items = plan.items;
    let mut resolved = resolved;
    let mut entries: Vec<Entry> = Vec::new();
    while items.len() > 0
        invariant
            from_bag_count(items@) == resolved@.len(),
            weave(imodel, rmodel) == entries@ + weave(items@, resolved@),
        decreases items@.len(),
    {
        let ghost ipre = items@;
        let ghost rpre = resolved@;
        let it = items.remove(0);
        proof {
            assert(it == ipre[0]);
            assert(items@ =~= ipre.drop_first());
        }
        match it {
            PlanItem::Fixed(e) => {
                let ghost emodel = e;
                entries.push(e);
                proof {
                    assert(weave(ipre, rpre) == seq![emodel] + weave(items@, resolved@));
                    assert(entries@ + weave(items@, resolved@) =~= entries@.drop_last() + (seq![
                        emodel,
                    ] + weave(items@, resolved@)));
                }
            },
            PlanItem::FromBag => {
                proof {
                    assert(from_bag_count(ipre) == 1 + from_bag_count(ipre.drop_first()));
                    assert(resolved@.len() > 0);
                }
                let v = resolved.remove(0);
                proof {
                    assert(v == rpre[0]);
                    assert(resolved@ =~= rpre.drop_first());
                }
                entries.push(v);
                proof {
                    assert(weave(ipre, rpre) == seq![rpre[0]] + weave(items@, resolved@));
                    assert(entries@ + weave(items@, resolved@) =~= entries@.drop_last() + (seq![
                        rpre[0],
                    ] + weave(items@, resolved@)));
                }
            },
        }
    }
    proof {
        assert(entries@ + weave(items@, resolved@) =~= entries@);
    }
    Instance { name, entries }
}

impl AsParams for Level {
    open spec fn as_params_spec(self) -> Seq<Slot> {
        level_slots_of(self.fields@)
    }

    fn as_params(self) -> SlotBag {
        let (_, bag) = plan_level(self);
        bag
    }
}

/// Plans every level and merges the levels' bags, most-derived first,
/// into the chain's one flat assignable bag.
#[verifier::loop_isolation(false)]
#[verifier::rlimit(60)]
pub fn chain_bag(levels: Vec<Level>) -> (r: (Vec<LevelPlan>, SlotBag))
    ensures
        r.0@.len() == levels@.len(),
        forall|j: int|
            0 <= j < levels@.len() ==> plan_matches(levels@[j], #[trigger] r.0@[j]),
        r.1@ == chain_slots(levels@),
{
    let ghost lmodel = levels@;
    let mut levels = levels;
    let mut plans: Vec<LevelPlan> = Vec::new();
    let mut bag = SlotBag { slots: Vec::new() };
    while levels.len() > 0
        invariant
            plans@.len() + levels@.len() == lmodel.len(),
            levels@ == lmodel.skip(plans@.len() as int),
            forall|j: int|
                0 <= j < plans@.len() ==> plan_matches(lmodel[j], #[trigger] plans@[j]),
            bag@ == chain_slots(lmodel.take(plans@.len() as int)),
        decreases levels@.len(),
    {
        let ghost k = plans@.len() as int;
        let level = levels.remove(0);
        proof {
            assert(level == lmodel[k]);
            assert(levels@ =~= lmodel.skip(k + 1));
            lemma_chain_slots_snoc(lmodel.take(k), lmodel[k]);
            assert(lmodel.take(k).push(lmodel[k]) =~= lmodel.take(k + 1));
        }
        let (plan, lbag) = plan_level(level);
        bag = merge(bag, lbag);
        plans.push(plan);
    }
    proof {
        assert(lmodel.take(plans@.len() as int) =~= lmodel);
    }
    (plans, bag)
}

impl AsParams for Chain {
    open spec fn as_params_spec(self) -> Seq<Slot> {
        chain_slots(self.levels@)
    }

    fn as_params(self) -> SlotBag {
        let (_, bag) = chain_bag(self.levels);
        bag
    }
}

/// Extending a faithfully constructed prefix of a chain by one faithful
/// instance keeps the whole construction faithful.
proof fn lemma_output_matches_push(
    levels: Seq<Level>,
    slots: Seq<Slot>,
    out: Seq<Instance>,
    l: Level,
    s2: Seq<Slot>,
    inst: Instance,
)
    requires
        chain_output_matches(levels, slots, out),
        instance_matches(l, s2, inst),
    ensures
        chain_output_matches(levels.push(l), slots + s2, out.push(inst)),
    decreases levels.len(),
{
    let n = level_slots_of(l.fields@).len() as int;
    if levels.len() == 0 {
        assert(slots + s2 =~= s2);
        assert(levels.push(l)[0] == l);
        assert(out.push(inst)[0] == inst);
        assert(levels.push(l).drop_first() =~= Seq::<Level>::empty());
        assert(out.push(inst).drop_first() =~= Seq::<Instance>::empty());
        assert((slots + s2).take(n) =~= s2);
        assert((slots + s2).skip(n) =~= Seq::<Slot>::empty());
        assert(chain_output_matches(
            levels.push(l).drop_first(),
            (slots + s2).skip(n),
            out.push(inst).drop_first(),
        ));
    } else {
        let n0 = level_slots_of(levels[0].fields@).len() as int;
        assert(levels.push(l)[0] == levels[0]);
        assert(out.push(inst)[0] == out[0]);
        assert(levels.push(l).drop_first() =~= levels.drop_first().push(l));
        assert((slots + s2).take(n0) =~= slots.take(n0));
        assert((slots + s2).skip(n0) =~= slots.skip(n0) + s2);
        assert(out.push(inst).drop_first() =~= out.drop_first().push(inst));
        lemma_output_matches_push(levels.drop_first(), slots.skip(n0), out.drop_first(), l, s2, inst);
        assert(chain_output_matches(
            levels.push(l).drop_first(),
            (slots + s2).skip(n0),
            out.push(inst).drop_first(),
        ));
    }
}

/// Constructs every level of the chain in one call. The chain's
/// assignable fields become one flat bag; the supplied named values fill
/// it; the walk extracts and resolves each level's own slots in turn and
/// builds its instance, most-derived level first. Every failure rejects
/// the call atomically: a too-deep chain, an unknown name, a duplicate
/// supply, a required field left unsupplied, or a shape mismatch.
#[verifier::loop_isolation(false)]
pub fn build_chain(chain: Chain, supplied: Vec<(String, Value)>) -> (r: Result<
    Vec<Instance>,
    ConstructError,
>)
    ensures
        chain.levels@.len() > MAX_CHAIN_DEPTH ==> r == Err::<Vec<Instance>, ConstructError>(
            ConstructError::ChainDepthExceeded,
        ),
        chain.levels@.len() <= MAX_CHAIN_DEPTH ==> match fill_slots(
            chain_slots(chain.levels@),
            supplied@,
        ) {
            Err(e) => r == Err::<Vec<Instance>, ConstructError>(e),
            Ok(filled) => match chain_walk_err(chain.levels@, filled) {
                Some(e) => r == Err::<Vec<Instance>, ConstructError>(e),
                None => match r {
                    Ok(out) => chain_output_matches(chain.levels@, filled, out@),
                    Err(_) => false,
                },
            },
        },
{
    let ghost lmodel = chain.levels@;
    let ghost smodel = supplied@;
    if chain.levels.len() > MAX_CHAIN_DEPTH {
        return Err(ConstructError::ChainDepthExceeded);
    }
    let (plans, bag) = chain_bag(chain.levels);
    let bag = match bag.fill(supplied) {
        Ok(b) => b,
        Err(e) => {
            return Err(e);
        },
    };
    let ghost filled = bag@;
    proof {
        lemma_fill_preserves_fields(chain_slots(lmodel), smodel);
        assert(lmodel.skip(0) =~= lmodel);
        assert(lmodel.take(0) =~= Seq::<Level>::empty());
        assert(filled.skip(0) =~= filled);
        assert(filled.take(0) =~= Seq::<Slot>::empty());
    }
    let mut plans = plans;
    let mut bag = bag;
    let mut out: Vec<Instance> = Vec::new();
    while plans.len() > 0
        invariant
            out@.len() + plans@.len() == lmodel.len(),
            forall|i: int|
                0 <= i < plans@.len() ==> plan_matches(
                    lmodel[out@.len() + i],
                    #[trigger] plans@[i],
                ),
            bag@.len() <= filled.len(),
            bag@ == filled.skip(filled.len() - bag@.len()),
            fields_match(chain_slots(lmodel.skip(out@.len() as int)), bag@),
            chain_walk_err(lmodel, filled) == chain_walk_err(
                lmodel.skip(out@.len() as int),
                bag@,
            ),
            chain_output_matches(
                lmodel.take(out@.len() as int),
                filled.take(filled.len() - bag@.len()),
                out@,
            ),
        decreases plans@.len(),
    {
        let ghost j = out@.len() as int;
        let ghost consumed = filled.len() - bag@.len();
        let ghost bagpre = bag@;
        let ghost planspre = plans@;
        let plan = plans.remove(0);
        let ghost n = level_slots_of(lmodel[j].fields@).len() as int;
        proof {
            assert(plan == planspre[0]);
            assert(plan_matches(lmodel[j], plan));
            assert(plan.taken == n);
            assert(lmodel.skip(j).drop_first() =~= lmodel.skip(j + 1));
            assert(lmodel.skip(j)[0] == lmodel[j]);
            assert(chain_slots(lmodel.skip(j)) == level_slots_of(lmodel[j].fields@) + chain_slots(
                lmodel.skip(j + 1),
            ));
        }
        let r = bag.extract(plan.taken);
        match r {
            Err(e) => {
                proof {
                    if plan.taken <= bagpre.len() {
                        lemma_first_missing_from(bagpre.take(n), 0);
                    }
                    assert(chain_walk_err(lmodel.skip(j), bagpre) == Some(e));
                }
                return Err(e);
            },
            Ok(p) => {
                let (vals, rest) = p;
                let ghost vmodel = vals@;
                let ghost pitems = plan.items@;
                proof {
                    lemma_from_bag_count(lmodel[j].fields@, pitems);
                    assert forall|i: int|
                        0 <= i < n implies (#[trigger] bagpre.take(n)[i]).field == level_slots_of(
                        lmodel[j].fields@,
                    )[i].field by {
                        assert(chain_slots(lmodel.skip(j))[i] == level_slots_of(
                            lmodel[j].fields@,
                        )[i]);
                        assert(bagpre[i].field == chain_slots(lmodel.skip(j))[i].field);
                    }
                }
                let ghost outpre = out@;
                let inst = construct_item(plan, vals);
                proof {
                    lemma_weave_entries(lmodel[j].fields@, pitems, bagpre.take(n), vmodel);
                    assert(instance_matches(lmodel[j], bagpre.take(n), inst));
                }
                out.push(inst);
                bag = rest;
                proof {
                    // the consumed prefix grows by this level's slots
                    assert(filled.take(consumed) + bagpre.take(n) =~= filled.take(consumed + n));
                    assert(lmodel.take(j).push(lmodel[j]) =~= lmodel.take(j + 1));
                    lemma_output_matches_push(
                        lmodel.take(j),
                        filled.take(consumed),
                        outpre,
                        lmodel[j],
                        bagpre.take(n),
                        inst,
                    );
                    assert(out@ =~= outpre.push(inst));
                    assert(bag@ =~= filled.skip(consumed + n));
                    // the walk error of the remainder is unchanged
                    assert(chain_walk_err(lmodel.skip(j), bagpre) == chain_walk_err(
                        lmodel.skip(j + 1),
                        bag@,
                    ));
                    // the remaining slots still declare the remaining levels' fields
                    assert forall|i: int|
                        0 <= i < chain_slots(lmodel.skip(j + 1)).len() implies chain_slots(
                        lmodel.skip(j + 1),
                    )[i].field == (#[trigger] bag@[i]).field by {
                        assert(chain_slots(lmodel.skip(j))[n + i] == chain_slots(
                            lmodel.skip(j + 1),
                        )[i]);
                        assert(bagpre[n + i].field == chain_slots(lmodel.skip(j))[n + i].field);
                        assert(bag@[i] == bagpre[n + i]);
                    }
                    // the plans left still match the levels left
                    assert forall|i: int|
                        0 <= i < plans@.len() implies plan_matches(
                        lmodel[out@.len() + i],
                        #[trigger] plans@[i],
                    ) by {
                        assert(plans@[i] == planspre[i + 1]);
                        assert(plan_matches(lmodel[j + 1 + i], planspre[i + 1]));
                    }
                }
            },
        }
    }
    if bag.len() > 0 {
        proof {
            assert(lmodel.skip(lmodel.len() as int) =~= Seq::<Level>::empty());
        }
        return Err(ConstructError::ShapeMismatch);
    }
    proof {
        assert(lmodel.skip(lmodel.len() as int) =~= Seq::<Level>::empty());
        assert(lmodel.take(lmodel.len() as int) =~= lmodel);
        assert(filled.take(filled.len() - bag@.len()) =~= filled);
    }
    Ok(out)
}

/// Constructs every level a declaration unrolls to, in one call: the
/// declared level, its inserted segments, and its whole base chain, as
/// `build_chain` does on the unrolled chain.
pub fn construct_all(decl: LevelDecl, supplied: Vec<(String, Value)>) -> (r: Result<
    Vec<Instance>,
    ConstructError,
>)
    ensures
        decl_levels(decl).len() > MAX_CHAIN_DEPTH ==> r == Err::<Vec<Instance>, ConstructError>(
            ConstructError::ChainDepthExceeded,
        ),
        decl_levels(decl).len() <= MAX_CHAIN_DEPTH ==> match fill_slots(
            chain_slots(decl_levels(decl)),
            supplied@,
        ) {
            Err(e) => r == Err::<Vec<Instance>, ConstructError>(e),
            Ok(filled) => match chain_walk_err(decl_levels(decl), filled) {
                Some(e) => r == Err::<Vec<Instance>, ConstructError>(e),
                None => match r {
                    Ok(out) => chain_output_matches(decl_levels(decl), filled, out@),
                    Err(_) => false,
                },
            },
        },
{
    let chain = chain_of(decl);
    build_chain(chain, supplied)
}

/// Constructs one level alone: fills the bag of its assignable fields
/// from the supplied named values, resolves every slot, and builds the
/// instance. Fails on an unknown name, a duplicate supply, or a required
/// field left unsupplied.
pub fn build_level(level: Level, supplied: Vec<(String, Value)>) -> (r: Result<
    Instance,
    ConstructError,
>)
    ensures
        match fill_slots(level_slots_of(level.fields@), supplied@) {
            Err(e) => r == Err::<Instance, ConstructError>(e),
            Ok(filled) => match first_missing(filled) {
                Some(i) => r == Err::<Instance, ConstructError>(
                    ConstructError::MissingRequiredField(filled[i].field.name),
                ),
                None => match r {
                    Ok(inst) => instance_matches(level, filled, inst),
                    Err(_) => false,
                },
            },
        },
{
    let ghost lmodel = level;
    let ghost smodel = supplied@;
    let (plan, bag) = plan_level(level);
    let ghost pitems = plan.items@;
    let filled = match bag.fill(supplied) {
        Ok(b) => b,
        Err(e) => {
            return Err(e);
        },
    };
    let ghost fmodel = filled@;
    proof {
        lemma_fill_preserves_fields(level_slots_of(lmodel.fields@), smodel);
    }
    match filled.resolve() {
        Ok(vals) => {
            let ghost vmodel = vals@;
            proof {
                lemma_from_bag_count(lmodel.fields@, pitems);
            }
            let inst = construct_item(plan, vals);
            proof {
                lemma_weave_entries(lmodel.fields@, pitems, fmodel, vmodel);
            }
            Ok(inst)
        },
        Err(e) => Err(e),
    }
}

} // verus!
