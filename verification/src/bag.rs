//! The slot bag: an ordered, fixed-length sequence of slots, each
//! undefined (tagged with its field) or defined (holding a value),
//! addressed by position. Bags are merged by concatenation, filled by
//! at-most-once positional assignment, split back into their original
//! parts, and finally resolved to concrete values.

use vstd::prelude::*;

use crate::errors::ConstructError;
use crate::field::{resolves_default, Field, Policy};
use crate::value::{zero_value, Entry, TypeTag, Value};

verus! {

/// Whether a slot already holds a supplied value.
#[derive(Debug, PartialEq, Eq)]
pub enum SlotState {
    /// No value supplied yet; the slot's field says how it resolves.
    Undefined,
    /// A value was supplied; it can never be overwritten.
    Defined(Value),
}

/// One addressable field-value position inside a bag.
#[derive(Debug, PartialEq, Eq)]
pub struct Slot {
    pub field: Field,
    pub state: SlotState,
}

impl Slot {
    /// Whether the slot holds a supplied value.
    pub open spec fn is_defined(&self) -> bool {
        self.state matches SlotState::Defined(_)
    }
}

/// The flat assignable bag. A slot's position is its permanent identity
/// for the bag's lifetime: the slot count is fixed at creation.
#[derive(Debug, PartialEq, Eq)]
pub struct SlotBag {
    pub slots: Vec<Slot>,
}

impl View for SlotBag {
    type V = Seq<Slot>;

    open spec fn view(&self) -> Seq<Slot> {
        self.slots@
    }
}

/// The position of the first slot at or after `k` whose field is named
/// `name`, if any.
pub open spec fn find_name_from(slots: Seq<Slot>, name: Seq<char>, k: int) -> Option<int>
    decreases slots.len() - k,
{
    if k < 0 || k >= slots.len() {
        None
    } else if slots[k].field.name@ == name {
        Some(k)
    } else {
        find_name_from(slots, name, k + 1)
    }
}

/// The position of the first slot whose field is named `name`, if any.
pub open spec fn find_name(slots: Seq<Slot>, name: Seq<char>) -> Option<int> {
    find_name_from(slots, name, 0)
}

/// The position of the first slot at or after `k` that is still
/// undefined although its field is required, if any.
pub open spec fn first_missing_from(slots: Seq<Slot>, k: int) -> Option<int>
    decreases slots.len() - k,
{
    if k < 0 || k >= slots.len() {
        None
    } else if !slots[k].is_defined() && slots[k].field.is_required() {
        Some(k)
    } else {
        first_missing_from(slots, k + 1)
    }
}

/// The position of the first required slot left undefined, if any.
/// Resolution fails exactly when this exists.
pub open spec fn first_missing(slots: Seq<Slot>) -> Option<int> {
    first_missing_from(slots, 0)
}

/// How a slot resolves: a defined slot yields its supplied value, an
/// undefined one a default its policy allows; the entry keeps the
/// field's name.
pub open spec fn entry_resolves(s: Slot, e: Entry) -> bool {
    e.name == s.field.name && match s.state {
        SlotState::Defined(v) => e.value == v,
        SlotState::Undefined => resolves_default(s.field, e.value),
    }
}

/// What one positional assignment does to a bag: a new bag with the slot
/// defined, or a conflict naming the slot's field if it was defined
/// already.
pub open spec fn assign_model(s: Seq<Slot>, i: int, v: Value) -> Result<Seq<Slot>, ParamConflict> {
    if s[i].is_defined() {
        Err(ParamConflict { name: s[i].field.name })
    } else {
        Ok(s.update(i, Slot { field: s[i].field, state: SlotState::Defined(v) }))
    }
}

/// A conflict: the slot a caller tried to assign was defined already.
/// Duplicate supply is always an error, never last-write-wins.
#[derive(Debug, PartialEq, Eq)]
pub struct ParamConflict {
    pub name: String,
}

/// The report a conflict turns into: the named field was redefined.
#[derive(Debug, PartialEq, Eq)]
pub struct ParamRedefined {
    pub name: String,
}

impl ParamConflict {
    /// Records a conflict on the named field.
    pub fn new(name: String) -> (c: ParamConflict)
        ensures
            c == (ParamConflict { name }),
    {
        ParamConflict { name }
    }

    /// Turns the conflict into its redefinition report.
    pub fn validate(self) -> (r: ParamRedefined)
        ensures
            r == (ParamRedefined { name: self.name }),
    {
        ParamRedefined { name: self.name }
    }
}

impl ParamRedefined {
    /// The construction error the report stands for.
    pub fn into_error(self) -> (e: ConstructError)
        ensures
            e == ConstructError::DuplicateFieldAssignment(self.name),
    {
        ConstructError::DuplicateFieldAssignment(self.name)
    }
}

/// A selector addressing one field's position in a bag.
#[derive(Clone, Copy, Debug, PartialEq, Eq, Structural)]
pub struct F {
    pub index: usize,
}

/// A pending definition: a value destined for one position.
#[derive(Debug, PartialEq, Eq)]
pub struct D {
    pub index: usize,
    pub value: Value,
}

/// A vacancy: a position still undefined, with its declared type.
#[derive(Clone, Copy, Debug, PartialEq, Eq, Structural)]
pub struct U {
    pub index: usize,
    pub tag: TypeTag,
}

impl F {
    /// Pairs the selected position with a value to place there.
    pub fn define(self, value: Value) -> (d: D)
        ensures
            d == (D { index: self.index, value }),
    {
        D { index: self.index, value }
    }
}

/// Anything that addresses one slot position.
pub trait A {
    /// The position addressed.
    spec fn position(&self) -> int;

    /// Runtime access to the position.
    fn index(&self) -> (i: usize)
        ensures
            i == self.position(),
    ;
}

impl A for F {
    open spec fn position(&self) -> int {
        self.index as int
    }

    fn index(&self) -> usize {
        self.index
    }
}

impl A for D {
    open spec fn position(&self) -> int {
        self.index as int
    }

    fn index(&self) -> usize {
        self.index
    }
}

impl A for U {
    open spec fn position(&self) -> int {
        self.index as int
    }

    fn index(&self) -> usize {
        self.index
    }
}

/// The remembered shape of a merged bag: how many slots came from the
/// left part and how many from the right.
#[derive(Clone, Copy, Debug, PartialEq, Eq, Structural)]
pub struct Mix {
    pub left: usize,
    pub right: usize,
}

impl Mix {
    /// Records the shapes of two bags about to be merged.
    pub fn of(a: &SlotBag, b: &SlotBag) -> (m: Mix)
        ensures
            m.left == a@.len(),
            m.right == b@.len(),
    {
        Mix { left: a.slots.len(), right: b.slots.len() }
    }
}

/// Looks a field up in a bag by name.
pub trait ExtractField: View<V = Seq<Slot>> {
    /// The position holding the field's name, as a selector.
    fn field(&self, f: &Field) -> (r: Option<F>)
        ensures
            match r {
                Some(sel) => find_name(self@, f.name@) == Some(sel.index as int) && sel.index
                    < self@.len(),
                None => find_name(self@, f.name@) is None,
            },
    ;
}

/// A value whose assignable fields induce an all-undefined bag.
pub trait AsParams: Sized {
    /// The slots the value induces.
    spec fn as_params_spec(self) -> Seq<Slot>;

    /// Creates the bag.
    fn as_params(self) -> (r: SlotBag)
        ensures
            r@ == self.as_params_spec(),
    ;
}

impl SlotBag {
    /// Creates a bag with one undefined slot per field, in order.
    pub fn create(fields: Vec<Field>) -> (r: SlotBag)
        ensures
            r@.len() == fields@.len(),
            forall|i: int|
                0 <= i < fields@.len() ==> r@[i] == (Slot {
                    field: fields@[i],
                    state: SlotState::Undefined,
                }),
    {
        let ghost orig = fields@;
        let mut fields = fields;
        let mut slots: Vec<Slot> = Vec::new();
        while fields.len() > 0
            invariant
                slots@.len() + fields@.len() == orig.len(),
                fields@ == orig.skip(slots@.len() as int),
                forall|j: int|
                    0 <= j < slots@.len() ==> slots@[j] == (Slot {
                        field: orig[j],
                        state: SlotState::Undefined,
                    }),
            decreases fields@.len(),
        {
            let f = fields.remove(0);
            slots.push(Slot { field: f, state: SlotState::Undefined });
            proof {
                assert(fields@ =~= orig.skip(slots@.len() as int));
            }
        }
        SlotBag { slots }
    }

    /// The bag's slot count.
    pub fn len(&self) -> (n: usize)
        ensures
            n == self@.len(),
    {
        self.slots.len()
    }

    /// The position of the first slot whose field is named `name`.
    pub fn position_of(&self, name: &String) -> (r: Option<F>)
        ensures
            match r {
                Some(sel) => find_name(self@, name@) == Some(sel.index as int) && sel.index
                    < self@.len(),
                None => find_name(self@, name@) is None,
            },
    {
        let mut i: usize = 0;
        while i < self.slots.len()
            invariant
                i <= self@.len(),
                find_name(self@, name@) == find_name_from(self@, name@, i as int),
            decreases self@.len() - i,
        {
            if self.slots[i].field.name == *name {
                return Some(F { index: i });
            }
            i = i + 1;
        }
        None
    }

    /// Places `value` at `index`. Returns the new bag, or a conflict if
    /// the slot was defined already: a defined slot is never overwritten.
    pub fn assign(self, index: usize, value: Value) -> (r: Result<SlotBag, ParamConflict>)
        requires
            index < self@.len(),
        ensures
            match r {
                Ok(b) => assign_model(self@, index as int, value) == Ok::<_, ParamConflict>(b@),
                Err(c) => assign_model(self@, index as int, value) == Err::<Seq<Slot>, _>(c),
            },
    {
        let ghost orig = self@;
        let mut slots = self.slots;
        let slot = slots.remove(index);
        match slot.state {
            SlotState::Defined(_) => Err(ParamConflict::new(slot.field.name)),
            SlotState::Undefined => {
                let placed = Slot { field: slot.field, state: SlotState::Defined(value) };
                slots.insert(index, placed);
                proof {
                    assert(slots@ =~= orig.update(
                        index as int,
                        Slot { field: orig[index as int].field, state: SlotState::Defined(value) },
                    ));
                }
                Ok(SlotBag { slots })
            },
        }
    }

    /// Places a pending definition, as `assign` does.
    pub fn apply(self, d: D) -> (r: Result<SlotBag, ParamConflict>)
        requires
            d.index < self@.len(),
        ensures
            match r {
                Ok(b) => assign_model(self@, d.index as int, d.value) == Ok::<
                    _,
                    ParamConflict,
                >(b@),
                Err(c) => assign_model(self@, d.index as int, d.value) == Err::<Seq<Slot>, _>(c),
            },
    {
        self.assign(d.index, d.value)
    }

    /// Resolves every slot to a concrete named value: a defined slot
    /// yields its supplied value, an undefined one its policy's default.
    /// Fails with the first required field left undefined, if any.
    #[verifier::loop_isolation(false)]
    pub fn resolve(self) -> (r: Result<Vec<Entry>, ConstructError>)
        ensures
            match r {
                Ok(vals) => first_missing(self@) is None && vals@.len() == self@.len() && (forall|
                    i: int,
                |
                    0 <= i < self@.len() ==> entry_resolves(self@[i], #[trigger] vals@[i])),
                Err(e) => match first_missing(self@) {
                    Some(i) => e == ConstructError::MissingRequiredField(self@[i].field.name),
                    None => false,
                },
            },
    {
        let ghost orig = self@;
        let mut slots = self.slots;
        let mut out: Vec<Entry> = Vec::new();
        while slots.len() > 0
            invariant
                out@.len() + slots@.len() == orig.len(),
                slots@ == orig.skip(out@.len() as int),
                forall|j: int|
                    0 <= j < out@.len() ==> entry_resolves(orig[j], #[trigger] out@[j]),
                first_missing(orig) == first_missing_from(orig, out@.len() as int),
            decreases slots@.len(),
        {
            let ghost k = out@.len() as int;
            let slot = slots.remove(0);
            proof {
                assert(slot == orig[k]);
                assert(slots@ =~= orig.skip(k + 1));
            }
            let entry = match slot.state {
                SlotState::Defined(v) => Entry { name: slot.field.name, value: v },
                SlotState::Undefined => {
                    let field = slot.field;
                    match field.policy {
                        Policy::Required => {
                            proof {
                                assert(!orig[k].is_defined());
                                assert(orig[k].field.is_required());
                                assert(first_missing_from(orig, k) == Some(k));
                            }
                            return Err(ConstructError::MissingRequiredField(field.name));
                        },
                        Policy::StandardDefault => Entry {
                            name: field.name,
                            value: zero_value(field.tag),
                        },
                        Policy::FixedDefault(e) => Entry {
                            name: field.name,
                            value: e,
                        },
                        Policy::Skip(e) => Entry { name: field.name, value: e },
                    }
                },
            };
            out.push(entry);
            proof {
                assert(!(!orig[k].is_defined() && orig[k].field.is_required()));
                assert(first_missing_from(orig, k) == first_missing_from(orig, k + 1));
            }
        }
        Ok(out)
    }

    /// Splits off the first `n` slots, resolves them to concrete named
    /// values in declared order, and returns the remainder re-indexed
    /// from zero. Asking for more slots than the bag holds is a
    /// structural error.
    pub fn extract(self, n: usize) -> (r: Result<(Vec<Entry>, SlotBag), ConstructError>)
        ensures
            match r {
                Ok(p) => n <= self@.len() && first_missing(self@.take(n as int)) is None
                    && p.0@.len() == n && (forall|i: int|
                    0 <= i < n ==> entry_resolves(self@[i], #[trigger] p.0@[i])) && p.1@
                    == self@.skip(n as int),
                Err(e) => if n > self@.len() {
                    e == ConstructError::ShapeMismatch
                } else {
                    match first_missing(self@.take(n as int)) {
                        Some(i) => e == ConstructError::MissingRequiredField(
                            self@[i].field.name,
                        ),
                        None => false,
                    }
                },
            },
    {
        let ghost orig = self@;
        if n > self.slots.len() {
            return Err(ConstructError::ShapeMismatch);
        }
        let mut slots = self.slots;
        let rest = slots.split_off(n);
        proof {
            assert(slots@ =~= orig.take(n as int));
            assert(rest@ =~= orig.skip(n as int));
        }
        match (SlotBag { slots }).resolve() {
            Ok(vals) => {
                proof {
                    assert(forall|i: int|
                        0 <= i < n ==> orig.take(n as int)[i] == orig[i]);
                }
                Ok((vals, SlotBag { slots: rest }))
            },
            Err(e) => {
                proof {
                    lemma_first_missing_from(orig.take(n as int), 0);
                    assert(forall|i: int|
                        0 <= i < n ==> orig.take(n as int)[i] == orig[i]);
                }
                Err(e)
            },
        }
    }

    /// The positions still undefined, each with its declared type.
    pub fn vacancies(&self) -> (r: Vec<U>)
        ensures
            r@ == vacancies_from(self@, 0),
    {
        let mut out: Vec<U> = Vec::new();
        let mut i: usize = 0;
        while i < self.slots.len()
            invariant
                i <= self@.len(),
                vacancies_from(self@, 0) == out@ + vacancies_from(self@, i as int),
            decreases self@.len() - i,
        {
            match self.slots[i].state {
                SlotState::Undefined => {
                    out.push(U { index: i, tag: self.slots[i].field.tag });
                },
                SlotState::Defined(_) => {},
            }
            i = i + 1;
        }
        proof {
            assert(out@ + vacancies_from(self@, i as int) =~= out@);
        }
        out
    }
}

/// The vacancy tokens of every undefined slot at or after `k`, in order.
pub open spec fn vacancies_from(slots: Seq<Slot>, k: int) -> Seq<U>
    decreases slots.len() - k,
{
    if k < 0 || k >= slots.len() {
        Seq::empty()
    } else if !slots[k].is_defined() {
        seq![U { index: k as usize, tag: slots[k].field.tag }] + vacancies_from(slots, k + 1)
    } else {
        vacancies_from(slots, k + 1)
    }
}

impl ExtractField for SlotBag {
    fn field(&self, f: &Field) -> Option<F> {
        self.position_of(&f.name)
    }
}

/// Concatenates two bags: `a`'s slots first, then `b`'s.
pub fn merge(a: SlotBag, b: SlotBag) -> (c: SlotBag)
    ensures
        c@ == a@ + b@,
{
    let mut slots = a.slots;
    let mut tail = b.slots;
    slots.append(&mut tail);
    SlotBag { slots }
}

/// Partitions a merged bag back into its two original shapes,
/// re-indexing the remainder's positions from zero. Fails when the
/// remembered shape disagrees with the bag's length.
pub fn split(c: SlotBag, m: Mix) -> (r: Result<(SlotBag, SlotBag), ConstructError>)
    ensures
        match r {
            Ok(p) => m.left + m.right == c@.len() && p.0@ == c@.take(m.left as int) && p.1@
                == c@.skip(m.left as int),
            Err(e) => e == ConstructError::ShapeMismatch && m.left + m.right != c@.len(),
        },
{
    let ghost orig = c@;
    if m.left > c.slots.len() {
        return Err(ConstructError::ShapeMismatch);
    }
    let mut slots = c.slots;
    let rest = slots.split_off(m.left);
    if rest.len() != m.right {
        return Err(ConstructError::ShapeMismatch);
    }
    proof {
        assert(slots@ =~= orig.take(m.left as int));
        assert(rest@ =~= orig.skip(m.left as int));
    }
    Ok((SlotBag { slots }, SlotBag { slots: rest }))
}

/// What filling a bag from a sequence of named values yields: each value
/// is assigned to the first slot bearing its name, in supply order. An
/// unknown name or a second supply of the same slot fails the whole fill.
pub open spec fn fill_slots(slots: Seq<Slot>, supplied: Seq<(String, Value)>) -> Result<
    Seq<Slot>,
    ConstructError,
>
    decreases supplied.len(),
{
    if supplied.len() == 0 {
        Ok(slots)
    } else {
        let name = supplied[0].0;
        let value = supplied[0].1;
        match find_name(slots, name@) {
            None => Err(ConstructError::UnknownField(name)),
            Some(i) => match assign_model(slots, i, value) {
                Err(_) => Err(ConstructError::DuplicateFieldAssignment(name)),
                Ok(s2) => fill_slots(s2, supplied.drop_first()),
            },
        }
    }
}

/// A found name lies inside the sequence, names its slot, and no slot
/// before it bears the name.
pub proof fn lemma_find_name_bounds(slots: Seq<Slot>, name: Seq<char>, k: int)
    requires
        0 <= k,
    ensures
        match find_name_from(slots, name, k) {
            Some(i) => k <= i < slots.len() && slots[i].field.name@ == name && forall|j: int|
                k <= j < i ==> slots[j].field.name@ != name,
            None => forall|j: int| k <= j < slots.len() ==> slots[j].field.name@ != name,
        },
    decreases slots.len() - k,
{
    if k < slots.len() && slots[k].field.name@ != name {
        lemma_find_name_bounds(slots, name, k + 1);
    }
}

/// Whether two slot sequences declare the same fields at every position.
/// Filling a bag never changes its fields, only its states.
pub open spec fn fields_match(a: Seq<Slot>, b: Seq<Slot>) -> bool {
    a.len() == b.len() && forall|i: int| 0 <= i < a.len() ==> a[i].field == (#[trigger] b[i]).field
}

/// A successful fill keeps every slot's field in place.
pub proof fn lemma_fill_preserves_fields(slots: Seq<Slot>, supplied: Seq<(String, Value)>)
    ensures
        match fill_slots(slots, supplied) {
            Ok(s2) => fields_match(slots, s2),
            Err(_) => true,
        },
    decreases supplied.len(),
{
    if supplied.len() > 0 {
        let name = supplied[0].0;
        let value = supplied[0].1;
        lemma_find_name_bounds(slots, name@, 0);
        match find_name(slots, name@) {
            None => {},
            Some(i) => match assign_model(slots, i, value) {
                Err(_) => {},
                Ok(s2) => {
                    assert(fields_match(slots, s2));
                    lemma_fill_preserves_fields(s2, supplied.drop_first());
                    assert(fill_slots(slots, supplied) == fill_slots(s2, supplied.drop_first()));
                    match fill_slots(s2, supplied.drop_first()) {
                        Ok(sf) => {
                            assert forall|t: int| 0 <= t < slots.len() implies slots[t].field == (
                            #[trigger] sf[t]).field by {
                                assert(slots[t].field == s2[t].field);
                                assert(s2[t].field == sf[t].field);
                            }
                        },
                        Err(_) => {},
                    }
                },
            },
        }
    }
}

impl SlotBag {
    /// Assigns each supplied named value to the slot bearing its name, in
    /// supply order. Fails on a name outside the bag and on a second
    /// supply of the same slot.
    #[verifier::loop_isolation(false)]
    pub fn fill(self, supplied: Vec<(String, Value)>) -> (r: Result<SlotBag, ConstructError>)
        ensures
            match r {
                Ok(b) => fill_slots(self@, supplied@) == Ok::<_, ConstructError>(b@),
                Err(e) => fill_slots(self@, supplied@) == Err::<Seq<Slot>, _>(e),
            },
    {
        let ghost orig_slots = self@;
        let ghost orig_supplied = supplied@;
        let mut bag = self;
        let mut supplied = supplied;
        while supplied.len() > 0
            invariant
                fill_slots(orig_slots, orig_supplied) == fill_slots(bag@, supplied@),
            decreases supplied@.len(),
        {
            let ghost pre = supplied@;
            let (name, value) = supplied.remove(0);
            proof {
                assert(supplied@ =~= pre.drop_first());
                assert(name == pre[0].0);
                assert(value == pre[0].1);
            }
            match bag.position_of(&name) {
                None => {
                    return Err(ConstructError::UnknownField(name));
                },
                Some(sel) => {
                    match bag.assign(sel.index, value) {
                        Ok(b) => {
                            bag = b;
                        },
                        Err(_) => {
                            return Err(ConstructError::DuplicateFieldAssignment(name));
                        },
                    }
                },
            }
        }
        Ok(bag)
    }
}

/// Law: splitting a merged bag at the left part's length recovers
/// exactly the two original bags, for all sizes and contents.
pub proof fn lemma_merge_split_roundtrip(a: Seq<Slot>, b: Seq<Slot>)
    ensures
        (a + b).take(a.len() as int) == a,
        (a + b).skip(a.len() as int) == b,
{
    assert((a + b).take(a.len() as int) =~= a);
    assert((a + b).skip(a.len() as int) =~= b);
}

/// Law: a slot accepts at most one assignment. Once an assignment at a
/// position succeeds, every further assignment there yields a conflict,
/// whatever the two values are.
pub proof fn lemma_assign_at_most_once(s: Seq<Slot>, i: int, v1: Value, v2: Value)
    requires
        0 <= i < s.len(),
    ensures
        match assign_model(s, i, v1) {
            Ok(s2) => assign_model(s2, i, v2) matches Err(_),
            Err(_) => true,
        },
{
}

/// Law: a first missing required slot exists exactly when some required
/// slot is still undefined, so resolution fails on such a bag and only
/// on such a bag.
pub proof fn lemma_required_enforcement(s: Seq<Slot>)
    ensures
        (first_missing(s) is Some) <==> exists|i: int|
            0 <= i < s.len() && !s[i].is_defined() && s[i].field.is_required(),
{
    lemma_first_missing_from(s, 0);
}

/// A first missing required slot, where one exists, lies inside the
/// sequence, is undefined, and is required.
pub proof fn lemma_first_missing_from(s: Seq<Slot>, k: int)
    requires
        0 <= k,
    ensures
        (first_missing_from(s, k) is Some) <==> exists|i: int|
            k <= i < s.len() && !s[i].is_defined() && s[i].field.is_required(),
        match first_missing_from(s, k) {
            Some(i) => k <= i < s.len() && !s[i].is_defined() && s[i].field.is_required(),
            None => true,
        },
    decreases s.len() - k,
{
    if k < s.len() {
        lemma_first_missing_from(s, k + 1);
    }
}

} // verus!
