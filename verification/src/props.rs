//! Property access: composed get/set along a dotted field path, across a
//! constructed instance and through nested chain-built values, plus the
//! per-level registry of declared property paths.

use vstd::prelude::*;

use crate::chain::Instance;
use crate::errors::ConstructError;
use crate::value::{Entry, Value};

verus! {

/// The position of the first entry at or after `k` named `name`, if any.
pub open spec fn find_entry_from(entries: Seq<Entry>, name: Seq<char>, k: int) -> Option<int>
    decreases entries.len() - k,
{
    if k < 0 || k >= entries.len() {
        None
    } else if entries[k].name@ == name {
        Some(k)
    } else {
        find_entry_from(entries, name, k + 1)
    }
}

/// The position of the first entry named `name`, if any.
pub open spec fn find_entry(entries: Seq<Entry>, name: Seq<char>) -> Option<int> {
    find_entry_from(entries, name, 0)
}

/// The value a dotted path reaches from segment `k` on: each segment
/// names an entry, every intermediate value must itself be chain-built,
/// and the last segment's value is the result.
pub open spec fn path_value_from(inst: Instance, path: Seq<String>, k: int) -> Option<Value>
    decreases path.len() - k,
{
    if k < 0 || k >= path.len() {
        None
    } else {
        match find_entry(inst.entries@, path[k]@) {
            None => None,
            Some(i) => {
                let v = inst.entries@[i].value;
                if k == path.len() - 1 {
                    Some(v)
                } else {
                    match v {
                        Value::Obj(b) => path_value_from(*b, path, k + 1),
                        _ => None,
                    }
                }
            },
        }
    }
}

/// The value a dotted path reaches in an instance, if any.
pub open spec fn path_value(inst: Instance, path: Seq<String>) -> Option<Value> {
    path_value_from(inst, path, 0)
}

/// The segment at which a set along the path fails, if any: the first
/// segment that names no entry, or a segment reached through a value
/// that is not chain-built.
pub open spec fn path_fail_from(inst: Instance, path: Seq<String>, k: int) -> Option<int>
    decreases path.len() - k,
{
    if k < 0 || k >= path.len() {
        None
    } else {
        match find_entry(inst.entries@, path[k]@) {
            None => Some(k),
            Some(i) => if k == path.len() - 1 {
                None
            } else {
                match inst.entries@[i].value {
                    Value::Obj(b) => path_fail_from(*b, path, k + 1),
                    _ => Some(k + 1),
                }
            },
        }
    }
}

/// How a set along the path from segment `k` relates the instance before
/// to the instance after: only the addressed entry changes, its name
/// stays, and at the last segment it holds the new value.
pub open spec fn path_update(
    before: Instance,
    path: Seq<String>,
    k: int,
    v: Value,
    after: Instance,
) -> bool
    decreases path.len() - k,
{
    if k < 0 || k >= path.len() {
        false
    } else {
        match find_entry(before.entries@, path[k]@) {
            None => false,
            Some(i) => after.name == before.name && after.entries@.len() == before.entries@.len()
                && (forall|j: int|
                0 <= j < before.entries@.len() && j != i ==> after.entries@[j] == #[trigger] before.entries@[j])
                && after.entries@[i].name == before.entries@[i].name && (if k == path.len() - 1 {
                after.entries@[i].value == v
            } else {
                match (before.entries@[i].value, after.entries@[i].value) {
                    (Value::Obj(b0), Value::Obj(b1)) => path_update(*b0, path, k + 1, v, *b1),
                    _ => false,
                }
            }),
        }
    }
}

/// The position of the first entry named `name`, found at runtime.
pub fn entry_position(entries: &Vec<Entry>, name: &String) -> (r: Option<usize>)
    ensures
        match r {
            Some(i) => find_entry(entries@, name@) == Some(i as int) && i < entries@.len(),
            None => find_entry(entries@, name@) is None,
        },
{
    let mut i: usize = 0;
    while i < entries.len()
        invariant
            i <= entries@.len(),
            find_entry(entries@, name@) == find_entry_from(entries@, name@, i as int),
        decreases entries@.len() - i,
    {
        if entries[i].name == *name {
            return Some(i);
        }
        i = i + 1;
    }
    None
}

/// Reads the value a dotted path reaches from segment `from` on,
/// borrowing it from the instance.
pub fn path_get<'a>(inst: &'a Instance, path: &Vec<String>, from: usize) -> (r: Option<&'a Value>)
    ensures
        match r {
            Some(v) => path_value_from(*inst, path@, from as int) == Some(*v),
            None => path_value_from(*inst, path@, from as int) is None,
        },
    decreases path@.len() - from,
{
    if from >= path.len() {
        return None;
    }
    match entry_position(&inst.entries, &path[from]) {
        None => None,
        Some(i) => {
            if from == path.len() - 1 {
                Some(&inst.entries[i].value)
            } else {
                match &inst.entries[i].value {
                    Value::Obj(b) => path_get(&**b, path, from + 1),
                    _ => None,
                }
            }
        },
    }
}

/// Replaces the value a dotted path reaches from segment `from` on,
/// returning the updated instance. Every access recomputes the composed
/// walk; nothing is cached. Fails, naming the offending segment, when a
/// segment names no entry or an intermediate value is not chain-built.
pub fn path_set(inst: Instance, path: &Vec<String>, from: usize, value: Value) -> (r: Result<
    Instance,
    ConstructError,
>)
    requires
        from < path@.len(),
    ensures
        match r {
            Ok(a) => path_fail_from(inst, path@, from as int) is None && path_update(
                inst,
                path@,
                from as int,
                value,
                a,
            ),
            Err(e) => match path_fail_from(inst, path@, from as int) {
                Some(ix) => e == ConstructError::UnknownField(path@[ix]),
                None => false,
            },
        },
    decreases path@.len() - from,
{
    let Instance { name, entries } = inst;
    let ghost emodel = entries@;
    match entry_position(&entries, &path[from]) {
        None => Err(ConstructError::UnknownField(path[from].clone())),
        Some(i) => {
            let mut entries = entries;
            let entry = entries.remove(i);
            let Entry { name: ename, value: evalue } = entry;
            if from == path.len() - 1 {
                let placed = Entry { name: ename, value };
                let ghost pmodel = placed;
                entries.insert(i, placed);
                proof {
                    assert(entries@ =~= emodel.update(i as int, pmodel));
                }
                Ok(Instance { name, entries })
            } else {
                match evalue {
                    Value::Obj(b) => {
                        match path_set(*b, path, from + 1, value) {
                            Ok(binst) => {
                                let ghost bmodel = binst;
                                let placed = Entry {
                                    name: ename,
                                    value: Value::Obj(Box::new(binst)),
                                };
                                let ghost pmodel = placed;
                                entries.insert(i, placed);
                                proof {
                                    assert(entries@ =~= emodel.update(i as int, pmodel));
                                    assert(pmodel.value matches Value::Obj(b1) && *b1 == bmodel);
                                }
                                Ok(Instance { name, entries })
                            },
                            Err(e) => Err(e),
                        }
                    },
                    _ => Err(ConstructError::UnknownField(path[from + 1].clone())),
                }
            }
        },
    }
}

/// The value the first level of a flattened chain result yields for a
/// path, searching most-derived level first from position `k`.
pub open spec fn tuple_value_from(
    instances: Seq<Instance>,
    path: Seq<String>,
    k: int,
) -> Option<Value>
    decreases instances.len() - k,
{
    if k < 0 || k >= instances.len() {
        None
    } else {
        match path_value(instances[k], path) {
            Some(v) => Some(v),
            None => tuple_value_from(instances, path, k + 1),
        }
    }
}

/// The value a path reaches in a flattened chain result, searching
/// most-derived level first.
pub open spec fn tuple_value(instances: Seq<Instance>, path: Seq<String>) -> Option<Value> {
    tuple_value_from(instances, path, 0)
}

/// Reads a path across a flattened chain result: the most-derived level
/// that resolves the path wins.
pub fn tuple_get<'a>(tuple: &'a Vec<Instance>, path: &Vec<String>) -> (r: Option<&'a Value>)
    ensures
        match r {
            Some(v) => tuple_value(tuple@, path@) == Some(*v),
            None => tuple_value(tuple@, path@) is None,
        },
{
    let mut k: usize = 0;
    while k < tuple.len()
        invariant
            k <= tuple@.len(),
            tuple_value(tuple@, path@) == tuple_value_from(tuple@, path@, k as int),
        decreases tuple@.len() - k,
    {
        match path_get(&tuple[k], path, 0) {
            Some(v) => {
                return Some(v);
            },
            None => {},
        }
        k = k + 1;
    }
    None
}

/// One composed (get, set) accessor for a dotted field path.
#[derive(Debug, PartialEq, Eq)]
pub struct Prop {
    pub path: Vec<String>,
}

/// The borrowed read half of an accessor.
pub struct Get<'a> {
    pub path: &'a Vec<String>,
}

impl Prop {
    /// Builds the accessor for a path.
    pub fn new(path: Vec<String>) -> (p: Prop)
        ensures
            p == (Prop { path }),
    {
        Prop { path }
    }

    /// Reads the path's value from an instance.
    pub fn get<'a>(&self, host: &'a Instance) -> (r: Option<&'a Value>)
        ensures
            match r {
                Some(v) => path_value(*host, self.path@) == Some(*v),
                None => path_value(*host, self.path@) is None,
            },
    {
        path_get(host, &self.path, 0)
    }

    /// Replaces the path's value in an instance, returning the updated
    /// instance.
    pub fn set(&self, host: Instance, value: Value) -> (r: Result<Instance, ConstructError>)
        requires
            self.path@.len() > 0,
        ensures
            match r {
                Ok(a) => path_fail_from(host, self.path@, 0) is None && path_update(
                    host,
                    self.path@,
                    0,
                    value,
                    a,
                ),
                Err(e) => match path_fail_from(host, self.path@, 0) {
                    Some(ix) => e == ConstructError::UnknownField(self.path@[ix]),
                    None => false,
                },
            },
    {
        path_set(host, &self.path, 0, value)
    }

    /// The read half alone, borrowing this accessor's path.
    pub fn getter<'a>(&'a self) -> (g: Get<'a>)
        ensures
            g.path@ == self.path@,
    {
        Get { path: &self.path }
    }
}

impl<'a> Get<'a> {
    /// Reads the path's value from an instance.
    pub fn read<'b>(&self, host: &'b Instance) -> (r: Option<&'b Value>)
        ensures
            match r {
                Some(v) => path_value(*host, self.path@) == Some(*v),
                None => path_value(*host, self.path@) is None,
            },
    {
        path_get(host, self.path, 0)
    }
}

/// The dotted paths of a path sequence, by content.
pub open spec fn path_views(path: Seq<String>) -> Seq<Seq<char>> {
    path.map(|i: int, s: String| s@)
}

/// Whether two paths name the same segments.
pub fn paths_equal(a: &Vec<String>, b: &Vec<String>) -> (r: bool)
    ensures
        r == (path_views(a@) == path_views(b@)),
{
    if a.len() != b.len() {
        proof {
            assert(path_views(a@).len() != path_views(b@).len());
        }
        return false;
    }
    let mut i: usize = 0;
    while i < a.len()
        invariant
            a@.len() == b@.len(),
            i <= a@.len(),
            forall|j: int| 0 <= j < i ==> a@[j]@ == #[trigger] b@[j]@,
        decreases a@.len() - i,
    {
        if !(a[i] == b[i]) {
            proof {
                assert(path_views(a@)[i as int] != path_views(b@)[i as int]);
            }
            return false;
        }
        i = i + 1;
    }
    proof {
        assert forall|j: int| 0 <= j < a@.len() implies path_views(a@)[j] == path_views(b@)[j] by {
            assert(a@[j]@ == b@[j]@);
        }
        assert(path_views(a@) =~= path_views(b@));
    }
    true
}

/// A conflict: the registered path was declared already. Re-declaring a
/// property is always an error.
#[derive(Debug, PartialEq, Eq)]
pub struct PropConflict {
    pub path: Vec<String>,
}

/// The report a conflict turns into: the named path was redefined.
#[derive(Debug, PartialEq, Eq)]
pub struct PropRedefined {
    pub path: Vec<String>,
}

impl PropConflict {
    /// Records a conflict on the given path.
    pub fn new(path: Vec<String>) -> (c: PropConflict)
        ensures
            c == (PropConflict { path }),
    {
        PropConflict { path }
    }

    /// Turns the conflict into its redefinition report.
    pub fn validate(self) -> (r: PropRedefined)
        ensures
            r == (PropRedefined { path: self.path }),
    {
        PropRedefined { path: self.path }
    }
}

/// A level's registry of declared property accessors, each under a
/// distinct path.
#[derive(Debug, PartialEq, Eq)]
pub struct Props {
    pub props: Vec<Prop>,
}

impl Props {
    /// The empty registry.
    pub fn new() -> (p: Props)
        ensures
            p.props@ == Seq::<Prop>::empty(),
    {
        Props { props: Vec::new() }
    }

    /// Registers one more accessor. A path registered twice is a
    /// conflict, never a silent replacement.
    pub fn register(self, p: Prop) -> (r: Result<Props, PropConflict>)
        ensures
            match r {
                Ok(ps) => ps.props@ == self.props@.push(p) && (forall|j: int|
                    0 <= j < self.props@.len() ==> path_views(
                        (#[trigger] self.props@[j]).path@,
                    ) != path_views(p.path@)),
                Err(c) => (exists|j: int|
                    0 <= j < self.props@.len() && path_views(
                        (#[trigger] self.props@[j]).path@,
                    ) == path_views(p.path@)) && c == (PropConflict { path: p.path }),
            },
    {
        let mut i: usize = 0;
        while i < self.props.len()
            invariant
                i <= self.props@.len(),
                forall|j: int|
                    0 <= j < i ==> path_views((#[trigger] self.props@[j]).path@) != path_views(
                        p.path@,
                    ),
            decreases self.props@.len() - i,
        {
            if paths_equal(&self.props[i].path, &p.path) {
                return Err(PropConflict::new(p.path));
            }
            i = i + 1;
        }
        let mut props = self.props;
        props.push(p);
        Ok(Props { props })
    }
}

/// A type with one canonical instance, as the terminal sentinel's
/// companions have.
pub trait Singleton: Sized {
    /// The canonical instance.
    spec fn canonical() -> Self;

    /// Yields the canonical instance.
    fn instance() -> (r: Self)
        ensures
            r == Self::canonical(),
    ;
}

/// The terminal sentinel's property registry: the sentinel has no
/// fields, so it offers nothing to read or write.
#[derive(Clone, Copy, Debug, PartialEq, Eq, Structural)]
pub struct NothingProps;

/// The sentinel's read accessors: every read misses.
#[derive(Clone, Copy, Debug, PartialEq, Eq, Structural)]
pub struct NothingGetters;

/// The sentinel's write accessors: there is nothing to write.
#[derive(Clone, Copy, Debug, PartialEq, Eq, Structural)]
pub struct NothingSetters;

impl NothingProps {
    /// The sentinel's read accessors.
    pub fn getters(&self) -> (g: NothingGetters)
        ensures
            g == NothingGetters,
    {
        NothingGetters
    }

    /// The sentinel's write accessors.
    pub fn setters(&self) -> (s: NothingSetters)
        ensures
            s == NothingSetters,
    {
        NothingSetters
    }
}

impl NothingGetters {
    /// No field of the sentinel can be read.
    pub fn read(&self, _name: &String) -> (r: Option<Value>)
        ensures
            r is None,
    {
        None
    }
}

impl Singleton for NothingProps {
    open spec fn canonical() -> Self {
        NothingProps
    }

    fn instance() -> Self {
        NothingProps
    }
}

impl Singleton for NothingGetters {
    open spec fn canonical() -> Self {
        NothingGetters
    }

    fn instance() -> Self {
        NothingGetters
    }
}

impl Singleton for NothingSetters {
    open spec fn canonical() -> Self {
        NothingSetters
    }

    fn instance() -> Self {
        NothingSetters
    }
}

} // verus!
