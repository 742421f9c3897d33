//! The flattener: reshapes the chain walk's right-nested construction
//! result into one ordered tuple of instances, and back. Purely
//! structural; no value is computed or changed.

use vstd::prelude::*;

use crate::chain::Instance;

verus! {

/// A chain's right-nested construction result: the most-derived
/// instance paired with its base chain's result, ending in the empty
/// sentinel.
#[derive(Debug, PartialEq, Eq)]
pub enum Nested {
    /// The terminal empty sentinel.
    End,
    /// One constructed level atop its base chain's result.
    Layer(Instance, Box<Nested>),
}

/// The ordered tuple a nested result flattens to, most-derived first.
pub open spec fn flatten_model(n: Nested) -> Seq<Instance>
    decreases n,
{
    match n {
        Nested::End => Seq::empty(),
        Nested::Layer(inst, rest) => seq![inst] + flatten_model(*rest),
    }
}

/// Reshapes a nested result into one ordered tuple, most-derived first.
pub fn flatten(n: Nested) -> (r: Vec<Instance>)
    ensures
        r@ == flatten_model(n),
    decreases n,
{
    match n {
        Nested::End => Vec::new(),
        Nested::Layer(inst, rest) => {
            let mut out = flatten(*rest);
            out.insert(0, inst);
            proof {
                assert(out@ =~= flatten_model(n));
            }
            out
        },
    }
}

/// Rebuilds the nested result an ordered tuple flattens from: the exact
/// inverse of `flatten`.
#[verifier::loop_isolation(false)]
pub fn strip(tuple: Vec<Instance>) -> (r: Nested)
    ensures
        flatten_model(r) == tuple@,
{
    let ghost tm = tuple@;
    let mut tuple = tuple;
    let mut n = Nested::End;
    while tuple.len() > 0
        invariant
            tuple@.len() <= tm.len(),
            tuple@ == tm.take(tuple@.len() as int),
            flatten_model(n) == tm.skip(tuple@.len() as int),
        decreases tuple@.len(),
    {
        let ghost k = tuple@.len() as int;
        let inst = tuple.pop().unwrap();
        proof {
            assert(inst == tm[k - 1]);
            assert(tuple@ =~= tm.take(k - 1));
        }
        n = Nested::Layer(inst, Box::new(n));
        proof {
            assert(seq![tm[k - 1]] + tm.skip(k) =~= tm.skip(k - 1));
        }
    }
    proof {
        assert(tm.skip(0) =~= tm);
    }
    n
}

/// Law: flattening is injective, so the nested result can always be
/// recovered from its tuple.
pub proof fn lemma_flatten_injective(a: Nested, b: Nested)
    requires
        flatten_model(a) == flatten_model(b),
    ensures
        a == b,
    decreases a,
{
    match a {
        Nested::End => match b {
            Nested::End => {},
            Nested::Layer(i2, r2) => {
                assert(flatten_model(b).len() > 0);
            },
        },
        Nested::Layer(i1, r1) => match b {
            Nested::End => {
                assert(flatten_model(a).len() > 0);
            },
            Nested::Layer(i2, r2) => {
                assert(flatten_model(a)[0] == i1);
                assert(flatten_model(b)[0] == i2);
                assert(flatten_model(*r1) =~= flatten_model(a).drop_first());
                assert(flatten_model(*r2) =~= flatten_model(b).drop_first());
                lemma_flatten_injective(*r1, *r2);
            },
        },
    }
}

/// Law: stripping a flattened chain yields the chain itself, for every
/// chain length. Any tuple with the chain's flattening strips back to
/// the chain.
pub proof fn lemma_strip_flatten_roundtrip(chain: Nested, stripped: Nested)
    requires
        flatten_model(stripped) == flatten_model(chain),
    ensures
        stripped == chain,
{
    lemma_flatten_injective(stripped, chain);
}

} // verus!
