use vstd::prelude::*;

verus! {

/// The per-key version counter of the store.
pub type Version = u64;

/// Mathematical model of a primitive value: a scalar, a tuple of models,
/// or the empty value.
pub enum Primitive {
    Scalar(u32),
    Tuple(Seq<Primitive>),
    Empty,
}

/// The values that transactions exchange with the code executor.
#[derive(Debug, PartialEq, Eq)]
pub enum SVMPrimitives {
    /// An unsigned 24-bit scalar.
    U24(u32),
    /// An ordered, possibly nested, tuple.
    Tup(Vec<SVMPrimitives>),
    /// The empty value.
    Era,
}

/// The model of an executable primitive value.
pub open spec fn model_of(p: SVMPrimitives) -> Primitive
    decreases p,
{
    match p {
        SVMPrimitives::U24(n) => Primitive::Scalar(n),
        SVMPrimitives::Tup(els) => Primitive::Tuple(
            Seq::new(
                els.len() as nat,
                |i: int|
                    if 0 <= i < els.len() {
                        model_of(els[i])
                    } else {
                        Primitive::Empty
                    },
            ),
        ),
        SVMPrimitives::Era => Primitive::Empty,
    }
}

impl View for SVMPrimitives {
    type V = Primitive;

    open spec fn view(&self) -> Primitive {
        model_of(*self)
    }
}

impl SVMPrimitives {
    /// A structural copy of the value.
    pub fn deep_copy(&self) -> (r: Self)
        ensures
            r@ == self@,
        decreases self,
    {
        match self {
            SVMPrimitives::U24(n) => SVMPrimitives::U24(*n),
            SVMPrimitives::Tup(els) => {
                let mut copied: Vec<SVMPrimitives> = Vec::new();
                let mut i: usize = 0;
                while i < els.len()
                    invariant
                        *self == SVMPrimitives::Tup(*els),
                        i <= els.len(),
                        copied@.len() == i,
                        forall|j: int| 0 <= j < i ==> model_of(#[trigger] copied@[j]) == model_of(els@[j]),
                    decreases els.len() - i,
                {
                    proof {
                        vstd::std_specs::vec::axiom_vec_index_decreases(*els, i as int);
                        assert(decreases_to!(*self => self->Tup_0));
                    }
                    copied.push(els[i].deep_copy());
                    i = i + 1;
                }
                let r = SVMPrimitives::Tup(copied);
                proof {
                    assert(model_of(r) == model_of(*self)) by {
                        if let Primitive::Tuple(a) = model_of(r) {
                            if let Primitive::Tuple(b) = model_of(*self) {
                                assert(a =~= b);
                            }
                        }
                    }
                }
                r
            },
            SVMPrimitives::Era => SVMPrimitives::Era,
        }
    }
}

impl Clone for SVMPrimitives {
    fn clone(&self) -> (r: Self)
        ensures
            r@ == self@,
    {
        self.deep_copy()
    }
}

/// A stored value together with the version at which it became current.
#[derive(Debug, PartialEq, Eq)]
pub struct SVMObject<T> {
    pub value: T,
    pub version: Version,
}

impl View for SVMObject<SVMPrimitives> {
    type V = SVMObject<Primitive>;

    open spec fn view(&self) -> SVMObject<Primitive> {
        SVMObject { value: self.value@, version: self.version }
    }
}

impl Clone for SVMObject<SVMPrimitives> {
    fn clone(&self) -> (r: Self)
        ensures
            r@ == self@,
    {
        SVMObject { value: self.value.deep_copy(), version: self.version }
    }
}

} // verus!
