//! The closed set of source-language types.

use crate::text::str_eq;
use vstd::prelude::*;

verus! {

broadcast use vstd::std_specs::vec::group_vec_axioms;

/// A source-language type. `Unknown` is a placeholder pending inference and
/// never stands in the checked tree of a well-typed program.
#[derive(Debug)]
pub enum Type {
    Number,
    String,
    Boolean,
    Void,
    Function { params: Vec<Type>, return_type: Box<Type> },
    Unknown,
}

/// The mathematical form of a source-language type, used in contracts.
#[verifier::ext_equal]
pub enum TypeV {
    Number,
    String,
    Boolean,
    Void,
    Function { params: Seq<TypeV>, return_type: Box<TypeV> },
    Unknown,
}

/// The mathematical form of a type value.
pub open spec fn type_view(t: Type) -> TypeV
    decreases t,
{
    match t {
        Type::Number => TypeV::Number,
        Type::String => TypeV::String,
        Type::Boolean => TypeV::Boolean,
        Type::Void => TypeV::Void,
        Type::Unknown => TypeV::Unknown,
        Type::Function { params, return_type } => TypeV::Function {
            params: seq_type_view(params@),
            return_type: Box::new(type_view(*return_type)),
        },
    }
}

/// The mathematical form of a list of type values.
pub open spec fn seq_type_view(s: Seq<Type>) -> Seq<TypeV>
    decreases s,
{
    if s.len() == 0 {
        Seq::empty()
    } else {
        seq_type_view(s.drop_last()).push(type_view(s.last()))
    }
}

/// `seq_type_view` maps `type_view` over the elements.
pub proof fn lemma_seq_type_view(s: Seq<Type>)
    ensures
        seq_type_view(s).len() == s.len(),
        forall|i: int| 0 <= i < s.len() ==> #[trigger] seq_type_view(s)[i] == type_view(s[i]),
    decreases s.len(),
{
    if s.len() > 0 {
        lemma_seq_type_view(s.drop_last());
        assert forall|i: int| 0 <= i < s.len() implies #[trigger] seq_type_view(s)[i] == type_view(
            s[i],
        ) by {
            if i < s.len() - 1 {
                assert(s.drop_last()[i] == s[i]);
            }
        }
    }
}

/// The type named by a source annotation.
pub open spec fn spec_from_annotation(s: Seq<char>) -> TypeV {
    if s == "number"@ {
        TypeV::Number
    } else if s == "string"@ {
        TypeV::String
    } else if s == "boolean"@ {
        TypeV::Boolean
    } else if s == "void"@ {
        TypeV::Void
    } else {
        TypeV::Unknown
    }
}

impl Type {
    /// Maps a source type annotation to a `Type`; unrecognized names map to
    /// `Unknown`.
    pub fn from_annotation(s: &str) -> (r: Type)
        ensures
            type_view(r) == spec_from_annotation(s@),
    {
        if str_eq(s, "number") {
            Type::Number
        } else if str_eq(s, "string") {
            Type::String
        } else if str_eq(s, "boolean") {
            Type::Boolean
        } else if str_eq(s, "void") {
            Type::Void
        } else {
            Type::Unknown
        }
    }
}

/// Structural equality of two types.
#[verifier::loop_isolation(false)]
pub fn type_eq(a: &Type, b: &Type) -> (r: bool)
    ensures
        r == (type_view(*a) == type_view(*b)),
    decreases *a,
{
    match (a, b) {
        (Type::Number, Type::Number) => true,
        (Type::String, Type::String) => true,
        (Type::Boolean, Type::Boolean) => true,
        (Type::Void, Type::Void) => true,
        (Type::Unknown, Type::Unknown) => true,
        (
            Type::Function { params: pa, return_type: ra },
            Type::Function { params: pb, return_type: rb },
        ) => {
            proof {
                lemma_seq_type_view(pa@);
                lemma_seq_type_view(pb@);
            }
            if pa.len() != pb.len() {
                return false;
            }
            let mut i: usize = 0;
            while i < pa.len()
                invariant
                    i <= pa@.len(),
                    pa@.len() == pb@.len(),
                    forall|j: int|
                        0 <= j < i ==> #[trigger] type_view(pa@[j]) == type_view(pb@[j]),
                decreases pa@.len() - i,
            {
                proof {
                    assert(decreases_to!(*a => (*pa)@[i as int]));
                }
                if !type_eq(&pa[i], &pb[i]) {
                    proof {
                        assert(seq_type_view(pa@)[i as int] != seq_type_view(pb@)[i as int]);
                    }
                    return false;
                }
                i += 1;
            }
            proof {
                assert(seq_type_view(pa@) =~= seq_type_view(pb@));
            }
            let req: bool = type_eq(&**ra, &**rb);
            proof {
                if req {
                    assert(type_view(*a) =~= type_view(*b));
                }
            }
            req
        },
        _ => false,
    }
}

/// A deep copy of a type, equal in content to the original.
#[verifier::loop_isolation(false)]
pub fn clone_type(t: &Type) -> (r: Type)
    ensures
        type_view(r) == type_view(*t),
    decreases *t,
{
    match t {
        Type::Number => Type::Number,
        Type::String => Type::String,
        Type::Boolean => Type::Boolean,
        Type::Void => Type::Void,
        Type::Unknown => Type::Unknown,
        Type::Function { params, return_type } => {
            proof {
                lemma_seq_type_view(params@);
            }
            let mut ps: Vec<Type> = Vec::new();
            let mut i: usize = 0;
            while i < params.len()
                invariant
                    i <= params@.len(),
                    ps@.len() == i,
                    forall|j: int|
                        0 <= j < i ==> #[trigger] type_view(ps@[j]) == type_view(params@[j]),
                decreases params@.len() - i,
            {
                proof {
                    assert(decreases_to!(*t => (*params)@[i as int]));
                }
                ps.push(clone_type(&params[i]));
                i += 1;
            }
            proof {
                lemma_seq_type_view(ps@);
                assert(seq_type_view(ps@) =~= seq_type_view(params@));
            }
            let r = Type::Function {
                params: ps,
                return_type: Box::new(clone_type(&**return_type)),
            };
            proof {
                assert(type_view(r) =~= type_view(*t));
            }
            r
        },
    }
}

} // verus!
