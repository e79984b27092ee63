use vstd::prelude::*;

verus! {

/// The types of the language.
#[derive(PartialEq, Debug)]
pub enum Type {
    Int,
    Float,
    Bool,
    String,
    Unit,
    Function { params: Vec<Type>, return_ty: Box<Type> },
    Error,
}

/// The mathematical value of a [`Type`].
pub enum SpecType {
    Int,
    Float,
    Bool,
    String,
    Unit,
    Function { params: Seq<SpecType>, return_ty: Box<SpecType> },
    Error,
}

pub open spec fn view_type(t: Type) -> SpecType
    decreases t,
{
    match t {
        Type::Int => SpecType::Int,
        Type::Float => SpecType::Float,
        Type::Bool => SpecType::Bool,
        Type::String => SpecType::String,
        Type::Unit => SpecType::Unit,
        Type::Function { params, return_ty } => SpecType::Function {
            params: view_types(params@),
            return_ty: Box::new(view_type(*return_ty)),
        },
        Type::Error => SpecType::Error,
    }
}

pub open spec fn view_types(s: Seq<Type>) -> Seq<SpecType>
    decreases s,
{
    if s.len() == 0 {
        Seq::empty()
    } else {
        view_types(s.drop_last()).push(view_type(s.last()))
    }
}

impl View for Type {
    type V = SpecType;

    open spec fn view(&self) -> SpecType {
        view_type(*self)
    }
}

pub proof fn lemma_view_types_index(s: Seq<Type>)
    ensures
        view_types(s).len() == s.len(),
        forall|i: int| 0 <= i < s.len() ==> #[trigger] view_types(s)[i] == view_type(s[i]),
    decreases s.len(),
{
    if s.len() > 0 {
        lemma_view_types_index(s.drop_last());
    }
}

pub proof fn lemma_view_types_push(s: Seq<Type>, t: Type)
    ensures
        view_types(s.push(t)) == view_types(s).push(view_type(t)),
{
    assert(s.push(t).drop_last() =~= s);
}

impl Type {
    /// A copy of this type.
    #[verifier::loop_isolation(false)]
    pub fn duplicate(&self) -> (r: Type)
        ensures
            r@ == self@,
        decreases self,
    {
        match self {
            Type::Int => Type::Int,
            Type::Float => Type::Float,
            Type::Bool => Type::Bool,
            Type::String => Type::String,
            Type::Unit => Type::Unit,
            Type::Function { params, return_ty } => {
                proof {
                    lemma_view_types_index(params@);
                }
                let mut ps: Vec<Type> = Vec::new();
                let mut i: usize = 0;
                while i < params.len()
                    invariant
                        i <= params@.len(),
                        view_types(params@).len() == params@.len(),
                        forall|j: int| 0 <= j < params@.len() ==> #[trigger] view_types(params@)[j] == view_type(params@[j]),
                        view_types(ps@) == view_types(params@).take(i as int),
                    decreases params.len() - i,
                {
                    let t = params[i].duplicate();
                    proof {
                        lemma_view_types_push(ps@, t);
                        assert(view_types(params@).take(i + 1) =~= view_types(params@).take(i as int).push(view_type(params@[i as int])));
                    }
                    ps.push(t);
                    i = i + 1;
                }
                assert(view_types(params@).take(params@.len() as int) =~= view_types(params@));
                Type::Function { params: ps, return_ty: Box::new(return_ty.duplicate()) }
            },
            Type::Error => Type::Error,
        }
    }

    /// Whether two types are the same.
    #[verifier::loop_isolation(false)]
    pub fn same(&self, other: &Type) -> (r: bool)
        ensures
            r == (self@ == other@),
        decreases self,
    {
        match (self, other) {
            (Type::Int, Type::Int) | (Type::Float, Type::Float) | (Type::Bool, Type::Bool)
            | (Type::String, Type::String) | (Type::Unit, Type::Unit) | (Type::Error, Type::Error) => true,
            (Type::Function { params: p1, return_ty: r1 }, Type::Function { params: p2, return_ty: r2 }) => {
                proof {
                    lemma_view_types_index(p1@);
                    lemma_view_types_index(p2@);
                }
                if p1.len() != p2.len() {
                    return false;
                }
                let mut i: usize = 0;
                while i < p1.len()
                    invariant
                        i <= p1@.len(),
                        p1@.len() == p2@.len(),
                        view_types(p1@).len() == p1@.len(),
                        view_types(p2@).len() == p2@.len(),
                        forall|j: int| 0 <= j < p1@.len() ==> #[trigger] view_types(p1@)[j] == view_type(p1@[j]),
                        forall|j: int| 0 <= j < p2@.len() ==> #[trigger] view_types(p2@)[j] == view_type(p2@[j]),
                        forall|j: int| 0 <= j < i ==> view_types(p1@)[j] == view_types(p2@)[j],
                    decreases p1.len() - i,
                {
                    if !p1[i].same(&p2[i]) {
                        assert(view_types(p1@)[i as int] != view_types(p2@)[i as int]);
                        return false;
                    }
                    i = i + 1;
                }
                assert(view_types(p1@) =~= view_types(p2@));
                r1.same(r2)
            },
            _ => false,
        }
    }
}

} // verus!
