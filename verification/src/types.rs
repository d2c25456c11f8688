use vstd::prelude::*;

verus! {

/// Argument and return types of a function type.
#[derive(Debug, PartialEq, Eq)]
pub struct FnPrimative {
    pub args: Vec<Type>,
    pub return_type: Option<Box<Type>>,
}

/// The type tags that drive lowering decisions.
#[derive(Debug, PartialEq, Eq)]
pub enum Type {
    U32,
    I32,
    F32,
    BOOL,
    STRING,
    SLICE,
    FN(FnPrimative),
    BLOCK,
    TYPE,
    /// A struct type, by the struct's name.
    STRUCT(String),
}

/// Mathematical model of a [`Type`].
pub enum TypeModel {
    U32,
    I32,
    F32,
    BOOL,
    STRING,
    SLICE,
    FN(Seq<TypeModel>, Option<Box<TypeModel>>),
    BLOCK,
    TYPE,
    STRUCT(Seq<char>),
}

impl View for Type {
    type V = TypeModel;

    open spec fn view(&self) -> TypeModel {
        type_model(*self)
    }
}

/// Model of a type.
pub open spec fn type_model(t: Type) -> TypeModel
    decreases t,
{
    match t {
        Type::U32 => TypeModel::U32,
        Type::I32 => TypeModel::I32,
        Type::F32 => TypeModel::F32,
        Type::BOOL => TypeModel::BOOL,
        Type::STRING => TypeModel::STRING,
        Type::SLICE => TypeModel::SLICE,
        Type::FN(f) => TypeModel::FN(
            types_view(f.args@),
            match f.return_type {
                Some(b) => Some(Box::new(type_model(*b))),
                None => None,
            },
        ),
        Type::BLOCK => TypeModel::BLOCK,
        Type::TYPE => TypeModel::TYPE,
        Type::STRUCT(name) => TypeModel::STRUCT(name@),
    }
}

/// Models of a sequence of types, element by element.
pub open spec fn types_view(types: Seq<Type>) -> Seq<TypeModel>
    decreases types,
{
    Seq::new(
        types.len(),
        |i: int|
            if 0 <= i < types.len() {
                type_model(types[i])
            } else {
                TypeModel::U32
            },
    )
}

/// Model of an optional type.
pub open spec fn opt_type_view(t: Option<Type>) -> Option<TypeModel> {
    match t {
        Some(t) => Some(t@),
        None => None,
    }
}

impl Clone for Type {
    #[verifier::loop_isolation(false)]
    fn clone(&self) -> (r: Type)
        ensures
            r@ == self@,
        decreases self,
    {
        match self {
            Type::U32 => Type::U32,
            Type::I32 => Type::I32,
            Type::F32 => Type::F32,
            Type::BOOL => Type::BOOL,
            Type::STRING => Type::STRING,
            Type::SLICE => Type::SLICE,
            Type::FN(f) => {
                let mut args: Vec<Type> = Vec::new();
                let mut i: usize = 0;
                while i < f.args.len()
                    invariant
                        i <= f.args.len(),
                        args.len() == i,
                        forall|j: int| 0 <= j < i ==> args[j]@ == f.args[j]@,
                    decreases f.args.len() - i,
                {
                    let item = f.args[i].clone();
                    args.push(item);
                    i += 1;
                }
                let return_type = match &f.return_type {
                    Some(b) => Some(Box::new((**b).clone())),
                    None => None,
                };
                let copy = FnPrimative { args, return_type };
                assert(types_view(copy.args@) =~= types_view(f.args@));
                Type::FN(copy)
            },
            Type::BLOCK => Type::BLOCK,
            Type::TYPE => Type::TYPE,
            Type::STRUCT(name) => Type::STRUCT(name.clone()),
        }
    }
}

/// Copies a list of types.
pub fn clone_types(types: &Vec<Type>) -> (r: Vec<Type>)
    ensures
        types_view(r@) == types_view(types@),
{
    let mut copy: Vec<Type> = Vec::new();
    let mut i: usize = 0;
    while i < types.len()
        invariant
            i <= types.len(),
            copy.len() == i,
            forall|j: int| 0 <= j < i ==> copy[j]@ == types[j]@,
        decreases types.len() - i,
    {
        copy.push(types[i].clone());
        i += 1;
    }
    assert(types_view(copy@) =~= types_view(types@));
    copy
}

impl Type {
    /// Whether values of the type have a known size.
    pub open spec fn is_sized(&self) -> bool {
        self is U32 || self is I32 || self is F32
    }

    /// Number of bytes a value of the type occupies.
    ///
    /// Only the three 32-bit scalar types have a size.
    pub fn size_in_bytes(&self) -> (r: usize)
        requires
            self.is_sized(),
        ensures
            r == 4,
    {
        match self {
            Type::U32 => 4,
            Type::I32 => 4,
            Type::F32 => 4,
            _ => 0,
        }
    }
}

} // verus!
