use vstd::prelude::*;

verus! {

/// The type of a field or an argument in a schema: a named type, or a list
/// of a type, either of which may be marked non-null.
pub enum Type {
    Named { name: String, non_null: bool },
    List { of_type: Box<Type>, non_null: bool },
}

/// The mathematical form of a [`Type`].
pub enum TypeView {
    Named { name: Seq<char>, non_null: bool },
    List { of_type: Box<TypeView>, non_null: bool },
}

impl TypeView {
    /// The name of the type at the bottom of the lists.
    pub open spec fn named(self) -> Seq<char>
        decreases self,
    {
        match self {
            TypeView::Named { name, .. } => name,
            TypeView::List { of_type, .. } => of_type.named(),
        }
    }
}

impl Type {
    /// The mathematical form of the type.
    pub open spec fn type_view(self) -> TypeView
        decreases self,
    {
        match self {
            Type::Named { name, non_null } => TypeView::Named { name: name@, non_null },
            Type::List { of_type, non_null } => TypeView::List {
                of_type: Box::new(of_type.type_view()),
                non_null,
            },
        }
    }
}

impl View for Type {
    type V = TypeView;

    open spec fn view(&self) -> TypeView {
        self.type_view()
    }
}

impl Type {
    /// The name of the named type at the bottom of the lists.
    pub fn name(&self) -> (r: &str)
        ensures
            r@ == self@.named(),
        decreases *self,
    {
        match self {
            Type::Named { name, .. } => name.as_str(),
            Type::List { of_type, .. } => of_type.name(),
        }
    }

    /// A copy of the type.
    pub fn deep_clone(&self) -> (r: Type)
        ensures
            r@ == self@,
        decreases *self,
    {
        match self {
            Type::Named { name, non_null } => Type::Named { name: name.clone(), non_null: *non_null },
            Type::List { of_type, non_null } => {
                let inner = of_type.deep_clone();
                Type::List { of_type: Box::new(inner), non_null: *non_null }
            },
        }
    }
}

impl Clone for Type {
    fn clone(&self) -> (r: Type)
        ensures
            r@ == self@,
    {
        self.deep_clone()
    }
}

} // verus!
