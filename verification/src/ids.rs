use vstd::prelude::*;

verus! {

/// Identifier of a value in the value pool; the passes number from 1, so 0 names nothing.
#[derive(Debug, Clone, Copy, PartialEq, Eq, Structural, Hash)]
pub struct ValueId(pub u64);

impl View for ValueId {
    type V = u64;

    open spec fn view(&self) -> u64 {
        self.0
    }
}

impl ValueId {
    /// Builds the id from a non-zero number.
    pub fn new(id: u64) -> (r: Self)
        requires
            id != 0,
        ensures
            r@ == id,
    {
        ValueId(id)
    }

    /// The number behind the id.
    pub fn get(self) -> (r: u64)
        ensures
            r == self@,
    {
        self.0
    }
}

/// Identifier of a scope in the scope tree; the passes number from 1, so 0 names nothing.
#[derive(Debug, Clone, Copy, PartialEq, Eq, Structural, Hash)]
pub struct ScopeId(pub u64);

impl View for ScopeId {
    type V = u64;

    open spec fn view(&self) -> u64 {
        self.0
    }
}

impl ScopeId {
    /// Builds the id from a non-zero number.
    pub fn new(id: u64) -> (r: Self)
        requires
            id != 0,
        ensures
            r@ == id,
    {
        ScopeId(id)
    }

    /// The number behind the id.
    pub fn get(self) -> (r: u64)
        ensures
            r == self@,
    {
        self.0
    }
}

/// Identifier of a type; the passes number from 1, so 0 names nothing.
#[derive(Debug, Clone, Copy, PartialEq, Eq, Structural, Hash)]
pub struct TypeId(pub u64);

impl View for TypeId {
    type V = u64;

    open spec fn view(&self) -> u64 {
        self.0
    }
}

impl TypeId {
    /// Builds the id from a non-zero number.
    pub fn new(id: u64) -> (r: Self)
        requires
            id != 0,
        ensures
            r@ == id,
    {
        TypeId(id)
    }

    /// The number behind the id.
    pub fn get(self) -> (r: u64)
        ensures
            r == self@,
    {
        self.0
    }
}

/// Identifier of a function signature; the passes number from 1, so 0 names nothing.
#[derive(Debug, Clone, Copy, PartialEq, Eq, Structural, Hash)]
pub struct FnSignatureId(pub u64);

impl View for FnSignatureId {
    type V = u64;

    open spec fn view(&self) -> u64 {
        self.0
    }
}

impl FnSignatureId {
    /// Builds the id from a non-zero number.
    pub fn new(id: u64) -> (r: Self)
        requires
            id != 0,
        ensures
            r@ == id,
    {
        FnSignatureId(id)
    }

    /// The number behind the id.
    pub fn get(self) -> (r: u64)
        ensures
            r == self@,
    {
        self.0
    }
}

/// Identifier of a struct; the passes number from 1, so 0 names nothing.
#[derive(Debug, Clone, Copy, PartialEq, Eq, Structural, Hash)]
pub struct StructId(pub u64);

impl View for StructId {
    type V = u64;

    open spec fn view(&self) -> u64 {
        self.0
    }
}

impl StructId {
    /// Builds the id from a non-zero number.
    pub fn new(id: u64) -> (r: Self)
        requires
            id != 0,
        ensures
            r@ == id,
    {
        StructId(id)
    }

    /// The number behind the id.
    pub fn get(self) -> (r: u64)
        ensures
            r == self@,
    {
        self.0
    }
}

/// Identifier of a trait; the passes number from 1, so 0 names nothing.
#[derive(Debug, Clone, Copy, PartialEq, Eq, Structural, Hash)]
pub struct TraitId(pub u64);

impl View for TraitId {
    type V = u64;

    open spec fn view(&self) -> u64 {
        self.0
    }
}

impl TraitId {
    /// Builds the id from a non-zero number.
    pub fn new(id: u64) -> (r: Self)
        requires
            id != 0,
        ensures
            r@ == id,
    {
        TraitId(id)
    }

    /// The number behind the id.
    pub fn get(self) -> (r: u64)
        ensures
            r == self@,
    {
        self.0
    }
}

/// Identifier of an enum; the passes number from 1, so 0 names nothing.
#[derive(Debug, Clone, Copy, PartialEq, Eq, Structural, Hash)]
pub struct EnumId(pub u64);

impl View for EnumId {
    type V = u64;

    open spec fn view(&self) -> u64 {
        self.0
    }
}

impl EnumId {
    /// Builds the id from a non-zero number.
    pub fn new(id: u64) -> (r: Self)
        requires
            id != 0,
        ensures
            r@ == id,
    {
        EnumId(id)
    }

    /// The number behind the id.
    pub fn get(self) -> (r: u64)
        ensures
            r == self@,
    {
        self.0
    }
}

/// Identifier of a type condition; the passes number from 1, so 0 names nothing.
#[derive(Debug, Clone, Copy, PartialEq, Eq, Structural, Hash)]
pub struct ConditionId(pub u64);

impl View for ConditionId {
    type V = u64;

    open spec fn view(&self) -> u64 {
        self.0
    }
}

impl ConditionId {
    /// Builds the id from a non-zero number.
    pub fn new(id: u64) -> (r: Self)
        requires
            id != 0,
        ensures
            r@ == id,
    {
        ConditionId(id)
    }

    /// The number behind the id.
    pub fn get(self) -> (r: u64)
        ensures
            r == self@,
    {
        self.0
    }
}

/// Identifier of a gathered function signature; the passes number from 1, so 0 names nothing.
#[derive(Debug, Clone, Copy, PartialEq, Eq, Structural, Hash)]
pub struct WindFnSignatureId(pub u64);

impl View for WindFnSignatureId {
    type V = u64;

    open spec fn view(&self) -> u64 {
        self.0
    }
}

impl WindFnSignatureId {
    /// Builds the id from a non-zero number.
    pub fn new(id: u64) -> (r: Self)
        requires
            id != 0,
        ensures
            r@ == id,
    {
        WindFnSignatureId(id)
    }

    /// The number behind the id.
    pub fn get(self) -> (r: u64)
        ensures
            r == self@,
    {
        self.0
    }
}

/// Identifier of a gathered struct; the passes number from 1, so 0 names nothing.
#[derive(Debug, Clone, Copy, PartialEq, Eq, Structural, Hash)]
pub struct WindStructId(pub u64);

impl View for WindStructId {
    type V = u64;

    open spec fn view(&self) -> u64 {
        self.0
    }
}

impl WindStructId {
    /// Builds the id from a non-zero number.
    pub fn new(id: u64) -> (r: Self)
        requires
            id != 0,
        ensures
            r@ == id,
    {
        WindStructId(id)
    }

    /// The number behind the id.
    pub fn get(self) -> (r: u64)
        ensures
            r == self@,
    {
        self.0
    }
}

/// Identifier of a gathered trait; the passes number from 1, so 0 names nothing.
#[derive(Debug, Clone, Copy, PartialEq, Eq, Structural, Hash)]
pub struct WindTraitId(pub u64);

impl View for WindTraitId {
    type V = u64;

    open spec fn view(&self) -> u64 {
        self.0
    }
}

impl WindTraitId {
    /// Builds the id from a non-zero number.
    pub fn new(id: u64) -> (r: Self)
        requires
            id != 0,
        ensures
            r@ == id,
    {
        WindTraitId(id)
    }

    /// The number behind the id.
    pub fn get(self) -> (r: u64)
        ensures
            r == self@,
    {
        self.0
    }
}

/// Identifier of a gathered type; the passes number from 1, so 0 names nothing.
#[derive(Debug, Clone, Copy, PartialEq, Eq, Structural, Hash)]
pub struct WindTypeId(pub u64);

impl View for WindTypeId {
    type V = u64;

    open spec fn view(&self) -> u64 {
        self.0
    }
}

impl WindTypeId {
    /// Builds the id from a non-zero number.
    pub fn new(id: u64) -> (r: Self)
        requires
            id != 0,
        ensures
            r@ == id,
    {
        WindTypeId(id)
    }

    /// The number behind the id.
    pub fn get(self) -> (r: u64)
        ensures
            r == self@,
    {
        self.0
    }
}

} // verus!
