use vstd::prelude::*;

verus! {

/// Whether a declaration is local to the translation unit or provided elsewhere.
#[derive(Debug, Clone, Copy, PartialEq, Eq, Structural)]
pub enum StorageClass {
    Auto,
    Extern,
}

/// Operand size of a value.
#[derive(Debug, Clone, Copy, PartialEq, Eq, Structural)]
pub enum Width {
    Word,
    Long,
    Short,
    Byte,
}

impl Width {
    pub open spec fn bytes(self) -> nat {
        match self {
            Width::Byte => 1,
            Width::Short => 2,
            Width::Word => 4,
            Width::Long => 8,
        }
    }

    /// The width of a value of a type: `int` a word, `char` a byte, a pointer a long.
    pub fn from_type(symbol: &crate::table::SymbolType) -> (r: Width)
        ensures
            r == crate::table::width_of(*symbol),
    {
        match symbol {
            crate::table::SymbolType::Int => Width::Word,
            crate::table::SymbolType::Char => Width::Byte,
            crate::table::SymbolType::Pointer(_) => Width::Long,
        }
    }

    pub fn to_bytes(&self) -> (r: usize)
        ensures
            r == self.bytes(),
    {
        match self {
            Width::Byte => 1,
            Width::Short => 2,
            Width::Word => 4,
            Width::Long => 8,
        }
    }
}


} // verus!
