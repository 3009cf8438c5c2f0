//! Information shared by all types.
use crate::ty::TypeId;
use vstd::prelude::*;

verus! {

/// Attributes every type has.
#[derive(Debug)]
pub struct CommonInfo {
    /// Unique id of the type.
    pub id: TypeId,
    pub name: String,
    pub size: u64,
    pub align: u64,
    pub optional: bool,
    pub varlen: bool,
}

impl CommonInfo {
    pub fn id(&self) -> (r: TypeId)
        ensures
            r == self.id,
    {
        self.id
    }

    pub fn name(&self) -> (r: &str)
        ensures
            r@ == self.name@,
    {
        self.name.as_str()
    }

    pub fn size(&self) -> (r: u64)
        ensures
            r == self.size,
    {
        self.size
    }

    pub fn align(&self) -> (r: u64)
        ensures
            r == self.align,
    {
        self.align
    }

    pub fn optional(&self) -> (r: bool)
        ensures
            r == self.optional,
    {
        self.optional
    }

    pub fn varlen(&self) -> (r: bool)
        ensures
            r == self.varlen,
    {
        self.varlen
    }

    /// Name with any template arguments (from the first `[`) cut off.
    pub fn template_name(&self) -> (r: String)
        ensures
            r@ == crate::strings::prefix_before_bracket(self.name@),
    {
        crate::strings::str_prefix_before_bracket(self.name.as_str())
    }
}

impl Clone for CommonInfo {
    fn clone(&self) -> (r: Self)
        ensures
            r == *self,
    {
        CommonInfo {
            id: self.id,
            name: self.name.clone(),
            size: self.size,
            align: self.align,
            optional: self.optional,
            varlen: self.varlen,
        }
    }
}

/// Builder of `CommonInfo`.
#[derive(Debug)]
pub struct CommonInfoBuilder {
    pub id: TypeId,
    pub name: String,
    pub size: Option<u64>,
    pub align: Option<u64>,
    pub optional: bool,
    pub varlen: bool,
}

impl CommonInfoBuilder {
    pub fn new() -> (r: Self)
        ensures
            r.name@ == Seq::<char>::empty(),
            r.id == usize::MAX,
            r.size is None,
            r.align is None,
            !r.optional,
            !r.varlen,
    {
        Self { name: String::new(), id: usize::MAX, size: None, align: None, optional: false, varlen: false }
    }

    pub fn id(&mut self, id: TypeId) -> (r: &mut Self)
        ensures
            *r == (CommonInfoBuilder { id, ..*old(self) }),
            *final(self) == *final(r),
    {
        self.id = id;
        self
    }

    pub fn name(&mut self, name: String) -> (r: &mut Self)
        ensures
            *r == (CommonInfoBuilder { name, ..*old(self) }),
            *final(self) == *final(r),
    {
        self.name = name;
        self
    }

    pub fn size(&mut self, size: u64) -> (r: &mut Self)
        ensures
            *r == (CommonInfoBuilder { size: Some(size), ..*old(self) }),
            *final(self) == *final(r),
    {
        self.size = Some(size);
        self
    }

    pub fn align(&mut self, align: u64) -> (r: &mut Self)
        ensures
            *r == (CommonInfoBuilder { align: Some(align), ..*old(self) }),
            *final(self) == *final(r),
    {
        self.align = Some(align);
        self
    }

    pub fn optional(&mut self, optional: bool) -> (r: &mut Self)
        ensures
            *r == (CommonInfoBuilder { optional, ..*old(self) }),
            *final(self) == *final(r),
    {
        self.optional = optional;
        self
    }

    pub fn varlen(&mut self, varlen: bool) -> (r: &mut Self)
        ensures
            *r == (CommonInfoBuilder { varlen, ..*old(self) }),
            *final(self) == *final(r),
    {
        self.varlen = varlen;
        self
    }

    /// Unset size and alignment default to 0; a type is of variable length
    /// exactly when no size was given.
    pub fn build(self) -> (r: CommonInfo)
        ensures
            r.id == self.id,
            r.name == self.name,
            r.optional == self.optional,
            r.size == (match self.size {
                Some(s) => s,
                None => 0,
            }),
            r.align == (match self.align {
                Some(a) => a,
                None => 0,
            }),
            r.varlen == (self.size is None),
    {
        let size = match self.size {
            Some(s) => s,
            None => 0,
        };
        let align = match self.align {
            Some(a) => a,
            None => 0,
        };
        let varlen = self.size.is_none();
        CommonInfo { id: self.id, name: self.name, optional: self.optional, size, align, varlen }
    }
}

} // verus!
