//! Resource values of the spec language: a value either owns a resource
//! that its syscall outputs, refers to one that an earlier syscall output,
//! or holds a special value only.
use std::rc::Rc;
use vstd::cell::invcell::InvCell;
use vstd::predicate::Predicate;
use vstd::prelude::*;

verus! {

/// Any number of references is a valid count.
pub struct AnyCount;

impl Predicate<usize> for AnyCount {
    open spec fn predicate(&self, v: usize) -> bool {
        true
    }
}

/// Value of a resource type.
pub struct ResValue {
    pub val: u64,
    pub op_add: u64,
    pub op_div: u64,
    pub kind: ResValueKind,
}

/// What a resource value stands for.
///
/// A resource value cannot be made up: it is output by some syscall. So a
/// value either marks that its syscall is expected to output the resource
/// (and counts the values that refer to it), or refers to a resource output
/// by an earlier call.
pub enum ResValueKind {
    /// The syscall is expected to output this resource.
    Own { id: usize, refs: InvCell<usize, AnyCount> },
    /// The syscall refers to a resource output by an earlier call.
    Ref { src: Rc<ResValue> },
    /// No resource, only a special value.
    Null,
}

impl ResValueKind {
    /// The number of the owned resource, if the value owns one.
    pub open spec fn spec_id(&self) -> Option<usize> {
        match self {
            ResValueKind::Own { id, .. } => Some(*id),
            _ => None,
        }
    }

    /// Counts one more value referring to the owned resource. The value must
    /// own a resource.
    pub fn inc_ref_count_uncheck(&self)
        requires
            self is Own,
    {
        match self {
            ResValueKind::Own { refs, .. } => {
                let count = refs.get().wrapping_add(1);
                refs.set(count);
            },
            _ => {},
        }
    }

    /// A value referring to `src`, which gets one more reference. `src` must
    /// own a resource.
    pub fn new_ref_kind(src: Rc<ResValue>) -> (r: Self)
        requires
            src.kind is Own,
        ensures
            r matches ResValueKind::Ref { src: s } && s == src,
    {
        src.kind.inc_ref_count_uncheck();
        ResValueKind::Ref { src }
    }

    /// A value owning resource `id`, not referred to yet.
    pub fn new_res_kind(id: usize) -> (r: Self)
        ensures
            r.spec_id() == Some(id),
    {
        ResValueKind::Own { id, refs: InvCell::new(0, Ghost(AnyCount)) }
    }

    /// The number of the owned resource, if the value owns one.
    pub fn get_id(&self) -> (r: Option<usize>)
        ensures
            r == self.spec_id(),
    {
        match self {
            ResValueKind::Own { id, .. } => Some(*id),
            _ => None,
        }
    }

    /// The resource referred to, if the value refers to one.
    pub fn get_src(&self) -> (r: Option<&Rc<ResValue>>)
        ensures
            self matches ResValueKind::Ref { src } ==> r == Some(src),
            !(self is Ref) ==> r is None,
    {
        match self {
            ResValueKind::Ref { src } => Some(src),
            _ => None,
        }
    }
}

impl ResValue {
    /// Value `val` owning resource `id`.
    pub fn new_res(val: u64, id: usize) -> (r: Self)
        ensures
            r.val == val,
            r.op_add == 0,
            r.op_div == 0,
            r.kind.spec_id() == Some(id),
    {
        ResValue { op_add: 0, op_div: 0, kind: ResValueKind::new_res_kind(id), val }
    }

    /// A value referring to the resource `src` owns; `src` gets one more
    /// reference.
    pub fn new_ref_res(src: Rc<ResValue>) -> (r: Self)
        requires
            src.kind is Own,
        ensures
            r.val == 0,
            r.op_add == 0,
            r.op_div == 0,
            r.kind matches ResValueKind::Ref { src: s } && s == src,
    {
        ResValue { val: 0, op_add: 0, op_div: 0, kind: ResValueKind::new_ref_kind(src) }
    }

    /// Special value `val`, owning and referring to nothing.
    pub fn new_null(val: u64) -> (r: Self)
        ensures
            r.val == val,
            r.op_add == 0,
            r.op_div == 0,
            r.kind is Null,
    {
        ResValue { val, op_add: 0, op_div: 0, kind: ResValueKind::Null }
    }

    /// Counts one more value referring to the resource this value owns. The
    /// value must own a resource.
    pub fn inc_ref_count_uncheck(&self)
        requires
            self.kind is Own,
    {
        self.kind.inc_ref_count_uncheck();
    }

    /// The number of the owned resource, if the value owns one.
    pub fn get_res_id(&self) -> (r: Option<usize>)
        ensures
            r == self.kind.spec_id(),
    {
        self.kind.get_id()
    }
}

} // verus!
