//! Syscall descriptions.
use crate::ty::group::Field;
use crate::ty::Type;
use crate::strings::{dec_chars, joined, push_dec};
use vstd::prelude::*;

verus! {

pub type SyscallId = usize;

/// Most parameters a syscall has.
pub const MAX_PARAMS_NUM: usize = 9;

/// A syscall described in syzlang.
#[derive(Debug)]
pub struct Syscall {
    /// Unique id of each declared syscall.
    pub id: SyscallId,
    /// Kernel call number.
    pub nr: u64,
    /// Name in the description.
    pub name: String,
    /// Name of the called kernel function.
    pub call_name: String,
    /// Number of trailing arguments that are zero-filled.
    pub missing_args: u64,
    pub params: Vec<Field>,
    pub ret: Option<Type>,
    pub attr: SyscallAttr,
}

impl Syscall {
    pub fn id(&self) -> (r: SyscallId)
        ensures
            r == self.id,
    {
        self.id
    }
    pub fn nr(&self) -> (r: u64)
        ensures
            r == self.nr,
    {
        self.nr
    }

    pub fn name(&self) -> (r: &str)
        ensures
            r@ == self.name@,
    {
        self.name.as_str()
    }

    pub fn call_name(&self) -> (r: &str)
        ensures
            r@ == self.call_name@,
    {
        self.call_name.as_str()
    }

    pub fn missing_args(&self) -> (r: u64)
        ensures
            r == self.missing_args,
    {
        self.missing_args
    }

    pub fn params(&self) -> (r: &[Field])
        ensures
            r@ == self.params@,
    {
        self.params.as_slice()
    }

    pub fn ret(&self) -> (r: Option<&Type>)
        ensures
            r is Some <==> self.ret is Some,
            r is Some ==> *r->0 == self.ret->0,
    {
        match &self.ret {
            Some(t) => Some(t),
            None => None,
        }
    }

    pub fn attr(&self) -> (r: &SyscallAttr)
        ensures
            *r == self.attr,
    {
        &self.attr
    }
}

/// Builder of `Syscall`; the id and the name must be set before `build`.
#[derive(Debug)]
pub struct SyscallBuilder {
    pub id: Option<SyscallId>,
    pub nr: Option<u64>,
    pub name: Option<String>,
    pub call_name: Option<String>,
    pub missing_args: Option<u64>,
    pub params: Vec<Field>,
    pub ret: Option<Type>,
    pub attr: Option<SyscallAttr>,
}

impl SyscallBuilder {
    pub fn new() -> (r: Self)
        ensures
            r.id is None,
            r.nr is None,
            r.name is None,
            r.call_name is None,
            r.missing_args is None,
            r.params@.len() == 0,
            r.ret is None,
            r.attr is None,
    {
        SyscallBuilder {
            id: None,
            nr: None,
            name: None,
            call_name: None,
            missing_args: None,
            params: Vec::new(),
            ret: None,
            attr: None,
        }
    }

    pub fn id(&mut self, id: SyscallId) -> (r: &mut Self)
        ensures
            *r == (SyscallBuilder { id: Some(id), ..*old(self) }),
            *final(self) == *final(r),
    {
        self.id = Some(id);
        self
    }
    pub fn nr(&mut self, nr: u64) -> (r: &mut Self)
        ensures
            *r == (SyscallBuilder { nr: Some(nr), ..*old(self) }),
            *final(self) == *final(r),
    {
        self.nr = Some(nr);
        self
    }
    pub fn name(&mut self, name: String) -> (r: &mut Self)
        ensures
            *r == (SyscallBuilder { name: Some(name), ..*old(self) }),
            *final(self) == *final(r),
    {
        self.name = Some(name);
        self
    }
    pub fn call_name(&mut self, call_name: String) -> (r: &mut Self)
        ensures
            *r == (SyscallBuilder { call_name: Some(call_name), ..*old(self) }),
            *final(self) == *final(r),
    {
        self.call_name = Some(call_name);
        self
    }
    pub fn missing_args(&mut self, missing_args: u64) -> (r: &mut Self)
        ensures
            *r == (SyscallBuilder { missing_args: Some(missing_args), ..*old(self) }),
            *final(self) == *final(r),
    {
        self.missing_args = Some(missing_args);
        self
    }
    pub fn params(&mut self, params: Vec<Field>) -> (r: &mut Self)
        ensures
            *r == (SyscallBuilder { params: params, ..*old(self) }),
            *final(self) == *final(r),
    {
        self.params = params;
        self
    }
    pub fn ret(&mut self, ret: Type) -> (r: &mut Self)
        ensures
            *r == (SyscallBuilder { ret: Some(ret), ..*old(self) }),
            *final(self) == *final(r),
    {
        self.ret = Some(ret);
        self
    }
    pub fn attr(&mut self, attr: SyscallAttr) -> (r: &mut Self)
        ensures
            *r == (SyscallBuilder { attr: Some(attr), ..*old(self) }),
            *final(self) == *final(r),
    {
        self.attr = Some(attr);
        self
    }

    /// Unset number and missing args are 0, an unset call name is the
    /// name, and unset attributes are the default ones.
    pub fn build(self) -> (r: Syscall)
        requires
            self.id is Some,
            self.name is Some,
        ensures
            r.id == self.id->0,
            r.nr == (match self.nr {
                Some(n) => n,
                None => 0,
            }),
            r.name@ == self.name->0@,
            r.call_name@ == (match self.call_name {
                Some(c) => c@,
                None => self.name->0@,
            }),
            r.missing_args == (match self.missing_args {
                Some(n) => n,
                None => 0,
            }),
            r.params == self.params,
            r.ret == self.ret,
            r.attr == (match self.attr {
                Some(a) => a,
                None => SyscallAttr::spec_default(),
            }),
    {
        let name = self.name.unwrap();
        let call_name = match self.call_name {
            Some(c) => c,
            None => name.clone(),
        };
        Syscall {
            id: self.id.unwrap(),
            nr: match self.nr {
                Some(n) => n,
                None => 0,
            },
            name,
            call_name,
            missing_args: match self.missing_args {
                Some(n) => n,
                None => 0,
            },
            params: self.params,
            ret: self.ret,
            attr: match self.attr {
                Some(a) => a,
                None => SyscallAttr::default(),
            },
        }
    }
}

/// Attributes of a syscall.
#[derive(Debug, Clone, Copy, PartialEq, Eq, Structural)]
pub struct SyscallAttr {
    pub disabled: bool,
    pub timeout: u64,
    pub prog_timeout: u64,
    pub ignore_return: bool,
    pub breaks_returns: bool,
}

impl SyscallAttr {
    pub open spec fn spec_default() -> SyscallAttr {
        SyscallAttr {
            disabled: false,
            timeout: 0,
            prog_timeout: 0,
            ignore_return: false,
            breaks_returns: false,
        }
    }

    /// The attributes set, in order: `disabled`, `timeout[N]`,
    /// `prog_timeout[N]`, `ignore_return`, `breaks_returns`.
    pub open spec fn spec_parts(&self) -> Seq<Seq<char>> {
        let p1: Seq<Seq<char>> = if self.disabled {
            seq!["disabled"@]
        } else {
            Seq::empty()
        };
        let p2 = if self.timeout != 0 {
            p1.push("timeout["@ + dec_chars(self.timeout as nat) + "]"@)
        } else {
            p1
        };
        let p3 = if self.prog_timeout != 0 {
            p2.push("prog_timeout["@ + dec_chars(self.prog_timeout as nat) + "]"@)
        } else {
            p2
        };
        let p4 = if self.ignore_return {
            p3.push("ignore_return"@)
        } else {
            p3
        };
        if self.breaks_returns {
            p4.push("breaks_returns"@)
        } else {
            p4
        }
    }

    /// The attributes set, separated by `", "` (see `spec_parts`); empty
    /// when none is.
    pub fn to_string(&self) -> (r: String)
        ensures
            r@ == joined(self.spec_parts(), ", "@),
    {
        let mut out = String::new();
        let ghost mut parts: Seq<Seq<char>> = Seq::empty();
        let mut parts_none = true;
        if self.disabled {
            let mut p = String::new();
            p.append("disabled");
            add_part(&mut out, Ghost(parts), parts_none, &p);
            parts_none = false;
            proof {
                parts = parts.push(p@);
            }
        }
        if self.timeout != 0 {
            let mut p = String::new();
            p.append("timeout[");
            push_dec(&mut p, self.timeout);
            p.append("]");
            add_part(&mut out, Ghost(parts), parts_none, &p);
            parts_none = false;
            proof {
                parts = parts.push(p@);
            }
        }
        if self.prog_timeout != 0 {
            let mut p = String::new();
            p.append("prog_timeout[");
            push_dec(&mut p, self.prog_timeout);
            p.append("]");
            add_part(&mut out, Ghost(parts), parts_none, &p);
            parts_none = false;
            proof {
                parts = parts.push(p@);
            }
        }
        if self.ignore_return {
            let mut p = String::new();
            p.append("ignore_return");
            add_part(&mut out, Ghost(parts), parts_none, &p);
            parts_none = false;
            proof {
                parts = parts.push(p@);
            }
        }
        if self.breaks_returns {
            let mut p = String::new();
            p.append("breaks_returns");
            add_part(&mut out, Ghost(parts), parts_none, &p);
            parts_none = false;
            proof {
                parts = parts.push(p@);
            }
        }
        proof {
            assert(parts =~= self.spec_parts());
        }
        out
    }

    /// No attribute is set.
    pub fn is_default(&self) -> (r: bool)
        ensures
            r == (*self == Self::spec_default()),
    {
        !self.disabled && self.timeout == 0 && self.prog_timeout == 0 && !self.ignore_return
            && !self.breaks_returns
    }
}

impl Default for SyscallAttr {
    fn default() -> (r: Self)
        ensures
            r == Self::spec_default(),
    {
        SyscallAttr {
            disabled: false,
            timeout: 0,
            prog_timeout: 0,
            ignore_return: false,
            breaks_returns: false,
        }
    }
}

/// Appends `part` to the joined `parts`.
fn add_part(out: &mut String, Ghost(parts): Ghost<Seq<Seq<char>>>, first: bool, part: &String)
    requires
        old(out)@ == joined(parts, ", "@),
        first == (parts.len() == 0),
    ensures
        final(out)@ == joined(parts.push(part@), ", "@),
{
    if !first {
        out.append(", ");
    }
    out.append(part.as_str());
    proof {
        let np = parts.push(part@);
        assert(np.drop_last() =~= parts);
        if parts.len() == 0 {
            assert(Seq::<char>::empty() + part@ =~= part@);
        }
    }
}

} // verus!
