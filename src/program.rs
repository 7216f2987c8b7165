use vstd::prelude::*;
use crate::payload::{payload_ids, PayloadId, PayloadSet};

verus! {

/// A contiguous range of instruction addresses.
pub type AddressRange = std::ops::Range<usize>;

/// A range that lies inside a table of `len` instructions.
pub open spec fn range_valid(r: AddressRange, len: int) -> bool {
    r.start <= r.end && r.end <= len
}

pub open spec fn opt_range_valid(r: Option<AddressRange>, len: int) -> bool {
    match r {
        Some(r) => range_valid(r, len),
        None => true,
    }
}

/// Byte-wise equality of two slices.
pub fn bytes_eq(a: &[u8], b: &[u8]) -> (r: bool)
    ensures
        r == (a@ == b@),
{
    if a.len() != b.len() {
        return false;
    }
    let mut i: usize = 0;
    while i < a.len()
        invariant
            a@.len() == b@.len(),
            i <= a@.len(),
            forall|j: int| 0 <= j < i ==> a@[j] == b@[j],
        decreases a@.len() - i,
    {
        if a[i] != b[i] {
            return false;
        }
        i = i + 1;
    }
    proof {
        assert(a@ =~= b@);
    }
    true
}

/// The local name of a tag, as the tokenizer reports it.
pub struct LocalName {
    pub bytes: Vec<u8>,
}

/// Per-element bookkeeping that predicates may consult: the element's
/// 1-based position among its siblings and among its same-named siblings.
pub struct SelectorState {
    pub index: usize,
    pub type_index: usize,
}

/// One attribute of a fully parsed tag.
pub struct Attribute {
    pub name: Vec<u8>,
    pub value: Vec<u8>,
}

/// Access to the attributes of a tag. Names are compared byte for byte.
pub struct AttributeMatcher {
    pub attributes: Vec<Attribute>,
}

/// A predicate over the selector state and the tag's local name.
pub enum LocalNameExpr {
    /// The local name equals these bytes.
    Is(Vec<u8>),
    /// The element stands at this position among its siblings.
    NthChild(usize),
    /// The element stands at this position among its same-named siblings.
    NthOfType(usize),
}

/// A predicate over the selector state and the tag's attributes.
pub enum AttributeExpr {
    /// Some attribute has this name.
    Exists(Vec<u8>),
    /// Some attribute has this name and this value.
    Equals(Vec<u8>, Vec<u8>),
}

pub open spec fn local_name_expr_holds(e: LocalNameExpr, state: SelectorState, name: Seq<u8>) -> bool {
    match e {
        LocalNameExpr::Is(n) => n@ == name,
        LocalNameExpr::NthChild(k) => state.index == k,
        LocalNameExpr::NthOfType(k) => state.type_index == k,
    }
}

pub open spec fn attribute_expr_holds(e: AttributeExpr, attrs: Seq<Attribute>) -> bool {
    match e {
        AttributeExpr::Exists(n) => exists|i: int| 0 <= i < attrs.len() && (#[trigger] attrs[i]).name@ == n@,
        AttributeExpr::Equals(n, v) => exists|i: int|
            0 <= i < attrs.len() && (#[trigger] attrs[i]).name@ == n@ && attrs[i].value@ == v@,
    }
}

impl LocalNameExpr {
    pub fn eval(&self, state: &SelectorState, local_name: &LocalName) -> (r: bool)
        ensures
            r == local_name_expr_holds(*self, *state, local_name.bytes@),
    {
        match self {
            LocalNameExpr::Is(n) => bytes_eq(n.as_slice(), local_name.bytes.as_slice()),
            LocalNameExpr::NthChild(k) => state.index == *k,
            LocalNameExpr::NthOfType(k) => state.type_index == *k,
        }
    }
}

impl AttributeExpr {
    pub fn eval(&self, _state: &SelectorState, attr_matcher: &AttributeMatcher) -> (r: bool)
        ensures
            r == attribute_expr_holds(*self, attr_matcher.attributes@),
    {
        let mut i: usize = 0;
        while i < attr_matcher.attributes.len()
            invariant
                i <= attr_matcher.attributes@.len(),
                forall|j: int| 0 <= j < i ==> !(match *self {
                    AttributeExpr::Exists(n) => (#[trigger] attr_matcher.attributes@[j]).name@ == n@,
                    AttributeExpr::Equals(n, v) => attr_matcher.attributes@[j].name@ == n@
                        && attr_matcher.attributes@[j].value@ == v@,
                }),
            decreases attr_matcher.attributes@.len() - i,
        {
            let a = &attr_matcher.attributes[i];
            let hit = match self {
                AttributeExpr::Exists(n) => bytes_eq(a.name.as_slice(), n.as_slice()),
                AttributeExpr::Equals(n, v) => bytes_eq(a.name.as_slice(), n.as_slice())
                    && bytes_eq(a.value.as_slice(), v.as_slice()),
            };
            if hit {
                proof {
                    assert(attr_matcher.attributes@[i as int] == *a);
                }
                return true;
            }
            i = i + 1;
        }
        false
    }
}

/// The outcome of a matched instruction.
pub struct ExecutionBranch {
    /// Payloads fully satisfied by the element.
    pub matched_payload: PayloadSet,
    /// Instructions to try on the element's direct children.
    pub jumps: Option<AddressRange>,
    /// Instructions to try on every descendant of the element.
    pub hereditary_jumps: Option<AddressRange>,
}

/// The result of trying an instruction before the attributes are parsed.
pub enum TryExecResult<'i> {
    /// A match; the attributes are irrelevant.
    Branch(&'i ExecutionBranch),
    /// The name guards passed; the attribute guards remain.
    AttributesRequired,
    /// The name guards already fail.
    Fail,
}

/// One matching node: its branch is taken when every guard holds.
pub struct Instruction {
    pub associated_branch: ExecutionBranch,
    pub local_name_exprs: Vec<LocalNameExpr>,
    pub attribute_exprs: Vec<AttributeExpr>,
}

impl Instruction {
    /// Every local-name guard holds.
    pub open spec fn name_guards_hold(self, state: SelectorState, name: Seq<u8>) -> bool {
        forall|i: int| 0 <= i < self.local_name_exprs@.len()
            ==> local_name_expr_holds(#[trigger] self.local_name_exprs@[i], state, name)
    }

    /// Every attribute guard holds.
    pub open spec fn attr_guards_hold(self, attrs: Seq<Attribute>) -> bool {
        forall|i: int| 0 <= i < self.attribute_exprs@.len()
            ==> attribute_expr_holds(#[trigger] self.attribute_exprs@[i], attrs)
    }

    /// The instruction matches the element.
    pub open spec fn matches(self, state: SelectorState, name: Seq<u8>, attrs: Seq<Attribute>) -> bool {
        self.name_guards_hold(state, name) && self.attr_guards_hold(attrs)
    }

    fn check_local_name(&self, state: &SelectorState, local_name: &LocalName) -> (r: bool)
        ensures
            r == self.name_guards_hold(*state, local_name.bytes@),
    {
        let mut i: usize = 0;
        while i < self.local_name_exprs.len()
            invariant
                i <= self.local_name_exprs@.len(),
                forall|j: int| 0 <= j < i
                    ==> local_name_expr_holds(#[trigger] self.local_name_exprs@[j], *state, local_name.bytes@),
            decreases self.local_name_exprs@.len() - i,
        {
            if !self.local_name_exprs[i].eval(state, local_name) {
                return false;
            }
            i = i + 1;
        }
        true
    }

    fn check_attributes(&self, state: &SelectorState, attr_matcher: &AttributeMatcher) -> (r: bool)
        ensures
            r == self.attr_guards_hold(attr_matcher.attributes@),
    {
        let mut i: usize = 0;
        while i < self.attribute_exprs.len()
            invariant
                i <= self.attribute_exprs@.len(),
                forall|j: int| 0 <= j < i
                    ==> attribute_expr_holds(#[trigger] self.attribute_exprs@[j], attr_matcher.attributes@),
            decreases self.attribute_exprs@.len() - i,
        {
            if !self.attribute_exprs[i].eval(state, attr_matcher) {
                return false;
            }
            i = i + 1;
        }
        true
    }

    /// Evaluates the local-name guards only.
    pub fn try_exec_without_attrs<'i>(&'i self, state: &SelectorState, local_name: &LocalName) -> (r: TryExecResult<'i>)
        ensures
            match r {
                TryExecResult::Branch(b) => self.name_guards_hold(*state, local_name.bytes@)
                    && self.attribute_exprs@.len() == 0 && *b == self.associated_branch,
                TryExecResult::AttributesRequired => self.name_guards_hold(*state, local_name.bytes@)
                    && self.attribute_exprs@.len() > 0,
                TryExecResult::Fail => !self.name_guards_hold(*state, local_name.bytes@),
            },
    {
        if self.check_local_name(state, local_name) {
            if self.attribute_exprs.len() == 0 {
                TryExecResult::Branch(&self.associated_branch)
            } else {
                TryExecResult::AttributesRequired
            }
        } else {
            TryExecResult::Fail
        }
    }

    /// Evaluates the attribute guards only, once the attributes are parsed.
    pub fn complete_exec_with_attrs<'i>(&'i self, state: &SelectorState, attr_matcher: &AttributeMatcher) -> (r: Option<&'i ExecutionBranch>)
        ensures
            r.is_some() == self.attr_guards_hold(attr_matcher.attributes@),
            r.is_some() ==> *r.unwrap() == self.associated_branch,
    {
        if self.check_attributes(state, attr_matcher) {
            Some(&self.associated_branch)
        } else {
            None
        }
    }

    /// Evaluates both guard lists at once.
    pub fn exec<'i>(&'i self, state: &SelectorState, local_name: &LocalName, attr_matcher: &AttributeMatcher) -> (r: Option<&'i ExecutionBranch>)
        ensures
            r.is_some() == self.matches(*state, local_name.bytes@, attr_matcher.attributes@),
            r.is_some() ==> *r.unwrap() == self.associated_branch,
    {
        let is_match = self.check_local_name(state, local_name) && self.check_attributes(state, attr_matcher);
        if is_match {
            Some(&self.associated_branch)
        } else {
            None
        }
    }
}

/// Once the name guards have passed and attributes are required, finishing
/// with the attributes gives the same verdict as matching in one step.
pub proof fn lemma_two_phase_agrees(ins: Instruction, state: SelectorState, name: Seq<u8>, attrs: Seq<Attribute>)
    requires
        ins.name_guards_hold(state, name),
        ins.attribute_exprs@.len() > 0,
    ensures
        ins.attr_guards_hold(attrs) == ins.matches(state, name, attrs),
{
}

/// When the name guards alone fail, no attributes can make the instruction match.
pub proof fn lemma_cheap_rejection(ins: Instruction, state: SelectorState, name: Seq<u8>, attrs: Seq<Attribute>)
    requires
        !ins.name_guards_hold(state, name),
    ensures
        !ins.matches(state, name, attrs),
{
}

/// A set of optional runtime capabilities that a program requires.
pub struct ProgramFlags {
    pub bits: u16,
}

impl ProgramFlags {
    /// No capability.
    pub fn empty() -> (r: ProgramFlags)
        ensures
            r.bits == 0,
    {
        ProgramFlags { bits: 0 }
    }

    /// Nth-of-type sibling tracking.
    pub fn nth_of_type() -> (r: ProgramFlags)
        ensures
            r.bits == 1,
    {
        ProgramFlags { bits: 1 }
    }

    pub fn is_empty(&self) -> (r: bool)
        ensures
            r == (self.bits == 0),
    {
        self.bits == 0
    }

    /// Every capability of `other` is in `self`.
    pub fn contains(&self, other: &ProgramFlags) -> (r: bool)
        ensures
            r == (self.bits & other.bits == other.bits),
    {
        self.bits & other.bits == other.bits
    }

    /// The capabilities of both.
    pub fn union(&self, other: &ProgramFlags) -> (r: ProgramFlags)
        ensures
            r.bits == self.bits | other.bits,
    {
        ProgramFlags { bits: self.bits | other.bits }
    }
}

/// A compiled selector automaton: a flat table of instructions addressed by
/// position, with the range tried on top-level tags.
pub struct Program {
    pub instructions: Vec<Instruction>,
    pub entry_points: AddressRange,
    pub flags: ProgramFlags,
}

impl Program {
    /// Every address range the program refers to lies inside its table.
    pub open spec fn wf(self) -> bool {
        &&& range_valid(self.entry_points, self.instructions@.len() as int)
        &&& forall|i: int| 0 <= i < self.instructions@.len() ==> {
            &&& opt_range_valid(#[trigger] self.instructions@[i].associated_branch.jumps, self.instructions@.len() as int)
            &&& opt_range_valid(self.instructions@[i].associated_branch.hereditary_jumps, self.instructions@.len() as int)
        }
    }

    /// Checks that every address range lies inside the table.
    pub fn is_valid(&self) -> (r: bool)
        ensures
            r == self.wf(),
    {
        let len = self.instructions.len();
        if !(self.entry_points.start <= self.entry_points.end && self.entry_points.end <= len) {
            return false;
        }
        let mut i: usize = 0;
        while i < len
            invariant
                len == self.instructions@.len(),
                i <= len,
                forall|j: int| 0 <= j < i ==> {
                    &&& opt_range_valid(#[trigger] self.instructions@[j].associated_branch.jumps, len as int)
                    &&& opt_range_valid(self.instructions@[j].associated_branch.hereditary_jumps, len as int)
                },
            decreases len - i,
        {
            let b = &self.instructions[i].associated_branch;
            match &b.jumps {
                Some(r) => {
                    if !(r.start <= r.end && r.end <= len) {
                        return false;
                    }
                },
                None => {},
            }
            match &b.hereditary_jumps {
                Some(r) => {
                    if !(r.start <= r.end && r.end <= len) {
                        return false;
                    }
                },
                None => {},
            }
            i = i + 1;
        }
        true
    }

    /// The program asks for nth-of-type sibling tracking.
    pub fn needs_nth_of_type(&self) -> (r: bool)
        ensures
            r == (self.flags.bits & 1 == 1),
    {
        self.flags.contains(&ProgramFlags::nth_of_type())
    }
}

} // verus!
