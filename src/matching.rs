use vstd::prelude::*;
use crate::payload::{payload_ids, PayloadId, PayloadSet};
use crate::program::{
    range_valid, AddressRange, Attribute, AttributeMatcher, ExecutionBranch, Instruction,
    LocalName, Program, SelectorState, TryExecResult, lemma_cheap_rejection, lemma_two_phase_agrees,
};

verus! {

/// Every range lies inside a table of `len` instructions.
pub open spec fn ranges_valid(ranges: Seq<AddressRange>, len: int) -> bool {
    forall|k: int| 0 <= k < ranges.len() ==> range_valid(#[trigger] ranges[k], len)
}

/// What one element's match yields: the payloads it satisfies, the ranges to
/// try on its direct children and those to try on all its descendants.
pub struct ElementMatch {
    pub payload: PayloadSet,
    pub jumps: Vec<AddressRange>,
    pub hereditary_jumps: Vec<AddressRange>,
}

fn copy_range(r: &AddressRange) -> (c: AddressRange)
    ensures
        c == *r,
{
    std::ops::Range { start: r.start, end: r.end }
}

/// The child ranges of a branch, or with `hereditary` its descendant ranges.
pub open spec fn branch_range(b: ExecutionBranch, hereditary: bool) -> Option<AddressRange> {
    if hereditary { b.hereditary_jumps } else { b.jumps }
}

/// One step of collecting the ranges of matching instructions: trying
/// instruction `i` of range `k` extends what was collected before it.
proof fn lemma_collect_step(
    program: Program,
    ranges: Seq<AddressRange>,
    state: SelectorState,
    name: Seq<u8>,
    attrs: Seq<Attribute>,
    k: int,
    i: int,
    hereditary: bool,
    before: Seq<AddressRange>,
    after: Seq<AddressRange>,
)
    requires
        0 <= k < ranges.len(),
        ranges[k].start <= i < ranges[k].end,
        forall|x: AddressRange| before.contains(x) <==> exists|k2: int, i2: int|
            #[trigger] program.hit(ranges, k2, i2, state, name, attrs) && (k2 < k || (k2 == k && i2 < i))
            && branch_range(program.branch_at(i2), hereditary) == Some(x),
        after == (if program.hit(ranges, k, i, state, name, attrs) && branch_range(program.branch_at(i), hereditary).is_some() {
            before.push(branch_range(program.branch_at(i), hereditary).unwrap())
        } else {
            before
        }),
    ensures
        forall|x: AddressRange| after.contains(x) <==> exists|k2: int, i2: int|
            #[trigger] program.hit(ranges, k2, i2, state, name, attrs) && (k2 < k || (k2 == k && i2 < i + 1))
            && branch_range(program.branch_at(i2), hereditary) == Some(x),
{
    assert forall|x: AddressRange| after.contains(x) <==> exists|k2: int, i2: int|
        #[trigger] program.hit(ranges, k2, i2, state, name, attrs) && (k2 < k || (k2 == k && i2 < i + 1))
        && branch_range(program.branch_at(i2), hereditary) == Some(x) by {
        if after.contains(x) && !before.contains(x) {
            let j = choose|j: int| 0 <= j < after.len() && after[j] == x;
            if j < before.len() {
                assert(before[j] == x);
            }
            assert(program.hit(ranges, k, i, state, name, attrs));
        }
        if before.contains(x) {
            let j = choose|j: int| 0 <= j < before.len() && before[j] == x;
            assert(after[j] == x);
        }
        if exists|k2: int, i2: int|
            #[trigger] program.hit(ranges, k2, i2, state, name, attrs) && (k2 < k || (k2 == k && i2 < i + 1))
            && branch_range(program.branch_at(i2), hereditary) == Some(x) {
            let (k2, i2) = choose|k2: int, i2: int|
                #[trigger] program.hit(ranges, k2, i2, state, name, attrs) && (k2 < k || (k2 == k && i2 < i + 1))
                && branch_range(program.branch_at(i2), hereditary) == Some(x);
            if k2 < k || i2 < i {
                assert(before.contains(x));
                let j = choose|j: int| 0 <= j < before.len() && before[j] == x;
                assert(after[j] == x);
            } else {
                assert(after[before.len() as int] == x);
            }
        }
    }
}

impl Program {
    /// Instruction `i` of active range `k` matches the element.
    pub open spec fn hit(self, ranges: Seq<AddressRange>, k: int, i: int, state: SelectorState, name: Seq<u8>, attrs: Seq<Attribute>) -> bool {
        &&& 0 <= k < ranges.len()
        &&& ranges[k].start <= i < ranges[k].end
        &&& 0 <= i < self.instructions@.len()
        &&& self.instructions@[i].matches(state, name, attrs)
    }

    pub open spec fn branch_at(self, i: int) -> ExecutionBranch {
        self.instructions@[i].associated_branch
    }

    /// The payloads of every instruction that matches in an active range.
    pub open spec fn element_payload(self, ranges: Seq<AddressRange>, state: SelectorState, name: Seq<u8>, attrs: Seq<Attribute>) -> Set<PayloadId> {
        Set::new(|p: PayloadId| exists|k: int, i: int|
            #[trigger] self.hit(ranges, k, i, state, name, attrs) && payload_ids(self.branch_at(i).matched_payload).contains(p))
    }

    /// The child ranges of every instruction that matches in an active range.
    pub open spec fn element_jumps(self, ranges: Seq<AddressRange>, state: SelectorState, name: Seq<u8>, attrs: Seq<Attribute>) -> Set<AddressRange> {
        Set::new(|r: AddressRange| exists|k: int, i: int|
            #[trigger] self.hit(ranges, k, i, state, name, attrs) && self.branch_at(i).jumps == Some(r))
    }

    /// The descendant ranges of every instruction that matches in an active range.
    pub open spec fn element_hereditary_jumps(self, ranges: Seq<AddressRange>, state: SelectorState, name: Seq<u8>, attrs: Seq<Attribute>) -> Set<AddressRange> {
        Set::new(|r: AddressRange| exists|k: int, i: int|
            #[trigger] self.hit(ranges, k, i, state, name, attrs) && self.branch_at(i).hereditary_jumps == Some(r))
    }

    /// Tries an instruction in two phases: the name guards first, and the
    /// attribute guards only where the name guards pass.
    fn try_instruction<'i>(ins: &'i Instruction, state: &SelectorState, local_name: &LocalName, attr_matcher: &AttributeMatcher) -> (r: Option<&'i ExecutionBranch>)
        ensures
            r.is_some() == ins.matches(*state, local_name.bytes@, attr_matcher.attributes@),
            r.is_some() ==> *r.unwrap() == ins.associated_branch,
    {
        match ins.try_exec_without_attrs(state, local_name) {
            TryExecResult::Branch(b) => Some(b),
            TryExecResult::AttributesRequired => {
                proof {
                    lemma_two_phase_agrees(*ins, *state, local_name.bytes@, attr_matcher.attributes@);
                }
                ins.complete_exec_with_attrs(state, attr_matcher)
            },
            TryExecResult::Fail => {
                proof {
                    lemma_cheap_rejection(*ins, *state, local_name.bytes@, attr_matcher.attributes@);
                }
                None
            },
        }
    }

    /// Matches one element against every instruction of every active range.
    pub fn match_element(&self, ranges: &Vec<AddressRange>, state: &SelectorState, local_name: &LocalName, attr_matcher: &AttributeMatcher) -> (r: ElementMatch)
        requires
            ranges_valid(ranges@, self.instructions@.len() as int),
        ensures
            payload_ids(r.payload) == self.element_payload(ranges@, *state, local_name.bytes@, attr_matcher.attributes@),
            r.jumps@.to_set() == self.element_jumps(ranges@, *state, local_name.bytes@, attr_matcher.attributes@),
            r.hereditary_jumps@.to_set() == self.element_hereditary_jumps(ranges@, *state, local_name.bytes@, attr_matcher.attributes@),
    {
        let ghost name = local_name.bytes@;
        let ghost attrs = attr_matcher.attributes@;
        let mut payload = PayloadSet::new();
        let mut jumps: Vec<AddressRange> = Vec::new();
        let mut hereditary_jumps: Vec<AddressRange> = Vec::new();
        let mut k: usize = 0;
        while k < ranges.len()
            invariant
                k <= ranges@.len(),
                name == local_name.bytes@,
                attrs == attr_matcher.attributes@,
                ranges_valid(ranges@, self.instructions@.len() as int),
                forall|p: PayloadId| payload_ids(payload).contains(p) <==> exists|k2: int, i2: int|
                    #[trigger] self.hit(ranges@, k2, i2, *state, name, attrs) && k2 < k
                    && payload_ids(self.branch_at(i2).matched_payload).contains(p),
                forall|x: AddressRange| jumps@.contains(x) <==> exists|k2: int, i2: int|
                    #[trigger] self.hit(ranges@, k2, i2, *state, name, attrs) && k2 < k
                    && branch_range(self.branch_at(i2), false) == Some(x),
                forall|x: AddressRange| hereditary_jumps@.contains(x) <==> exists|k2: int, i2: int|
                    #[trigger] self.hit(ranges@, k2, i2, *state, name, attrs) && k2 < k
                    && branch_range(self.branch_at(i2), true) == Some(x),
            decreases ranges@.len() - k,
        {
            let range = &ranges[k];
            proof {
                assert(range_valid(ranges@[k as int], self.instructions@.len() as int));
            }
            let mut i: usize = range.start;
            while i < range.end
                invariant
                    k < ranges@.len(),
                    name == local_name.bytes@,
                    attrs == attr_matcher.attributes@,
                    *range == ranges@[k as int],
                    range.start <= i <= range.end,
                    range.end <= self.instructions@.len(),
                    forall|p: PayloadId| payload_ids(payload).contains(p) <==> exists|k2: int, i2: int|
                        #[trigger] self.hit(ranges@, k2, i2, *state, name, attrs) && (k2 < k || (k2 == k && i2 < i))
                        && payload_ids(self.branch_at(i2).matched_payload).contains(p),
                    forall|x: AddressRange| jumps@.contains(x) <==> exists|k2: int, i2: int|
                        #[trigger] self.hit(ranges@, k2, i2, *state, name, attrs) && (k2 < k || (k2 == k && i2 < i))
                        && branch_range(self.branch_at(i2), false) == Some(x),
                    forall|x: AddressRange| hereditary_jumps@.contains(x) <==> exists|k2: int, i2: int|
                        #[trigger] self.hit(ranges@, k2, i2, *state, name, attrs) && (k2 < k || (k2 == k && i2 < i))
                        && branch_range(self.branch_at(i2), true) == Some(x),
                decreases range.end - i,
            {
                let ins = &self.instructions[i];
                let found = Program::try_instruction(ins, state, local_name, attr_matcher);
                let ghost old_payload = payload;
                let ghost old_jumps = jumps@;
                let ghost old_hereditary = hereditary_jumps@;
                match found {
                    Some(b) => {
                        proof {
                            assert(self.hit(ranges@, k as int, i as int, *state, name, attrs));
                        }
                        payload.extend_from(&b.matched_payload);
                        match &b.jumps {
                            Some(j) => {
                                jumps.push(copy_range(j));
                                assert(jumps@ == old_jumps.push(self.branch_at(i as int).jumps.unwrap()));
                            },
                            None => {},
                        }
                        match &b.hereditary_jumps {
                            Some(j) => {
                                hereditary_jumps.push(copy_range(j));
                                assert(hereditary_jumps@ == old_hereditary.push(self.branch_at(i as int).hereditary_jumps.unwrap()));
                            },
                            None => {},
                        }
                    },
                    None => {
                        proof {
                            assert(!self.hit(ranges@, k as int, i as int, *state, name, attrs));
                        }
                    },
                }
                proof {
                    assert forall|p: PayloadId| payload_ids(payload).contains(p) <==> exists|k2: int, i2: int|
                        #[trigger] self.hit(ranges@, k2, i2, *state, name, attrs) && (k2 < k || (k2 == k && i2 < i + 1))
                        && payload_ids(self.branch_at(i2).matched_payload).contains(p) by {
                        if payload_ids(payload).contains(p) && !payload_ids(old_payload).contains(p) {
                            assert(self.hit(ranges@, k as int, i as int, *state, name, attrs));
                        }
                    }
                    lemma_collect_step(*self, ranges@, *state, name, attrs, k as int, i as int, false, old_jumps, jumps@);
                    lemma_collect_step(*self, ranges@, *state, name, attrs, k as int, i as int, true, old_hereditary, hereditary_jumps@);
                }
                i = i + 1;
            }
            k = k + 1;
        }
        proof {
            assert(payload_ids(payload) =~= self.element_payload(ranges@, *state, name, attrs));
            assert(jumps@.to_set() =~= self.element_jumps(ranges@, *state, name, attrs));
            assert(hereditary_jumps@.to_set() =~= self.element_hereditary_jumps(ranges@, *state, name, attrs));
        }
        ElementMatch { payload, jumps, hereditary_jumps }
    }
}

} // verus!

verus! {

/// The ranges that one open element hands down to what lies inside it.
pub struct OpenElement {
    pub jumps: Vec<AddressRange>,
    pub hereditary_jumps: Vec<AddressRange>,
}

/// Range `r` is tried on the next element opened below `frames`: it is the
/// entry range, a child range of the innermost open element, or a descendant
/// range of any open element.
pub open spec fn is_active(frames: Seq<OpenElement>, entry: AddressRange, r: AddressRange) -> bool {
    ||| r == entry
    ||| (frames.len() > 0 && frames.last().jumps@.contains(r))
    ||| exists|k: int| 0 <= k < frames.len() && (#[trigger] frames[k]).hereditary_jumps@.contains(r)
}

pub open spec fn active_set(frames: Seq<OpenElement>, entry: AddressRange) -> Set<AddressRange> {
    Set::new(|r: AddressRange| is_active(frames, entry, r))
}

/// The descendant ranges of the first `k` frames.
pub open spec fn hereditary_upto(frames: Seq<OpenElement>, k: int) -> Set<AddressRange> {
    Set::new(|x: AddressRange| exists|k2: int| 0 <= k2 < k && (#[trigger] frames[k2]).hereditary_jumps@.contains(x))
}

proof fn lemma_hereditary_upto_step(frames: Seq<OpenElement>, k: int)
    requires
        0 <= k < frames.len(),
    ensures
        hereditary_upto(frames, k + 1) == hereditary_upto(frames, k).union(frames[k].hereditary_jumps@.to_set()),
{
    assert forall|x: AddressRange| #[trigger] hereditary_upto(frames, k + 1).contains(x)
        == hereditary_upto(frames, k).union(frames[k].hereditary_jumps@.to_set()).contains(x) by {
        if hereditary_upto(frames, k + 1).contains(x) {
            let k2 = choose|k2: int| 0 <= k2 < k + 1 && (#[trigger] frames[k2]).hereditary_jumps@.contains(x);
            if k2 < k {
                assert(hereditary_upto(frames, k).contains(x));
            }
        }
        if frames[k].hereditary_jumps@.contains(x) {
            assert(frames[k].hereditary_jumps@.contains(x));
        }
    }
    assert(hereditary_upto(frames, k + 1) =~= hereditary_upto(frames, k).union(frames[k].hereditary_jumps@.to_set()));
}

/// Every range held by the frames lies inside a table of `len` instructions.
pub open spec fn frames_valid(frames: Seq<OpenElement>, len: int) -> bool {
    forall|k: int| 0 <= k < frames.len() ==> {
        &&& ranges_valid((#[trigger] frames[k]).jumps@, len)
        &&& ranges_valid(frames[k].hereditary_jumps@, len)
    }
}

/// A range that a descendant range of an open element stays active for every
/// element opened below it, whatever lies between, until that element closes.
pub proof fn lemma_hereditary_persists(ancestors: Seq<OpenElement>, descendants: Seq<OpenElement>, entry: AddressRange, h: AddressRange)
    requires
        ancestors.len() > 0,
        ancestors.last().hereditary_jumps@.contains(h),
        ancestors.is_prefix_of(descendants),
    ensures
        active_set(descendants, entry).contains(h),
{
    let k = ancestors.len() - 1;
    assert(descendants[k] == ancestors[k]);
    assert(is_active(descendants, entry, h));
}

/// The elements open at a point of the stream, outermost first.
pub struct ElementStack {
    frames: Vec<OpenElement>,
}

impl ElementStack {
    pub closed spec fn frames(self) -> Seq<OpenElement> {
        self.frames@
    }

    pub fn new() -> (r: ElementStack)
        ensures
            r.frames() == Seq::<OpenElement>::empty(),
    {
        ElementStack { frames: Vec::new() }
    }

    pub fn depth(&self) -> (r: usize)
        ensures
            r == self.frames().len(),
    {
        self.frames.len()
    }

    /// The ranges to try on the next element opened, each that is active.
    pub fn active_ranges(&self, entry: &AddressRange) -> (r: Vec<AddressRange>)
        ensures
            r@.to_set() == active_set(self.frames(), *entry),
    {
        let mut r: Vec<AddressRange> = Vec::new();
        r.push(copy_range(entry));
        let n = self.frames.len();
        if n > 0 {
            let last = &self.frames[n - 1];
            let mut i: usize = 0;
            while i < last.jumps.len()
                invariant
                    *last == self.frames@.last(),
                    i <= last.jumps@.len(),
                    r@ == seq![*entry] + last.jumps@.subrange(0, i as int),
                decreases last.jumps@.len() - i,
            {
                r.push(copy_range(&last.jumps[i]));
                proof {
                    assert(last.jumps@.subrange(0, i + 1) == last.jumps@.subrange(0, i as int).push(last.jumps@[i as int]));
                }
                i = i + 1;
            }
            proof {
                assert(last.jumps@.subrange(0, last.jumps@.len() as int) == last.jumps@);
            }
        }
        let ghost base = r@;
        proof {
            assert forall|x: AddressRange| base.contains(x) <==> (x == *entry || (n > 0 && self.frames@.last().jumps@.contains(x))) by {
                if n > 0 && self.frames@.last().jumps@.contains(x) {
                    let j = choose|j: int| 0 <= j < self.frames@.last().jumps@.len() && self.frames@.last().jumps@[j] == x;
                    assert(base[j + 1] == x);
                }
                if base.contains(x) && x != *entry {
                    let j = choose|j: int| 0 <= j < base.len() && base[j] == x;
                    assert(j > 0);
                    assert(self.frames@.last().jumps@[j - 1] == x);
                }
                if x == *entry {
                    assert(base[0] == x);
                }
            }
        }
        let mut k: usize = 0;
        while k < n
            invariant
                n == self.frames@.len(),
                k <= n,
                r@.to_set() == base.to_set().union(hereditary_upto(self.frames@, k as int)),
            decreases n - k,
        {
            let frame = &self.frames[k];
            let mut i: usize = 0;
            proof {
                assert(frame.hereditary_jumps@.subrange(0, 0).to_set() =~= Set::<AddressRange>::empty());
                assert(r@.to_set() =~= base.to_set().union(hereditary_upto(self.frames@, k as int))
                    .union(frame.hereditary_jumps@.subrange(0, 0).to_set()));
            }
            while i < frame.hereditary_jumps.len()
                invariant
                    n == self.frames@.len(),
                    k < n,
                    *frame == self.frames@[k as int],
                    i <= frame.hereditary_jumps@.len(),
                    r@.to_set() == base.to_set().union(hereditary_upto(self.frames@, k as int))
                        .union(frame.hereditary_jumps@.subrange(0, i as int).to_set()),
                decreases frame.hereditary_jumps@.len() - i,
            {
                let ghost before = r@;
                r.push(copy_range(&frame.hereditary_jumps[i]));
                proof {
                    let v = frame.hereditary_jumps@[i as int];
                    let sub = frame.hereditary_jumps@.subrange(0, i as int);
                    assert(frame.hereditary_jumps@.subrange(0, i + 1) == sub.push(v));
                    before.lemma_push_to_set_commute(v);
                    sub.lemma_push_to_set_commute(v);
                    assert(r@.to_set() =~= base.to_set().union(hereditary_upto(self.frames@, k as int))
                        .union(frame.hereditary_jumps@.subrange(0, i + 1).to_set()));
                }
                i = i + 1;
            }
            proof {
                assert(frame.hereditary_jumps@.subrange(0, frame.hereditary_jumps@.len() as int) == frame.hereditary_jumps@);
                lemma_hereditary_upto_step(self.frames@, k as int);
                assert(r@.to_set() =~= base.to_set().union(hereditary_upto(self.frames@, k + 1)));
            }
            k = k + 1;
        }
        proof {
            assert forall|x: AddressRange| #[trigger] r@.to_set().contains(x) == active_set(self.frames@, *entry).contains(x) by {
                assert(base.to_set().contains(x) == base.contains(x));
                if hereditary_upto(self.frames@, n as int).contains(x) {
                    let k2 = choose|k2: int| 0 <= k2 < n && (#[trigger] self.frames@[k2]).hereditary_jumps@.contains(x);
                }
            }
            assert(r@.to_set() =~= active_set(self.frames@, *entry));
        }
        r
    }

    /// Opens an element: matches it against every active range and pushes
    /// the ranges it hands down. Returns the payloads it satisfies.
    pub fn open_element(&mut self, program: &Program, state: &SelectorState, local_name: &LocalName, attr_matcher: &AttributeMatcher) -> (r: PayloadSet)
        requires
            program.wf(),
            frames_valid(old(self).frames(), program.instructions@.len() as int),
        ensures
            exists|ranges: Seq<AddressRange>| ranges.to_set() == active_set(old(self).frames(), program.entry_points)
                && #[trigger] program.element_payload(ranges, *state, local_name.bytes@, attr_matcher.attributes@) == payload_ids(r)
                && final(self).frames().last().jumps@.to_set()
                    == program.element_jumps(ranges, *state, local_name.bytes@, attr_matcher.attributes@)
                && final(self).frames().last().hereditary_jumps@.to_set()
                    == program.element_hereditary_jumps(ranges, *state, local_name.bytes@, attr_matcher.attributes@),
            final(self).frames().len() == old(self).frames().len() + 1,
            final(self).frames().drop_last() == old(self).frames(),
            frames_valid(final(self).frames(), program.instructions@.len() as int),
    {
        let ranges = self.active_ranges(&program.entry_points);
        proof {
            let len = program.instructions@.len() as int;
            assert forall|k: int| 0 <= k < ranges@.len() implies range_valid(#[trigger] ranges@[k], len) by {
                let x = ranges@[k];
                assert(ranges@.to_set().contains(x));
                assert(is_active(self.frames@, program.entry_points, x));
                if x != program.entry_points {
                    if self.frames@.len() > 0 && self.frames@.last().jumps@.contains(x) {
                        let j = choose|j: int| 0 <= j < self.frames@.last().jumps@.len() && self.frames@.last().jumps@[j] == x;
                        assert(ranges_valid(self.frames@[self.frames@.len() - 1].jumps@, len));
                    } else {
                        let k2 = choose|k2: int| 0 <= k2 < self.frames@.len() && (#[trigger] self.frames@[k2]).hereditary_jumps@.contains(x);
                        let j = choose|j: int| 0 <= j < self.frames@[k2].hereditary_jumps@.len() && self.frames@[k2].hereditary_jumps@[j] == x;
                        assert(ranges_valid(self.frames@[k2].hereditary_jumps@, len));
                    }
                }
            }
        }
        let m = program.match_element(&ranges, state, local_name, attr_matcher);
        let ElementMatch { payload, jumps, hereditary_jumps } = m;
        proof {
            let len = program.instructions@.len() as int;
            let name = local_name.bytes@;
            let attrs = attr_matcher.attributes@;
            assert forall|k: int| 0 <= k < jumps@.len() implies range_valid(#[trigger] jumps@[k], len) by {
                assert(jumps@.to_set().contains(jumps@[k]));
                assert(program.element_jumps(ranges@, *state, name, attrs).contains(jumps@[k]));
                let (k2, i2) = choose|k2: int, i2: int| #[trigger] program.hit(ranges@, k2, i2, *state, name, attrs)
                    && program.branch_at(i2).jumps == Some(jumps@[k]);
                assert(program.instructions@[i2].associated_branch.jumps == Some(jumps@[k]));
            }
            assert forall|k: int| 0 <= k < hereditary_jumps@.len() implies range_valid(#[trigger] hereditary_jumps@[k], len) by {
                assert(hereditary_jumps@.to_set().contains(hereditary_jumps@[k]));
                assert(program.element_hereditary_jumps(ranges@, *state, name, attrs).contains(hereditary_jumps@[k]));
                let (k2, i2) = choose|k2: int, i2: int| #[trigger] program.hit(ranges@, k2, i2, *state, name, attrs)
                    && program.branch_at(i2).hereditary_jumps == Some(hereditary_jumps@[k]);
                assert(program.instructions@[i2].associated_branch.hereditary_jumps == Some(hereditary_jumps@[k]));
            }
        }
        self.frames.push(OpenElement { jumps, hereditary_jumps });
        proof {
            assert(self.frames@.drop_last() == old(self).frames@);
            assert forall|k: int| 0 <= k < self.frames@.len() implies {
                &&& ranges_valid((#[trigger] self.frames@[k]).jumps@, program.instructions@.len() as int)
                &&& ranges_valid(self.frames@[k].hereditary_jumps@, program.instructions@.len() as int)
            } by {
                if k < old(self).frames@.len() {
                    assert(self.frames@[k] == old(self).frames@[k]);
                }
            }
        }
        payload
    }

    /// Closes the innermost open element: the ranges it handed down stop
    /// being tried.
    pub fn close_element(&mut self)
        requires
            old(self).frames().len() > 0,
        ensures
            final(self).frames() == old(self).frames().drop_last(),
    {
        self.frames.pop();
    }
}

} // verus!
