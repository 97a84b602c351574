//! The behaviour of a synthesized builder: one slot per field, a setter per
//! field, and a `build` step that resolves the slots in declaration order and
//! stops at the first required field that was never set.
use vstd::prelude::*;
use crate::plan::{distinct_setters, BuilderPlan, FieldPlan, SlotKind};

verus! {

/// A field value handed to a setter.
#[derive(Debug, PartialEq, Eq)]
pub enum Value {
    /// "No value": what an optional field that was never set resolves to.
    Absent,
    Text(String),
    Int(i64),
    Bool(bool),
}

/// A copy of a value.
pub fn copy_value(v: &Value) -> (r: Value)
    ensures
        r == *v,
{
    match v {
        Value::Absent => Value::Absent,
        Value::Text(s) => Value::Text(s.clone()),
        Value::Int(n) => Value::Int(*n),
        Value::Bool(b) => Value::Bool(*b),
    }
}

/// A copy of a sequence of values.
pub fn copy_values(vs: &Vec<Value>) -> (r: Vec<Value>)
    ensures
        r@ == vs@,
{
    let mut out: Vec<Value> = Vec::new();
    let mut i: usize = 0;
    while i < vs.len()
        invariant
            i <= vs@.len(),
            out@ == vs@.subrange(0, i as int),
        decreases vs@.len() - i,
    {
        out.push(copy_value(&vs[i]));
        i = i + 1;
    }
    assert(out@ =~= vs@);
    out
}

/// The storage of one field in a builder.
#[derive(Debug)]
pub enum Slot {
    /// A required or optional field: absent until set.
    Single(Option<Value>),
    /// An accumulating field: the elements appended so far.
    Many(Vec<Value>),
}

/// The model of [`Slot`].
pub enum SlotView {
    Single(Option<Value>),
    Many(Seq<Value>),
}

impl View for Slot {
    type V = SlotView;

    open spec fn view(&self) -> SlotView {
        match self {
            Slot::Single(o) => SlotView::Single(*o),
            Slot::Many(vs) => SlotView::Many(vs@),
        }
    }
}

/// One field of a built record.
#[derive(Debug, PartialEq, Eq)]
pub enum FieldValue {
    One(Value),
    Many(Vec<Value>),
}

/// The model of [`FieldValue`].
pub enum Resolved {
    One(Value),
    Many(Seq<Value>),
}

impl View for FieldValue {
    type V = Resolved;

    open spec fn view(&self) -> Resolved {
        match self {
            FieldValue::One(v) => Resolved::One(*v),
            FieldValue::Many(vs) => Resolved::Many(vs@),
        }
    }
}

/// `build` found a required field that was never set.
#[derive(Debug, PartialEq, Eq)]
pub struct FieldNotSet {
    /// The field's name.
    pub field: String,
}

/// A builder created from a plan.
#[derive(Debug)]
pub struct Builder {
    names: Vec<String>,
    kinds: Vec<SlotKind>,
    setters: Vec<String>,
    slots: Vec<Slot>,
}

/// The model of [`Builder`]: per field its name, slot kind, setter name and
/// slot, in declaration order.
pub struct BuilderView {
    pub names: Seq<Seq<char>>,
    pub kinds: Seq<SlotKind>,
    pub setters: Seq<Seq<char>>,
    pub slots: Seq<SlotView>,
}

impl View for Builder {
    type V = BuilderView;

    closed spec fn view(&self) -> BuilderView {
        BuilderView {
            names: self.names@.map_values(|s: String| s@),
            kinds: self.kinds@,
            setters: self.setters@.map_values(|s: String| s@),
            slots: self.slots@.map_values(|s: Slot| s@),
        }
    }
}

impl BuilderView {
    /// One entry per field in each sequence, setters of distinct names, and
    /// an accumulator slot exactly for accumulating fields.
    pub open spec fn wf(self) -> bool {
        &&& self.kinds.len() == self.names.len()
        &&& forall|j: int, k: int|
            0 <= j < k < self.setters.len() ==> (#[trigger] self.setters[j]) != (#[trigger] self.setters[k])
        &&& self.setters.len() == self.names.len()
        &&& self.slots.len() == self.names.len()
        &&& forall|k: int|
            0 <= k < self.slots.len() ==> ((self.kinds[k] == SlotKind::Accumulator) <==> (
            #[trigger] self.slots[k]) is Many)
    }
}

/// The slot of a field of this kind in a fresh builder.
pub open spec fn initial_slot(k: SlotKind) -> SlotView {
    match k {
        SlotKind::Accumulator => SlotView::Many(Seq::empty()),
        _ => SlotView::Single(None),
    }
}

/// A fresh builder for `plan`.
pub open spec fn initial_view(plan: Seq<FieldPlan>) -> BuilderView {
    BuilderView {
        names: plan.map_values(|f: FieldPlan| f.name@),
        kinds: plan.map_values(|f: FieldPlan| f.kind),
        setters: plan.map_values(|f: FieldPlan| f.setter@),
        slots: plan.map_values(|f: FieldPlan| initial_slot(f.kind)),
    }
}

/// What a slot gives at build time, or `None` for a required field never set.
pub open spec fn resolve_slot(k: SlotKind, s: SlotView) -> Option<Resolved> {
    match s {
        SlotView::Many(vs) => Some(Resolved::Many(vs)),
        SlotView::Single(Some(v)) => Some(Resolved::One(v)),
        SlotView::Single(None) => if k == SlotKind::Optional {
            Some(Resolved::One(Value::Absent))
        } else {
            None
        },
    }
}

/// The first `n` fields resolved in order, or the position of the first that
/// fails.
pub open spec fn build_upto(b: BuilderView, n: int) -> Result<Seq<Resolved>, int>
    decreases n,
{
    if n <= 0 {
        Ok(Seq::empty())
    } else {
        match build_upto(b, n - 1) {
            Err(i) => Err(i),
            Ok(vs) => match resolve_slot(b.kinds[n - 1], b.slots[n - 1]) {
                Some(v) => Ok(vs.push(v)),
                None => Err(n - 1),
            },
        }
    }
}

/// What `build` gives: every field resolved, or the position of the first
/// required field never set.
pub open spec fn build_spec(b: BuilderView) -> Result<Seq<Resolved>, int> {
    build_upto(b, b.slots.len() as int)
}

/// Field `k` is the first whose setter is called `name`.
pub open spec fn setter_at(b: BuilderView, name: Seq<char>, k: int) -> bool {
    &&& 0 <= k < b.setters.len()
    &&& b.setters[k] == name
    &&& forall|j: int| 0 <= j < k ==> b.setters[j] != name
}

/// A slot after its setter was called with `v`: an accumulator appends it,
/// another slot holds it.
pub open spec fn set_slot(s: SlotView, v: Value) -> SlotView {
    match s {
        SlotView::Many(vs) => SlotView::Many(vs.push(v)),
        SlotView::Single(_) => SlotView::Single(Some(v)),
    }
}

/// The builder after a call of the setter `name` with `v`; unchanged when no
/// field has that setter.
pub open spec fn apply_setter(b: BuilderView, name: Seq<char>, v: Value) -> BuilderView {
    if exists|k: int| setter_at(b, name, k) {
        let k = choose|k: int| setter_at(b, name, k);
        BuilderView { slots: b.slots.update(k, set_slot(b.slots[k], v)), ..b }
    } else {
        b
    }
}


proof fn lemma_first_unique(b: BuilderView, name: Seq<char>, k: int, m: int)
    requires
        setter_at(b, name, k),
        setter_at(b, name, m),
    ensures
        k == m,
{
}

impl Builder {
    /// A fresh builder for `plan`: every accumulator empty, every other slot
    /// absent. A plan made by `synthesize` has setters of distinct names.
    pub fn new(plan: &BuilderPlan) -> (r: Builder)
        requires
            distinct_setters(plan.fields@),
        ensures
            r@.wf(),
            r@ == initial_view(plan.fields@),
    {
        let n = plan.fields.len();
        let mut names: Vec<String> = Vec::new();
        let mut kinds: Vec<SlotKind> = Vec::new();
        let mut setters: Vec<String> = Vec::new();
        let mut slots: Vec<Slot> = Vec::new();
        let mut i: usize = 0;
        while i < n
            invariant
                n == plan.fields@.len(),
                i <= n,
                names@.len() == i,
                kinds@.len() == i,
                setters@.len() == i,
                slots@.len() == i,
                forall|k: int| 0 <= k < i ==> #[trigger] names@[k]@ == plan.fields@[k].name@,
                forall|k: int| 0 <= k < i ==> #[trigger] kinds@[k] == plan.fields@[k].kind,
                forall|k: int| 0 <= k < i ==> #[trigger] setters@[k]@ == plan.fields@[k].setter@,
                forall|k: int| 0 <= k < i ==> #[trigger] slots@[k]@ == initial_slot(plan.fields@[k].kind),
            decreases n - i,
        {
            let f = &plan.fields[i];
            names.push(f.name.clone());
            kinds.push(f.kind);
            setters.push(f.setter.clone());
            let slot = match f.kind {
                SlotKind::Accumulator => Slot::Many(Vec::new()),
                _ => Slot::Single(None),
            };
            proof {
                assert(slot@ == initial_slot(f.kind)) by {
                    if f.kind == SlotKind::Accumulator {
                        assert(slot@ == SlotView::Many(Seq::<Value>::empty()));
                    }
                }
            }
            slots.push(slot);
            i = i + 1;
        }
        let r = Builder { names, kinds, setters, slots };
        assert(r@.names =~= initial_view(plan.fields@).names);
        assert(r@.kinds =~= initial_view(plan.fields@).kinds);
        assert(r@.setters =~= initial_view(plan.fields@).setters);
        assert(r@.slots =~= initial_view(plan.fields@).slots);
        r
    }

    /// The position of the first field whose setter is called `name`.
    fn find_setter(&self, name: &str) -> (r: Option<usize>)
        ensures
            match r {
                Some(k) => setter_at(self@, name@, k as int),
                None => !exists|k: int| setter_at(self@, name@, k),
            },
    {
        let mut i: usize = 0;
        while i < self.setters.len()
            invariant
                i <= self.setters@.len(),
                forall|j: int| 0 <= j < i ==> self@.setters[j] != name@,
            decreases self.setters@.len() - i,
        {
            if crate::options::same_text(self.setters[i].as_str(), name) {
                return Some(i);
            }
            i = i + 1;
        }
        None
    }

    /// Whether some field has a setter called `name`.
    pub fn has_setter(&self, name: &str) -> (r: bool)
        ensures
            r == exists|k: int| setter_at(self@, name@, k),
    {
        self.find_setter(name).is_some()
    }

    /// Calls the setter `name` with `v`: an accumulating field appends `v`,
    /// another field holds `v` in place of what it held. Returns the builder
    /// itself, so that calls chain.
    pub fn set(&mut self, name: &str, v: Value) -> (r: &mut Builder)
        requires
            old(self)@.wf(),
        ensures
            r@ == apply_setter(old(self)@, name@, v),
            r@.wf(),
            *final(self) == *final(r),
    {
        match self.find_setter(name) {
            Some(k) => {
                let ghost pre = self@;
                let mut slot = Slot::Single(None);
                std::mem::swap(&mut slot, &mut self.slots[k]);
                let slot = match slot {
                    Slot::Many(mut vs) => {
                        vs.push(v);
                        Slot::Many(vs)
                    },
                    Slot::Single(_) => Slot::Single(Some(v)),
                };
                self.slots.set(k, slot);
                proof {
                    let c = choose|j: int| setter_at(pre, name@, j);
                    lemma_first_unique(pre, name@, k as int, c);
                    assert(self@.slots =~= pre.slots.update(k as int, set_slot(pre.slots[k as int], v)));
                    assert(self@.names == pre.names);
                    assert(self@.setters == pre.setters);
                }
            },
            None => {},
        }
        self
    }

    /// Resolves every field in declaration order. Fails on the first
    /// required field that was never set, naming it; the builder is left as
    /// it was.
    pub fn build(&self) -> (r: Result<Vec<FieldValue>, FieldNotSet>)
        requires
            self@.wf(),
        ensures
            match (r, build_spec(self@)) {
                (Ok(vs), Ok(rs)) => vs@.map_values(|f: FieldValue| f@) == rs,
                (Err(e), Err(i)) => 0 <= i < self@.names.len() && e.field@ == self@.names[i],
                _ => false,
            },
    {
        let n = self.slots.len();
        let mut out: Vec<FieldValue> = Vec::new();
        assert(out@.map_values(|f: FieldValue| f@) =~= Seq::<Resolved>::empty());
        let mut i: usize = 0;
        while i < n
            invariant
                self@.wf(),
                n == self@.slots.len(),
                i <= n,
                build_upto(self@, i as int) == Ok::<Seq<Resolved>, int>(out@.map_values(|f: FieldValue| f@)),
            decreases n - i,
        {
            let ghost pre = out@.map_values(|f: FieldValue| f@);
            let fv = match &self.slots[i] {
                Slot::Many(vs) => FieldValue::Many(copy_values(vs)),
                Slot::Single(Some(v)) => FieldValue::One(copy_value(v)),
                Slot::Single(None) => {
                    if self.kinds[i] == SlotKind::Optional {
                        FieldValue::One(Value::Absent)
                    } else {
                        proof {
                            lemma_failure_sticks(self@, i as int + 1, n as int);
                        }
                        return Err(FieldNotSet { field: self.names[i].clone() });
                    }
                },
            };
            assert(resolve_slot(self@.kinds[i as int], self@.slots[i as int]) == Some(fv@));
            out.push(fv);
            assert(out@.map_values(|f: FieldValue| f@) =~= pre.push(fv@));
            i = i + 1;
        }
        Ok(out)
    }
}

proof fn lemma_failure_sticks(b: BuilderView, k: int, m: int)
    requires
        0 <= k <= m,
        build_upto(b, k) is Err,
    ensures
        build_upto(b, m) == build_upto(b, k),
    decreases m - k,
{
    if m > k {
        lemma_failure_sticks(b, k, m - 1);
    }
}


/// `build_upto` resolves each of the first `n` fields in turn and stops at the
/// first that fails.
pub proof fn lemma_build_upto(b: BuilderView, n: int)
    requires
        0 <= n <= b.slots.len(),
        b.kinds.len() == b.slots.len(),
    ensures
        match build_upto(b, n) {
            Ok(vs) => vs.len() == n && forall|k: int|
                0 <= k < n ==> resolve_slot(b.kinds[k], b.slots[k]) == Some(#[trigger] vs[k]),
            Err(i) => 0 <= i < n && resolve_slot(b.kinds[i], b.slots[i]) is None && forall|k: int|
                0 <= k < i ==> (#[trigger] resolve_slot(b.kinds[k], b.slots[k])) is Some,
        },
    decreases n,
{
    if n > 0 {
        lemma_build_upto(b, n - 1);
        if let Ok(prev) = build_upto(b, n - 1) {
            if let Some(v) = resolve_slot(b.kinds[n - 1], b.slots[n - 1]) {
                let vs = prev.push(v);
                assert forall|k: int| 0 <= k < n implies resolve_slot(b.kinds[k], b.slots[k]) == Some(
                    #[trigger] vs[k]) by {
                    if k < n - 1 {
                        assert(vs[k] == prev[k]);
                    }
                }
            } else {
                assert forall|k: int| 0 <= k < n - 1 implies (#[trigger] resolve_slot(b.kinds[k], b.slots[k])) is Some by {
                    assert(resolve_slot(b.kinds[k], b.slots[k]) == Some(prev[k]));
                }
            }
        }
    }
}

/// A record whose fields are all required: `build` fails on the first field,
/// in declaration order, that was never set, and once every field is set it
/// succeeds with exactly the values set.
pub proof fn law_required_fields(b: BuilderView)
    requires
        b.wf(),
        forall|k: int| 0 <= k < b.kinds.len() ==> b.kinds[k] == SlotKind::Required,
    ensures
        forall|i: int|
            #![trigger b.slots[i]]
            0 <= i < b.slots.len() && b.slots[i] == SlotView::Single(None) && (forall|k: int|
                0 <= k < i ==> b.slots[k] is Single && b.slots[k]->Single_0 is Some) ==> build_spec(b)
                == Err::<Seq<Resolved>, int>(i),
        (forall|k: int| 0 <= k < b.slots.len() ==> b.slots[k] is Single && b.slots[k]->Single_0 is Some)
            ==> (build_spec(b) matches Ok(vs) && vs.len() == b.slots.len() && forall|k: int|
            0 <= k < b.slots.len() ==> vs[k] == Resolved::One(b.slots[k]->Single_0->Some_0)),
{
    let n = b.slots.len() as int;
    lemma_build_upto(b, n);
    assert forall|i: int|
        #![trigger b.slots[i]]
        0 <= i < b.slots.len() && b.slots[i] == SlotView::Single(None) && (forall|k: int|
            0 <= k < i ==> b.slots[k] is Single && b.slots[k]->Single_0 is Some) implies build_spec(b)
        == Err::<Seq<Resolved>, int>(i) by {
        match build_upto(b, n) {
            Ok(vs) => {
                assert(resolve_slot(b.kinds[i], b.slots[i]) == Some(vs[i]));
            },
            Err(j) => {
                if j < i {
                    assert(b.slots[j] is Single && b.slots[j]->Single_0 is Some);
                } else if j > i {
                    assert(resolve_slot(b.kinds[i], b.slots[i]) is Some);
                }
            },
        }
    }
    if forall|k: int| 0 <= k < b.slots.len() ==> b.slots[k] is Single && b.slots[k]->Single_0 is Some {
        match build_upto(b, n) {
            Ok(vs) => {
                assert forall|k: int| 0 <= k < b.slots.len() implies vs[k] == Resolved::One(
                    b.slots[k]->Single_0->Some_0) by {
                    assert(resolve_slot(b.kinds[k], b.slots[k]) == Some(vs[k]));
                }
            },
            Err(j) => {
                assert(b.slots[j] is Single && b.slots[j]->Single_0 is Some);
            },
        }
    }
}

/// A fresh builder whose first field is required fails to build, naming that
/// field.
pub proof fn law_fresh_builder_needs_first_required(plan: Seq<FieldPlan>)
    requires
        plan.len() > 0,
        plan[0].kind == SlotKind::Required,
    ensures
        build_spec(initial_view(plan)) == Err::<Seq<Resolved>, int>(0),
{
    let b = initial_view(plan);
    assert(b.kinds[0] == SlotKind::Required);
    assert(b.slots[0] == initial_slot(plan[0].kind));
    assert(resolve_slot(b.kinds[0], b.slots[0]) is None);
    lemma_build_upto(b, b.slots.len() as int);
    match build_upto(b, b.slots.len() as int) {
        Ok(vs) => {
            assert(resolve_slot(b.kinds[0], b.slots[0]) == Some(vs[0]));
        },
        Err(j) => {
            if j > 0 {
                assert(resolve_slot(b.kinds[0], b.slots[0]) is Some);
            }
        },
    }
}

/// An optional field never makes `build` fail; it resolves to "no value"
/// while unset and to the value set once it is set.
pub proof fn law_optional_field(b: BuilderView, i: int)
    requires
        b.wf(),
        0 <= i < b.slots.len(),
        b.kinds[i] == SlotKind::Optional,
    ensures
        build_spec(b) matches Err(j) ==> j != i,
        build_spec(b) matches Ok(vs) ==> vs[i] == Resolved::One(
            match b.slots[i] {
                SlotView::Single(Some(v)) => v,
                _ => Value::Absent,
            },
        ),
        initial_slot(b.kinds[i]) == SlotView::Single(None),
{
    lemma_build_upto(b, b.slots.len() as int);
    if build_spec(b) is Ok {
        assert(resolve_slot(b.kinds[i], b.slots[i]) == Some(build_spec(b)->Ok_0[i]));
    }
}

/// An accumulating field starts empty, each call of its setter appends
/// exactly that one element and leaves the other fields alone, and it never
/// makes `build` fail.
pub proof fn law_accumulator_field(b: BuilderView, i: int, v: Value)
    requires
        b.wf(),
        0 <= i < b.slots.len(),
        b.kinds[i] == SlotKind::Accumulator,
    ensures
        initial_slot(b.kinds[i]) == SlotView::Many(Seq::<Value>::empty()),
        apply_setter(b, b.setters[i], v).slots[i] == SlotView::Many(b.slots[i]->Many_0.push(v)),
        forall|k: int|
            0 <= k < b.slots.len() && k != i ==> #[trigger] apply_setter(b, b.setters[i], v).slots[k]
                == b.slots[k],
        build_spec(b) matches Err(j) ==> j != i,
{
    let name = b.setters[i];
    assert(setter_at(b, name, i));
    let c = choose|k: int| setter_at(b, name, k);
    lemma_first_unique(b, name, i, c);
    lemma_build_upto(b, b.slots.len() as int);
}

/// The builder after the setter calls `calls`, in order.
pub open spec fn apply_calls(b: BuilderView, calls: Seq<(Seq<char>, Value)>) -> BuilderView
    decreases calls.len(),
{
    if calls.len() == 0 {
        b
    } else {
        apply_calls(apply_setter(b, calls[0].0, calls[0].1), calls.drop_first())
    }
}

/// A setter call keeps the builder well formed.
pub proof fn lemma_apply_setter_wf(b: BuilderView, name: Seq<char>, v: Value)
    requires
        b.wf(),
    ensures
        apply_setter(b, name, v).wf(),
        apply_setter(b, name, v).names == b.names,
        apply_setter(b, name, v).kinds == b.kinds,
        apply_setter(b, name, v).setters == b.setters,
        apply_setter(b, name, v).slots.len() == b.slots.len(),
{
    if exists|k: int| setter_at(b, name, k) {
        let k = choose|k: int| setter_at(b, name, k);
        let a = apply_setter(b, name, v);
        assert forall|j: int| 0 <= j < a.slots.len() implies ((a.kinds[j] == SlotKind::Accumulator) <==> (
        #[trigger] a.slots[j]) is Many) by {
            if j != k {
                assert(a.slots[j] == b.slots[j]);
            }
        }
    }
}

/// A chain of setter calls may be cut anywhere: running `first` and then
/// `second` on the builder it left gives the state of running both as one
/// chain, and every state on the way is well formed. So a chain of calls on
/// the returned reference and the same calls made one statement at a time
/// leave equal builders.
pub proof fn law_chaining(b: BuilderView, first: Seq<(Seq<char>, Value)>, second: Seq<(Seq<char>, Value)>)
    requires
        b.wf(),
    ensures
        apply_calls(b, first + second) == apply_calls(apply_calls(b, first), second),
        apply_calls(b, first).wf(),
        apply_calls(b, first).names == b.names,
        apply_calls(b, first).kinds == b.kinds,
        apply_calls(b, first).setters == b.setters,
        apply_calls(b, first).slots.len() == b.slots.len(),
    decreases first.len(),
{
    lemma_apply_setter_wf(b, if first.len() > 0 { first[0].0 } else { Seq::empty() }, if first.len() > 0 {
        first[0].1
    } else {
        Value::Absent
    });
    if first.len() > 0 {
        let b1 = apply_setter(b, first[0].0, first[0].1);
        assert((first + second).drop_first() =~= first.drop_first() + second);
        assert((first + second)[0] == first[0]);
        law_chaining(b1, first.drop_first(), second);
    } else {
        assert(first + second =~= second);
    }
}

/// The values passed, in order, by the calls of the setter `name` in `calls`.
pub open spec fn values_for(calls: Seq<(Seq<char>, Value)>, name: Seq<char>) -> Seq<Value>
    decreases calls.len(),
{
    if calls.len() == 0 {
        Seq::empty()
    } else {
        let head: Seq<Value> = if calls[0].0 == name { seq![calls[0].1] } else { Seq::empty() };
        head + values_for(calls.drop_first(), name)
    }
}

/// Over any sequence of setter calls, an accumulating field gains exactly
/// the values passed to its own setter, in call order (none when it is never
/// called), and `build` gives that sequence for it.
pub proof fn law_accumulator_collects(b: BuilderView, i: int, calls: Seq<(Seq<char>, Value)>)
    requires
        b.wf(),
        0 <= i < b.slots.len(),
        b.kinds[i] == SlotKind::Accumulator,
    ensures
        apply_calls(b, calls).slots[i] == SlotView::Many(b.slots[i]->Many_0 + values_for(calls, b.setters[i])),
        build_spec(apply_calls(b, calls)) matches Ok(vs) ==> vs[i] == Resolved::Many(
            b.slots[i]->Many_0 + values_for(calls, b.setters[i]),
        ),
    decreases calls.len(),
{
    let name = b.setters[i];
    if calls.len() == 0 {
        assert(b.slots[i]->Many_0 + values_for(calls, name) =~= b.slots[i]->Many_0);
    } else {
        let (c, v) = calls[0];
        let b1 = apply_setter(b, c, v);
        lemma_apply_setter_wf(b, c, v);
        let old_vs = b.slots[i]->Many_0;
        if c == name {
            law_accumulator_field(b, i, v);
            assert(old_vs.push(v) =~= old_vs + seq![v]);
        } else {
            if exists|k: int| setter_at(b, c, k) {
                let k = choose|k: int| setter_at(b, c, k);
                assert(k != i);
                assert(b1.slots[i] == b.slots[i]);
            }
            assert(old_vs + Seq::<Value>::empty() =~= old_vs);
        }
        assert(b1.slots[i] == SlotView::Many(b.slots[i]->Many_0 + (if c == name { seq![v] } else { Seq::<Value>::empty() })));
        law_accumulator_collects(b1, i, calls.drop_first());
        assert(b.slots[i]->Many_0 + values_for(calls, name) =~= (b.slots[i]->Many_0 + (if c == name {
            seq![v]
        } else {
            Seq::<Value>::empty()
        })) + values_for(calls.drop_first(), name));
    }
    let a = apply_calls(b, calls);
    law_chaining(b, calls, Seq::empty());
    assert(calls + Seq::<(Seq<char>, Value)>::empty() =~= calls);
    lemma_build_upto(a, a.slots.len() as int);
    if build_spec(a) is Ok {
        assert(resolve_slot(a.kinds[i], a.slots[i]) == Some(build_spec(a)->Ok_0[i]));
    }
}

/// A required or optional slot after the calls `calls`: the last value
/// passed to its setter, or what it held before when the setter was never
/// called.
proof fn lemma_single_slot_history(b: BuilderView, i: int, calls: Seq<(Seq<char>, Value)>)
    requires
        b.wf(),
        0 <= i < b.slots.len(),
        b.kinds[i] != SlotKind::Accumulator,
    ensures
        apply_calls(b, calls).slots[i] == (if values_for(calls, b.setters[i]).len() > 0 {
            SlotView::Single(Some(values_for(calls, b.setters[i]).last()))
        } else {
            b.slots[i]
        }),
    decreases calls.len(),
{
    let name = b.setters[i];
    if calls.len() > 0 {
        let (c, v) = calls[0];
        let b1 = apply_setter(b, c, v);
        lemma_apply_setter_wf(b, c, v);
        let rest = calls.drop_first();
        if c == name {
            assert(setter_at(b, name, i));
            let k = choose|k: int| setter_at(b, name, k);
            lemma_first_unique(b, name, i, k);
            assert(b1.slots[i] == SlotView::Single(Some(v)));
        } else if exists|k: int| setter_at(b, c, k) {
            let k = choose|k: int| setter_at(b, c, k);
            assert(k != i);
            assert(b1.slots[i] == b.slots[i]);
        }
        lemma_single_slot_history(b1, i, rest);
        let head: Seq<Value> = if c == name { seq![v] } else { Seq::empty() };
        assert(values_for(calls, name) == head + values_for(rest, name));
        if values_for(rest, name).len() > 0 {
            assert((head + values_for(rest, name)).last() == values_for(rest, name).last());
        }
    }
}

/// What a field of this kind resolves to after its setter was passed `vals`:
/// an accumulator gives them all, another field the last one; an optional
/// field never set gives "no value", a required one never set gives `None`.
pub open spec fn after_history(k: SlotKind, vals: Seq<Value>) -> Option<Resolved> {
    match k {
        SlotKind::Accumulator => Some(Resolved::Many(vals)),
        _ => if vals.len() > 0 {
            Some(Resolved::One(vals.last()))
        } else if k == SlotKind::Optional {
            Some(Resolved::One(Value::Absent))
        } else {
            None
        },
    }
}

/// A required field whose setter is never called in `calls`.
pub open spec fn left_unset(plan: Seq<FieldPlan>, calls: Seq<(Seq<char>, Value)>, k: int) -> bool {
    plan[k].kind == SlotKind::Required && values_for(calls, plan[k].setter@).len() == 0
}

/// A fresh builder for `plan` followed by any setter calls: each field
/// resolves as [`after_history`] says; `build` fails exactly when some
/// required field's setter was never called, and then names the first such
/// field in declaration order; otherwise it gives every field's value.
pub proof fn law_build_after_calls(plan: Seq<FieldPlan>, calls: Seq<(Seq<char>, Value)>)
    requires
        distinct_setters(plan),
    ensures
        ({
            let b = apply_calls(initial_view(plan), calls);
            &&& forall|i: int|
                0 <= i < plan.len() ==> resolve_slot(b.kinds[i], b.slots[i]) == after_history(
                    plan[i].kind,
                    values_for(calls, (#[trigger] plan[i]).setter@),
                )
            &&& build_spec(b) matches Err(m) ==> 0 <= m < plan.len() && left_unset(plan, calls, m) && forall|k: int|
                0 <= k < m ==> !(#[trigger] left_unset(plan, calls, k))
            &&& build_spec(b) matches Ok(vs) ==> vs.len() == plan.len() && forall|i: int|
                0 <= i < plan.len() ==> Some(#[trigger] vs[i]) == after_history(
                    plan[i].kind,
                    values_for(calls, plan[i].setter@),
                )
            &&& (forall|k: int| 0 <= k < plan.len() ==> !(#[trigger] left_unset(plan, calls, k))) ==> build_spec(
                b,
            ) is Ok
        }),
{
    let b0 = initial_view(plan);
    assert(b0.wf());
    let b = apply_calls(b0, calls);
    law_chaining(b0, calls, Seq::empty());
    assert(calls + Seq::<(Seq<char>, Value)>::empty() =~= calls);
    assert forall|i: int|
        0 <= i < plan.len() implies resolve_slot(b.kinds[i], b.slots[i]) == after_history(
        plan[i].kind,
        values_for(calls, (#[trigger] plan[i]).setter@),
    ) by {
        assert(b0.kinds[i] == plan[i].kind);
        assert(b0.setters[i] == plan[i].setter@);
        assert(b0.slots[i] == initial_slot(plan[i].kind));
        if plan[i].kind == SlotKind::Accumulator {
            law_accumulator_collects(b0, i, calls);
            assert(Seq::<Value>::empty() + values_for(calls, plan[i].setter@) =~= values_for(
                calls,
                plan[i].setter@,
            ));
        } else {
            lemma_single_slot_history(b0, i, calls);
        }
    }
    lemma_build_upto(b, b.slots.len() as int);
    match build_spec(b) {
        Err(m) => {
            assert(resolve_slot(b.kinds[m], b.slots[m]) is None);
            assert(left_unset(plan, calls, m) || plan[m].kind != SlotKind::Required);
            assert forall|k: int| 0 <= k < m implies !(#[trigger] left_unset(plan, calls, k)) by {
                assert(resolve_slot(b.kinds[k], b.slots[k]) is Some);
            }
        },
        Ok(vs) => {
            assert forall|i: int| 0 <= i < plan.len() implies Some(#[trigger] vs[i]) == after_history(
                plan[i].kind,
                values_for(calls, plan[i].setter@),
            ) by {
                assert(resolve_slot(b.kinds[i], b.slots[i]) == Some(vs[i]));
            }
        },
    }
}

/// Two builders that differ only in the contents of one accumulating field
/// either both build or both fail on the same field: an accumulator never
/// decides whether `build` succeeds.
pub proof fn law_accumulator_never_decides(b1: BuilderView, b2: BuilderView, i: int)
    requires
        b1.wf(),
        b2.wf(),
        b1.kinds == b2.kinds,
        b1.slots.len() == b2.slots.len(),
        0 <= i < b1.slots.len(),
        b1.kinds[i] == SlotKind::Accumulator,
        forall|k: int| 0 <= k < b1.slots.len() && k != i ==> b1.slots[k] == b2.slots[k],
    ensures
        build_spec(b1) is Ok <==> build_spec(b2) is Ok,
        build_spec(b1) matches Err(m) ==> build_spec(b2) == Err::<Seq<Resolved>, int>(m),
{
    let n = b1.slots.len() as int;
    lemma_build_upto(b1, n);
    lemma_build_upto(b2, n);
    assert(b1.slots[i] is Many && b2.slots[i] is Many);
    assert forall|k: int| 0 <= k < n implies (resolve_slot(b1.kinds[k], b1.slots[k]) is Some) == (
    #[trigger] resolve_slot(b2.kinds[k], b2.slots[k]) is Some) by {
        if k != i {
            assert(b1.slots[k] == b2.slots[k]);
        }
    }
    match (build_spec(b1), build_spec(b2)) {
        (Err(m1), Err(m2)) => {
            if m1 < m2 {
                assert(resolve_slot(b2.kinds[m1], b2.slots[m1]) is Some);
            } else if m2 < m1 {
                assert(resolve_slot(b1.kinds[m2], b1.slots[m2]) is Some);
            }
        },
        (Ok(vs), Err(m2)) => {
            assert(resolve_slot(b1.kinds[m2], b1.slots[m2]) == Some(vs[m2]));
        },
        (Err(m1), Ok(vs)) => {
            assert(resolve_slot(b2.kinds[m1], b2.slots[m1]) == Some(vs[m1]));
        },
        _ => {},
    }
}
} // verus!
