//! The builder synthesizer: from a record's declaration to the plan of its
//! builder.
use vstd::prelude::*;
use vstd::string::StringExecFns;
use crate::options::{resolve, resolve_spec, FieldOptions, OptionError, OptionsView};
use crate::schema::{FieldSchema, RecordBody, RecordSchema};
use crate::types::{inner_type_spec, ty_inner_type};

verus! {

/// How a field is held in the builder.
#[derive(PartialEq, Eq, Structural, Clone, Copy, Debug)]
pub enum SlotKind {
    /// Starts absent; `build` fails while it is absent.
    Required,
    /// Starts absent; `build` gives "no value" while it is absent.
    Optional,
    /// A sequence that starts empty and grows by one element per setter call.
    Accumulator,
}

/// The builder's slot and setter for one field.
#[derive(Debug, PartialEq, Eq)]
pub struct FieldPlan {
    /// The field's name.
    pub name: String,
    pub kind: SlotKind,
    /// The setter's name: the field's name, or for an accumulator the name
    /// given by `each`.
    pub setter: String,
}

/// The plan of the builder of one record type.
#[derive(Debug, PartialEq, Eq)]
pub struct BuilderPlan {
    pub record: String,
    /// The builder type's name: the record's name followed by `Builder`.
    pub builder: String,
    /// One entry per field, in declaration order.
    pub fields: Vec<FieldPlan>,
}

/// Why no builder could be synthesized.
#[derive(Debug, PartialEq, Eq)]
pub enum SynthError {
    /// The declaration is not a struct with named fields.
    UnsupportedShape,
    /// A `builder` attribute of the field holds a key other than `optional`
    /// and `each`.
    UnrecognizedOption { field: String },
    /// A `builder` attribute of the field does not follow the grammar.
    MalformedOption { field: String },
    /// The field is marked `each`, but its type is not `Vec<T>`.
    ElementTypeMismatch { field: String },
    /// The field's setter has the name of an earlier field's setter.
    DuplicateSetter { field: String },
}

/// The slot kind that options select: `each` wins over `optional`.
pub open spec fn slot_kind(o: OptionsView) -> SlotKind {
    if o.each is Some {
        SlotKind::Accumulator
    } else if o.optional {
        SlotKind::Optional
    } else {
        SlotKind::Required
    }
}

/// The setter's name for a field with these options.
pub open spec fn setter_name(field: Seq<char>, o: OptionsView) -> Seq<char> {
    match o.each {
        Some(n) => n,
        None => field,
    }
}

pub open spec fn options_of(f: FieldSchema) -> Result<OptionsView, OptionError> {
    resolve_spec(f.attrs@)
}

/// The options of every field can be read.
pub open spec fn all_options_read(fields: Seq<FieldSchema>) -> bool {
    forall|k: int| 0 <= k < fields.len() ==> (#[trigger] options_of(fields[k])) is Ok
}

/// Field `i` is the first whose options cannot be read, and fails with `e`.
pub open spec fn first_option_error(fields: Seq<FieldSchema>, i: int, e: OptionError) -> bool {
    &&& 0 <= i < fields.len()
    &&& forall|k: int| 0 <= k < i ==> (#[trigger] options_of(fields[k])) is Ok
    &&& options_of(fields[i]) == Err::<OptionsView, OptionError>(e)
}

/// The field is no accumulator, or its type has an element type.
pub open spec fn element_known(f: FieldSchema) -> bool {
    match options_of(f) {
        Ok(o) => o.each is Some ==> inner_type_spec("Vec"@, f.ty) is Some,
        Err(_) => true,
    }
}

/// Field `i` is the first accumulator whose element type is unknown.
pub open spec fn first_element_error(fields: Seq<FieldSchema>, i: int) -> bool {
    &&& 0 <= i < fields.len()
    &&& forall|k: int| 0 <= k < i ==> element_known(#[trigger] fields[k])
    &&& !element_known(fields[i])
}

/// The name of the field's setter (its own name where its options cannot be
/// read).
pub open spec fn setter_of(f: FieldSchema) -> Seq<char> {
    match options_of(f) {
        Ok(o) => setter_name(f.name@, o),
        Err(_) => f.name@,
    }
}

/// An earlier field has a setter of the same name as field `i`.
pub open spec fn setter_clash(fields: Seq<FieldSchema>, i: int) -> bool {
    exists|j: int| 0 <= j < i && setter_of(fields[j]) == setter_of(#[trigger] fields[i])
}

/// Field `i` is the first whose setter name was taken by an earlier field.
pub open spec fn first_setter_clash(fields: Seq<FieldSchema>, i: int) -> bool {
    &&& 0 <= i < fields.len()
    &&& setter_clash(fields, i)
    &&& forall|k: int| 0 <= k < i ==> !(#[trigger] setter_clash(fields, k))
}

/// No two entries of the plan have setters of the same name.
pub open spec fn distinct_setters(plan: Seq<FieldPlan>) -> bool {
    forall|j: int, k: int| 0 <= j < k < plan.len() ==> (#[trigger] plan[j]).setter@ != (#[trigger] plan[k]).setter@
}

/// The plan's entry for a field whose options are `o`.
pub open spec fn plans_field(p: FieldPlan, f: FieldSchema, o: OptionsView) -> bool {
    &&& p.name@ == f.name@
    &&& p.kind == slot_kind(o)
    &&& p.setter@ == setter_name(f.name@, o)
}

/// The plan is the one that `fields` ask for.
pub open spec fn plans_fields(plan: Seq<FieldPlan>, fields: Seq<FieldSchema>) -> bool {
    &&& plan.len() == fields.len()
    &&& forall|k: int|
        0 <= k < fields.len() ==> match #[trigger] options_of(fields[k]) {
            Ok(o) => plans_field(plan[k], fields[k], o),
            Err(_) => false,
        }
}

/// The error that reports a field's options.
pub open spec fn option_error_of(e: OptionError, field: Seq<char>, r: SynthError) -> bool {
    match (e, r) {
        (OptionError::Unrecognized, SynthError::UnrecognizedOption { field: f }) => f@ == field,
        (OptionError::Malformed, SynthError::MalformedOption { field: f }) => f@ == field,
        _ => false,
    }
}


/// Synthesizes the plan of the builder of `schema`.
///
/// Fails on a declaration that is not a struct with named fields; then on the
/// first field, in declaration order, whose options cannot be read; then on
/// the first accumulator whose type is not `Vec<T>`.
pub fn synthesize(schema: &RecordSchema) -> (r: Result<BuilderPlan, SynthError>)
    ensures
        match schema.body {
            RecordBody::Unsupported => r matches Err(SynthError::UnsupportedShape),
            RecordBody::Named(fields) => match r {
                Ok(p) => {
                    &&& all_options_read(fields@)
                    &&& forall|k: int| 0 <= k < fields@.len() ==> element_known(#[trigger] fields@[k])
                    &&& p.record@ == schema.name@
                    &&& p.builder@ == schema.name@ + "Builder"@
                    &&& plans_fields(p.fields@, fields@)
                    &&& forall|k: int| 0 <= k < fields@.len() ==> !(#[trigger] setter_clash(fields@, k))
                    &&& distinct_setters(p.fields@)
                },
                Err(e) => {
                    ||| exists|i: int, oe: OptionError|
                        #[trigger] first_option_error(fields@, i, oe) && option_error_of(oe, fields@[i].name@, e)
                    ||| {
                        &&& all_options_read(fields@)
                        &&& exists|i: int|
                            first_element_error(fields@, i) && (e matches SynthError::ElementTypeMismatch { field }
                                && field@ == (#[trigger] fields@[i]).name@)
                    }
                    ||| {
                        &&& all_options_read(fields@)
                        &&& forall|k: int| 0 <= k < fields@.len() ==> element_known(#[trigger] fields@[k])
                        &&& exists|i: int|
                            first_setter_clash(fields@, i) && (e matches SynthError::DuplicateSetter { field }
                                && field@ == (#[trigger] fields@[i]).name@)
                    }
                },
            },
        },
        schema.body matches RecordBody::Named(fields) && (exists|k: int|
            0 <= k < fields@.len() && (#[trigger] options_of(fields@[k])) is Err) ==> r is Err,
        schema.body matches RecordBody::Named(fields) && (exists|i: int|
            #[trigger] first_option_error(fields@, i, OptionError::Unrecognized))
            ==> r matches Err(SynthError::UnrecognizedOption { .. }),
{
    let fields = match &schema.body {
        RecordBody::Named(f) => f,
        RecordBody::Unsupported => return Err(SynthError::UnsupportedShape),
    };
    let n = fields.len();
    let mut opts: Vec<FieldOptions> = Vec::new();
    let mut i: usize = 0;
    while i < n
        invariant
            schema.body == RecordBody::Named(*fields),
            n == fields@.len(),
            i <= n,
            opts@.len() == i,
            forall|k: int| 0 <= k < i ==> #[trigger] options_of(fields@[k]) == Ok::<OptionsView, OptionError>(opts@[k]@),
        decreases n - i,
    {
        match resolve(&fields[i].attrs) {
            Ok(o) => opts.push(o),
            Err(e) => {
                let field = fields[i].name.clone();
                assert(first_option_error(fields@, i as int, e));
                return match e {
                    OptionError::Unrecognized => Err(SynthError::UnrecognizedOption { field }),
                    OptionError::Malformed => Err(SynthError::MalformedOption { field }),
                };
            },
        }
        i = i + 1;
    }
    assert(all_options_read(fields@));
    let mut plan: Vec<FieldPlan> = Vec::new();
    let mut i: usize = 0;
    while i < n
        invariant
            schema.body == RecordBody::Named(*fields),
            n == fields@.len(),
            opts@.len() == n,
            forall|k: int| 0 <= k < n ==> #[trigger] options_of(fields@[k]) == Ok::<OptionsView, OptionError>(opts@[k]@),
            all_options_read(fields@),
            i <= n,
            plan@.len() == i,
            forall|k: int| 0 <= k < i ==> element_known(#[trigger] fields@[k]),
            forall|k: int| 0 <= k < i ==> plans_field(#[trigger] plan@[k], fields@[k], opts@[k]@),
        decreases n - i,
    {
        let f = &fields[i];
        assert(options_of(fields@[i as int]) == Ok::<OptionsView, OptionError>(opts@[i as int]@));
        match &opts[i].each {
            Some(setter) => {
                if ty_inner_type("Vec", &f.ty).is_none() {
                    let field = f.name.clone();
                    let r = Err(SynthError::ElementTypeMismatch { field });
                    assert(first_element_error(fields@, i as int) && (r->Err_0 matches SynthError::ElementTypeMismatch { field }
                        && field@ == fields@[i as int].name@));
                    return r;
                }
                plan.push(FieldPlan { name: f.name.clone(), kind: SlotKind::Accumulator, setter: setter.clone() });
            },
            None => {
                let kind = if opts[i].optional { SlotKind::Optional } else { SlotKind::Required };
                plan.push(FieldPlan { name: f.name.clone(), kind, setter: f.name.clone() });
            },
        }
        i = i + 1;
    }
    assert(plans_fields(plan@, fields@));
    let mut i: usize = 0;
    while i < n
        invariant
            schema.body == RecordBody::Named(*fields),
            n == fields@.len(),
            plan@.len() == n,
            plans_fields(plan@, fields@),
            i <= n,
            all_options_read(fields@),
            forall|k: int| 0 <= k < n ==> element_known(#[trigger] fields@[k]),
            forall|k: int| 0 <= k < i ==> !(#[trigger] setter_clash(fields@, k)),
            forall|j: int, k: int| 0 <= j < k < i ==> (#[trigger] plan@[j]).setter@ != (#[trigger] plan@[k]).setter@,
        decreases n - i,
    {
        let mut j: usize = 0;
        while j < i
            invariant
                i < n,
                n == fields@.len(),
                plan@.len() == n,
                plans_fields(plan@, fields@),
                j <= i,
                schema.body == RecordBody::Named(*fields),
                all_options_read(fields@),
                forall|k: int| 0 <= k < n ==> element_known(#[trigger] fields@[k]),
                forall|k: int| 0 <= k < i ==> !(#[trigger] setter_clash(fields@, k)),
                forall|m: int| 0 <= m < j ==> plan@[m].setter@ != plan@[i as int].setter@,
            decreases i - j,
        {
            if crate::options::same_text(plan[j].setter.as_str(), plan[i].setter.as_str()) {
                proof {
                    assert(setter_of(fields@[j as int]) == plan@[j as int].setter@);
                    assert(setter_of(fields@[i as int]) == plan@[i as int].setter@);
                    assert(setter_clash(fields@, i as int));
                }
                let field = fields[i].name.clone();
                let r = Err(SynthError::DuplicateSetter { field });
                assert(first_setter_clash(fields@, i as int) && (r->Err_0 matches SynthError::DuplicateSetter { field }
                    && field@ == fields@[i as int].name@));
                return r;
            }
            j = j + 1;
        }
        proof {
            assert forall|m: int| 0 <= m < i implies setter_of(fields@[m]) != setter_of(fields@[i as int]) by {
                assert(setter_of(fields@[m]) == plan@[m].setter@);
                assert(setter_of(fields@[i as int]) == plan@[i as int].setter@);
            }
        }
        i = i + 1;
    }
    Ok(BuilderPlan { record: schema.name.clone(), builder: schema.name.clone().concat("Builder"), fields: plan })
}

} // verus!
